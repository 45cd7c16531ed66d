use std::collections::VecDeque;
use vstd::prelude::*;

verus! {

use crate::message::Message;

/// Hard cap on the number of messages retained per room.
pub const HISTORY_CAP: usize = 100;

/// One room's bounded history. `history` is ordered most-recently-inserted
/// first, so the message at the back is the oldest retained one.
pub struct Room {
    pub room_id: String,
    pub history: VecDeque<Message>,
}

/// What one insert does to a newest-first history: the message goes to the
/// front, and whatever then stands beyond the cap falls off the back.
pub open spec fn push_capped(h: Seq<Message>, m: Message) -> Seq<Message> {
    let grown = seq![m] + h;
    if grown.len() <= HISTORY_CAP {
        grown
    } else {
        grown.subrange(0, HISTORY_CAP as int)
    }
}

/// The newest-first history that `rooms` holds for the room named `k`:
/// the history of the first entry so named, or empty when there is none.
pub open spec fn spec_history(rooms: Seq<Room>, k: Seq<char>) -> Seq<Message>
    decreases rooms.len(),
{
    if rooms.len() == 0 {
        Seq::empty()
    } else if rooms[0].room_id@ == k {
        rooms[0].history@
    } else {
        spec_history(rooms.drop_first(), k)
    }
}

/// Whether `rooms` holds an entry for the room named `k`.
pub open spec fn spec_has_room(rooms: Seq<Room>, k: Seq<char>) -> bool
    decreases rooms.len(),
{
    rooms.len() != 0 && (rooms[0].room_id@ == k || spec_has_room(rooms.drop_first(), k))
}

/// At the first entry named `k`, the stored history is that entry's.
proof fn lemma_history_at_first_match(rooms: Seq<Room>, i: int)
    requires
        0 <= i < rooms.len(),
        forall|j: int| 0 <= j < i ==> rooms[j].room_id@ != rooms[i].room_id@,
    ensures
        spec_has_room(rooms, rooms[i].room_id@),
        spec_history(rooms, rooms[i].room_id@) == rooms[i].history@,
    decreases i,
{
    if i > 0 {
        let tail = rooms.drop_first();
        assert(tail[i - 1] == rooms[i]);
        assert forall|j: int| 0 <= j < i - 1 implies (#[trigger] tail[j]).room_id@ != tail[i
            - 1].room_id@ by {
            assert(tail[j] == rooms[j + 1]);
        }
        lemma_history_at_first_match(tail, i - 1);
    }
}

/// A name that no entry carries has no room and an empty history.
proof fn lemma_history_no_match(rooms: Seq<Room>, k: Seq<char>)
    requires
        forall|j: int| 0 <= j < rooms.len() ==> rooms[j].room_id@ != k,
    ensures
        !spec_has_room(rooms, k),
        spec_history(rooms, k) == Seq::<Message>::empty(),
    decreases rooms.len(),
{
    if rooms.len() > 0 {
        let tail = rooms.drop_first();
        assert forall|j: int| 0 <= j < tail.len() implies (#[trigger] tail[j]).room_id@ != k by {
            assert(tail[j] == rooms[j + 1]);
        }
        lemma_history_no_match(tail, k);
    }
}

/// Replacing one entry by another of the same name leaves every other
/// room's history and presence as they were.
proof fn lemma_history_update_other(r1: Seq<Room>, r2: Seq<Room>, i: int, k: Seq<char>)
    requires
        r1.len() == r2.len(),
        0 <= i < r1.len(),
        forall|j: int| 0 <= j < r1.len() && j != i ==> r2[j] == r1[j],
        r2[i].room_id@ == r1[i].room_id@,
        k != r1[i].room_id@,
    ensures
        spec_history(r2, k) == spec_history(r1, k),
        spec_has_room(r2, k) == spec_has_room(r1, k),
    decreases r1.len(),
{
    let t1 = r1.drop_first();
    let t2 = r2.drop_first();
    if i == 0 {
        assert(t1 =~= t2);
    } else {
        assert(r2[0] == r1[0]);
        assert forall|j: int| 0 <= j < t1.len() && j != i - 1 implies (#[trigger] t2[j])
            == (#[trigger] t1[j]) by {
            assert(t1[j] == r1[j + 1]);
            assert(t2[j] == r2[j + 1]);
        }
        assert(t1[i - 1] == r1[i]);
        assert(t2[i - 1] == r2[i]);
        lemma_history_update_other(t1, t2, i - 1, k);
    }
}

/// Appending an entry with a new name leaves every other room untouched.
proof fn lemma_history_push_other(rooms: Seq<Room>, r: Room, k: Seq<char>)
    requires
        k != r.room_id@,
    ensures
        spec_history(rooms.push(r), k) == spec_history(rooms, k),
        spec_has_room(rooms.push(r), k) == spec_has_room(rooms, k),
    decreases rooms.len(),
{
    let grown = rooms.push(r);
    if rooms.len() == 0 {
        assert(grown[0] == r);
        assert(grown.drop_first() =~= Seq::<Room>::empty());
        assert(spec_history(Seq::<Room>::empty(), k) == Seq::<Message>::empty());
        assert(!spec_has_room(Seq::<Room>::empty(), k));
    } else {
        assert(grown[0] == rooms[0]);
        assert(grown.drop_first() =~= rooms.drop_first().push(r));
        lemma_history_push_other(rooms.drop_first(), r, k);
    }
}

/// Maps each room id to a bounded history of its most recent messages.
/// A room's entry appears on the first insert under that id and is never
/// removed; reads of rooms that never saw an insert yield an empty history.
pub struct MessageStore {
    pub rooms: Vec<Room>,
}

impl MessageStore {
    /// Every room name appears at most once, no history exceeds the cap,
    /// and every retained message is filed under its own room id.
    pub open spec fn wf(&self) -> bool {
        &&& forall|i: int, j: int|
            0 <= i < j < self.rooms@.len() ==> self.rooms@[i].room_id@ != self.rooms@[j].room_id@
        &&& forall|i: int|
            0 <= i < self.rooms@.len() ==> (#[trigger] self.rooms@[i].history@.len()) <= HISTORY_CAP
        &&& forall|i: int, n: int|
            0 <= i < self.rooms@.len() && 0 <= n < self.rooms@[i].history@.len()
                ==> (#[trigger] self.rooms@[i].history@[n]).room_id@ == self.rooms@[i].room_id@
    }

    /// Whether any message was ever inserted under `k`.
    pub open spec fn has_room(&self, k: Seq<char>) -> bool {
        spec_has_room(self.rooms@, k)
    }

    /// The retained history of room `k`, newest first; empty if `k` has none.
    pub open spec fn history(&self, k: Seq<char>) -> Seq<Message> {
        spec_history(self.rooms@, k)
    }

    pub fn new() -> (s: Self)
        ensures
            s.wf(),
            forall|k: Seq<char>| !s.has_room(k),
            forall|k: Seq<char>| s.history(k) == Seq::<Message>::empty(),
    {
        MessageStore { rooms: Vec::new() }
    }

    /// The index of the entry for `k`, if one exists.
    fn find_room(&self, k: &String) -> (idx: Option<usize>)
        ensures
            match idx {
                Some(i) => i < self.rooms@.len() && self.rooms@[i as int].room_id@ == k@
                    && (forall|j: int| 0 <= j < i ==> self.rooms@[j].room_id@ != k@),
                None => forall|j: int| 0 <= j < self.rooms@.len() ==> self.rooms@[j].room_id@ != k@,
            },
    {
        let mut i: usize = 0;
        while i < self.rooms.len()
            invariant
                i <= self.rooms@.len(),
                forall|j: int| 0 <= j < i ==> self.rooms@[j].room_id@ != k@,
            decreases self.rooms@.len() - i,
        {
            if self.rooms[i].room_id == *k {
                return Some(i);
            }
            i += 1;
        }
        None
    }

    /// Files `message` under its own room id: it becomes the room's newest
    /// entry, and if the room was at the cap the oldest one is evicted.
    /// No other room changes.
    pub fn insert(&mut self, message: Message)
        requires
            old(self).wf(),
        ensures
            final(self).wf(),
            final(self).has_room(message.room_id@),
            final(self).history(message.room_id@) == push_capped(
                old(self).history(message.room_id@),
                message,
            ),
            forall|k: Seq<char>|
                k != message.room_id@ ==> final(self).history(k) == old(self).history(k),
            forall|k: Seq<char>|
                k != message.room_id@ ==> final(self).has_room(k) == old(self).has_room(k),
    {
        let ghost key = message.room_id@;
        let ghost rooms0 = self.rooms@;
        let idx = self.find_room(&message.room_id);
        match idx {
            Some(i) => {
                proof {
                    lemma_history_at_first_match(rooms0, i as int);
                }
                let ghost old_hist = self.rooms@[i as int].history@;
                let room = &mut self.rooms[i];
                room.history.push_front(message);
                room.history.truncate(HISTORY_CAP);
                proof {
                    let rooms1 = self.rooms@;
                    assert(rooms1 == rooms0.update(i as int, rooms1[i as int]));
                    assert(rooms1[i as int].room_id@ == key);
                    assert(rooms1[i as int].history@ =~= push_capped(old_hist, message));
                    lemma_history_at_first_match(rooms1, i as int);
                    assert forall|k: Seq<char>| k != key implies spec_history(rooms1, k)
                        == spec_history(rooms0, k) && spec_has_room(rooms1, k) == spec_has_room(
                        rooms0,
                        k,
                    ) by {
                        lemma_history_update_other(rooms0, rooms1, i as int, k);
                    }
                }
            },
            None => {
                let room_id = message.room_id.clone();
                let mut history: VecDeque<Message> = VecDeque::new();
                history.push_front(message);
                self.rooms.push(Room { room_id, history });
                proof {
                    let rooms1 = self.rooms@;
                    assert(rooms1 == rooms0.push(rooms1[rooms0.len() as int]));
                    assert(rooms1[rooms0.len() as int].room_id@ == key);
                    assert(rooms1[rooms0.len() as int].history@ =~= seq![message]);
                    assert(spec_history(rooms0, key) == Seq::<Message>::empty()) by {
                        lemma_history_no_match(rooms0, key);
                    }
                    assert(seq![message] =~= push_capped(spec_history(rooms0, key), message));
                    lemma_history_at_first_match(rooms1, rooms0.len() as int);
                    assert forall|k: Seq<char>| k != key implies spec_history(rooms1, k)
                        == spec_history(rooms0, k) && spec_has_room(rooms1, k) == spec_has_room(
                        rooms0,
                        k,
                    ) by {
                        lemma_history_push_other(rooms0, rooms1[rooms0.len() as int], k);
                    }
                }
            },
        }
    }

    /// The room's retained messages in chronological order, oldest first —
    /// the reverse of the stored newest-first order. A room with no history
    /// yields an empty vector, never an error.
    pub fn get(&self, room_id: &String) -> (r: Vec<Message>)
        requires
            self.wf(),
        ensures
            r@ == self.history(room_id@).reverse(),
            r@.len() <= HISTORY_CAP,
            !self.has_room(room_id@) ==> r@.len() == 0,
    {
        match self.find_room(room_id) {
            None => {
                proof {
                    lemma_history_no_match(self.rooms@, room_id@);
                    assert(Seq::<Message>::empty().reverse() =~= Seq::<Message>::empty());
                }
                Vec::new()
            },
            Some(i) => {
                proof {
                    lemma_history_at_first_match(self.rooms@, i as int);
                    assert(self.rooms@[i as int].history@.len() <= HISTORY_CAP);
                }
                let room = &self.rooms[i];
                let n: usize = room.history.len();
                let mut out: Vec<Message> = Vec::new();
                let mut j: usize = n;
                while j > 0
                    invariant
                        j <= n,
                        n == room.history@.len(),
                        out@.len() == n - j,
                        forall|t: int|
                            0 <= t < out@.len() ==> out@[t] == room.history@[n - 1 - t],
                    decreases j,
                {
                    j -= 1;
                    out.push(room.history[j].clone());
                }
                proof {
                    assert(out@ =~= room.history@.reverse());
                }
                out
            },
        }
    }
}

impl Default for MessageStore {
    /// An empty store: no rooms, no history.
    fn default() -> (s: Self)
        ensures
            s.wf(),
            forall|k: Seq<char>| !s.has_room(k),
            forall|k: Seq<char>| s.history(k) == Seq::<Message>::empty(),
    {
        MessageStore::new()
    }
}

} // verus!
