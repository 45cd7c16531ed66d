use vstd::prelude::*;

verus! {

/// One live connection's current room assignment.
pub struct MemberEntry {
    pub conn: u64,
    pub room_id: String,
}

/// The room that `entries` assigns to connection `c`, if any: the room of
/// the first entry for `c`.
pub open spec fn spec_room_of(entries: Seq<MemberEntry>, c: u64) -> Option<Seq<char>>
    decreases entries.len(),
{
    if entries.len() == 0 {
        None
    } else if entries[0].conn == c {
        Some(entries[0].room_id@)
    } else {
        spec_room_of(entries.drop_first(), c)
    }
}

/// At the first entry for connection `c`, the assignment is that entry's room.
proof fn lemma_room_of_at_first_match(entries: Seq<MemberEntry>, i: int)
    requires
        0 <= i < entries.len(),
        forall|j: int| 0 <= j < i ==> (#[trigger] entries[j]).conn != entries[i].conn,
    ensures
        spec_room_of(entries, entries[i].conn) == Some(entries[i].room_id@),
    decreases i,
{
    if i > 0 {
        let tail = entries.drop_first();
        assert(tail[i - 1] == entries[i]);
        assert forall|j: int| 0 <= j < i - 1 implies (#[trigger] tail[j]).conn != tail[i
            - 1].conn by {
            assert(tail[j] == entries[j + 1]);
        }
        lemma_room_of_at_first_match(tail, i - 1);
    }
}

/// A connection with no entry is in no room.
proof fn lemma_room_of_no_match(entries: Seq<MemberEntry>, c: u64)
    requires
        forall|j: int| 0 <= j < entries.len() ==> (#[trigger] entries[j]).conn != c,
    ensures
        spec_room_of(entries, c) is None,
    decreases entries.len(),
{
    if entries.len() > 0 {
        let tail = entries.drop_first();
        assert forall|j: int| 0 <= j < tail.len() implies (#[trigger] tail[j]).conn != c by {
            assert(tail[j] == entries[j + 1]);
        }
        lemma_room_of_no_match(tail, c);
    }
}

/// Removing one connection's entry leaves every other assignment as it was.
proof fn lemma_room_of_remove_other(entries: Seq<MemberEntry>, i: int, c: u64)
    requires
        0 <= i < entries.len(),
        entries[i].conn != c,
    ensures
        spec_room_of(entries.remove(i), c) == spec_room_of(entries, c),
    decreases entries.len(),
{
    let cut = entries.remove(i);
    if i == 0 {
        assert(cut =~= entries.drop_first());
    } else {
        assert(cut[0] == entries[0]);
        assert(cut.drop_first() =~= entries.drop_first().remove(i - 1));
        assert(entries.drop_first()[i - 1] == entries[i]);
        lemma_room_of_remove_other(entries.drop_first(), i - 1, c);
    }
}

/// Appending an entry for one connection leaves every other assignment
/// as it was.
proof fn lemma_room_of_push_other(entries: Seq<MemberEntry>, e: MemberEntry, c: u64)
    requires
        e.conn != c,
    ensures
        spec_room_of(entries.push(e), c) == spec_room_of(entries, c),
    decreases entries.len(),
{
    let grown = entries.push(e);
    if entries.len() == 0 {
        assert(grown[0] == e);
        assert(grown.drop_first() =~= Seq::<MemberEntry>::empty());
        assert(spec_room_of(Seq::<MemberEntry>::empty(), c) is None);
    } else {
        assert(grown[0] == entries[0]);
        assert(grown.drop_first() =~= entries.drop_first().push(e));
        lemma_room_of_push_other(entries.drop_first(), e, c);
    }
}

/// Tracks the current room of every live connection. A connection is in at
/// most one room at a time: joining a room first leaves any previous one,
/// and a disconnect removes the connection entirely.
pub struct Membership {
    pub entries: Vec<MemberEntry>,
}

impl Membership {
    /// No connection has more than one entry.
    pub open spec fn wf(&self) -> bool {
        forall|i: int, j: int|
            0 <= i < j < self.entries@.len() ==> self.entries@[i].conn != self.entries@[j].conn
    }

    /// The room that connection `c` is currently in, if any.
    pub open spec fn room_of(&self, c: u64) -> Option<Seq<char>> {
        spec_room_of(self.entries@, c)
    }

    /// Whether connection `c` is currently in room `k`.
    pub open spec fn in_room(&self, c: u64, k: Seq<char>) -> bool {
        self.room_of(c) == Some(k)
    }

    pub fn new() -> (m: Self)
        ensures
            m.wf(),
            forall|c: u64| m.room_of(c) is None,
    {
        Membership { entries: Vec::new() }
    }

    /// The index of connection `c`'s entry, if one exists.
    fn find_conn(&self, c: u64) -> (idx: Option<usize>)
        ensures
            match idx {
                Some(i) => i < self.entries@.len() && self.entries@[i as int].conn == c && (forall|
                    j: int,
                |
                    0 <= j < i ==> (#[trigger] self.entries@[j]).conn != c),
                None => forall|j: int|
                    0 <= j < self.entries@.len() ==> (#[trigger] self.entries@[j]).conn != c,
            },
    {
        let mut i: usize = 0;
        while i < self.entries.len()
            invariant
                i <= self.entries@.len(),
                forall|j: int| 0 <= j < i ==> (#[trigger] self.entries@[j]).conn != c,
            decreases self.entries@.len() - i,
        {
            if self.entries[i].conn == c {
                return Some(i);
            }
            i += 1;
        }
        None
    }

    /// Removes connection `c` from whatever room it was in. Used on
    /// disconnect, and by `join` before the new assignment.
    pub fn leave_all(&mut self, c: u64)
        requires
            old(self).wf(),
        ensures
            final(self).wf(),
            final(self).room_of(c) is None,
            forall|d: u64| d != c ==> final(self).room_of(d) == old(self).room_of(d),
    {
        let ghost entries0 = self.entries@;
        match self.find_conn(c) {
            Some(i) => {
                self.entries.remove(i);
                proof {
                    let entries1 = self.entries@;
                    assert(entries1 == entries0.remove(i as int));
                    assert forall|j: int|
                        0 <= j < entries1.len() implies (#[trigger] entries1[j]).conn != c by {
                        if j < i {
                            assert(entries1[j] == entries0[j]);
                        } else {
                            assert(entries1[j] == entries0[j + 1]);
                        }
                    }
                    lemma_room_of_no_match(entries1, c);
                    assert forall|d: u64| d != c implies spec_room_of(entries1, d) == spec_room_of(
                        entries0,
                        d,
                    ) by {
                        lemma_room_of_remove_other(entries0, i as int, d);
                    }
                }
            },
            None => {
                proof {
                    lemma_room_of_no_match(entries0, c);
                }
            },
        }
    }

    /// Moves connection `c` into room `room_id`: it leaves any room it was
    /// in, so that afterwards it is a member of `room_id` and of no other.
    pub fn join(&mut self, c: u64, room_id: String)
        requires
            old(self).wf(),
        ensures
            final(self).wf(),
            final(self).room_of(c) == Some(room_id@),
            forall|d: u64| d != c ==> final(self).room_of(d) == old(self).room_of(d),
    {
        self.leave_all(c);
        let ghost entries1 = self.entries@;
        self.entries.push(MemberEntry { conn: c, room_id });
        proof {
            let entries2 = self.entries@;
            assert(entries2 == entries1.push(entries2[entries1.len() as int]));
            assert forall|j: int|
                0 <= j < entries1.len() implies (#[trigger] entries1[j]).conn != c by {
                if entries1[j].conn == c {
                    lemma_entry_determines_room(entries1, j, c);
                }
            }
            assert forall|j: int| 0 <= j < entries1.len() implies (#[trigger] entries2[j])
                == entries1[j] by {}
            lemma_room_of_at_first_match(entries2, entries1.len() as int);
            assert forall|d: u64| d != c implies spec_room_of(entries2, d) == spec_room_of(
                entries1,
                d,
            ) by {
                lemma_room_of_push_other(entries1, entries2[entries1.len() as int], d);
            }
        }
    }

    /// The connections currently in room `room_id`, each exactly once.
    pub fn members(&self, room_id: &String) -> (r: Vec<u64>)
        requires
            self.wf(),
        ensures
            forall|c: u64| r@.contains(c) <==> self.in_room(c, room_id@),
            forall|i: int, j: int| 0 <= i < j < r@.len() ==> r@[i] != r@[j],
    {
        let mut r: Vec<u64> = Vec::new();
        let mut i: usize = 0;
        while i < self.entries.len()
            invariant
                self.wf(),
                i <= self.entries@.len(),
                forall|c: u64|
                    r@.contains(c) <==> (exists|j: int|
                        0 <= j < i && (#[trigger] self.entries@[j]).conn == c
                            && self.entries@[j].room_id@ == room_id@),
                forall|a: int, b: int| 0 <= a < b < r@.len() ==> r@[a] != r@[b],
            decreases self.entries@.len() - i,
        {
            if self.entries[i].room_id == *room_id {
                let ghost r0 = r@;
                let ghost ci: u64 = self.entries@[i as int].conn;
                proof {
                    if r0.contains(ci) {
                        let j = choose|j: int|
                            0 <= j < i && (#[trigger] self.entries@[j]).conn == ci
                                && self.entries@[j].room_id@ == room_id@;
                        assert(self.entries@[j].conn == self.entries@[i as int].conn);
                        assert(false);
                    }
                }
                r.push(self.entries[i].conn);
                proof {
                    assert(r@ == r0.push(ci));
                    assert forall|c: u64|
                        r@.contains(c) <==> (exists|j: int|
                            0 <= j < i + 1 && (#[trigger] self.entries@[j]).conn == c
                                && self.entries@[j].room_id@ == room_id@) by {
                        if r@.contains(c) {
                            let t = choose|t: int| 0 <= t < r@.len() && r@[t] == c;
                            if t < r0.len() {
                                assert(r0[t] == c);
                                assert(r0.contains(c));
                            } else {
                                assert(c == ci);
                                assert(self.entries@[i as int].conn == c && self.entries@[i
                                    as int].room_id@ == room_id@);
                            }
                        }
                        if exists|j: int|
                            0 <= j < i + 1 && (#[trigger] self.entries@[j]).conn == c
                                && self.entries@[j].room_id@ == room_id@ {
                            let j = choose|j: int|
                                0 <= j < i + 1 && (#[trigger] self.entries@[j]).conn == c
                                    && self.entries@[j].room_id@ == room_id@;
                            if j < i {
                                assert(r0.contains(c));
                                let t = choose|t: int| 0 <= t < r0.len() && r0[t] == c;
                                assert(r@[t] == c);
                                assert(r@.contains(c));
                            } else {
                                assert(c == ci);
                                assert(r@[r@.len() - 1] == c);
                                assert(r@.contains(c));
                            }
                        }
                    }
                    assert forall|a: int, b: int| 0 <= a < b < r@.len() implies r@[a] != r@[b] by {
                        if b == r0.len() {
                            assert(r@[b] == ci);
                            assert(r@[a] == r0[a]);
                            if r0[a] == ci {
                                assert(r0.contains(ci));
                            }
                        }
                    }
                }
            }
            i += 1;
        }
        proof {
            assert forall|c: u64| r@.contains(c) <==> self.in_room(c, room_id@) by {
                if self.in_room(c, room_id@) {
                    lemma_in_room_exists_entry(self.entries@, c, room_id@);
                } else {
                    if exists|j: int|
                        0 <= j < self.entries@.len() && (#[trigger] self.entries@[j]).conn == c
                            && self.entries@[j].room_id@ == room_id@ {
                        let j = choose|j: int|
                            0 <= j < self.entries@.len() && (#[trigger] self.entries@[j]).conn == c
                                && self.entries@[j].room_id@ == room_id@;
                        lemma_entry_determines_room(self.entries@, j, c);
                    }
                }
            }
        }
        r
    }
}

/// Under distinct connections, an assignment to room `k` is witnessed by an
/// entry that says so.
proof fn lemma_in_room_exists_entry(entries: Seq<MemberEntry>, c: u64, k: Seq<char>)
    requires
        forall|i: int, j: int| 0 <= i < j < entries.len() ==> entries[i].conn != entries[j].conn,
        spec_room_of(entries, c) == Some(k),
    ensures
        exists|j: int|
            0 <= j < entries.len() && (#[trigger] entries[j]).conn == c && entries[j].room_id@
                == k,
    decreases entries.len(),
{
    if entries.len() > 0 {
        if entries[0].conn == c {
            assert(entries[0].conn == c && entries[0].room_id@ == k);
        } else {
            let tail = entries.drop_first();
            assert forall|a: int, b: int|
                0 <= a < b < tail.len() implies (#[trigger] tail[a]).conn != (#[trigger] tail[b]).conn by {
                assert(tail[a] == entries[a + 1]);
                assert(tail[b] == entries[b + 1]);
            }
            lemma_in_room_exists_entry(tail, c, k);
            let j = choose|j: int|
                0 <= j < tail.len() && (#[trigger] tail[j]).conn == c && tail[j].room_id@ == k;
            assert(entries[j + 1].conn == c && entries[j + 1].room_id@ == k);
        }
    }
}

/// Under distinct connections, the entry for `c` is the assignment for `c`.
proof fn lemma_entry_determines_room(entries: Seq<MemberEntry>, j: int, c: u64)
    requires
        forall|a: int, b: int| 0 <= a < b < entries.len() ==> entries[a].conn != entries[b].conn,
        0 <= j < entries.len(),
        entries[j].conn == c,
    ensures
        spec_room_of(entries, c) == Some(entries[j].room_id@),
{
    assert forall|a: int| 0 <= a < j implies (#[trigger] entries[a]).conn != entries[j].conn by {}
    lemma_room_of_at_first_match(entries, j);
}

} // verus!
