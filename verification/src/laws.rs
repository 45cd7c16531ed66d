use vstd::prelude::*;

verus! {

use crate::membership::Membership;
use crate::message::Message;
use crate::store::{push_capped, HISTORY_CAP};

/// The newest-first history that a fresh room holds after the messages of
/// `msgs` are inserted into it, in order: `push_capped` folded over `msgs`,
/// exactly what repeated `MessageStore::insert` calls leave behind.
pub open spec fn history_after_inserts(msgs: Seq<Message>) -> Seq<Message>
    decreases msgs.len(),
{
    if msgs.len() == 0 {
        Seq::empty()
    } else {
        push_capped(history_after_inserts(msgs.drop_last()), msgs.last())
    }
}

/// After N inserts into one room the history holds exactly the most recent
/// min(N, cap) of them: entry `i` of the newest-first history is the
/// `i`-th-from-last message inserted.
pub proof fn lemma_history_after_inserts(msgs: Seq<Message>)
    ensures
        msgs.len() <= HISTORY_CAP ==> history_after_inserts(msgs).len() == msgs.len(),
        msgs.len() > HISTORY_CAP ==> history_after_inserts(msgs).len() == HISTORY_CAP,
        forall|i: int|
            0 <= i < history_after_inserts(msgs).len()
                ==> history_after_inserts(msgs)[i] == msgs[msgs.len() - 1 - i],
    decreases msgs.len(),
{
    if msgs.len() > 0 {
        lemma_history_after_inserts(msgs.drop_last());
    }
}

/// When every message inserted carries a strictly larger timestamp than all
/// inserted before it, the chronological view of the history — oldest
/// first, as `get` returns it — is in strictly increasing timestamp order.
pub proof fn lemma_history_timestamps_increasing(msgs: Seq<Message>)
    requires
        forall|i: int, j: int| 0 <= i < j < msgs.len() ==> msgs[i].timestamp < msgs[j].timestamp,
    ensures
        forall|i: int, j: int|
            0 <= i < j < history_after_inserts(msgs).reverse().len()
                ==> history_after_inserts(msgs).reverse()[i].timestamp < history_after_inserts(
                msgs,
            ).reverse()[j].timestamp,
{
    lemma_history_after_inserts(msgs);
}

/// Inserting into a room already at the cap evicts exactly the single
/// oldest retained message and no other; the history stays at the cap.
pub proof fn lemma_insert_at_cap_evicts_oldest(h: Seq<Message>, m: Message)
    requires
        h.len() == HISTORY_CAP,
    ensures
        push_capped(h, m).len() == HISTORY_CAP,
        push_capped(h, m) == seq![m] + h.drop_last(),
{
    assert(push_capped(h, m) =~= seq![m] + h.drop_last());
}

/// A room within the cap stays within the cap, whatever is inserted.
pub proof fn lemma_history_never_exceeds_cap(h: Seq<Message>, m: Message)
    requires
        h.len() <= HISTORY_CAP,
    ensures
        push_capped(h, m).len() <= HISTORY_CAP,
{
}

/// `s` is an arbitrary interleaving of the two insert streams `a` and `b`:
/// every message of both streams appears in `s`, each stream in its own
/// order.
pub open spec fn is_interleaving(s: Seq<Message>, a: Seq<Message>, b: Seq<Message>) -> bool
    decreases s.len(),
{
    if s.len() == 0 {
        a.len() == 0 && b.len() == 0
    } else {
        ||| (a.len() > 0 && s.last() == a.last() && is_interleaving(
            s.drop_last(),
            a.drop_last(),
            b,
        ))
        ||| (b.len() > 0 && s.last() == b.last() && is_interleaving(
            s.drop_last(),
            a,
            b.drop_last(),
        ))
    }
}

/// An interleaving carries every message of both streams, in some order.
proof fn lemma_interleaving_len(s: Seq<Message>, a: Seq<Message>, b: Seq<Message>)
    requires
        is_interleaving(s, a, b),
    ensures
        s.len() == a.len() + b.len(),
    decreases s.len(),
{
    if s.len() > 0 {
        if a.len() > 0 && s.last() == a.last() && is_interleaving(s.drop_last(), a.drop_last(), b) {
            lemma_interleaving_len(s.drop_last(), a.drop_last(), b);
        } else {
            lemma_interleaving_len(s.drop_last(), a, b.drop_last());
        }
    }
}

/// Inserts from two streams into one room, interleaved arbitrarily, never
/// drive its history past the cap, and leave it holding exactly the most
/// recent messages of whatever single order the interleaving produced.
pub proof fn lemma_interleaved_inserts_stay_capped(
    s: Seq<Message>,
    a: Seq<Message>,
    b: Seq<Message>,
)
    requires
        is_interleaving(s, a, b),
    ensures
        s.len() == a.len() + b.len(),
        history_after_inserts(s).len() <= HISTORY_CAP,
        forall|i: int|
            0 <= i < history_after_inserts(s).len()
                ==> history_after_inserts(s)[i] == s[s.len() - 1 - i],
{
    lemma_interleaving_len(s, a, b);
    lemma_history_after_inserts(s);
}

/// A connection is a member of at most one room at a time: membership in
/// one room excludes membership in every other.
pub proof fn lemma_membership_exclusive(
    m: Membership,
    conn: u64,
    room_a: Seq<char>,
    room_b: Seq<char>,
)
    requires
        m.in_room(conn, room_b),
        room_a != room_b,
    ensures
        !m.in_room(conn, room_a),
{
}

} // verus!
