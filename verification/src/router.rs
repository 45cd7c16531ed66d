use vstd::prelude::*;

verus! {

use crate::membership::Membership;
use crate::message::{Message, Messages};
use crate::store::{push_capped, MessageStore};

/// Relies on chrono::Utc::now, reduced to milliseconds since the Unix
/// epoch by chrono's DateTime::timestamp_millis. Utc::now aborts rather
/// than return an instant before the epoch, so the result is nonnegative.
#[verifier::external_body]
fn now_millis() -> (t: i64)
    ensures
        0 <= t,
{
    chrono::Utc::now().timestamp_millis()
}

/// Per-connection protocol logic: the one place where inbound events
/// become store mutations and outbound sends. The connection gateway
/// hands each handler plain values and performs the sends it asks for.
pub struct Router {
    pub store: MessageStore,
    pub membership: Membership,
}

impl Router {
    pub open spec fn wf(&self) -> bool {
        self.store.wf() && self.membership.wf()
    }

    pub fn new() -> (r: Self)
        ensures
            r.wf(),
            forall|k: Seq<char>| !r.store.has_room(k),
            forall|k: Seq<char>| r.store.history(k) == Seq::<Message>::empty(),
            forall|c: u64| r.membership.room_of(c) is None,
    {
        Router { store: MessageStore::new(), membership: Membership::new() }
    }

    /// The `join` event: connection `conn` leaves whatever room it was in
    /// and becomes a member of `room_id`, and of no other; the reply is the
    /// room's retained history, oldest first, to be sent to `conn` alone.
    /// The history store itself does not change.
    pub fn handle_join(&mut self, conn: u64, room_id: String) -> (history: Messages)
        requires
            old(self).wf(),
        ensures
            final(self).wf(),
            final(self).membership.room_of(conn) == Some(room_id@),
            forall|d: u64|
                d != conn ==> final(self).membership.room_of(d) == old(self).membership.room_of(d),
            final(self).store == old(self).store,
            history.messages@ == old(self).store.history(room_id@).reverse(),
            history.messages@.len() <= crate::store::HISTORY_CAP,
    {
        self.membership.join(conn, room_id.clone());
        let messages = self.store.get(&room_id);
        Messages { messages }
    }

    /// The `message` event, with the server receipt instant passed in:
    /// the inbound payload is restamped with `now` — a timestamp the client
    /// supplied is discarded — filed in the history store under its room,
    /// and handed back with the connections currently in that room, each
    /// exactly once, to which it is to be sent — the sender among them
    /// exactly when it is itself a member. Membership does not change.
    pub fn handle_message_at(&mut self, data: Message, now: i64) -> (out: (Message, Vec<u64>))
        requires
            old(self).wf(),
        ensures
            final(self).wf(),
            out.0 == (Message {
                room_id: data.room_id,
                user_id: data.user_id,
                text: data.text,
                timestamp: now,
            }),
            final(self).store.history(data.room_id@) == push_capped(
                old(self).store.history(data.room_id@),
                out.0,
            ),
            forall|k: Seq<char>|
                k != data.room_id@ ==> final(self).store.history(k) == old(self).store.history(k),
            final(self).membership == old(self).membership,
            forall|c: u64| out.1@.contains(c) <==> old(self).membership.in_room(c, data.room_id@),
            forall|i: int, j: int| 0 <= i < j < out.1@.len() ==> out.1@[i] != out.1@[j],
    {
        let room_key = data.room_id.clone();
        let stamped = Message {
            room_id: data.room_id,
            user_id: data.user_id,
            text: data.text,
            timestamp: now,
        };
        self.store.insert(stamped.clone());
        let recipients = self.membership.members(&room_key);
        (stamped, recipients)
    }

    /// The `message` event against the server's own clock: as
    /// `handle_message_at`, with the receipt instant read from the system
    /// clock, whatever instant that turns out to be.
    pub fn handle_message(&mut self, data: Message) -> (out: (Message, Vec<u64>))
        requires
            old(self).wf(),
        ensures
            final(self).wf(),
            out.0.room_id == data.room_id,
            out.0.user_id == data.user_id,
            out.0.text == data.text,
            0 <= out.0.timestamp,
            final(self).store.history(data.room_id@) == push_capped(
                old(self).store.history(data.room_id@),
                out.0,
            ),
            forall|k: Seq<char>|
                k != data.room_id@ ==> final(self).store.history(k) == old(self).store.history(k),
            final(self).membership == old(self).membership,
            forall|c: u64| out.1@.contains(c) <==> old(self).membership.in_room(c, data.room_id@),
            forall|i: int, j: int| 0 <= i < j < out.1@.len() ==> out.1@[i] != out.1@[j],
    {
        let now: i64 = now_millis();
        self.handle_message_at(data, now)
    }

    /// The `typing` event: no state changes; the gateway is to send the
    /// returned event name, with the user id as payload, to every other
    /// connection — deliberately not room-scoped, and under a literal
    /// template as the event name, as the wire protocol has it.
    pub fn handle_typing(&self, user_id: String) -> (out: (String, String))
        ensures
            out.0@ == "{} is typing"@,
            out.1 == user_id,
    {
        ("{} is typing".to_owned(), user_id)
    }

    /// The `stop typing` event: as `handle_typing`, under its own literal
    /// event name.
    pub fn handle_stop_typing(&self, user_id: String) -> (out: (String, String))
        ensures
            out.0@ == "{} stopped typing"@,
            out.1 == user_id,
    {
        ("{} stopped typing".to_owned(), user_id)
    }

    /// The disconnect lifecycle event: the connection is removed from every
    /// room, so later broadcasts no longer name it. History is untouched.
    pub fn handle_disconnect(&mut self, conn: u64)
        requires
            old(self).wf(),
        ensures
            final(self).wf(),
            final(self).membership.room_of(conn) is None,
            forall|d: u64|
                d != conn ==> final(self).membership.room_of(d) == old(self).membership.room_of(d),
            final(self).store == old(self).store,
    {
        self.membership.leave_all(conn);
    }
}

} // verus!
