use vstd::prelude::*;

verus! {

/// One chat message. `timestamp` is milliseconds since the Unix epoch,
/// assigned by the server at receipt; a timestamp carried by an inbound
/// payload is ignored by the router.
pub struct Message {
    pub room_id: String,
    pub user_id: String,
    pub text: String,
    pub timestamp: i64,
}

impl Clone for Message {
    fn clone(&self) -> (r: Self)
        ensures
            r == *self,
    {
        Message {
            room_id: self.room_id.clone(),
            user_id: self.user_id.clone(),
            text: self.text.clone(),
            timestamp: self.timestamp,
        }
    }
}

/// Payload shape for the history dump sent to a connection when it joins a
/// room: the room's retained messages, oldest first.
pub struct Messages {
    pub messages: Vec<Message>,
}

} // verus!
