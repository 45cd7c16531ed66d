use chat_relay::message::Message;
use chat_relay::store::{MessageStore, HISTORY_CAP};

fn msg(room: &str, user: &str, text: &str, ts: i64) -> Message {
    Message {
        room_id: room.to_string(),
        user_id: user.to_string(),
        text: text.to_string(),
        timestamp: ts,
    }
}

#[test]
fn get_on_empty_room_returns_empty() {
    let store = MessageStore::new();
    let history = store.get(&"nowhere".to_string());
    assert!(history.is_empty());
}

#[test]
fn default_store_is_empty() {
    let store = MessageStore::default();
    assert!(store.get(&"lobby".to_string()).is_empty());
}

#[test]
fn history_is_chronological_and_exact() {
    let mut store = MessageStore::new();
    store.insert(msg("lobby", "a", "first", 10));
    store.insert(msg("lobby", "b", "second", 20));
    store.insert(msg("lobby", "a", "third", 30));

    let history = store.get(&"lobby".to_string());
    assert_eq!(history.len(), 3);
    assert_eq!(history[0].text, "first");
    assert_eq!(history[1].text, "second");
    assert_eq!(history[2].text, "third");
    assert!(history[0].timestamp < history[1].timestamp);
    assert!(history[1].timestamp < history[2].timestamp);
    assert_eq!(history[1].user_id, "b");
    assert_eq!(history[1].room_id, "lobby");
}

#[test]
fn inserts_to_one_room_leave_others_alone() {
    let mut store = MessageStore::new();
    store.insert(msg("r1", "a", "one", 1));
    store.insert(msg("r2", "b", "two", 2));
    store.insert(msg("r1", "a", "three", 3));

    let h1 = store.get(&"r1".to_string());
    let h2 = store.get(&"r2".to_string());
    assert_eq!(h1.len(), 2);
    assert_eq!(h2.len(), 1);
    assert_eq!(h1[0].text, "one");
    assert_eq!(h1[1].text, "three");
    assert_eq!(h2[0].text, "two");
}

#[test]
fn cap_is_reached_but_never_exceeded() {
    let mut store = MessageStore::new();
    for i in 0..HISTORY_CAP as i64 {
        store.insert(msg("full", "u", &format!("m{}", i), i));
    }
    assert_eq!(store.get(&"full".to_string()).len(), HISTORY_CAP);

    // The 101st insert evicts exactly the single oldest message.
    store.insert(msg("full", "u", "overflow", HISTORY_CAP as i64));
    let history = store.get(&"full".to_string());
    assert_eq!(history.len(), HISTORY_CAP);
    assert_eq!(history[0].text, "m1");
    assert_eq!(history[HISTORY_CAP - 1].text, "overflow");
}

#[test]
fn timestamps_carry_through_unchanged() {
    let mut store = MessageStore::new();
    store.insert(msg("room", "u", "only", 777));
    let history = store.get(&"room".to_string());
    assert_eq!(history.len(), 1);
    assert_eq!(history[0].timestamp, 777);
}
