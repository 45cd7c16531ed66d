use chat_relay::membership::Membership;
use chat_relay::message::Message;
use chat_relay::router::Router;

fn msg(room: &str, user: &str, text: &str, ts: i64) -> Message {
    Message {
        room_id: room.to_string(),
        user_id: user.to_string(),
        text: text.to_string(),
        timestamp: ts,
    }
}

#[test]
fn join_switches_rooms_completely() {
    let mut membership = Membership::new();
    membership.join(1, "a".to_string());
    membership.join(1, "b".to_string());
    membership.join(2, "a".to_string());

    let in_a = membership.members(&"a".to_string());
    let in_b = membership.members(&"b".to_string());
    assert!(!in_a.contains(&1));
    assert!(in_a.contains(&2));
    assert_eq!(in_b, vec![1]);
}

#[test]
fn leave_all_and_disconnect_remove_membership() {
    let mut membership = Membership::new();
    membership.join(5, "room".to_string());
    membership.leave_all(5);
    assert!(membership.members(&"room".to_string()).is_empty());

    let mut router = Router::new();
    router.handle_join(9, "room".to_string());
    router.handle_disconnect(9);
    let (_, recipients) = router.handle_message_at(msg("room", "u", "hi", 0), 1);
    assert!(recipients.is_empty());
}

#[test]
fn message_reaches_lobby_members_only_with_server_timestamp() {
    let mut router = Router::new();
    router.handle_join(1, "lobby".to_string());
    router.handle_join(2, "lobby".to_string());
    router.handle_join(3, "other".to_string());

    let client_supplied: i64 = 123_456;
    let server_now: i64 = 42;
    let (stamped, mut recipients) =
        router.handle_message_at(msg("lobby", "alice", "hello", client_supplied), server_now);

    recipients.sort();
    assert_eq!(recipients, vec![1, 2]);
    assert_eq!(stamped.timestamp, server_now);
    assert_ne!(stamped.timestamp, client_supplied);
    assert_eq!(stamped.room_id, "lobby");
    assert_eq!(stamped.user_id, "alice");
    assert_eq!(stamped.text, "hello");
}

#[test]
fn scenario_join_message_join() {
    let mut router = Router::new();

    // Client X joins "r1", whose history is empty.
    let seen_by_x = router.handle_join(10, "r1".to_string());
    assert!(seen_by_x.messages.is_empty());

    // Client Y sends a message to "r1"; X is a recipient.
    let (stamped, recipients) = router.handle_message_at(msg("r1", "y", "hi", 0), 1000);
    assert!(recipients.contains(&10));
    assert_eq!(stamped.text, "hi");
    assert_eq!(stamped.user_id, "y");
    assert_eq!(stamped.timestamp, 1000);

    // Client Z joins "r1" and receives the one retained message.
    let seen_by_z = router.handle_join(11, "r1".to_string());
    assert_eq!(seen_by_z.messages.len(), 1);
    assert_eq!(seen_by_z.messages[0].text, "hi");
    assert_eq!(seen_by_z.messages[0].timestamp, 1000);
}

#[test]
fn scenario_105_messages_keep_most_recent_100() {
    let mut router = Router::new();
    for i in 1..=105 {
        router.handle_message_at(msg("r2", "sender", &format!("msg{}", i), i), i);
    }
    let history = router.handle_join(20, "r2".to_string());
    assert_eq!(history.messages.len(), 100);
    assert_eq!(history.messages[0].text, "msg6");
    assert_eq!(history.messages[99].text, "msg105");
    for w in history.messages.windows(2) {
        assert!(w[0].timestamp < w[1].timestamp);
    }
}

#[test]
fn clock_stamped_message_is_filed_and_broadcast() {
    let mut router = Router::new();
    router.handle_join(4, "live".to_string());
    let (stamped, recipients) = router.handle_message(msg("live", "u", "tick", -5));
    assert!(stamped.timestamp >= 0);
    assert_ne!(stamped.timestamp, -5);
    assert_eq!(recipients, vec![4]);

    let history = router.handle_join(5, "live".to_string());
    assert_eq!(history.messages.len(), 1);
    assert_eq!(history.messages[0].text, "tick");
    assert_eq!(history.messages[0].timestamp, stamped.timestamp);
}

#[test]
fn typing_events_use_literal_names_and_global_scope() {
    let router = Router::new();
    let (event, payload) = router.handle_typing("carol".to_string());
    assert_eq!(event, "{} is typing");
    assert_eq!(payload, "carol");

    let (event, payload) = router.handle_stop_typing("carol".to_string());
    assert_eq!(event, "{} stopped typing");
    assert_eq!(payload, "carol");
}

#[test]
fn interleaved_inserts_from_two_senders_stay_capped() {
    let mut router = Router::new();
    // Alternate two senders' streams into one room, 60 messages each.
    for i in 0..60 {
        router.handle_message_at(msg("busy", "a", &format!("a{}", i), 2 * i), 2 * i);
        router.handle_message_at(msg("busy", "b", &format!("b{}", i), 2 * i + 1), 2 * i + 1);
    }
    let history = router.handle_join(30, "busy".to_string());
    assert_eq!(history.messages.len(), 100);
    // The most recent 100 of the 120 sends remain, in insertion order.
    assert_eq!(history.messages[0].text, "a10");
    assert_eq!(history.messages[99].text, "b59");
}
