use song_request_hub::registry::{
    BroadcastAppStateMessage, ClientMessage, ConnectMessage, Delivery, DisconnectMessage, JoinMessage,
    ListRoomsMessage, WebsocketServerActor,
};

fn connect(hub: &mut WebsocketServerActor<&'static str>, room: &str, sink: &'static str) -> usize {
    hub.connect(ConnectMessage { room_name: room.to_string(), websocket_session_actor_recipient: sink })
}

fn relay(hub: &WebsocketServerActor<&'static str>, sender: usize, room: &str, text: &str) -> Vec<Delivery> {
    hub.relay(&ClientMessage { session_id: sender, room_name: room.to_string(), message: text.to_string() })
}

fn sorted_rooms(hub: &WebsocketServerActor<&'static str>) -> Vec<String> {
    let mut rooms = hub.list_rooms(ListRoomsMessage);
    rooms.sort();
    rooms
}

#[test]
fn relay_reaches_other_member_only() {
    let mut hub = WebsocketServerActor::new();
    let id1 = connect(&mut hub, "r1", "A");
    let id2 = connect(&mut hub, "r1", "B");
    assert_ne!(id1, id2);
    let out = relay(&hub, id1, "r1", "hello");
    assert_eq!(out, vec![Delivery { recipient: id2, message: "hello".to_string() }]);
    assert_eq!(hub.recipient(out[0].recipient), Some(&"B"));
}

#[test]
fn joined_session_leaves_old_room() {
    let mut hub = WebsocketServerActor::new();
    let id1 = connect(&mut hub, "r1", "A");
    let id2 = connect(&mut hub, "r1", "B");
    hub.join(JoinMessage { session_id: id2, room_name: "r2".to_string() });
    assert!(relay(&hub, id1, "r1", "x").is_empty());
    let out = relay(&hub, id1, "r2", "y");
    assert_eq!(out, vec![Delivery { recipient: id2, message: "y".to_string() }]);
}

#[test]
fn join_notifies_both_rooms() {
    let mut hub = WebsocketServerActor::new();
    let a = connect(&mut hub, "r1", "A");
    let b = connect(&mut hub, "r1", "B");
    let c = connect(&mut hub, "r2", "C");
    let mut out = hub.join(JoinMessage { session_id: b, room_name: "r2".to_string() });
    out.sort_by(|x, y| x.message.cmp(&y.message));
    assert_eq!(
        out,
        vec![
            Delivery { recipient: c, message: "Someone connected".to_string() },
            Delivery { recipient: a, message: "Someone disconnected".to_string() },
        ]
    );
}

#[test]
fn join_of_unknown_id_changes_nothing() {
    let mut hub = WebsocketServerActor::new();
    let a = connect(&mut hub, "r1", "A");
    let unknown = a.wrapping_add(1);
    let out = hub.join(JoinMessage { session_id: unknown, room_name: "r2".to_string() });
    assert!(out.is_empty());
    assert_eq!(sorted_rooms(&hub), vec!["r1".to_string()]);
    assert!(hub.recipient(unknown).is_none());
}

#[test]
fn disconnected_session_gets_nothing() {
    let mut hub = WebsocketServerActor::new();
    let a = connect(&mut hub, "r1", "A");
    let b = connect(&mut hub, "r1", "B");
    hub.disconnect(DisconnectMessage { websocket_session_id: b });
    assert!(relay(&hub, a, "r1", "hi").is_empty());
    let out = hub.broadcast(&BroadcastAppStateMessage { user_id: "r1".to_string() }, "{}");
    assert_eq!(out, vec![Delivery { recipient: a, message: "{}".to_string() }]);
    assert!(hub.recipient(b).is_none());
}

#[test]
fn disconnect_twice_is_disconnect_once() {
    let mut hub = WebsocketServerActor::new();
    let a = connect(&mut hub, "r1", "A");
    let b = connect(&mut hub, "r1", "B");
    hub.disconnect(DisconnectMessage { websocket_session_id: a });
    let after_once = relay(&hub, b, "r1", "m");
    hub.disconnect(DisconnectMessage { websocket_session_id: a });
    assert_eq!(relay(&hub, b, "r1", "m"), after_once);
    assert_eq!(sorted_rooms(&hub), vec!["r1".to_string()]);
    assert_eq!(hub.recipient(b), Some(&"B"));
}

#[test]
fn broadcast_includes_every_member() {
    let mut hub = WebsocketServerActor::new();
    let a = connect(&mut hub, "room", "A");
    let b = connect(&mut hub, "room", "B");
    connect(&mut hub, "other", "C");
    let mut out = hub.broadcast(&BroadcastAppStateMessage { user_id: "room".to_string() }, "state");
    out.sort_by_key(|d| d.recipient);
    let mut expected = vec![
        Delivery { recipient: a, message: "state".to_string() },
        Delivery { recipient: b, message: "state".to_string() },
    ];
    expected.sort_by_key(|d| d.recipient);
    assert_eq!(out, expected);
}

#[test]
fn broadcast_to_unknown_room_is_empty() {
    let hub: WebsocketServerActor<&'static str> = WebsocketServerActor::new();
    assert!(hub.broadcast(&BroadcastAppStateMessage { user_id: "nobody".to_string() }, "x").is_empty());
    assert!(hub.list_rooms(ListRoomsMessage).is_empty());
}

#[test]
fn emptied_rooms_stay_listed() {
    let mut hub = WebsocketServerActor::new();
    let a = connect(&mut hub, "r1", "A");
    connect(&mut hub, "r2", "B");
    hub.join(JoinMessage { session_id: a, room_name: "r3".to_string() });
    assert_eq!(sorted_rooms(&hub), vec!["r1".to_string(), "r2".to_string(), "r3".to_string()]);
    hub.disconnect(DisconnectMessage { websocket_session_id: a });
    assert_eq!(sorted_rooms(&hub), vec!["r1".to_string(), "r2".to_string(), "r3".to_string()]);
}

#[test]
fn taken_candidate_falls_back_to_free_id() {
    let mut hub = WebsocketServerActor::new();
    assert_eq!(hub.connect_with_id("r".to_string(), "A", 0), 0);
    assert_eq!(hub.connect_with_id("r".to_string(), "B", 7), 7);
    assert_eq!(hub.connect_with_id("r".to_string(), "C", 0), 1);
    assert_eq!(hub.connect_with_id("r".to_string(), "D", 7), 2);
    assert_eq!(hub.recipient(2), Some(&"D"));
}

#[test]
fn many_connects_give_distinct_live_ids() {
    let mut hub = WebsocketServerActor::new();
    let mut ids: Vec<usize> = Vec::new();
    for _ in 0..50 {
        ids.push(connect(&mut hub, "r", "S"));
    }
    let mut unique = ids.clone();
    unique.sort();
    unique.dedup();
    assert_eq!(unique.len(), ids.len());
    for id in &ids {
        assert!(hub.recipient(*id).is_some());
    }
}

#[test]
fn send_message_skips_given_session() {
    let mut hub = WebsocketServerActor::new();
    let a = connect(&mut hub, "r", "A");
    let b = connect(&mut hub, "r", "B");
    let out = hub.send_message(&"r".to_string(), "p", Some(b));
    assert_eq!(out, vec![Delivery { recipient: a, message: "p".to_string() }]);
    let mut ids = hub.recipients_in(&"r".to_string(), None);
    ids.sort();
    let mut expected = vec![a, b];
    expected.sort();
    assert_eq!(ids, expected);
}
