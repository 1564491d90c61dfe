use song_request_hub::registry::{DisconnectMessage, ListRoomsMessage, WebsocketServerActor, ConnectMessage};
use song_request_hub::session::{
    Frame, SessionAction, SessionState, WebsocketReplyMessage, WebsocketSessionActor, CLIENT_TIMEOUT_MS,
};

fn active(room: &str, id: usize, now: u64) -> WebsocketSessionActor {
    let mut s = WebsocketSessionActor::new(room.to_string(), now);
    assert!(s.on_connect_result(Some(id)).is_empty());
    assert_eq!(s.state, SessionState::Active);
    s
}

fn text(s: &mut WebsocketSessionActor, t: &str) -> Vec<SessionAction> {
    s.on_frame(Frame::Text(t.to_string()), 0)
}

#[test]
fn plain_text_is_relayed_trimmed() {
    let mut s = active("r1", 4, 0);
    assert_eq!(text(&mut s, "  hello there \n"), vec![SessionAction::Relay("r1".to_string(), "hello there".to_string())]);
}

#[test]
fn list_command_asks_for_rooms() {
    let mut s = active("r1", 4, 0);
    assert_eq!(text(&mut s, "/list"), vec![SessionAction::ListRooms]);
    assert_eq!(text(&mut s, "  /list extra"), vec![SessionAction::ListRooms]);
}

#[test]
fn join_command_moves_session() {
    let mut s = active("r1", 4, 0);
    assert_eq!(
        text(&mut s, "/join r2"),
        vec![SessionAction::Join("r2".to_string()), SessionAction::Text("joined".to_string())]
    );
    assert_eq!(s.room_name, "r2");
    assert_eq!(text(&mut s, "after"), vec![SessionAction::Relay("r2".to_string(), "after".to_string())]);
}

#[test]
fn join_without_room_is_an_error() {
    let mut s = active("r1", 4, 0);
    assert_eq!(text(&mut s, "/join  "), vec![SessionAction::Text("!!! room name is required".to_string())]);
    assert_eq!(s.room_name, "r1");
}

#[test]
fn unknown_command_is_echoed_quoted() {
    let mut s = active("r1", 4, 0);
    assert_eq!(
        text(&mut s, " /dance now "),
        vec![SessionAction::Text("!!! unknown command: \"/dance now\"".to_string())]
    );
    assert_eq!(s.room_name, "r1");
}

#[test]
fn on_trimmed_text_takes_text_as_given() {
    let mut s = active("r1", 4, 0);
    assert_eq!(
        s.on_trimmed_text(" x "),
        vec![SessionAction::Relay("r1".to_string(), " x ".to_string())]
    );
    assert_eq!(
        s.on_trimmed_text("/join a b"),
        vec![SessionAction::Join("a b".to_string()), SessionAction::Text("joined".to_string())]
    );
}

#[test]
fn ping_refreshes_heartbeat_and_is_answered() {
    let mut s = active("r", 1, 100);
    assert_eq!(s.on_frame(Frame::Ping(vec![1, 2]), 700), vec![SessionAction::Pong(vec![1, 2])]);
    assert_eq!(s.last_heartbeat, 700);
    assert!(s.on_frame(Frame::Pong, 900).is_empty());
    assert_eq!(s.last_heartbeat, 900);
}

#[test]
fn heartbeat_probes_until_timeout() {
    let mut s = active("r", 9, 1000);
    assert_eq!(s.on_heartbeat_tick(1000 + CLIENT_TIMEOUT_MS), vec![SessionAction::Ping]);
    assert_eq!(s.state, SessionState::Active);
    assert_eq!(
        s.on_heartbeat_tick(1001 + CLIENT_TIMEOUT_MS),
        vec![SessionAction::Disconnect(9), SessionAction::Stop]
    );
    assert_eq!(s.state, SessionState::Closing);
    assert!(s.on_heartbeat_tick(50_000).is_empty());
}

#[test]
fn clock_behind_heartbeat_is_not_a_timeout() {
    let mut s = active("r", 9, 50_000);
    assert_eq!(s.on_heartbeat_tick(10), vec![SessionAction::Ping]);
}

#[test]
fn timed_out_session_leaves_its_room() {
    let mut hub = WebsocketServerActor::new();
    let id = hub.connect(ConnectMessage { room_name: "r1".to_string(), websocket_session_actor_recipient: () });
    let other = hub.connect(ConnectMessage { room_name: "r1".to_string(), websocket_session_actor_recipient: () });
    let mut s = active("r1", id, 0);
    let actions = s.on_heartbeat_tick(CLIENT_TIMEOUT_MS + 1);
    for a in actions {
        if let SessionAction::Disconnect(gone) = a {
            hub.disconnect(DisconnectMessage { websocket_session_id: gone });
        }
    }
    assert_eq!(hub.list_rooms(ListRoomsMessage), vec!["r1".to_string()]);
    assert_eq!(hub.recipients_in(&"r1".to_string(), None), vec![other]);
}

#[test]
fn close_and_bad_frames_close_the_session() {
    for frame in [Frame::Close, Frame::Binary, Frame::Continuation, Frame::ProtocolError] {
        let mut s = active("r", 2, 0);
        assert_eq!(s.on_frame(frame, 5), vec![SessionAction::Close, SessionAction::Stop]);
        assert_eq!(s.state, SessionState::Closing);
        assert!(text(&mut s, "late").is_empty());
    }
}

#[test]
fn nop_changes_nothing() {
    let mut s = active("r", 2, 3);
    assert!(s.on_frame(Frame::Nop, 10).is_empty());
    assert_eq!(s.last_heartbeat, 3);
}

#[test]
fn failed_registration_stops() {
    let mut s = WebsocketSessionActor::new("r".to_string(), 0);
    assert!(text(&mut s, "ignored").is_empty());
    assert_eq!(s.on_connect_result(None), vec![SessionAction::Stop]);
    assert_eq!(s.state, SessionState::Closing);
    assert!(s.on_connect_result(Some(3)).is_empty());
    assert_eq!(s.state, SessionState::Closing);
}

#[test]
fn stopping_always_reports_disconnect() {
    let mut s = active("r", 77, 0);
    assert_eq!(s.stopping(), vec![SessionAction::Disconnect(77)]);
    assert_eq!(s.state, SessionState::Closed);
}

#[test]
fn room_list_and_replies_become_text_frames() {
    let s = active("r", 1, 0);
    assert_eq!(
        s.on_room_list(vec!["a".to_string(), "b".to_string()]),
        vec![SessionAction::Text("a".to_string()), SessionAction::Text("b".to_string())]
    );
    assert_eq!(
        s.on_reply(WebsocketReplyMessage { message: "m".to_string() }),
        vec![SessionAction::Text("m".to_string())]
    );
    let waiting = WebsocketSessionActor::new("r".to_string(), 0);
    assert!(waiting.on_reply(WebsocketReplyMessage { message: "m".to_string() }).is_empty());
}
