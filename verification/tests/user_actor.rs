use roommate::json::JsonValue;
use roommate::protocol::{Emiter, Room as RoomCmd, User as UserCmd};
use roommate::registry::Registry;
use roommate::user::{Frame, FrameStep, User};

fn registry() -> Registry {
    let mut reg = Registry::new();
    reg.register("chat".to_string());
    reg.register("lobby".to_string());
    reg
}

#[test]
fn registry_is_duplicate_free() {
    let mut reg = registry();
    reg.register("chat".to_string());
    assert_eq!(reg.rooms, vec!["chat".to_string(), "lobby".to_string()]);
    assert!(reg.contains_room("chat"));
    assert!(!reg.contains_room("nope"));
}

#[test]
fn classify_text_frames() {
    let user = User::new(7);
    let step = user.classify_user_input(Frame::Text("{\"event\":\"close\"}".to_string()));
    assert_eq!(step, FrameStep::Cmd(UserCmd::Close));
    let step = user.classify_user_input(Frame::Text("not-json".to_string()));
    match step {
        FrameStep::Reject(frame) => assert_eq!(
            frame.render(),
            "{\"event\":\"error\",\"message\":\"The data sended is not in a json format\"}"
        ),
        other => panic!("expected a rejection, got {:?}", other),
    }
}

#[test]
fn classify_transport_frames() {
    let user = User::new(7);
    match user.classify_user_input(Frame::Binary) {
        FrameStep::Reject(frame) => assert_eq!(
            frame.render(),
            "{\"event\":\"error\",\"message\":\"Binary frames are not supported\"}"
        ),
        other => panic!("expected a rejection, got {:?}", other),
    }
    assert_eq!(user.classify_user_input(Frame::Ping), FrameStep::Ignore);
    assert_eq!(user.classify_user_input(Frame::Pong), FrameStep::Ignore);
    assert_eq!(user.classify_user_input(Frame::Close), FrameStep::Closed);
}

#[test]
fn connect_to_known_room() {
    let reg = registry();
    let mut user = User::new(7);
    let actions = user.connect_room("chat".to_string(), &reg);
    assert_eq!(user.connected_rooms, vec!["chat".to_string()]);
    assert_eq!(
        actions.outgoing,
        vec![("chat".to_string(), RoomCmd::ConnectUser(7))]
    );
    assert!(actions.replies.is_empty());
    assert!(!actions.stop);
}

#[test]
fn connect_to_unknown_room_reports_error() {
    let reg = registry();
    let mut user = User::new(7);
    let actions = user.connect_room("nope".to_string(), &reg);
    assert!(user.connected_rooms.is_empty());
    assert!(actions.outgoing.is_empty());
    assert_eq!(actions.replies.len(), 1);
    assert_eq!(
        actions.replies[0].render(),
        "{\"event\":\"error\",\"message\":\"The room doesn't exist on the server\"}"
    );
    assert!(!actions.stop);
}

#[test]
fn disconnect_room_stops_fanout() {
    let reg = registry();
    let mut user = User::new(7);
    user.connect_room("chat".to_string(), &reg);
    user.connect_room("lobby".to_string(), &reg);
    let actions = user.disconnect_room("chat".to_string(), &reg);
    assert_eq!(user.connected_rooms, vec!["lobby".to_string()]);
    assert_eq!(
        actions.outgoing,
        vec![("chat".to_string(), RoomCmd::DisconnectUser(7))]
    );
    let data = JsonValue::Num("1".to_string());
    let actions = user.handle_client_cmd(UserCmd::Event("x".to_string(), data), &reg);
    assert_eq!(
        actions.outgoing,
        vec![(
            "lobby".to_string(),
            RoomCmd::Event("x".to_string(), JsonValue::Num("1".to_string()), Emiter::User(7)),
        )]
    );
}

#[test]
fn client_event_fans_out_to_all_connected_rooms() {
    let reg = registry();
    let mut user = User::new(9);
    user.connect_room("chat".to_string(), &reg);
    user.connect_room("lobby".to_string(), &reg);
    let data = JsonValue::Str("hello".to_string());
    let actions = user.handle_client_cmd(UserCmd::Event("msg".to_string(), data), &reg);
    let expected_cmd = || {
        RoomCmd::Event(
            "msg".to_string(),
            JsonValue::Str("hello".to_string()),
            Emiter::User(9),
        )
    };
    assert_eq!(
        actions.outgoing,
        vec![
            ("chat".to_string(), expected_cmd()),
            ("lobby".to_string(), expected_cmd()),
        ]
    );
    assert!(actions.replies.is_empty());
    assert!(!actions.stop);
}

#[test]
fn client_close_stops_the_actor() {
    let reg = registry();
    let mut user = User::new(9);
    let actions = user.handle_client_cmd(UserCmd::Close, &reg);
    assert!(actions.outgoing.is_empty());
    assert!(actions.replies.is_empty());
    assert!(actions.stop);
}

#[test]
fn room_event_is_framed_for_the_client() {
    let reg = registry();
    let mut user = User::new(9);
    let data = JsonValue::Str("hi".to_string());
    let actions = user.handle_room_input(UserCmd::Event("pong".to_string(), data), &reg);
    assert!(actions.outgoing.is_empty());
    assert_eq!(actions.replies.len(), 1);
    assert_eq!(
        actions.replies[0].render(),
        "{\"data\":\"hi\",\"event\":\"pong\"}"
    );
    assert!(!actions.stop);
}

#[test]
fn inbox_close_stops_the_actor() {
    let reg = registry();
    let mut user = User::new(9);
    let actions = user.handle_room_input(UserCmd::Close, &reg);
    assert!(actions.stop);
}

#[test]
fn departure_notifies_every_room() {
    let reg = registry();
    let mut user = User::new(4);
    user.connect_room("chat".to_string(), &reg);
    user.connect_room("lobby".to_string(), &reg);
    let notices = user.disconnect_all();
    assert_eq!(
        notices,
        vec![
            ("chat".to_string(), RoomCmd::DisconnectUser(4)),
            ("lobby".to_string(), RoomCmd::DisconnectUser(4)),
        ]
    );
}

#[test]
fn invariant_checks_see_broken_states() {
    let user = User::new(3);
    assert!(user.check_invariants());
    let broken = User {
        id: 3,
        connected_rooms: vec!["a".to_string(), "a".to_string()],
    };
    assert!(!broken.check_invariants());
    let reg = registry();
    assert!(reg.check_invariants());
}
