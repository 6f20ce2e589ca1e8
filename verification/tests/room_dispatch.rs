use roommate::json::JsonValue;
use roommate::protocol::{Emiter, Room as RoomCmd, User as UserCmd};
use roommate::room::{Delivery, Room, RoomStep};

fn chat_room() -> Room {
    let mut room = Room::new("chat".to_string(), None);
    room.insert_event("ping".to_string());
    room.connect_user(1);
    room.connect_user(2);
    room.connect_user(3);
    room.connect_room("a".to_string());
    room.connect_room("b".to_string());
    room
}

fn payload() -> JsonValue {
    JsonValue::Str("hi".to_string())
}

fn user_event(id: u128) -> Delivery {
    Delivery::ToUser(id, UserCmd::Event("msg".to_string(), payload()))
}

fn room_event(name: &str) -> Delivery {
    Delivery::ToRoom(
        name.to_string(),
        RoomCmd::Event("msg".to_string(), payload(), Emiter::Room("chat".to_string())),
    )
}

#[test]
fn membership_is_idempotent_and_self_free() {
    let mut room = chat_room();
    room.connect_user(2);
    room.connect_room("a".to_string());
    room.connect_room("chat".to_string());
    assert_eq!(room.users, vec![1, 2, 3]);
    assert_eq!(room.peers, vec!["a".to_string(), "b".to_string()]);
    room.disconnect_user(2);
    assert_eq!(room.users, vec![1, 3]);
}

#[test]
fn handle_command_dispatches_known_event() {
    let mut room = chat_room();
    let step = room.handle_command(RoomCmd::Event(
        "ping".to_string(),
        payload(),
        Emiter::User(1),
    ));
    assert_eq!(
        step,
        RoomStep::Dispatch("ping".to_string(), payload(), Emiter::User(1))
    );
}

#[test]
fn handle_command_drops_unknown_event() {
    let mut room = chat_room();
    let step = room.handle_command(RoomCmd::Event(
        "nope".to_string(),
        payload(),
        Emiter::User(1),
    ));
    assert_eq!(step, RoomStep::Continue);
}

#[test]
fn handle_command_membership_and_close() {
    let mut room = chat_room();
    assert_eq!(room.handle_command(RoomCmd::ConnectUser(9)), RoomStep::Continue);
    assert_eq!(room.users, vec![1, 2, 3, 9]);
    assert_eq!(room.handle_command(RoomCmd::DisconnectUser(1)), RoomStep::Continue);
    assert_eq!(room.users, vec![2, 3, 9]);
    assert_eq!(room.handle_command(RoomCmd::Close), RoomStep::Stop);
}

#[test]
fn emit_user_origin_excludes_that_user() {
    let room = chat_room();
    let plan = room.emit(Emiter::User(2), "msg", &payload());
    assert_eq!(
        plan,
        vec![user_event(1), user_event(3), room_event("a"), room_event("b")]
    );
}

#[test]
fn emit_room_origin_excludes_that_peer() {
    let room = chat_room();
    let plan = room.emit(Emiter::Room("a".to_string()), "msg", &payload());
    assert_eq!(
        plan,
        vec![user_event(1), user_event(2), user_event(3), room_event("b")]
    );
}

#[test]
fn broadcast_reaches_everyone() {
    let room = chat_room();
    let plan = room.broadcast("msg", &payload());
    assert_eq!(
        plan,
        vec![
            user_event(1),
            user_event(2),
            user_event(3),
            room_event("a"),
            room_event("b"),
        ]
    );
}

#[test]
fn whisper_reaches_only_the_emitter() {
    let room = chat_room();
    let plan = room.whisper(Emiter::User(2), "msg", &payload());
    assert_eq!(plan, vec![user_event(2)]);
    let plan = room.whisper(Emiter::Room("b".to_string()), "msg", &payload());
    assert_eq!(plan, vec![room_event("b")]);
}

#[test]
fn whisper_to_unregistered_emitter_is_silent() {
    let room = chat_room();
    assert_eq!(room.whisper(Emiter::User(42), "msg", &payload()), vec![]);
    assert_eq!(
        room.whisper(Emiter::Room("nope".to_string()), "msg", &payload()),
        vec![]
    );
}

#[test]
fn projections_match_the_full_primitives() {
    let room = chat_room();
    assert_eq!(
        room.emit_to_users(Emiter::User(2), "msg", &payload()),
        vec![user_event(1), user_event(3)]
    );
    assert_eq!(
        room.emit_to_users(Emiter::Room("a".to_string()), "msg", &payload()),
        vec![user_event(1), user_event(2), user_event(3)]
    );
    assert_eq!(
        room.broadcast_to_users("msg", &payload()),
        vec![user_event(1), user_event(2), user_event(3)]
    );
    assert_eq!(
        room.emit_to_rooms(Emiter::Room("a".to_string()), "msg", &payload()),
        vec![room_event("b")]
    );
    assert_eq!(
        room.emit_to_rooms(Emiter::User(1), "msg", &payload()),
        vec![room_event("a"), room_event("b")]
    );
    assert_eq!(
        room.broadcast_to_rooms("msg", &payload()),
        vec![room_event("a"), room_event("b")]
    );
}

#[test]
fn disconnect_cleans_routing() {
    let mut room = chat_room();
    room.disconnect_user(1);
    let plan = room.broadcast_to_users("x", &JsonValue::Num("0".to_string()));
    assert_eq!(
        plan,
        vec![
            Delivery::ToUser(2, UserCmd::Event("x".to_string(), JsonValue::Num("0".to_string()))),
            Delivery::ToUser(3, UserCmd::Event("x".to_string(), JsonValue::Num("0".to_string()))),
        ]
    );
}

#[test]
fn room_invariant_check_sees_broken_states() {
    let room = chat_room();
    assert!(room.check_invariants());
    let mut broken = chat_room();
    broken.users.push(2);
    assert!(!broken.check_invariants());
    let mut self_peer = chat_room();
    self_peer.peers.push("chat".to_string());
    assert!(!self_peer.check_invariants());
}
