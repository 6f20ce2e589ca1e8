//! End-to-end scenarios, driven by hand: the test plays the part of the
//! runtime, carrying each planned delivery to its addressee.

use roommate::json::JsonValue;
use roommate::protocol::{Emiter, Room as RoomCmd, User as UserCmd};
use roommate::registry::Registry;
use roommate::room::{Delivery, Room, RoomStep};
use roommate::user::{Frame, FrameStep, User};

/// Feeds one client text frame to the user actor and returns the room
/// commands it sends out.
fn client_sends(user: &mut User, reg: &Registry, text: &str) -> Vec<(String, RoomCmd)> {
    match user.classify_user_input(Frame::Text(text.to_string())) {
        FrameStep::Cmd(cmd) => user.handle_client_cmd(cmd, reg).outgoing,
        other => panic!("frame was not a command: {:?}", other),
    }
}

/// Carries one user-command delivery into the user's inbox and returns
/// the frames that go back to its client.
fn frames_for(user: &mut User, reg: &Registry, cmd: UserCmd) -> Vec<String> {
    let actions = user.handle_room_input(cmd, reg);
    actions.replies.iter().map(|j| j.render()).collect()
}

/// S1: a `ping` handler that whispers `pong` back answers only the
/// sender, with the same payload.
#[test]
fn echo_whisper() {
    let mut reg = Registry::new();
    reg.register("chat".to_string());
    let mut chat = Room::new("chat".to_string(), None);
    chat.insert_event("ping".to_string());

    let mut u1 = User::new(1);
    for (name, cmd) in client_sends(&mut u1, &reg, "{\"event\":\"connect\",\"room\":\"chat\"}") {
        assert_eq!(name, "chat");
        chat.handle_command(cmd);
    }
    assert_eq!(chat.users, vec![1]);

    let outgoing = client_sends(&mut u1, &reg, "{\"event\":\"ping\",\"data\":\"hi\"}");
    let mut replies: Vec<String> = Vec::new();
    for (_, cmd) in outgoing {
        if let RoomStep::Dispatch(event, payload, emitter) = chat.handle_command(cmd) {
            assert_eq!(event, "ping");
            // The ping handler: whisper("pong", payload, emitter).
            for delivery in chat.whisper(emitter, "pong", &payload) {
                match delivery {
                    Delivery::ToUser(1, cmd) => replies.extend(frames_for(&mut u1, &reg, cmd)),
                    other => panic!("unexpected delivery {:?}", other),
                }
            }
        }
    }
    assert_eq!(replies, vec!["{\"data\":\"hi\",\"event\":\"pong\"}".to_string()]);
}

/// S2: a `msg` handler that emits reaches the other user and not the
/// sender.
#[test]
fn two_user_emit() {
    let mut reg = Registry::new();
    reg.register("chat".to_string());
    let mut chat = Room::new("chat".to_string(), None);
    chat.insert_event("msg".to_string());

    let mut u1 = User::new(1);
    let mut u2 = User::new(2);
    for (_, cmd) in client_sends(&mut u1, &reg, "{\"event\":\"connect\",\"room\":\"chat\"}") {
        chat.handle_command(cmd);
    }
    for (_, cmd) in client_sends(&mut u2, &reg, "{\"event\":\"connect\",\"room\":\"chat\"}") {
        chat.handle_command(cmd);
    }

    let outgoing = client_sends(&mut u1, &reg, "{\"event\":\"msg\",\"data\":{\"text\":\"hello\"}}");
    let mut u1_frames: Vec<String> = Vec::new();
    let mut u2_frames: Vec<String> = Vec::new();
    for (_, cmd) in outgoing {
        if let RoomStep::Dispatch(_, payload, emitter) = chat.handle_command(cmd) {
            // The msg handler: emit("msg", payload, emitter).
            for delivery in chat.emit(emitter, "msg", &payload) {
                match delivery {
                    Delivery::ToUser(1, cmd) => u1_frames.extend(frames_for(&mut u1, &reg, cmd)),
                    Delivery::ToUser(2, cmd) => u2_frames.extend(frames_for(&mut u2, &reg, cmd)),
                    other => panic!("unexpected delivery {:?}", other),
                }
            }
        }
    }
    assert!(u1_frames.is_empty());
    assert_eq!(
        u2_frames,
        vec!["{\"data\":{\"text\":\"hello\"},\"event\":\"msg\"}".to_string()]
    );
}

/// S3: an event emitted in room A is forwarded to its peer B tagged as
/// room-origin, and B's handler broadcasts to B's own users.
#[test]
fn peer_room_forwarding() {
    let mut reg = Registry::new();
    reg.register("A".to_string());
    reg.register("B".to_string());
    let mut room_a = Room::new("A".to_string(), None);
    room_a.insert_event("x".to_string());
    let mut room_b = Room::new("B".to_string(), None);
    room_b.insert_event("y".to_string());
    room_a.connect_room("B".to_string());
    room_b.connect_room("A".to_string());

    let mut u1 = User::new(1);
    let mut u2 = User::new(2);
    for (_, cmd) in client_sends(&mut u1, &reg, "{\"event\":\"connect\",\"room\":\"B\"}") {
        room_b.handle_command(cmd);
    }
    for (_, cmd) in client_sends(&mut u2, &reg, "{\"event\":\"connect\",\"room\":\"A\"}") {
        room_a.handle_command(cmd);
    }

    let outgoing = client_sends(&mut u2, &reg, "{\"event\":\"x\",\"data\":1}");
    let mut u1_frames: Vec<String> = Vec::new();
    let u2_frames: Vec<String> = Vec::new();
    for (name, cmd) in outgoing {
        assert_eq!(name, "A");
        if let RoomStep::Dispatch(_, payload, emitter) = room_a.handle_command(cmd) {
            // A's x handler: emit("y", payload, emitter).
            for delivery in room_a.emit(emitter, "y", &payload) {
                match delivery {
                    Delivery::ToRoom(peer, cmd) => {
                        assert_eq!(peer, "B");
                        if let RoomStep::Dispatch(event, payload, _emitter) =
                            room_b.handle_command(cmd)
                        {
                            assert_eq!(event, "y");
                            // B's y handler: broadcast_to_users("y2", payload).
                            for delivery in room_b.broadcast_to_users("y2", &payload) {
                                match delivery {
                                    Delivery::ToUser(1, cmd) => {
                                        u1_frames.extend(frames_for(&mut u1, &reg, cmd))
                                    },
                                    other => panic!("unexpected delivery {:?}", other),
                                }
                            }
                        } else {
                            panic!("B dropped the forwarded event");
                        }
                    },
                    other => panic!("unexpected delivery {:?}", other),
                }
            }
        }
    }
    assert_eq!(u1_frames, vec!["{\"data\":1,\"event\":\"y2\"}".to_string()]);
    assert!(u2_frames.is_empty());
}

/// S4: a malformed frame is answered with an error frame and reaches no
/// room inbox.
#[test]
fn malformed_frame() {
    let mut u1 = User::new(1);
    let reg = Registry::new();
    match u1.classify_user_input(Frame::Text("not-json".to_string())) {
        FrameStep::Reject(frame) => {
            let text = frame.render();
            assert!(text.starts_with("{\"event\":\"error\",\"message\":\""));
        },
        other => panic!("expected a rejection, got {:?}", other),
    }
    // Nothing was dispatched, so no room command exists at all; the
    // actor state is untouched too.
    assert!(u1.connected_rooms.is_empty());
    let _ = reg;
}

/// S5: after a disconnect, a later broadcast to users no longer reaches
/// the departed user.
#[test]
fn disconnect_then_broadcast_skips_user() {
    let mut reg = Registry::new();
    reg.register("chat".to_string());
    let mut chat = Room::new("chat".to_string(), None);
    let mut u1 = User::new(1);
    for (_, cmd) in client_sends(&mut u1, &reg, "{\"event\":\"connect\",\"room\":\"chat\"}") {
        chat.handle_command(cmd);
    }
    assert_eq!(chat.users, vec![1]);
    for (_, cmd) in client_sends(&mut u1, &reg, "{\"event\":\"disconnect\",\"room\":\"chat\"}") {
        chat.handle_command(cmd);
    }
    assert!(chat.users.is_empty());
    let plan = chat.broadcast_to_users("x", &JsonValue::Num("0".to_string()));
    assert!(plan.is_empty());
}

/// S6: connecting to an unknown room yields an error frame, creates no
/// room, and leaves the subscription roster empty.
#[test]
fn unknown_room_connect() {
    let mut reg = Registry::new();
    reg.register("chat".to_string());
    let mut u1 = User::new(1);
    match u1.classify_user_input(Frame::Text(
        "{\"event\":\"connect\",\"room\":\"nope\"}".to_string(),
    )) {
        FrameStep::Cmd(cmd) => {
            let actions = u1.handle_client_cmd(cmd, &reg);
            assert!(actions.outgoing.is_empty());
            assert_eq!(actions.replies.len(), 1);
            assert_eq!(
                actions.replies[0].render(),
                "{\"event\":\"error\",\"message\":\"The room doesn't exist on the server\"}"
            );
        },
        other => panic!("expected a command, got {:?}", other),
    }
    assert!(u1.connected_rooms.is_empty());
    assert_eq!(reg.rooms, vec!["chat".to_string()]);
}
