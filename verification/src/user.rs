//! The user actor's state and decision logic.
//!
//! One user actor wraps one client connection. The caller runs the select
//! loop between the client socket and the user's inbox; this module
//! decides, for each incoming frame or inbox command, how the roster of
//! subscribed rooms changes, which room commands go out, which frames go
//! back to the client, and when the actor stops. The caller performs the
//! sends, looking each named room's sender up in its registry table.

use vstd::prelude::*;

use crate::json::{Json, JsonValue};
use crate::protocol::{self, error_frame, spec_decode, spec_error_frame, EmiterV, RoomV, UserV};
use crate::registry::Registry;
use crate::roster::{
    contains_name, lemma_map_values_push, lemma_push_unique, name_views, remove_name, seq_drop,
    unique_seq,
};

verus! {

broadcast use vstd::std_specs::vec::group_vec_axioms;

/// One frame read from the client socket, as the transport hands it over.
#[derive(Clone, Debug, PartialEq, Eq)]
pub enum Frame {
    /// A text frame carrying one command.
    Text(String),
    /// A binary frame; the protocol reserves these.
    Binary,
    /// Transport keep-alive, answered by the socket layer.
    Ping,
    /// Transport keep-alive, answered by the socket layer.
    Pong,
    /// The client closed the connection.
    Close,
}

/// What the actor must do with one frame from the client socket.
#[derive(Debug, PartialEq, Eq)]
pub enum FrameStep {
    /// A decoded command to apply.
    Cmd(protocol::User),
    /// The frame was rejected: report this error frame to the client.
    Reject(JsonValue),
    /// A transport-level frame: nothing to do.
    Ignore,
    /// The client is gone: stop the actor.
    Closed,
}

/// What the actor must do after consuming one command: send the room
/// commands (each to the named room), send the reply frames to the
/// client, and stop if told so.
#[derive(Debug)]
pub struct UserActions {
    /// Room commands to send, each to the room named beside it.
    pub outgoing: Vec<(String, protocol::Room)>,
    /// Frames to send back to this user's client.
    pub replies: Vec<JsonValue>,
    /// The actor must stop after performing the sends above.
    pub stop: bool,
}

/// The models of the outgoing room commands, in order.
pub open spec fn outgoing_views(s: Seq<(String, protocol::Room)>) -> Seq<(Seq<char>, RoomV)> {
    s.map_values(|p: (String, protocol::Room)| (p.0@, p.1@))
}

/// The models of the reply frames, in order.
pub open spec fn reply_views(s: Seq<JsonValue>) -> Seq<Json> {
    s.map_values(|j: JsonValue| j@)
}

/// The command `cmd` addressed to each of the named rooms, in order.
pub open spec fn room_fanout(names: Seq<Seq<char>>, cmd: RoomV) -> Seq<(Seq<char>, RoomV)>
    decreases names.len(),
{
    if names.len() == 0 {
        Seq::empty()
    } else {
        room_fanout(names.drop_last(), cmd).push((names.last(), cmd))
    }
}

/// The error frame reported when a client names a room the registry does
/// not know.
pub open spec fn spec_unknown_room_frame() -> Json {
    spec_error_frame("The room doesn't exist on the server"@)
}

/// The error frame reported for a binary frame.
pub open spec fn spec_binary_rejected_frame() -> Json {
    spec_error_frame("Binary frames are not supported"@)
}

/// A user actor's state: its id and the rooms it is subscribed to.
///
/// The caller owns the socket, the inbox and the channel senders; the
/// roster of room names here decides where this user's events fan out.
pub struct User {
    /// Unique within the process; assigned on accept.
    pub id: u128,
    /// The names of the rooms this user is subscribed to.
    pub connected_rooms: Vec<String>,
}

impl User {
    /// No room is subscribed to twice.
    pub open spec fn wf(&self) -> bool {
        unique_seq(name_views(self.connected_rooms@))
    }

    /// The names of the subscribed rooms, in order.
    pub open spec fn room_names(&self) -> Seq<Seq<char>> {
        name_views(self.connected_rooms@)
    }

    /// Checks the well-formedness condition at run time, for callers
    /// outside the proof: true exactly when `wf` holds.
    pub fn check_invariants(&self) -> (r: bool)
        ensures
            r == self.wf(),
    {
        crate::roster::names_unique(&self.connected_rooms)
    }

    /// A fresh user actor state with no subscriptions.
    pub fn new(id: u128) -> (r: User)
        ensures
            r.wf(),
            r.id == id,
            r.connected_rooms@.len() == 0,
    {
        let r = User { id, connected_rooms: Vec::new() };
        proof {
            assert(name_views(r.connected_rooms@) =~= Seq::<Seq<char>>::empty());
        }
        r
    }

    /// Sorts one frame from the client socket: text frames are decoded
    /// with the codec, binary frames are rejected with a clear error,
    /// ping and pong stay with the transport, and a close frame stops
    /// the actor.
    pub fn classify_user_input(&self, input: Frame) -> (r: FrameStep)
        ensures
            match input {
                Frame::Text(s) => match spec_decode(crate::json::parsed(s@)) {
                    Ok(c) => r matches FrameStep::Cmd(cmd) && cmd@ == c,
                    Err(e) => r matches FrameStep::Reject(j) && j@ == e.spec_frame(),
                },
                Frame::Binary => r matches FrameStep::Reject(j) && j@
                    == spec_binary_rejected_frame(),
                Frame::Ping => r is Ignore,
                Frame::Pong => r is Ignore,
                Frame::Close => r is Closed,
            },
    {
        match input {
            Frame::Text(message) => match protocol::User::try_from(message) {
                Ok(cmd) => FrameStep::Cmd(cmd),
                Err(e) => FrameStep::Reject(e.into_json()),
            },
            Frame::Binary => FrameStep::Reject(
                error_frame("Binary frames are not supported"),
            ),
            Frame::Ping => FrameStep::Ignore,
            Frame::Pong => FrameStep::Ignore,
            Frame::Close => FrameStep::Closed,
        }
    }

    /// Addresses `command` to every room this user is subscribed to.
    #[verifier::loop_isolation(false)]
    pub fn send_to_rooms(&self, command: protocol::Room) -> (r: Vec<(String, protocol::Room)>)
        ensures
            outgoing_views(r@) == room_fanout(self.room_names(), command@),
    {
        let n = self.connected_rooms.len();
        let mut out: Vec<(String, protocol::Room)> = Vec::new();
        let mut i: usize = 0;
        proof {
            assert(self.room_names().take(0) =~= Seq::<Seq<char>>::empty());
            assert(outgoing_views(out@) =~= Seq::<(Seq<char>, RoomV)>::empty());
        }
        while i < n
            invariant
                i <= n,
                outgoing_views(out@) == room_fanout(self.room_names().take(i as int), command@),
            decreases n - i,
        {
            proof {
                assert(self.room_names().take(i + 1).drop_last() =~= self.room_names().take(
                    i as int,
                ));
                assert(self.room_names()[i as int] == self.connected_rooms@[i as int]@);
            }
            let ghost prev = out@;
            let name = self.connected_rooms[i].clone();
            let copy = command.duplicate();
            out.push((name, copy));
            proof {
                lemma_map_values_push(prev, out@.last(), |p: (String, protocol::Room)| (
                    p.0@,
                    p.1@,
                ));
            }
            i = i + 1;
        }
        proof {
            assert(self.room_names().take(n as int) =~= self.room_names());
        }
        out
    }

    /// Subscribes this user to the named room: when the registry knows
    /// the room, the roster grows and the room is asked to register this
    /// user; when it does not, the client gets an error frame and
    /// nothing else happens.
    pub fn connect_room(&mut self, room_name: String, registry: &Registry) -> (r: UserActions)
        requires
            old(self).wf(),
        ensures
            final(self).wf(),
            final(self).id == old(self).id,
            r.stop == false,
            if registry.has_room(room_name@) {
                &&& final(self).room_names() == if old(self).room_names().contains(room_name@) {
                    old(self).room_names()
                } else {
                    old(self).room_names().push(room_name@)
                }
                &&& outgoing_views(r.outgoing@) == seq![
                    (room_name@, RoomV::ConnectUser(old(self).id)),
                ]
                &&& reply_views(r.replies@) =~= Seq::<Json>::empty()
            } else {
                &&& *final(self) == *old(self)
                &&& outgoing_views(r.outgoing@) =~= Seq::<(Seq<char>, RoomV)>::empty()
                &&& reply_views(r.replies@) == seq![spec_unknown_room_frame()]
            },
    {
        let mut outgoing: Vec<(String, protocol::Room)> = Vec::new();
        let mut replies: Vec<JsonValue> = Vec::new();
        proof {
            assert(outgoing_views(outgoing@) =~= Seq::<(Seq<char>, RoomV)>::empty());
            assert(reply_views(replies@) =~= Seq::<Json>::empty());
        }
        let ghost name_view = room_name@;
        if registry.contains_room(room_name.as_str()) {
            if !contains_name(&self.connected_rooms, room_name.as_str()) {
                let ghost prev = self.connected_rooms@;
                self.connected_rooms.push(room_name.clone());
                proof {
                    lemma_map_values_push(prev, self.connected_rooms@.last(), |s: String| s@);
                    lemma_push_unique(name_views(prev), name_view);
                }
            }
            let ghost prev_out = outgoing@;
            outgoing.push((room_name, protocol::Room::ConnectUser(self.id)));
            proof {
                lemma_map_values_push(prev_out, outgoing@.last(), |p: (String, protocol::Room)| (
                    p.0@,
                    p.1@,
                ));
                assert(outgoing_views(outgoing@) =~= seq![
                    (name_view, RoomV::ConnectUser(self.id)),
                ]);
            }
        } else {
            let ghost prev_rep = replies@;
            replies.push(error_frame("The room doesn't exist on the server"));
            proof {
                lemma_map_values_push(prev_rep, replies@.last(), |j: JsonValue| j@);
            }
        }
        UserActions { outgoing, replies, stop: false }
    }

    /// Unsubscribes this user from the named room: when the registry
    /// knows the room, the roster shrinks and the room is asked to drop
    /// this user; when it does not, the client gets an error frame.
    pub fn disconnect_room(&mut self, room_name: String, registry: &Registry)
        -> (r: UserActions)
        requires
            old(self).wf(),
        ensures
            final(self).wf(),
            final(self).id == old(self).id,
            r.stop == false,
            if registry.has_room(room_name@) {
                &&& final(self).room_names() == seq_drop(old(self).room_names(), room_name@)
                &&& outgoing_views(r.outgoing@) == seq![
                    (room_name@, RoomV::DisconnectUser(old(self).id)),
                ]
                &&& reply_views(r.replies@) =~= Seq::<Json>::empty()
            } else {
                &&& *final(self) == *old(self)
                &&& outgoing_views(r.outgoing@) =~= Seq::<(Seq<char>, RoomV)>::empty()
                &&& reply_views(r.replies@) == seq![spec_unknown_room_frame()]
            },
    {
        let mut outgoing: Vec<(String, protocol::Room)> = Vec::new();
        let mut replies: Vec<JsonValue> = Vec::new();
        proof {
            assert(outgoing_views(outgoing@) =~= Seq::<(Seq<char>, RoomV)>::empty());
            assert(reply_views(replies@) =~= Seq::<Json>::empty());
        }
        if registry.contains_room(room_name.as_str()) {
            proof {
                crate::roster::lemma_seq_drop_unique(self.room_names(), room_name@);
            }
            remove_name(&mut self.connected_rooms, room_name.as_str());
            let ghost prev_out = outgoing@;
            outgoing.push((room_name, protocol::Room::DisconnectUser(self.id)));
            proof {
                lemma_map_values_push(prev_out, outgoing@.last(), |p: (String, protocol::Room)| (
                    p.0@,
                    p.1@,
                ));
            }
        } else {
            let ghost prev_rep = replies@;
            replies.push(error_frame("The room doesn't exist on the server"));
            proof {
                lemma_map_values_push(prev_rep, replies@.last(), |j: JsonValue| j@);
            }
        }
        UserActions { outgoing, replies, stop: false }
    }

    /// Applies one decoded client command: an event fans out to every
    /// subscribed room tagged with this user as emitter, the
    /// subscription commands adjust the roster, and `close` stops the
    /// actor.
    pub fn handle_client_cmd(&mut self, cmd: protocol::User, registry: &Registry)
        -> (r: UserActions)
        requires
            old(self).wf(),
        ensures
            final(self).wf(),
            final(self).id == old(self).id,
            match cmd {
                protocol::User::Event(e, d) => {
                    &&& *final(self) == *old(self)
                    &&& outgoing_views(r.outgoing@) == room_fanout(
                        old(self).room_names(),
                        RoomV::Event(e@, d@, EmiterV::User(old(self).id)),
                    )
                    &&& reply_views(r.replies@) =~= Seq::<Json>::empty()
                    &&& r.stop == false
                },
                protocol::User::ConnectRoom(name) => if registry.has_room(name@) {
                    &&& final(self).room_names() == if old(self).room_names().contains(name@) {
                        old(self).room_names()
                    } else {
                        old(self).room_names().push(name@)
                    }
                    &&& outgoing_views(r.outgoing@) == seq![
                        (name@, RoomV::ConnectUser(old(self).id)),
                    ]
                    &&& reply_views(r.replies@) =~= Seq::<Json>::empty()
                    &&& r.stop == false
                } else {
                    &&& *final(self) == *old(self)
                    &&& outgoing_views(r.outgoing@) =~= Seq::<(Seq<char>, RoomV)>::empty()
                    &&& reply_views(r.replies@) == seq![spec_unknown_room_frame()]
                    &&& r.stop == false
                },
                protocol::User::DisconnectRoom(name) => if registry.has_room(name@) {
                    &&& final(self).room_names() == seq_drop(old(self).room_names(), name@)
                    &&& outgoing_views(r.outgoing@) == seq![
                        (name@, RoomV::DisconnectUser(old(self).id)),
                    ]
                    &&& reply_views(r.replies@) =~= Seq::<Json>::empty()
                    &&& r.stop == false
                } else {
                    &&& *final(self) == *old(self)
                    &&& outgoing_views(r.outgoing@) =~= Seq::<(Seq<char>, RoomV)>::empty()
                    &&& reply_views(r.replies@) == seq![spec_unknown_room_frame()]
                    &&& r.stop == false
                },
                protocol::User::Close => {
                    &&& *final(self) == *old(self)
                    &&& outgoing_views(r.outgoing@) =~= Seq::<(Seq<char>, RoomV)>::empty()
                    &&& reply_views(r.replies@) =~= Seq::<Json>::empty()
                    &&& r.stop == true
                },
            },
    {
        match cmd {
            protocol::User::Event(event_name, data) => {
                let outgoing = self.send_to_rooms(
                    protocol::Room::Event(event_name, data, protocol::Emiter::User(self.id)),
                );
                let replies: Vec<JsonValue> = Vec::new();
                proof {
                    assert(reply_views(replies@) =~= Seq::<Json>::empty());
                }
                UserActions { outgoing, replies, stop: false }
            },
            protocol::User::ConnectRoom(name) => self.connect_room(name, registry),
            protocol::User::DisconnectRoom(name) => self.disconnect_room(name, registry),
            protocol::User::Close => {
                let outgoing: Vec<(String, protocol::Room)> = Vec::new();
                let replies: Vec<JsonValue> = Vec::new();
                proof {
                    assert(outgoing_views(outgoing@) =~= Seq::<(Seq<char>, RoomV)>::empty());
                    assert(reply_views(replies@) =~= Seq::<Json>::empty());
                }
                UserActions { outgoing, replies, stop: true }
            },
        }
    }

    /// Applies one command from this user's inbox (rooms talking to the
    /// user): events are framed for the client, the subscription
    /// commands are reserved for server-driven changes and work as on
    /// the client side, and `close` stops the actor.
    pub fn handle_room_input(&mut self, cmd: protocol::User, registry: &Registry)
        -> (r: UserActions)
        requires
            old(self).wf(),
        ensures
            final(self).wf(),
            final(self).id == old(self).id,
            match cmd {
                protocol::User::Event(e, d) => {
                    &&& *final(self) == *old(self)
                    &&& outgoing_views(r.outgoing@) =~= Seq::<(Seq<char>, RoomV)>::empty()
                    &&& reply_views(r.replies@) == seq![
                        protocol::User::spec_encode(UserV::Event(e@, d@)),
                    ]
                    &&& r.stop == false
                },
                protocol::User::ConnectRoom(name) => if registry.has_room(name@) {
                    &&& final(self).room_names() == if old(self).room_names().contains(name@) {
                        old(self).room_names()
                    } else {
                        old(self).room_names().push(name@)
                    }
                    &&& outgoing_views(r.outgoing@) == seq![
                        (name@, RoomV::ConnectUser(old(self).id)),
                    ]
                    &&& reply_views(r.replies@) =~= Seq::<Json>::empty()
                    &&& r.stop == false
                } else {
                    &&& *final(self) == *old(self)
                    &&& outgoing_views(r.outgoing@) =~= Seq::<(Seq<char>, RoomV)>::empty()
                    &&& reply_views(r.replies@) == seq![spec_unknown_room_frame()]
                    &&& r.stop == false
                },
                protocol::User::DisconnectRoom(name) => if registry.has_room(name@) {
                    &&& final(self).room_names() == seq_drop(old(self).room_names(), name@)
                    &&& outgoing_views(r.outgoing@) == seq![
                        (name@, RoomV::DisconnectUser(old(self).id)),
                    ]
                    &&& reply_views(r.replies@) =~= Seq::<Json>::empty()
                    &&& r.stop == false
                } else {
                    &&& *final(self) == *old(self)
                    &&& outgoing_views(r.outgoing@) =~= Seq::<(Seq<char>, RoomV)>::empty()
                    &&& reply_views(r.replies@) == seq![spec_unknown_room_frame()]
                    &&& r.stop == false
                },
                protocol::User::Close => {
                    &&& *final(self) == *old(self)
                    &&& outgoing_views(r.outgoing@) =~= Seq::<(Seq<char>, RoomV)>::empty()
                    &&& reply_views(r.replies@) =~= Seq::<Json>::empty()
                    &&& r.stop == true
                },
            },
    {
        match cmd {
            protocol::User::Event(event_name, data) => {
                let outgoing: Vec<(String, protocol::Room)> = Vec::new();
                let mut replies: Vec<JsonValue> = Vec::new();
                proof {
                    assert(outgoing_views(outgoing@) =~= Seq::<(Seq<char>, RoomV)>::empty());
                    assert(reply_views(replies@) =~= Seq::<Json>::empty());
                }
                let ghost prev = replies@;
                let frame = protocol::User::Event(event_name, data).into_json();
                replies.push(frame);
                proof {
                    lemma_map_values_push(prev, replies@.last(), |j: JsonValue| j@);
                }
                UserActions { outgoing, replies, stop: false }
            },
            protocol::User::ConnectRoom(name) => self.connect_room(name, registry),
            protocol::User::DisconnectRoom(name) => self.disconnect_room(name, registry),
            protocol::User::Close => {
                let outgoing: Vec<(String, protocol::Room)> = Vec::new();
                let replies: Vec<JsonValue> = Vec::new();
                proof {
                    assert(outgoing_views(outgoing@) =~= Seq::<(Seq<char>, RoomV)>::empty());
                    assert(reply_views(replies@) =~= Seq::<Json>::empty());
                }
                UserActions { outgoing, replies, stop: true }
            },
        }
    }

    /// The good-bye round before the actor exits on a transport error:
    /// every subscribed room is asked to drop this user.
    pub fn disconnect_all(&self) -> (r: Vec<(String, protocol::Room)>)
        ensures
            outgoing_views(r@) == room_fanout(
                self.room_names(),
                RoomV::DisconnectUser(self.id),
            ),
    {
        self.send_to_rooms(protocol::Room::DisconnectUser(self.id))
    }
}

} // verus!
