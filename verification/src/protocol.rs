//! The typed user/room command protocol and its JSON codec.
//!
//! `User` commands travel towards a user actor, `Room` commands towards a
//! room actor. An `Emiter` tag rides on every room event so that receivers
//! can apply the sender-exclusion rules when they re-emit.
//!
//! Inbound framing is one JSON object per frame: the `event` field selects
//! the command, `connect`/`disconnect` need a `room` field, `close` stands
//! alone, and every other event name needs a `data` field. Each way a frame
//! can be malformed has its own `Error` variant, and each error renders as
//! a `{"event":"error","message":...}` frame.

use vstd::prelude::*;

use crate::json::{get_field, index_field, lookup, parsed, str_eq, Json, JsonValue};

verus! {

/// Who emitted an event: one of this room's users, or a peer room.
#[derive(Clone, Debug, PartialEq, Eq)]
pub enum Emiter {
    User(u128),
    Room(String),
}

/// The model of an `Emiter`.
pub enum EmiterV {
    User(u128),
    Room(Seq<char>),
}

impl View for Emiter {
    type V = EmiterV;

    open spec fn view(&self) -> EmiterV {
        match self {
            Emiter::User(id) => EmiterV::User(*id),
            Emiter::Room(name) => EmiterV::Room(name@),
        }
    }
}

impl Emiter {
    /// An own copy of this tag.
    pub fn duplicate(&self) -> (r: Emiter)
        ensures
            r@ == self@,
    {
        match self {
            Emiter::User(id) => Emiter::User(*id),
            Emiter::Room(name) => Emiter::Room(name.clone()),
        }
    }
}

/// A command addressed to a user actor.
#[derive(Debug, PartialEq, Eq)]
pub enum User {
    /// An application event with its payload.
    Event(String, JsonValue),
    /// Subscribe this user to the named room.
    ConnectRoom(String),
    /// Unsubscribe this user from the named room.
    DisconnectRoom(String),
    /// Stop the user actor.
    Close,
}

/// The model of a `User` command.
pub enum UserV {
    Event(Seq<char>, Json),
    ConnectRoom(Seq<char>),
    DisconnectRoom(Seq<char>),
    Close,
}

impl View for User {
    type V = UserV;

    open spec fn view(&self) -> UserV {
        match self {
            User::Event(e, d) => UserV::Event(e@, d@),
            User::ConnectRoom(r) => UserV::ConnectRoom(r@),
            User::DisconnectRoom(r) => UserV::DisconnectRoom(r@),
            User::Close => UserV::Close,
        }
    }
}

/// A command addressed to a room actor.
#[derive(Debug, PartialEq, Eq)]
pub enum Room {
    /// An application event: name, payload, and who emitted it.
    Event(String, JsonValue, Emiter),
    /// Register the user with the given id as connected.
    ConnectUser(u128),
    /// Remove the user with the given id.
    DisconnectUser(u128),
    /// Stop the room actor.
    Close,
}

/// The model of a `Room` command.
pub enum RoomV {
    Event(Seq<char>, Json, EmiterV),
    ConnectUser(u128),
    DisconnectUser(u128),
    Close,
}

impl View for Room {
    type V = RoomV;

    open spec fn view(&self) -> RoomV {
        match self {
            Room::Event(e, d, em) => RoomV::Event(e@, d@, em@),
            Room::ConnectUser(id) => RoomV::ConnectUser(*id),
            Room::DisconnectUser(id) => RoomV::DisconnectUser(*id),
            Room::Close => RoomV::Close,
        }
    }
}

impl Room {
    /// An own copy of this command; fan-out hands one to each target.
    pub fn duplicate(&self) -> (r: Room)
        ensures
            r@ == self@,
    {
        match self {
            Room::Event(e, d, em) => Room::Event(e.clone(), d.duplicate(), em.duplicate()),
            Room::ConnectUser(id) => Room::ConnectUser(*id),
            Room::DisconnectUser(id) => Room::DisconnectUser(*id),
            Room::Close => Room::Close,
        }
    }
}

/// The ways an inbound frame can be malformed.
#[derive(Clone, Copy, Debug, PartialEq, Eq, Structural)]
pub enum Error {
    /// The `event` field is there but is not a string.
    EventIsNotAString,
    /// A field the command needs (`room` or `data`) is missing or malformed.
    NeedMoreArguments,
    /// The frame is not JSON at all.
    NotAJson,
    /// There is no `event` field.
    NoEventIncluded,
}

/// What decoding parsed text must yield: the decoding table applied to the
/// parse result.
pub open spec fn spec_decode(p: Option<Json>) -> Result<UserV, Error> {
    match p {
        None => Err(Error::NotAJson),
        Some(j) => match index_field(j, "event"@) {
            Json::Str(ev) => spec_decode_event(j, ev),
            Json::Null => Err(Error::NoEventIncluded),
            _ => Err(Error::EventIsNotAString),
        },
    }
}

/// The decoding table for a frame whose `event` field is the string `ev`.
pub open spec fn spec_decode_event(j: Json, ev: Seq<char>) -> Result<UserV, Error> {
    if ev == "connect"@ || ev == "disconnect"@ {
        match index_field(j, "room"@) {
            Json::Str(room) => Ok(
                if ev == "connect"@ {
                    UserV::ConnectRoom(room)
                } else {
                    UserV::DisconnectRoom(room)
                },
            ),
            _ => Err(Error::NeedMoreArguments),
        }
    } else if ev == "close"@ {
        Ok(UserV::Close)
    } else {
        match get_field(j, "data"@) {
            Some(d) => Ok(UserV::Event(ev, d)),
            None => Err(Error::NeedMoreArguments),
        }
    }
}

impl User {
    /// An own copy of this command.
    pub fn duplicate(&self) -> (r: User)
        ensures
            r@ == self@,
    {
        match self {
            User::Event(e, d) => User::Event(e.clone(), d.duplicate()),
            User::ConnectRoom(name) => User::ConnectRoom(name.clone()),
            User::DisconnectRoom(name) => User::DisconnectRoom(name.clone()),
            User::Close => User::Close,
        }
    }

    /// Decodes one inbound text frame into a command.
    pub fn try_from(value: String) -> (r: Result<User, Error>)
        ensures
            match r {
                Ok(cmd) => spec_decode(parsed(value@)) == Ok::<UserV, Error>(cmd@),
                Err(e) => spec_decode(parsed(value@)) == Err::<UserV, Error>(e),
            },
    {
        match JsonValue::parse(value.as_str()) {
            Some(json) => User::classify(&json),
            None => Err(Error::NotAJson),
        }
    }

    /// Applies the decoding table to an already parsed frame.
    pub fn classify(json: &JsonValue) -> (r: Result<User, Error>)
        ensures
            match r {
                Ok(cmd) => spec_decode(Some(json@)) == Ok::<UserV, Error>(cmd@),
                Err(e) => spec_decode(Some(json@)) == Err::<UserV, Error>(e),
            },
    {
        match json.get("event") {
            Some(ev_value) => match ev_value {
                JsonValue::Str(ev) => {
                    if str_eq(ev.as_str(), "connect") || str_eq(ev.as_str(), "disconnect") {
                        match json.get("room") {
                            Some(room_value) => match room_value {
                                JsonValue::Str(room) => {
                                    if str_eq(ev.as_str(), "connect") {
                                        Ok(User::ConnectRoom(room.clone()))
                                    } else {
                                        Ok(User::DisconnectRoom(room.clone()))
                                    }
                                },
                                _ => Err(Error::NeedMoreArguments),
                            },
                            None => Err(Error::NeedMoreArguments),
                        }
                    } else if str_eq(ev.as_str(), "close") {
                        Ok(User::Close)
                    } else {
                        match json.get("data") {
                            Some(data) => Ok(User::Event(ev.clone(), data.duplicate())),
                            None => Err(Error::NeedMoreArguments),
                        }
                    }
                },
                JsonValue::Null => Err(Error::NoEventIncluded),
                _ => Err(Error::EventIsNotAString),
            },
            None => Err(Error::NoEventIncluded),
        }
    }

    /// What a command sent to a client renders as: events carry their name
    /// and payload, `close` announces itself, and the subscription commands
    /// are never sent to clients.
    pub open spec fn spec_encode(cmd: UserV) -> Json {
        match cmd {
            UserV::Event(e, d) => Json::Obj(
                seq![("event"@, Json::Str(e)), ("data"@, d)],
            ),
            UserV::Close => Json::Obj(seq![("event"@, Json::Str("close"@))]),
            UserV::ConnectRoom(_) => Json::Null,
            UserV::DisconnectRoom(_) => Json::Null,
        }
    }

    /// Encodes this command as the JSON object sent to a client.
    pub fn into_json(self) -> (r: JsonValue)
        ensures
            r@ == User::spec_encode(self@),
    {
        match self {
            User::Event(event_name, data) => {
                let mut fields: Vec<(String, JsonValue)> = Vec::new();
                fields.push(("event".to_owned(), JsonValue::Str(event_name)));
                fields.push(("data".to_owned(), data));
                let r = JsonValue::Obj(fields);
                proof {
                    assert(r@ is Obj);
                    assert(fields@.len() == 2);
                    assert(fields@[0].1@ == Json::Str(event_name@));
                    assert(r@->Obj_0[0] == ("event"@, Json::Str(event_name@)));
                    assert(r@->Obj_0[1] == ("data"@, data@));
                    assert(r@->Obj_0 =~= seq![
                        ("event"@, Json::Str(event_name@)),
                        ("data"@, data@),
                    ]);
                    assert(r@ =~= User::spec_encode(self@));
                }
                r
            },
            User::Close => {
                let mut fields: Vec<(String, JsonValue)> = Vec::new();
                fields.push(("event".to_owned(), JsonValue::Str("close".to_owned())));
                let r = JsonValue::Obj(fields);
                proof {
                    assert(r@ is Obj);
                    assert(fields@.len() == 1);
                    assert(fields@[0].0@ == "event"@);
                    assert(fields@[0].1@ == Json::Str("close"@));
                    assert(r@->Obj_0.len() == 1);
                    assert(r@->Obj_0[0] == ("event"@, Json::Str("close"@)));
                    assert(r@->Obj_0 =~= seq![("event"@, Json::Str("close"@))]);
                    assert(r@ =~= User::spec_encode(self@));
                }
                r
            },
            _ => JsonValue::Null,
        }
    }
}

impl Error {
    /// The user-facing description of this error.
    pub open spec fn spec_message(self) -> Seq<char> {
        match self {
            Error::NeedMoreArguments => "This command needs more argument to work"@,
            Error::EventIsNotAString => "The event property has to be a string"@,
            Error::NoEventIncluded => "The data doesn't include a event property"@,
            Error::NotAJson => "The data sended is not in a json format"@,
        }
    }

    /// The description as a `String`.
    pub fn message(&self) -> (r: String)
        ensures
            r@ == self.spec_message(),
    {
        match self {
            Error::NeedMoreArguments => "This command needs more argument to work".to_owned(),
            Error::EventIsNotAString => "The event property has to be a string".to_owned(),
            Error::NoEventIncluded => "The data doesn't include a event property".to_owned(),
            Error::NotAJson => "The data sended is not in a json format".to_owned(),
        }
    }

    /// The error frame reported to the client for this error.
    pub open spec fn spec_frame(self) -> Json {
        spec_error_frame(self.spec_message())
    }

    /// Encodes this error as the `{"event":"error","message":...}` frame.
    pub fn into_json(self) -> (r: JsonValue)
        ensures
            r@ == self.spec_frame(),
    {
        let msg = self.message();
        error_frame(msg.as_str())
    }
}

/// The `{"event":"error","message":...}` object carrying this message.
pub open spec fn spec_error_frame(msg: Seq<char>) -> Json {
    Json::Obj(seq![("event"@, Json::Str("error"@)), ("message"@, Json::Str(msg))])
}

/// Builds the error frame reported to a client, with the given message.
pub fn error_frame(message: &str) -> (r: JsonValue)
    ensures
        r@ == spec_error_frame(message@),
{
    let mut fields: Vec<(String, JsonValue)> = Vec::new();
    fields.push(("event".to_owned(), JsonValue::Str("error".to_owned())));
    fields.push(("message".to_owned(), JsonValue::Str(message.to_owned())));
    let r = JsonValue::Obj(fields);
    proof {
        assert(r@ is Obj);
        assert(fields@.len() == 2);
        assert(fields@[0].1@ == Json::Str("error"@));
        assert(fields@[1].1@ == Json::Str(message@));
        assert(r@->Obj_0[0] == ("event"@, Json::Str("error"@)));
        assert(r@->Obj_0[1] == ("message"@, Json::Str(message@)));
        assert(r@->Obj_0 =~= seq![
            ("event"@, Json::Str("error"@)),
            ("message"@, Json::Str(message@)),
        ]);
        assert(r@ =~= spec_error_frame(message@));
    }
    r
}


/// Law: a well-formed application event survives the codec round trip.
/// Encoding `Event(e, d)` and decoding the result yields `Event(e, d)`
/// again, for every event name that is not one of the reserved command
/// words `connect`, `disconnect` and `close` (those names select the
/// subscription commands on the way in, so an event under them cannot
/// come back unchanged).
pub proof fn lemma_codec_round_trip(e: Seq<char>, d: Json)
    requires
        e != "connect"@,
        e != "disconnect"@,
        e != "close"@,
    ensures
        spec_decode(Some(User::spec_encode(UserV::Event(e, d)))) == Ok::<UserV, Error>(
            UserV::Event(e, d),
        ),
{
    let j = User::spec_encode(UserV::Event(e, d));
    let fields = seq![("event"@, Json::Str(e)), ("data"@, d)];
    assert(j == Json::Obj(fields));
    assert(lookup(fields, "event"@) == Some(Json::Str(e)));
    reveal_strlit("event");
    reveal_strlit("data");
    assert("event"@.len() == 5);
    assert("data"@.len() == 4);
    assert(fields.drop_first() =~= seq![("data"@, d)]);
    assert(lookup(seq![("data"@, d)], "data"@) == Some(d));
    assert(lookup(fields, "data"@) == Some(d));
}

/// Law: the close command survives the codec round trip: encoding
/// `Close` and decoding the result yields `Close` again.
pub proof fn lemma_close_round_trip()
    ensures
        spec_decode(Some(User::spec_encode(UserV::Close))) == Ok::<UserV, Error>(UserV::Close),
{
    let j = User::spec_encode(UserV::Close);
    let fields = seq![("event"@, Json::Str("close"@))];
    assert(j == Json::Obj(fields));
    assert(lookup(fields, "event"@) == Some(Json::Str("close"@)));
    reveal_strlit("close");
    reveal_strlit("connect");
    reveal_strlit("disconnect");
    assert("close"@.len() == 5);
    assert("connect"@.len() == 7);
    assert("disconnect"@.len() == 10);
    assert("close"@ != "connect"@ && "close"@ != "disconnect"@);
}

} // verus!
