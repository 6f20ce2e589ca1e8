//! The room actor's state and dispatch rules.
//!
//! A room owns a name, a handler table (here: the handler names; the
//! handler bodies live with the caller), the ids of its connected users
//! and the names of its peer rooms. The caller owns one channel sender per
//! user id and peer name; a `Delivery` tells it which sender to use and
//! what to put on it.
//!
//! The emission primitives (`broadcast`, `emit`, `whisper` and their
//! user-only / room-only projections) compute exactly which targets
//! receive which command; the sender-exclusion laws are proved at the end
//! of the module.

use vstd::prelude::*;

use crate::json::{Json, JsonValue};
use crate::protocol::{self, Emiter, EmiterV, RoomV, UserV};
use crate::roster::{
    contains_id, contains_name, lemma_contains_push, lemma_contains_split,
    lemma_map_values_push, lemma_push_unique, lemma_seq_drop_contains, lemma_seq_drop_unique,
    name_views, remove_id, seq_drop, unique_seq,
};

verus! {

broadcast use vstd::std_specs::vec::group_vec_axioms;

/// One message to put on a channel: a user command for a connected user,
/// or a room command for a peer room.
#[derive(Debug, PartialEq, Eq)]
pub enum Delivery {
    ToUser(u128, protocol::User),
    ToRoom(String, protocol::Room),
}

/// The model of a `Delivery`.
pub enum DeliveryV {
    ToUser(u128, UserV),
    ToRoom(Seq<char>, RoomV),
}

impl View for Delivery {
    type V = DeliveryV;

    open spec fn view(&self) -> DeliveryV {
        match self {
            Delivery::ToUser(id, cmd) => DeliveryV::ToUser(*id, cmd@),
            Delivery::ToRoom(name, cmd) => DeliveryV::ToRoom(name@, cmd@),
        }
    }
}

/// The models of a list of deliveries, in order.
pub open spec fn delivery_views(s: Seq<Delivery>) -> Seq<DeliveryV> {
    s.map_values(|d: Delivery| d@)
}

/// What the actor loop must do with one consumed room command.
#[derive(Debug, PartialEq, Eq)]
pub enum RoomStep {
    /// Spawn the handler of the named event with this payload and emitter.
    Dispatch(String, JsonValue, Emiter),
    /// Keep consuming.
    Continue,
    /// The room is closed; stop consuming.
    Stop,
}

/// A room: its address, its handler names, and its routing rosters.
///
/// The caller keeps the channel senders themselves, keyed by the entries
/// of `users` and `peers`; these rosters decide who is routed to.
pub struct Room {
    /// The room's unique address.
    pub name: String,
    /// Declared but never enforced.
    pub password: Option<String>,
    /// The names of the events this room has a handler for.
    pub events: Vec<String>,
    /// The ids of the connected users, in subscription order.
    pub users: Vec<u128>,
    /// The names of the peer rooms, in wiring order.
    pub peers: Vec<String>,
}

impl Room {
    /// The routing rosters hold no duplicates, and no room is its own
    /// peer.
    pub open spec fn wf(&self) -> bool {
        &&& unique_seq(name_views(self.events@))
        &&& unique_seq(self.users@)
        &&& unique_seq(name_views(self.peers@))
        &&& !name_views(self.peers@).contains(self.name@)
    }

    /// The names of the peer rooms.
    pub open spec fn peer_names(&self) -> Seq<Seq<char>> {
        name_views(self.peers@)
    }

    /// Does this room handle the named event?
    pub open spec fn has_event(&self, event: Seq<char>) -> bool {
        name_views(self.events@).contains(event)
    }

    /// Checks the well-formedness condition at run time, for callers
    /// outside the proof: true exactly when `wf` holds.
    pub fn check_invariants(&self) -> (r: bool)
        ensures
            r == self.wf(),
    {
        crate::roster::names_unique(&self.events) && crate::roster::ids_unique(&self.users)
            && crate::roster::names_unique(&self.peers)
            && !contains_name(&self.peers, self.name.as_str())
    }

    /// A fresh room with no handlers, users or peers.
    pub fn new(name: String, password: Option<String>) -> (r: Room)
        ensures
            r.wf(),
            r.name == name,
            r.password == password,
            r.events@.len() == 0,
            r.users@.len() == 0,
            r.peers@.len() == 0,
    {
        let r = Room {
            name,
            password,
            events: Vec::new(),
            users: Vec::new(),
            peers: Vec::new(),
        };
        proof {
            assert(name_views(r.events@) =~= Seq::<Seq<char>>::empty());
            assert(name_views(r.peers@) =~= Seq::<Seq<char>>::empty());
            if name_views(r.peers@).contains(r.name@) {
                let k = choose|k: int|
                    0 <= k < name_views(r.peers@).len() && name_views(r.peers@)[k] == r.name@;
            }
        }
        r
    }

    /// Declares a handler for the named event. Declaring it again leaves
    /// the table as it is: the caller keeps the newest handler body.
    pub fn insert_event(&mut self, event_name: String)
        requires
            old(self).wf(),
        ensures
            final(self).wf(),
            final(self).name == old(self).name,
            final(self).password == old(self).password,
            final(self).users == old(self).users,
            final(self).peers == old(self).peers,
            name_views(final(self).events@) == if old(self).has_event(event_name@) {
                name_views(old(self).events@)
            } else {
                name_views(old(self).events@).push(event_name@)
            },
    {
        if !contains_name(&self.events, event_name.as_str()) {
            let ghost prev = self.events@;
            self.events.push(event_name);
            proof {
                lemma_map_values_push(prev, self.events@.last(), |s: String| s@);
                lemma_push_unique(name_views(prev), self.events@.last()@);
            }
        }
    }

    /// Wires a peer room in, by name. Wiring a room to itself, or a peer
    /// that is already wired, changes nothing.
    pub fn connect_room(&mut self, peer: String)
        requires
            old(self).wf(),
        ensures
            final(self).wf(),
            final(self).name == old(self).name,
            final(self).password == old(self).password,
            final(self).events == old(self).events,
            final(self).users == old(self).users,
            name_views(final(self).peers@) == if peer@ == old(self).name@
                || old(self).peer_names().contains(peer@) {
                name_views(old(self).peers@)
            } else {
                name_views(old(self).peers@).push(peer@)
            },
    {
        let is_self = crate::json::str_eq(peer.as_str(), self.name.as_str());
        if !is_self && !contains_name(&self.peers, peer.as_str()) {
            let ghost prev = self.peers@;
            let ghost peer_view = peer@;
            self.peers.push(peer);
            proof {
                lemma_map_values_push(prev, self.peers@.last(), |s: String| s@);
                lemma_push_unique(name_views(prev), peer_view);
                lemma_contains_push(name_views(prev), peer_view, self.name@);
            }
        }
    }

    /// Registers a user as connected. Re-registering an already connected
    /// user changes nothing here: the caller keeps the newest sender.
    pub fn connect_user(&mut self, id: u128)
        requires
            old(self).wf(),
        ensures
            final(self).wf(),
            final(self).name == old(self).name,
            final(self).password == old(self).password,
            final(self).events == old(self).events,
            final(self).peers == old(self).peers,
            final(self).users@ == if old(self).users@.contains(id) {
                old(self).users@
            } else {
                old(self).users@.push(id)
            },
    {
        if !contains_id(&self.users, id) {
            let ghost prev = self.users@;
            self.users.push(id);
            proof {
                lemma_push_unique(prev, id);
            }
        }
    }

    /// Removes a user from the routing roster: from now on nothing is
    /// routed to it.
    pub fn disconnect_user(&mut self, id: u128)
        requires
            old(self).wf(),
        ensures
            final(self).wf(),
            final(self).name == old(self).name,
            final(self).password == old(self).password,
            final(self).events == old(self).events,
            final(self).peers == old(self).peers,
            final(self).users@ == seq_drop(old(self).users@, id),
    {
        proof {
            lemma_seq_drop_unique(self.users@, id);
        }
        remove_id(&mut self.users, id);
    }

    /// Consumes one room command: membership changes are applied here,
    /// events become a dispatch order for the caller (dropped silently
    /// when no handler is declared), and `Close` stops the loop.
    pub fn handle_command(&mut self, cmd: protocol::Room) -> (r: RoomStep)
        requires
            old(self).wf(),
        ensures
            final(self).wf(),
            final(self).name == old(self).name,
            final(self).password == old(self).password,
            final(self).events == old(self).events,
            final(self).peers == old(self).peers,
            match cmd {
                protocol::Room::Event(e, p, em) => {
                    &&& final(self).users == old(self).users
                    &&& if old(self).has_event(e@) {
                        r matches RoomStep::Dispatch(e2, p2, em2) && e2@ == e@ && p2@ == p@
                            && em2@ == em@
                    } else {
                        r is Continue
                    }
                },
                protocol::Room::ConnectUser(id) => {
                    &&& r is Continue
                    &&& final(self).users@ == if old(self).users@.contains(id) {
                        old(self).users@
                    } else {
                        old(self).users@.push(id)
                    }
                },
                protocol::Room::DisconnectUser(id) => {
                    &&& r is Continue
                    &&& final(self).users@ == seq_drop(old(self).users@, id)
                },
                protocol::Room::Close => {
                    &&& r is Stop
                    &&& final(self).users == old(self).users
                },
            },
    {
        match cmd {
            protocol::Room::Event(event_name, payload, emiter) => {
                if contains_name(&self.events, event_name.as_str()) {
                    RoomStep::Dispatch(event_name, payload, emiter)
                } else {
                    RoomStep::Continue
                }
            },
            protocol::Room::ConnectUser(id) => {
                self.connect_user(id);
                RoomStep::Continue
            },
            protocol::Room::DisconnectUser(id) => {
                self.disconnect_user(id);
                RoomStep::Continue
            },
            protocol::Room::Close => RoomStep::Stop,
        }
    }
}


/// The user-command deliveries of one event emission: one per user id, in
/// roster order, skipping the excluded id.
pub open spec fn user_event_deliveries(
    users: Seq<u128>,
    excluded: Option<u128>,
    e: Seq<char>,
    d: Json,
) -> Seq<DeliveryV>
    decreases users.len(),
{
    if users.len() == 0 {
        Seq::empty()
    } else {
        let init = user_event_deliveries(users.drop_last(), excluded, e, d);
        if excluded == Some(users.last()) {
            init
        } else {
            init.push(DeliveryV::ToUser(users.last(), UserV::Event(e, d)))
        }
    }
}

/// The room-command deliveries of one event emission: one per peer name,
/// in roster order, skipping the excluded name. Every forwarded event is
/// tagged as coming from the room named `from`.
pub open spec fn room_event_deliveries(
    peers: Seq<Seq<char>>,
    excluded: Option<Seq<char>>,
    e: Seq<char>,
    d: Json,
    from: Seq<char>,
) -> Seq<DeliveryV>
    decreases peers.len(),
{
    if peers.len() == 0 {
        Seq::empty()
    } else {
        let init = room_event_deliveries(peers.drop_last(), excluded, e, d, from);
        if excluded == Some(peers.last()) {
            init
        } else {
            init.push(
                DeliveryV::ToRoom(peers.last(), RoomV::Event(e, d, EmiterV::Room(from))),
            )
        }
    }
}

/// The user id an emitter shuts out on its user-facing side.
pub open spec fn excluded_user(emiter: EmiterV) -> Option<u128> {
    match emiter {
        EmiterV::User(id) => Some(id),
        EmiterV::Room(_) => None,
    }
}

/// The peer name an emitter shuts out on its room-facing side.
pub open spec fn excluded_room(emiter: EmiterV) -> Option<Seq<char>> {
    match emiter {
        EmiterV::User(_) => None,
        EmiterV::Room(name) => Some(name),
    }
}

/// The name a caller-side exclusion argument stands for.
pub open spec fn name_of(excluded: Option<&String>) -> Option<Seq<char>> {
    match excluded {
        Some(s) => Some(s@),
        None => None,
    }
}

impl Room {
    /// What `emit` sends: every user but the emitting one, and every peer
    /// but the emitting one.
    pub open spec fn emit_deliveries(&self, emiter: EmiterV, e: Seq<char>, d: Json)
        -> Seq<DeliveryV> {
        user_event_deliveries(self.users@, excluded_user(emiter), e, d)
            + room_event_deliveries(self.peer_names(), excluded_room(emiter), e, d, self.name@)
    }

    /// What `broadcast` sends: every user and every peer.
    pub open spec fn broadcast_deliveries(&self, e: Seq<char>, d: Json) -> Seq<DeliveryV> {
        user_event_deliveries(self.users@, None, e, d)
            + room_event_deliveries(self.peer_names(), None, e, d, self.name@)
    }

    /// What `whisper` sends: the event back to the emitter alone, or
    /// nothing when the emitter is no longer registered.
    pub open spec fn whisper_deliveries(&self, emiter: EmiterV, e: Seq<char>, d: Json)
        -> Seq<DeliveryV> {
        match emiter {
            EmiterV::User(id) => if self.users@.contains(id) {
                seq![DeliveryV::ToUser(id, UserV::Event(e, d))]
            } else {
                Seq::empty()
            },
            EmiterV::Room(name) => if self.peer_names().contains(name) {
                seq![DeliveryV::ToRoom(name, RoomV::Event(e, d, EmiterV::Room(self.name@)))]
            } else {
                Seq::empty()
            },
        }
    }

    /// The deliveries to users, skipping the excluded id.
    #[verifier::loop_isolation(false)]
    fn plan_user_events(&self, excluded: Option<u128>, event: &str, payload: &JsonValue)
        -> (r: Vec<Delivery>)
        ensures
            delivery_views(r@) == user_event_deliveries(self.users@, excluded, event@, payload@),
    {
        let n = self.users.len();
        let mut out: Vec<Delivery> = Vec::new();
        let mut i: usize = 0;
        proof {
            assert(self.users@.take(0) =~= Seq::<u128>::empty());
            assert(delivery_views(out@) =~= Seq::<DeliveryV>::empty());
        }
        while i < n
            invariant
                i <= n,
                delivery_views(out@) == user_event_deliveries(
                    self.users@.take(i as int),
                    excluded,
                    event@,
                    payload@,
                ),
            decreases n - i,
        {
            proof {
                assert(self.users@.take(i + 1).drop_last() =~= self.users@.take(i as int));
            }
            let id = self.users[i];
            let skip = match excluded {
                Some(x) => x == id,
                None => false,
            };
            if !skip {
                let ghost prev = out@;
                out.push(
                    Delivery::ToUser(id, protocol::User::Event(event.to_owned(), payload.duplicate())),
                );
                proof {
                    lemma_map_values_push(prev, out@.last(), |d: Delivery| d@);
                }
            }
            i = i + 1;
        }
        proof {
            assert(self.users@.take(n as int) =~= self.users@);
        }
        out
    }

    /// The deliveries to peer rooms, skipping the excluded name; each one
    /// carries this room's name as emitter.
    #[verifier::loop_isolation(false)]
    fn plan_room_events(&self, excluded: Option<&String>, event: &str, payload: &JsonValue)
        -> (r: Vec<Delivery>)
        ensures
            delivery_views(r@) == room_event_deliveries(
                self.peer_names(),
                name_of(excluded),
                event@,
                payload@,
                self.name@,
            ),
    {
        let n = self.peers.len();
        let mut out: Vec<Delivery> = Vec::new();
        let mut i: usize = 0;
        proof {
            assert(self.peer_names().take(0) =~= Seq::<Seq<char>>::empty());
            assert(delivery_views(out@) =~= Seq::<DeliveryV>::empty());
        }
        while i < n
            invariant
                i <= n,
                delivery_views(out@) == room_event_deliveries(
                    self.peer_names().take(i as int),
                    name_of(excluded),
                    event@,
                    payload@,
                    self.name@,
                ),
            decreases n - i,
        {
            proof {
                assert(self.peer_names().take(i + 1).drop_last() =~= self.peer_names().take(
                    i as int,
                ));
                assert(self.peer_names()[i as int] == self.peers@[i as int]@);
            }
            let skip = match excluded {
                Some(x) => crate::json::str_eq(self.peers[i].as_str(), x.as_str()),
                None => false,
            };
            if !skip {
                let ghost prev = out@;
                let peer_name = self.peers[i].clone();
                let command = protocol::Room::Event(
                    event.to_owned(),
                    payload.duplicate(),
                    Emiter::Room(self.name.clone()),
                );
                out.push(Delivery::ToRoom(peer_name, command));
                proof {
                    lemma_map_values_push(prev, out@.last(), |d: Delivery| d@);
                }
            }
            i = i + 1;
        }
        proof {
            assert(self.peer_names().take(n as int) =~= self.peer_names());
        }
        out
    }

    /// Sends the event to the emitter alone: a user-origin event goes back
    /// to that user, a room-origin event back to that peer. A no-op when
    /// the emitter is no longer registered.
    pub fn whisper(&self, emiter: Emiter, event: &str, payload: &JsonValue)
        -> (r: Vec<Delivery>)
        ensures
            delivery_views(r@) == self.whisper_deliveries(emiter@, event@, payload@),
    {
        let mut out: Vec<Delivery> = Vec::new();
        proof {
            assert(delivery_views(out@) =~= Seq::<DeliveryV>::empty());
        }
        match emiter {
            Emiter::User(id) => {
                if contains_id(&self.users, id) {
                    let ghost prev = out@;
                    out.push(
                        Delivery::ToUser(
                            id,
                            protocol::User::Event(event.to_owned(), payload.duplicate()),
                        ),
                    );
                    proof {
                        lemma_map_values_push(prev, out@.last(), |d: Delivery| d@);
                        assert(delivery_views(out@) =~= seq![
                            DeliveryV::ToUser(id, UserV::Event(event@, payload@)),
                        ]);
                    }
                }
            },
            Emiter::Room(name) => {
                if contains_name(&self.peers, name.as_str()) {
                    let ghost prev = out@;
                    let command = protocol::Room::Event(
                        event.to_owned(),
                        payload.duplicate(),
                        Emiter::Room(self.name.clone()),
                    );
                    out.push(Delivery::ToRoom(name, command));
                    proof {
                        lemma_map_values_push(prev, out@.last(), |d: Delivery| d@);
                    }
                }
            },
        }
        out
    }

    /// Sends the event to every connected user except the emitting user;
    /// a room-origin event goes to all users.
    pub fn emit_to_users(&self, emiter: Emiter, event: &str, payload: &JsonValue)
        -> (r: Vec<Delivery>)
        ensures
            delivery_views(r@) == user_event_deliveries(
                self.users@,
                excluded_user(emiter@),
                event@,
                payload@,
            ),
    {
        match emiter {
            Emiter::User(id) => self.plan_user_events(Some(id), event, payload),
            Emiter::Room(_) => self.plan_user_events(None, event, payload),
        }
    }

    /// Sends the event to every connected user.
    pub fn broadcast_to_users(&self, event: &str, payload: &JsonValue) -> (r: Vec<Delivery>)
        ensures
            delivery_views(r@) == user_event_deliveries(self.users@, None, event@, payload@),
    {
        self.plan_user_events(None, event, payload)
    }

    /// Sends the event to every peer room except the emitting room; a
    /// user-origin event goes to all peers.
    pub fn emit_to_rooms(&self, emiter: Emiter, event: &str, payload: &JsonValue)
        -> (r: Vec<Delivery>)
        ensures
            delivery_views(r@) == room_event_deliveries(
                self.peer_names(),
                excluded_room(emiter@),
                event@,
                payload@,
                self.name@,
            ),
    {
        match emiter {
            Emiter::User(_) => self.plan_room_events(None, event, payload),
            Emiter::Room(name) => self.plan_room_events(Some(&name), event, payload),
        }
    }

    /// Sends the event to every peer room.
    pub fn broadcast_to_rooms(&self, event: &str, payload: &JsonValue) -> (r: Vec<Delivery>)
        ensures
            delivery_views(r@) == room_event_deliveries(
                self.peer_names(),
                None,
                event@,
                payload@,
                self.name@,
            ),
    {
        self.plan_room_events(None, event, payload)
    }

    /// Sends the event to every user and every peer except the emitter
    /// itself. Peer forwards carry this room's name as emitter.
    pub fn emit(&self, emiter: Emiter, event: &str, payload: &JsonValue) -> (r: Vec<Delivery>)
        ensures
            delivery_views(r@) == self.emit_deliveries(emiter@, event@, payload@),
    {
        let ghost emiter_view = emiter@;
        let mut out = match &emiter {
            Emiter::User(id) => self.plan_user_events(Some(*id), event, payload),
            Emiter::Room(_) => self.plan_user_events(None, event, payload),
        };
        let mut rooms_part = match emiter {
            Emiter::User(_) => self.plan_room_events(None, event, payload),
            Emiter::Room(name) => self.plan_room_events(Some(&name), event, payload),
        };
        let ghost users_view = delivery_views(out@);
        let ghost rooms_view = delivery_views(rooms_part@);
        out.append(&mut rooms_part);
        proof {
            assert(delivery_views(out@) =~= users_view + rooms_view);
        }
        out
    }

    /// Sends the event to every user and every peer, whoever emitted it.
    pub fn broadcast(&self, event: &str, payload: &JsonValue) -> (r: Vec<Delivery>)
        ensures
            delivery_views(r@) == self.broadcast_deliveries(event@, payload@),
    {
        let mut out = self.plan_user_events(None, event, payload);
        let mut rooms_part = self.plan_room_events(None, event, payload);
        let ghost users_view = delivery_views(out@);
        let ghost rooms_view = delivery_views(rooms_part@);
        out.append(&mut rooms_part);
        proof {
            assert(delivery_views(out@) =~= users_view + rooms_view);
        }
        out
    }
}


/// How many deliveries in `ds` address the user with this id.
pub open spec fn count_to_user(ds: Seq<DeliveryV>, id: u128) -> nat
    decreases ds.len(),
{
    if ds.len() == 0 {
        0
    } else {
        count_to_user(ds.drop_last(), id) + if ds.last() matches DeliveryV::ToUser(i, _)
            && i == id {
            1nat
        } else {
            0nat
        }
    }
}

/// How many deliveries in `ds` address the room with this name.
pub open spec fn count_to_room(ds: Seq<DeliveryV>, name: Seq<char>) -> nat
    decreases ds.len(),
{
    if ds.len() == 0 {
        0
    } else {
        count_to_room(ds.drop_last(), name) + if ds.last() matches DeliveryV::ToRoom(n, _)
            && n == name {
            1nat
        } else {
            0nat
        }
    }
}

proof fn lemma_count_user_concat(a: Seq<DeliveryV>, b: Seq<DeliveryV>, id: u128)
    ensures
        count_to_user(a + b, id) == count_to_user(a, id) + count_to_user(b, id),
    decreases b.len(),
{
    if b.len() == 0 {
        assert(a + b =~= a);
    } else {
        assert((a + b).drop_last() =~= a + b.drop_last());
        lemma_count_user_concat(a, b.drop_last(), id);
        assert((a + b).last() == b.last());
    }
}

proof fn lemma_count_room_concat(a: Seq<DeliveryV>, b: Seq<DeliveryV>, name: Seq<char>)
    ensures
        count_to_room(a + b, name) == count_to_room(a, name) + count_to_room(b, name),
    decreases b.len(),
{
    if b.len() == 0 {
        assert(a + b =~= a);
    } else {
        assert((a + b).drop_last() =~= a + b.drop_last());
        lemma_count_room_concat(a, b.drop_last(), name);
        assert((a + b).last() == b.last());
    }
}

proof fn lemma_user_part_counts(
    users: Seq<u128>,
    excl: Option<u128>,
    e: Seq<char>,
    d: Json,
    id: u128,
)
    requires
        unique_seq(users),
    ensures
        count_to_user(user_event_deliveries(users, excl, e, d), id) == if users.contains(id)
            && excl != Some(id) {
            1nat
        } else {
            0nat
        },
    decreases users.len(),
{
    if users.len() == 0 {
        assert(!users.contains(id));
    } else {
        let prev = users.drop_last();
        assert(forall|i: int, j: int| 0 <= i < j < prev.len() ==> prev[i] != prev[j]);
        lemma_user_part_counts(prev, excl, e, d, id);
        lemma_contains_split(users, id);
        let init = user_event_deliveries(prev, excl, e, d);
        if excl != Some(users.last()) {
            let ds = init.push(
                DeliveryV::ToUser(users.last(), UserV::Event(e, d)),
            );
            assert(ds.drop_last() =~= init);
            if users.last() == id {
                assert(forall|k: int| 0 <= k < prev.len() ==> prev[k] != users.last());
                assert(!prev.contains(id));
            }
        }
    }
}

proof fn lemma_user_part_no_rooms(
    users: Seq<u128>,
    excl: Option<u128>,
    e: Seq<char>,
    d: Json,
    name: Seq<char>,
)
    ensures
        count_to_room(user_event_deliveries(users, excl, e, d), name) == 0,
    decreases users.len(),
{
    if users.len() > 0 {
        let prev = users.drop_last();
        lemma_user_part_no_rooms(prev, excl, e, d, name);
        let init = user_event_deliveries(prev, excl, e, d);
        if excl != Some(users.last()) {
            let ds = init.push(
                DeliveryV::ToUser(users.last(), UserV::Event(e, d)),
            );
            assert(ds.drop_last() =~= init);
        }
    }
}

proof fn lemma_room_part_counts(
    peers: Seq<Seq<char>>,
    excl: Option<Seq<char>>,
    e: Seq<char>,
    d: Json,
    from: Seq<char>,
    name: Seq<char>,
)
    requires
        unique_seq(peers),
    ensures
        count_to_room(room_event_deliveries(peers, excl, e, d, from), name) == if peers.contains(
            name,
        ) && excl != Some(name) {
            1nat
        } else {
            0nat
        },
    decreases peers.len(),
{
    if peers.len() == 0 {
        assert(!peers.contains(name));
    } else {
        let prev = peers.drop_last();
        assert(forall|i: int, j: int| 0 <= i < j < prev.len() ==> prev[i] != prev[j]);
        lemma_room_part_counts(prev, excl, e, d, from, name);
        lemma_contains_split(peers, name);
        let init = room_event_deliveries(prev, excl, e, d, from);
        if excl != Some(peers.last()) {
            let ds = init.push(
                DeliveryV::ToRoom(peers.last(), RoomV::Event(e, d, EmiterV::Room(from))),
            );
            assert(ds.drop_last() =~= init);
            if peers.last() == name {
                assert(forall|k: int| 0 <= k < prev.len() ==> prev[k] != peers.last());
                assert(!prev.contains(name));
            }
        }
    }
}

proof fn lemma_room_part_no_users(
    peers: Seq<Seq<char>>,
    excl: Option<Seq<char>>,
    e: Seq<char>,
    d: Json,
    from: Seq<char>,
    id: u128,
)
    ensures
        count_to_user(room_event_deliveries(peers, excl, e, d, from), id) == 0,
    decreases peers.len(),
{
    if peers.len() > 0 {
        let prev = peers.drop_last();
        lemma_room_part_no_users(prev, excl, e, d, from, id);
        let init = room_event_deliveries(prev, excl, e, d, from);
        if excl != Some(peers.last()) {
            let ds = init.push(
                DeliveryV::ToRoom(peers.last(), RoomV::Event(e, d, EmiterV::Room(from))),
            );
            assert(ds.drop_last() =~= init);
        }
    }
}

/// Law: a user-origin `emit` delivers to every other user of the room
/// exactly once, and to the emitting user never.
pub proof fn lemma_emit_user_origin_user_counts(
    room: Room,
    u: u128,
    e: Seq<char>,
    d: Json,
    target: u128,
)
    requires
        room.wf(),
    ensures
        count_to_user(room.emit_deliveries(EmiterV::User(u), e, d), target) == if room.users@
            .contains(target) && target != u {
            1nat
        } else {
            0nat
        },
{
    let users_part = user_event_deliveries(room.users@, Some(u), e, d);
    let rooms_part = room_event_deliveries(room.peer_names(), None, e, d, room.name@);
    lemma_count_user_concat(users_part, rooms_part, target);
    lemma_user_part_counts(room.users@, Some(u), e, d, target);
    lemma_room_part_no_users(room.peer_names(), None, e, d, room.name@, target);
}

/// Law: a user-origin `emit` delivers to every peer room exactly once.
pub proof fn lemma_emit_user_origin_room_counts(
    room: Room,
    u: u128,
    e: Seq<char>,
    d: Json,
    peer: Seq<char>,
)
    requires
        room.wf(),
    ensures
        count_to_room(room.emit_deliveries(EmiterV::User(u), e, d), peer) == if room.peer_names()
            .contains(peer) {
            1nat
        } else {
            0nat
        },
{
    let users_part = user_event_deliveries(room.users@, Some(u), e, d);
    let rooms_part = room_event_deliveries(room.peer_names(), None, e, d, room.name@);
    lemma_count_room_concat(users_part, rooms_part, peer);
    lemma_user_part_no_rooms(room.users@, Some(u), e, d, peer);
    lemma_room_part_counts(room.peer_names(), None, e, d, room.name@, peer);
}

/// Law: a room-origin `emit` delivers to every other peer room exactly
/// once, and to the emitting peer never.
pub proof fn lemma_emit_room_origin_room_counts(
    room: Room,
    p: Seq<char>,
    e: Seq<char>,
    d: Json,
    peer: Seq<char>,
)
    requires
        room.wf(),
    ensures
        count_to_room(room.emit_deliveries(EmiterV::Room(p), e, d), peer) == if room.peer_names()
            .contains(peer) && peer != p {
            1nat
        } else {
            0nat
        },
{
    let users_part = user_event_deliveries(room.users@, None, e, d);
    let rooms_part = room_event_deliveries(room.peer_names(), Some(p), e, d, room.name@);
    lemma_count_room_concat(users_part, rooms_part, peer);
    lemma_user_part_no_rooms(room.users@, None, e, d, peer);
    lemma_room_part_counts(room.peer_names(), Some(p), e, d, room.name@, peer);
}

/// Law: a room-origin `emit` still delivers to every user of the room
/// exactly once.
pub proof fn lemma_emit_room_origin_user_counts(
    room: Room,
    p: Seq<char>,
    e: Seq<char>,
    d: Json,
    target: u128,
)
    requires
        room.wf(),
    ensures
        count_to_user(room.emit_deliveries(EmiterV::Room(p), e, d), target) == if room.users@
            .contains(target) {
            1nat
        } else {
            0nat
        },
{
    let users_part = user_event_deliveries(room.users@, None, e, d);
    let rooms_part = room_event_deliveries(room.peer_names(), Some(p), e, d, room.name@);
    lemma_count_user_concat(users_part, rooms_part, target);
    lemma_user_part_counts(room.users@, None, e, d, target);
    lemma_room_part_no_users(room.peer_names(), Some(p), e, d, room.name@, target);
}

/// Law: `broadcast` reaches every user exactly once, whoever emitted.
pub proof fn lemma_broadcast_user_counts(room: Room, e: Seq<char>, d: Json, target: u128)
    requires
        room.wf(),
    ensures
        count_to_user(room.broadcast_deliveries(e, d), target) == if room.users@.contains(
            target,
        ) {
            1nat
        } else {
            0nat
        },
{
    let users_part = user_event_deliveries(room.users@, None, e, d);
    let rooms_part = room_event_deliveries(room.peer_names(), None, e, d, room.name@);
    lemma_count_user_concat(users_part, rooms_part, target);
    lemma_user_part_counts(room.users@, None, e, d, target);
    lemma_room_part_no_users(room.peer_names(), None, e, d, room.name@, target);
}

/// Law: `broadcast` reaches every peer room exactly once.
pub proof fn lemma_broadcast_room_counts(room: Room, e: Seq<char>, d: Json, peer: Seq<char>)
    requires
        room.wf(),
    ensures
        count_to_room(room.broadcast_deliveries(e, d), peer) == if room.peer_names().contains(
            peer,
        ) {
            1nat
        } else {
            0nat
        },
{
    let users_part = user_event_deliveries(room.users@, None, e, d);
    let rooms_part = room_event_deliveries(room.peer_names(), None, e, d, room.name@);
    lemma_count_room_concat(users_part, rooms_part, peer);
    lemma_user_part_no_rooms(room.users@, None, e, d, peer);
    lemma_room_part_counts(room.peer_names(), None, e, d, room.name@, peer);
}

/// Law: a user-origin `whisper` reaches the emitting user exactly once
/// (while it is registered) and nobody else.
pub proof fn lemma_whisper_user_counts(
    room: Room,
    u: u128,
    e: Seq<char>,
    d: Json,
    target: u128,
    peer: Seq<char>,
)
    requires
        room.wf(),
    ensures
        count_to_user(room.whisper_deliveries(EmiterV::User(u), e, d), target) == if target == u
            && room.users@.contains(u) {
            1nat
        } else {
            0nat
        },
        count_to_room(room.whisper_deliveries(EmiterV::User(u), e, d), peer) == 0,
{
    let ds = room.whisper_deliveries(EmiterV::User(u), e, d);
    assert(count_to_user(Seq::<DeliveryV>::empty(), target) == 0);
    assert(count_to_room(Seq::<DeliveryV>::empty(), peer) == 0);
    if room.users@.contains(u) {
        assert(ds.drop_last() =~= Seq::<DeliveryV>::empty());
        assert(ds.last() == DeliveryV::ToUser(u, UserV::Event(e, d)));
    }
}

/// Law: a room-origin `whisper` reaches the emitting peer exactly once
/// (while it is wired) and nobody else.
pub proof fn lemma_whisper_room_counts(
    room: Room,
    p: Seq<char>,
    e: Seq<char>,
    d: Json,
    target: u128,
    peer: Seq<char>,
)
    requires
        room.wf(),
    ensures
        count_to_room(room.whisper_deliveries(EmiterV::Room(p), e, d), peer) == if peer == p
            && room.peer_names().contains(p) {
            1nat
        } else {
            0nat
        },
        count_to_user(room.whisper_deliveries(EmiterV::Room(p), e, d), target) == 0,
{
    let ds = room.whisper_deliveries(EmiterV::Room(p), e, d);
    assert(count_to_user(Seq::<DeliveryV>::empty(), target) == 0);
    assert(count_to_room(Seq::<DeliveryV>::empty(), peer) == 0);
    if room.peer_names().contains(p) {
        assert(ds.drop_last() =~= Seq::<DeliveryV>::empty());
        assert(ds.last() == DeliveryV::ToRoom(p, RoomV::Event(e, d, EmiterV::Room(room.name@))));
    }
}

proof fn lemma_user_part_all_to_users(
    users: Seq<u128>,
    excl: Option<u128>,
    e: Seq<char>,
    d: Json,
)
    ensures
        forall|k: int|
            0 <= k < user_event_deliveries(users, excl, e, d).len()
                ==> (#[trigger] user_event_deliveries(users, excl, e, d)[k]) is ToUser,
    decreases users.len(),
{
    if users.len() > 0 {
        let prev = users.drop_last();
        lemma_user_part_all_to_users(prev, excl, e, d);
        let init = user_event_deliveries(prev, excl, e, d);
        if excl != Some(users.last()) {
            let ds = user_event_deliveries(users, excl, e, d);
            assert(forall|k: int| 0 <= k < ds.len() - 1 ==> ds[k] == init[k]);
        }
    }
}

proof fn lemma_room_part_all_tagged(
    peers: Seq<Seq<char>>,
    excl: Option<Seq<char>>,
    e: Seq<char>,
    d: Json,
    from: Seq<char>,
)
    ensures
        forall|k: int|
            0 <= k < room_event_deliveries(peers, excl, e, d, from).len()
                ==> ((#[trigger] room_event_deliveries(peers, excl, e, d, from)[k]) matches
                    DeliveryV::ToRoom(n, cmd) && cmd == RoomV::Event(e, d, EmiterV::Room(from))),
    decreases peers.len(),
{
    if peers.len() > 0 {
        let prev = peers.drop_last();
        lemma_room_part_all_tagged(prev, excl, e, d, from);
        let init = room_event_deliveries(prev, excl, e, d, from);
        if excl != Some(peers.last()) {
            let ds = room_event_deliveries(peers, excl, e, d, from);
            assert(forall|k: int| 0 <= k < ds.len() - 1 ==> ds[k] == init[k]);
        }
    }
}

/// Law: whatever `emit` forwards to a peer room is the event itself,
/// re-tagged with the forwarding room's own name as emitter, so the peer
/// can apply exclusion in turn.
pub proof fn lemma_peer_forwards_carry_room_tag(
    room: Room,
    emiter: EmiterV,
    e: Seq<char>,
    d: Json,
)
    ensures
        forall|k: int|
            0 <= k < room.emit_deliveries(emiter, e, d).len()
                ==> ((#[trigger] room.emit_deliveries(emiter, e, d)[k]) matches
                    DeliveryV::ToRoom(n, cmd)
                    ==> cmd == RoomV::Event(e, d, EmiterV::Room(room.name@))),
{
    let users_part = user_event_deliveries(room.users@, excluded_user(emiter), e, d);
    let rooms_part = room_event_deliveries(
        room.peer_names(),
        excluded_room(emiter),
        e,
        d,
        room.name@,
    );
    lemma_user_part_all_to_users(room.users@, excluded_user(emiter), e, d);
    lemma_room_part_all_tagged(room.peer_names(), excluded_room(emiter), e, d, room.name@);
    assert(forall|k: int|
        0 <= k < users_part.len() ==> (users_part + rooms_part)[k] == users_part[k]);
    assert(forall|k: int|
        users_part.len() <= k < users_part.len() + rooms_part.len()
            ==> (users_part + rooms_part)[k] == rooms_part[k - users_part.len()]);
}


/// Law: a consumed `ConnectUser` is observed by every later emission:
/// once `after` is `before` with the user registered, the next broadcast
/// reaches that user exactly once.
pub proof fn lemma_connect_is_observed(before: Room, after: Room, id: u128, e: Seq<char>, d: Json)
    requires
        before.wf(),
        after.wf(),
        after.users@ == if before.users@.contains(id) {
            before.users@
        } else {
            before.users@.push(id)
        },
    ensures
        count_to_user(after.broadcast_deliveries(e, d), id) == 1,
{
    if !before.users@.contains(id) {
        lemma_contains_push(before.users@, id, id);
    }
    lemma_broadcast_user_counts(after, e, d, id);
}

/// Law: a consumed `DisconnectUser` is observed by every later emission:
/// once `after` is `before` with the user dropped, no broadcast reaches
/// that user again.
pub proof fn lemma_disconnect_is_observed(
    before: Room,
    after: Room,
    id: u128,
    e: Seq<char>,
    d: Json,
)
    requires
        before.wf(),
        after.wf(),
        after.users@ == seq_drop(before.users@, id),
    ensures
        count_to_user(after.broadcast_deliveries(e, d), id) == 0,
{
    lemma_seq_drop_contains(before.users@, id, id);
    lemma_broadcast_user_counts(after, e, d, id);
}

} // verus!
