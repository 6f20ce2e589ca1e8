//! The process-wide room registry.
//!
//! A single mapping from room name to that room's inbound channel,
//! published once after all rooms are built and wired. Here the registry
//! holds the names; the caller keeps the matching senders and hands this
//! index to every user actor for lookups.

use vstd::prelude::*;

use crate::roster::{
    contains_name, lemma_map_values_push, lemma_push_unique, name_views, unique_seq,
};

verus! {

/// The published index of room names.
pub struct Registry {
    /// The names of the registered rooms, in registration order.
    pub rooms: Vec<String>,
}

impl Registry {
    /// A room name appears at most once.
    pub open spec fn wf(&self) -> bool {
        unique_seq(name_views(self.rooms@))
    }

    /// The registered names, in order.
    pub open spec fn room_names(&self) -> Seq<Seq<char>> {
        name_views(self.rooms@)
    }

    /// Is a room with this name registered?
    pub open spec fn has_room(&self, name: Seq<char>) -> bool {
        self.room_names().contains(name)
    }

    /// Checks the well-formedness condition at run time, for callers
    /// outside the proof: true exactly when `wf` holds.
    pub fn check_invariants(&self) -> (r: bool)
        ensures
            r == self.wf(),
    {
        crate::roster::names_unique(&self.rooms)
    }

    /// An empty registry.
    pub fn new() -> (r: Registry)
        ensures
            r.wf(),
            r.rooms@.len() == 0,
            forall|name: Seq<char>| !(#[trigger] r.has_room(name)),
    {
        let r = Registry { rooms: Vec::new() };
        proof {
            assert(name_views(r.rooms@) =~= Seq::<Seq<char>>::empty());
            assert forall|name: Seq<char>| !(#[trigger] r.has_room(name)) by {
                if r.has_room(name) {
                    let k = choose|k: int|
                        0 <= k < r.room_names().len() && r.room_names()[k] == name;
                }
            }
        }
        r
    }

    /// Registers a room name. Registering a name twice leaves the index
    /// as it is, keeping every name unique.
    pub fn register(&mut self, name: String)
        requires
            old(self).wf(),
        ensures
            final(self).wf(),
            final(self).room_names() == if old(self).has_room(name@) {
                old(self).room_names()
            } else {
                old(self).room_names().push(name@)
            },
    {
        if !contains_name(&self.rooms, name.as_str()) {
            let ghost prev = self.rooms@;
            let ghost name_view = name@;
            self.rooms.push(name);
            proof {
                lemma_map_values_push(prev, self.rooms@.last(), |s: String| s@);
                lemma_push_unique(name_views(prev), name_view);
            }
        }
    }

    /// Looks a room name up.
    pub fn contains_room(&self, name: &str) -> (r: bool)
        ensures
            r == self.has_room(name@),
    {
        contains_name(&self.rooms, name)
    }
}

} // verus!
