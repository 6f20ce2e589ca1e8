//! An event-driven, room-based real-time messaging core.
//!
//! Rooms are actors with private state, a table of named event handlers,
//! and channels to connected users and peer rooms. This crate holds the
//! verified heart of the framework: the JSON command codec, the fan-out
//! rules of the emission primitives, and the decision logic of the room
//! and user actors. The surrounding async runtime (sockets, channels,
//! tasks) drives these functions from outside.

pub mod data;
pub mod json;
pub mod protocol;
pub mod registry;
pub mod room;
pub mod roster;
pub mod user;

pub use json::JsonValue;
