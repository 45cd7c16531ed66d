//! Core of a room-based chat relay: a bounded per-room message history,
//! an explicit room-membership index, and the per-event routing logic that
//! ties them together. Transport, serialization and the network listener
//! live outside this crate and hand the router plain values.

pub mod laws;
pub mod membership;
pub mod message;
pub mod router;
pub mod store;
