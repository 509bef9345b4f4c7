//! Authoritative-server / thin-client replication core for a tile-grid
//! multiplayer game.
//!
//! A server owns all game state; each client sees a bounded, moving window
//! ("scope") of that state, kept consistent through typed delta messages.
//! The crate covers the grid model, per-client interest management,
//! the replication event shapes and channel table, client-side entity-id
//! virtualization, the path planner and the tick-stamped command scheduler.

use vstd::prelude::*;

pub mod tile;
pub mod scope;
pub mod components;
pub mod channels;
pub mod mapper;
pub mod client_state;
pub mod planner;
pub mod scheduler;
pub mod world;
pub mod rng;
pub mod interest;
pub mod server;
pub mod traversal;

verus! {

/// Protocol identifier shared by both ends of a connection.
pub const PROTOCOL_ID: u64 = 7;

} // verus!
