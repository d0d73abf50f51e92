//! Connectivity core of a multiplayer simulation server.
//!
//! The crate covers four cooperating pieces:
//! - `auth`: single-use, time-limited login tokens (issue, validate, sweep);
//! - `packets`: the application-level message variants exchanged with clients;
//! - `gateway`: the per-connection handshake state machine and the queues that
//!   bridge many concurrent connections to a single-threaded simulation tick;
//! - `character`: the entity data those messages speak about.
//!
//! Everything that waits on the network (sockets, HTTP, timers) lives outside
//! this crate; callers hand in decoded frames and the current time and carry
//! out the actions the gateway decides on.

pub mod auth;
pub mod character;
pub mod gateway;
pub mod packets;

use vstd::prelude::*;

verus! {

/// Opaque identifier for an authenticated principal. Equality and ordering
/// are structural.
#[derive(Debug, Clone, Copy, PartialEq, Eq, Structural, Hash, PartialOrd, Ord)]
pub struct UserHandle {
    pub id: usize,
}

} // verus!
