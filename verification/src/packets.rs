//! Application-level message variants exchanged with clients.
//!
//! These are the logical shapes only; encoding them onto the wire (one JSON
//! text per frame) is the transport layer's job, outside this crate.

use vstd::prelude::*;

use crate::character::PrecisePosition;

verus! {

/// Commands received by the server from a client.
#[derive(Debug, PartialEq, Eq)]
pub enum ClientToServerPacket {
    /// A greeting carrying an arbitrary payload string.
    Hi(String),
}

/// Notifications sent by the server to clients.
#[derive(Debug, PartialEq, Eq)]
pub enum ServerToClientPacket {
    /// A named counter took a new value.
    CounterChanged { name: String, value: u64 },
    /// An entity, identified by its numeric handle, moved.
    PositionChanged(u64, PrecisePosition),
}

impl Clone for ClientToServerPacket {
    fn clone(&self) -> (res: Self)
        ensures
            res == *self,
    {
        match self {
            ClientToServerPacket::Hi(payload) => ClientToServerPacket::Hi(payload.clone()),
        }
    }
}

impl Clone for ServerToClientPacket {
    fn clone(&self) -> (res: Self)
        ensures
            res == *self,
    {
        match self {
            ServerToClientPacket::CounterChanged { name, value } => {
                ServerToClientPacket::CounterChanged { name: name.clone(), value: *value }
            }
            ServerToClientPacket::PositionChanged(entity, position) => {
                ServerToClientPacket::PositionChanged(*entity, *position)
            }
        }
    }
}

} // verus!
