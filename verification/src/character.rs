//! Entity data carried by the simulation and mirrored to clients.

use vstd::prelude::*;

verus! {

/// A visible character in the world.
#[derive(Debug)]
pub struct Character {
    pub avatar: String,
}

/// Marks an entity as driven by a connected player.
#[derive(Debug, Clone, Copy, PartialEq, Eq, Structural)]
pub struct PlayerControlled {
    pub player_id: usize,
}

/// Coarse world position, in whole tiles.
#[derive(Debug, Clone, Copy, PartialEq, Eq, Structural, Hash, PartialOrd, Ord)]
pub struct Position {
    pub x: u64,
    pub y: u64,
    pub z: u16,
}

/// A position refined by a fractional offset within the current tile,
/// expressed in 256ths along each axis.
#[derive(Debug, Clone, Copy, PartialEq, Eq, Structural)]
pub struct PrecisePosition {
    pub position: Position,
    pub precise_x: u8,
    pub precise_y: u8,
    pub precise_z: u8,
}

impl PrecisePosition {
    /// One movement tick along the x axis: the fine offset advances by one
    /// 256th, carrying into the coarse coordinate when it wraps around.
    pub fn step_x(&mut self)
        requires
            old(self).precise_x == 255 ==> old(self).position.x < u64::MAX,
        ensures
            final(self).precise_x == (old(self).precise_x + 1) % 256,
            old(self).precise_x == 255 ==> final(self).position.x == old(self).position.x + 1,
            old(self).precise_x < 255 ==> final(self).position == old(self).position,
            final(self).position.y == old(self).position.y,
            final(self).position.z == old(self).position.z,
            final(self).precise_y == old(self).precise_y,
            final(self).precise_z == old(self).precise_z,
    {
        if self.precise_x == 255 {
            self.precise_x = 0;
            self.position.x = self.position.x + 1;
        } else {
            self.precise_x = self.precise_x + 1;
        }
    }
}

} // verus!
