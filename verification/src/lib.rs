//! A grid-locked dungeon crawler core: room layouts parsed from a small
//! textual asset format, an 8-directional neighbour sampler that drives
//! wall-sprite selection, and a breadth-first, depth-limited dungeon
//! generator that keeps the doors of adjacent rooms consistent.

use vstd::prelude::*;

pub mod atlas;
pub mod compass;
pub mod generator;
pub mod grid_map;
pub mod layout;
pub mod loader;

verus! {

/// Size of each tile, in pixels.
pub const TILE_SIZE: u16 = 8;

/// Width of a room, in tiles.
pub const WIDTH: u16 = 21;

/// Height of a room, in tiles.
pub const HEIGHT: u16 = 13;

/// A movement direction on the tile grid, or no movement at all.
#[allow(missing_docs)]
#[derive(Clone, Copy, Debug, PartialEq, Eq, Structural)]
pub enum Direction {
    /// Zero or no direction.
    Zero,
    Up,
    Left,
    Down,
    Right,
}

impl Direction {
    /// Return `true` if the direction is [`Direction::Zero`].
    pub fn is_zero(self) -> (r: bool)
        ensures
            r == (self is Zero),
    {
        matches!(self, Direction::Zero)
    }
}

} // verus!

