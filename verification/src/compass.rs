//! Compass records: the four-direction door record of a room and the
//! eight-direction neighbour-occupancy record used for wall-sprite selection.

use vstd::prelude::*;

verus! {

/// One of the eight compass directions.
#[allow(missing_docs)]
#[derive(Clone, Copy, Debug, PartialEq, Eq, Structural)]
pub enum CompassDir {
    North,
    East,
    South,
    West,
    NorthEast,
    SouthEast,
    SouthWest,
    NorthWest,
}

/// True of the four cardinal directions, the only ones a door can face.
pub open spec fn is_cardinal(d: CompassDir) -> bool {
    d is North || d is East || d is South || d is West
}

/// The direction facing back: the side a neighbouring room sees us from.
pub open spec fn opposite(d: CompassDir) -> CompassDir {
    match d {
        CompassDir::North => CompassDir::South,
        CompassDir::East => CompassDir::West,
        CompassDir::South => CompassDir::North,
        CompassDir::West => CompassDir::East,
        CompassDir::NorthEast => CompassDir::SouthWest,
        CompassDir::SouthEast => CompassDir::NorthWest,
        CompassDir::SouthWest => CompassDir::NorthEast,
        CompassDir::NorthWest => CompassDir::SouthEast,
    }
}

/// The room-grid coordinate one step away in a direction. North is one row
/// up (decreasing y), south one row down, east one column right.
pub open spec fn step_coord(c: (int, int), d: CompassDir) -> (int, int) {
    match d {
        CompassDir::North => (c.0, c.1 - 1),
        CompassDir::East => (c.0 + 1, c.1),
        CompassDir::South => (c.0, c.1 + 1),
        CompassDir::West => (c.0 - 1, c.1),
        CompassDir::NorthEast => (c.0 + 1, c.1 - 1),
        CompassDir::SouthEast => (c.0 + 1, c.1 + 1),
        CompassDir::SouthWest => (c.0 - 1, c.1 + 1),
        CompassDir::NorthWest => (c.0 - 1, c.1 - 1),
    }
}

/// A record with one slot per cardinal direction.
#[allow(missing_docs)]
#[derive(Clone, Copy, Debug, PartialEq, Eq, Structural)]
pub struct QuadCompass<T> {
    pub north: T,
    pub east: T,
    pub south: T,
    pub west: T,
}

/// A record with one slot per compass direction, diagonals included.
#[allow(missing_docs)]
#[derive(Clone, Copy, Debug, PartialEq, Eq, Structural)]
pub struct OctCompass<T> {
    pub north: T,
    pub east: T,
    pub south: T,
    pub west: T,

    pub north_east: T,
    pub south_east: T,
    pub south_west: T,
    pub north_west: T,
}

/// The flag a boolean quad record holds for a direction; a diagonal holds
/// none and reads as `false`.
pub open spec fn quad_flag(q: QuadCompass<bool>, d: CompassDir) -> bool {
    match d {
        CompassDir::North => q.north,
        CompassDir::East => q.east,
        CompassDir::South => q.south,
        CompassDir::West => q.west,
        _ => false,
    }
}

impl QuadCompass<bool> {
    /// The record with every flag cleared.
    pub fn all_false() -> (r: QuadCompass<bool>)
        ensures
            !r.north && !r.east && !r.south && !r.west,
    {
        QuadCompass { north: false, east: false, south: false, west: false }
    }

    /// Widen to the eight-direction record, leaving the diagonals empty.
    pub fn to_oct(self) -> (r: OctCompass<bool>)
        ensures
            r == (OctCompass {
                north: self.north,
                east: self.east,
                south: self.south,
                west: self.west,
                north_east: false,
                south_east: false,
                south_west: false,
                north_west: false,
            }),
    {
        OctCompass {
            north: self.north,
            east: self.east,
            south: self.south,
            west: self.west,
            north_east: false,
            south_east: false,
            south_west: false,
            north_west: false,
        }
    }
}

impl OctCompass<bool> {
    /// Narrow to the four-direction record, dropping the diagonals.
    pub fn to_quad(self) -> (r: QuadCompass<bool>)
        ensures
            r == (QuadCompass {
                north: self.north,
                east: self.east,
                south: self.south,
                west: self.west,
            }),
    {
        QuadCompass { north: self.north, east: self.east, south: self.south, west: self.west }
    }
}

/// Stepping away and back lands on the starting coordinate.
pub proof fn lemma_step_coord_roundtrip(c: (int, int), d: CompassDir)
    ensures
        step_coord(step_coord(c, d), opposite(d)) == c,
{
}

} // verus!
