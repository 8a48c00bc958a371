//! Room layouts: a rectangular grid of tiles with a four-way door record,
//! and the eight-neighbour wall sampler that drives wall-sprite selection.

use vstd::prelude::*;

use crate::compass::{CompassDir, OctCompass, QuadCompass};

verus! {

/// The kind of one tile of a room.
#[derive(Clone, Copy, Debug, PartialEq, Eq, Structural)]
pub enum TileType {
    /// Wall tile. Automatically connects to other wall tiles.
    Wall,
    /// Ground tile the player can walk on.
    Ground,
    /// Door tile at an edge midpoint, facing the given direction.
    Door(CompassDir),
}

impl TileType {
    /// Return whether the tile is a [`TileType::Wall`].
    pub fn is_wall(self) -> (r: bool)
        ensures
            r == (self is Wall),
    {
        matches!(self, TileType::Wall)
    }
}

/// Whether a tile needs wall sprites around it: walls do, and so do doors,
/// which sit in the wall border.
pub open spec fn wall_like(t: TileType) -> bool {
    t is Wall || t is Door
}

/// A room layout: a `width` x `height` grid of tiles and the record of which
/// edge midpoints hold a door.
#[derive(Debug, PartialEq, Eq)]
pub struct RoomLayout {
    /// Which edges of the room have a door at their midpoint.
    pub doors: QuadCompass<bool>,
    /// Width of the grid, in tiles.
    pub width: usize,
    /// Height of the grid, in tiles.
    pub height: usize,
    /// The grid of tiles, row by row; `layout[y][x]` is the tile at column
    /// `x` of row `y`.
    pub layout: Vec<Vec<TileType>>,
}

/// The mathematical content of a room layout.
pub struct RoomLayoutModel {
    /// Which edges have a door at their midpoint.
    pub doors: QuadCompass<bool>,
    /// Width of the grid.
    pub width: int,
    /// Height of the grid.
    pub height: int,
    /// The grid, row by row.
    pub grid: Seq<Seq<TileType>>,
}

impl View for RoomLayout {
    type V = RoomLayoutModel;

    open spec fn view(&self) -> RoomLayoutModel {
        RoomLayoutModel {
            doors: self.doors,
            width: self.width as int,
            height: self.height as int,
            grid: self.layout@.map_values(|row: Vec<TileType>| row@),
        }
    }
}

impl RoomLayoutModel {
    /// The grid really is `width` x `height`.
    pub open spec fn wf(self) -> bool {
        &&& 2 <= self.width
        &&& 2 <= self.height
        &&& self.grid.len() == self.height
        &&& forall|y: int| 0 <= y < self.height ==> (#[trigger] self.grid[y]).len() == self.width
    }

    /// The tile at a position, with everything outside the grid counting as
    /// wall: the world is wall outside the loaded room.
    pub open spec fn tile_or_wall(self, x: int, y: int) -> TileType {
        if 0 <= x < self.width && 0 <= y < self.height {
            self.grid[y][x]
        } else {
            TileType::Wall
        }
    }

    /// Whether the neighbour one step of `(dx, dy)` away from a position is
    /// wall-like, out-of-grid neighbours counting as wall.
    pub open spec fn neighbour_wall_like(self, x: int, y: int, dx: int, dy: int) -> bool {
        wall_like(self.tile_or_wall(x + dx, y + dy))
    }
}

impl Clone for RoomLayout {
    /// Structure-preserving copy: the model is kept exactly.
    fn clone(&self) -> (r: Self)
        ensures
            r@ == self@,
    {
        let mut rows: Vec<Vec<TileType>> = Vec::new();
        let height = self.layout.len();
        let mut y: usize = 0;
        while y < height
            invariant
                height == self.layout@.len(),
                0 <= y <= height,
                rows@.len() == y,
                forall|j: int| 0 <= j < y ==> (#[trigger] rows@[j])@ == self.layout@[j]@,
            decreases height - y,
        {
            let src = &self.layout[y];
            let mut row: Vec<TileType> = Vec::new();
            let width = src.len();
            let mut x: usize = 0;
            while x < width
                invariant
                    width == src@.len(),
                    0 <= x <= width,
                    row@.len() == x,
                    forall|i: int| 0 <= i < x ==> row@[i] == src@[i],
                decreases width - x,
            {
                row.push(src[x]);
                x += 1;
            }
            proof {
                assert(row@ =~= src@);
            }
            rows.push(row);
            y += 1;
        }
        let r = RoomLayout {
            doors: self.doors,
            width: self.width,
            height: self.height,
            layout: rows,
        };
        proof {
            assert(r@.grid =~= self@.grid);
        }
        r
    }
}

impl RoomLayout {
    /// Get the tile at `(x, y)`. An out-of-grid position yields a wall tile.
    pub fn get_tile(&self, position: (usize, usize)) -> (t: TileType)
        requires
            self@.wf(),
        ensures
            t == self@.tile_or_wall(position.0 as int, position.1 as int),
    {
        let (x, y) = position;
        if y < self.height && x < self.width {
            proof {
                assert(self@.grid[y as int] == self.layout@[y as int]@);
            }
            self.layout[y][x]
        } else {
            TileType::Wall
        }
    }

    /// Whether the tile one step of `(dx, dy)` away from `position` is
    /// wall-like, a step off the grid counting as wall.
    fn wall_status(&self, position: (usize, usize), dx: i8, dy: i8) -> (r: bool)
        requires
            self@.wf(),
            position.0 < usize::MAX,
            position.1 < usize::MAX,
            -1 <= dx <= 1,
            -1 <= dy <= 1,
        ensures
            r == self@.neighbour_wall_like(position.0 as int, position.1 as int, dx as int, dy as int),
    {
        let nx = position.0 as i128 + dx as i128;
        let ny = position.1 as i128 + dy as i128;
        if nx < 0 || ny < 0 || nx >= self.width as i128 || ny >= self.height as i128 {
            true
        } else {
            proof {
                assert(self@.grid[ny as int] == self.layout@[ny as int]@);
            }
            let t = self.layout[ny as usize][nx as usize];
            matches!(t, TileType::Wall | TileType::Door(_))
        }
    }

    /// Sample the eight neighbours of a tile position, reporting for each
    /// whether it is wall-like. Neighbours outside the grid count as wall.
    pub fn get_neighbour_wall(&self, position: (usize, usize)) -> (r: OctCompass<bool>)
        requires
            self@.wf(),
            position.0 < usize::MAX,
            position.1 < usize::MAX,
        ensures
            r.north == self@.neighbour_wall_like(position.0 as int, position.1 as int, 0, -1),
            r.east == self@.neighbour_wall_like(position.0 as int, position.1 as int, 1, 0),
            r.south == self@.neighbour_wall_like(position.0 as int, position.1 as int, 0, 1),
            r.west == self@.neighbour_wall_like(position.0 as int, position.1 as int, -1, 0),
            r.north_east == self@.neighbour_wall_like(position.0 as int, position.1 as int, 1, -1),
            r.south_east == self@.neighbour_wall_like(position.0 as int, position.1 as int, 1, 1),
            r.south_west == self@.neighbour_wall_like(position.0 as int, position.1 as int, -1, 1),
            r.north_west == self@.neighbour_wall_like(position.0 as int, position.1 as int, -1, -1),
    {
        OctCompass {
            north: self.wall_status(position, 0, -1),
            east: self.wall_status(position, 1, 0),
            south: self.wall_status(position, 0, 1),
            west: self.wall_status(position, -1, 0),
            north_east: self.wall_status(position, 1, -1),
            south_east: self.wall_status(position, 1, 1),
            south_west: self.wall_status(position, -1, 1),
            north_west: self.wall_status(position, -1, -1),
        }
    }
}

/// A neighbour offset that leaves the grid always samples as wall-like,
/// whatever the layout holds.
pub proof fn lemma_out_of_grid_is_wall(m: RoomLayoutModel, x: int, y: int, dx: int, dy: int)
    requires
        !(0 <= x + dx < m.width) || !(0 <= y + dy < m.height),
    ensures
        m.neighbour_wall_like(x, y, dx, dy),
{
}

} // verus!
