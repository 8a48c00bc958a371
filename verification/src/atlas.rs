//! Sprite-atlas textures and the wall sub-tile pieces.
//!
//! A wall tile is rendered as four quadrant pieces, two for the top half and
//! two for the bottom half. Each piece's sprite variant is chosen from the
//! two cardinal neighbours adjacent to its quadrant and, when both are
//! wall-like, from the matching diagonal neighbour.

use vstd::prelude::*;

use crate::compass::OctCompass;

verus! {

/// A texture of the sprite atlas.
#[allow(missing_docs)]
#[derive(Clone, Copy, Debug, PartialEq, Eq, Structural)]
pub enum Texture {
    Player,
    Blank,
    Dwarf,
    Snake,
    Goblin,
    Ground,
    Brick,
    Soil,
    Grass,
    Flower,
    Grass2,
    Flower2,

    DoorN,
    DoorE,
    DoorS,
    DoorW,

    Wall {
        /// Is this the top wall piece.
        top: bool,
        /// Is this wall piece connected on the side, horizontally.
        horz_wall: bool,
        /// Is this wall piece connected on the top, vertically.
        vert_wall: bool,
        /// Does this wall piece have a walled corner.
        corner: bool,
    },
}

/// The sprite index a wall piece selects inside the wall atlas: five top
/// variants then five bottom variants. A fully enclosed corner (both
/// adjacent sides walled and the corner walled) always wins the fifth
/// variant of its band; otherwise each unwalled side moves the index up.
pub open spec fn spec_wall_index(top: bool, horz_wall: bool, vert_wall: bool, corner: bool) -> int {
    let top_offset: int = if top {
        0
    } else {
        5
    };
    if corner && horz_wall && vert_wall {
        top_offset + 4
    } else {
        top_offset + (if horz_wall {
            0int
        } else {
            2int
        }) + (if vert_wall {
            0int
        } else {
            1int
        })
    }
}

/// The atlas index a texture selects: plain textures in declaration order,
/// and wall pieces by `spec_wall_index` inside the wall atlas.
pub open spec fn spec_texture_index(t: Texture) -> int {
    match t {
        Texture::Player => 0,
        Texture::Blank => 1,
        Texture::Dwarf => 2,
        Texture::Snake => 3,
        Texture::Goblin => 4,
        Texture::Ground => 5,
        Texture::Brick => 6,
        Texture::Soil => 7,
        Texture::Grass => 8,
        Texture::Flower => 9,
        Texture::Grass2 => 10,
        Texture::Flower2 => 11,
        Texture::DoorN => 12,
        Texture::DoorE => 13,
        Texture::DoorS => 14,
        Texture::DoorW => 15,
        Texture::Wall { top, horz_wall, vert_wall, corner } => spec_wall_index(
            top,
            horz_wall,
            vert_wall,
            corner,
        ),
    }
}

impl Texture {
    /// The index this texture selects in its atlas.
    pub fn sprite_index(self) -> (i: usize)
        ensures
            i == spec_texture_index(self),
    {
        match self {
            Texture::Player => 0,
            Texture::Blank => 1,
            Texture::Dwarf => 2,
            Texture::Snake => 3,
            Texture::Goblin => 4,
            Texture::Ground => 5,
            Texture::Brick => 6,
            Texture::Soil => 7,
            Texture::Grass => 8,
            Texture::Flower => 9,
            Texture::Grass2 => 10,
            Texture::Flower2 => 11,
            Texture::DoorN => 12,
            Texture::DoorE => 13,
            Texture::DoorS => 14,
            Texture::DoorW => 15,
            Texture::Wall { top, horz_wall, vert_wall, corner } => {
                let top_offset: usize = if top {
                    0
                } else {
                    5
                };
                if corner && horz_wall && vert_wall {
                    top_offset + 4
                } else {
                    let horz_offset: usize = if horz_wall {
                        0
                    } else {
                        2
                    };
                    let vert_offset: usize = if vert_wall {
                        0
                    } else {
                        1
                    };
                    top_offset + horz_offset + vert_offset
                }
            },
        }
    }
}

/// A sprite drawn from the atlas, optionally flipped.
#[derive(Clone, Copy, Debug, PartialEq, Eq, Structural)]
pub struct AtlasSprite {
    /// Texture to index the atlas with.
    pub texture: Texture,
    /// Flip the sprite across the x axis.
    pub flip_x: bool,
    /// Flip the sprite across the y axis.
    pub flip_y: bool,
}

impl AtlasSprite {
    /// A new unflipped sprite for a texture.
    pub fn new(texture: Texture) -> (r: AtlasSprite)
        ensures
            r.texture == texture,
            !r.flip_x,
            !r.flip_y,
    {
        AtlasSprite { texture, flip_x: false, flip_y: false }
    }
}

/// The vertical-side neighbour a quadrant looks at: north for the top
/// pieces, south for the bottom pieces.
pub open spec fn quadrant_vert(top: bool, neighbour: OctCompass<bool>) -> bool {
    if top {
        neighbour.north
    } else {
        neighbour.south
    }
}

/// The horizontal-side neighbour a quadrant looks at: west for the left
/// pieces, east for the right pieces.
pub open spec fn quadrant_horz(left: bool, neighbour: OctCompass<bool>) -> bool {
    if left {
        neighbour.west
    } else {
        neighbour.east
    }
}

/// The diagonal neighbour a quadrant looks at.
pub open spec fn quadrant_corner(top: bool, left: bool, neighbour: OctCompass<bool>) -> bool {
    match (top, left) {
        (true, true) => neighbour.north_west,
        (true, false) => neighbour.north_east,
        (false, true) => neighbour.south_west,
        (false, false) => neighbour.south_east,
    }
}

/// One quadrant piece of a rendered wall tile.
pub struct WallPiece {
    /// The sprite the piece draws.
    pub sprite: AtlasSprite,
}

impl WallPiece {
    /// The piece for one quadrant of a wall tile, selected from the
    /// neighbour sample: the quadrant's two adjacent cardinal neighbours
    /// give the side flags, its diagonal neighbour the corner flag, and the
    /// left pieces are drawn flipped.
    pub fn new(top: bool, left: bool, neighbour: OctCompass<bool>) -> (r: WallPiece)
        ensures
            r.sprite.texture == (Texture::Wall {
                top,
                horz_wall: quadrant_horz(left, neighbour),
                vert_wall: quadrant_vert(top, neighbour),
                corner: quadrant_corner(top, left, neighbour),
            }),
            r.sprite.flip_y == left,
            !r.sprite.flip_x,
    {
        let vert_wall = if top {
            neighbour.north
        } else {
            neighbour.south
        };
        let horz_wall = if left {
            neighbour.west
        } else {
            neighbour.east
        };
        let corner = match (top, left) {
            (true, true) => neighbour.north_west,
            (true, false) => neighbour.north_east,
            (false, true) => neighbour.south_west,
            (false, false) => neighbour.south_east,
        };
        WallPiece {
            sprite: AtlasSprite {
                texture: Texture::Wall { top, horz_wall, vert_wall, corner },
                flip_y: left,
                flip_x: false,
            },
        }
    }
}

} // verus!
