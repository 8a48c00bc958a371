use dungeon::atlas::{AtlasSprite, Texture, WallPiece};
use dungeon::compass::{OctCompass, QuadCompass};
use dungeon::Direction;

#[test]
fn plain_texture_indices() {
    assert_eq!(Texture::Player.sprite_index(), 0);
    assert_eq!(Texture::Blank.sprite_index(), 1);
    assert_eq!(Texture::Brick.sprite_index(), 6);
    assert_eq!(Texture::Flower2.sprite_index(), 11);
    assert_eq!(Texture::DoorN.sprite_index(), 12);
    assert_eq!(Texture::DoorW.sprite_index(), 15);
}

fn wall(top: bool, horz_wall: bool, vert_wall: bool, corner: bool) -> usize {
    Texture::Wall { top, horz_wall, vert_wall, corner }.sprite_index()
}

#[test]
fn wall_piece_indices() {
    // Top band: both sides walled is 0, each unwalled side moves up.
    assert_eq!(wall(true, true, true, false), 0);
    assert_eq!(wall(true, true, false, false), 1);
    assert_eq!(wall(true, false, true, false), 2);
    assert_eq!(wall(true, false, false, false), 3);
    // A fully enclosed corner always wins the fifth variant.
    assert_eq!(wall(true, true, true, true), 4);
    // The corner flag alone changes nothing.
    assert_eq!(wall(true, false, false, true), 3);
    assert_eq!(wall(true, true, false, true), 1);
    // Bottom band sits five later.
    assert_eq!(wall(false, true, true, false), 5);
    assert_eq!(wall(false, false, false, false), 8);
    assert_eq!(wall(false, true, true, true), 9);
}

#[test]
fn atlas_sprite_starts_unflipped() {
    let s = AtlasSprite::new(Texture::Goblin);
    assert_eq!(s.texture, Texture::Goblin);
    assert!(!s.flip_x);
    assert!(!s.flip_y);
}

#[test]
fn wall_piece_selects_quadrant_neighbours() {
    let neighbour = OctCompass {
        north: true,
        east: false,
        south: true,
        west: false,
        north_east: false,
        south_east: true,
        south_west: false,
        north_west: true,
    };
    let top_left = WallPiece::new(true, true, neighbour);
    assert_eq!(
        top_left.sprite.texture,
        Texture::Wall { top: true, horz_wall: false, vert_wall: true, corner: true }
    );
    assert!(top_left.sprite.flip_y);
    assert!(!top_left.sprite.flip_x);

    let bottom_right = WallPiece::new(false, false, neighbour);
    assert_eq!(
        bottom_right.sprite.texture,
        Texture::Wall { top: false, horz_wall: false, vert_wall: true, corner: true }
    );
    assert!(!bottom_right.sprite.flip_y);
}

#[test]
fn quad_widens_with_empty_diagonals() {
    let q = QuadCompass { north: true, east: false, south: true, west: false };
    let o = q.to_oct();
    assert!(o.north && o.south && !o.east && !o.west);
    assert!(!o.north_east && !o.south_east && !o.south_west && !o.north_west);
    assert_eq!(o.to_quad(), q);
}

#[test]
fn direction_zero_check() {
    assert!(Direction::Zero.is_zero());
    assert!(!Direction::Up.is_zero());
    assert!(!Direction::Left.is_zero());
    assert!(!Direction::Down.is_zero());
    assert!(!Direction::Right.is_zero());
}
