use dungeon::compass::CompassDir;
use dungeon::layout::{RoomLayout, TileType};
use dungeon::loader::{RoomLayoutError, RoomLayoutLoader};

fn load5(text: &str) -> Result<RoomLayout, RoomLayoutError> {
    let loader = RoomLayoutLoader::new(5, 5);
    loader.load(&text.as_bytes().to_vec())
}

#[test]
fn scenario_north_door_five_by_five() {
    let room = load5("N\n.#.\n...\n.#.").unwrap();
    assert_eq!(room.width, 5);
    assert_eq!(room.height, 5);
    assert!(room.doors.north);
    assert!(!room.doors.east);
    assert!(!room.doors.south);
    assert!(!room.doors.west);

    // Row 0: the horizontal midpoint is a door, every other tile is wall.
    for x in 0..5 {
        let t = room.get_tile((x, 0));
        if x == 2 {
            assert_eq!(t, TileType::Door(CompassDir::North));
        } else {
            assert_eq!(t, TileType::Wall);
        }
    }
    // Interior matches the body with a one-tile wall border left/right/bottom.
    let expect = [
        ['#', '.', '#', '.', '#'],
        ['#', '.', '.', '.', '#'],
        ['#', '.', '#', '.', '#'],
        ['#', '#', '#', '#', '#'],
    ];
    for (dy, row) in expect.iter().enumerate() {
        for (x, c) in row.iter().enumerate() {
            let t = room.get_tile((x, dy + 1));
            match c {
                '#' => assert_eq!(t, TileType::Wall),
                _ => assert_eq!(t, TileType::Ground),
            }
        }
    }
}

#[test]
fn parsing_twice_is_identical() {
    let a = load5("NE\n.#.\n...\n.#.").unwrap();
    let b = load5("NE\n.#.\n...\n.#.").unwrap();
    assert_eq!(a, b);
}

#[test]
fn all_four_doors_stamped() {
    let room = load5("NESW\n...\n...\n...").unwrap();
    assert_eq!(room.get_tile((2, 0)), TileType::Door(CompassDir::North));
    assert_eq!(room.get_tile((4, 2)), TileType::Door(CompassDir::East));
    assert_eq!(room.get_tile((2, 4)), TileType::Door(CompassDir::South));
    assert_eq!(room.get_tile((0, 2)), TileType::Door(CompassDir::West));
    // Corners stay wall.
    assert_eq!(room.get_tile((0, 0)), TileType::Wall);
    assert_eq!(room.get_tile((4, 4)), TileType::Wall);
}

#[test]
fn duplicate_door_letters_are_ignored() {
    let room = load5("NNN\n...\n...\n...").unwrap();
    assert!(room.doors.north);
    assert!(!room.doors.east && !room.doors.south && !room.doors.west);
}

#[test]
fn non_ascii_input_is_rejected() {
    let loader = RoomLayoutLoader::new(5, 5);
    let mut bytes = b"N\n...\n...\n...".to_vec();
    bytes[3] = 0xC3;
    assert_eq!(loader.load(&bytes), Err(RoomLayoutError::Ascii));
}

#[test]
fn bad_door_letter_is_rejected() {
    assert_eq!(load5("NX\n...\n...\n..."), Err(RoomLayoutError::DoorDir(b'X')));
}

#[test]
fn bad_tile_character_is_rejected() {
    assert_eq!(load5("N\n...\n.?.\n..."), Err(RoomLayoutError::TileType(b'?')));
}

#[test]
fn wrong_row_width_is_rejected() {
    assert_eq!(load5("N\n...\n....\n..."), Err(RoomLayoutError::Width(4)));
}

#[test]
fn wrong_row_count_is_rejected() {
    assert_eq!(load5("N\n...\n..."), Err(RoomLayoutError::Height(2)));
}

#[test]
fn empty_body_gives_all_wall_layout() {
    // With a room two tiles high there are no interior rows at all: the
    // degenerate layout is the padding alone, doors punched in if asked.
    let loader = RoomLayoutLoader::new(5, 2);
    let room = loader.load(&b"".to_vec()).unwrap();
    for y in 0..2 {
        for x in 0..5 {
            assert_eq!(room.get_tile((x, y)), TileType::Wall);
        }
    }
}

#[test]
fn default_loader_uses_engine_size() {
    let loader = RoomLayoutLoader::default();
    assert_eq!(loader.width, dungeon::WIDTH as usize);
    assert_eq!(loader.height, dungeon::HEIGHT as usize);
    let body_row = ".".repeat(dungeon::WIDTH as usize - 2);
    let mut text = String::from("S\n");
    for _ in 0..(dungeon::HEIGHT as usize - 2) {
        text.push_str(&body_row);
        text.push('\n');
    }
    let room = loader.load(&text.into_bytes()).unwrap();
    assert!(room.doors.south);
    let mid_x = (dungeon::WIDTH as usize - 1) / 2;
    assert_eq!(
        room.get_tile((mid_x, dungeon::HEIGHT as usize - 1)),
        TileType::Door(CompassDir::South)
    );
}

#[test]
fn out_of_grid_tile_reads_as_wall() {
    let room = load5("\n...\n...\n...").unwrap();
    assert_eq!(room.get_tile((99, 0)), TileType::Wall);
    assert_eq!(room.get_tile((0, 99)), TileType::Wall);
}

#[test]
fn scenario_corner_sample_is_wall_outside() {
    // Sampling at (0, 0): north, west and north-west fall outside the grid
    // and must read wall-like whatever the layout holds.
    let room = load5("NESW\n...\n...\n...").unwrap();
    let sample = room.get_neighbour_wall((0, 0));
    assert!(sample.north);
    assert!(sample.west);
    assert!(sample.north_west);
    // The inward diagonal sees the ground interior: the sampler really reads
    // the grid.
    assert!(!sample.south_east);
}

#[test]
fn door_tiles_sample_as_wall_like() {
    let room = load5("N\n...\n...\n...").unwrap();
    // (2, 1) sits just south of the north door tile.
    let sample = room.get_neighbour_wall((2, 1));
    assert!(sample.north);
    assert!(!sample.south);
}

#[test]
fn interior_sample_reads_neighbours() {
    let room = load5("\n.#.\n...\n...").unwrap();
    // (2, 2) sits just south of the body's wall at (2, 1).
    let sample = room.get_neighbour_wall((2, 2));
    assert!(sample.north);
    assert!(!sample.east);
    assert!(!sample.south);
    assert!(!sample.west);
    assert!(sample.north_east == false);
    assert!(sample.south_west == false);
}

#[test]
fn tile_is_wall_only_for_walls() {
    assert!(TileType::Wall.is_wall());
    assert!(!TileType::Ground.is_wall());
    assert!(!TileType::Door(CompassDir::East).is_wall());
}

#[test]
fn clone_preserves_structure() {
    let room = load5("NE\n.#.\n...\n.#.").unwrap();
    let copy = room.clone();
    assert_eq!(room, copy);
}
