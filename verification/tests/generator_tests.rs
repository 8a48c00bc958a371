use dungeon::atlas::Texture;
use dungeon::compass::QuadCompass;
use dungeon::generator::{
    generate, normalize_doors, proc_generator, reconcile_all, resolve_rooms, sample_doors,
    DungeonMap, Generator, Room, RoomList, Visited,
};
use dungeon::layout::RoomLayout;
use dungeon::loader::RoomLayoutLoader;

fn quad(north: bool, east: bool, south: bool, west: bool) -> QuadCompass<bool> {
    QuadCompass { north, east, south, west }
}

/// A 5x5 room with the given doors, interior all ground.
fn room_with(doors: QuadCompass<bool>) -> RoomLayout {
    let mut header = String::new();
    if doors.north {
        header.push('N');
    }
    if doors.east {
        header.push('E');
    }
    if doors.south {
        header.push('S');
    }
    if doors.west {
        header.push('W');
    }
    let text = format!("{}\n...\n...\n...", header);
    RoomLayoutLoader::new(5, 5).load(&text.into_bytes()).unwrap()
}

/// A pool holding one room for each of the sixteen door configurations.
fn full_pool() -> RoomList {
    let mut rooms = Vec::new();
    for bits in 0..16u32 {
        rooms.push(room_with(quad(bits & 1 != 0, bits & 2 != 0, bits & 4 != 0, bits & 8 != 0)));
    }
    RoomList(rooms)
}

#[test]
fn scenario_all_closed_roll_forced_open() {
    // A room whose random roll closed every door is re-sampled to all-open.
    let forced = normalize_doors(quad(false, false, false, false));
    assert_eq!(forced, quad(true, true, true, true));
}

#[test]
fn normalize_keeps_open_rolls() {
    let kept = normalize_doors(quad(false, true, false, false));
    assert_eq!(kept, quad(false, true, false, false));
}

#[test]
fn ground_textures_come_from_the_ground_set() {
    for _ in 0..100 {
        let t = dungeon::generator::random_ground_texture();
        assert!(matches!(
            t,
            Texture::Blank | Texture::Soil | Texture::Flower | Texture::Grass
        ));
    }
}

#[test]
fn sampled_doors_never_all_closed() {
    for _ in 0..64 {
        let q = sample_doors();
        assert!(q.north || q.east || q.south || q.west);
    }
}

#[test]
fn scenario_reconciliation_opens_facing_door() {
    // Room A at (0, 0) has no east door; room B at (1, 0), east of A, has a
    // west door. After the fill phase's reconciliation A's east door is open.
    let a = quad(false, false, false, false);
    let b = quad(false, false, false, true);
    let mut visited = Visited::new();
    visited.0.insert((0, 0), a);
    visited.0.insert((1, 0), b);
    let rooms = vec![(Room(a), (0, 0)), (Room(b), (1, 0))];
    let configs = reconcile_all(&rooms, &mut visited);
    assert_eq!(configs.len(), 2);
    let (Room(a2), pos_a) = configs[0];
    let (Room(b2), pos_b) = configs[1];
    assert_eq!(pos_a, (0, 0));
    assert_eq!(pos_b, (1, 0));
    assert!(a2.east);
    assert!(b2.west);
    // Doors toward cells never generated are closed instead.
    assert!(!a2.north && !a2.south && !a2.west);
    assert!(!b2.north && !b2.south && !b2.east);
}

#[test]
fn reconciliation_is_order_independent() {
    let a = quad(false, true, false, false);
    let b = quad(false, false, false, false);
    let one_way = {
        let mut visited = Visited::new();
        visited.0.insert((0, 0), a);
        visited.0.insert((1, 0), b);
        let rooms = vec![(Room(a), (0, 0)), (Room(b), (1, 0))];
        reconcile_all(&rooms, &mut visited)
    };
    let other_way = {
        let mut visited = Visited::new();
        visited.0.insert((0, 0), a);
        visited.0.insert((1, 0), b);
        let rooms = vec![(Room(b), (1, 0)), (Room(a), (0, 0))];
        reconcile_all(&rooms, &mut visited)
    };
    assert_eq!(one_way[0].0 .0, other_way[1].0 .0);
    assert_eq!(one_way[1].0 .0, other_way[0].0 .0);
}

#[test]
fn pick_room_finds_exact_match() {
    let pool = full_pool();
    let want = quad(true, false, true, false);
    let picked = RoomList::pick_room(want, &pool).unwrap();
    assert_eq!(picked.doors, want);
}

#[test]
fn pick_room_misses_when_nothing_matches() {
    let pool = RoomList(vec![room_with(quad(true, false, false, false))]);
    assert!(RoomList::pick_room(quad(false, true, false, false), &pool).is_none());
}

#[test]
fn pick_room_single_candidate_returns_it() {
    let layout = room_with(quad(true, true, false, false));
    let pool = RoomList(vec![layout.clone()]);
    let picked = RoomList::pick_room(quad(true, true, false, false), &pool).unwrap();
    assert_eq!(picked, layout);
}

#[test]
fn expansion_decrements_depth_and_records_visits() {
    let mut visited = Visited::new();
    let mut placeholders: Vec<(Room, (i32, i32))> = Vec::new();
    let frontier = vec![(Generator(3), (0, 0))];
    let next = proc_generator(&frontier, &mut visited, &mut placeholders);
    // The cell was recorded and left one placeholder.
    assert!(visited.0.contains_key((0, 0)));
    assert_eq!(placeholders.len(), 1);
    assert_eq!(placeholders[0].1, (0, 0));
    // At least one door is open, so at least one child spawned, each one
    // level shallower and one room away.
    assert!(!next.is_empty());
    for (g, pos) in &next {
        assert_eq!(g.0, 2);
        assert_eq!((pos.0 - 0).abs() + (pos.1 - 0).abs(), 1);
    }
}

#[test]
fn expansion_skips_visited_cells() {
    let mut visited = Visited::new();
    visited.0.insert((0, 0), quad(true, true, true, true));
    let mut placeholders: Vec<(Room, (i32, i32))> = Vec::new();
    let frontier = vec![(Generator(3), (0, 0))];
    let next = proc_generator(&frontier, &mut visited, &mut placeholders);
    assert!(next.is_empty());
    assert!(placeholders.is_empty());
}

#[test]
fn depth_zero_cell_becomes_room_without_children() {
    let mut visited = Visited::new();
    let mut placeholders: Vec<(Room, (i32, i32))> = Vec::new();
    let frontier = vec![(Generator(0), (2, -1))];
    let next = proc_generator(&frontier, &mut visited, &mut placeholders);
    assert!(next.is_empty());
    assert_eq!(placeholders.len(), 1);
    let (Room(doors), pos) = placeholders[0];
    assert_eq!(pos, (2, -1));
    assert_eq!(doors, quad(false, false, false, false));
}

#[test]
fn resolve_hands_back_unmatched_placeholders() {
    // The pool has only a north-door room; a placeholder wanting east stays
    // unresolved.
    let pool = RoomList(vec![room_with(quad(true, false, false, false))]);
    let configs = vec![
        (Room(quad(true, false, false, false)), (0, 0)),
        (Room(quad(false, true, false, false)), (1, 0)),
    ];
    let mut map = DungeonMap::new();
    let leftover = resolve_rooms(&configs, &pool, &mut map);
    assert!(map.rooms.contains_key((0, 0)));
    assert!(!map.rooms.contains_key((1, 0)));
    assert_eq!(leftover.len(), 1);
    assert_eq!(leftover[0].1, (1, 0));
}

#[test]
fn generation_fills_consistent_registry() {
    let pool = full_pool();
    let (map, leftover) = generate(4, &pool);
    // The pool holds every configuration, so nothing is left unresolved and
    // the root cell always resolves.
    assert!(leftover.is_empty());
    assert!(map.rooms.contains_key((0, 0)));
    assert_eq!(map.curr_room_pos, (0, 0));
    assert!(map.curr_room().is_some());

    // Door consistency: an open door toward an existing room is answered.
    let mut coords: Vec<(i32, i32)> = Vec::new();
    for x in -5..6 {
        for y in -5..6 {
            if map.rooms.contains_key((x, y)) {
                coords.push((x, y));
            }
        }
    }
    assert_eq!(coords.len(), map.rooms.len());
    for &(x, y) in &coords {
        let doors = map.rooms.get((x, y)).unwrap().doors;
        let sides: [(bool, (i32, i32), fn(QuadCompass<bool>) -> bool); 4] = [
            (doors.north, (x, y - 1), |d| d.south),
            (doors.east, (x + 1, y), |d| d.west),
            (doors.south, (x, y + 1), |d| d.north),
            (doors.west, (x - 1, y), |d| d.east),
        ];
        for (open, there, facing) in sides {
            if open {
                if let Some(neighbour) = map.rooms.get(there) {
                    assert!(facing(neighbour.doors));
                }
            }
        }
    }
}

#[test]
fn generation_depth_zero_yields_single_room() {
    let pool = full_pool();
    let (map, leftover) = generate(0, &pool);
    assert!(leftover.is_empty());
    assert_eq!(map.rooms.len(), 1);
    assert!(map.rooms.contains_key((0, 0)));
}

#[test]
fn visited_clears_for_next_pass() {
    let mut visited = Visited::new();
    visited.0.insert((3, 4), quad(true, false, false, false));
    assert!(!visited.0.is_empty());
    visited.clear();
    assert!(visited.0.is_empty());
}

#[test]
fn empty_registry_has_no_current_room() {
    let map = DungeonMap::new();
    assert!(map.curr_room().is_none());
}
