use dungeon::grid_map::GridMap;

#[test]
fn empty_map_has_nothing() {
    let m: GridMap<u32> = GridMap::new();
    assert!(m.is_empty());
    assert_eq!(m.len(), 0);
    assert!(!m.contains_key((0, 0)));
    assert!(m.get((0, 0)).is_none());
}

#[test]
fn insert_then_get() {
    let mut m: GridMap<u32> = GridMap::new();
    m.insert((2, -3), 7);
    m.insert((-1, 0), 9);
    assert_eq!(m.len(), 2);
    assert!(!m.is_empty());
    assert_eq!(m.get((2, -3)), Some(&7));
    assert_eq!(m.get((-1, 0)), Some(&9));
    assert!(m.get((0, 0)).is_none());
}

#[test]
fn insert_replaces_existing_key() {
    let mut m: GridMap<u32> = GridMap::new();
    m.insert((5, 5), 1);
    m.insert((5, 5), 2);
    assert_eq!(m.len(), 1);
    assert_eq!(m.get((5, 5)), Some(&2));
}

#[test]
fn clear_empties_the_map() {
    let mut m: GridMap<u32> = GridMap::new();
    m.insert((1, 1), 1);
    m.clear();
    assert!(m.is_empty());
    assert!(m.get((1, 1)).is_none());
}
