//! The dungeon generator: breadth-first, depth-limited expansion of rooms
//! from a starting cell, door-consistent reconciliation between neighbours,
//! and resolution of each generated cell to a concrete layout from the pool.

use vstd::prelude::*;

use rand::Rng;

use crate::atlas::Texture;
use crate::compass::{is_cardinal, opposite, quad_flag, step_coord, CompassDir, QuadCompass};
use crate::grid_map::{key_of, GridMap};
use crate::layout::RoomLayout;

verus! {

/// A pending dungeon-growth task: how many expansion steps remain from its
/// cell. Paired with the cell's room-grid coordinate wherever it travels.
#[derive(Clone, Copy, Debug, PartialEq, Eq, Structural)]
pub struct Generator(pub u8);

/// A placeholder room awaiting layout resolution, carrying the door
/// configuration assigned to its cell.
#[derive(Clone, Copy, Debug, PartialEq, Eq, Structural)]
pub struct Room(pub QuadCompass<bool>);

/// The record of which room-grid coordinates were assigned a door
/// configuration during the current generation pass.
pub struct Visited(pub GridMap<QuadCompass<bool>>);

impl Visited {
    /// An empty record, ready for a generation pass.
    pub fn new() -> (r: Visited)
        ensures
            r.0.wf(),
            r.0@ == Map::<(int, int), QuadCompass<bool>>::empty(),
    {
        Visited(GridMap::new())
    }

    /// Forget the pass, ready for a new dungeon.
    pub fn clear(&mut self)
        ensures
            final(self).0.wf(),
            final(self).0@ == Map::<(int, int), QuadCompass<bool>>::empty(),
    {
        self.0.clear();
    }
}

/// The pool of loaded room layouts the generator resolves cells from.
pub struct RoomList(pub Vec<RoomLayout>);

impl RoomList {
    /// Every pooled layout has a well-formed grid.
    pub open spec fn wf(self) -> bool {
        forall|i: int| 0 <= i < self.0@.len() ==> (#[trigger] self.0@[i])@.wf()
    }

    /// Whether some pooled layout carries exactly this door configuration.
    pub open spec fn spec_has(self, doors: QuadCompass<bool>) -> bool {
        exists|i: int| 0 <= i < self.0@.len() && (#[trigger] self.0@[i])@.doors == doors
    }

    /// Pick a room whose door configuration equals `door`, uniformly at
    /// random among the pool's exact matches; none exists exactly when no
    /// pooled layout matches.
    pub fn pick_room(door: QuadCompass<bool>, room_list: &RoomList) -> (r: Option<RoomLayout>)
        requires
            room_list.wf(),
        ensures
            (r is Some) == room_list.spec_has(door),
            match r {
                Some(l) => {
                    &&& exists|i: int|
                        0 <= i < room_list.0@.len() && (#[trigger] room_list.0@[i])@ == l@
                    &&& l@.doors == door
                    &&& l@.wf()
                },
                None => true,
            },
    {
        let n = room_list.0.len();
        let mut matches: Vec<usize> = Vec::new();
        let mut i: usize = 0;
        while i < n
            invariant
                n == room_list.0@.len(),
                0 <= i <= n,
                room_list.wf(),
                forall|j: int|
                    0 <= j < matches@.len() ==> (#[trigger] matches@[j]) < n && room_list.0@[
                        matches@[j] as int
                    ]@.doors == door,
                (exists|j: int| 0 <= j < i && (#[trigger] room_list.0@[j])@.doors == door)
                    ==> matches@.len() > 0,
            decreases n - i,
        {
            if room_list.0[i].doors == door {
                matches.push(i);
            }
            i += 1;
        }
        if matches.len() == 0 {
            assert(!room_list.spec_has(door));
            None
        } else {
            let pick = rand_index(matches.len());
            let j = matches[pick];
            let l = room_list.0[j].clone();
            assert(room_list.0@[j as int]@.doors == door);
            Some(l)
        }
    }
}

/// The registry of resolved rooms, keyed by room-grid coordinate, with the
/// coordinate of the room the player is currently in.
pub struct DungeonMap {
    /// The room the player currently interacts with.
    pub curr_room_pos: (i32, i32),
    /// Every resolved room of the dungeon.
    pub rooms: GridMap<RoomLayout>,
}

impl DungeonMap {
    /// The registry's entries have distinct coordinates.
    pub open spec fn wf(self) -> bool {
        self.rooms.wf()
    }

    /// An empty registry pointing at the origin room.
    pub fn new() -> (r: DungeonMap)
        ensures
            r.wf(),
            r.rooms@ == Map::<(int, int), RoomLayout>::empty(),
            r.curr_room_pos == (0i32, 0i32),
    {
        DungeonMap { curr_room_pos: (0, 0), rooms: GridMap::new() }
    }

    /// The layout of the current room, if it has been resolved.
    pub fn curr_room(&self) -> (r: Option<&RoomLayout>)
        requires
            self.wf(),
        ensures
            match r {
                Some(l) => self.rooms@.contains_key(key_of(self.curr_room_pos)) && *l
                    == self.rooms@[key_of(self.curr_room_pos)],
                None => !self.rooms@.contains_key(key_of(self.curr_room_pos)),
            },
    {
        self.rooms.get(self.curr_room_pos)
    }
}

/// Relies on rand::Rng::gen_ratio with chance one in two, through
/// rand::thread_rng: a fair random draw, of which nothing is promised.
#[verifier::external_body]
fn coin_flip() -> bool {
    rand::thread_rng().gen_ratio(1, 2)
}

/// Relies on rand::Rng::gen_range over `0..len`, through rand::thread_rng:
/// it returns a value of the range and panics only when the range is empty.
#[verifier::external_body]
fn rand_index(len: usize) -> (r: usize)
    requires
        len > 0,
    ensures
        r < len,
{
    rand::thread_rng().gen_range(0..len)
}

/// Pick the texture of one ground tile: blank with weight seven in ten,
/// else soil, flower or grass, one in ten each. Whatever the draw, the
/// result is one of those four ground textures.
pub fn random_ground_texture() -> (t: Texture)
    ensures
        t is Blank || t is Soil || t is Flower || t is Grass,
{
    let roll = rand_index(10);
    if roll == 7 {
        Texture::Soil
    } else if roll == 8 {
        Texture::Flower
    } else if roll == 9 {
        Texture::Grass
    } else {
        Texture::Blank
    }
}

/// A door roll with every flag clear is replaced by one with every flag
/// set; any other roll is kept.
pub open spec fn spec_normalize(q: QuadCompass<bool>) -> QuadCompass<bool> {
    if !q.north && !q.east && !q.south && !q.west {
        QuadCompass { north: true, east: true, south: true, west: true }
    } else {
        q
    }
}

/// Replace an all-closed door roll by all-open, so no room is ever a dead
/// end with zero exits.
pub fn normalize_doors(q: QuadCompass<bool>) -> (r: QuadCompass<bool>)
    ensures
        r == spec_normalize(q),
{
    if !q.north && !q.east && !q.south && !q.west {
        QuadCompass { north: true, east: true, south: true, west: true }
    } else {
        q
    }
}

/// Roll a random door configuration: each direction open with probability
/// one half, an all-closed roll forced all-open. Whatever the draws, the
/// result has at least one open door.
pub fn sample_doors() -> (q: QuadCompass<bool>)
    ensures
        q.north || q.east || q.south || q.west,
{
    normalize_doors(
        QuadCompass { north: coin_flip(), east: coin_flip(), south: coin_flip(), west: coin_flip() },
    )
}

/// Coordinates far enough from the numeric limits that a neighbour step
/// cannot overflow.
pub open spec fn coord_ok(c: (i32, i32)) -> bool {
    -1000000000 <= c.0 <= 1000000000 && -1000000000 <= c.1 <= 1000000000
}

/// The coordinate one room away in a direction.
fn neighbour_coord(c: (i32, i32), d: CompassDir) -> (r: (i32, i32))
    requires
        coord_ok(c),
    ensures
        key_of(r) == step_coord(key_of(c), d),
{
    match d {
        CompassDir::North => (c.0, c.1 - 1),
        CompassDir::East => (c.0 + 1, c.1),
        CompassDir::South => (c.0, c.1 + 1),
        CompassDir::West => (c.0 - 1, c.1),
        CompassDir::NorthEast => (c.0 + 1, c.1 - 1),
        CompassDir::SouthEast => (c.0 + 1, c.1 + 1),
        CompassDir::SouthWest => (c.0 - 1, c.1 + 1),
        CompassDir::NorthWest => (c.0 - 1, c.1 - 1),
    }
}

/// Whether the reconciled door of a cell at `c` toward `d` ends open: the
/// neighbouring cell there was visited, and either its facing door is open
/// or the cell's own door already was.
pub open spec fn recon_dir(
    v: Map<(int, int), QuadCompass<bool>>,
    doors: QuadCompass<bool>,
    c: (int, int),
    d: CompassDir,
) -> bool {
    let n = step_coord(c, d);
    v.contains_key(n) && (quad_flag(v[n], opposite(d)) || quad_flag(doors, d))
}

/// The whole door configuration of a cell after reconciliation against the
/// visited set.
pub open spec fn recon_doors(
    v: Map<(int, int), QuadCompass<bool>>,
    doors: QuadCompass<bool>,
    c: (int, int),
) -> QuadCompass<bool> {
    QuadCompass {
        north: recon_dir(v, doors, c, CompassDir::North),
        east: recon_dir(v, doors, c, CompassDir::East),
        south: recon_dir(v, doors, c, CompassDir::South),
        west: recon_dir(v, doors, c, CompassDir::West),
    }
}

/// Reconcile a placeholder's doors against the visited set as it stands.
fn reconcile_doors(doors: QuadCompass<bool>, c: (i32, i32), visited: &Visited) -> (r: QuadCompass<
    bool,
>)
    requires
        visited.0.wf(),
        coord_ok(c),
    ensures
        r == recon_doors(visited.0@, doors, key_of(c)),
{
    let north = match visited.0.get(neighbour_coord(c, CompassDir::North)) {
        Some(q) => q.south || doors.north,
        None => false,
    };
    let east = match visited.0.get(neighbour_coord(c, CompassDir::East)) {
        Some(q) => q.west || doors.east,
        None => false,
    };
    let south = match visited.0.get(neighbour_coord(c, CompassDir::South)) {
        Some(q) => q.north || doors.south,
        None => false,
    };
    let west = match visited.0.get(neighbour_coord(c, CompassDir::West)) {
        Some(q) => q.east || doors.west,
        None => false,
    };
    QuadCompass { north, east, south, west }
}

/// One direction of `lemma_recon_stable`.
proof fn lemma_recon_dir_stable(
    m0: Map<(int, int), QuadCompass<bool>>,
    v: Map<(int, int), QuadCompass<bool>>,
    doors: QuadCompass<bool>,
    c: (int, int),
    d: CompassDir,
)
    requires
        forall|k: (int, int)| #[trigger] v.contains_key(k) <==> m0.contains_key(k),
        forall|k: (int, int)| #[trigger]
            v.contains_key(k) ==> v[k] == m0[k] || v[k] == recon_doors(m0, m0[k], k),
        m0.contains_key(c),
        doors == m0[c],
        is_cardinal(d),
    ensures
        recon_dir(v, doors, c, d) == recon_dir(m0, doors, c, d),
{
    let n = step_coord(c, d);
    crate::compass::lemma_step_coord_roundtrip(c, d);
    if m0.contains_key(n) {
        assert(v.contains_key(n));
        if v[n] == recon_doors(m0, m0[n], n) {
            assert(quad_flag(v[n], opposite(d)) == recon_dir(m0, m0[n], n, opposite(d)));
        }
    }
}

/// Reconciling against a partly reconciled visited set gives the same doors
/// as reconciling against the original one: the order placeholders are
/// processed in cannot change the outcome.
proof fn lemma_recon_stable(
    m0: Map<(int, int), QuadCompass<bool>>,
    v: Map<(int, int), QuadCompass<bool>>,
    doors: QuadCompass<bool>,
    c: (int, int),
)
    requires
        forall|k: (int, int)| #[trigger] v.contains_key(k) <==> m0.contains_key(k),
        forall|k: (int, int)| #[trigger]
            v.contains_key(k) ==> v[k] == m0[k] || v[k] == recon_doors(m0, m0[k], k),
        m0.contains_key(c),
        doors == m0[c],
    ensures
        recon_doors(v, doors, c) == recon_doors(m0, doors, c),
{
    lemma_recon_dir_stable(m0, v, doors, c, CompassDir::North);
    lemma_recon_dir_stable(m0, v, doors, c, CompassDir::East);
    lemma_recon_dir_stable(m0, v, doors, c, CompassDir::South);
    lemma_recon_dir_stable(m0, v, doors, c, CompassDir::West);
}

/// The placeholders agree with the visited set: each sits at a coordinate
/// the set maps to exactly its doors, and no two share a coordinate.
pub open spec fn placeholders_ok(
    ps: Seq<(Room, (i32, i32))>,
    v: Map<(int, int), QuadCompass<bool>>,
) -> bool {
    &&& forall|i: int|
        0 <= i < ps.len() ==> v.contains_key(key_of((#[trigger] ps[i]).1)) && v[key_of(ps[i].1)]
            == ps[i].0.0
    &&& forall|i: int, j: int|
        0 <= i < j < ps.len() ==> key_of((#[trigger] ps[i]).1) != key_of((#[trigger] ps[j]).1)
}

/// A frontier entry spawned by this round: one room away from some processed
/// cell that still had depth, one level shallower than it.
pub open spec fn spawned_from(
    e: (Generator, (i32, i32)),
    generators: Seq<(Generator, (i32, i32))>,
) -> bool {
    exists|g: int, d: CompassDir|
        #![trigger step_coord(key_of(generators[g].1), d)]
        0 <= g < generators.len() && is_cardinal(d) && e.0.0 + 1 == generators[g].0.0 && key_of(
            e.1,
        ) == step_coord(key_of(generators[g].1), d)
}

/// A placeholder left at the coordinate of some processed frontier cell.
pub open spec fn placed_at(
    p: (Room, (i32, i32)),
    generators: Seq<(Generator, (i32, i32))>,
) -> bool {
    exists|g: int| 0 <= g < generators.len() && p.1 == (#[trigger] generators[g]).1
}

/// Some placeholder of the sequence sits at the coordinate.
pub open spec fn placeholder_at(k: (int, int), ps: Seq<(Room, (i32, i32))>) -> bool {
    exists|i: int| 0 <= i < ps.len() && key_of((#[trigger] ps[i]).1) == k
}

/// Some frontier cell sits at the coordinate.
pub open spec fn frontier_covers(k: (int, int), generators: Seq<(Generator, (i32, i32))>) -> bool {
    exists|g: int| 0 <= g < generators.len() && key_of((#[trigger] generators[g]).1) == k
}

proof fn lemma_placeholder_at_push(ps: Seq<(Room, (i32, i32))>, e: (Room, (i32, i32)))
    ensures
        forall|k: (int, int)| #[trigger] placeholder_at(k, ps) ==> placeholder_at(k, ps.push(e)),
        placeholder_at(key_of(e.1), ps.push(e)),
{
    assert forall|k: (int, int)| #[trigger] placeholder_at(k, ps) implies placeholder_at(
        k,
        ps.push(e),
    ) by {
        let i = choose|i: int| 0 <= i < ps.len() && key_of((#[trigger] ps[i]).1) == k;
        assert(key_of(ps.push(e)[i].1) == k);
    }
    assert(key_of(ps.push(e)[ps.len() as int].1) == key_of(e.1));
}

/// Generation terminates: whatever the random door rolls, each expansion
/// round strictly lowers the frontier's depth bound, so a frontier seeded at
/// depth `n` drains after at most `n` further rounds, a round of all-zero
/// depth spawning nothing.
pub proof fn lemma_frontier_drains(
    prev: Seq<(Generator, (i32, i32))>,
    next: Seq<(Generator, (i32, i32))>,
    n: int,
)
    requires
        forall|j: int| 0 <= j < next.len() ==> spawned_from(#[trigger] next[j], prev),
        forall|i: int| 0 <= i < prev.len() ==> (#[trigger] prev[i]).0.0 <= n,
    ensures
        forall|j: int| 0 <= j < next.len() ==> (#[trigger] next[j]).0.0 <= n - 1,
        n <= 0 ==> next.len() == 0,
{
    assert forall|j: int| 0 <= j < next.len() implies (#[trigger] next[j]).0.0 <= n - 1 by {
        assert(spawned_from(next[j], prev));
        let (g, dir): (int, CompassDir) = choose|g: int, dir: CompassDir|
            #![trigger step_coord(key_of(prev[g].1), dir)]
            0 <= g < prev.len() && is_cardinal(dir) && next[j].0.0 + 1 == prev[g].0.0 && key_of(
                next[j].1,
            ) == step_coord(key_of(prev[g].1), dir);
        assert(prev[g].0.0 <= n);
    }
    if n <= 0 && next.len() > 0 {
        assert(next[0].0.0 <= n - 1);
    }
}

/// Expand every pending frontier cell once: an unvisited cell records a door
/// configuration (randomly rolled while depth remains, all-closed at depth
/// zero), leaves a placeholder room, and, while depth remains, spawns a
/// pending child one room away behind each open door that leads to an
/// unvisited cell. A visited cell is dropped. Returns the next frontier.
#[verifier::loop_isolation(false)]
pub fn proc_generator(
    generators: &Vec<(Generator, (i32, i32))>,
    visited: &mut Visited,
    rooms: &mut Vec<(Room, (i32, i32))>,
) -> (next: Vec<(Generator, (i32, i32))>)
    requires
        old(visited).0.wf(),
        placeholders_ok(old(rooms)@, old(visited).0@),
        forall|i: int| 0 <= i < generators@.len() ==> coord_ok((#[trigger] generators@[i]).1),
    ensures
        final(visited).0.wf(),
        forall|k: (int, int)| #[trigger]
            old(visited).0@.contains_key(k) ==> final(visited).0@.contains_key(k)
                && final(visited).0@[k] == old(visited).0@[k],
        final(rooms)@.len() >= old(rooms)@.len(),
        forall|i: int| 0 <= i < old(rooms)@.len() ==> final(rooms)@[i] == old(rooms)@[i],
        placeholders_ok(final(rooms)@, final(visited).0@),
        forall|i: int|
            old(rooms)@.len() <= i < final(rooms)@.len() ==> placed_at(
                #[trigger] final(rooms)@[i],
                generators@,
            ),
        forall|j: int|
            0 <= j < next@.len() ==> spawned_from(#[trigger] next@[j], generators@),
        forall|i: int|
            0 <= i < generators@.len() ==> final(visited).0@.contains_key(
                key_of((#[trigger] generators@[i]).1),
            ),
        forall|k: (int, int)| #[trigger]
            final(visited).0@.contains_key(k) ==> old(visited).0@.contains_key(k)
                || frontier_covers(k, generators@),
        forall|k: (int, int)| #[trigger]
            final(visited).0@.contains_key(k) && !old(visited).0@.contains_key(k)
                ==> placeholder_at(k, final(rooms)@),
{
    let mut next: Vec<(Generator, (i32, i32))> = Vec::new();
    let n = generators.len();
    let mut i: usize = 0;
    while i < n
        invariant
            0 <= i <= n,
            visited.0.wf(),
            forall|k: (int, int)| #[trigger]
                old(visited).0@.contains_key(k) ==> visited.0@.contains_key(k) && visited.0@[k]
                    == old(visited).0@[k],
            rooms@.len() >= old(rooms)@.len(),
            forall|j: int| 0 <= j < old(rooms)@.len() ==> rooms@[j] == old(rooms)@[j],
            placeholders_ok(rooms@, visited.0@),
            forall|j: int|
                old(rooms)@.len() <= j < rooms@.len() ==> placed_at(
                    #[trigger] rooms@[j],
                    generators@,
                ),
            forall|j: int|
                0 <= j < next@.len() ==> spawned_from(#[trigger] next@[j], generators@),
            forall|j: int|
                0 <= j < i ==> visited.0@.contains_key(key_of((#[trigger] generators@[j]).1)),
            forall|k: (int, int)| #[trigger]
                visited.0@.contains_key(k) ==> old(visited).0@.contains_key(k) || frontier_covers(
                    k,
                    generators@,
                ),
            forall|k: (int, int)| #[trigger]
                visited.0@.contains_key(k) && !old(visited).0@.contains_key(k) ==> placeholder_at(
                    k,
                    rooms@,
                ),
        decreases n - i,
    {
        let (g, pos) = generators[i];
        if !visited.0.contains_key(pos) {
            let doors = if g.0 == 0 {
                QuadCompass::all_false()
            } else {
                sample_doors()
            };
            let ghost rooms_before = rooms@;
            visited.0.insert(pos, doors);
            rooms.push((Room(doors), pos));
            proof {
                assert(rooms@[rooms@.len() - 1].1 == generators@[i as int].1);
                assert(placed_at(rooms@[rooms@.len() - 1], generators@));
                lemma_placeholder_at_push(rooms_before, (Room(doors), pos));
                assert(key_of(generators@[i as int].1) == key_of(pos));
                assert(frontier_covers(key_of(pos), generators@));
            }
            if g.0 > 0 {
                let depth_left = Generator(g.0 - 1);
                if doors.north {
                    let np = neighbour_coord(pos, CompassDir::North);
                    if !visited.0.contains_key(np) {
                        next.push((depth_left, np));
                        proof {
                            assert(key_of(next@.last().1) == step_coord(
                                key_of(generators@[i as int].1),
                                CompassDir::North,
                            ));
                            assert(spawned_from(next@.last(), generators@));
                        }
                    }
                }
                if doors.east {
                    let np = neighbour_coord(pos, CompassDir::East);
                    if !visited.0.contains_key(np) {
                        next.push((depth_left, np));
                        proof {
                            assert(key_of(next@.last().1) == step_coord(
                                key_of(generators@[i as int].1),
                                CompassDir::East,
                            ));
                            assert(spawned_from(next@.last(), generators@));
                        }
                    }
                }
                if doors.south {
                    let np = neighbour_coord(pos, CompassDir::South);
                    if !visited.0.contains_key(np) {
                        next.push((depth_left, np));
                        proof {
                            assert(key_of(next@.last().1) == step_coord(
                                key_of(generators@[i as int].1),
                                CompassDir::South,
                            ));
                            assert(spawned_from(next@.last(), generators@));
                        }
                    }
                }
                if doors.west {
                    let np = neighbour_coord(pos, CompassDir::West);
                    if !visited.0.contains_key(np) {
                        next.push((depth_left, np));
                        proof {
                            assert(key_of(next@.last().1) == step_coord(
                                key_of(generators@[i as int].1),
                                CompassDir::West,
                            ));
                            assert(spawned_from(next@.last(), generators@));
                        }
                    }
                }
            }
        }
        i += 1;
    }
    next
}

/// Reconcile every placeholder's doors against the visited set, in order,
/// recording each result back into the set. Whatever the order, each cell
/// ends with its doors reconciled against the set as it stood when the
/// frontier drained.
#[verifier::loop_isolation(false)]
pub fn reconcile_all(rooms: &Vec<(Room, (i32, i32))>, visited: &mut Visited) -> (configs: Vec<
    (Room, (i32, i32)),
>)
    requires
        old(visited).0.wf(),
        placeholders_ok(rooms@, old(visited).0@),
        forall|i: int| 0 <= i < rooms@.len() ==> coord_ok((#[trigger] rooms@[i]).1),
    ensures
        final(visited).0.wf(),
        configs@.len() == rooms@.len(),
        forall|i: int|
            0 <= i < configs@.len() ==> (#[trigger] configs@[i]).1 == rooms@[i].1 && configs@[i].0.0
                == recon_doors(old(visited).0@, rooms@[i].0.0, key_of(rooms@[i].1)),
        forall|k: (int, int)| #[trigger]
            final(visited).0@.contains_key(k) <==> old(visited).0@.contains_key(k),
{
    let ghost m0 = old(visited).0@;
    let n = rooms.len();
    let mut configs: Vec<(Room, (i32, i32))> = Vec::new();
    let mut i: usize = 0;
    while i < n
        invariant
            0 <= i <= n,
            visited.0.wf(),
            forall|k: (int, int)| #[trigger] visited.0@.contains_key(k) <==> m0.contains_key(k),
            forall|k: (int, int)| #[trigger]
                visited.0@.contains_key(k) ==> visited.0@[k] == m0[k] || visited.0@[k]
                    == recon_doors(m0, m0[k], k),
            configs@.len() == i,
            forall|j: int|
                0 <= j < configs@.len() ==> (#[trigger] configs@[j]).1 == rooms@[j].1
                    && configs@[j].0.0 == recon_doors(m0, rooms@[j].0.0, key_of(rooms@[j].1)),
        decreases n - i,
    {
        let (room, c) = rooms[i];
        let r = reconcile_doors(room.0, c, visited);
        proof {
            assert(m0.contains_key(key_of(c)) && m0[key_of(c)] == room.0);
            lemma_recon_stable(m0, visited.0@, room.0, key_of(c));
        }
        visited.0.insert(c, r);
        configs.push((Room(r), c));
        i += 1;
    }
    configs
}

/// A record that equals one of the given reconciled placeholders.
pub open spec fn among(p: (Room, (i32, i32)), configs: Seq<(Room, (i32, i32))>) -> bool {
    exists|i: int| 0 <= i < configs.len() && p == #[trigger] configs[i]
}

proof fn lemma_among_push(configs: Seq<(Room, (i32, i32))>, e: (Room, (i32, i32)))
    ensures
        forall|q: (Room, (i32, i32))| #[trigger]
            among(q, configs) ==> among(q, configs.push(e)),
        among(e, configs.push(e)),
{
    assert forall|q: (Room, (i32, i32))| #[trigger] among(q, configs) implies among(
        q,
        configs.push(e),
    ) by {
        let i = choose|i: int| 0 <= i < configs.len() && q == #[trigger] configs[i];
        assert(q == configs.push(e)[i]);
    }
    assert(e == configs.push(e)[configs.len() as int]);
}

/// Resolve every reconciled placeholder to a concrete layout from the pool,
/// inserting each exact door match into the registry; placeholders whose
/// configuration no pooled layout matches are handed back for a later try.
#[verifier::loop_isolation(false)]
pub fn resolve_rooms(
    configs: &Vec<(Room, (i32, i32))>,
    room_list: &RoomList,
    map: &mut DungeonMap,
) -> (leftover: Vec<(Room, (i32, i32))>)
    requires
        room_list.wf(),
        old(map).wf(),
        forall|i: int, j: int|
            0 <= i < j < configs@.len() ==> key_of((#[trigger] configs@[i]).1) != key_of(
                (#[trigger] configs@[j]).1,
            ),
    ensures
        final(map).wf(),
        final(map).curr_room_pos == old(map).curr_room_pos,
        forall|k: (int, int)| #[trigger]
            final(map).rooms@.contains_key(k) <==> (old(map).rooms@.contains_key(k) || exists|
                i: int,
            |
                0 <= i < configs@.len() && key_of((#[trigger] configs@[i]).1) == k
                    && room_list.spec_has(configs@[i].0.0)),
        forall|k: (int, int)| #[trigger]
            final(map).rooms@.contains_key(k) && !old(map).rooms@.contains_key(k) ==> exists|j: int|
                0 <= j < room_list.0@.len() && final(map).rooms@[k]@ == (
                #[trigger] room_list.0@[j])@,
        forall|i: int|
            0 <= i < configs@.len() && room_list.spec_has((#[trigger] configs@[i]).0.0)
                ==> final(map).rooms@.contains_key(key_of(configs@[i].1)) && final(map).rooms@[
                key_of(configs@[i].1)
            ]@.doors == configs@[i].0.0,
        forall|j: int|
            0 <= j < leftover@.len() ==> !room_list.spec_has((#[trigger] leftover@[j]).0.0)
                && among(leftover@[j], configs@),
        forall|i: int|
            0 <= i < configs@.len() && !room_list.spec_has((#[trigger] configs@[i]).0.0)
                ==> among(configs@[i], leftover@),
{
    let n = configs.len();
    let mut leftover: Vec<(Room, (i32, i32))> = Vec::new();
    let mut i: usize = 0;
    while i < n
        invariant
            0 <= i <= n,
            map.wf(),
            map.curr_room_pos == old(map).curr_room_pos,
            forall|k: (int, int)| #[trigger]
                map.rooms@.contains_key(k) <==> (old(map).rooms@.contains_key(k) || exists|j: int|
                    0 <= j < i && key_of((#[trigger] configs@[j]).1) == k && room_list.spec_has(
                        configs@[j].0.0,
                    )),
            forall|k: (int, int)| #[trigger]
                map.rooms@.contains_key(k) && !old(map).rooms@.contains_key(k) ==> exists|j: int|
                    0 <= j < room_list.0@.len() && map.rooms@[k]@ == (#[trigger] room_list.0@[j])@,
            forall|j: int|
                0 <= j < i && room_list.spec_has((#[trigger] configs@[j]).0.0)
                    ==> map.rooms@.contains_key(key_of(configs@[j].1)) && map.rooms@[key_of(
                    configs@[j].1,
                )]@.doors == configs@[j].0.0,
            forall|j: int|
                0 <= j < leftover@.len() ==> !room_list.spec_has((#[trigger] leftover@[j]).0.0)
                    && among(leftover@[j], configs@),
            forall|j: int|
                0 <= j < i && !room_list.spec_has((#[trigger] configs@[j]).0.0) ==> among(
                    #[trigger] configs@[j],
                    leftover@,
                ),
        decreases n - i,
    {
        let (room, c) = configs[i];
        match RoomList::pick_room(room.0, room_list) {
            Some(layout) => {
                map.rooms.insert(c, layout);
            },
            None => {
                let ghost old_leftover = leftover@;
                leftover.push((room, c));
                proof {
                    lemma_among_push(old_leftover, (room, c));
                    assert(leftover@[leftover@.len() - 1] == configs@[i as int]);
                    assert(among(configs@[i as int], leftover@));
                }
            },
        }
        i += 1;
    }
    leftover
}

/// The magnitude of a coordinate component.
pub open spec fn abs_i32(x: i32) -> int {
    if x >= 0 {
        x as int
    } else {
        -(x as int)
    }
}

/// Generate a dungeon: seed one pending cell of the given depth at the
/// origin, expand the frontier until it drains (at most `depth` more
/// rounds), reconcile every cell's doors against its neighbours, and resolve
/// each cell from the pool. Placeholders no pooled layout matches are
/// returned unresolved. The resulting registry is door-consistent, and every
/// room in it is a pooled layout.
#[verifier::loop_isolation(false)]
pub fn generate(depth: u8, room_list: &RoomList) -> (r: (DungeonMap, Vec<(Room, (i32, i32))>))
    requires
        room_list.wf(),
    ensures
        r.0.wf(),
        r.0.curr_room_pos == (0i32, 0i32),
        door_consistent(r.0.rooms@),
        forall|k: (int, int)| #[trigger]
            r.0.rooms@.contains_key(k) ==> exists|j: int|
                0 <= j < room_list.0@.len() && r.0.rooms@[k]@ == (#[trigger] room_list.0@[j])@,
        r.0.rooms@.contains_key((0int, 0int)) || placeholder_at((0int, 0int), r.1@),
        forall|j: int| 0 <= j < r.1@.len() ==> !room_list.spec_has((#[trigger] r.1@[j]).0.0),
{
    let mut visited = Visited::new();
    let mut rooms: Vec<(Room, (i32, i32))> = Vec::new();
    let mut frontier: Vec<(Generator, (i32, i32))> = Vec::new();
    frontier.push((Generator(depth), (0i32, 0i32)));
    proof {
        assert(key_of(frontier@[0].1) == (0int, 0int));
        assert(frontier_covers((0int, 0int), frontier@));
    }
    let ghost mut d: int = depth as int + 1;
    while frontier.len() > 0
        invariant
            visited.0.wf(),
            placeholders_ok(rooms@, visited.0@),
            0 <= d <= depth as int + 1,
            frontier@.len() > 0 ==> d >= 1,
            forall|i: int|
                0 <= i < frontier@.len() ==> (#[trigger] frontier@[i]).0.0 <= d - 1 && abs_i32(
                    frontier@[i].1.0,
                ) + abs_i32(frontier@[i].1.1) + frontier@[i].0.0 <= depth as int,
            forall|i: int| 0 <= i < rooms@.len() ==> coord_ok((#[trigger] rooms@[i]).1),
            visited.0@.contains_key((0int, 0int)) || frontier_covers((0int, 0int), frontier@),
            forall|k: (int, int)| #[trigger]
                visited.0@.contains_key(k) ==> placeholder_at(k, rooms@),
        decreases d,
    {
        let ghost prev = frontier@;
        let ghost prev_rooms = rooms@;
        let ghost prev_visited = visited.0@;
        let ghost rooms_before = rooms@.len();
        proof {
            assert forall|i: int| 0 <= i < frontier@.len() implies coord_ok(
                (#[trigger] frontier@[i]).1,
            ) by {
                assert(abs_i32(frontier@[i].1.0) + abs_i32(frontier@[i].1.1) <= depth as int);
            }
        }
        let next = proc_generator(&frontier, &mut visited, &mut rooms);
        proof {
            assert forall|j: int| 0 <= j < next@.len() implies (#[trigger] next@[j]).0.0 <= d - 2
                && abs_i32(next@[j].1.0) + abs_i32(next@[j].1.1) + next@[j].0.0
                <= depth as int by {
                assert(spawned_from(next@[j], prev));
                let (g, dir): (int, CompassDir) = choose|g: int, dir: CompassDir|
                    #![trigger step_coord(key_of(prev[g].1), dir)]
                    0 <= g < prev.len() && is_cardinal(dir) && next@[j].0.0 + 1 == prev[g].0.0
                        && key_of(next@[j].1) == step_coord(key_of(prev[g].1), dir);
                assert(abs_i32(next@[j].1.0) + abs_i32(next@[j].1.1) <= abs_i32(prev[g].1.0)
                    + abs_i32(prev[g].1.1) + 1);
            }
            assert forall|i: int| rooms_before <= i < rooms@.len() implies coord_ok(
                (#[trigger] rooms@[i]).1,
            ) by {
                assert(placed_at(rooms@[i], prev));
                let g = choose|g: int| 0 <= g < prev.len() && rooms@[i].1 == (#[trigger] prev[g]).1;
                assert(abs_i32(prev[g].1.0) + abs_i32(prev[g].1.1) <= depth as int);
            }
            if next@.len() > 0 {
                assert(next@[0].0.0 <= d - 2);
                assert(d >= 2);
            }
            assert forall|k: (int, int)| #[trigger]
                visited.0@.contains_key(k) implies placeholder_at(k, rooms@) by {
                if prev_visited.contains_key(k) {
                    assert(placeholder_at(k, prev_rooms));
                    let i = choose|i: int|
                        0 <= i < prev_rooms.len() && key_of((#[trigger] prev_rooms[i]).1) == k;
                    assert(rooms@[i] == prev_rooms[i]);
                    assert(key_of(rooms@[i].1) == k);
                }
            }
            if !visited.0@.contains_key((0int, 0int)) {
                assert(!prev_visited.contains_key((0int, 0int)));
                assert(frontier_covers((0int, 0int), prev));
                let g = choose|g: int|
                    0 <= g < prev.len() && key_of((#[trigger] prev[g]).1) == (0int, 0int);
                assert(visited.0@.contains_key(key_of(prev[g].1)));
                assert(false);
            }
            d = if d > 0 {
                d - 1
            } else {
                0
            };
        }
        frontier = next;
    }
    let ghost m0 = visited.0@;
    let configs = reconcile_all(&rooms, &mut visited);
    proof {
        assert forall|i: int, j: int|
            0 <= i < j < configs@.len() implies key_of((#[trigger] configs@[i]).1) != key_of(
            (#[trigger] configs@[j]).1,
        ) by {
            assert(configs@[i].1 == rooms@[i].1 && configs@[j].1 == rooms@[j].1);
        }
    }
    let mut map = DungeonMap::new();
    let leftover = resolve_rooms(&configs, room_list, &mut map);
    proof {
        assert forall|c: (int, int)| #[trigger]
            map.rooms@.contains_key(c) implies m0.contains_key(c) && map.rooms@[c]@.doors
            == recon_doors(m0, m0[c], c) by {
            let i = choose|i: int|
                0 <= i < configs@.len() && key_of((#[trigger] configs@[i]).1) == c
                    && room_list.spec_has(configs@[i].0.0);
            assert(configs@[i].0.0 == recon_doors(m0, rooms@[i].0.0, key_of(rooms@[i].1)));
            assert(m0.contains_key(key_of(rooms@[i].1)) && m0[key_of(rooms@[i].1)]
                == rooms@[i].0.0);
        }
        lemma_reconciled_consistent(map.rooms@, m0);
        assert(!frontier_covers((0int, 0int), frontier@));
        assert(m0.contains_key((0int, 0int)));
        assert(placeholder_at((0int, 0int), rooms@));
        let i = choose|i: int| 0 <= i < rooms@.len() && key_of((#[trigger] rooms@[i]).1) == (0int, 0int);
        assert(key_of(configs@[i].1) == (0int, 0int));
        if room_list.spec_has(configs@[i].0.0) {
            assert(map.rooms@.contains_key((0int, 0int)));
        } else {
            assert(among(configs@[i], leftover@));
            let j = choose|j: int| 0 <= j < leftover@.len() && configs@[i] == #[trigger] leftover@[j];
            assert(key_of(leftover@[j].1) == (0int, 0int));
            assert(placeholder_at((0int, 0int), leftover@));
        }
        assert(map.rooms@.contains_key((0int, 0int)) || placeholder_at((0int, 0int), leftover@));
    }
    (map, leftover)
}

/// The registry is door-consistent: a room claiming an open door toward a
/// direction never has a neighbouring room there whose facing door is
/// closed.
pub open spec fn door_consistent(rooms: Map<(int, int), RoomLayout>) -> bool {
    forall|c: (int, int), d: CompassDir|
        #![trigger rooms[c], rooms[step_coord(c, d)]]
        rooms.contains_key(c) && is_cardinal(d) && quad_flag(rooms[c]@.doors, d)
            && rooms.contains_key(step_coord(c, d)) ==> quad_flag(
            rooms[step_coord(c, d)]@.doors,
            opposite(d),
        )
}

/// Once every registered room carries doors reconciled against one visited
/// set that covers the registry, adjacent rooms are never door-inconsistent:
/// an open door toward an existing neighbour is answered by the neighbour's
/// open facing door.
pub proof fn lemma_reconciled_consistent(
    rooms: Map<(int, int), RoomLayout>,
    m0: Map<(int, int), QuadCompass<bool>>,
)
    requires
        forall|c: (int, int)| #[trigger]
            rooms.contains_key(c) ==> m0.contains_key(c) && rooms[c]@.doors == recon_doors(
                m0,
                m0[c],
                c,
            ),
    ensures
        door_consistent(rooms),
{
    assert forall|c: (int, int), d: CompassDir|
        rooms.contains_key(c) && is_cardinal(d) && quad_flag(#[trigger] rooms[c]@.doors, d)
            && rooms.contains_key(#[trigger] step_coord(c, d)) implies quad_flag(
        rooms[step_coord(c, d)]@.doors,
        opposite(d),
    ) by {
        let n = step_coord(c, d);
        crate::compass::lemma_step_coord_roundtrip(c, d);
        assert(quad_flag(recon_doors(m0, m0[c], c), d) == recon_dir(m0, m0[c], c, d));
        assert(recon_dir(m0, m0[c], c, d));
        assert(quad_flag(recon_doors(m0, m0[n], n), opposite(d)) == recon_dir(
            m0,
            m0[n],
            n,
            opposite(d),
        ));
        assert(recon_dir(m0, m0[n], n, opposite(d)));
    }
}

} // verus!
