//! The room-asset text format and its parser.
//!
//! A room asset is an ASCII block: a header line naming the door directions
//! present (any subset of `N`, `E`, `S`, `W`, any order, duplicates ignored)
//! followed by one line per interior row, `.` for ground and `#` for wall.
//! The body is padded with a one-tile wall border on all four sides, and a
//! door tile is stamped onto the midpoint of each edge whose flag is set.

use vstd::prelude::*;

use crate::compass::{CompassDir, QuadCompass};
use crate::layout::{RoomLayout, RoomLayoutModel, TileType};
use crate::{HEIGHT, WIDTH};

verus! {

/// Why a room asset failed to parse. Each malformed input is reported as a
/// distinct kind, never recovered silently.
#[derive(Clone, Copy, Debug, PartialEq, Eq, Structural)]
pub enum RoomLayoutError {
    /// The input held a byte outside the ASCII range.
    Ascii,
    /// The header held a byte that is not one of `N`, `E`, `S`, `W`;
    /// the first such byte is reported.
    DoorDir(u8),
    /// A body line held a byte that is not `.` or `#`; the first such byte
    /// is reported.
    TileType(u8),
    /// A body line's length (reported unpadded) did not give the configured
    /// width after padding.
    Width(usize),
    /// The body's line count (reported unpadded) did not give the configured
    /// height after padding.
    Height(usize),
}

/// The byte sequences behind a vector of byte vectors.
pub open spec fn byte_views(v: Seq<Vec<u8>>) -> Seq<Seq<u8>> {
    v.map_values(|l: Vec<u8>| l@)
}

/// The tile sequences behind a vector of tile vectors.
pub open spec fn row_views(v: Seq<Vec<TileType>>) -> Seq<Seq<TileType>> {
    v.map_values(|r: Vec<TileType>| r@)
}

/// The input split at newline bytes, exactly as `str::lines` splits a string
/// without carriage returns: a trailing newline closes the last line rather
/// than opening an empty one.
pub open spec fn split_lines(s: Seq<u8>) -> Seq<Seq<u8>>
    decreases s.len(),
{
    if s.len() == 0 {
        Seq::empty()
    } else if s[0] == 10 {
        seq![Seq::<u8>::empty()].add(split_lines(s.drop_first()))
    } else {
        let rest = split_lines(s.drop_first());
        if rest.len() == 0 {
            seq![seq![s[0]]]
        } else {
            rest.update(0, seq![s[0]].add(rest[0]))
        }
    }
}

/// `split_lines` with `c` already read as the opening of the first line.
spec fn with_prefix(c: Seq<u8>, r: Seq<Seq<u8>>) -> Seq<Seq<u8>> {
    if r.len() == 0 {
        if c.len() == 0 {
            Seq::empty()
        } else {
            seq![c]
        }
    } else {
        r.update(0, c.add(r[0]))
    }
}

proof fn lemma_split_unfold(s: Seq<u8>, i: int)
    requires
        0 <= i < s.len(),
    ensures
        s[i] == 10 ==> split_lines(s.skip(i)) == seq![Seq::<u8>::empty()].add(
            split_lines(s.skip(i + 1)),
        ),
        s[i] != 10 ==> split_lines(s.skip(i)) == ({
            let rest = split_lines(s.skip(i + 1));
            if rest.len() == 0 {
                seq![seq![s[i]]]
            } else {
                rest.update(0, seq![s[i]].add(rest[0]))
            }
        }),
{
    let t = s.skip(i);
    assert(t[0] == s[i]);
    assert(t.drop_first() =~= s.skip(i + 1));
}

/// A prefix read into no line yet changes nothing once it is empty.
proof fn lemma_with_prefix_nil(r: Seq<Seq<u8>>)
    ensures
        with_prefix(Seq::<u8>::empty(), r) == r,
{
    if r.len() == 0 {
        assert(with_prefix(Seq::<u8>::empty(), r) =~= r);
    } else {
        assert(Seq::<u8>::empty().add(r[0]) =~= r[0]);
        assert(with_prefix(Seq::<u8>::empty(), r) =~= r);
    }
}

/// Split a byte vector into its lines.
fn split_lines_exec(bytes: &Vec<u8>) -> (r: Vec<Vec<u8>>)
    ensures
        byte_views(r@) == split_lines(bytes@),
{
    let n = bytes.len();
    let mut out: Vec<Vec<u8>> = Vec::new();
    let mut cur: Vec<u8> = Vec::new();
    let mut i: usize = 0;
    proof {
        assert(bytes@.skip(0) =~= bytes@);
        lemma_with_prefix_nil(split_lines(bytes@));
        assert(byte_views(out@).add(with_prefix(cur@, split_lines(bytes@))) =~= split_lines(
            bytes@,
        ));
    }
    while i < n
        invariant
            n == bytes@.len(),
            0 <= i <= n,
            split_lines(bytes@) == byte_views(out@).add(
                with_prefix(cur@, split_lines(bytes@.skip(i as int))),
            ),
        decreases n - i,
    {
        proof {
            lemma_split_unfold(bytes@, i as int);
        }
        let ghost old_out = out@;
        let ghost old_cur = cur@;
        let ghost rest = split_lines(bytes@.skip(i as int + 1));
        let b = bytes[i];
        if b == 10 {
            out.push(cur);
            cur = Vec::new();
            proof {
                lemma_with_prefix_nil(rest);
                assert(byte_views(out@) =~= byte_views(old_out).push(old_cur));
                assert(byte_views(old_out).add(
                    with_prefix(old_cur, seq![Seq::<u8>::empty()].add(rest)),
                ) =~~= byte_views(out@).add(with_prefix(cur@, rest)));
            }
        } else {
            cur.push(b);
            proof {
                if rest.len() == 0 {
                    assert(with_prefix(old_cur, seq![seq![b]]) =~~= with_prefix(cur@, rest));
                } else {
                    assert(with_prefix(old_cur, rest.update(0, seq![b].add(rest[0])))
                        =~~= with_prefix(cur@, rest));
                }
            }
        }
        i += 1;
    }
    proof {
        assert(bytes@.skip(n as int) =~= Seq::<u8>::empty());
    }
    if cur.len() > 0 {
        let ghost old_out = out@;
        let ghost old_cur = cur@;
        out.push(cur);
        proof {
            assert(with_prefix(old_cur, split_lines(bytes@.skip(n as int))) =~= seq![old_cur]);
            assert(byte_views(out@) =~= byte_views(old_out).add(seq![old_cur]));
        }
    } else {
        proof {
            assert(with_prefix(cur@, split_lines(bytes@.skip(n as int)))
                =~= Seq::<Seq<u8>>::empty());
            assert(byte_views(out@).add(Seq::<Seq<u8>>::empty()) =~= byte_views(out@));
        }
    }
    out
}

/// Every byte is ASCII.
pub open spec fn all_ascii(s: Seq<u8>) -> bool {
    forall|i: int| 0 <= i < s.len() ==> s[i] < 128
}

/// The door record with the flag for one header byte set.
pub open spec fn set_door(q: QuadCompass<bool>, b: u8) -> QuadCompass<bool> {
    if b == 78 {
        QuadCompass { north: true, ..q }
    } else if b == 69 {
        QuadCompass { east: true, ..q }
    } else if b == 83 {
        QuadCompass { south: true, ..q }
    } else {
        QuadCompass { west: true, ..q }
    }
}

/// Whether a header byte names a door direction.
pub open spec fn is_door_byte(b: u8) -> bool {
    b == 78 || b == 69 || b == 83 || b == 87
}

/// Read the header left to right, accumulating door flags into `q`; the
/// first byte that names no direction is the error.
pub open spec fn parse_header_from(h: Seq<u8>, q: QuadCompass<bool>) -> Result<
    QuadCompass<bool>,
    u8,
>
    decreases h.len(),
{
    if h.len() == 0 {
        Ok(q)
    } else if is_door_byte(h[0]) {
        parse_header_from(h.drop_first(), set_door(q, h[0]))
    } else {
        Err(h[0])
    }
}

/// Read one body line left to right, accumulating tiles into `acc`; the
/// first byte that is neither `.` nor `#` is the error.
pub open spec fn parse_row_from(l: Seq<u8>, acc: Seq<TileType>) -> Result<Seq<TileType>, u8>
    decreases l.len(),
{
    if l.len() == 0 {
        Ok(acc)
    } else if l[0] == 46 {
        parse_row_from(l.drop_first(), acc.push(TileType::Ground))
    } else if l[0] == 35 {
        parse_row_from(l.drop_first(), acc.push(TileType::Wall))
    } else {
        Err(l[0])
    }
}

/// Read the body lines in order, accumulating parsed rows into `acc`. In
/// each line a bad tile byte is found first; then the line's length must be
/// the interior width `w - 2`.
pub open spec fn parse_rows_from(
    lines: Seq<Seq<u8>>,
    acc: Seq<Seq<TileType>>,
    w: int,
) -> Result<Seq<Seq<TileType>>, RoomLayoutError>
    decreases lines.len(),
{
    if lines.len() == 0 {
        Ok(acc)
    } else {
        match parse_row_from(lines[0], Seq::empty()) {
            Err(b) => Err(RoomLayoutError::TileType(b)),
            Ok(row) => if row.len() != w - 2 {
                Err(RoomLayoutError::Width(lines[0].len() as usize))
            } else {
                parse_rows_from(lines.drop_first(), acc.push(row), w)
            },
        }
    }
}

/// The grid column a north or south door sits in.
pub open spec fn door_col(w: int) -> int {
    (w - 1) / 2
}

/// The grid row an east or west door sits in.
pub open spec fn door_row(h: int) -> int {
    (h - 1) / 2
}

/// The tile at `(x, y)` of the padded, door-stamped grid: a flagged door
/// midpoint is a door facing its edge, the rest of the border is wall, and
/// the interior comes from the parsed body. Where midpoints of two flagged
/// edges coincide (only possible in degenerate sizes), west wins over south,
/// south over east, east over north, as stamping the edges in the order
/// north, east, south, west leaves it.
pub open spec fn stamped_tile(
    doors: QuadCompass<bool>,
    rows: Seq<Seq<TileType>>,
    x: int,
    y: int,
    w: int,
    h: int,
) -> TileType {
    if doors.west && x == 0 && y == door_row(h) {
        TileType::Door(CompassDir::West)
    } else if doors.south && y == h - 1 && x == door_col(w) {
        TileType::Door(CompassDir::South)
    } else if doors.east && x == w - 1 && y == door_row(h) {
        TileType::Door(CompassDir::East)
    } else if doors.north && y == 0 && x == door_col(w) {
        TileType::Door(CompassDir::North)
    } else if x == 0 || y == 0 || x == w - 1 || y == h - 1 {
        TileType::Wall
    } else {
        rows[y - 1][x - 1]
    }
}

/// The padded, door-stamped grid as a whole.
pub open spec fn stamped_grid(
    doors: QuadCompass<bool>,
    rows: Seq<Seq<TileType>>,
    w: int,
    h: int,
) -> Seq<Seq<TileType>> {
    Seq::new(h as nat, |y: int| Seq::new(w as nat, |x: int| stamped_tile(doors, rows, x, y, w, h)))
}

/// What parsing a room asset yields for a `w` x `h` room: the layout, or the
/// first error in the order the input is read (character set, then the
/// header, then each body line's bytes and length, then the body's height).
pub open spec fn spec_load(s: Seq<u8>, w: int, h: int) -> Result<
    RoomLayoutModel,
    RoomLayoutError,
> {
    if !all_ascii(s) {
        Err(RoomLayoutError::Ascii)
    } else {
        let lines = split_lines(s);
        let header = if lines.len() == 0 {
            Seq::<u8>::empty()
        } else {
            lines[0]
        };
        let body = if lines.len() == 0 {
            Seq::<Seq<u8>>::empty()
        } else {
            lines.drop_first()
        };
        match parse_header_from(
            header,
            QuadCompass { north: false, east: false, south: false, west: false },
        ) {
            Err(b) => Err(RoomLayoutError::DoorDir(b)),
            Ok(doors) => match parse_rows_from(body, Seq::empty(), w) {
                Err(e) => Err(e),
                Ok(rows) => if body.len() != h - 2 {
                    Err(RoomLayoutError::Height(body.len() as usize))
                } else {
                    Ok(
                        RoomLayoutModel {
                            doors,
                            width: w,
                            height: h,
                            grid: stamped_grid(doors, rows, w, h),
                        },
                    )
                },
            },
        }
    }
}

/// Loader for room assets, configured with the engine-wide room size.
pub struct RoomLayoutLoader {
    /// Full room width, border included.
    pub width: usize,
    /// Full room height, border included.
    pub height: usize,
}

impl Default for RoomLayoutLoader {
    /// The loader for the engine's fixed room size.
    fn default() -> (r: Self)
        ensures
            r.width == WIDTH as usize,
            r.height == HEIGHT as usize,
    {
        RoomLayoutLoader { width: WIDTH as usize, height: HEIGHT as usize }
    }
}

impl RoomLayoutLoader {
    /// A usable room size: at least the border on each axis.
    pub open spec fn wf(self) -> bool {
        2 <= self.width && 2 <= self.height
    }

    /// A loader for rooms of the given full size, border included.
    pub fn new(width: usize, height: usize) -> (r: Self)
        requires
            2 <= width,
            2 <= height,
        ensures
            r.width == width,
            r.height == height,
            r.wf(),
    {
        RoomLayoutLoader { width, height }
    }

    /// One cell of the final grid, mirroring `stamped_tile`.
    fn tile_for(
        doors: QuadCompass<bool>,
        rows: &Vec<Vec<TileType>>,
        x: usize,
        y: usize,
        w: usize,
        h: usize,
    ) -> (t: TileType)
        requires
            2 <= w,
            2 <= h,
            x < w,
            y < h,
            rows@.len() == h - 2,
            forall|j: int| 0 <= j < rows@.len() ==> (#[trigger] rows@[j])@.len() == w - 2,
        ensures
            t == stamped_tile(doors, row_views(rows@), x as int, y as int, w as int, h as int),
    {
        let hm = (w - 1) / 2;
        let vm = (h - 1) / 2;
        if doors.west && x == 0 && y == vm {
            TileType::Door(CompassDir::West)
        } else if doors.south && y == h - 1 && x == hm {
            TileType::Door(CompassDir::South)
        } else if doors.east && x == w - 1 && y == vm {
            TileType::Door(CompassDir::East)
        } else if doors.north && y == 0 && x == hm {
            TileType::Door(CompassDir::North)
        } else if x == 0 || y == 0 || x == w - 1 || y == h - 1 {
            TileType::Wall
        } else {
            rows[y - 1][x - 1]
        }
    }

    /// Parse a room asset into a layout of the configured size, or report
    /// the first malformed element found.
    #[verifier::loop_isolation(false)]
    pub fn load(&self, bytes: &Vec<u8>) -> (r: Result<RoomLayout, RoomLayoutError>)
        requires
            self.wf(),
        ensures
            match r {
                Ok(room) => {
                    &&& spec_load(bytes@, self.width as int, self.height as int)
                        == Ok::<RoomLayoutModel, RoomLayoutError>(room@)
                    &&& room@.wf()
                    &&& room.width == self.width
                    &&& room.height == self.height
                },
                Err(e) => spec_load(bytes@, self.width as int, self.height as int)
                    == Err::<RoomLayoutModel, RoomLayoutError>(e),
            },
    {
        let n = bytes.len();
        let mut i: usize = 0;
        while i < n
            invariant
                n == bytes@.len(),
                0 <= i <= n,
                forall|j: int| 0 <= j < i ==> bytes@[j] < 128,
            decreases n - i,
        {
            if bytes[i] >= 128 {
                return Err(RoomLayoutError::Ascii);
            }
            i += 1;
        }
        assert(all_ascii(bytes@));

        let lines = split_lines_exec(bytes);
        let ghost lines_spec = split_lines(bytes@);
        let ghost header = if lines_spec.len() == 0 {
            Seq::<u8>::empty()
        } else {
            lines_spec[0]
        };
        let ghost body = if lines_spec.len() == 0 {
            Seq::<Seq<u8>>::empty()
        } else {
            lines_spec.drop_first()
        };
        let ghost q0 = QuadCompass { north: false, east: false, south: false, west: false };

        let mut doors = QuadCompass::all_false();
        if lines.len() > 0 {
            let line = &lines[0];
            proof {
                assert(line@ == byte_views(lines@)[0]);
                assert(header.skip(0) =~= header);
            }
            let ln = line.len();
            let mut j: usize = 0;
            while j < ln
                invariant
                    ln == line@.len(),
                    line@ == header,
                    0 <= j <= ln,
                    parse_header_from(header, q0) == parse_header_from(
                        header.skip(j as int),
                        doors,
                    ),
                decreases ln - j,
            {
                let b = line[j];
                proof {
                    assert(header.skip(j as int)[0] == header[j as int]);
                    assert(header.skip(j as int).drop_first() =~= header.skip(j as int + 1));
                }
                if b == 78 || b == 69 || b == 83 || b == 87 {
                    doors = QuadCompass {
                        north: doors.north || b == 78,
                        east: doors.east || b == 69,
                        south: doors.south || b == 83,
                        west: doors.west || b == 87,
                    };
                } else {
                    proof {
                        assert(parse_header_from(header, q0) == Err::<QuadCompass<bool>, u8>(b));
                        assert(lines_spec.len() == lines@.len());
                        assert(spec_load(bytes@, self.width as int, self.height as int)
                            == Err::<RoomLayoutModel, RoomLayoutError>(RoomLayoutError::DoorDir(b)));
                    }
                    return Err(RoomLayoutError::DoorDir(b));
                }
                j += 1;
            }
            proof {
                assert(header.skip(ln as int) =~= Seq::<u8>::empty());
            }
        }
        assert(parse_header_from(header, q0) == Ok::<QuadCompass<bool>, u8>(doors));

        let mut rows: Vec<Vec<TileType>> = Vec::new();
        let nl = lines.len();
        let mut li: usize = 1;
        proof {
            assert(row_views(rows@) =~= Seq::<Seq<TileType>>::empty());
            if nl > 0 {
                assert(body.skip(0) =~= body);
            } else {
                assert(body =~= Seq::<Seq<u8>>::empty());
            }
        }
        while li < nl
            invariant
                nl == lines@.len(),
                1 <= li <= nl || (nl == 0 && li == 1),
                byte_views(lines@) == lines_spec,
                header == (if lines_spec.len() == 0 { Seq::<u8>::empty() } else { lines_spec[0] }),
                body == (if lines_spec.len() == 0 {
                    Seq::<Seq<u8>>::empty()
                } else {
                    lines_spec.drop_first()
                }),
                self.wf(),
                rows@.len() == li - 1 || (nl == 0 && rows@.len() == 0),
                forall|j: int| 0 <= j < rows@.len() ==> (#[trigger] rows@[j])@.len() == self.width
                    - 2,
                parse_rows_from(body, Seq::empty(), self.width as int) == parse_rows_from(
                    if nl == 0 { Seq::<Seq<u8>>::empty() } else { body.skip(li - 1) },
                    row_views(rows@),
                    self.width as int,
                ),
            decreases nl - li,
        {
            let line = &lines[li];
            let ghost lspec = body[li - 1];
            proof {
                assert(line@ == byte_views(lines@)[li as int]);
                assert(lines_spec[li as int] == lspec);
                assert(body.skip(li - 1)[0] == lspec);
                assert(lspec.skip(0) =~= lspec);
            }
            let ln = line.len();
            let mut row: Vec<TileType> = Vec::new();
            let mut j: usize = 0;
            while j < ln
                invariant
                    ln == line@.len(),
                    line@ == lspec,
                    0 <= j <= ln,
                    parse_row_from(lspec, Seq::empty()) == parse_row_from(
                        lspec.skip(j as int),
                        row@,
                    ),
                    row@.len() == j,
                decreases ln - j,
            {
                let b = line[j];
                proof {
                    assert(lspec.skip(j as int)[0] == lspec[j as int]);
                    assert(lspec.skip(j as int).drop_first() =~= lspec.skip(j as int + 1));
                }
                if b == 46 {
                    row.push(TileType::Ground);
                } else if b == 35 {
                    row.push(TileType::Wall);
                } else {
                    proof {
                        assert(parse_row_from(lspec, Seq::empty()) == Err::<Seq<TileType>, u8>(b));
                        assert(lines_spec.len() == lines@.len());
                        assert(body.skip(li - 1).len() > 0);
                        assert(body.skip(li - 1)[0] == lspec);
                        assert(parse_rows_from(body.skip(li - 1), row_views(rows@), self.width as int)
                            == Err::<Seq<Seq<TileType>>, RoomLayoutError>(
                            RoomLayoutError::TileType(b),
                        ));
                        assert(spec_load(bytes@, self.width as int, self.height as int)
                            == Err::<RoomLayoutModel, RoomLayoutError>(RoomLayoutError::TileType(b)));
                    }
                    return Err(RoomLayoutError::TileType(b));
                }
                j += 1;
            }
            proof {
                assert(lspec.skip(ln as int) =~= Seq::<u8>::empty());
                assert(parse_row_from(lspec, Seq::empty()) == Ok::<Seq<TileType>, u8>(row@));
            }
            if row.len() != self.width - 2 {
                proof {
                    assert(lines_spec.len() == lines@.len());
                    assert(body.skip(li - 1).len() > 0);
                    assert(parse_rows_from(body.skip(li - 1), row_views(rows@), self.width as int)
                        == Err::<Seq<Seq<TileType>>, RoomLayoutError>(
                        RoomLayoutError::Width(lspec.len() as usize),
                    ));
                    assert(spec_load(bytes@, self.width as int, self.height as int)
                        == Err::<RoomLayoutModel, RoomLayoutError>(
                        RoomLayoutError::Width(lspec.len() as usize),
                    ));
                }
                return Err(RoomLayoutError::Width(line.len()));
            }
            let ghost old_rows = rows@;
            rows.push(row);
            proof {
                assert(row_views(rows@) =~= row_views(old_rows).push(row@));
                assert(body.skip(li - 1).drop_first() =~= body.skip(li as int));
            }
            li += 1;
        }
        proof {
            if nl == 0 {
                assert(body =~= Seq::<Seq<u8>>::empty());
            } else {
                assert(body.skip(li - 1) =~= Seq::<Seq<u8>>::empty());
            }
        }
        let ghost rows_spec = row_views(rows@);
        assert(parse_rows_from(body, Seq::empty(), self.width as int)
            == Ok::<Seq<Seq<TileType>>, RoomLayoutError>(rows_spec));
        assert(body.len() == rows@.len());

        if rows.len() != self.height - 2 {
            return Err(RoomLayoutError::Height(rows.len()));
        }
        assert(body.len() == self.height - 2);

        let w = self.width;
        let h = self.height;
        let mut grid: Vec<Vec<TileType>> = Vec::new();
        let mut y: usize = 0;
        while y < h
            invariant
                2 <= w,
                2 <= h,
                rows@.len() == h - 2,
                forall|j: int| 0 <= j < rows@.len() ==> (#[trigger] rows@[j])@.len() == w - 2,
                rows_spec == row_views(rows@),
                0 <= y <= h,
                grid@.len() == y,
                forall|yy: int|
                    0 <= yy < y ==> (#[trigger] grid@[yy])@ == stamped_grid(
                        doors,
                        rows_spec,
                        w as int,
                        h as int,
                    )[yy],
            decreases h - y,
        {
            let mut grow: Vec<TileType> = Vec::new();
            let mut x: usize = 0;
            while x < w
                invariant
                    2 <= w,
                    2 <= h,
                    y < h,
                    rows@.len() == h - 2,
                    forall|j: int| 0 <= j < rows@.len() ==> (#[trigger] rows@[j])@.len() == w - 2,
                    rows_spec == row_views(rows@),
                    0 <= x <= w,
                    grow@.len() == x,
                    forall|xx: int|
                        0 <= xx < x ==> grow@[xx] == stamped_tile(
                            doors,
                            rows_spec,
                            xx,
                            y as int,
                            w as int,
                            h as int,
                        ),
                decreases w - x,
            {
                grow.push(Self::tile_for(doors, &rows, x, y, w, h));
                x += 1;
            }
            proof {
                assert(grow@ =~= stamped_grid(doors, rows_spec, w as int, h as int)[y as int]);
            }
            grid.push(grow);
            y += 1;
        }

        let room = RoomLayout { doors, width: w, height: h, layout: grid };
        proof {
            assert(room@.grid =~= stamped_grid(doors, rows_spec, w as int, h as int));
            assert(room@.wf());
        }
        Ok(room)
    }
}

/// For a parsed layout, every border-edge midpoint holds a door facing its
/// edge exactly when the corresponding door flag is set, and every other
/// border tile is wall.
pub proof fn lemma_parsed_border_tiles(s: Seq<u8>, w: int, h: int, m: RoomLayoutModel)
    requires
        3 <= w,
        3 <= h,
        spec_load(s, w, h) == Ok::<RoomLayoutModel, RoomLayoutError>(m),
    ensures
        m.grid[0][door_col(w)] == (if m.doors.north {
            TileType::Door(CompassDir::North)
        } else {
            TileType::Wall
        }),
        m.grid[door_row(h)][w - 1] == (if m.doors.east {
            TileType::Door(CompassDir::East)
        } else {
            TileType::Wall
        }),
        m.grid[h - 1][door_col(w)] == (if m.doors.south {
            TileType::Door(CompassDir::South)
        } else {
            TileType::Wall
        }),
        m.grid[door_row(h)][0] == (if m.doors.west {
            TileType::Door(CompassDir::West)
        } else {
            TileType::Wall
        }),
        forall|x: int, y: int|
            (0 <= x < w && 0 <= y < h && (x == 0 || y == 0 || x == w - 1 || y == h - 1)
                && !(y == 0 && x == door_col(w)) && !(y == h - 1 && x == door_col(w)) && !(x == 0
                && y == door_row(h)) && !(x == w - 1 && y == door_row(h)))
                ==> m.grid[y][x] == TileType::Wall,
{
    lemma_loaded_grid(s, w, h, m);
    assert(1 <= door_col(w) < w - 1);
    assert(1 <= door_row(h) < h - 1);
    assert forall|x: int, y: int|
        (0 <= x < w && 0 <= y < h && (x == 0 || y == 0 || x == w - 1 || y == h - 1) && !(y == 0
            && x == door_col(w)) && !(y == h - 1 && x == door_col(w)) && !(x == 0 && y == door_row(
            h,
        )) && !(x == w - 1 && y == door_row(h))) implies m.grid[y][x] == TileType::Wall by {
        assert(m.grid[y][x] == stamped_tile(m.doors, loaded_rows(s, w), x, y, w, h));
    }
}

/// The parsed body rows behind a successful load; used only to name them.
spec fn loaded_rows(s: Seq<u8>, w: int) -> Seq<Seq<TileType>> {
    let lines = split_lines(s);
    let body = if lines.len() == 0 {
        Seq::<Seq<u8>>::empty()
    } else {
        lines.drop_first()
    };
    match parse_rows_from(body, Seq::empty(), w) {
        Ok(rows) => rows,
        Err(_) => Seq::empty(),
    }
}

proof fn lemma_loaded_grid(s: Seq<u8>, w: int, h: int, m: RoomLayoutModel)
    requires
        spec_load(s, w, h) == Ok::<RoomLayoutModel, RoomLayoutError>(m),
    ensures
        m.grid == stamped_grid(m.doors, loaded_rows(s, w), w, h),
        m.width == w,
        m.height == h,
{
}

/// Parsing the same asset text twice yields structurally identical layouts.
pub proof fn lemma_parse_idempotent(
    s: Seq<u8>,
    w: int,
    h: int,
    m1: RoomLayoutModel,
    m2: RoomLayoutModel,
)
    requires
        spec_load(s, w, h) == Ok::<RoomLayoutModel, RoomLayoutError>(m1),
        spec_load(s, w, h) == Ok::<RoomLayoutModel, RoomLayoutError>(m2),
    ensures
        m1 == m2,
{
}

} // verus!
