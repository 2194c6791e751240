//! Border blending: decoding a chunk's packed height table, averaging its
//! border, and laying the averages out by direction.

use vstd::prelude::*;
use crate::coord::Coord;

verus! {

/// Number of 9-bit height fields packed into one 64-bit word.
pub const FIELDS_PER_WORD: usize = 7;

/// Number of columns along each side of a chunk.
pub const CHUNK_WIDTH: usize = 16;

/// The bias subtracted from each stored height.
pub const HEIGHT_BIAS: i16 = 64;

/// The lowest vertical section that blending covers.
pub const MIN_SECTION: i32 = -4;

/// The highest vertical section that blending covers.
pub const MAX_SECTION: i32 = 20;

/// `x & mask`, narrowed to the type of the mask, which it always fits.
pub fn bitand(x: u64, mask: u16) -> (r: u16)
    ensures
        r as u64 == x & (mask as u64),
        r <= mask,
{
    let wide = x & (mask as u64);
    assert(wide <= mask as u64) by (bit_vector)
        requires
            wide == x & (mask as u64),
    ;
    wide as u16
}

/// Field `k` of a packed height table: field `k % 7` (from the least
/// significant end, 9 bits each) of word `k / 7`, the word read as unsigned.
pub open spec fn packed_field(data: Seq<i64>, k: int) -> int {
    let word = data[k / 7] as u64;
    let shift = (9 * (k % 7)) as u64;
    ((word >> shift) & 0x1ffu64) as int
}

/// Why a height table could not be read.
#[derive(Copy, Clone, Debug, PartialEq, Eq, Structural)]
pub enum HeightmapError {
    /// The chunk has no height table of the expected kind.
    Missing,
    /// The table holds fewer than 256 values.
    TooShort,
}

/// The 16 by 16 heights of a packed table: the first 256 fields, row after
/// row, each less the bias of 64.
pub open spec fn decoded_height(data: Seq<i64>, row: int, col: int) -> int {
    packed_field(data, 16 * row + col) - 64
}

/// Decodes a packed height table: seven 9-bit values per word, 256 values
/// row after row, each less the bias; fails where fewer than 256 values are
/// present.
pub fn decode_heightmap(data: &Vec<i64>) -> (r: Result<[[i16; 16]; 16], HeightmapError>)
    ensures
        r is Ok <==> data@.len() * 7 >= 256,
        r matches Err(e) ==> e == HeightmapError::TooShort,
        r matches Ok(h) ==> forall|row: int, col: int|
            0 <= row < 16 && 0 <= col < 16 ==> #[trigger] h[row][col] == decoded_height(data@, row, col),
{
    if data.len() < 37 {
        return Err(HeightmapError::TooShort);
    }
    let mut table: [[i16; 16]; 16] = [[0i16; 16]; 16];
    let mut row: usize = 0;
    while row < CHUNK_WIDTH
        invariant
            row <= 16,
            data@.len() >= 37,
            forall|r: int, c: int|
                0 <= r < row && 0 <= c < 16 ==> #[trigger] table[r][c] == decoded_height(data@, r, c),
        decreases 16 - row,
    {
        let mut line: [i16; 16] = [0i16; 16];
        let mut col: usize = 0;
        while col < CHUNK_WIDTH
            invariant
                row < 16,
                col <= 16,
                data@.len() >= 37,
                forall|c: int| 0 <= c < col ==> #[trigger] line[c] == decoded_height(data@, row as int, c),
            decreases 16 - col,
        {
            let k: usize = row * CHUNK_WIDTH + col;
            #[verifier::truncate]
            let word: u64 = data[k / FIELDS_PER_WORD] as u64;
            let shift: u64 = ((k % FIELDS_PER_WORD) * 9) as u64;
            let field = bitand(word >> shift, 0x1ff);
            line[col] = field as i16 - HEIGHT_BIAS;
            col += 1;
        }
        table[row] = line;
        row += 1;
    }
    Ok(table)
}

/// A table in which every 9-bit field of every word is `0x1ff` decodes to
/// 511 - 64 = 447 in every cell.
pub proof fn lemma_full_fields_decode(data: Seq<i64>)
    requires
        data.len() * 7 >= 256,
        forall|i: int|
            0 <= i < data.len() ==> (#[trigger] data[i] as u64) & 0x7fff_ffff_ffff_ffffu64
                == 0x7fff_ffff_ffff_ffffu64,
    ensures
        forall|row: int, col: int|
            0 <= row < 16 && 0 <= col < 16 ==> #[trigger] decoded_height(data, row, col) == 447,
{
    assert forall|row: int, col: int| 0 <= row < 16 && 0 <= col < 16 implies #[trigger] decoded_height(
        data,
        row,
        col,
    ) == 447 by {
        let k = 16 * row + col;
        let word = data[k / 7] as u64;
        let shift = (9 * (k % 7)) as u64;
        assert(word & 0x7fff_ffff_ffff_ffffu64 == 0x7fff_ffff_ffff_ffffu64);
        assert(shift <= 54);
        assert((word >> shift) & 0x1ffu64 == 0x1ffu64) by (bit_vector)
            requires
                word & 0x7fff_ffff_ffff_ffffu64 == 0x7fff_ffff_ffff_ffffu64,
                shift <= 54,
        ;
    }
}

/// Cell `i` of border run `run` of a height grid given by `cell(row, col)`,
/// the runs winding counter-clockwise from the top-right corner: the top row
/// from right to left, the left column from top to bottom, the right column
/// from bottom to top, and the bottom row from left to right.
pub open spec fn border_cell(cell: spec_fn(int, int) -> int, run: int, i: int) -> int {
    if run == 0 {
        cell(0, 15 - i)
    } else if run == 1 {
        cell(i, 0)
    } else if run == 2 {
        cell(15 - i, 15)
    } else {
        cell(15, i)
    }
}

/// Border average `k` of a height grid: the floor of the mean of four
/// consecutive cells, group `k % 4` of run `k / 4`.
pub open spec fn border_average(cell: spec_fn(int, int) -> int, k: int) -> int {
    let run = k / 4;
    let g = 4 * (k % 4);
    (border_cell(cell, run, g) + border_cell(cell, run, g + 1) + border_cell(cell, run, g + 2)
        + border_cell(cell, run, g + 3)) / 4
}

/// The cells of a height grid.
pub open spec fn grid_cell(h: [[i16; 16]; 16]) -> spec_fn(int, int) -> int {
    |row: int, col: int| h[row][col] as int
}

/// The cells that a packed height table decodes to.
pub open spec fn table_cell(data: Seq<i64>) -> spec_fn(int, int) -> int {
    |row: int, col: int| decoded_height(data, row, col)
}

/// The 16 border averages of the grid that a packed height table decodes to.
pub open spec fn table_averages(data: Seq<i64>) -> Seq<i32> {
    Seq::new(16, |k: int| border_average(table_cell(data), k) as i32)
}

proof fn lemma_shr2_is_floor_div(v: i32)
    ensures
        (v >> 2i32) as int == v as int / 4,
{
    assert((v >> 2i32) as int == v as int / 4) by (bit_vector);
}

fn border_cell_exec(h: &[[i16; 16]; 16], run: usize, i: usize) -> (r: i16)
    requires
        run < 4,
        i < 16,
    ensures
        r as int == border_cell(grid_cell(*h), run as int, i as int),
{
    if run == 0 {
        h[0][15 - i]
    } else if run == 1 {
        h[i][0]
    } else if run == 2 {
        h[15 - i][15]
    } else {
        h[15][i]
    }
}

/// The 16 border averages of a height grid, before any offset: four per run
/// of the counter-clockwise border walk, each the floor of the mean of four
/// consecutive cells.
///
/// ```text
///        3 2 1 0
///      4         f
///      5         e
///      6         d
///      7         c
///        8 9 a b
/// ```
pub fn calculate_blending_heights(heightmap: &[[i16; 16]; 16]) -> (r: [i32; 16])
    ensures
        forall|k: int| 0 <= k < 16 ==> #[trigger] r[k] as int == border_average(grid_cell(*heightmap), k),
{
    let mut out: [i32; 16] = [0i32; 16];
    let mut k: usize = 0;
    while k < 16
        invariant
            k <= 16,
            forall|j: int| 0 <= j < k ==> #[trigger] out[j] as int == border_average(grid_cell(*heightmap), j),
        decreases 16 - k,
    {
        let run = k / 4;
        let g = 4 * (k % 4);
        let sum: i32 = border_cell_exec(heightmap, run, g) as i32 + border_cell_exec(heightmap, run, g + 1) as i32
            + border_cell_exec(heightmap, run, g + 2) as i32 + border_cell_exec(heightmap, run, g + 3) as i32;
        proof {
            lemma_shr2_is_floor_div(sum);
        }
        out[k] = sum >> 2;
        k += 1;
    }
    out
}

/// A side of a chunk that borders the trimmed surroundings.
#[derive(Copy, Clone, Debug, PartialEq, Eq, Structural)]
pub enum Direction {
    North,
    East,
    West,
    South,
}

/// `base` with the averages `h` that side `d` owns written over it: north
/// takes slots 0..4 from averages 0..4, west slots 3..7 from averages 4..8
/// (slot 3 overlaps north), south slots 7..11 from averages 8..12 and slot 11
/// from average 11, east slots 12..16 from averages 12..16.
pub open spec fn apply_direction(base: Seq<Option<i32>>, h: Seq<i32>, d: Direction) -> Seq<Option<i32>> {
    Seq::new(
        16,
        |i: int|
            match d {
                Direction::North => if 0 <= i < 4 {
                    Some(h[i])
                } else {
                    base[i]
                },
                Direction::West => if 3 <= i < 7 {
                    Some(h[i + 1])
                } else {
                    base[i]
                },
                Direction::South => if 7 <= i < 11 {
                    Some(h[i + 1])
                } else if i == 11 {
                    Some(h[11])
                } else {
                    base[i]
                },
                Direction::East => if 12 <= i < 16 {
                    Some(h[i])
                } else {
                    base[i]
                },
            },
    )
}

/// Sixteen slots of "no blending".
pub open spec fn no_blending() -> Seq<Option<i32>> {
    Seq::new(16, |i: int| None)
}

/// `base` with side `d` written over it where `directions` holds `d`.
pub open spec fn apply_if_requested(
    base: Seq<Option<i32>>,
    h: Seq<i32>,
    directions: Seq<Direction>,
    d: Direction,
) -> Seq<Option<i32>> {
    if directions.contains(d) {
        apply_direction(base, h, d)
    } else {
        base
    }
}

/// The blending slots for `directions`: the requested sides are written in
/// the fixed order north, west, south, east, whatever order they are given
/// in, so that the later side in that order wins a shared slot.
pub open spec fn directional_spec(h: Seq<i32>, directions: Seq<Direction>) -> Seq<Option<i32>> {
    let n = apply_if_requested(no_blending(), h, directions, Direction::North);
    let w = apply_if_requested(n, h, directions, Direction::West);
    let s = apply_if_requested(w, h, directions, Direction::South);
    apply_if_requested(s, h, directions, Direction::East)
}

/// Whether `directions` holds `d`.
fn requests(directions: &[Direction; 2], d: Direction) -> (r: bool)
    ensures
        r == directions@.contains(d),
{
    if directions[0] == d {
        assert(directions@[0] == d);
        true
    } else if directions[1] == d {
        assert(directions@[1] == d);
        true
    } else {
        assert(directions@.len() == 2);
        assert(forall|k: int| 0 <= k < 2 ==> directions@[k] != d);
        false
    }
}

fn apply_direction_exec(base: &mut [Option<i32>; 16], h: &[i32; 16], d: Direction)
    ensures
        final(base)@ == apply_direction(old(base)@, h@, d),
{
    let ghost before = base@;
    let (lo, hi, shift): (usize, usize, usize) = match d {
        Direction::North => (0, 4, 0),
        Direction::West => (3, 7, 1),
        Direction::South => (7, 11, 1),
        Direction::East => (12, 16, 0),
    };
    let mut i: usize = lo;
    while i < hi
        invariant
            lo <= i <= hi <= 16,
            shift <= 1,
            hi + shift <= 16,
            forall|j: int| 0 <= j < 16 && !(lo <= j < i) ==> #[trigger] base@[j] == before[j],
            forall|j: int| lo <= j < i ==> #[trigger] base@[j] == Some(h@[j + shift]),
        decreases hi - i,
    {
        base[i] = Some(h[i + shift]);
        i += 1;
    }
    if d == Direction::South {
        base[11] = Some(h[11]);
    }
    assert(base@ =~= apply_direction(before, h@, d));
}

/// The blending slots of a chunk that borders the trimmed surroundings on
/// `directions`: every slot "no blending" (`None`) but those the directions
/// own, which take the border averages `heights`.
pub fn directional_heights(heights: &[i32; 16], directions: [Direction; 2]) -> (r: [Option<i32>; 16])
    ensures
        r@ == directional_spec(heights@, directions@),
{
    let mut base: [Option<i32>; 16] = [None; 16];
    assert(base@ =~= no_blending());
    if requests(&directions, Direction::North) {
        apply_direction_exec(&mut base, heights, Direction::North);
    }
    if requests(&directions, Direction::West) {
        apply_direction_exec(&mut base, heights, Direction::West);
    }
    if requests(&directions, Direction::South) {
        apply_direction_exec(&mut base, heights, Direction::South);
    }
    if requests(&directions, Direction::East) {
        apply_direction_exec(&mut base, heights, Direction::East);
    }
    base
}

/// The blending record a chunk carries for the game to smooth its border.
#[derive(Copy, Clone, Debug, PartialEq, Eq)]
pub struct BlendingData {
    /// The lowest vertical section to blend.
    pub min_section: i32,
    /// The highest vertical section to blend.
    pub max_section: i32,
    /// The border heights, before the area's offset is added; `None` in a
    /// slot means no blending there. Without heights the game infers them.
    pub heights: Option<[Option<i32>; 16]>,
}

/// A chunk as far as blending reads and changes it.
#[derive(Clone, Debug)]
pub struct Chunk {
    /// Position inside its region, each axis in `[0, 32)`.
    pub relative_coord: Coord<usize>,
    /// Absolute chunk position.
    pub absolute_coord: Coord<i64>,
    /// The packed ocean-floor height table, where the chunk has one.
    pub ocean_floor: Option<Vec<i64>>,
    /// Whether the cached lighting flag still holds; saving drops it when not.
    pub light_valid: bool,
    /// The blending record to store, or `None` to leave the stored one alone.
    pub blending: Option<BlendingData>,
}

impl Chunk {
    /// A chunk as read from storage: lighting untouched, no new blending.
    pub fn new(relative_coord: Coord<usize>, absolute_coord: Coord<i64>, ocean_floor: Option<Vec<i64>>) -> (r: Self)
        ensures
            r.relative_coord == relative_coord,
            r.absolute_coord == absolute_coord,
            r.ocean_floor == ocean_floor,
            r.light_valid,
            r.blending is None,
    {
        Chunk { relative_coord, absolute_coord, ocean_floor, light_valid: true, blending: None }
    }

    /// Marks the chunk for blending without heights, leaving the heights to
    /// the game: drops the lighting flag and sets the blending sections.
    pub fn force_blending(&mut self)
        ensures
            final(self).relative_coord == old(self).relative_coord,
            final(self).absolute_coord == old(self).absolute_coord,
            final(self).ocean_floor == old(self).ocean_floor,
            !final(self).light_valid,
            final(self).blending == Some(
                BlendingData { min_section: MIN_SECTION, max_section: MAX_SECTION, heights: None },
            ),
    {
        self.light_valid = false;
        self.blending = Some(
            BlendingData { min_section: MIN_SECTION, max_section: MAX_SECTION, heights: None },
        );
    }

    /// Marks the chunk for blending with heights computed from its ocean-floor
    /// table for the sides `directions`; fails, changing nothing, where the
    /// table is missing or too short.
    pub fn force_blending_with_heights(&mut self, directions: [Direction; 2]) -> (r: Result<(), HeightmapError>)
        ensures
            old(self).ocean_floor is None <==> r == Err::<(), HeightmapError>(HeightmapError::Missing),
            (old(self).ocean_floor matches Some(d) && d@.len() * 7 < 256) <==> r == Err::<(), HeightmapError>(HeightmapError::TooShort),
            r is Err ==> *final(self) == *old(self),
            r is Ok ==> {
                &&& final(self).relative_coord == old(self).relative_coord
                &&& final(self).absolute_coord == old(self).absolute_coord
                &&& final(self).ocean_floor == old(self).ocean_floor
                &&& !final(self).light_valid
                &&& final(self).blending is Some
                &&& final(self).blending->Some_0.min_section == MIN_SECTION
                &&& final(self).blending->Some_0.max_section == MAX_SECTION
                &&& final(self).blending->Some_0.heights is Some
                &&& final(self).blending->Some_0.heights->Some_0@ == directional_spec(
                    table_averages(old(self).ocean_floor->Some_0@),
                    directions@,
                )
            },
    {
        let data = match &self.ocean_floor {
            Some(d) => d,
            None => return Err(HeightmapError::Missing),
        };
        let table = decode_heightmap(data)?;
        let averages = calculate_blending_heights(&table);
        proof {
            let d = self.ocean_floor->Some_0@;
            assert forall|k: int| 0 <= k < 16 implies #[trigger] border_average(grid_cell(table), k)
                == border_average(table_cell(d), k) by {
                assert(0 <= 15 - 4 * (k % 4) - 3);
            }
            assert(averages@ =~= table_averages(d));
        }
        let heights = directional_heights(&averages, directions);
        self.light_valid = false;
        self.blending = Some(
            BlendingData { min_section: MIN_SECTION, max_section: MAX_SECTION, heights: Some(heights) },
        );
        Ok(())
    }
}

/// The chunks on the border of the rectangle from `tl` to `br`, each with the
/// two directions it is blended towards: the four corners, then for each
/// column strictly between the corners the chunks on the top and bottom
/// edges (north and south), then for each row strictly between the corners
/// the chunks on the left and right edges (east and west).
pub open spec fn border_spec(tl: Coord<i64>, br: Coord<i64>) -> Seq<(Coord<i64>, Seq<Direction>)> {
    let nx = if br.x - tl.x - 1 > 0 { br.x - tl.x - 1 } else { 0 };
    let nz = if br.z - tl.z - 1 > 0 { br.z - tl.z - 1 } else { 0 };
    Seq::new(
        (4 + 2 * nx + 2 * nz) as nat,
        |k: int|
            if k == 0 {
                (tl, seq![Direction::North, Direction::West])
            } else if k == 1 {
                (Coord { x: br.x, z: tl.z }, seq![Direction::North, Direction::East])
            } else if k == 2 {
                (Coord { x: tl.x, z: br.z }, seq![Direction::South, Direction::West])
            } else if k == 3 {
                (br, seq![Direction::South, Direction::East])
            } else if k < 4 + 2 * nx {
                let j = k - 4;
                let x = (tl.x + 1 + j / 2) as i64;
                (
                    if j % 2 == 0 { Coord { x, z: tl.z } } else { Coord { x, z: br.z } },
                    seq![Direction::North, Direction::South],
                )
            } else {
                let j = k - 4 - 2 * nx;
                let z = (tl.z + 1 + j / 2) as i64;
                (
                    if j % 2 == 0 { Coord { x: tl.x, z } } else { Coord { x: br.x, z } },
                    seq![Direction::East, Direction::West],
                )
            },
    )
}

/// Whether the list `r` holds exactly the entries of `s`.
pub open spec fn matches_border(r: Seq<(Coord<i64>, [Direction; 2])>, s: Seq<(Coord<i64>, Seq<Direction>)>) -> bool {
    &&& r.len() == s.len()
    &&& forall|k: int| 0 <= k < r.len() ==> (#[trigger] r[k]).0 == s[k].0 && r[k].1@ == s[k].1
}

/// The border chunks of the rectangle from `top_left` to `bottom_right` with
/// the directions each is blended towards.
pub fn border_chunks(top_left: Coord<i64>, bottom_right: Coord<i64>) -> (r: Vec<(Coord<i64>, [Direction; 2])>)
    ensures
        matches_border(r@, border_spec(top_left, bottom_right)),
{
    let tl = top_left;
    let br = bottom_right;
    let ghost spec = border_spec(tl, br);
    let mut out: Vec<(Coord<i64>, [Direction; 2])> = Vec::new();
    out.push((tl, [Direction::North, Direction::West]));
    out.push((Coord { x: br.x, z: tl.z }, [Direction::North, Direction::East]));
    out.push((Coord { x: tl.x, z: br.z }, [Direction::South, Direction::West]));
    out.push((br, [Direction::South, Direction::East]));
    let ghost nx: int = if br.x - tl.x - 1 > 0 { br.x - tl.x - 1 } else { 0 };
    let ghost nz: int = if br.z - tl.z - 1 > 0 { br.z - tl.z - 1 } else { 0 };
    assert(out@[0].1@ =~= spec[0].1);
    assert(out@[1].1@ =~= spec[1].1);
    assert(out@[2].1@ =~= spec[2].1);
    assert(out@[3].1@ =~= spec[3].1);
    if tl.x < br.x {
        let mut x = tl.x + 1;
        while x < br.x
            invariant
                tl.x < x <= br.x,
                nx == br.x - tl.x - 1,
                nz == (if br.z - tl.z - 1 > 0 { br.z - tl.z - 1 } else { 0 }),
                spec == border_spec(tl, br),
                spec.len() == 4 + 2 * nx + 2 * nz,
                out@.len() == 4 + 2 * (x - tl.x - 1),
                forall|k: int| 0 <= k < out@.len() ==> (#[trigger] out@[k]).0 == spec[k].0 && out@[k].1@ == spec[k].1,
            decreases br.x - x,
        {
            let ghost k0 = out@.len() as int;
            out.push((Coord { x, z: tl.z }, [Direction::North, Direction::South]));
            out.push((Coord { x, z: br.z }, [Direction::North, Direction::South]));
            assert(out@[k0].1@ =~= spec[k0].1);
            assert(out@[k0 + 1].1@ =~= spec[k0 + 1].1);
            x += 1;
        }
    }
    assert(out@.len() == 4 + 2 * nx);
    if tl.z < br.z {
        let mut z = tl.z + 1;
        while z < br.z
            invariant
                tl.z < z <= br.z,
                nz == br.z - tl.z - 1,
                nx == (if br.x - tl.x - 1 > 0 { br.x - tl.x - 1 } else { 0 }),
                spec == border_spec(tl, br),
                spec.len() == 4 + 2 * nx + 2 * nz,
                out@.len() == 4 + 2 * nx + 2 * (z - tl.z - 1),
                forall|k: int| 0 <= k < out@.len() ==> (#[trigger] out@[k]).0 == spec[k].0 && out@[k].1@ == spec[k].1,
            decreases br.z - z,
        {
            let ghost k0 = out@.len() as int;
            out.push((Coord { x: tl.x, z }, [Direction::East, Direction::West]));
            out.push((Coord { x: br.x, z }, [Direction::East, Direction::West]));
            assert(out@[k0].1@ =~= spec[k0].1);
            assert(out@[k0 + 1].1@ =~= spec[k0 + 1].1);
            z += 1;
        }
    }
    out
}

} // verus!
