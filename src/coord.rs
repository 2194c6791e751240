//! Chunk and region coordinates.

use vstd::prelude::*;
use vstd::string::StringSliceAdditionalSpecFns;
use crate::text::{
    decimal_text, fields, lemma_decimal_round_trip, lemma_fields_append, lemma_fields_push_sep,
    parse_i64, parse_i64_spec, push_decimal, split_fields,
};

verus! {

/// A horizontal coordinate pair, used for chunk and region positions alike.
#[derive(Copy, Clone, Debug, Hash, PartialEq, Eq, PartialOrd, Ord, Structural)]
pub struct Coord<T> {
    pub x: T,
    pub z: T,
}

/// Why a coordinate computation failed.
#[derive(Copy, Clone, Debug, PartialEq, Eq, Structural)]
pub enum CoordError {
    /// The arithmetic overflows, or a value does not fit the target integer type.
    OutOfRange,
    /// A region-relative coordinate lies outside `[0, 32)`.
    NotInRegion,
}

/// Why a coordinate could not be read from text.
#[derive(Copy, Clone, Debug, PartialEq, Eq, Structural)]
pub enum ParseError {
    /// A region file name does not start with the `r` segment.
    MissingPrefix,
    /// The x coordinate is missing or is not an `i64`.
    BadX,
    /// The z coordinate is missing or is not an `i64`.
    BadZ,
    /// A region file name does not go on with the `mca` segment.
    MissingSuffix,
    /// Something follows the last expected segment.
    ExtraData,
}

impl ParseError {
    /// A short description of the failure.
    pub fn message(&self) -> (r: &'static str)
        ensures
            *self == ParseError::MissingPrefix ==> r == "missing `r` segment",
            *self == ParseError::BadX ==> r == "reading x coordinate",
            *self == ParseError::BadZ ==> r == "reading z coordinate",
            *self == ParseError::MissingSuffix ==> r == "missing `mca` segment",
            *self == ParseError::ExtraData ==> r == "extra data",
    {
        match self {
            ParseError::MissingPrefix => "missing `r` segment",
            ParseError::BadX => "reading x coordinate",
            ParseError::BadZ => "reading z coordinate",
            ParseError::MissingSuffix => "missing `mca` segment",
            ParseError::ExtraData => "extra data",
        }
    }
}

/// What `Coord::from_region_file` yields for the bytes of a file name
/// `r.<x>.<z>.mca`, read segment by segment between dots.
pub open spec fn region_file_spec(s: Seq<u8>) -> Result<Coord<i64>, ParseError> {
    let f = fields(s, 46u8);
    if f[0] != seq![114u8] {
        Err(ParseError::MissingPrefix)
    } else if f.len() < 2 || parse_i64_spec(f[1]) is None {
        Err(ParseError::BadX)
    } else if f.len() < 3 || parse_i64_spec(f[2]) is None {
        Err(ParseError::BadZ)
    } else if f.len() < 4 || f[3] != seq![109u8, 99u8, 97u8] {
        Err(ParseError::MissingSuffix)
    } else if f.len() > 4 {
        Err(ParseError::ExtraData)
    } else {
        Ok(Coord { x: parse_i64_spec(f[1])->Some_0, z: parse_i64_spec(f[2])->Some_0 })
    }
}

/// The bytes of the name of the region file for region `c`: `r.<x>.<z>.mca`.
pub open spec fn region_file_text(c: Coord<i64>) -> Seq<u8> {
    seq![114u8, 46u8] + decimal_text(c.x as int) + seq![46u8] + decimal_text(c.z as int) + seq![
        46u8,
        109u8,
        99u8,
        97u8,
    ]
}

/// Reading the region coordinate back from a region file name gives the
/// coordinate that the name was made from.
pub proof fn lemma_region_file_round_trip(c: Coord<i64>)
    ensures
        region_file_spec(region_file_text(c)) == Ok::<Coord<i64>, ParseError>(c),
{
    let dot = 46u8;
    let x = decimal_text(c.x as int);
    let z = decimal_text(c.z as int);
    let mca = seq![109u8, 99u8, 97u8];
    lemma_decimal_round_trip(c.x);
    lemma_decimal_round_trip(c.z);
    let e = Seq::<u8>::empty();
    let s1 = e + seq![114u8];
    lemma_fields_append(e, seq![114u8], dot);
    assert(fields(e, dot) =~= seq![e]);
    assert(fields(s1, dot) =~= seq![seq![114u8]]);
    let s2 = s1.push(dot);
    lemma_fields_push_sep(s1, dot);
    let s3 = s2 + x;
    lemma_fields_append(s2, x, dot);
    assert(fields(s3, dot) =~= seq![seq![114u8], x]);
    let s4 = s3.push(dot);
    lemma_fields_push_sep(s3, dot);
    let s5 = s4 + z;
    lemma_fields_append(s4, z, dot);
    assert(fields(s5, dot) =~= seq![seq![114u8], x, z]);
    let s6 = s5.push(dot);
    lemma_fields_push_sep(s5, dot);
    let s7 = s6 + mca;
    lemma_fields_append(s6, mca, dot);
    assert(fields(s7, dot) =~= seq![seq![114u8], x, z, mca]);
    assert(s7 =~= region_file_text(c));
}

/// What `Coord::from_str` yields for the bytes of a text `<x>,<z>`.
pub open spec fn pair_spec(s: Seq<u8>) -> Result<Coord<i64>, ParseError> {
    let f = fields(s, 44u8);
    if parse_i64_spec(f[0]) is None {
        Err(ParseError::BadX)
    } else if f.len() < 2 || parse_i64_spec(f[1]) is None {
        Err(ParseError::BadZ)
    } else if f.len() > 2 {
        Err(ParseError::ExtraData)
    } else {
        Ok(Coord { x: parse_i64_spec(f[0])->Some_0, z: parse_i64_spec(f[1])->Some_0 })
    }
}

/// Number of chunks along each side of a region.
pub const REGION_SIZE: i64 = 32;

/// Whether `v` is a value of `i64`.
pub open spec fn fits_i64(v: int) -> bool {
    i64::MIN <= v <= i64::MAX
}

/// The region that holds chunk index `c` along one axis: floor division by 32.
pub open spec fn region_of(c: int) -> int {
    c / 32
}

/// What `make_relative` yields for a region and an absolute chunk coordinate.
pub open spec fn relative_spec(region: Coord<i64>, abs: Coord<i64>) -> Result<Coord<usize>, CoordError> {
    let bx = region.x * 32;
    let bz = region.z * 32;
    let dx = abs.x - bx;
    let dz = abs.z - bz;
    if !fits_i64(bx) || !fits_i64(bz) || !fits_i64(dx) || !fits_i64(dz) {
        Err(CoordError::OutOfRange)
    } else if dx < 0 || dz < 0 || dx > usize::MAX || dz > usize::MAX {
        Err(CoordError::OutOfRange)
    } else if dx >= 32 || dz >= 32 {
        Err(CoordError::NotInRegion)
    } else {
        Ok(Coord { x: dx as usize, z: dz as usize })
    }
}

/// What `make_absolute` yields for a region and a region-relative chunk coordinate.
pub open spec fn absolute_spec(region: Coord<i64>, rel: Coord<usize>) -> Result<Coord<i64>, CoordError> {
    let bx = region.x * 32;
    let bz = region.z * 32;
    if rel.x > i64::MAX || rel.z > i64::MAX || !fits_i64(bx) || !fits_i64(bz) || !fits_i64(rel.x + bx)
        || !fits_i64(rel.z + bz) {
        Err(CoordError::OutOfRange)
    } else {
        Ok(Coord { x: (rel.x + bx) as i64, z: (rel.z + bz) as i64 })
    }
}

/// Whether absolute chunk coordinate `c` lies in the 32 by 32 span of `region`.
pub open spec fn in_region_span(region: Coord<i64>, c: Coord<i64>) -> bool {
    &&& region.x * 32 <= c.x < region.x * 32 + 32
    &&& region.z * 32 <= c.z < region.z * 32 + 32
}

proof fn lemma_shr5_is_floor_div(v: i64)
    ensures
        (v >> 5i64) as int == v as int / 32,
{
    assert((v >> 5i64) as int == v as int / 32) by (bit_vector);
}

proof fn lemma_shr4_is_floor_div(v: i64)
    ensures
        (v >> 4i64) as int == v as int / 16,
{
    assert((v >> 4i64) as int == v as int / 16) by (bit_vector);
}

/// `chunk_to_region` is the arithmetic shift right by five on each axis,
/// which is floor division by 32 (chunk -1 lies in region -1), and it is
/// monotonic on each axis.
pub proof fn lemma_chunk_to_region_monotonic(a: Coord<i64>, b: Coord<i64>)
    requires
        a.x <= b.x,
        a.z <= b.z,
    ensures
        (a.x >> 5i64) as int == region_of(a.x as int),
        (a.z >> 5i64) as int == region_of(a.z as int),
        a.x >> 5i64 <= b.x >> 5i64,
        a.z >> 5i64 <= b.z >> 5i64,
{
    lemma_shr5_is_floor_div(a.x);
    lemma_shr5_is_floor_div(a.z);
    lemma_shr5_is_floor_div(b.x);
    lemma_shr5_is_floor_div(b.z);
    vstd::arithmetic::div_mod::lemma_div_is_ordered(a.x as int, b.x as int, 32);
    vstd::arithmetic::div_mod::lemma_div_is_ordered(a.z as int, b.z as int, 32);
}

impl Coord<i64> {
    /// Reads the region coordinate from a region file name such as `r.-1.2.mca`.
    pub fn from_region_file(name: &str) -> (r: Result<Self, ParseError>)
        ensures
            r == region_file_spec(name.spec_bytes()),
    {
        let parts = split_fields(name.as_bytes(), 46u8);
        let ghost f = fields(name.spec_bytes(), 46u8);
        if parts.len() == 0 || parts[0].len() != 1 || parts[0][0] != 114u8 {
            proof {
                crate::text::lemma_fields_nonempty(name.spec_bytes(), 46u8);
                let prefix = seq![114u8];
                assert(prefix.len() == 1 && prefix[0] == 114u8);
                assert(parts@[0]@ == f[0]);
                if f[0].len() == 1 {
                    assert(f[0][0] != 114u8);
                }
                assert(f[0] != prefix);
            }
            return Err(ParseError::MissingPrefix);
        }
        assert(f[0] =~= seq![114u8]);
        if parts.len() < 2 {
            return Err(ParseError::BadX);
        }
        let x = match parse_i64(parts[1].as_slice()) {
            Some(x) => x,
            None => return Err(ParseError::BadX),
        };
        if parts.len() < 3 {
            return Err(ParseError::BadZ);
        }
        let z = match parse_i64(parts[2].as_slice()) {
            Some(z) => z,
            None => return Err(ParseError::BadZ),
        };
        if parts.len() < 4 || parts[3].len() != 3 || parts[3][0] != 109u8 || parts[3][1] != 99u8
            || parts[3][2] != 97u8 {
            proof {
                let suffix = seq![109u8, 99u8, 97u8];
                assert(suffix.len() == 3 && suffix[0] == 109u8 && suffix[1] == 99u8 && suffix[2]
                    == 97u8);
                if parts@.len() >= 4 {
                    assert(parts@[3]@ == f[3]);
                    assert(f[3] != suffix);
                }
            }
            return Err(ParseError::MissingSuffix);
        }
        assert(f[3] =~= seq![109u8, 99u8, 97u8]);
        if parts.len() > 4 {
            return Err(ParseError::ExtraData);
        }
        Ok(Self { x, z })
    }

    /// The bytes of the name of the region file for this region coordinate,
    /// `r.<x>.<z>.mca`.
    pub fn region_file_name(self) -> (r: Vec<u8>)
        ensures
            r@ == region_file_text(self),
    {
        let mut out: Vec<u8> = Vec::new();
        out.push(114u8);
        out.push(46u8);
        push_decimal(&mut out, self.x);
        out.push(46u8);
        push_decimal(&mut out, self.z);
        out.push(46u8);
        out.push(109u8);
        out.push(99u8);
        out.push(97u8);
        assert(out@ =~= region_file_text(self));
        out
    }

    /// Reads a coordinate written `<x>,<z>`.
    pub fn from_str(s: &str) -> (r: Result<Self, ParseError>)
        ensures
            r == pair_spec(s.spec_bytes()),
    {
        let parts = split_fields(s.as_bytes(), 44u8);
        proof {
            crate::text::lemma_fields_nonempty(s.spec_bytes(), 44u8);
        }
        let x = match parse_i64(parts[0].as_slice()) {
            Some(x) => x,
            None => return Err(ParseError::BadX),
        };
        if parts.len() < 2 {
            return Err(ParseError::BadZ);
        }
        let z = match parse_i64(parts[1].as_slice()) {
            Some(z) => z,
            None => return Err(ParseError::BadZ),
        };
        if parts.len() > 2 {
            return Err(ParseError::ExtraData);
        }
        Ok(Self { x, z })
    }

    /// Both axes multiplied by `value`; fails on overflow.
    pub fn checked_mul(self, value: i64) -> (r: Result<Self, CoordError>)
        ensures
            r is Ok <==> fits_i64(self.x * value) && fits_i64(self.z * value),
            r matches Ok(c) ==> c.x == self.x * value && c.z == self.z * value,
            r matches Err(e) ==> e == CoordError::OutOfRange,
    {
        let x = match self.x.checked_mul(value) {
            Some(x) => x,
            None => return Err(CoordError::OutOfRange),
        };
        let z = match self.z.checked_mul(value) {
            Some(z) => z,
            None => return Err(CoordError::OutOfRange),
        };
        Ok(Self { x, z })
    }

    /// The axis-wise sum; fails on overflow.
    pub fn checked_add(self, other: Self) -> (r: Result<Self, CoordError>)
        ensures
            r is Ok <==> fits_i64(self.x + other.x) && fits_i64(self.z + other.z),
            r matches Ok(c) ==> c.x == self.x + other.x && c.z == self.z + other.z,
            r matches Err(e) ==> e == CoordError::OutOfRange,
    {
        let x = match self.x.checked_add(other.x) {
            Some(x) => x,
            None => return Err(CoordError::OutOfRange),
        };
        let z = match self.z.checked_add(other.z) {
            Some(z) => z,
            None => return Err(CoordError::OutOfRange),
        };
        Ok(Self { x, z })
    }

    /// The axis-wise difference; fails on overflow.
    pub fn checked_sub(self, other: Self) -> (r: Result<Self, CoordError>)
        ensures
            r is Ok <==> fits_i64(self.x - other.x) && fits_i64(self.z - other.z),
            r matches Ok(c) ==> c.x == self.x - other.x && c.z == self.z - other.z,
            r matches Err(e) ==> e == CoordError::OutOfRange,
    {
        let x = match self.x.checked_sub(other.x) {
            Some(x) => x,
            None => return Err(CoordError::OutOfRange),
        };
        let z = match self.z.checked_sub(other.z) {
            Some(z) => z,
            None => return Err(CoordError::OutOfRange),
        };
        Ok(Self { x, z })
    }

    /// The same coordinate as unsigned values; fails where an axis is negative
    /// or exceeds `usize`.
    pub fn to_unsigned(self) -> (r: Result<Coord<usize>, CoordError>)
        ensures
            r is Ok <==> 0 <= self.x <= usize::MAX && 0 <= self.z <= usize::MAX,
            r matches Ok(c) ==> c.x == self.x && c.z == self.z,
            r matches Err(e) ==> e == CoordError::OutOfRange,
    {
        if self.x < 0 || self.z < 0 {
            return Err(CoordError::OutOfRange);
        }
        if self.x as u64 > usize::MAX as u64 || self.z as u64 > usize::MAX as u64 {
            return Err(CoordError::OutOfRange);
        }
        Ok(Coord { x: self.x as usize, z: self.z as usize })
    }

    /// The chunk that holds this block position: each axis shifted right by four bits.
    pub fn block_to_chunk(self) -> (r: Self)
        ensures
            r.x as int == self.x as int / 16,
            r.z as int == self.z as int / 16,
    {
        proof {
            lemma_shr4_is_floor_div(self.x);
            lemma_shr4_is_floor_div(self.z);
        }
        Self { x: self.x >> 4, z: self.z >> 4 }
    }

    /// The region that holds this chunk: each axis shifted right by five bits,
    /// which is floor division by 32, also below zero.
    pub fn chunk_to_region(self) -> (r: Self)
        ensures
            r.x == self.x >> 5i64,
            r.z == self.z >> 5i64,
            r.x as int == region_of(self.x as int),
            r.z as int == region_of(self.z as int),
    {
        proof {
            lemma_shr5_is_floor_div(self.x);
            lemma_shr5_is_floor_div(self.z);
        }
        Self { x: self.x >> 5, z: self.z >> 5 }
    }
}

impl Coord<usize> {
    /// The same coordinate as signed values; fails where an axis exceeds `i64`.
    pub fn to_signed(self) -> (r: Result<Coord<i64>, CoordError>)
        ensures
            r is Ok <==> self.x <= i64::MAX && self.z <= i64::MAX,
            r matches Ok(c) ==> c.x == self.x && c.z == self.z,
            r matches Err(e) ==> e == CoordError::OutOfRange,
    {
        if self.x as u64 > i64::MAX as u64 || self.z as u64 > i64::MAX as u64 {
            return Err(CoordError::OutOfRange);
        }
        Ok(Coord { x: self.x as i64, z: self.z as i64 })
    }
}

/// Round trip between absolute and region-relative chunk coordinates: inside a
/// region's span, going to relative, back to absolute, and to relative again
/// gives the original coordinate and the same relative position; outside the
/// span the conversion to relative fails.
pub proof fn lemma_relative_round_trip(region: Coord<i64>, c: Coord<i64>)
    ensures
        in_region_span(region, c) ==> {
            &&& relative_spec(region, c) is Ok
            &&& absolute_spec(region, relative_spec(region, c)->Ok_0) == Ok::<Coord<i64>, CoordError>(c)
            &&& relative_spec(region, absolute_spec(region, relative_spec(region, c)->Ok_0)->Ok_0)
                == relative_spec(region, c)
        },
        !in_region_span(region, c) ==> relative_spec(region, c) is Err,
{
}

/// The position of absolute chunk `abs` inside `region`, each axis in `[0, 32)`.
pub fn make_relative(region: Coord<i64>, abs: Coord<i64>) -> (r: Result<Coord<usize>, CoordError>)
    ensures
        r == relative_spec(region, abs),
{
    let base = region.checked_mul(REGION_SIZE)?;
    let diff = abs.checked_sub(base)?;
    let rel = diff.to_unsigned()?;
    if rel.x >= 32 || rel.z >= 32 {
        return Err(CoordError::NotInRegion);
    }
    Ok(rel)
}

/// The absolute chunk coordinate of position `rel` relative to `region`:
/// 32 times the region plus `rel`; fails only where a value does not fit.
pub fn make_absolute(region: Coord<i64>, rel: Coord<usize>) -> (r: Result<Coord<i64>, CoordError>)
    ensures
        r == absolute_spec(region, rel),
{
    let signed = rel.to_signed()?;
    let base = region.checked_mul(REGION_SIZE)?;
    signed.checked_add(base)
}

/// The absolute coordinates of the region-relative positions `rel` inside
/// `region`, in the same order; fails with the error of the first position
/// that does not convert.
pub fn make_absolute_all(region: Coord<i64>, rel: &Vec<Coord<usize>>) -> (r: Result<Vec<Coord<i64>>, CoordError>)
    ensures
        r is Ok <==> forall|i: int| 0 <= i < rel@.len() ==> (#[trigger] absolute_spec(region, rel@[i])) is Ok,
        r matches Ok(v) ==> v@.len() == rel@.len() && forall|i: int|
            0 <= i < rel@.len() ==> Ok::<Coord<i64>, CoordError>(#[trigger] v@[i]) == absolute_spec(region, rel@[i]),
        r matches Err(e) ==> exists|i: int|
            0 <= i < rel@.len() && (forall|j: int| 0 <= j < i ==> (#[trigger] absolute_spec(region, rel@[j])) is Ok)
                && #[trigger] absolute_spec(region, rel@[i]) == Err::<Coord<i64>, CoordError>(e),
{
    let mut out: Vec<Coord<i64>> = Vec::new();
    let mut i: usize = 0;
    while i < rel.len()
        invariant
            i <= rel@.len(),
            out@.len() == i,
            forall|j: int| 0 <= j < i ==> Ok::<Coord<i64>, CoordError>(#[trigger] out@[j]) == absolute_spec(region, rel@[j]),
            forall|j: int| 0 <= j < i ==> (#[trigger] absolute_spec(region, rel@[j])) is Ok,
        decreases rel@.len() - i,
    {
        match make_absolute(region, rel[i]) {
            Ok(c) => out.push(c),
            Err(e) => {
                return Err(e);
            },
        }
        i += 1;
    }
    Ok(out)
}

} // verus!
