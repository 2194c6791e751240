//! Persistent areas: rectangles of chunks that survive trimming.

use vstd::prelude::*;
use crate::coord::{fits_i64, Coord, CoordError};

verus! {

/// A persistent area as written in configuration, before validation.
#[derive(Copy, Clone, Debug, PartialEq)]
pub enum UnvalidatedPersistentArea<B> {
    Square { top_left: Coord<i64>, bottom_right: Coord<i64>, blending: Option<B> },
}

/// A rectangle of chunks to keep, with inclusive corners, carrying the
/// blending settings `B` of its border.
#[derive(Copy, Clone, Debug, PartialEq)]
pub enum PersistentArea<B> {
    /// Persist a square area, defined by (inclusive) corner chunks.
    Square {
        /// Top-left (most negative x and z) corner chunk to include.
        top_left: Coord<i64>,
        /// Bottom-right (most positive x and z) corner chunk to include.
        bottom_right: Coord<i64>,
        /// Blending settings for the border; `None` applies no blending.
        blending: Option<B>,
    },
}

/// Why a configured area was refused.
#[derive(Copy, Clone, Debug, PartialEq, Eq, Structural)]
pub enum AreaError {
    /// The top-left corner has a larger x than the bottom-right one.
    LeftOfRight,
    /// The top-left corner has a larger z than the bottom-right one.
    AboveBelow,
    /// Both corners are the same chunk.
    Empty,
}

impl AreaError {
    /// A short description of the failure.
    pub fn message(&self) -> (r: &'static str)
        ensures
            *self == AreaError::LeftOfRight ==> r == "top-left is to the right of bottom-right",
            *self == AreaError::AboveBelow ==> r == "top-left is below the bottom-right",
            *self == AreaError::Empty ==> r == "area is empty",
    {
        match self {
            AreaError::LeftOfRight => "top-left is to the right of bottom-right",
            AreaError::AboveBelow => "top-left is below the bottom-right",
            AreaError::Empty => "area is empty",
        }
    }
}

impl<B> PersistentArea<B> {
    /// The top-left corner.
    pub open spec fn tl(self) -> Coord<i64> {
        match self {
            PersistentArea::Square { top_left, .. } => top_left,
        }
    }

    /// The bottom-right corner.
    pub open spec fn br(self) -> Coord<i64> {
        match self {
            PersistentArea::Square { bottom_right, .. } => bottom_right,
        }
    }

    /// The blending settings.
    pub open spec fn blend(self) -> Option<B> {
        match self {
            PersistentArea::Square { blending, .. } => blending,
        }
    }

    /// The corners are ordered and distinct, as validation leaves them.
    pub open spec fn valid(self) -> bool {
        &&& self.tl().x <= self.br().x
        &&& self.tl().z <= self.br().z
        &&& self.tl() != self.br()
    }

    /// Whether chunk `c` lies in the rectangle.
    pub open spec fn has(self, c: Coord<i64>) -> bool {
        &&& self.tl().x <= c.x <= self.br().x
        &&& self.tl().z <= c.z <= self.br().z
    }

    /// The top-left corner.
    pub fn top_left(&self) -> (r: Coord<i64>)
        ensures
            r == self.tl(),
    {
        match self {
            PersistentArea::Square { top_left, .. } => *top_left,
        }
    }

    /// The bottom-right corner.
    pub fn bottom_right(&self) -> (r: Coord<i64>)
        ensures
            r == self.br(),
    {
        match self {
            PersistentArea::Square { bottom_right, .. } => *bottom_right,
        }
    }

    /// The blending settings of the border.
    pub fn blending(&self) -> (r: &Option<B>)
        ensures
            *r == self.blend(),
    {
        match self {
            PersistentArea::Square { blending, .. } => blending,
        }
    }

    /// Whether chunk `coord` lies in the area, corners included.
    pub fn contains(&self, coord: Coord<i64>) -> (r: bool)
        ensures
            r == self.has(coord),
    {
        match self {
            PersistentArea::Square { top_left, bottom_right, .. } => {
                top_left.x <= coord.x && top_left.z <= coord.z && bottom_right.x >= coord.x
                    && bottom_right.z >= coord.z
            },
        }
    }

    /// Validates a configured area: the corners must be ordered on both axes
    /// and must not be the same chunk.
    pub fn try_from(area: UnvalidatedPersistentArea<B>) -> (r: Result<Self, AreaError>)
        ensures
            ({
                let UnvalidatedPersistentArea::Square { top_left, bottom_right, blending } = area;
                &&& (top_left.x > bottom_right.x) <==> r == Err::<Self, AreaError>(
                    AreaError::LeftOfRight,
                )
                &&& (top_left.x <= bottom_right.x && top_left.z > bottom_right.z) <==> r == Err::<
                    Self,
                    AreaError,
                >(AreaError::AboveBelow)
                &&& (top_left.x <= bottom_right.x && top_left.z <= bottom_right.z && top_left
                    == bottom_right) <==> r == Err::<Self, AreaError>(AreaError::Empty)
                &&& r is Ok ==> r == Ok::<Self, AreaError>(
                    PersistentArea::Square { top_left, bottom_right, blending },
                )
            }),
            r matches Ok(a) ==> a.valid(),
    {
        match area {
            UnvalidatedPersistentArea::Square { top_left, bottom_right, blending } => {
                if top_left.x > bottom_right.x {
                    return Err(AreaError::LeftOfRight);
                }
                if top_left.z > bottom_right.z {
                    return Err(AreaError::AboveBelow);
                }
                if top_left == bottom_right {
                    return Err(AreaError::Empty);
                }
                Ok(PersistentArea::Square { top_left, bottom_right, blending })
            },
        }
    }

    /// The square of `size / 2` chunks in every direction around `chunk`,
    /// kept for an actor found outside every area; the square reaches at
    /// least one chunk in every direction, so that it is a valid area. Fails
    /// where a corner is out of range.
    pub fn around(chunk: Coord<i64>, size: u32, blending: Option<B>) -> (r: Result<Self, CoordError>)
        ensures
            ({
                let radius = if size < 2 { 1 } else { size as int / 2 };
                &&& r is Ok <==> fits_i64(chunk.x - radius) && fits_i64(chunk.z - radius)
                    && fits_i64(chunk.x + radius) && fits_i64(chunk.z + radius)
                &&& r matches Ok(a) ==> a == (PersistentArea::Square {
                    top_left: Coord { x: (chunk.x - radius) as i64, z: (chunk.z - radius) as i64 },
                    bottom_right: Coord {
                        x: (chunk.x + radius) as i64,
                        z: (chunk.z + radius) as i64,
                    },
                    blending,
                })
                &&& r matches Err(e) ==> e == CoordError::OutOfRange
            }),
            r matches Ok(a) ==> a.valid(),
    {
        let radius: i64 = if size < 2 { 1 } else { (size / 2) as i64 };
        let offset = Coord { x: radius, z: radius };
        let top_left = chunk.checked_sub(offset)?;
        let bottom_right = chunk.checked_add(offset)?;
        Ok(PersistentArea::Square { top_left, bottom_right, blending })
    }
}

impl<B> UnvalidatedPersistentArea<B> {
    /// The configured form of a validated area.
    pub fn from(area: PersistentArea<B>) -> (r: Self)
        ensures
            r == (UnvalidatedPersistentArea::Square {
                top_left: area.tl(),
                bottom_right: area.br(),
                blending: area.blend(),
            }),
    {
        match area {
            PersistentArea::Square { top_left, bottom_right, blending } => {
                UnvalidatedPersistentArea::Square { top_left, bottom_right, blending }
            },
        }
    }
}

/// Whether some area of `areas` holds chunk `c`.
pub open spec fn kept_chunk<B>(areas: Seq<PersistentArea<B>>, c: Coord<i64>) -> bool {
    exists|i: int| 0 <= i < areas.len() && (#[trigger] areas[i]).has(c)
}

/// Whether some area of `areas` holds chunk `coord`.
pub fn contains_any<B>(areas: &Vec<PersistentArea<B>>, coord: Coord<i64>) -> (r: bool)
    ensures
        r == kept_chunk(areas@, coord),
{
    let mut i: usize = 0;
    while i < areas.len()
        invariant
            i <= areas@.len(),
            forall|k: int| 0 <= k < i ==> !(#[trigger] areas@[k]).has(coord),
        decreases areas@.len() - i,
    {
        if areas[i].contains(coord) {
            return true;
        }
        i += 1;
    }
    false
}

} // verus!
