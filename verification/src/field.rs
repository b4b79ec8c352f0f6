//! The rectangular play-field, and keeping a position inside it.

use vstd::prelude::*;
use crate::vector::Point;

verus! {

/// Extents of the play-field, in thousandths of a pixel. The origin is the
/// field's corner; the host supplies the extents anew every frame.
#[derive(Clone, Copy, Debug, PartialEq, Eq, Structural)]
pub struct PlayField {
    pub width: u32,
    pub height: u32,
}

/// `c` held between `lo` and `hi`. Where `lo` exceeds `hi`, a `c` below `lo`
/// goes to `lo` and any other `c` to `hi`.
pub open spec fn clamped(c: int, lo: int, hi: int) -> int {
    if c < lo {
        lo
    } else if c > hi {
        hi
    } else {
        c
    }
}

/// One coordinate of an entity of half-extent `half`, held inside a field of
/// extent `extent`.
pub open spec fn confined(c: int, half: int, extent: int) -> int {
    clamped(c, half, extent - half)
}

/// Whether a coordinate has left the band in which an entity of half-extent
/// `half` lies wholly inside a field of extent `extent`. To touch the edge of
/// the band is not to leave it.
pub open spec fn outside_band(c: int, half: int, extent: int) -> bool {
    c < half || c > extent - half
}

/// The position with both coordinates held inside the field.
pub open spec fn confined_point(p: Point, half: u32, field: PlayField) -> Point {
    Point {
        x: confined(p.x as int, half as int, field.width as int) as i64,
        y: confined(p.y as int, half as int, field.height as int) as i64,
    }
}

/// In a field that has room for the entity, a confined coordinate lies in the
/// band from `half` to `extent - half`, wherever it was before; and a
/// coordinate in the band is left where it is.
pub proof fn lemma_confined_in_band(c: int, half: int, extent: int)
    requires
        2 * half <= extent,
    ensures
        half <= confined(c, half, extent) <= extent - half,
        !outside_band(confined(c, half, extent), half, extent),
        !outside_band(c, half, extent) ==> confined(c, half, extent) == c,
{
}

/// Holds one coordinate inside a field of extent `extent`.
pub fn confine_coordinate(c: i64, half: u32, extent: u32) -> (r: i64)
    ensures
        r == confined(c as int, half as int, extent as int),
        2 * half <= extent ==> half <= r <= extent - half,
{
    let lo: i64 = half as i64;
    let hi: i64 = extent as i64 - half as i64;
    if c < lo {
        lo
    } else if c > hi {
        hi
    } else {
        c
    }
}

/// Whether one coordinate has left the band of a field of extent `extent`.
pub fn is_outside_band(c: i64, half: u32, extent: u32) -> (outside: bool)
    ensures
        outside == outside_band(c as int, half as int, extent as int),
{
    c < half as i64 || c > extent as i64 - half as i64
}

impl PlayField {
    /// The middle of the field.
    pub open spec fn center(self) -> Point {
        Point { x: (self.width / 2) as i64, y: (self.height / 2) as i64 }
    }

    /// Whether `p` is a position that random placement can give: each
    /// coordinate is at least zero and below the field's extent, or zero where
    /// the field has no extent.
    pub open spec fn can_place(self, p: Point) -> bool {
        &&& 0 <= p.x
        &&& 0 <= p.y
        &&& if self.width > 0 {
            p.x < self.width
        } else {
            p.x == 0
        }
        &&& if self.height > 0 {
            p.y < self.height
        } else {
            p.y == 0
        }
    }

    /// A field with the given extents.
    pub fn new(width: u32, height: u32) -> (field: PlayField)
        ensures
            field.width == width,
            field.height == height,
    {
        PlayField { width, height }
    }

    /// The middle of the field.
    pub fn middle(&self) -> (p: Point)
        ensures
            p == self.center(),
    {
        Point { x: (self.width / 2) as i64, y: (self.height / 2) as i64 }
    }

    /// Holds both coordinates of `p` inside the field.
    pub fn confine(&self, p: Point, half: u32) -> (r: Point)
        ensures
            r == confined_point(p, half, *self),
            2 * half <= self.width ==> half <= r.x <= self.width - half,
            2 * half <= self.height ==> half <= r.y <= self.height - half,
    {
        Point {
            x: confine_coordinate(p.x, half, self.width),
            y: confine_coordinate(p.y, half, self.height),
        }
    }
}

} // verus!
