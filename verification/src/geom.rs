//! Geometry primitives: lengths, points and sizes in page space.
//!
//! A length is measured in thousandths of a millimetre and kept in an `i64`,
//! so that component-wise arithmetic is exact and repeated additions (table
//! row stepping, line fans) cannot drift.  Geometry read from a style script
//! is capped at [`LEN_LIMIT`] by the parser; the layout engine relies on that
//! cap to rule out overflow.

use vstd::prelude::*;

verus! {

/// A scalar length in thousandths of a millimetre.
pub type Length = i64;

/// Largest magnitude a parsed length may have (one million millimetres).
pub const LEN_LIMIT: i64 = 1_000_000_000;

/// Whether a mathematical value lies in the domain of parsed lengths.
pub open spec fn in_len_range(v: int) -> bool {
    -LEN_LIMIT <= v <= LEN_LIMIT
}

/// A position in page space (origin bottom-left), or a relative offset.
#[derive(Clone, Copy, PartialEq, Eq, Structural, Debug)]
pub struct Point {
    pub x: Length,
    pub y: Length,
}

/// The width and height of a rectangular region.
#[derive(Clone, Copy, PartialEq, Eq, Structural, Debug)]
pub struct Size {
    pub width: Length,
    pub height: Length,
}

/// Component-wise sum of two points, over unbounded integers.
pub open spec fn spec_add(a: Point, b: Point) -> Point {
    Point { x: (a.x + b.x) as i64, y: (a.y + b.y) as i64 }
}

/// Component-wise difference of two points, over unbounded integers.
pub open spec fn spec_sub(a: Point, b: Point) -> Point {
    Point { x: (a.x - b.x) as i64, y: (a.y - b.y) as i64 }
}

impl Point {
    /// Both coordinates lie in the parsed-length domain.
    pub open spec fn wf(self) -> bool {
        in_len_range(self.x as int) && in_len_range(self.y as int)
    }

    /// Component-wise addition; used both for absolute positions and deltas.
    pub fn add(self, rhs: Point) -> (r: Point)
        requires
            i64::MIN <= self.x + rhs.x <= i64::MAX,
            i64::MIN <= self.y + rhs.y <= i64::MAX,
        ensures
            r == spec_add(self, rhs),
            r.x == self.x + rhs.x,
            r.y == self.y + rhs.y,
    {
        Point { x: self.x + rhs.x, y: self.y + rhs.y }
    }

    /// Component-wise subtraction.
    pub fn sub(self, rhs: Point) -> (r: Point)
        requires
            i64::MIN <= self.x - rhs.x <= i64::MAX,
            i64::MIN <= self.y - rhs.y <= i64::MAX,
        ensures
            r == spec_sub(self, rhs),
            r.x == self.x - rhs.x,
            r.y == self.y - rhs.y,
    {
        Point { x: self.x - rhs.x, y: self.y - rhs.y }
    }
}

impl Size {
    /// Both extents lie in the parsed-length domain.
    pub open spec fn wf(self) -> bool {
        in_len_range(self.width as int) && in_len_range(self.height as int)
    }
}

/// Adding a point and subtracting it again returns the original point
/// exactly, whenever the intermediate sum is representable.
pub proof fn lemma_add_sub_round_trip(a: Point, b: Point)
    requires
        i64::MIN <= a.x + b.x <= i64::MAX,
        i64::MIN <= a.y + b.y <= i64::MAX,
    ensures
        spec_sub(spec_add(a, b), b) == a,
{
}

} // verus!
