use vstd::prelude::*;

verus! {

/// An axis-aligned rectangle on the tile grid, used as a room's bounds.
#[derive(Clone, Copy, Debug, PartialEq, Eq, Structural)]
pub struct Rect {
    pub x1: i32,
    pub x2: i32,
    pub y1: i32,
    pub y2: i32,
}

/// Half of `v`, rounded towards zero as integer division does.
pub open spec fn half_spec(v: int) -> int {
    if v >= 0 {
        v / 2
    } else {
        -((-v) / 2)
    }
}

fn half_toward_zero(v: i64) -> (r: i32)
    requires
        2 * (i32::MIN as int) <= v <= 2 * (i32::MAX as int),
    ensures
        r == half_spec(v as int),
{
    if v >= 0 {
        (v / 2) as i32
    } else {
        (-((-v) / 2)) as i32
    }
}

impl Rect {
    /// Whether the two rectangles overlap, bounds included, on both axes.
    pub open spec fn intersects_spec(&self, other: &Rect) -> bool {
        self.x1 <= other.x2 && self.x2 >= other.x1 && self.y1 <= other.y2 && self.y2 >= other.y1
    }

    /// The midpoint of the rectangle, each coordinate halved towards zero.
    pub open spec fn center_spec(&self) -> (int, int) {
        (half_spec(self.x1 + self.x2), half_spec(self.y1 + self.y2))
    }

    /// A rectangle with its top-left corner at `(x, y)` and the given extent.
    pub fn new(x: i32, y: i32, width: i32, height: i32) -> (r: Rect)
        requires
            i32::MIN <= x + width <= i32::MAX,
            i32::MIN <= y + height <= i32::MAX,
        ensures
            r.x1 == x,
            r.y1 == y,
            r.x2 == x + width,
            r.y2 == y + height,
    {
        Rect { x1: x, y1: y, x2: x + width, y2: y + height }
    }

    /// Whether this rectangle overlaps `other`, bounds included.
    pub fn intersect(&self, other: &Rect) -> (r: bool)
        ensures
            r == self.intersects_spec(other),
    {
        self.x1 <= other.x2 && self.x2 >= other.x1 && self.y1 <= other.y2 && self.y2 >= other.y1
    }

    /// The midpoint of the rectangle, rounded towards zero.
    pub fn center(&self) -> (r: (i32, i32))
        ensures
            r.0 == self.center_spec().0,
            r.1 == self.center_spec().1,
    {
        (half_toward_zero(self.x1 as i64 + self.x2 as i64), half_toward_zero(
            self.y1 as i64 + self.y2 as i64,
        ))
    }
}

} // verus!
