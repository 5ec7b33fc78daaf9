//! Rectangles and circles that the generator places on the grid.

use vstd::prelude::*;

verus! {

/// Quotient of `n` by the positive `d`, rounded toward zero.
pub open spec fn toward_zero(n: int, d: int) -> int
    recommends
        d > 0,
{
    if n >= 0 {
        n / d
    } else {
        -((-n) / d)
    }
}

/// A room: its corners and the number of tunnels that end in it.
#[derive(Clone, Copy, Debug, PartialEq, Eq, Structural)]
pub struct Rect {
    pub x1: i32,
    pub y1: i32,
    pub x2: i32,
    pub y2: i32,
    pub connections: i32,
}

impl Rect {
    /// The rectangle with corner `(x, y)`, width `w` and height `h`.
    pub fn new(x: i32, y: i32, w: i32, h: i32) -> (r: Rect)
        requires
            i32::MIN <= x + w <= i32::MAX,
            i32::MIN <= y + h <= i32::MAX,
        ensures
            r == (Rect { x1: x, y1: y, x2: (x + w) as i32, y2: (y + h) as i32, connections: 0 }),
    {
        Rect { x1: x, y1: y, x2: x + w, y2: y + h, connections: 0 }
    }

    /// The middle of the rectangle, each coordinate rounded toward zero.
    pub open spec fn center_spec(self) -> (int, int) {
        (toward_zero(self.x1 + self.x2, 2), toward_zero(self.y1 + self.y2, 2))
    }

    /// Computes the middle of the rectangle.
    pub fn center(&self) -> (c: (i32, i32))
        ensures
            c.0 == self.center_spec().0,
            c.1 == self.center_spec().1,
    {
        let center_x: i64 = (self.x1 as i64 + self.x2 as i64) / 2;
        let center_y: i64 = (self.y1 as i64 + self.y2 as i64) / 2;
        (center_x as i32, center_y as i32)
    }

    /// Two rectangles intersect when their closed extents overlap on both
    /// axes.
    pub open spec fn intersects(self, other: Rect) -> bool {
        self.x1 <= other.x2 && self.x2 >= other.x1 && self.y1 <= other.y2 && self.y2 >= other.y1
    }

    /// Whether the rectangle intersects `other`.
    pub fn intersects_with(&self, other: &Rect) -> (r: bool)
        ensures
            r == self.intersects(*other),
    {
        (self.x1 <= other.x2) && (self.x2 >= other.x1) && (self.y1 <= other.y2) && (self.y2
            >= other.y1)
    }
}

/// A disc given by the corner of its bounding square and its radius.
#[derive(Clone, Copy, Debug, PartialEq, Eq, Structural)]
pub struct Circle {
    pub radius: i32,
    pub x: i32,
    pub y: i32,
}

impl Circle {
    /// The disc with corner `(x, y)` and radius `radius`.
    pub fn new(x: i32, y: i32, radius: i32) -> (c: Circle)
        ensures
            c == (Circle { radius, x, y }),
    {
        Circle { x, y, radius }
    }

    /// Half of the corner plus the radius on each axis, rounded toward zero.
    pub open spec fn center_spec(self) -> (int, int) {
        (toward_zero(self.x + self.radius, 2), toward_zero(self.y + self.radius, 2))
    }

    /// Computes `center_spec`.
    pub fn center(&self) -> (c: (i32, i32))
        ensures
            c.0 == self.center_spec().0,
            c.1 == self.center_spec().1,
    {
        let center_x: i64 = (self.x as i64 + self.radius as i64) / 2;
        let center_y: i64 = (self.y as i64 + self.radius as i64) / 2;
        (center_x as i32, center_y as i32)
    }
}

} // verus!
