//! Basic 2D geometry shared across the game.

use vstd::prelude::*;

verus! {

/// Absolute value of a mathematical integer.
pub open spec fn abs_int(v: int) -> int {
    if v < 0 { -v } else { v }
}

/// Integer division by two rounding toward zero, as Rust's `/` does on `i32`.
pub open spec fn half_toward_zero(v: int) -> int {
    if v >= 0 { v / 2 } else { -((-v) / 2) }
}

/// An integer 2D point / coordinate. `x` is the column, `y` is the row.
#[derive(Debug, Clone, Copy, PartialEq, Eq, Structural, Hash, Default)]
pub struct Point {
    pub x: i32,
    pub y: i32,
}

impl Point {
    pub fn new(x: i32, y: i32) -> (p: Point)
        ensures
            p.x == x,
            p.y == y,
    {
        Point { x, y }
    }

    /// Chebyshev distance in the mathematical integers.
    pub open spec fn spec_chebyshev(self, other: Point) -> int {
        let dx = abs_int(self.x - other.x);
        let dy = abs_int(self.y - other.y);
        if dx >= dy { dx } else { dy }
    }

    /// Manhattan distance in the mathematical integers.
    pub open spec fn spec_manhattan(self, other: Point) -> int {
        abs_int(self.x - other.x) + abs_int(self.y - other.y)
    }

    /// Chebyshev (king-move) distance — matches Rogue's 8-directional movement.
    pub fn chebyshev(self, other: Point) -> (d: i32)
        requires
            abs_int(self.x - other.x) <= i32::MAX,
            abs_int(self.y - other.y) <= i32::MAX,
        ensures
            d == self.spec_chebyshev(other),
    {
        let dx = self.x as i64 - other.x as i64;
        let dy = self.y as i64 - other.y as i64;
        let ax: i64 = if dx < 0 { -dx } else { dx };
        let ay: i64 = if dy < 0 { -dy } else { dy };
        if ax >= ay { ax as i32 } else { ay as i32 }
    }

    /// Manhattan distance.
    pub fn manhattan(self, other: Point) -> (d: i32)
        requires
            self.spec_manhattan(other) <= i32::MAX,
            abs_int(self.x - other.x) <= i32::MAX,
            abs_int(self.y - other.y) <= i32::MAX,
        ensures
            d == self.spec_manhattan(other),
    {
        let dx = self.x as i64 - other.x as i64;
        let dy = self.y as i64 - other.y as i64;
        let ax: i64 = if dx < 0 { -dx } else { dx };
        let ay: i64 = if dy < 0 { -dy } else { dy };
        (ax + ay) as i32
    }

    /// Component-wise sum of two points.
    pub fn offset(self, rhs: Point) -> (p: Point)
        requires
            i32::MIN <= self.x + rhs.x <= i32::MAX,
            i32::MIN <= self.y + rhs.y <= i32::MAX,
        ensures
            p.x == self.x + rhs.x,
            p.y == self.y + rhs.y,
    {
        Point { x: self.x + rhs.x, y: self.y + rhs.y }
    }
}

/// An axis-aligned rectangle, inclusive of `x1,y1`, exclusive of `x2,y2`.
#[derive(Debug, Clone, Copy, PartialEq, Eq, Structural)]
pub struct Rect {
    pub x1: i32,
    pub y1: i32,
    pub x2: i32,
    pub y2: i32,
}

impl Rect {
    pub fn new(x: i32, y: i32, w: i32, h: i32) -> (r: Rect)
        requires
            i32::MIN <= x + w <= i32::MAX,
            i32::MIN <= y + h <= i32::MAX,
        ensures
            r.x1 == x,
            r.y1 == y,
            r.x2 == x + w,
            r.y2 == y + h,
    {
        Rect { x1: x, y1: y, x2: x + w, y2: y + h }
    }

    pub fn width(&self) -> (w: i32)
        requires
            i32::MIN <= self.x2 - self.x1 <= i32::MAX,
        ensures
            w == self.x2 - self.x1,
    {
        self.x2 - self.x1
    }

    pub fn height(&self) -> (h: i32)
        requires
            i32::MIN <= self.y2 - self.y1 <= i32::MAX,
        ensures
            h == self.y2 - self.y1,
    {
        self.y2 - self.y1
    }

    pub fn center(&self) -> (c: Point)
        requires
            i32::MIN <= self.x1 + self.x2 <= i32::MAX,
            i32::MIN <= self.y1 + self.y2 <= i32::MAX,
        ensures
            c.x == half_toward_zero(self.x1 + self.x2),
            c.y == half_toward_zero(self.y1 + self.y2),
    {
        Point::new((self.x1 + self.x2) / 2, (self.y1 + self.y2) / 2)
    }

    pub open spec fn spec_intersects(&self, other: &Rect) -> bool {
        self.x1 <= other.x2 && self.x2 >= other.x1 && self.y1 <= other.y2 && self.y2 >= other.y1
    }

    pub fn intersects(&self, other: &Rect) -> (b: bool)
        ensures
            b == self.spec_intersects(other),
    {
        self.x1 <= other.x2 && self.x2 >= other.x1 && self.y1 <= other.y2 && self.y2 >= other.y1
    }

    pub open spec fn spec_contains(&self, p: Point) -> bool {
        p.x >= self.x1 && p.x < self.x2 && p.y >= self.y1 && p.y < self.y2
    }

    pub fn contains(&self, p: Point) -> (b: bool)
        ensures
            b == self.spec_contains(p),
    {
        p.x >= self.x1 && p.x < self.x2 && p.y >= self.y1 && p.y < self.y2
    }
}

/// Two rectangles overlap symmetrically.
pub proof fn lemma_intersects_symmetric(a: Rect, b: Rect)
    ensures
        a.spec_intersects(&b) == b.spec_intersects(&a),
{
}

/// The Chebyshev distance never exceeds the Manhattan distance, and is at least half of it.
pub proof fn lemma_chebyshev_manhattan(a: Point, b: Point)
    ensures
        a.spec_chebyshev(b) <= a.spec_manhattan(b) <= 2 * a.spec_chebyshev(b),
        a.spec_chebyshev(b) >= 0,
        a.spec_chebyshev(b) == b.spec_chebyshev(a),
        a.spec_manhattan(b) == b.spec_manhattan(a),
{
}

} // verus!
