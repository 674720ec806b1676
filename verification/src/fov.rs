//! Field of view: Bresenham lines cast from the viewer that light tiles up to
//! and including the first opaque one.

use vstd::prelude::*;
use crate::geometry::Point;
use crate::map::{LevelMap, TileKind, lemma_idx_in_range, lemma_idx_injective, spec_opaque};

verus! {

/// Bresenham bookkeeping after `k` steps toward a target `xd` columns and `yd`
/// rows away: the steps taken along each axis and the drift `f` of the
/// error term (`err == xd - yd + f`).
pub open spec fn bres_state(xd: int, yd: int, k: nat) -> (int, int, int)
    decreases k,
{
    if k == 0 {
        (0, 0, 0)
    } else {
        let s = bres_state(xd, yd, (k - 1) as nat);
        let a = s.0;
        let b = s.1;
        let f = s.2;
        if a == xd && b == yd {
            s
        } else {
            let step_x = 2 * f >= yd - 2 * xd;
            let step_y = 2 * f <= 2 * yd - xd;
            let a1 = if step_x { a + 1 } else { a };
            let f1 = if step_x { f - yd } else { f };
            let b1 = if step_y { b + 1 } else { b };
            let f2 = if step_y { f1 + xd } else { f1 };
            (a1, b1, f2)
        }
    }
}

/// `n` steps from `a` toward `b`.
pub open spec fn step_from(a: int, b: int, n: int) -> int {
    if a < b { a + n } else { a - n }
}

pub open spec fn abs_diff(a: int, b: int) -> int {
    if a >= b { a - b } else { b - a }
}

/// The `k`-th point of the Bresenham line from `from` toward `to` (it stays on
/// `to` once there).
pub open spec fn line_point(from: Point, to: Point, k: nat) -> Point {
    let xd = abs_diff(to.x as int, from.x as int);
    let yd = abs_diff(to.y as int, from.y as int);
    let s = bres_state(xd, yd, k);
    Point { x: step_from(from.x as int, to.x as int, s.0) as i32, y: step_from(from.y as int, to.y as int, s.1) as i32 }
}

/// The line ends at its `k`-th point: the target, or an opaque tile past the start.
pub open spec fn stops_at(m: &LevelMap, from: Point, to: Point, k: nat) -> bool {
    let q = line_point(from, to, k);
    q == to || (q != from && spec_opaque(m.spec_tile(q)))
}

/// The line from `from` toward `to` passes over `q` before it ends.
pub open spec fn line_visits(m: &LevelMap, from: Point, to: Point, q: Point) -> bool {
    exists|k: nat| #[trigger] line_point(from, to, k) == q && forall|j: nat| j < k ==> !stops_at(m, from, to, j)
}

/// One of the first `k` points of the line is `r`.
pub open spec fn line_prefix_has(from: Point, to: Point, k: nat, r: Point) -> bool {
    exists|j: nat| j < k && #[trigger] line_point(from, to, j) == r
}

/// The bookkeeping stays consistent: steps within the offsets, the drift equal to
/// `xd * b - yd * a` and bounded.
pub open spec fn bres_inv(xd: int, yd: int, s: (int, int, int)) -> bool {
    &&& 0 <= s.0 <= xd
    &&& 0 <= s.1 <= yd
    &&& s.2 == xd * s.1 - yd * s.0
    &&& -2 * yd - xd <= 2 * s.2 <= 2 * xd + yd
}

/// Each step keeps the bookkeeping consistent and, short of the target, moves
/// strictly closer to it.
pub proof fn lemma_bres_step(xd: int, yd: int, k: nat)
    requires
        xd >= 0,
        yd >= 0,
        bres_inv(xd, yd, bres_state(xd, yd, k)),
    ensures
        bres_inv(xd, yd, bres_state(xd, yd, k + 1)),
        ({
            let s = bres_state(xd, yd, k);
            let t = bres_state(xd, yd, k + 1);
            (s.0 == xd && s.1 == yd) ==> t == s
        }),
        ({
            let s = bres_state(xd, yd, k);
            let t = bres_state(xd, yd, k + 1);
            !(s.0 == xd && s.1 == yd) ==> (xd - t.0) + (yd - t.1) < (xd - s.0) + (yd - s.1)
                && s.0 <= t.0 <= s.0 + 1 && s.1 <= t.1 <= s.1 + 1
        }),
{
    let s = bres_state(xd, yd, k);
    let a = s.0;
    let b = s.1;
    let f = s.2;
    assert(bres_state(xd, yd, k + 1) == (if a == xd && b == yd {
        s
    } else {
        let step_x = 2 * f >= yd - 2 * xd;
        let step_y = 2 * f <= 2 * yd - xd;
        (if step_x { a + 1 } else { a }, if step_y { b + 1 } else { b },
            if step_y { (if step_x { f - yd } else { f }) + xd } else { if step_x { f - yd } else { f } })
    }));
    if !(a == xd && b == yd) {
        let step_x = 2 * f >= yd - 2 * xd;
        let step_y = 2 * f <= 2 * yd - xd;
        // At least one axis moves.
        assert(step_x || step_y);
        // Neither axis overshoots.
        if a == xd {
            assert(b < yd);
            assert(xd * b - yd * xd <= -xd) by (nonlinear_arith)
                requires b < yd, xd >= 0;
            assert(!step_x);
        }
        if b == yd {
            assert(a < xd);
            assert(xd * yd - yd * a >= yd) by (nonlinear_arith)
                requires a < xd, yd >= 0;
            assert(!step_y);
        }
        let a1 = if step_x { a + 1 } else { a };
        let b1 = if step_y { b + 1 } else { b };
        let f1 = if step_x { f - yd } else { f };
        let f2 = if step_y { f1 + xd } else { f1 };
        assert(f2 == xd * b1 - yd * a1) by (nonlinear_arith)
            requires
                f == xd * b - yd * a,
                a1 == (if step_x { a + 1 } else { a }),
                b1 == (if step_y { b + 1 } else { b }),
                f1 == (if step_x { f - yd } else { f }),
                f2 == (if step_y { f1 + xd } else { f1 });
    }
}

/// The bookkeeping is consistent after any number of steps.
pub proof fn lemma_bres_inv(xd: int, yd: int, k: nat)
    requires
        xd >= 0,
        yd >= 0,
    ensures
        bres_inv(xd, yd, bres_state(xd, yd, k)),
    decreases k,
{
    if k > 0 {
        lemma_bres_inv(xd, yd, (k - 1) as nat);
        lemma_bres_step(xd, yd, (k - 1) as nat);
    }
}

impl LevelMap {
    /// Reveal tiles along a Bresenham line from `from` to `to`, stopping after
    /// the first opaque tile (which is itself revealed, so walls are seen).
    pub fn reveal_line(&mut self, from: Point, to: Point)
        requires
            old(self).wf(),
            abs_diff(to.x as int, from.x as int) <= 0x1000_0000,
            abs_diff(to.y as int, from.y as int) <= 0x1000_0000,
        ensures
            final(self).wf(),
            final(self).same_except_sight(*old(self)),
            forall|q: Point|
                #[trigger] final(self).spec_is_visible(q) == (old(self).spec_is_visible(q)
                    || (old(self).spec_in_bounds(q) && line_visits(old(self), from, to, q))),
            forall|q: Point|
                #[trigger] final(self).spec_is_revealed(q) == (old(self).spec_is_revealed(q)
                    || (old(self).spec_in_bounds(q) && line_visits(old(self), from, to, q))),
    {
        let ghost start = *self;
        let ghost xd = abs_diff(to.x as int, from.x as int);
        let ghost yd = abs_diff(to.y as int, from.y as int);
        let mut x0 = from.x;
        let mut y0 = from.y;
        let x1 = to.x;
        let y1 = to.y;
        let dx: i32 = if x1 >= x0 { x1 - x0 } else { x0 - x1 };
        let sx: i32 = if x0 < x1 { 1 } else { -1 };
        let dy: i32 = if y1 >= y0 { -(y1 - y0) } else { -(y0 - y1) };
        let sy: i32 = if y0 < y1 { 1 } else { -1 };
        let mut err = dx + dy;
        let ghost mut k: nat = 0;
        proof {
            lemma_bres_inv(xd, yd, 0);
        }
        loop
            invariant_except_break
                bres_inv(xd, yd, bres_state(xd, yd, k)),
                x0 == step_from(from.x as int, to.x as int, bres_state(xd, yd, k).0),
                y0 == step_from(from.y as int, to.y as int, bres_state(xd, yd, k).1),
                err == xd - yd + bres_state(xd, yd, k).2,
                line_point(from, to, k) == (Point { x: x0, y: y0 }),
                forall|j: nat| j < k ==> !stops_at(&start, from, to, j),
                forall|q: Point|
                    #[trigger] self.spec_is_visible(q) == (start.spec_is_visible(q)
                        || (start.spec_in_bounds(q) && line_prefix_has(from, to, k, q))),
                forall|q: Point|
                    #[trigger] self.spec_is_revealed(q) == (start.spec_is_revealed(q)
                        || (start.spec_in_bounds(q) && line_prefix_has(from, to, k, q))),
            invariant
                start.wf(),
                self.wf(),
                self.same_except_sight(start),
                xd == abs_diff(to.x as int, from.x as int),
                yd == abs_diff(to.y as int, from.y as int),
                xd <= 0x1000_0000,
                yd <= 0x1000_0000,
                dx == xd,
                dy == -yd,
                sx == (if from.x < to.x { 1int } else { -1int }),
                sy == (if from.y < to.y { 1int } else { -1int }),
                x1 == to.x,
                y1 == to.y,
            ensures
                forall|q: Point|
                    #[trigger] self.spec_is_visible(q) == (start.spec_is_visible(q)
                        || (start.spec_in_bounds(q) && line_visits(&start, from, to, q))),
                forall|q: Point|
                    #[trigger] self.spec_is_revealed(q) == (start.spec_is_revealed(q)
                        || (start.spec_in_bounds(q) && line_visits(&start, from, to, q))),
            decreases (xd - bres_state(xd, yd, k).0) + (yd - bres_state(xd, yd, k).1),
        {
            let q = Point::new(x0, y0);
            let ghost before = *self;
            self.set_visible(q);
            proof {
                assert forall|r: Point|
                    #[trigger] self.spec_is_revealed(r) == (before.spec_is_revealed(r) || (r == q && before.spec_in_bounds(q))) by {
                    if before.spec_in_bounds(q) {
                        lemma_idx_in_range(&before, q);
                    }
                    if before.spec_in_bounds(r) {
                        lemma_idx_in_range(&before, r);
                        if r != q && before.spec_in_bounds(q) {
                            lemma_idx_injective(&before, r, q);
                        }
                    }
                }
                assert forall|r: Point|
                    #[trigger] self.spec_is_visible(r) == (before.spec_is_visible(r) || (r == q && before.spec_in_bounds(q))) by {
                    if before.spec_in_bounds(q) {
                        lemma_idx_in_range(&before, q);
                    }
                    if before.spec_in_bounds(r) {
                        lemma_idx_in_range(&before, r);
                        if r != q && before.spec_in_bounds(q) {
                            lemma_idx_injective(&before, r, q);
                        }
                    }
                }
                assert forall|r: Point|
                    #[trigger] line_prefix_has(from, to, k + 1, r) <==> (line_prefix_has(from, to, k, r) || r == q) by {
                    if line_prefix_has(from, to, k + 1, r) {
                        let j = choose|j: nat| j < k + 1 && #[trigger] line_point(from, to, j) == r;
                        if j < k {
                        } else {
                            assert(j == k);
                        }
                    }
                    if r == q {
                        assert(line_point(from, to, k) == r);
                    }
                }
            }
            if x0 == x1 && y0 == y1 {
                proof {
                    assert(stops_at(&start, from, to, k));
                    lemma_line_ends(&start, from, to, k);
                }
                break;
            }
            if (q.x != from.x || q.y != from.y) && self.is_opaque(q) {
                proof {
                    assert(self.spec_tile(q) == start.spec_tile(q));
                    assert(stops_at(&start, from, to, k));
                    lemma_line_ends(&start, from, to, k);
                }
                break;
            }
            assert(!stops_at(&start, from, to, k)) by {
                assert(self.spec_tile(q) == start.spec_tile(q));
            }
            proof {
                lemma_bres_step(xd, yd, k);
            }
            let e2 = 2 * err;
            if e2 >= dy {
                err = err + dy;
                x0 = x0 + sx;
            }
            if e2 <= dx {
                err = err + dx;
                y0 = y0 + sy;
            }
            proof {
                k = k + 1;
            }
        }
    }
}

/// `t` lies in the disc of the given radius around `p`.
pub open spec fn in_sight_disc(p: Point, radius: int, t: Point) -> bool {
    let dx = t.x - p.x;
    let dy = t.y - p.y;
    -radius <= dx <= radius && -radius <= dy <= radius && dx * dx + dy * dy <= radius * radius
}

/// Lines cast from `p` to the targets scanned so far (rows above `row`, and
/// row `row` left of `col`) pass over `q`.
pub open spec fn seen_so_far(m: &LevelMap, p: Point, radius: int, row: int, col: int, q: Point) -> bool {
    exists|t: Point|
        #![trigger line_visits(m, p, t, q)]
        in_sight_disc(p, radius, t) && (t.y < row || (t.y == row && t.x < col)) && line_visits(m, p, t, q)
}

/// A viewer at `p` with sight `radius` sees `q`: some line cast to a target in
/// the disc passes over it, or it is next to the viewer.
pub open spec fn sees(m: &LevelMap, p: Point, radius: int, q: Point) -> bool {
    ||| exists|t: Point| #![trigger line_visits(m, p, t, q)] in_sight_disc(p, radius, t) && line_visits(m, p, t, q)
    ||| (-1 <= q.x - p.x <= 1 && -1 <= q.y - p.y <= 1)
}

impl LevelMap {
    /// Recompute what a viewer at `p` sees: clear the current view, cast a line
    /// to every tile within `radius` (revealing up to and including the first
    /// opaque tile), and always light the eight surrounding tiles.
    pub fn field_of_view(&mut self, p: Point, radius: i32)
        requires
            old(self).wf(),
            0 <= radius <= 0x4000,
            i32::MIN + 0x4000 <= p.x <= i32::MAX - 0x4000,
            i32::MIN + 0x4000 <= p.y <= i32::MAX - 0x4000,
        ensures
            final(self).wf(),
            final(self).same_except_sight(*old(self)),
            forall|q: Point|
                #[trigger] final(self).spec_is_visible(q) == (old(self).spec_in_bounds(q) && sees(old(self), p, radius as int, q)),
            forall|q: Point|
                #[trigger] final(self).spec_is_revealed(q) == (old(self).spec_is_revealed(q)
                    || (old(self).spec_in_bounds(q) && sees(old(self), p, radius as int, q))),
    {
        let ghost start = *self;
        self.clear_visible();
        proof {
            assert forall|q: Point| !#[trigger] self.spec_is_visible(q) by {
                if self.spec_in_bounds(q) {
                    lemma_idx_in_range(self, q);
                }
            }
        }
        let mut dy: i32 = -radius;
        while dy <= radius
            invariant
                start.wf(),
                self.wf(),
                self.same_except_sight(start),
                0 <= radius <= 0x4000,
                i32::MIN + 0x4000 <= p.x <= i32::MAX - 0x4000,
                i32::MIN + 0x4000 <= p.y <= i32::MAX - 0x4000,
                -radius <= dy <= radius + 1,
                forall|q: Point|
                    #[trigger] self.spec_is_visible(q) == (start.spec_in_bounds(q) && seen_so_far(&start, p, radius as int, p.y + dy, p.x - radius, q)),
                forall|q: Point|
                    #[trigger] self.spec_is_revealed(q) == (start.spec_is_revealed(q)
                        || (start.spec_in_bounds(q) && seen_so_far(&start, p, radius as int, p.y + dy, p.x - radius, q))),
            decreases radius + 1 - dy,
        {
            let mut dx: i32 = -radius;
            while dx <= radius
                invariant
                    start.wf(),
                    self.wf(),
                    self.same_except_sight(start),
                    0 <= radius <= 0x4000,
                    i32::MIN + 0x4000 <= p.x <= i32::MAX - 0x4000,
                    i32::MIN + 0x4000 <= p.y <= i32::MAX - 0x4000,
                    -radius <= dy <= radius,
                    -radius <= dx <= radius + 1,
                    forall|q: Point|
                        #[trigger] self.spec_is_visible(q) == (start.spec_in_bounds(q) && seen_so_far(&start, p, radius as int, p.y + dy, p.x + dx, q)),
                    forall|q: Point|
                        #[trigger] self.spec_is_revealed(q) == (start.spec_is_revealed(q)
                            || (start.spec_in_bounds(q) && seen_so_far(&start, p, radius as int, p.y + dy, p.x + dx, q))),
                decreases radius + 1 - dx,
            {
                let t = Point::new(p.x + dx, p.y + dy);
                proof {
                    assert(dx * dx <= 0x1000_0000 && dy * dy <= 0x1000_0000 && radius * radius <= 0x1000_0000
                        && dx * dx >= 0 && dy * dy >= 0) by (nonlinear_arith)
                        requires -0x4000 <= dx <= 0x4000, -0x4000 <= dy <= 0x4000, 0 <= radius <= 0x4000;
                }
                if dx * dx + dy * dy <= radius * radius {
                    let ghost before = *self;
                    self.reveal_line(p, t);
                    proof {
                        assert forall|q: Point| #[trigger] line_visits(&before, p, t, q) == line_visits(&start, p, t, q) by {
                            lemma_line_visits_same_tiles(&before, &start, p, t, q);
                        }
                        assert forall|q: Point|
                            #[trigger] seen_so_far(&start, p, radius as int, p.y + dy, p.x + dx + 1, q) == (
                            seen_so_far(&start, p, radius as int, p.y + dy, p.x + dx, q) || line_visits(&start, p, t, q)) by {
                            if seen_so_far(&start, p, radius as int, p.y + dy, p.x + dx + 1, q) {
                                let w = choose|w: Point|
                                    #![trigger line_visits(&start, p, w, q)]
                                    in_sight_disc(p, radius as int, w) && (w.y < p.y + dy || (w.y == p.y + dy && w.x < p.x + dx + 1))
                                        && line_visits(&start, p, w, q);
                                if !(w.y < p.y + dy || (w.y == p.y + dy && w.x < p.x + dx)) {
                                    assert(w == t);
                                }
                            }
                            if line_visits(&start, p, t, q) {
                                assert(in_sight_disc(p, radius as int, t));
                            }
                        }
                    }
                } else {
                    proof {
                        assert forall|q: Point|
                            #[trigger] seen_so_far(&start, p, radius as int, p.y + dy, p.x + dx + 1, q) == seen_so_far(
                            &start, p, radius as int, p.y + dy, p.x + dx, q) by {
                            if seen_so_far(&start, p, radius as int, p.y + dy, p.x + dx + 1, q) {
                                let w = choose|w: Point|
                                    #![trigger line_visits(&start, p, w, q)]
                                    in_sight_disc(p, radius as int, w) && (w.y < p.y + dy || (w.y == p.y + dy && w.x < p.x + dx + 1))
                                        && line_visits(&start, p, w, q);
                                if !(w.y < p.y + dy || (w.y == p.y + dy && w.x < p.x + dx)) {
                                    assert(w == t);
                                }
                            }
                        }
                    }
                }
                dx = dx + 1;
            }
            proof {
                assert forall|q: Point|
                    #[trigger] seen_so_far(&start, p, radius as int, p.y + dy + 1, p.x - radius, q) == seen_so_far(
                    &start, p, radius as int, p.y + dy, p.x + radius + 1, q) by {
                    if seen_so_far(&start, p, radius as int, p.y + dy + 1, p.x - radius, q) {
                        let w = choose|w: Point|
                            #![trigger line_visits(&start, p, w, q)]
                            in_sight_disc(p, radius as int, w) && (w.y < p.y + dy + 1 || (w.y == p.y + dy + 1 && w.x < p.x - radius))
                                && line_visits(&start, p, w, q);
                        assert(w.y < p.y + dy || (w.y == p.y + dy && w.x < p.x + radius + 1));
                    }
                    if seen_so_far(&start, p, radius as int, p.y + dy, p.x + radius + 1, q) {
                        let w = choose|w: Point|
                            #![trigger line_visits(&start, p, w, q)]
                            in_sight_disc(p, radius as int, w) && (w.y < p.y + dy || (w.y == p.y + dy && w.x < p.x + radius + 1))
                                && line_visits(&start, p, w, q);
                        assert(w.y < p.y + dy + 1);
                    }
                }
            }
            dy = dy + 1;
        }
        proof {
            assert forall|q: Point|
                #[trigger] seen_so_far(&start, p, radius as int, p.y + radius + 1, p.x - radius, q) == (exists|t: Point|
                    #![trigger line_visits(&start, p, t, q)]
                    in_sight_disc(p, radius as int, t) && line_visits(&start, p, t, q)) by {
                if exists|t: Point| #![trigger line_visits(&start, p, t, q)] in_sight_disc(p, radius as int, t) && line_visits(&start, p, t, q) {
                    let w = choose|w: Point| #![trigger line_visits(&start, p, w, q)] in_sight_disc(p, radius as int, w) && line_visits(&start, p, w, q);
                    assert(w.y < p.y + radius + 1);
                }
            }
        }
        // Always see the immediate ring.
        let mut ry: i32 = -1;
        while ry <= 1
            invariant
                start.wf(),
                self.wf(),
                self.same_except_sight(start),
                i32::MIN + 0x4000 <= p.x <= i32::MAX - 0x4000,
                i32::MIN + 0x4000 <= p.y <= i32::MAX - 0x4000,
                -1 <= ry <= 2,
                forall|q: Point|
                    #[trigger] self.spec_is_visible(q) == (start.spec_in_bounds(q) && (seen_so_far(&start, p, radius as int, p.y + radius + 1, p.x - radius, q)
                        || (-1 <= q.x - p.x <= 1 && -1 <= q.y - p.y < ry))),
                forall|q: Point|
                    #[trigger] self.spec_is_revealed(q) == (start.spec_is_revealed(q) || (start.spec_in_bounds(q) && (seen_so_far(&start, p, radius as int, p.y + radius + 1, p.x - radius, q)
                        || (-1 <= q.x - p.x <= 1 && -1 <= q.y - p.y < ry)))),
            decreases 2 - ry,
        {
            let mut rx: i32 = -1;
            while rx <= 1
                invariant
                    start.wf(),
                    self.wf(),
                    self.same_except_sight(start),
                    i32::MIN + 0x4000 <= p.x <= i32::MAX - 0x4000,
                    i32::MIN + 0x4000 <= p.y <= i32::MAX - 0x4000,
                    -1 <= ry <= 1,
                    -1 <= rx <= 2,
                    forall|q: Point|
                        #[trigger] self.spec_is_visible(q) == (start.spec_in_bounds(q) && (seen_so_far(&start, p, radius as int, p.y + radius + 1, p.x - radius, q)
                            || (-1 <= q.x - p.x <= 1 && -1 <= q.y - p.y < ry) || (q.y == p.y + ry && -1 <= q.x - p.x < rx))),
                    forall|q: Point|
                        #[trigger] self.spec_is_revealed(q) == (start.spec_is_revealed(q) || (start.spec_in_bounds(q) && (seen_so_far(&start, p, radius as int, p.y + radius + 1, p.x - radius, q)
                            || (-1 <= q.x - p.x <= 1 && -1 <= q.y - p.y < ry) || (q.y == p.y + ry && -1 <= q.x - p.x < rx)))),
                decreases 2 - rx,
            {
                let c = Point::new(p.x + rx, p.y + ry);
                let ghost before = *self;
                self.set_visible(c);
                proof {
                    assert forall|r: Point|
                        #[trigger] self.spec_is_visible(r) == (before.spec_is_visible(r) || (r == c && before.spec_in_bounds(c))) by {
                        lemma_set_visible_at(&before, self, c, r);
                    }
                    assert forall|r: Point|
                        #[trigger] self.spec_is_revealed(r) == (before.spec_is_revealed(r) || (r == c && before.spec_in_bounds(c))) by {
                        lemma_set_visible_at(&before, self, c, r);
                    }
                }
                rx = rx + 1;
            }
            ry = ry + 1;
        }
    }
}

impl LevelMap {
    /// Magic mapping: reveal every tile of the level that is not rock.
    pub fn magic_mapping(&mut self)
        requires
            old(self).wf(),
        ensures
            final(self).wf(),
            final(self).same_except_sight(*old(self)),
            final(self).visible_seq() == old(self).visible_seq(),
            forall|q: Point|
                #[trigger] final(self).spec_is_revealed(q) == (old(self).spec_is_revealed(q) || (old(self).spec_in_bounds(q)
                    && old(self).spec_tile(q) != TileKind::Empty)),
    {
        let ghost start = *self;
        let mut y: i32 = 0;
        while y < self.height
            invariant
                start.wf(),
                self.wf(),
                self.same_except_sight(start),
                self.visible_seq() == start.visible_seq(),
                0 <= y <= self.height,
                forall|q: Point|
                    #[trigger] self.spec_is_revealed(q) == (start.spec_is_revealed(q) || (start.spec_in_bounds(q)
                        && start.spec_tile(q) != TileKind::Empty && q.y < y)),
            decreases self.height - y,
        {
            let mut x: i32 = 0;
            while x < self.width
                invariant
                    start.wf(),
                    self.wf(),
                    self.same_except_sight(start),
                    self.visible_seq() == start.visible_seq(),
                    0 <= y < self.height,
                    0 <= x <= self.width,
                    forall|q: Point|
                        #[trigger] self.spec_is_revealed(q) == (start.spec_is_revealed(q) || (start.spec_in_bounds(q)
                            && start.spec_tile(q) != TileKind::Empty && (q.y < y || (q.y == y && q.x < x)))),
                decreases self.width - x,
            {
                let p = Point::new(x, y);
                if self.tile(p) != TileKind::Empty {
                    let ghost before = *self;
                    self.reveal_tile(p);
                    proof {
                        assert forall|r: Point|
                            #[trigger] self.spec_is_revealed(r) == (before.spec_is_revealed(r) || r == p) by {
                            lemma_idx_in_range(&before, p);
                            if before.spec_in_bounds(r) {
                                lemma_idx_in_range(&before, r);
                                if r != p {
                                    lemma_idx_injective(&before, r, p);
                                }
                            }
                        }
                    }
                }
                x = x + 1;
            }
            y = y + 1;
        }
    }
}

/// After `set_visible(c)`, exactly `c` (if on the map) joins the visible and revealed tiles.
proof fn lemma_set_visible_at(before: &LevelMap, after: &LevelMap, c: Point, r: Point)
    requires
        before.wf(),
        after.wf(),
        after.same_except_sight(*before),
        after.visible_seq() == (if before.spec_in_bounds(c) { before.visible_seq().update(before.spec_idx(c), true) } else { before.visible_seq() }),
        after.revealed_seq() == (if before.spec_in_bounds(c) { before.revealed_seq().update(before.spec_idx(c), true) } else { before.revealed_seq() }),
    ensures
        after.spec_is_visible(r) == (before.spec_is_visible(r) || (r == c && before.spec_in_bounds(c))),
        after.spec_is_revealed(r) == (before.spec_is_revealed(r) || (r == c && before.spec_in_bounds(c))),
{
    if before.spec_in_bounds(c) {
        lemma_idx_in_range(before, c);
    }
    if before.spec_in_bounds(r) {
        lemma_idx_in_range(before, r);
        if r != c && before.spec_in_bounds(c) {
            lemma_idx_injective(before, r, c);
        }
    }
}

/// Which tiles a line passes over depends on the tiles alone.
proof fn lemma_line_visits_same_tiles(a: &LevelMap, b: &LevelMap, from: Point, to: Point, q: Point)
    requires
        a.width == b.width,
        a.height == b.height,
        a.tile_seq() == b.tile_seq(),
    ensures
        line_visits(a, from, to, q) == line_visits(b, from, to, q),
{
    assert forall|j: nat| #[trigger] stops_at(a, from, to, j) == stops_at(b, from, to, j) by {
        let pt = line_point(from, to, j);
        assert(a.spec_tile(pt) == b.spec_tile(pt));
    }
    if line_visits(a, from, to, q) {
        let k = choose|k: nat| #[trigger] line_point(from, to, k) == q && forall|j: nat| j < k ==> !stops_at(a, from, to, j);
        assert forall|j: nat| j < k implies !stops_at(b, from, to, j) by {
            assert(stops_at(a, from, to, j) == stops_at(b, from, to, j));
        }
    }
    if line_visits(b, from, to, q) {
        let k = choose|k: nat| #[trigger] line_point(from, to, k) == q && forall|j: nat| j < k ==> !stops_at(b, from, to, j);
        assert forall|j: nat| j < k implies !stops_at(a, from, to, j) by {
            assert(stops_at(a, from, to, j) == stops_at(b, from, to, j));
        }
    }
}

/// Once the line stops at its `k`-th point, it visits exactly its first `k + 1` points.
proof fn lemma_line_ends(m: &LevelMap, from: Point, to: Point, k: nat)
    requires
        stops_at(m, from, to, k),
        forall|j: nat| j < k ==> !stops_at(m, from, to, j),
    ensures
        forall|q: Point| #[trigger] line_visits(m, from, to, q) <==> line_prefix_has(from, to, k + 1, q),
{
    assert forall|q: Point| #[trigger] line_visits(m, from, to, q) implies line_prefix_has(from, to, k + 1, q) by {
        let w = choose|w: nat| #[trigger] line_point(from, to, w) == q && forall|j: nat| j < w ==> !stops_at(m, from, to, j);
        if w > k {
            assert(!stops_at(m, from, to, k));
        }
        assert(w < k + 1 && line_point(from, to, w) == q);
    }
    assert forall|q: Point| line_prefix_has(from, to, k + 1, q) implies #[trigger] line_visits(m, from, to, q) by {
        let w = choose|w: nat| w < k + 1 && #[trigger] line_point(from, to, w) == q;
        assert forall|j: nat| j < w implies !stops_at(m, from, to, j) by {
            assert(j < k);
        }
    }
}

} // verus!
