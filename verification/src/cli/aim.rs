//! Picking what a zapped wand or a thrown item flies at: the nearest monster
//! the player can see.

use vstd::prelude::*;
use crate::geometry::Point;
use crate::map::LevelMap;

verus! {

/// Squared straight-line distance.
pub open spec fn sq_dist(a: Point, b: Point) -> int {
    (a.x - b.x) * (a.x - b.x) + (a.y - b.y) * (a.y - b.y)
}

/// The distance a zap is aimed by: squared straight-line distance.
pub open spec fn zap_metric() -> spec_fn(Point, Point) -> int {
    |a: Point, b: Point| sq_dist(a, b)
}

/// The distance a throw is aimed by: king-move distance.
pub open spec fn throw_metric() -> spec_fn(Point, Point) -> int {
    |a: Point, b: Point| a.spec_chebyshev(b)
}

/// `i` is the first, among the monsters at `ps` on visible tiles, of those
/// nearest to `from` by `d`.
pub open spec fn is_nearest(m: &LevelMap, ps: Seq<Point>, from: Point, d: spec_fn(Point, Point) -> int, i: int) -> bool {
    &&& 0 <= i < ps.len()
    &&& m.spec_is_visible(ps[i])
    &&& forall|j: int| 0 <= j < ps.len() && m.spec_is_visible(#[trigger] ps[j]) ==> d(ps[i], from) <= d(ps[j], from)
    &&& forall|j: int| 0 <= j < i && m.spec_is_visible(#[trigger] ps[j]) ==> d(ps[i], from) < d(ps[j], from)
}

/// The pick of a nearest visible monster: `None` exactly when none is visible.
pub open spec fn nearest_ok(m: &LevelMap, ps: Seq<Point>, from: Point, d: spec_fn(Point, Point) -> int, r: Option<usize>) -> bool {
    match r {
        Some(i) => is_nearest(m, ps, from, d, i as int),
        None => forall|j: int| 0 <= j < ps.len() ==> !m.spec_is_visible(#[trigger] ps[j]),
    }
}

fn dist_sq(a: Point, b: Point) -> (r: i128)
    ensures
        r == sq_dist(a, b),
{
    let dx: i128 = a.x as i128 - b.x as i128;
    let dy: i128 = a.y as i128 - b.y as i128;
    proof {
        assert(0 <= dx * dx <= 0x1_0000_0000 * 0x1_0000_0000) by (nonlinear_arith)
            requires -0x1_0000_0000 <= dx <= 0x1_0000_0000;
        assert(0 <= dy * dy <= 0x1_0000_0000 * 0x1_0000_0000) by (nonlinear_arith)
            requires -0x1_0000_0000 <= dy <= 0x1_0000_0000;
    }
    dx * dx + dy * dy
}

fn dist_king(a: Point, b: Point) -> (r: i128)
    ensures
        r == a.spec_chebyshev(b),
{
    let dx: i128 = a.x as i128 - b.x as i128;
    let dy: i128 = a.y as i128 - b.y as i128;
    let ax: i128 = if dx < 0 { -dx } else { dx };
    let ay: i128 = if dy < 0 { -dy } else { dy };
    if ax >= ay { ax } else { ay }
}

/// The first of the nearest visible monsters, by squared distance when
/// `squared`, else by king-move distance.
fn nearest_visible(map: &LevelMap, positions: &[Point], from: Point, squared: bool) -> (r: Option<usize>)
    requires
        map.wf(),
    ensures
        nearest_ok(map, positions@, from, if squared { zap_metric() } else { throw_metric() }, r),
{
    let ghost d = if squared { zap_metric() } else { throw_metric() };
    let ghost ps = positions@;
    let mut best: Option<usize> = None;
    let mut best_d: i128 = 0;
    let mut i: usize = 0;
    while i < positions.len()
        invariant
            map.wf(),
            ps == positions@,
            d == if squared { zap_metric() } else { throw_metric() },
            i <= ps.len(),
            match best {
                Some(k) => {
                    &&& k < i
                    &&& map.spec_is_visible(ps[k as int])
                    &&& best_d == d(ps[k as int], from)
                    &&& forall|j: int| 0 <= j < i && map.spec_is_visible(#[trigger] ps[j]) ==> best_d <= d(ps[j], from)
                    &&& forall|j: int| 0 <= j < k && map.spec_is_visible(#[trigger] ps[j]) ==> best_d < d(ps[j], from)
                },
                None => forall|j: int| 0 <= j < i ==> !map.spec_is_visible(#[trigger] ps[j]),
            },
        decreases ps.len() - i,
    {
        let p = positions[i];
        if map.is_visible(p) {
            let dist = if squared { dist_sq(p, from) } else { dist_king(p, from) };
            assert(dist == d(p, from));
            match best {
                None => {
                    best = Some(i);
                    best_d = dist;
                },
                Some(_) => {
                    if dist < best_d {
                        best = Some(i);
                        best_d = dist;
                    }
                },
            }
        }
        i = i + 1;
    }
    best
}

/// The monster a zap is aimed at: the nearest visible one by straight-line
/// distance, the first of equals; `None` when none is in view.
pub fn zap_target(map: &LevelMap, positions: &[Point], from: Point) -> (r: Option<usize>)
    requires
        map.wf(),
    ensures
        nearest_ok(map, positions@, from, zap_metric(), r),
{
    nearest_visible(map, positions, from, true)
}

/// The monster a thrown item is aimed at: the nearest visible one by king-move
/// distance, the first of equals; `None` when none is in view.
pub fn throw_target(map: &LevelMap, positions: &[Point], from: Point) -> (r: Option<usize>)
    requires
        map.wf(),
    ensures
        nearest_ok(map, positions@, from, throw_metric(), r),
{
    nearest_visible(map, positions, from, false)
}

} // verus!
