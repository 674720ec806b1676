//! Breadth-first path finding and reachability on a level map.

use vstd::prelude::*;
use crate::geometry::Point;
use crate::map::{
    LevelMap, adjacent8, count_true, lemma_count_true_le, lemma_count_true_set, lemma_idx_in_range, lemma_idx_injective,
};
use std::collections::VecDeque;
use crate::map::{TileKind, spec_glyph};
use crate::text::push_char;

verus! {

/// The eight king-move directions, in the order the search tries them.
pub open spec fn dir_at(k: int) -> (int, int) {
    if k == 0 {
        (1, 0)
    } else if k == 1 {
        (-1, 0)
    } else if k == 2 {
        (0, 1)
    } else if k == 3 {
        (0, -1)
    } else if k == 4 {
        (1, 1)
    } else if k == 5 {
        (1, -1)
    } else if k == 6 {
        (-1, 1)
    } else {
        (-1, -1)
    }
}

fn dir_exec(k: usize) -> (d: (i32, i32))
    requires
        k < 8,
    ensures
        d.0 == dir_at(k as int).0,
        d.1 == dir_at(k as int).1,
{
    if k == 0 {
        (1, 0)
    } else if k == 1 {
        (-1, 0)
    } else if k == 2 {
        (0, 1)
    } else if k == 3 {
        (0, -1)
    } else if k == 4 {
        (1, 1)
    } else if k == 5 {
        (1, -1)
    } else if k == 6 {
        (-1, 1)
    } else {
        (-1, -1)
    }
}

proof fn lemma_adjacent_is_dir(c: Point, d: Point)
    requires
        adjacent8(c, d),
    ensures
        exists|k: int| 0 <= k < 8 && d.x == c.x + dir_at(k).0 && d.y == c.y + dir_at(k).1,
{
    let dx = d.x - c.x;
    let dy = d.y - c.y;
    if dx == 1 && dy == 0 {
        assert(d.x == c.x + dir_at(0).0 && d.y == c.y + dir_at(0).1);
    } else if dx == -1 && dy == 0 {
        assert(d.x == c.x + dir_at(1).0 && d.y == c.y + dir_at(1).1);
    } else if dx == 0 && dy == 1 {
        assert(d.x == c.x + dir_at(2).0 && d.y == c.y + dir_at(2).1);
    } else if dx == 0 && dy == -1 {
        assert(d.x == c.x + dir_at(3).0 && d.y == c.y + dir_at(3).1);
    } else if dx == 1 && dy == 1 {
        assert(d.x == c.x + dir_at(4).0 && d.y == c.y + dir_at(4).1);
    } else if dx == 1 && dy == -1 {
        assert(d.x == c.x + dir_at(5).0 && d.y == c.y + dir_at(5).1);
    } else if dx == -1 && dy == 1 {
        assert(d.x == c.x + dir_at(6).0 && d.y == c.y + dir_at(6).1);
    } else {
        assert(d.x == c.x + dir_at(7).0 && d.y == c.y + dir_at(7).1);
    }
}

/// The neighbour of `c` in direction `j`.
pub open spec fn step_to(c: Point, j: int) -> Point {
    Point { x: (c.x + dir_at(j).0) as i32, y: (c.y + dir_at(j).1) as i32 }
}

/// Has the search reached `q` (the start counts as reached)?
pub open spec fn reached(m: &LevelMap, seen: Seq<bool>, from: Point, q: Point) -> bool {
    q == from || (m.spec_in_bounds(q) && seen[m.spec_idx(q)])
}

/// Every reached cell other than the start is a walkable cell whose recorded
/// parent is a king-move away and one step closer to the start.
pub open spec fn parents_ok(m: &LevelMap, seen: Seq<bool>, parent: Seq<Point>, dist: Seq<int>, from: Point) -> bool {
    forall|q: Point|
        #![trigger reached(m, seen, from, q)]
        q != from && reached(m, seen, from, q) ==> {
            let i = m.spec_idx(q);
            let p = parent[i];
            &&& m.spec_in_bounds(q)
            &&& m.spec_is_walkable(q)
            &&& adjacent8(p, q)
            &&& dist[i] >= 1
            &&& (p == from ==> dist[i] == 1)
            &&& (p != from ==> m.spec_in_bounds(p) && seen[m.spec_idx(p)] && dist[m.spec_idx(p)] == dist[i] - 1)
        }
}

/// Every neighbour of a finished cell has been reached.
pub open spec fn closed_under_steps(m: &LevelMap, seen: Seq<bool>, from: Point, done: Set<Point>) -> bool {
    forall|c: Point, d: Point|
        #![trigger done.contains(c), reached(m, seen, from, d)]
        done.contains(c) && adjacent8(c, d) && m.spec_is_walkable(d) ==> reached(m, seen, from, d)
}

proof fn lemma_no_walk_escapes(m: &LevelMap, seen: Seq<bool>, from: Point, done: Set<Point>, to: Point, path: Seq<Point>)
    requires
        closed_under_steps(m, seen, from, done),
        forall|q: Point| reached(m, seen, from, q) ==> done.contains(q),
        m.is_path(from, to, path),
        path.len() > 0,
    ensures
        reached(m, seen, from, to),
{
    assert forall|i: int| 0 <= i < path.len() implies reached(m, seen, from, #[trigger] path[i]) by {
        lemma_walk_prefix_reached(m, seen, from, done, path, i);
    }
    assert(path[path.len() - 1] == to);
}

proof fn lemma_walk_prefix_reached(m: &LevelMap, seen: Seq<bool>, from: Point, done: Set<Point>, path: Seq<Point>, i: int)
    requires
        closed_under_steps(m, seen, from, done),
        forall|q: Point| reached(m, seen, from, q) ==> done.contains(q),
        m.is_walk(from, path),
        0 <= i < path.len(),
    ensures
        reached(m, seen, from, path[i]),
    decreases i,
{
    let prev = if i == 0 { from } else { path[i - 1] };
    if i > 0 {
        lemma_walk_prefix_reached(m, seen, from, done, path, i - 1);
    }
    assert(reached(m, seen, from, prev));
    assert(done.contains(prev));
    assert(m.spec_is_walkable(path[i]) && adjacent8(prev, path[i]));
}

/// Search distance of a reached cell: 0 for the start, else its recorded distance.
pub open spec fn dist_of(m: &LevelMap, dist: Seq<int>, from: Point, q: Point) -> int {
    if q == from { 0 } else { dist[m.spec_idx(q)] }
}

/// Some walk from `from` reaches `u` in fewer than `k` steps.
pub open spec fn walk_shorter(m: &LevelMap, from: Point, u: Point, k: int) -> bool {
    exists|w: Seq<Point>| m.is_path(from, u, w) && w.len() < k
}

/// No walk to a reached cell is shorter than its recorded distance.
pub open spec fn dists_minimal(m: &LevelMap, seen: Seq<bool>, dist: Seq<int>, from: Point) -> bool {
    forall|q: Point, w: Seq<Point>|
        #![trigger reached(m, seen, from, q), m.is_path(from, q, w)]
        reached(m, seen, from, q) && m.is_path(from, q, w) ==> dist_of(m, dist, from, q) <= w.len()
}

/// The queue holds cells in order of distance, all at `level` or `level + 1`.
pub open spec fn queue_layered(m: &LevelMap, dist: Seq<int>, from: Point, queue: Seq<Point>, level: int) -> bool {
    &&& forall|j: int, k: int|
        0 <= j < k < queue.len() ==> dist_of(m, dist, from, #[trigger] queue[j]) <= dist_of(m, dist, from, #[trigger] queue[k])
    &&& forall|j: int| 0 <= j < queue.len() ==> level <= dist_of(m, dist, from, #[trigger] queue[j]) <= level + 1
}

/// Every cell some walk reaches in fewer than `level` steps is finished.
pub open spec fn shorter_done(m: &LevelMap, from: Point, done: Set<Point>, level: int) -> bool {
    forall|u: Point| #[trigger] walk_shorter(m, from, u, level) ==> done.contains(u)
}

/// A walk of at least one step ends next to the end of its own prefix.
proof fn lemma_walk_pred(m: &LevelMap, from: Point, u: Point, w: Seq<Point>)
    requires
        m.is_path(from, u, w),
        w.len() >= 1,
    ensures
        ({
            let p = if w.len() == 1 { from } else { w[w.len() - 2] };
            &&& m.is_path(from, p, w.take(w.len() - 1))
            &&& adjacent8(p, u)
            &&& m.spec_is_walkable(u)
        }),
{
    let n = w.len();
    let t = w.take(n - 1);
    assert(m.spec_is_walkable(w[n - 1]) && adjacent8(if n - 1 == 0 { from } else { w[n - 2] }, w[n - 1]));
    assert forall|i: int| 0 <= i < t.len() implies {
        &&& m.spec_is_walkable(#[trigger] t[i])
        &&& adjacent8(if i == 0 { from } else { t[i - 1] }, t[i])
    } by {
        assert(t[i] == w[i]);
        assert(m.spec_is_walkable(w[i]) && adjacent8(if i == 0 { from } else { w[i - 1] }, w[i]));
        if i > 0 {
            assert(t[i - 1] == w[i - 1]);
        }
    }
}

/// A cell first reached now cannot be reached by a walk of `level` steps or fewer.
proof fn lemma_discovered_far(
    m: &LevelMap,
    seen: Seq<bool>,
    from: Point,
    done: Set<Point>,
    level: int,
    nb: Point,
)
    requires
        shorter_done(m, from, done, level),
        closed_under_steps(m, seen, from, done),
        !reached(m, seen, from, nb),
    ensures
        forall|w: Seq<Point>| m.is_path(from, nb, w) ==> w.len() >= level + 1,
{
    assert forall|w: Seq<Point>| m.is_path(from, nb, w) implies w.len() >= level + 1 by {
        if w.len() <= level {
            assert(w.len() >= 1) by {
                if w.len() == 0 {
                    assert(reached(m, seen, from, nb));
                }
            }
            lemma_walk_pred(m, from, nb, w);
            let p = if w.len() == 1 { from } else { w[w.len() - 2] };
            assert(walk_shorter(m, from, p, level));
            assert(done.contains(p));
            assert(reached(m, seen, from, nb));
        }
    }
}

/// When the front of the queue is one layer further out, every cell within
/// `level` steps is finished.
proof fn lemma_level_advance(
    m: &LevelMap,
    seen: Seq<bool>,
    dist: Seq<int>,
    from: Point,
    done: Set<Point>,
    queue: Seq<Point>,
    level: int,
)
    requires
        shorter_done(m, from, done, level),
        closed_under_steps(m, seen, from, done),
        dists_minimal(m, seen, dist, from),
        queue_layered(m, dist, from, queue, level),
        queue.len() > 0,
        dist_of(m, dist, from, queue[0]) == level + 1,
        forall|q: Point| #[trigger] reached(m, seen, from, q) <==> (done.contains(q) || queue.contains(q)),
    ensures
        shorter_done(m, from, done, level + 1),
{
    assert forall|u: Point| #[trigger] walk_shorter(m, from, u, level + 1) implies done.contains(u) by {
        let w = choose|w: Seq<Point>| m.is_path(from, u, w) && w.len() < level + 1;
        if w.len() < level {
            assert(walk_shorter(m, from, u, level));
        } else {
            if w.len() >= 1 {
                lemma_walk_pred(m, from, u, w);
                let p = if w.len() == 1 { from } else { w[w.len() - 2] };
                assert(walk_shorter(m, from, p, level));
                assert(done.contains(p));
            }
            assert(reached(m, seen, from, u));
            assert(dist_of(m, dist, from, u) <= w.len());
            if queue.contains(u) {
                let k = choose|k: int| 0 <= k < queue.len() && queue[k] == u;
                if k > 0 {
                    assert(dist_of(m, dist, from, queue[0]) <= dist_of(m, dist, from, queue[k]));
                }
            }
        }
    }
}

/// The walkable neighbours of `p` among the first `k` directions, in direction order.
pub open spec fn neighbours_upto(m: &LevelMap, p: Point, k: int) -> Seq<Point>
    decreases k,
{
    if k <= 0 {
        Seq::empty()
    } else {
        let prev = neighbours_upto(m, p, k - 1);
        if m.spec_is_walkable(step_to(p, k - 1)) { prev.push(step_to(p, k - 1)) } else { prev }
    }
}

/// The order in which the search for unexplored ground tries a cell's
/// neighbours: west, east, north, south, then the diagonals.
pub open spec fn scan_at(k: int) -> (int, int) {
    if k == 0 {
        (-1, 0)
    } else if k == 1 {
        (1, 0)
    } else if k == 2 {
        (0, -1)
    } else if k == 3 {
        (0, 1)
    } else if k == 4 {
        (-1, -1)
    } else if k == 5 {
        (1, -1)
    } else if k == 6 {
        (-1, 1)
    } else {
        (1, 1)
    }
}

fn scan_exec(k: usize) -> (d: (i32, i32))
    requires
        k < 8,
    ensures
        d.0 == scan_at(k as int).0,
        d.1 == scan_at(k as int).1,
{
    if k == 0 {
        (-1, 0)
    } else if k == 1 {
        (1, 0)
    } else if k == 2 {
        (0, -1)
    } else if k == 3 {
        (0, 1)
    } else if k == 4 {
        (-1, -1)
    } else if k == 5 {
        (1, -1)
    } else if k == 6 {
        (-1, 1)
    } else {
        (1, 1)
    }
}

/// The neighbour of `c` in scan direction `j`.
pub open spec fn scan_step(c: Point, j: int) -> Point {
    Point { x: (c.x + scan_at(j).0) as i32, y: (c.y + scan_at(j).1) as i32 }
}

proof fn lemma_adjacent_is_scan(c: Point, d: Point)
    requires
        adjacent8(c, d),
    ensures
        exists|k: int| 0 <= k < 8 && d.x == c.x + scan_at(k).0 && d.y == c.y + scan_at(k).1,
{
    lemma_adjacent_is_dir(c, d);
    let k = choose|k: int| 0 <= k < 8 && d.x == c.x + dir_at(k).0 && d.y == c.y + dir_at(k).1;
    let j: int = if k == 0 {
        1
    } else if k == 1 {
        0
    } else if k == 2 {
        3
    } else if k == 3 {
        2
    } else if k == 4 {
        7
    } else if k == 5 {
        5
    } else if k == 6 {
        6
    } else {
        4
    };
    assert(d.x == c.x + scan_at(j).0 && d.y == c.y + scan_at(j).1);
}

/// Where a walk from `from` ends: its last step, or `from` itself.
pub open spec fn walk_end(from: Point, path: Seq<Point>) -> Point {
    if path.len() == 0 { from } else { path.last() }
}

/// A cell of the map that has never been seen and is not solid rock.
pub open spec fn unexplored(world: &LevelMap, q: Point) -> bool {
    world.spec_in_bounds(q) && !world.spec_is_revealed(q) && world.spec_tile(q) != TileKind::Empty
}

/// `c` lies next to an unexplored cell.
pub open spec fn borders_unexplored(world: &LevelMap, c: Point) -> bool {
    exists|q: Point| #![trigger unexplored(world, q)] adjacent8(c, q) && unexplored(world, q)
}

/// Does `c` lie next to an unexplored cell?
pub fn borders_unexplored_at(world: &LevelMap, c: Point) -> (b: bool)
    requires
        world.wf(),
        i32::MIN < c.x < i32::MAX,
        i32::MIN < c.y < i32::MAX,
    ensures
        b == borders_unexplored(world, c),
{
    let mut k: usize = 0;
    while k < 8
        invariant
            world.wf(),
            i32::MIN < c.x < i32::MAX,
            i32::MIN < c.y < i32::MAX,
            k <= 8,
            forall|j: int| 0 <= j < k ==> !#[trigger] unexplored(world, step_to(c, j)),
        decreases 8 - k,
    {
        let (dx, dy) = dir_exec(k);
        let q = Point::new(c.x + dx, c.y + dy);
        assert(q == step_to(c, k as int));
        if world.in_bounds(q) && !world.is_revealed(q) && world.tile(q) != TileKind::Empty {
            assert(adjacent8(c, q) && unexplored(world, q));
            return true;
        }
        k = k + 1;
    }
    assert forall|q: Point| adjacent8(c, q) implies !#[trigger] unexplored(world, q) by {
        lemma_adjacent_is_dir(c, q);
        let j = choose|j: int| 0 <= j < 8 && q.x == c.x + dir_at(j).0 && q.y == c.y + dir_at(j).1;
        assert(step_to(c, j) == q);
    }
    false
}

impl LevelMap {
    /// Walkable 8-directional neighbours of `p`.
    pub fn walk_neighbors(&self, p: Point) -> (v: Vec<Point>)
        requires
            self.wf(),
            i32::MIN < p.x < i32::MAX,
            i32::MIN < p.y < i32::MAX,
        ensures
            v@ == neighbours_upto(self, p, 8),
    {
        let mut v: Vec<Point> = Vec::new();
        let mut k: usize = 0;
        while k < 8
            invariant
                self.wf(),
                i32::MIN < p.x < i32::MAX,
                i32::MIN < p.y < i32::MAX,
                k <= 8,
                v@ == neighbours_upto(self, p, k as int),
            decreases 8 - k,
        {
            let (dx, dy) = dir_exec(k);
            let q = Point::new(p.x + dx, p.y + dy);
            assert(q == step_to(p, k as int));
            if self.is_walkable(q) {
                v.push(q);
            }
            k = k + 1;
        }
        v
    }

    /// Breadth-first path from `from` to `to` over walkable tiles
    /// (8-directional movement, matching the game). Returns the sequence of
    /// steps *excluding* `from` (so the last element is `to`), or `None` if
    /// `to` is unreachable.
    pub fn find_path(&self, from: Point, to: Point) -> (r: Option<Vec<Point>>)
        requires
            self.wf(),
            from != to && self.spec_is_walkable(to) ==> i32::MIN < from.x < i32::MAX && i32::MIN < from.y < i32::MAX,
        ensures
            match r {
                Some(path) => self.is_path(from, to, path@),
                None => !self.spec_reachable(from, to),
            },
            // The path found is a shortest one.
            r matches Some(path) ==> forall|other: Seq<Point>| #[trigger] self.is_path(from, to, other) ==> path@.len() <= other.len(),
            (r is Some) == self.spec_reachable(from, to),
    {
        if from == to {
            let e: Vec<Point> = Vec::new();
            assert(self.is_path(from, to, e@));
            return Some(e);
        }
        if !self.is_walkable(to) {
            assert forall|path: Seq<Point>| !self.is_path(from, to, path) by {
                if self.is_path(from, to, path) {
                    assert(self.spec_is_walkable(path[path.len() - 1]));
                }
            }
            return None;
        }
        proof {
            assert(self.width * self.height >= 0) by (nonlinear_arith)
                requires self.width >= 0, self.height >= 0;
        }
        let n = (self.width * self.height) as usize;
        let mut seen: Vec<bool> = vec![false; n];
        let mut parent: Vec<Point> = vec![from; n];
        let ghost mut dist: Seq<int> = Seq::new(n as nat, |i: int| 0);
        let ghost mut done: Set<Point> = Set::empty();
        let ghost mut level: int = 0;
        let mut queue: VecDeque<Point> = VecDeque::new();
        queue.push_back(from);
        assert forall|i: int| 0 <= i < n implies !seen@[i] by {
            assert(cloned(false, seen@[i]));
        }
        proof {
            assert(seen@ =~= Seq::new(n as nat, |i: int| false));
            lemma_count_true_zero(n as nat);
            if self.spec_in_bounds(to) {
                lemma_idx_in_range(self, to);
            }
            assert forall|q: Point| #[trigger] reached(self, seen@, from, q) <==> (done.contains(q)
                || queue@.contains(q)) by {
                if self.spec_in_bounds(q) {
                    lemma_idx_in_range(self, q);
                }
                if q == from {
                    assert(queue@[0] == from);
                }
            }
            assert forall|q: Point, w: Seq<Point>|
                #![trigger reached(self, seen@, from, q), self.is_path(from, q, w)]
                reached(self, seen@, from, q) && self.is_path(from, q, w) implies dist_of(self, dist, from, q) <= w.len() by {
                if q != from {
                    lemma_idx_in_range(self, q);
                }
            }
        }
        loop
            invariant
                self.wf(),
                n == self.width * self.height,
                i32::MIN < from.x < i32::MAX,
                i32::MIN < from.y < i32::MAX,
                from != to,
                self.spec_is_walkable(to),
                seen@.len() == n,
                parent@.len() == n,
                dist.len() == n,
                count_true(seen@) <= n,
                !reached(self, seen@, from, to),
                forall|q: Point| #[trigger] reached(self, seen@, from, q) <==> (done.contains(q) || queue@.contains(q)),
                forall|k: int| 0 <= k < queue@.len() ==> reached(self, seen@, from, #[trigger] queue@[k]),
                parents_ok(self, seen@, parent@, dist, from),
                closed_under_steps(self, seen@, from, done),
                level >= 0,
                dists_minimal(self, seen@, dist, from),
                queue_layered(self, dist, from, queue@, level),
                shorter_done(self, from, done, level),
            decreases 2 * (n - count_true(seen@)) + queue@.len(),
        {
            let ghost q_before = queue@;
            let cur = match queue.pop_front() {
                None => {
                    proof {
                        assert forall|path: Seq<Point>| !self.is_path(from, to, path) by {
                            if self.is_path(from, to, path) {
                                assert forall|q: Point| reached(self, seen@, from, q) implies done.contains(q) by {
                                    assert(reached(self, seen@, from, q));
                                }
                                lemma_no_walk_escapes(self, seen@, from, done, to, path);
                            }
                        }
                    }
                    return None;
                },
                Some(c) => c,
            };
            let ghost m0 = 2 * (n - count_true(seen@)) + queue@.len() + 1;
            assert(reached(self, seen@, from, cur));
            proof {
                assert(q_before[0] == cur);
                assert forall|j: int| 0 <= j < queue@.len() implies #[trigger] queue@[j] == q_before[j + 1] by {}
                let new_level = dist_of(self, dist, from, cur);
                if new_level == level + 1 {
                    lemma_level_advance(self, seen@, dist, from, done, q_before, level);
                }
                assert forall|j: int, k: int| 0 <= j < k < queue@.len() implies dist_of(self, dist, from, #[trigger] queue@[j])
                    <= dist_of(self, dist, from, #[trigger] queue@[k]) by {
                    assert(queue@[j] == q_before[j + 1]);
                    assert(queue@[k] == q_before[k + 1]);
                }
                assert forall|j: int| 0 <= j < queue@.len() implies new_level <= dist_of(self, dist, from, #[trigger] queue@[j])
                    <= new_level + 1 by {
                    assert(queue@[j] == q_before[j + 1]);
                    assert(dist_of(self, dist, from, q_before[0]) <= dist_of(self, dist, from, q_before[j + 1]));
                }
                level = new_level;
            }
            proof {
                assert forall|q: Point| #[trigger] reached(self, seen@, from, q) <==> (done.contains(q)
                    || queue@.contains(q) || q == cur) by {
                    if queue@.contains(q) {
                        let k = choose|k: int| 0 <= k < queue@.len() && queue@[k] == q;
                        assert(q == q_before[k + 1]);
                    }
                    if q_before.contains(q) {
                        let k = choose|k: int| 0 <= k < q_before.len() && q_before[k] == q;
                        if k > 0 {
                            assert(queue@[k - 1] == q);
                        }
                    }
                }
            }
            let mut k: usize = 0;
            while k < 8
                invariant
                    self.wf(),
                    n == self.width * self.height,
                    i32::MIN < from.x < i32::MAX,
                    i32::MIN < from.y < i32::MAX,
                    from != to,
                    self.spec_is_walkable(to),
                    seen@.len() == n,
                    parent@.len() == n,
                    dist.len() == n,
                    count_true(seen@) <= n,
                    2 * (n - count_true(seen@)) + queue@.len() + 1 <= m0,
                    k <= 8,
                    !reached(self, seen@, from, to),
                    reached(self, seen@, from, cur),
                    cur == from || self.spec_in_bounds(cur),
                    forall|q: Point| #[trigger] reached(self, seen@, from, q) <==> (done.contains(q)
                        || queue@.contains(q) || q == cur),
                    forall|j: int| 0 <= j < queue@.len() ==> reached(self, seen@, from, #[trigger] queue@[j]),
                    parents_ok(self, seen@, parent@, dist, from),
                    closed_under_steps(self, seen@, from, done),
                    level >= 0,
                    dists_minimal(self, seen@, dist, from),
                    queue_layered(self, dist, from, queue@, level),
                    shorter_done(self, from, done, level),
                    dist_of(self, dist, from, cur) == level,
                    forall|j: int|
                        0 <= j < k ==> (self.spec_is_walkable(step_to(cur, j)) ==> #[trigger] reached(
                            self,
                            seen@,
                            from,
                            step_to(cur, j),
                        )),
                decreases 8 - k,
            {
                let (dx, dy) = dir_exec(k);
                let nb = Point::new(cur.x + dx, cur.y + dy);
                if self.is_walkable(nb) {
                    proof {
                        lemma_idx_in_range(self, nb);
                    }
                    let i = self.idx(nb);
                    if nb != from && !seen[i] {
                        let ghost old_seen = seen@;
                        let ghost old_parent = parent@;
                        let ghost old_dist = dist;
                        let ghost dcur: int = if cur == from { 0 } else { dist[self.spec_idx(cur)] };
                        proof {
                            lemma_count_true_set(seen@, i as int);
                            lemma_count_true_le(seen@.update(i as int, true));
                            assert(!reached(self, old_seen, from, nb));
                            lemma_discovered_far(self, old_seen, from, done, level, nb);
                        }
                        seen.set(i, true);
                        parent.set(i, cur);
                        proof {
                            dist = dist.update(i as int, dcur + 1);
                        }
                        proof {
                            // Reaching grows by exactly `nb`.
                            assert forall|q: Point| #[trigger] reached(self, seen@, from, q) <==> (
                                reached(self, old_seen, from, q) || q == nb) by {
                                if q != nb && self.spec_in_bounds(q) {
                                    lemma_idx_injective(self, q, nb);
                                    lemma_idx_in_range(self, q);
                                }
                            }
                            assert(parents_ok(self, seen@, parent@, dist, from)) by {
                                assert forall|q: Point|
                                    #![trigger reached(self, seen@, from, q)]
                                    q != from && reached(self, seen@, from, q) implies {
                                        let qi = self.spec_idx(q);
                                        let p = parent@[qi];
                                        &&& self.spec_in_bounds(q)
                                        &&& self.spec_is_walkable(q)
                                        &&& adjacent8(p, q)
                                        &&& dist[qi] >= 1
                                        &&& (p == from ==> dist[qi] == 1)
                                        &&& (p != from ==> self.spec_in_bounds(p) && seen@[self.spec_idx(p)]
                                            && dist[self.spec_idx(p)] == dist[qi] - 1)
                                    } by {
                                    if q == nb {
                                        if cur != from {
                                            assert(reached(self, old_seen, from, cur));
                                            lemma_idx_injective(self, cur, nb);
                                            lemma_idx_in_range(self, cur);
                                        }
                                    } else {
                                        assert(reached(self, old_seen, from, q));
                                        lemma_idx_injective(self, q, nb);
                                        lemma_idx_in_range(self, q);
                                        let p = old_parent[self.spec_idx(q)];
                                        if p != from {
                                            assert(reached(self, old_seen, from, p));
                                            lemma_idx_injective(self, p, nb);
                                            lemma_idx_in_range(self, p);
                                        }
                                    }
                                }
                            }
                            // Distances of earlier cells are untouched.
                            assert forall|q: Point| reached(self, old_seen, from, q) implies
                                #[trigger] dist_of(self, dist, from, q) == dist_of(self, old_dist, from, q) by {
                                if q != from {
                                    lemma_idx_injective(self, q, nb);
                                    lemma_idx_in_range(self, q);
                                }
                            }
                            assert(dist_of(self, dist, from, cur) == level);
                            assert(dist_of(self, dist, from, nb) == level + 1);
                            assert(dists_minimal(self, seen@, dist, from)) by {
                                assert forall|q: Point, w: Seq<Point>|
                                    #![trigger reached(self, seen@, from, q), self.is_path(from, q, w)]
                                    reached(self, seen@, from, q) && self.is_path(from, q, w) implies dist_of(self, dist, from, q) <= w.len() by {
                                    if q != nb {
                                        assert(reached(self, old_seen, from, q));
                                        assert(dist_of(self, dist, from, q) == dist_of(self, old_dist, from, q));
                                    }
                                }
                            }
                            assert(queue_layered(self, dist, from, queue@, level)) by {
                                assert forall|j: int| 0 <= j < queue@.len() implies #[trigger] dist_of(self, dist, from, queue@[j])
                                    == dist_of(self, old_dist, from, queue@[j]) by {
                                    assert(reached(self, old_seen, from, queue@[j]));
                                }
                            }
                            assert(closed_under_steps(self, seen@, from, done)) by {
                                assert forall|c: Point, d: Point|
                                    #![trigger done.contains(c), reached(self, seen@, from, d)]
                                    done.contains(c) && adjacent8(c, d) && self.spec_is_walkable(d)
                                    implies reached(self, seen@, from, d) by {
                                    assert(reached(self, old_seen, from, d));
                                }
                            }
                        }
                        if nb.x == to.x && nb.y == to.y {
                            let path = self.trace_back(from, to, &seen, &parent, Ghost(dist));
                            assert(nb == to);
                            assert(path@.len() == level + 1);
                            return Some(path);
                        }
                        let ghost q_pre = queue@;
                        queue.push_back(nb);
                        proof {
                            assert forall|q: Point| #[trigger] reached(self, seen@, from, q) <==> (
                                done.contains(q) || queue@.contains(q) || q == cur) by {
                                if q == nb {
                                    assert(queue@[queue@.len() - 1] == nb);
                                }
                                if q_pre.contains(q) {
                                    let j = choose|j: int| 0 <= j < q_pre.len() && q_pre[j] == q;
                                    assert(queue@[j] == q);
                                }
                                assert(reached(self, old_seen, from, q) <==> (done.contains(q)
                                    || q_pre.contains(q) || q == cur));
                                if q_pre.contains(q) || queue@.contains(q) {
                                    if queue@.contains(q) && q != nb {
                                        let j = choose|j: int| 0 <= j < queue@.len() && queue@[j] == q;
                                        assert(j < queue@.len() - 1);
                                    }
                                }
                            }
                            assert forall|j: int| 0 <= j < queue@.len() implies reached(self, seen@, from, #[trigger] queue@[j]) by {
                                if j < queue@.len() - 1 {
                                    assert(reached(self, old_seen, from, queue@[j]));
                                }
                            }
                            assert forall|j: int| 0 <= j < queue@.len() - 1 implies #[trigger] queue@[j] == q_pre[j] by {}
                            assert(queue@[queue@.len() - 1] == nb);
                            assert(queue_layered(self, dist, from, queue@, level)) by {
                                assert forall|j: int, k: int| 0 <= j < k < queue@.len() implies dist_of(self, dist, from, #[trigger] queue@[j])
                                    <= dist_of(self, dist, from, #[trigger] queue@[k]) by {
                                    assert(queue@[j] == q_pre[j]);
                                    if k < queue@.len() - 1 {
                                        assert(queue@[k] == q_pre[k]);
                                    }
                                }
                                assert forall|j: int| 0 <= j < queue@.len() implies level <= dist_of(self, dist, from, #[trigger] queue@[j])
                                    <= level + 1 by {
                                    if j < queue@.len() - 1 {
                                        assert(queue@[j] == q_pre[j]);
                                    }
                                }
                            }
                        }
                    }
                }
                k = k + 1;
            }
            proof {
                let done2 = done.insert(cur);
                assert forall|c: Point, d: Point|
                    #![trigger done2.contains(c), reached(self, seen@, from, d)]
                    done2.contains(c) && adjacent8(c, d) && self.spec_is_walkable(d)
                    implies reached(self, seen@, from, d) by {
                    if c == cur && !done.contains(c) {
                        lemma_adjacent_is_dir(c, d);
                        let j = choose|j: int| 0 <= j < 8 && d.x == c.x + dir_at(j).0 && d.y == c.y + dir_at(j).1;
                        assert(step_to(cur, j) == d);
                    }
                }
                done = done2;
            }
        }
    }

    /// Breadth-first search from `from` over the walkable tiles of `self` for
    /// the nearest cell next to an unexplored cell of `world`, trying the
    /// neighbours of each cell in the scan order. Returns the steps to it
    /// (excluding `from`; empty when `from` itself borders the unexplored), or
    /// `None` when no reachable cell does.
    pub fn nearest_unexplored(&self, world: &LevelMap, from: Point) -> (r: Option<Vec<Point>>)
        requires
            self.wf(),
            world.wf(),
            i32::MIN < from.x < i32::MAX,
            i32::MIN < from.y < i32::MAX,
        ensures
            match r {
                Some(path) => {
                    &&& self.is_walk(from, path@)
                    &&& borders_unexplored(world, walk_end(from, path@))
                    &&& forall|f: Point, w: Seq<Point>|
                        #![trigger self.is_path(from, f, w), borders_unexplored(world, f)]
                        self.is_path(from, f, w) && borders_unexplored(world, f) ==> path@.len() <= w.len()
                },
                None => forall|f: Point, w: Seq<Point>|
                    #![trigger self.is_path(from, f, w)]
                    self.is_path(from, f, w) ==> !borders_unexplored(world, f),
            },
    {
        proof {
            assert(self.width * self.height >= 0) by (nonlinear_arith)
                requires self.width >= 0, self.height >= 0;
        }
        let n = (self.width * self.height) as usize;
        let mut seen: Vec<bool> = vec![false; n];
        let mut parent: Vec<Point> = vec![from; n];
        let ghost mut dist: Seq<int> = Seq::new(n as nat, |i: int| 0);
        let ghost mut done: Set<Point> = Set::empty();
        let ghost mut level: int = 0;
        let mut queue: VecDeque<Point> = VecDeque::new();
        queue.push_back(from);
        assert forall|i: int| 0 <= i < n implies !seen@[i] by {
            assert(cloned(false, seen@[i]));
        }
        proof {
            assert(seen@ =~= Seq::new(n as nat, |i: int| false));
            lemma_count_true_zero(n as nat);
            assert forall|q: Point| #[trigger] reached(self, seen@, from, q) <==> (done.contains(q)
                || queue@.contains(q)) by {
                if self.spec_in_bounds(q) {
                    lemma_idx_in_range(self, q);
                }
                if q == from {
                    assert(queue@[0] == from);
                }
            }
            assert forall|q: Point, w: Seq<Point>|
                #![trigger reached(self, seen@, from, q), self.is_path(from, q, w)]
                reached(self, seen@, from, q) && self.is_path(from, q, w) implies dist_of(self, dist, from, q) <= w.len() by {
                if q != from {
                    lemma_idx_in_range(self, q);
                }
            }
        }
        loop
            invariant
                self.wf(),
                world.wf(),
                n == self.width * self.height,
                forall|c: Point| #[trigger] done.contains(c) ==> !borders_unexplored(world, c),
                i32::MIN < from.x < i32::MAX,
                i32::MIN < from.y < i32::MAX,
                seen@.len() == n,
                parent@.len() == n,
                dist.len() == n,
                count_true(seen@) <= n,
                forall|q: Point| #[trigger] reached(self, seen@, from, q) <==> (done.contains(q) || queue@.contains(q)),
                forall|k: int| 0 <= k < queue@.len() ==> reached(self, seen@, from, #[trigger] queue@[k]),
                parents_ok(self, seen@, parent@, dist, from),
                closed_under_steps(self, seen@, from, done),
                level >= 0,
                dists_minimal(self, seen@, dist, from),
                queue_layered(self, dist, from, queue@, level),
                shorter_done(self, from, done, level),
            decreases 2 * (n - count_true(seen@)) + queue@.len(),
        {
            let ghost q_before = queue@;
            let cur = match queue.pop_front() {
                None => {
                    proof {
                        assert forall|f: Point, w: Seq<Point>|
                            #![trigger self.is_path(from, f, w)]
                            self.is_path(from, f, w) implies !borders_unexplored(world, f) by {
                            assert forall|q: Point| reached(self, seen@, from, q) implies done.contains(q) by {
                                assert(reached(self, seen@, from, q));
                            }
                            if w.len() > 0 {
                                lemma_no_walk_escapes(self, seen@, from, done, f, w);
                            }
                            assert(reached(self, seen@, from, f));
                        }
                    }
                    return None;
                },
                Some(c) => c,
            };
            let ghost m0 = 2 * (n - count_true(seen@)) + queue@.len() + 1;
            assert(reached(self, seen@, from, cur));
            proof {
                assert(q_before[0] == cur);
                assert forall|j: int| 0 <= j < queue@.len() implies #[trigger] queue@[j] == q_before[j + 1] by {}
                let new_level = dist_of(self, dist, from, cur);
                if new_level == level + 1 {
                    lemma_level_advance(self, seen@, dist, from, done, q_before, level);
                }
                assert forall|j: int, k: int| 0 <= j < k < queue@.len() implies dist_of(self, dist, from, #[trigger] queue@[j])
                    <= dist_of(self, dist, from, #[trigger] queue@[k]) by {
                    assert(queue@[j] == q_before[j + 1]);
                    assert(queue@[k] == q_before[k + 1]);
                }
                assert forall|j: int| 0 <= j < queue@.len() implies new_level <= dist_of(self, dist, from, #[trigger] queue@[j])
                    <= new_level + 1 by {
                    assert(queue@[j] == q_before[j + 1]);
                    assert(dist_of(self, dist, from, q_before[0]) <= dist_of(self, dist, from, q_before[j + 1]));
                }
                level = new_level;
            }
            proof {
                assert forall|q: Point| #[trigger] reached(self, seen@, from, q) <==> (done.contains(q)
                    || queue@.contains(q) || q == cur) by {
                    if queue@.contains(q) {
                        let k = choose|k: int| 0 <= k < queue@.len() && queue@[k] == q;
                        assert(q == q_before[k + 1]);
                    }
                    if q_before.contains(q) {
                        let k = choose|k: int| 0 <= k < q_before.len() && q_before[k] == q;
                        if k > 0 {
                            assert(queue@[k - 1] == q);
                        }
                    }
                }
            }
            if borders_unexplored_at(world, cur) {
                if cur == from {
                    let e: Vec<Point> = Vec::new();
                    assert(self.is_walk(from, e@));
                    return Some(e);
                }
                let path = self.trace_back(from, cur, &seen, &parent, Ghost(dist));
                proof {
                    assert forall|f: Point, w: Seq<Point>|
                        #![trigger self.is_path(from, f, w), borders_unexplored(world, f)]
                        self.is_path(from, f, w) && borders_unexplored(world, f) implies path@.len() <= w.len() by {
                        if w.len() < level {
                            assert(walk_shorter(self, from, f, level));
                        }
                    }
                    assert(path@.last() == cur);
                }
                return Some(path);
            }
            let mut k: usize = 0;
            while k < 8
                invariant
                    self.wf(),
                    world.wf(),
                    n == self.width * self.height,
                    forall|c: Point| #[trigger] done.contains(c) ==> !borders_unexplored(world, c),
                    !borders_unexplored(world, cur),
                    i32::MIN < from.x < i32::MAX,
                    i32::MIN < from.y < i32::MAX,
                    seen@.len() == n,
                    parent@.len() == n,
                    dist.len() == n,
                    count_true(seen@) <= n,
                    2 * (n - count_true(seen@)) + queue@.len() + 1 <= m0,
                    k <= 8,
                    reached(self, seen@, from, cur),
                    cur == from || self.spec_in_bounds(cur),
                    forall|q: Point| #[trigger] reached(self, seen@, from, q) <==> (done.contains(q)
                        || queue@.contains(q) || q == cur),
                    forall|j: int| 0 <= j < queue@.len() ==> reached(self, seen@, from, #[trigger] queue@[j]),
                    parents_ok(self, seen@, parent@, dist, from),
                    closed_under_steps(self, seen@, from, done),
                    level >= 0,
                    dists_minimal(self, seen@, dist, from),
                    queue_layered(self, dist, from, queue@, level),
                    shorter_done(self, from, done, level),
                    dist_of(self, dist, from, cur) == level,
                    forall|j: int|
                        0 <= j < k ==> (self.spec_is_walkable(scan_step(cur, j)) ==> #[trigger] reached(
                            self,
                            seen@,
                            from,
                            scan_step(cur, j),
                        )),
                decreases 8 - k,
            {
                let (dx, dy) = scan_exec(k);
                let nb = Point::new(cur.x + dx, cur.y + dy);
                if self.is_walkable(nb) {
                    proof {
                        lemma_idx_in_range(self, nb);
                    }
                    let i = self.idx(nb);
                    if nb != from && !seen[i] {
                        let ghost old_seen = seen@;
                        let ghost old_parent = parent@;
                        let ghost old_dist = dist;
                        let ghost dcur: int = if cur == from { 0 } else { dist[self.spec_idx(cur)] };
                        proof {
                            lemma_count_true_set(seen@, i as int);
                            lemma_count_true_le(seen@.update(i as int, true));
                            assert(!reached(self, old_seen, from, nb));
                            lemma_discovered_far(self, old_seen, from, done, level, nb);
                        }
                        seen.set(i, true);
                        parent.set(i, cur);
                        proof {
                            dist = dist.update(i as int, dcur + 1);
                        }
                        proof {
                            // Reaching grows by exactly `nb`.
                            assert forall|q: Point| #[trigger] reached(self, seen@, from, q) <==> (
                                reached(self, old_seen, from, q) || q == nb) by {
                                if q != nb && self.spec_in_bounds(q) {
                                    lemma_idx_injective(self, q, nb);
                                    lemma_idx_in_range(self, q);
                                }
                            }
                            assert(parents_ok(self, seen@, parent@, dist, from)) by {
                                assert forall|q: Point|
                                    #![trigger reached(self, seen@, from, q)]
                                    q != from && reached(self, seen@, from, q) implies {
                                        let qi = self.spec_idx(q);
                                        let p = parent@[qi];
                                        &&& self.spec_in_bounds(q)
                                        &&& self.spec_is_walkable(q)
                                        &&& adjacent8(p, q)
                                        &&& dist[qi] >= 1
                                        &&& (p == from ==> dist[qi] == 1)
                                        &&& (p != from ==> self.spec_in_bounds(p) && seen@[self.spec_idx(p)]
                                            && dist[self.spec_idx(p)] == dist[qi] - 1)
                                    } by {
                                    if q == nb {
                                        if cur != from {
                                            assert(reached(self, old_seen, from, cur));
                                            lemma_idx_injective(self, cur, nb);
                                            lemma_idx_in_range(self, cur);
                                        }
                                    } else {
                                        assert(reached(self, old_seen, from, q));
                                        lemma_idx_injective(self, q, nb);
                                        lemma_idx_in_range(self, q);
                                        let p = old_parent[self.spec_idx(q)];
                                        if p != from {
                                            assert(reached(self, old_seen, from, p));
                                            lemma_idx_injective(self, p, nb);
                                            lemma_idx_in_range(self, p);
                                        }
                                    }
                                }
                            }
                            // Distances of earlier cells are untouched.
                            assert forall|q: Point| reached(self, old_seen, from, q) implies
                                #[trigger] dist_of(self, dist, from, q) == dist_of(self, old_dist, from, q) by {
                                if q != from {
                                    lemma_idx_injective(self, q, nb);
                                    lemma_idx_in_range(self, q);
                                }
                            }
                            assert(dist_of(self, dist, from, cur) == level);
                            assert(dist_of(self, dist, from, nb) == level + 1);
                            assert(dists_minimal(self, seen@, dist, from)) by {
                                assert forall|q: Point, w: Seq<Point>|
                                    #![trigger reached(self, seen@, from, q), self.is_path(from, q, w)]
                                    reached(self, seen@, from, q) && self.is_path(from, q, w) implies dist_of(self, dist, from, q) <= w.len() by {
                                    if q != nb {
                                        assert(reached(self, old_seen, from, q));
                                        assert(dist_of(self, dist, from, q) == dist_of(self, old_dist, from, q));
                                    }
                                }
                            }
                            assert(queue_layered(self, dist, from, queue@, level)) by {
                                assert forall|j: int| 0 <= j < queue@.len() implies #[trigger] dist_of(self, dist, from, queue@[j])
                                    == dist_of(self, old_dist, from, queue@[j]) by {
                                    assert(reached(self, old_seen, from, queue@[j]));
                                }
                            }
                            assert(closed_under_steps(self, seen@, from, done)) by {
                                assert forall|c: Point, d: Point|
                                    #![trigger done.contains(c), reached(self, seen@, from, d)]
                                    done.contains(c) && adjacent8(c, d) && self.spec_is_walkable(d)
                                    implies reached(self, seen@, from, d) by {
                                    assert(reached(self, old_seen, from, d));
                                }
                            }
                        }
                        let ghost q_pre = queue@;
                        queue.push_back(nb);
                        proof {
                            assert forall|q: Point| #[trigger] reached(self, seen@, from, q) <==> (
                                done.contains(q) || queue@.contains(q) || q == cur) by {
                                if q == nb {
                                    assert(queue@[queue@.len() - 1] == nb);
                                }
                                if q_pre.contains(q) {
                                    let j = choose|j: int| 0 <= j < q_pre.len() && q_pre[j] == q;
                                    assert(queue@[j] == q);
                                }
                                assert(reached(self, old_seen, from, q) <==> (done.contains(q)
                                    || q_pre.contains(q) || q == cur));
                                if q_pre.contains(q) || queue@.contains(q) {
                                    if queue@.contains(q) && q != nb {
                                        let j = choose|j: int| 0 <= j < queue@.len() && queue@[j] == q;
                                        assert(j < queue@.len() - 1);
                                    }
                                }
                            }
                            assert forall|j: int| 0 <= j < queue@.len() implies reached(self, seen@, from, #[trigger] queue@[j]) by {
                                if j < queue@.len() - 1 {
                                    assert(reached(self, old_seen, from, queue@[j]));
                                }
                            }
                            assert forall|j: int| 0 <= j < queue@.len() - 1 implies #[trigger] queue@[j] == q_pre[j] by {}
                            assert(queue@[queue@.len() - 1] == nb);
                            assert(queue_layered(self, dist, from, queue@, level)) by {
                                assert forall|j: int, k: int| 0 <= j < k < queue@.len() implies dist_of(self, dist, from, #[trigger] queue@[j])
                                    <= dist_of(self, dist, from, #[trigger] queue@[k]) by {
                                    assert(queue@[j] == q_pre[j]);
                                    if k < queue@.len() - 1 {
                                        assert(queue@[k] == q_pre[k]);
                                    }
                                }
                                assert forall|j: int| 0 <= j < queue@.len() implies level <= dist_of(self, dist, from, #[trigger] queue@[j])
                                    <= level + 1 by {
                                    if j < queue@.len() - 1 {
                                        assert(queue@[j] == q_pre[j]);
                                    }
                                }
                            }
                        }
                    }
                }
                k = k + 1;
            }
            proof {
                let done2 = done.insert(cur);
                assert forall|c: Point, d: Point|
                    #![trigger done2.contains(c), reached(self, seen@, from, d)]
                    done2.contains(c) && adjacent8(c, d) && self.spec_is_walkable(d)
                    implies reached(self, seen@, from, d) by {
                    if c == cur && !done.contains(c) {
                        lemma_adjacent_is_scan(c, d);
                        let j = choose|j: int| 0 <= j < 8 && d.x == c.x + scan_at(j).0 && d.y == c.y + scan_at(j).1;
                        assert(scan_step(cur, j) == d);
                    }
                }
                done = done2;
            }
        }
    }


    /// Is `to` reachable from `from` over walkable tiles?
    pub fn reachable(&self, from: Point, to: Point) -> (b: bool)
        requires
            self.wf(),
            from != to && self.spec_is_walkable(to) ==> i32::MIN < from.x < i32::MAX && i32::MIN < from.y < i32::MAX,
        ensures
            b == self.spec_reachable(from, to),
            from == to ==> b,
    {
        proof {
            let e = Seq::<Point>::empty();
            if from == to {
                assert(self.is_path(from, to, e));
            }
        }
        match self.find_path(from, to) {
            Some(p) => {
                assert(self.is_path(from, to, p@));
                true
            },
            None => false,
        }
    }

    /// One row of the tile layer as text, ending in a newline.
    pub open spec fn row_text(&self, y: int) -> Seq<char> {
        Seq::new(
            self.width as nat,
            |x: int| spec_glyph(self.spec_tile(Point { x: x as i32, y: y as i32 })),
        ).push('\n')
    }

    /// The first `k` rows of the tile layer as text.
    pub open spec fn ascii_rows(&self, k: int) -> Seq<char>
        decreases k,
    {
        if k <= 0 {
            Seq::empty()
        } else {
            self.ascii_rows(k - 1) + self.row_text(k - 1)
        }
    }

    /// Render the tile layer to a string (handy for tests / debugging).
    pub fn to_ascii(&self) -> (s: String)
        requires
            self.wf(),
        ensures
            s@ == self.ascii_rows(self.height as int),
    {
        let mut s = String::new();
        let mut y: i32 = 0;
        while y < self.height
            invariant
                self.wf(),
                0 <= y <= self.height,
                s@ == self.ascii_rows(y as int),
            decreases self.height - y,
        {
            let ghost start = s@;
            let mut x: i32 = 0;
            while x < self.width
                invariant
                    self.wf(),
                    0 <= y < self.height,
                    0 <= x <= self.width,
                    s@ == start + Seq::new(
                        x as nat,
                        |i: int| spec_glyph(self.spec_tile(Point { x: i as i32, y: y as i32 })),
                    ),
                decreases self.width - x,
            {
                push_char(&mut s, self.tile(Point::new(x, y)).glyph());
                x = x + 1;
                assert(s@ =~= start + Seq::new(
                    x as nat,
                    |i: int| spec_glyph(self.spec_tile(Point { x: i as i32, y: y as i32 })),
                ));
            }
            push_char(&mut s, '\n');
            assert(s@ =~= start + self.row_text(y as int));
            y = y + 1;
        }
        s
    }

    /// Follow the recorded parents from `to` back to `from`.
    fn trace_back(&self, from: Point, to: Point, seen: &Vec<bool>, parent: &Vec<Point>, dist: Ghost<Seq<int>>) -> (path: Vec<Point>)
        requires
            self.wf(),
            from != to,
            seen@.len() == self.width * self.height,
            parent@.len() == self.width * self.height,
            dist@.len() == self.width * self.height,
            reached(self, seen@, from, to),
            parents_ok(self, seen@, parent@, dist@, from),
        ensures
            self.is_path(from, to, path@),
            path@.len() == dist@[self.spec_idx(to)],
    {
        assert(reached(self, seen@, from, to));
        proof {
            lemma_idx_in_range(self, to);
        }
        let mut rev: Vec<Point> = Vec::new();
        rev.push(to);
        let mut step = parent[self.idx(to)];
        while step != from
            invariant
                self.wf(),
                seen@.len() == self.width * self.height,
                parent@.len() == self.width * self.height,
                dist@.len() == self.width * self.height,
                parents_ok(self, seen@, parent@, dist@, from),
                rev@.len() >= 1,
                rev@[0] == to,
                forall|i: int| 0 <= i < rev@.len() - 1 ==> adjacent8(rev@[i + 1], #[trigger] rev@[i]),
                forall|i: int| 0 <= i < rev@.len() ==> self.spec_is_walkable(#[trigger] rev@[i]),
                adjacent8(step, rev@.last()),
                step != from ==> self.spec_in_bounds(step) && seen@[self.spec_idx(step)],
                rev@.len() + (if step == from { 0 } else { dist@[self.spec_idx(step)] }) == dist@[self.spec_idx(to)],
            decreases (if step == from { 0 } else { dist@[self.spec_idx(step)] }),
        {
            assert(reached(self, seen@, from, step));
            proof {
                lemma_idx_in_range(self, step);
            }
            let ghost old_rev = rev@;
            rev.push(step);
            assert(forall|i: int| 0 <= i < old_rev.len() ==> rev@[i] == old_rev[i]);
            step = parent[self.idx(step)];
        }
        let len = rev.len();
        let mut out: Vec<Point> = Vec::new();
        let mut k = len;
        while k > 0
            invariant
                k <= len,
                len == rev@.len(),
                out@.len() == len - k,
                forall|i: int| 0 <= i < out@.len() ==> #[trigger] out@[i] == rev@[len - 1 - i],
            decreases k,
        {
            k = k - 1;
            out.push(rev[k]);
        }
        assert forall|i: int| 0 <= i < out@.len() implies {
            &&& self.spec_is_walkable(#[trigger] out@[i])
            &&& adjacent8(if i == 0 { from } else { out@[i - 1] }, out@[i])
        } by {
            assert(out@[i] == rev@[len - 1 - i]);
            if i > 0 {
                assert(out@[i - 1] == rev@[(len - 1 - i) + 1]);
            }
        }
        assert(out@.last() == rev@[0]);
        out
    }
}


proof fn lemma_count_true_zero(n: nat)
    ensures
        count_true(Seq::new(n, |i: int| false)) == 0,
    decreases n,
{
    if n > 0 {
        lemma_count_true_zero((n - 1) as nat);
        assert(Seq::new(n, |i: int| false).drop_last() =~= Seq::new((n - 1) as nat, |i: int| false));
    }
}

} // verus!
