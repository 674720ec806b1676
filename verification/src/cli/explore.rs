//! Auto-explore: walk towards the nearest ground not yet seen, over ground the
//! player already knows.

use vstd::prelude::*;
use crate::cli::wands::{say, text1, texts};
use crate::geometry::Point;
use crate::map::{LevelMap, TileKind, adjacent8, lemma_idx_in_range};
use crate::path::{borders_unexplored, walk_end};

verus! {

/// What one step of exploring comes to.
#[derive(Debug, Clone, Copy, PartialEq, Eq, Structural)]
pub enum Explore {
    /// A monster is in view: exploring stops.
    MonsterNearby,
    /// No unexplored ground can be reached over known ground.
    Complete,
    /// Step by this offset.
    Step(i32, i32),
    /// Next to unexplored ground with no open tile beside: stay put.
    Stay,
}

/// A walkable tile the player has already seen.
pub open spec fn known_walkable(m: &LevelMap, p: Point) -> bool {
    m.spec_is_walkable(p) && m.spec_is_revealed(p)
}

/// `path` is a walk of king-moves from `from` over known walkable tiles.
pub open spec fn known_walk(m: &LevelMap, from: Point, path: Seq<Point>) -> bool {
    forall|i: int|
        0 <= i < path.len() ==> {
            &&& known_walkable(m, #[trigger] path[i])
            &&& adjacent8(if i == 0 { from } else { path[i - 1] }, path[i])
        }
}

/// `path` is a known walk to ground next to unexplored ground, and no known
/// walk to such ground is shorter.
pub open spec fn nearest_unexplored_walk(m: &LevelMap, from: Point, path: Seq<Point>) -> bool {
    &&& known_walk(m, from, path)
    &&& borders_unexplored(m, walk_end(from, path))
    &&& forall|w: Seq<Point>|
        #![trigger known_walk(m, from, w)]
        known_walk(m, from, w) && borders_unexplored(m, walk_end(from, w)) ==> path.len() <= w.len()
}

/// Some monster stands on a tile in view.
pub open spec fn monster_in_view(m: &LevelMap, monsters: Seq<Point>) -> bool {
    exists|i: int| 0 <= i < monsters.len() && m.spec_is_visible(#[trigger] monsters[i])
}

/// `d` away from `p`.
pub open spec fn offset_by(p: Point, d: (int, int)) -> Point {
    Point { x: (p.x + d.0) as i32, y: (p.y + d.1) as i32 }
}

/// The first of west, east, north and south that is walkable from `p`.
pub open spec fn first_open(m: &LevelMap, p: Point) -> Explore {
    if m.spec_is_walkable(offset_by(p, (-1, 0))) {
        Explore::Step(-1i32, 0i32)
    } else if m.spec_is_walkable(offset_by(p, (1, 0))) {
        Explore::Step(1i32, 0i32)
    } else if m.spec_is_walkable(offset_by(p, (0, -1))) {
        Explore::Step(0i32, -1i32)
    } else if m.spec_is_walkable(offset_by(p, (0, 1))) {
        Explore::Step(0i32, 1i32)
    } else {
        Explore::Stay
    }
}

/// The log line an outcome adds.
pub open spec fn explore_note(r: Explore) -> Seq<Seq<char>> {
    match r {
        Explore::MonsterNearby => seq!["A monster is nearby — you stop exploring."@],
        Explore::Complete => seq!["No unexplored areas visible. Exploration complete."@],
        _ => Seq::empty(),
    }
}

/// The map as the player knows it: the tiles seen so far, with solid rock
/// where nothing has been seen.
fn known_map(m: &LevelMap) -> (s: LevelMap)
    requires
        m.wf(),
    ensures
        s.wf(),
        s.width == m.width,
        s.height == m.height,
        forall|p: Point| #[trigger] s.spec_is_walkable(p) == known_walkable(m, p),
{
    let n = m.tiles.len();
    let mut tiles: Vec<TileKind> = Vec::new();
    let mut i: usize = 0;
    while i < n
        invariant
            m.wf(),
            n == m.tile_seq().len(),
            i <= n,
            tiles@.len() == i,
            forall|j: int|
                0 <= j < i ==> #[trigger] tiles@[j] == (if m.revealed_seq()[j] {
                    m.tile_seq()[j]
                } else {
                    TileKind::Empty
                }),
        decreases n - i,
    {
        if m.revealed[i] {
            tiles.push(m.tiles[i]);
        } else {
            tiles.push(TileKind::Empty);
        }
        i = i + 1;
    }
    let s = LevelMap {
        width: m.width,
        height: m.height,
        tiles,
        revealed: vec![false; n],
        visible: vec![false; n],
        dark: vec![false; n],
        rooms: Vec::new(),
        player_start: m.player_start,
        stairs_down: m.stairs_down,
        spawns: Vec::new(),
    };
    assert forall|p: Point| #[trigger] s.spec_is_walkable(p) == known_walkable(m, p) by {
        if m.spec_in_bounds(p) {
            lemma_idx_in_range(m, p);
        }
    }
    s
}

/// Walks over the player's map are exactly the known walks.
proof fn lemma_known_walks(m: &LevelMap, s: &LevelMap, from: Point, w: Seq<Point>)
    requires
        forall|p: Point| #[trigger] s.spec_is_walkable(p) == known_walkable(m, p),
    ensures
        s.is_walk(from, w) == known_walk(m, from, w),
        s.is_path(from, walk_end(from, w), w) == known_walk(m, from, w),
{
    if s.is_walk(from, w) {
        assert forall|i: int| 0 <= i < w.len() implies {
            &&& known_walkable(m, #[trigger] w[i])
            &&& adjacent8(if i == 0 { from } else { w[i - 1] }, w[i])
        } by {
            assert(s.spec_is_walkable(w[i]));
        }
    }
    if known_walk(m, from, w) {
        assert forall|i: int| 0 <= i < w.len() implies {
            &&& s.spec_is_walkable(#[trigger] w[i])
            &&& adjacent8(if i == 0 { from } else { w[i - 1] }, w[i])
        } by {
            assert(known_walkable(m, w[i]));
        }
    }
}

/// Is a monster standing on a tile in view?
fn any_in_view(m: &LevelMap, monsters: &[Point]) -> (b: bool)
    requires
        m.wf(),
    ensures
        b == monster_in_view(m, monsters@),
{
    let mut i: usize = 0;
    while i < monsters.len()
        invariant
            m.wf(),
            i <= monsters@.len(),
            forall|j: int| 0 <= j < i ==> !m.spec_is_visible(#[trigger] monsters@[j]),
        decreases monsters@.len() - i,
    {
        if m.is_visible(monsters[i]) {
            assert(m.spec_is_visible(monsters@[i as int]));
            return true;
        }
        i = i + 1;
    }
    false
}

/// Step into the first open tile beside `p`, trying west, east, north, south.
fn first_open_exec(m: &LevelMap, p: Point) -> (r: Explore)
    requires
        m.wf(),
        i32::MIN < p.x < i32::MAX,
        i32::MIN < p.y < i32::MAX,
    ensures
        r == first_open(m, p),
{
    if m.is_walkable(Point::new(p.x - 1, p.y)) {
        Explore::Step(-1, 0)
    } else if m.is_walkable(Point::new(p.x + 1, p.y)) {
        Explore::Step(1, 0)
    } else if m.is_walkable(Point::new(p.x, p.y - 1)) {
        Explore::Step(0, -1)
    } else if m.is_walkable(Point::new(p.x, p.y + 1)) {
        Explore::Step(0, 1)
    } else {
        Explore::Stay
    }
}

/// One step of auto-explore from `here`, with monsters standing at
/// `monsters`: stop when one is in view; otherwise head for the nearest
/// ground next to unexplored ground, walking over known ground. Standing next
/// to it already, step into the first open tile beside (west, east, north,
/// south). With nothing left to reach, exploring is complete. Stopping and
/// completing are logged.
pub fn explore_step(m: &LevelMap, here: Point, monsters: &[Point], log: &mut Vec<String>) -> (r: Explore)
    requires
        m.wf(),
        i32::MIN < here.x < i32::MAX,
        i32::MIN < here.y < i32::MAX,
    ensures
        texts(final(log)@) == texts(old(log)@) + explore_note(r),
        if monster_in_view(m, monsters@) {
            r == Explore::MonsterNearby
        } else if borders_unexplored(m, here) {
            r == first_open(m, here)
        } else if forall|w: Seq<Point>|
            #![trigger known_walk(m, here, w)]
            known_walk(m, here, w) ==> !borders_unexplored(m, walk_end(here, w)) {
            r == Explore::Complete
        } else {
            exists|path: Seq<Point>|
                #[trigger] nearest_unexplored_walk(m, here, path) && path.len() > 0 && r == Explore::Step(
                    (path[0].x - here.x) as i32,
                    (path[0].y - here.y) as i32,
                )
        },
{
    if any_in_view(m, monsters) {
        say(log, text1("A monster is nearby — you stop exploring."));
        proof {
            reveal_strlit("A monster is nearby — you stop exploring.");
        }
        return Explore::MonsterNearby;
    }
    let known = known_map(m);
    match known.nearest_unexplored(m, here) {
        None => {
            say(log, text1("No unexplored areas visible. Exploration complete."));
            proof {
                reveal_strlit("No unexplored areas visible. Exploration complete.");
                assert forall|w: Seq<Point>|
                    #![trigger known_walk(m, here, w)]
                    known_walk(m, here, w) implies !borders_unexplored(m, walk_end(here, w)) by {
                    lemma_known_walks(m, &known, here, w);
                    assert(known.is_path(here, walk_end(here, w), w));
                }
                let e = Seq::<Point>::empty();
                lemma_known_walks(m, &known, here, e);
            }
            Explore::Complete
        },
        Some(path) => {
            if path.len() == 0 {
                proof {
                    assert(walk_end(here, path@) == here);
                }
                let r = first_open_exec(m, here);
                proof {
                    assert(texts(log@) =~= texts(old(log)@) + explore_note(r));
                }
                return r;
            }
            let next = path[0];
            proof {
                lemma_known_walks(m, &known, here, path@);
                assert(known_walk(m, here, path@));
                assert(adjacent8(here, path@[0]));
                assert forall|w: Seq<Point>|
                    #![trigger known_walk(m, here, w)]
                    known_walk(m, here, w) && borders_unexplored(m, walk_end(here, w)) implies path@.len() <= w.len() by {
                    lemma_known_walks(m, &known, here, w);
                    assert(known.is_path(here, walk_end(here, w), w));
                }
                assert(nearest_unexplored_walk(m, here, path@));
                let e = Seq::<Point>::empty();
                if borders_unexplored(m, here) {
                    lemma_known_walks(m, &known, here, e);
                    assert(known_walk(m, here, e));
                    assert(walk_end(here, e) == here);
                }
                assert(texts(log@) =~= texts(old(log)@) + explore_note(Explore::Step((next.x - here.x) as i32, (next.y - here.y) as i32)));
            }
            Explore::Step(next.x - here.x, next.y - here.y)
        },
    }
}

} // verus!
