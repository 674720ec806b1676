//! Procedural level generation in the classic Rogue manner: a 3x3 grid of
//! rooms joined by a spanning tree of L-shaped corridors, then traps, stairs,
//! items, gold and monsters.

use vstd::prelude::*;
use super::defs::ProcParams;
use crate::data::Config;
use crate::geometry::{Point, Rect};
use crate::map::{LevelMap, Spawn, SpawnKind, TileKind, adjacent4, lemma_idx_in_range, lemma_orth_reachable};
use crate::rng::{RogueRng, rnd_outcome};

verus! {

/// Upper bound on the retries of a rejection-sampling loop (classic Rogue
/// retries until it succeeds; no run gets anywhere near this many tries).
pub const MAX_TRIES: u64 = 0xffff_ffff_ffff_ffff;

/// Number of rooms in the 3x3 grid.
pub const MAXROOMS: usize = 9;

/// The 3x3 room adjacency graph: rooms are laid out
/// row-major 0,1,2 / 3,4,5 / 6,7,8 and each is joined to its grid neighbours.
pub open spec fn spec_conn(a: int, b: int) -> bool {
    0 <= a < 9 && 0 <= b < 9 && (
        (b == a + 1 && a % 3 != 2) || (a == b + 1 && b % 3 != 2) || b == a + 3 || a == b + 3)
}

fn conn_table(a: usize, b: usize) -> (c: bool)
    requires
        a < 9,
        b < 9,
    ensures
        c == spec_conn(a as int, b as int),
{
    (b == a + 1 && a % 3 != 2) || (a == b + 1 && b % 3 != 2) || b == a + 3 || a == b + 3
}

/// No staircase tile anywhere.
pub open spec fn no_stairs(m: &LevelMap) -> bool {
    forall|i: int|
        0 <= i < m.tile_seq().len() ==> #[trigger] m.tile_seq()[i] != TileKind::StairsDown
            && m.tile_seq()[i] != TileKind::StairsUp
}

/// Everything but the tile and darkness layers is as in `other`.
pub open spec fn same_meta(m: &LevelMap, other: &LevelMap) -> bool {
    &&& m.width == other.width
    &&& m.height == other.height
    &&& m.revealed_seq() == other.revealed_seq()
    &&& m.visible_seq() == other.visible_seq()
    &&& m.rooms == other.rooms
    &&& m.player_start == other.player_start
    &&& m.stairs_down == other.stairs_down
    &&& m.spawns == other.spawns
}

/// A room during generation. `gone` rooms are corridor junctions (a single cell).
#[derive(Clone, Copy)]
struct GenRoom {
    pos: Point,
    max: Point,
    gone: bool,
    dark: bool,
    gold: i32,
}

/// A room not laid out yet: at the origin with no size.
spec fn blank_coords(r: GenRoom) -> bool {
    r.pos.x == 0 && r.pos.y == 0 && r.max.x == 0 && r.max.y == 0
}

/// Coordinates of a room stay within a few cells of the map.
spec fn room_bounded(r: GenRoom, w: int, h: int) -> bool {
    &&& room_fits(r, w, h)
    &&& (!r.gone ==> r.max.x >= 4 && r.max.y >= 4)
}

/// A room's coordinates stay near a `w` by `h` map, and a drawn room is at
/// least 2x2 so that its walls hold a door.
spec fn room_fits(r: GenRoom, w: int, h: int) -> bool {
    &&& 0 <= r.pos.x <= w + 2
    &&& 0 <= r.pos.y <= h + 2
    &&& 0 <= r.max.x <= w + 4
    &&& 0 <= r.max.y <= h + 4
    &&& r.pos.x + r.max.x <= w + 6
    &&& r.pos.y + r.max.y <= h + 6
    &&& (!r.gone ==> r.max.x >= 2 && r.max.y >= 2)
}

spec fn rooms_bounded(rooms: Seq<GenRoom>, w: int, h: int) -> bool {
    &&& rooms.len() == 9
    &&& forall|i: int| 0 <= i < 9 ==> room_bounded(#[trigger] rooms[i], w, h)
}

/// Left column of the grid cell of room `i` (cells are `bw` wide).
spec fn cell_x0(i: int, bw: int) -> int {
    (i % 3) * bw + 1
}

/// Top row of the grid cell of room `i` (cells are `bh` high).
spec fn cell_y0(i: int, bh: int) -> int {
    (i / 3) * bh
}

/// A room lies well inside its grid cell (cells at least 5 by 5): a drawn
/// room keeps its last column and row free, a gone room's junction keeps off
/// the cell's border.
spec fn tight_in_cell(r: GenRoom, i: int, bw: int, bh: int) -> bool {
    if r.gone {
        &&& cell_x0(i, bw) + 1 <= r.pos.x <= cell_x0(i, bw) + bw - 2
        &&& cell_y0(i, bh) + 1 <= r.pos.y <= cell_y0(i, bh) + bh - 2
    } else {
        &&& cell_x0(i, bw) <= r.pos.x
        &&& r.pos.x + r.max.x <= cell_x0(i, bw) + bw - 1
        &&& cell_y0(i, bh) <= r.pos.y
        &&& r.pos.y + r.max.y <= cell_y0(i, bh) + bh - 1
        &&& r.max.x >= 4
        &&& r.max.y >= 4
    }
}

/// A drawn room lies inside its grid cell and is at least 4x4; in cells of
/// at least 5 by 5 every room lies well inside its cell.
spec fn room_in_cell(r: GenRoom, i: int, bw: int, bh: int) -> bool {
    &&& !r.gone ==> {
        &&& cell_x0(i, bw) <= r.pos.x
        &&& r.pos.x + r.max.x <= cell_x0(i, bw) + bw
        &&& cell_y0(i, bh) <= r.pos.y
        &&& r.pos.y + r.max.y <= cell_y0(i, bh) + bh
        &&& r.max.x >= 4
        &&& r.max.y >= 4
    }
    &&& bw >= 5 && bh >= 5 ==> tight_in_cell(r, i, bw, bh)
}

/// The room's box on the map: wall on the ring, floor inside.
pub open spec fn box_drawn(m: &LevelMap, pos: Point, max: Point) -> bool {
    forall|q: Point|
        m.spec_in_bounds(q) && in_room_box(pos, max, q) ==> #[trigger] m.spec_tile(q) == if on_room_wall(pos, max, q) {
            TileKind::Wall
        } else {
            TileKind::Floor
        }
}

/// `q` lies on the wall ring of a drawn room.
spec fn ring_cell(rooms: Seq<GenRoom>, q: Point) -> bool {
    exists|k: int| 0 <= k < rooms.len() && !rooms[k].gone && #[trigger] on_room_wall(rooms[k].pos, rooms[k].max, q)
}

/// Carving corridors from `m0` to `m1` only turns rock into passage and walls
/// of the rooms into doors.
spec fn carved(m0: &LevelMap, m1: &LevelMap, rooms: Seq<GenRoom>) -> bool {
    forall|q: Point|
        #[trigger] m1.spec_tile(q) == m0.spec_tile(q) || (m0.spec_tile(q) == TileKind::Empty && m1.spec_tile(q)
            == TileKind::Passage) || (m1.spec_tile(q) == TileKind::Door && ring_cell(rooms, q))
}

proof fn lemma_carved_trans(m0: &LevelMap, m1: &LevelMap, m2: &LevelMap, rooms: Seq<GenRoom>)
    requires
        carved(m0, m1, rooms),
        carved(m1, m2, rooms),
    ensures
        carved(m0, m2, rooms),
{
    assert forall|q: Point| #[trigger] m2.spec_tile(q) == m0.spec_tile(q) || (m0.spec_tile(q) == TileKind::Empty
        && m2.spec_tile(q) == TileKind::Passage) || (m2.spec_tile(q) == TileKind::Door && ring_cell(rooms, q)) by {
        assert(m1.spec_tile(q) == m0.spec_tile(q) || (m0.spec_tile(q) == TileKind::Empty && m1.spec_tile(q)
            == TileKind::Passage) || (m1.spec_tile(q) == TileKind::Door && ring_cell(rooms, q)));
    }
}

/// Cells of different rooms do not overlap, so neither do their boxes.
proof fn lemma_boxes_apart(a: GenRoom, i: int, b: GenRoom, j: int, bw: int, bh: int, q: Point)
    requires
        0 <= i < 9,
        0 <= j < 9,
        i != j,
        bw >= 4,
        bh >= 4,
        room_in_cell(a, i, bw, bh),
        room_in_cell(b, j, bw, bh),
        !a.gone,
        !b.gone,
        in_room_box(a.pos, a.max, q),
    ensures
        !in_room_box(b.pos, b.max, q),
{
    lemma_cell_cases(i, bw, bh);
    lemma_cell_cases(j, bw, bh);
}

/// The cell corners of the nine rooms.
proof fn lemma_cell_cases(i: int, bw: int, bh: int)
    requires
        0 <= i < 9,
    ensures
        cell_x0(i, bw) == if i % 3 == 0 { 1 } else if i % 3 == 1 { bw + 1 } else { 2 * bw + 1 },
        cell_y0(i, bh) == if i / 3 == 0 { 0 } else if i / 3 == 1 { bh } else { 2 * bh },
        0 <= i % 3 < 3,
        0 <= i / 3 < 3,
        i == 3 * (i / 3) + i % 3,
{
    let c = i % 3;
    let r = i / 3;
    assert(c * bw == if c == 0 { 0 } else if c == 1 { bw } else { 2 * bw }) by (nonlinear_arith)
        requires 0 <= c < 3;
    assert(r * bh == if r == 0 { 0 } else if r == 1 { bh } else { 2 * bh }) by (nonlinear_arith)
        requires 0 <= r < 3;
}

/// Dimensions small enough for all coordinate arithmetic of the generator.
pub open spec fn dims_ok(w: int, h: int) -> bool {
    &&& 0 <= w <= i32::MAX / 4
    &&& 0 <= h <= i32::MAX / 4
    &&& w * h <= i32::MAX
}

impl GenRoom {
    fn rect(&self) -> (r: Rect)
        requires
            self.pos.x + self.max.x <= i32::MAX,
            self.pos.y + self.max.y <= i32::MAX,
            self.pos.x >= 0,
            self.pos.y >= 0,
            self.max.x >= 0,
            self.max.y >= 0,
        ensures
            r.x1 == self.pos.x,
            r.y1 == self.pos.y,
            r.x2 == self.pos.x + self.max.x,
            r.y2 == self.pos.y + self.max.y,
    {
        Rect::new(self.pos.x, self.pos.y, self.max.x, self.max.y)
    }
}

/// Setting a non-staircase tile keeps the map free of staircases.
proof fn lemma_set_keeps_no_stairs(old_m: &LevelMap, new_m: &LevelMap, p: Point, t: TileKind)
    requires
        old_m.wf(),
        no_stairs(old_m),
        t != TileKind::StairsDown,
        t != TileKind::StairsUp,
        new_m.tile_seq() == (if old_m.spec_in_bounds(p) {
            old_m.tile_seq().update(old_m.spec_idx(p), t)
        } else {
            old_m.tile_seq()
        }),
    ensures
        no_stairs(new_m),
{
    if old_m.spec_in_bounds(p) {
        lemma_idx_in_range(old_m, p);
        assert forall|i: int| 0 <= i < new_m.tile_seq().len() implies #[trigger] new_m.tile_seq()[i]
            != TileKind::StairsDown && new_m.tile_seq()[i] != TileKind::StairsUp by {
            if i != old_m.spec_idx(p) {
                assert(new_m.tile_seq()[i] == old_m.tile_seq()[i]);
            }
        }
    }
}

/// Set a tile that is no staircase.
fn put_tile(map: &mut LevelMap, p: Point, t: TileKind)
    requires
        old(map).wf(),
        no_stairs(old(map)),
        t != TileKind::StairsDown,
        t != TileKind::StairsUp,
    ensures
        final(map).wf(),
        no_stairs(final(map)),
        same_meta(final(map), old(map)),
        final(map).dark_seq() == old(map).dark_seq(),
        forall|q: Point|
            #[trigger] final(map).spec_tile(q) == (if q == p && old(map).spec_in_bounds(p) { t } else { old(map).spec_tile(q) }),
{
    let ghost before = *map;
    map.set_tile(p, t);
    proof {
        lemma_set_keeps_no_stairs(&before, map, p, t);
    }
}

/// `q` lies in the box a room covers, walls included.
pub open spec fn in_room_box(pos: Point, max: Point, q: Point) -> bool {
    pos.x <= q.x <= pos.x + max.x - 1 && pos.y <= q.y <= pos.y + max.y - 1
}

/// `q` lies on the wall ring of a room's box.
pub open spec fn on_room_wall(pos: Point, max: Point, q: Point) -> bool {
    in_room_box(pos, max, q) && (q.x == pos.x || q.x == pos.x + max.x - 1 || q.y == pos.y || q.y == pos.y + max.y - 1)
}

/// The tile a room draws at `q`: wall on its ring, floor inside.
pub open spec fn drawn_tile(m: &LevelMap, pos: Point, max: Point, q: Point) -> TileKind {
    if m.spec_in_bounds(q) && in_room_box(pos, max, q) {
        if on_room_wall(pos, max, q) { TileKind::Wall } else { TileKind::Floor }
    } else {
        m.spec_tile(q)
    }
}

/// `draw_room`: walls around the border, floor inside (darkened for a dark room).
fn draw_room(map: &mut LevelMap, rp: &GenRoom)
    requires
        old(map).wf(),
        no_stairs(old(map)),
        dims_ok(old(map).width as int, old(map).height as int),
        room_bounded(*rp, old(map).width as int, old(map).height as int),
        rp.max.x >= 1,
        rp.max.y >= 1,
    ensures
        final(map).wf(),
        no_stairs(final(map)),
        same_meta(final(map), old(map)),
        forall|q: Point| #[trigger] final(map).spec_tile(q) == drawn_tile(old(map), rp.pos, rp.max, q),
        forall|q: Point|
            #[trigger] final(map).spec_is_dark(q) == (if rp.dark && old(map).spec_in_bounds(q) && in_room_box(rp.pos,
                rp.max, q) && !on_room_wall(rp.pos, rp.max, q) {
                true
            } else {
                old(map).spec_is_dark(q)
            }),
{
    let x0 = rp.pos.x;
    let y0 = rp.pos.y;
    let x1 = rp.pos.x + rp.max.x - 1;
    let y1 = rp.pos.y + rp.max.y - 1;
    let ghost start = *map;
    let mut x = x0;
    while x <= x1
        invariant
            map.wf(),
            no_stairs(map),
            same_meta(map, &start),
            map.dark_seq() == start.dark_seq(),
            x0 <= x <= x1 + 1,
            x1 < i32::MAX,
            forall|q: Point|
                #[trigger] map.spec_tile(q) == (if start.spec_in_bounds(q) && x0 <= q.x < x && (q.y == y0 || q.y == y1) {
                    TileKind::Wall
                } else {
                    start.spec_tile(q)
                }),
        decreases x1 + 1 - x,
    {
        put_tile(map, Point::new(x, y0), TileKind::Wall);
        put_tile(map, Point::new(x, y1), TileKind::Wall);
        x = x + 1;
    }
    let mut y = y0;
    while y <= y1
        invariant
            map.wf(),
            no_stairs(map),
            same_meta(map, &start),
            map.dark_seq() == start.dark_seq(),
            y0 <= y <= y1 + 1,
            y1 < i32::MAX,
            x0 <= x1,
            forall|q: Point|
                #[trigger] map.spec_tile(q) == (if start.spec_in_bounds(q) && ((x0 <= q.x <= x1 && (q.y == y0 || q.y
                    == y1)) || (y0 <= q.y < y && (q.x == x0 || q.x == x1))) {
                    TileKind::Wall
                } else {
                    start.spec_tile(q)
                }),
        decreases y1 + 1 - y,
    {
        put_tile(map, Point::new(x0, y), TileKind::Wall);
        put_tile(map, Point::new(x1, y), TileKind::Wall);
        y = y + 1;
    }
    let mut y = y0 + 1;
    while y < y1
        invariant
            map.wf(),
            no_stairs(map),
            same_meta(map, &start),
            y0 + 1 <= y <= y1 || y == y0 + 1,
            x0 <= x1 < i32::MAX,
            y0 <= y1 < i32::MAX,
            x0 == rp.pos.x,
            y0 == rp.pos.y,
            x1 == rp.pos.x + rp.max.x - 1,
            y1 == rp.pos.y + rp.max.y - 1,
            forall|q: Point|
                #[trigger] map.spec_tile(q) == (if start.spec_in_bounds(q) && on_room_wall(rp.pos, rp.max, q) {
                    TileKind::Wall
                } else if start.spec_in_bounds(q) && x0 < q.x < x1 && y0 < q.y < y {
                    TileKind::Floor
                } else {
                    start.spec_tile(q)
                }),
            forall|q: Point|
                #[trigger] map.spec_is_dark(q) == (if rp.dark && start.spec_in_bounds(q) && x0 < q.x < x1 && y0 < q.y < y {
                    true
                } else {
                    start.spec_is_dark(q)
                }),
        decreases y1 - y,
    {
        let mut x = x0 + 1;
        while x < x1
            invariant
                map.wf(),
                no_stairs(map),
                same_meta(map, &start),
                y0 < y < y1,
                x0 + 1 <= x <= x1 || x == x0 + 1,
                x0 <= x1 < i32::MAX,
                x0 == rp.pos.x,
                y0 == rp.pos.y,
                x1 == rp.pos.x + rp.max.x - 1,
                y1 == rp.pos.y + rp.max.y - 1,
                forall|q: Point|
                    #[trigger] map.spec_tile(q) == (if start.spec_in_bounds(q) && on_room_wall(rp.pos, rp.max, q) {
                        TileKind::Wall
                    } else if start.spec_in_bounds(q) && x0 < q.x < x1 && (y0 < q.y < y || (q.y == y && q.x < x)) {
                        TileKind::Floor
                    } else {
                        start.spec_tile(q)
                    }),
                forall|q: Point|
                    #[trigger] map.spec_is_dark(q) == (if rp.dark && start.spec_in_bounds(q) && x0 < q.x < x1 && (y0 < q.y
                        < y || (q.y == y && q.x < x)) {
                        true
                    } else {
                        start.spec_is_dark(q)
                    }),
            decreases x1 - x,
        {
            let p = Point::new(x, y);
            let ghost prev = *map;
            put_tile(map, p, TileKind::Floor);
            assert forall|q: Point| #[trigger] map.spec_is_dark(q) == prev.spec_is_dark(q) by {}
            if rp.dark {
                map.set_dark(p, true);
                assert(no_stairs(map));
            }
            x = x + 1;
        }
        y = y + 1;
    }
}

/// How many of the first `k` rooms are "gone".
spec fn gone_upto(rooms: Seq<GenRoom>, k: int) -> int
    decreases k,
{
    if k <= 0 {
        0
    } else {
        gone_upto(rooms, k - 1) + if rooms[k - 1].gone { 1int } else { 0int }
    }
}

/// With no room gone, the count is zero.
proof fn lemma_none_gone(rooms: Seq<GenRoom>, k: int)
    requires
        0 <= k <= rooms.len(),
        forall|i: int| 0 <= i < k ==> !(#[trigger] rooms[i]).gone,
    ensures
        gone_upto(rooms, k) == 0,
    decreases k,
{
    if k > 0 {
        lemma_none_gone(rooms, k - 1);
    }
}

/// Rooms with the same gone flags have the same count.
proof fn lemma_gone_same(r1: Seq<GenRoom>, r2: Seq<GenRoom>, k: int)
    requires
        0 <= k <= r1.len(),
        r1.len() == r2.len(),
        forall|j: int| 0 <= j < r1.len() ==> (#[trigger] r1[j]).gone == r2[j].gone,
    ensures
        gone_upto(r1, k) == gone_upto(r2, k),
    decreases k,
{
    if k > 0 {
        lemma_gone_same(r1, r2, k - 1);
        assert(r1[k - 1].gone == r2[k - 1].gone);
    }
}

/// Marking one room gone adds at most one to the count.
proof fn lemma_gone_mark(rooms: Seq<GenRoom>, r: int, room: GenRoom, k: int)
    requires
        0 <= r < rooms.len(),
        0 <= k <= rooms.len(),
    ensures
        gone_upto(rooms.update(r, room), k) <= gone_upto(rooms, k) + 1,
        gone_upto(rooms, k) >= 0,
    decreases k,
{
    if k > 0 {
        lemma_gone_mark(rooms, r, room, k - 1);
        if k - 1 == r {
            lemma_gone_same_below(rooms, r, room, k - 1);
        }
    }
}

/// Below the changed room the count is unchanged.
proof fn lemma_gone_same_below(rooms: Seq<GenRoom>, r: int, room: GenRoom, k: int)
    requires
        0 <= r < rooms.len(),
        0 <= k <= r,
    ensures
        gone_upto(rooms.update(r, room), k) == gone_upto(rooms, k),
    decreases k,
{
    if k > 0 {
        lemma_gone_same_below(rooms, r, room, k - 1);
    }
}

/// Fewer gone rooms than rooms: some room stands.
proof fn lemma_some_standing(rooms: Seq<GenRoom>, k: int)
    requires
        0 <= k <= rooms.len(),
        gone_upto(rooms, k) < k,
    ensures
        exists|i: int| 0 <= i < k && !(#[trigger] rooms[i]).gone,
    decreases k,
{
    if k > 0 {
        if rooms[k - 1].gone {
            lemma_some_standing(rooms, k - 1);
            let i = choose|i: int| 0 <= i < k - 1 && !(#[trigger] rooms[i]).gone;
            assert(0 <= i < k && !rooms[i].gone);
        } else {
            assert(!rooms[k - 1].gone);
        }
    }
}

/// Pick a random room that is not "gone". Should the draws keep landing on
/// gone rooms for the whole try budget, the first standing room is taken.
fn rnd_room<R: RogueRng>(rooms: &Vec<GenRoom>, rng: &mut R) -> (r: usize)
    requires
        rooms@.len() == 9,
        exists|i: int| 0 <= i < 9 && !(#[trigger] rooms@[i]).gone,
    ensures
        r < 9,
        !rooms@[r as int].gone,
{
    let mut tries: u64 = 0;
    loop
        invariant
            rooms@.len() == 9,
        decreases MAX_TRIES - tries,
    {
        let r = rng.rnd(9) as usize;
        if !rooms[r].gone {
            return r;
        }
        if tries == MAX_TRIES {
            break;
        }
        tries = tries + 1;
    }
    let mut i: usize = 0;
    while i < 9
        invariant
            rooms@.len() == 9,
            exists|j: int| 0 <= j < 9 && !(#[trigger] rooms@[j]).gone,
            i <= 9,
            forall|j: int| 0 <= j < i ==> (#[trigger] rooms@[j]).gone,
        decreases 9 - i,
    {
        if !rooms[i].gone {
            return i;
        }
        i = i + 1;
    }
    proof {
        let j = choose|j: int| 0 <= j < 9 && !(#[trigger] rooms@[j]).gone;
        assert(rooms@[j].gone);
    }
    0
}

/// `do_rooms`: lay out and draw the nine rooms.
fn do_rooms<R: RogueRng>(map: &mut LevelMap, depth: i32, params: &ProcParams, bsze: Point, rng: &mut R) -> (rooms: Vec<GenRoom>)
    requires
        old(map).wf(),
        no_stairs(old(map)),
        dims_ok(old(map).width as int, old(map).height as int),
        bsze.x == old(map).width / 3,
        bsze.y == old(map).height / 3,
        depth > i32::MIN,
        forall|q: Point| #[trigger] old(map).spec_tile(q) != TileKind::Trap,
    ensures
        final(map).wf(),
        forall|q: Point| #[trigger] final(map).spec_tile(q) != TileKind::Trap,
        no_stairs(final(map)),
        same_meta(final(map), old(map)),
        rooms_bounded(rooms@, final(map).width as int, final(map).height as int),
        bsze.x >= 4 && bsze.y >= 4 ==> forall|k: int|
            0 <= k < 9 ==> room_in_cell(#[trigger] rooms@[k], k, bsze.x as int, bsze.y as int) && (!rooms@[k].gone
                ==> box_drawn(final(map), rooms@[k].pos, rooms@[k].max)),
        gone_upto(rooms@, 9) <= 3,
        !params.allow_gone_rooms ==> forall|k: int| 0 <= k < 9 ==> !(#[trigger] rooms@[k]).gone,
        forall|k: int| 0 <= k < 9 && (#[trigger] rooms@[k]).dark ==> params.allow_dark && depth > 1 && !rooms@[k].gone,
        forall|q: Point|
            (forall|k: int| 0 <= k < 9 && !(#[trigger] rooms@[k]).gone ==> !in_room_box(rooms@[k].pos, rooms@[k].max, q))
                ==> #[trigger] final(map).spec_tile(q) == old(map).spec_tile(q),
        (!params.allow_dark || depth <= 1) ==> forall|q: Point| #[trigger] final(map).spec_is_dark(q) == old(map).spec_is_dark(q),
{
    let ghost w = map.width as int;
    let ghost h = map.height as int;
    let ghost start = *map;
    let blank = GenRoom { pos: Point::new(0, 0), max: Point::new(0, 0), gone: false, dark: false, gold: 0 };
    let mut rooms: Vec<GenRoom> = Vec::new();
    let mut k: usize = 0;
    while k < MAXROOMS
        invariant
            k <= 9,
            rooms@.len() == k,
            forall|i: int| 0 <= i < k ==> blank_coords(#[trigger] rooms@[i]) && !rooms@[i].gone && !rooms@[i].dark,
            blank_coords(blank),
            !blank.gone,
            !blank.dark,
        decreases 9 - k,
    {
        rooms.push(blank);
        k = k + 1;
    }
    // Mark up to three "gone" rooms.
    if params.allow_gone_rooms {
        let left_out = rng.rnd(4);
        let mut n: i32 = 0;
        proof {
            lemma_none_gone(rooms@, 9);
        }
        while n < left_out
            invariant
                rooms@.len() == 9,
                0 <= n,
                left_out < 4,
                left_out >= 0 ==> n <= left_out,
                gone_upto(rooms@, 9) <= n,
                forall|i: int| 0 <= i < 9 ==> blank_coords(#[trigger] rooms@[i]) && !rooms@[i].dark,
            decreases left_out - n,
        {
            proof {
                lemma_some_standing(rooms@, 9);
            }
            let r = rnd_room(&rooms, rng);
            let mut room = rooms[r];
            room.gone = true;
            proof {
                lemma_gone_mark(rooms@, r as int, room, 9);
            }
            rooms.set(r, room);
            n = n + 1;
        }
    } else {
        proof {
            lemma_none_gone(rooms@, 9);
        }
    }
    let ghost flags = rooms@;
    let mut i: usize = 0;
    while i < MAXROOMS
        invariant
            map.wf(),
            no_stairs(map),
            same_meta(map, &start),
            w == map.width,
            h == map.height,
            dims_ok(w, h),
            bsze.x == w / 3,
            bsze.y == h / 3,
            depth > i32::MIN,
            i <= 9,
            rooms@.len() == 9,
            forall|j: int| 0 <= j < i ==> room_bounded(#[trigger] rooms@[j], w, h),
            forall|j: int| i <= j < 9 ==> blank_coords(#[trigger] rooms@[j]),
            bsze.x >= 4 && bsze.y >= 4 ==> forall|j: int|
                0 <= j < i ==> room_in_cell(#[trigger] rooms@[j], j, bsze.x as int, bsze.y as int) && (!rooms@[j].gone
                    ==> box_drawn(map, rooms@[j].pos, rooms@[j].max)),
            flags.len() == 9,
            gone_upto(flags, 9) <= 3,
            !params.allow_gone_rooms ==> forall|k: int| 0 <= k < 9 ==> !(#[trigger] flags[k]).gone,
            forall|j: int| 0 <= j < 9 ==> (#[trigger] rooms@[j]).gone == flags[j].gone,
            forall|j: int| 0 <= j < 9 && (#[trigger] rooms@[j]).dark ==> params.allow_dark && depth > 1 && !rooms@[j].gone,
            forall|q: Point|
                (forall|j: int| 0 <= j < i && !(#[trigger] rooms@[j]).gone ==> !in_room_box(rooms@[j].pos, rooms@[j].max, q))
                    ==> #[trigger] map.spec_tile(q) == start.spec_tile(q),
            (!params.allow_dark || depth <= 1) ==> forall|q: Point| #[trigger] map.spec_is_dark(q) == start.spec_is_dark(q),
            forall|q: Point| #[trigger] map.spec_tile(q) != TileKind::Trap,
        decreases 9 - i,
    {
        proof {
            assert((i % 3) as int * bsze.x <= 2 * bsze.x) by (nonlinear_arith)
                requires (i % 3) as int <= 2, bsze.x >= 0;
            assert((i / 3) as int * bsze.y <= 2 * bsze.y) by (nonlinear_arith)
                requires (i / 3) as int <= 2, bsze.y >= 0;
            assert((i % 3) as int * bsze.x >= 0) by (nonlinear_arith)
                requires (i % 3) as int >= 0, bsze.x >= 0;
            assert((i / 3) as int * bsze.y >= 0) by (nonlinear_arith)
                requires (i / 3) as int >= 0, bsze.y >= 0;
        }
        let top = Point::new((i % 3) as i32 * bsze.x + 1, (i / 3) as i32 * bsze.y);
        let mut room = rooms[i];
        if room.gone {
            // Place a corridor junction, keeping the top row clear.
            let mut tries: u64 = 0;
            loop
                invariant
                    room_bounded(room, w, h),
                    room.gone,
                    !room.dark,
                    room.max.x == 0,
                    room.max.y == 0,
                    dims_ok(w, h),
                    bsze.x == w / 3,
                    bsze.y == h / 3,
                    top.x == (i % 3) as int * bsze.x + 1,
                    top.y == (i / 3) as int * bsze.y,
                    i < 9,
                    h == map.height,
                ensures
                    room_bounded(room, w, h),
                    room.gone,
                    !room.dark,
                    bsze.x >= 4 && bsze.y >= 4 ==> room_in_cell(room, i as int, bsze.x as int, bsze.y as int),
                decreases MAX_TRIES - tries,
            {
                let ox = rng.rnd(bsze.x - 2);
                let oy = rng.rnd(bsze.y - 2);
                proof {
                    assert((i % 3) as int * bsze.x <= 2 * bsze.x) by (nonlinear_arith)
                        requires (i % 3) as int <= 2, bsze.x >= 0;
                    assert((i / 3) as int * bsze.y <= 2 * bsze.y) by (nonlinear_arith)
                        requires (i / 3) as int <= 2, bsze.y >= 0;
                    assert((i % 3) as int * bsze.x >= 0) by (nonlinear_arith)
                        requires (i % 3) as int >= 0, bsze.x >= 0;
                    assert((i / 3) as int * bsze.y >= 0) by (nonlinear_arith)
                        requires (i / 3) as int >= 0, bsze.y >= 0;
                }
                room.pos = Point::new(top.x + ox + 1, top.y + oy + 1);
                if (room.pos.y > 0 && room.pos.y < map.height - 1) || tries == MAX_TRIES {
                    break;
                }
                tries = tries + 1;
            }
            let ghost pre_set = rooms@;
            rooms.set(i, room);
            proof {
                assert forall|j: int| 0 <= j < 9 && (#[trigger] rooms@[j]).dark implies params.allow_dark && depth > 1 && !rooms@[j].gone by {
                    if j != i {
                        assert(rooms@[j] == pre_set[j]);
                    } else {
                        assert(pre_set[j].gone);
                    }
                }
            }
            i = i + 1;
            assert(rooms_bounded(rooms@, w, h) || i < 9);
            proof {
                if bsze.x >= 4 && bsze.y >= 4 {
                    assert forall|j: int| 0 <= j < i implies room_in_cell(#[trigger] rooms@[j], j, bsze.x as int,
                        bsze.y as int) && (!rooms@[j].gone ==> box_drawn(map, rooms@[j].pos, rooms@[j].max)) by {
                        if j == i - 1 {
                            assert(rooms@[j].gone);
                        }
                    }
                }
                assert forall|q: Point|
                    (forall|j: int| 0 <= j < i && !(#[trigger] rooms@[j]).gone ==> !in_room_box(rooms@[j].pos, rooms@[j].max, q))
                    implies #[trigger] map.spec_tile(q) == start.spec_tile(q) by {
                    assert forall|j: int| 0 <= j < i - 1 && !(#[trigger] pre_set[j]).gone implies !in_room_box(
                        pre_set[j].pos, pre_set[j].max, q) by {
                        assert(rooms@[j] == pre_set[j]);
                    }
                }
            }
            continue;
        }
        // Dark rooms become more likely deeper down.
        if params.allow_dark && rng.rnd(10) < depth - 1 {
            room.dark = true;
        }
        // Random size and position within the room's grid cell.
        let mut tries: u64 = 0;
        loop
            invariant
                !room.gone,
                room.dark ==> params.allow_dark && depth > 1,
                blank_coords(room) || room_bounded(room, w, h),
                bsze.x >= 4 && bsze.y >= 4 ==> blank_coords(room) || room_in_cell(room, i as int, bsze.x as int,
                    bsze.y as int),
                dims_ok(w, h),
                bsze.x == w / 3,
                bsze.y == h / 3,
                top.x == (i % 3) as int * bsze.x + 1,
                top.y == (i / 3) as int * bsze.y,
                i < 9,
            ensures
                room_bounded(room, w, h),
                bsze.x >= 4 && bsze.y >= 4 ==> room_in_cell(room, i as int, bsze.x as int, bsze.y as int),
            decreases MAX_TRIES - tries,
        {
            let mx = rng.rnd(bsze.x - 4) + 4;
            let my = rng.rnd(bsze.y - 4) + 4;
            let px = rng.rnd(bsze.x - mx);
            let py = rng.rnd(bsze.y - my);
            proof {
                assert((i % 3) as int * bsze.x <= 2 * bsze.x) by (nonlinear_arith)
                    requires (i % 3) as int <= 2, bsze.x >= 0;
                assert((i / 3) as int * bsze.y <= 2 * bsze.y) by (nonlinear_arith)
                    requires (i / 3) as int <= 2, bsze.y >= 0;
                assert((i % 3) as int * bsze.x >= 0) by (nonlinear_arith)
                    requires (i % 3) as int >= 0, bsze.x >= 0;
                assert((i / 3) as int * bsze.y >= 0) by (nonlinear_arith)
                    requires (i / 3) as int >= 0, bsze.y >= 0;
            }
            room.max = Point::new(mx, my);
            room.pos = Point::new(top.x + px, top.y + py);
            if room.pos.y != 0 || tries == MAX_TRIES {
                break;
            }
            tries = tries + 1;
        }
        let ghost before = *map;
        let ghost placed = rooms@;
        rooms.set(i, room);
        proof {
            assert forall|j: int| 0 <= j < 9 && (#[trigger] rooms@[j]).dark implies params.allow_dark && depth > 1 && !rooms@[j].gone by {
                if j != i {
                    assert(rooms@[j] == placed[j]);
                }
            }
        }
        draw_room(map, &room);
        proof {
            if bsze.x >= 4 && bsze.y >= 4 {
                assert forall|j: int| 0 <= j < i + 1 implies room_in_cell(#[trigger] rooms@[j], j, bsze.x as int,
                    bsze.y as int) && (!rooms@[j].gone ==> box_drawn(map, rooms@[j].pos, rooms@[j].max)) by {
                    if j < i {
                        assert(rooms@[j] == placed[j]);
                        if !rooms@[j].gone {
                            let rj = rooms@[j];
                            assert forall|q: Point| map.spec_in_bounds(q) && in_room_box(rj.pos, rj.max, q) implies
                                #[trigger] map.spec_tile(q) == if on_room_wall(rj.pos, rj.max, q) {
                                    TileKind::Wall
                                } else {
                                    TileKind::Floor
                                } by {
                                lemma_boxes_apart(rj, j, room, i as int, bsze.x as int, bsze.y as int, q);
                                assert(map.spec_tile(q) == before.spec_tile(q));
                            }
                        }
                    } else {
                        assert(rooms@[j] == room);
                        assert forall|q: Point| map.spec_in_bounds(q) && in_room_box(room.pos, room.max, q) implies
                            #[trigger] map.spec_tile(q) == if on_room_wall(room.pos, room.max, q) {
                                TileKind::Wall
                            } else {
                                TileKind::Floor
                            } by {
                            assert(map.spec_tile(q) == drawn_tile(&before, room.pos, room.max, q));
                        }
                    }
                }
            }
            assert forall|q: Point|
                (forall|j: int| 0 <= j < i + 1 && !(#[trigger] rooms@[j]).gone ==> !in_room_box(rooms@[j].pos, rooms@[j].max, q))
                implies #[trigger] map.spec_tile(q) == start.spec_tile(q) by {
                assert(!rooms@[i as int].gone);
                assert(rooms@[i as int] == room);
                assert(map.spec_tile(q) == drawn_tile(&before, room.pos, room.max, q));
                assert forall|j: int| 0 <= j < i && !(#[trigger] placed[j]).gone implies !in_room_box(
                    placed[j].pos, placed[j].max, q) by {
                    assert(rooms@[j] == placed[j]);
                }
            }
        }
        i = i + 1;
    }
    proof {
        lemma_gone_same(rooms@, flags, 9);
    }
    rooms
}


/// Lay a passage cell, but never overwrite existing floor/door/wall tiles.
fn putpass(map: &mut LevelMap, p: Point)
    requires
        old(map).wf(),
        no_stairs(old(map)),
    ensures
        final(map).wf(),
        no_stairs(final(map)),
        same_meta(final(map), old(map)),
        final(map).dark_seq() == old(map).dark_seq(),
        forall|q: Point|
            #[trigger] final(map).spec_tile(q) == old(map).spec_tile(q) || (old(map).spec_tile(q) == TileKind::Empty
                && final(map).spec_tile(q) == TileKind::Passage),
        forall|q: Point|
            #[trigger] final(map).spec_tile(q) == (if q == p && old(map).spec_in_bounds(p) && old(map).spec_tile(p)
                == TileKind::Empty {
                TileKind::Passage
            } else {
                old(map).spec_tile(q)
            }),
{
    if map.tile(p) == TileKind::Empty {
        put_tile(map, p, TileKind::Passage);
    }
}

/// Place a door on a room wall, or a passage cell for a gone room.
fn door(map: &mut LevelMap, room: &GenRoom, p: Point)
    requires
        old(map).wf(),
        no_stairs(old(map)),
    ensures
        final(map).wf(),
        no_stairs(final(map)),
        same_meta(final(map), old(map)),
        final(map).dark_seq() == old(map).dark_seq(),
        forall|q: Point|
            #[trigger] final(map).spec_tile(q) == old(map).spec_tile(q) || (old(map).spec_tile(q) == TileKind::Empty
                && final(map).spec_tile(q) == TileKind::Passage) || (q == p && !room.gone && final(map).spec_tile(q)
                == TileKind::Door),
        forall|q: Point|
            #[trigger] final(map).spec_tile(q) == (if q == p && old(map).spec_in_bounds(p) && !room.gone {
                TileKind::Door
            } else if q == p && old(map).spec_in_bounds(p) && old(map).spec_tile(p) == TileKind::Empty {
                TileKind::Passage
            } else {
                old(map).spec_tile(q)
            }),
{
    if room.gone {
        putpass(map, p);
    } else {
        put_tile(map, p, TileKind::Door);
    }
}

/// Manhattan length of the offset between two points.
spec fn moved(a: Point, b: Point) -> int {
    crate::geometry::abs_int(a.x - b.x) + crate::geometry::abs_int(a.y - b.y)
}

fn abs_i32(v: i32) -> (r: i32)
    requires
        v > i32::MIN,
    ensures
        r == crate::geometry::abs_int(v as int),
{
    if v < 0 { -v } else { v }
}

/// All nine rooms lie well inside cells of at least 5 by 5.
spec fn tight_cells(rooms: Seq<GenRoom>, bw: int, bh: int) -> bool {
    &&& bw >= 5
    &&& bh >= 5
    &&& rooms.len() == 9
    &&& forall|k: int| 0 <= k < 9 ==> tight_in_cell(#[trigger] rooms[k], k, bw, bh)
}

/// `q` lies in the box of no drawn room.
spec fn outside_rooms(rooms: Seq<GenRoom>, q: Point) -> bool {
    forall|k: int| 0 <= k < 9 && !(#[trigger] rooms[k]).gone ==> !in_room_box(rooms[k].pos, rooms[k].max, q)
}

/// Every wall of the map belongs to a drawn room's box.
spec fn walls_in_rooms(m: &LevelMap, rooms: Seq<GenRoom>) -> bool {
    forall|q: Point| #[trigger] m.spec_tile(q) == TileKind::Wall ==> !outside_rooms(rooms, q)
}

/// `q` lies strictly between the two ends of a corridor along its direction,
/// and between them across it.
spec fn in_corridor(horizontal: bool, s: Point, e: Point, q: Point) -> bool {
    if horizontal {
        s.x < q.x < e.x && (if s.y <= e.y { s.y <= q.y <= e.y } else { e.y <= q.y <= s.y })
    } else {
        s.y < q.y < e.y && (if s.x <= e.x { s.x <= q.x <= e.x } else { e.x <= q.x <= s.x })
    }
}

/// Where a corridor starts on room `r` (leaving right or down) or ends on it
/// (arriving from the left or from above): a gone room's junction, else a
/// wall cell off the corners, at the offset a roll picked.
spec fn end_spot(r: GenRoom, horizontal: bool, start: bool, s: Point) -> bool {
    if r.gone {
        s == r.pos
    } else if horizontal {
        &&& s.x == (if start { r.pos.x + r.max.x - 1 } else { r.pos.x as int })
        &&& rnd_outcome(r.max.y - 2, s.y - r.pos.y - 1)
    } else {
        &&& s.y == (if start { r.pos.y + r.max.y - 1 } else { r.pos.y as int })
        &&& rnd_outcome(r.max.x - 2, s.x - r.pos.x - 1)
    }
}

/// With rooms well inside their cells, the corridor between neighbouring
/// rooms `rm` and `rt` is at least one cell long and crosses no drawn room,
/// and gone rooms' junctions lie outside every drawn room.
proof fn lemma_corridor_clear(rooms: Seq<GenRoom>, bw: int, bh: int, rm: int, rt: int, horizontal: bool, s: Point, e: Point)
    requires
        tight_cells(rooms, bw, bh),
        0 <= rm < 9,
        horizontal ==> rt == rm + 1 && rm % 3 != 2,
        !horizontal ==> rt == rm + 3 && rt < 9,
        end_spot(rooms[rm], horizontal, true, s),
        end_spot(rooms[rt], horizontal, false, e),
    ensures
        horizontal ==> e.x - s.x >= 2,
        !horizontal ==> e.y - s.y >= 2,
        forall|q: Point| #[trigger] in_corridor(horizontal, s, e, q) ==> outside_rooms(rooms, q),
        rooms[rm].gone ==> outside_rooms(rooms, s),
        rooms[rt].gone ==> outside_rooms(rooms, e),
{
    lemma_cell_cases(rm, bw, bh);
    lemma_cell_cases(rt, bw, bh);
    assert(tight_in_cell(rooms[rm], rm, bw, bh));
    assert(tight_in_cell(rooms[rt], rt, bw, bh));
    assert forall|q: Point| #[trigger] in_corridor(horizontal, s, e, q) implies outside_rooms(rooms, q) by {
        assert forall|k: int| 0 <= k < 9 && !(#[trigger] rooms[k]).gone implies !in_room_box(rooms[k].pos, rooms[k].max, q) by {
            lemma_cell_cases(k, bw, bh);
            assert(tight_in_cell(rooms[k], k, bw, bh));
        }
    }
    if rooms[rm].gone {
        assert forall|k: int| 0 <= k < 9 && !(#[trigger] rooms[k]).gone implies !in_room_box(rooms[k].pos, rooms[k].max, s) by {
            lemma_cell_cases(k, bw, bh);
            assert(tight_in_cell(rooms[k], k, bw, bh));
        }
    }
    if rooms[rt].gone {
        assert forall|k: int| 0 <= k < 9 && !(#[trigger] rooms[k]).gone implies !in_room_box(rooms[k].pos, rooms[k].max, e) by {
            lemma_cell_cases(k, bw, bh);
            assert(tight_in_cell(rooms[k], k, bw, bh));
        }
    }
}

/// Every tile walkable on `m1` is walkable on `m2`.
spec fn walk_kept(m1: &LevelMap, m2: &LevelMap) -> bool {
    forall|q: Point| #[trigger] m1.spec_is_walkable(q) ==> m2.spec_is_walkable(q)
}

/// A step onto a walkable neighbour extends a walk backwards.
proof fn lemma_reach_prepend(m: &LevelMap, p: Point, p1: Point, q: Point)
    requires
        adjacent4(p, p1),
        m.spec_is_walkable(p1),
        m.orth_reachable(p1, q),
    ensures
        m.orth_reachable(p, q),
{
    let path = choose|path: Seq<Point>| m.is_path4(p1, q, path);
    let np = seq![p1] + path;
    assert forall|i: int| 0 <= i < np.len() implies {
        &&& m.spec_is_walkable(#[trigger] np[i])
        &&& adjacent4(if i == 0 { p } else { np[i - 1] }, np[i])
    } by {
        if i > 0 {
            assert(np[i] == path[i - 1]);
            if i > 1 {
                assert(np[i - 1] == path[i - 2]);
            } else {
                assert(np[i - 1] == p1);
            }
        }
    }
    assert(m.is_walk4(p, np));
    if path.len() == 0 {
        assert(np.last() == p1);
    } else {
        assert(np.last() == path.last());
    }
    assert(m.is_path4(p, q, np));
}

/// Walks join end to end.
proof fn lemma_reach_trans(m: &LevelMap, a: Point, b: Point, c: Point)
    requires
        m.orth_reachable(a, b),
        m.orth_reachable(b, c),
    ensures
        m.orth_reachable(a, c),
{
    let p1 = choose|path: Seq<Point>| m.is_path4(a, b, path);
    let p2 = choose|path: Seq<Point>| m.is_path4(b, c, path);
    let np = p1 + p2;
    assert forall|i: int| 0 <= i < np.len() implies {
        &&& m.spec_is_walkable(#[trigger] np[i])
        &&& adjacent4(if i == 0 { a } else { np[i - 1] }, np[i])
    } by {
        if i < p1.len() {
            assert(np[i] == p1[i]);
            if i > 0 {
                assert(np[i - 1] == p1[i - 1]);
            }
        } else {
            let k = i - p1.len();
            assert(np[i] == p2[k]);
            if k > 0 {
                assert(np[i - 1] == p2[k - 1]);
            } else if i > 0 {
                assert(np[i - 1] == p1.last());
            }
        }
    }
    assert(m.is_walk4(a, np));
    if p2.len() == 0 {
        if p1.len() > 0 {
            assert(np.last() == p1.last());
        }
    } else {
        assert(np.last() == p2.last());
    }
    assert(m.is_path4(a, c, np));
}

/// A walk stays a walk where nothing walkable was closed.
proof fn lemma_reach_mono(m1: &LevelMap, m2: &LevelMap, a: Point, b: Point)
    requires
        walk_kept(m1, m2),
        m1.orth_reachable(a, b),
    ensures
        m2.orth_reachable(a, b),
{
    let path = choose|path: Seq<Point>| m1.is_path4(a, b, path);
    assert forall|i: int| 0 <= i < path.len() implies {
        &&& m2.spec_is_walkable(#[trigger] path[i])
        &&& adjacent4(if i == 0 { a } else { path[i - 1] }, path[i])
    } by {
        assert(m1.spec_is_walkable(path[i]));
    }
    assert(m2.is_path4(a, b, path));
}

/// Carving closes nothing walkable.
proof fn lemma_carved_walk_kept(m1: &LevelMap, m2: &LevelMap, rooms: Seq<GenRoom>)
    requires
        carved(m1, m2, rooms),
    ensures
        walk_kept(m1, m2),
{
    assert forall|q: Point| #[trigger] m1.spec_is_walkable(q) implies m2.spec_is_walkable(q) by {
        assert(m2.spec_tile(q) == m1.spec_tile(q) || (m1.spec_tile(q) == TileKind::Empty && m2.spec_tile(q)
            == TileKind::Passage) || (m2.spec_tile(q) == TileKind::Door && ring_cell(rooms, q)));
    }
}

/// Within a rectangle of walkable cells every cell reaches every other.
proof fn lemma_rect_reach(m: &LevelMap, x1: int, y1: int, x2: int, y2: int, p: Point, q: Point)
    requires
        forall|c: Point| x1 <= c.x <= x2 && y1 <= c.y <= y2 ==> #[trigger] m.spec_is_walkable(c),
        x1 <= p.x <= x2,
        y1 <= p.y <= y2,
        x1 <= q.x <= x2,
        y1 <= q.y <= y2,
    ensures
        m.orth_reachable(p, q),
    decreases crate::geometry::abs_int(p.x - q.x) + crate::geometry::abs_int(p.y - q.y),
{
    if p == q {
        assert(m.is_path4(p, q, Seq::<Point>::empty()));
    } else {
        let p1 = if p.x < q.x {
            Point { x: (p.x + 1) as i32, y: p.y }
        } else if p.x > q.x {
            Point { x: (p.x - 1) as i32, y: p.y }
        } else if p.y < q.y {
            Point { x: p.x, y: (p.y + 1) as i32 }
        } else {
            Point { x: p.x, y: (p.y - 1) as i32 }
        };
        assert(m.spec_is_walkable(p1));
        lemma_rect_reach(m, x1, y1, x2, y2, p1, q);
        lemma_reach_prepend(m, p, p1, q);
    }
}

/// Room `r` has been opened to the corridors: a door in its wall, or, for a
/// gone room, its junction cell dug out (where these lie on the map).
spec fn opened(m: &LevelMap, r: GenRoom) -> bool {
    if r.gone {
        m.spec_in_bounds(r.pos) ==> m.spec_tile(r.pos) != TileKind::Empty
    } else {
        exists|s: Point| #[trigger] on_room_wall(r.pos, r.max, s) && (m.spec_in_bounds(s) ==> m.spec_tile(s) == TileKind::Door)
    }
}

/// Carving never closes an opened room again.
proof fn lemma_opened_kept(m1: &LevelMap, m2: &LevelMap, rooms: Seq<GenRoom>, r: GenRoom)
    requires
        opened(m1, r),
        carved(m1, m2, rooms),
        m1.width == m2.width,
        m1.height == m2.height,
    ensures
        opened(m2, r),
{
    if r.gone {
        assert(m2.spec_tile(r.pos) == m1.spec_tile(r.pos) || (m1.spec_tile(r.pos) == TileKind::Empty
            && m2.spec_tile(r.pos) == TileKind::Passage) || (m2.spec_tile(r.pos) == TileKind::Door && ring_cell(rooms, r.pos)));
    } else {
        let s = choose|s: Point| #[trigger] on_room_wall(r.pos, r.max, s) && (m1.spec_in_bounds(s) ==> m1.spec_tile(s)
            == TileKind::Door);
        assert(m2.spec_tile(s) == m1.spec_tile(s) || (m1.spec_tile(s) == TileKind::Empty && m2.spec_tile(s)
            == TileKind::Passage) || (m2.spec_tile(s) == TileKind::Door && ring_cell(rooms, s)));
        assert(on_room_wall(r.pos, r.max, s) && (m2.spec_in_bounds(s) ==> m2.spec_tile(s) == TileKind::Door));
    }
}

/// Straight steps a corridor from `s` to `e` takes along its direction.
spec fn along_steps(horizontal: bool, s: Point, e: Point) -> int {
    if horizontal {
        crate::geometry::abs_int(s.x - e.x) - 1
    } else {
        crate::geometry::abs_int(s.y - e.y) - 1
    }
}

/// Steps a corridor from `s` to `e` takes across its direction.
spec fn across_steps(horizontal: bool, s: Point, e: Point) -> int {
    if horizontal {
        crate::geometry::abs_int(s.y - e.y)
    } else {
        crate::geometry::abs_int(s.x - e.x)
    }
}

/// `q` lies `a` steps along the corridor's direction from `s` and `b` steps
/// across it, towards `e`.
spec fn offset_at(horizontal: bool, s: Point, e: Point, a: int, b: int, q: Point) -> bool {
    if horizontal {
        q.x == s.x + a && q.y == (if s.y < e.y { s.y + b } else { s.y - b })
    } else {
        q.y == s.y + a && q.x == (if s.x < e.x { s.x + b } else { s.x - b })
    }
}

/// `q` is the `j`-th cell (counting from 1) of the corridor from `s` to `e`
/// that turns across when `t` straight steps are left.
spec fn corridor_cell(horizontal: bool, s: Point, e: Point, t: int, j: int, q: Point) -> bool {
    let d = along_steps(horizontal, s, e);
    let c = across_steps(horizontal, s, e);
    let i0 = d - t + 1;
    if j < i0 {
        offset_at(horizontal, s, e, j, 0, q)
    } else if j <= i0 + c {
        offset_at(horizontal, s, e, i0, j - i0, q)
    } else {
        offset_at(horizontal, s, e, j - c, c, q)
    }
}

/// Number of cells of that corridor (none when its ends are too close).
spec fn corridor_len(horizontal: bool, s: Point, e: Point) -> int {
    if along_steps(horizontal, s, e) <= 0 {
        0
    } else {
        along_steps(horizontal, s, e) + across_steps(horizontal, s, e)
    }
}

/// `q` is one of the first `k` cells of that corridor.
spec fn dug(horizontal: bool, s: Point, e: Point, t: int, k: int, q: Point) -> bool {
    exists|j: int| 1 <= j <= k && #[trigger] corridor_cell(horizontal, s, e, t, j, q)
}

/// The tile of `m0` at `q` once the first `k` corridor cells are dug out of
/// the rock.
spec fn dig_tile(m0: &LevelMap, horizontal: bool, s: Point, e: Point, t: int, k: int, q: Point) -> TileKind {
    if m0.spec_in_bounds(q) && m0.spec_tile(q) == TileKind::Empty && dug(horizontal, s, e, t, k, q) {
        TileKind::Passage
    } else {
        m0.spec_tile(q)
    }
}

/// The tiles `conn` leaves on `m0`: doors at `s` and `e` on the two rooms
/// (dug junctions for gone rooms) and the corridor between them that turns
/// when `t` straight steps are left, each cell dug where it was rock.
spec fn conn_tiles(m0: &LevelMap, m1: &LevelMap, rf: GenRoom, rto: GenRoom, horizontal: bool, s: Point, e: Point, t: int) -> bool {
    forall|q: Point| #[trigger] m1.spec_tile(q) == (if m0.spec_in_bounds(q) && ((q == s && !rf.gone) || (q == e && !rto.gone)) {
            TileKind::Door
        } else if m0.spec_in_bounds(q) && m0.spec_tile(q) == TileKind::Empty && (q == s || q == e || dug(
            horizontal,
            s,
            e,
            t,
            corridor_len(horizontal, s, e),
            q,
        )) {
            TileKind::Passage
        } else {
            m0.spec_tile(q)
        })
}

/// What `conn(a, b)` makes of `m0`: its doors lie at `s` and `e`, at the
/// offsets rolled on the two rooms, and its corridor turns when `t` straight
/// steps are left, at the step rolled.
spec fn conn_shape(m0: &LevelMap, m1: &LevelMap, rooms: Seq<GenRoom>, a: int, b: int, s: Point, e: Point, t: int) -> bool {
    let rm = if a < b { a } else { b };
    let horizontal = a - b == 1 || b - a == 1;
    let rt = if horizontal { rm + 1 } else { rm + 3 };
    let rf = rooms[rm];
    let rto = rooms[rt];
    &&& end_spot(rf, horizontal, true, s)
    &&& end_spot(rto, horizontal, false, e)
    &&& rnd_outcome(along_steps(horizontal, s, e) - 1, t - 1)
    &&& conn_tiles(m0, m1, rf, rto, horizontal, s, e, t)
}

/// Digging the next corridor cell `c` extends the dug prefix by one.
proof fn lemma_dig_step(
    doors: &LevelMap,
    prev: &LevelMap,
    next: &LevelMap,
    horizontal: bool,
    s: Point,
    e: Point,
    t: int,
    k: int,
    c: Point,
)
    requires
        k >= 0,
        corridor_cell(horizontal, s, e, t, k + 1, c),
        prev.width == doors.width,
        prev.height == doors.height,
        forall|q: Point| #[trigger] prev.spec_tile(q) == dig_tile(doors, horizontal, s, e, t, k, q),
        forall|q: Point|
            #[trigger] next.spec_tile(q) == (if q == c && prev.spec_in_bounds(c) && prev.spec_tile(c) == TileKind::Empty {
                TileKind::Passage
            } else {
                prev.spec_tile(q)
            }),
    ensures
        forall|q: Point| #[trigger] next.spec_tile(q) == dig_tile(doors, horizontal, s, e, t, k + 1, q),
{
    assert forall|q: Point| #[trigger] next.spec_tile(q) == dig_tile(doors, horizontal, s, e, t, k + 1, q) by {
        assert(prev.spec_tile(q) == dig_tile(doors, horizontal, s, e, t, k, q));
        if q == c {
            assert(corridor_cell(horizontal, s, e, t, k + 1, q));
            assert(dug(horizontal, s, e, t, k + 1, q));
        } else {
            if dug(horizontal, s, e, t, k + 1, q) {
                let j = choose|j: int| 1 <= j <= k + 1 && #[trigger] corridor_cell(horizontal, s, e, t, j, q);
                if j == k + 1 {
                    assert(q.x == c.x && q.y == c.y);
                    assert(false);
                }
                assert(dug(horizontal, s, e, t, k, q));
            }
            if dug(horizontal, s, e, t, k, q) {
                let j = choose|j: int| 1 <= j <= k && #[trigger] corridor_cell(horizontal, s, e, t, j, q);
                assert(dug(horizontal, s, e, t, k + 1, q));
            }
        }
    }
}

/// The point `a` steps along and `b` steps across from `s`, towards `e`.
spec fn offset_point(horizontal: bool, s: Point, e: Point, a: int, b: int) -> Point {
    if horizontal {
        Point { x: (s.x + a) as i32, y: (if s.y < e.y { s.y + b } else { s.y - b }) as i32 }
    } else {
        Point { x: (if s.x < e.x { s.x + b } else { s.x - b }) as i32, y: (s.y + a) as i32 }
    }
}

/// The `j`-th cell of the corridor from `s` to `e` turning when `t` straight
/// steps are left.
spec fn corridor_point(horizontal: bool, s: Point, e: Point, t: int, j: int) -> Point {
    let c = across_steps(horizontal, s, e);
    let i0 = along_steps(horizontal, s, e) - t + 1;
    if j < i0 {
        offset_point(horizontal, s, e, j, 0)
    } else if j <= i0 + c {
        offset_point(horizontal, s, e, i0, j - i0)
    } else {
        offset_point(horizontal, s, e, j - c, c)
    }
}

/// A door spot of a room well inside its cell lies on the map.
proof fn lemma_spot_on_map(rooms: Seq<GenRoom>, bw: int, bh: int, k: int, horizontal: bool, start: bool, s: Point, w: int, h: int)
    requires
        tight_cells(rooms, bw, bh),
        0 <= k < 9,
        end_spot(rooms[k], horizontal, start, s),
        3 * bw <= w,
        3 * bh <= h,
    ensures
        0 <= s.x < w,
        0 <= s.y < h,
{
    lemma_cell_cases(k, bw, bh);
    assert(tight_in_cell(rooms[k], k, bw, bh));
}

/// The cells of a corridor running forwards from `s` to `e` lie strictly
/// between them, each next to the one before, the first next to `s` and the
/// last next to `e`.
proof fn lemma_corridor_walk(horizontal: bool, s: Point, e: Point, t: int, j: int)
    requires
        horizontal ==> e.x - s.x >= 2,
        !horizontal ==> e.y - s.y >= 2,
        1 <= t <= along_steps(horizontal, s, e),
        1 <= j <= corridor_len(horizontal, s, e),
        0 <= s.x < 0x2000_0000,
        0 <= s.y < 0x2000_0000,
        0 <= e.x < 0x2000_0000,
        0 <= e.y < 0x2000_0000,
    ensures
        corridor_cell(horizontal, s, e, t, j, corridor_point(horizontal, s, e, t, j)),
        in_corridor(horizontal, s, e, corridor_point(horizontal, s, e, t, j)),
        j == 1 ==> adjacent4(s, corridor_point(horizontal, s, e, t, j)),
        j < corridor_len(horizontal, s, e) ==> adjacent4(
            corridor_point(horizontal, s, e, t, j),
            corridor_point(horizontal, s, e, t, j + 1),
        ),
        j == corridor_len(horizontal, s, e) ==> adjacent4(corridor_point(horizontal, s, e, t, j), e),
{
}

/// With the rooms well inside their cells and every wall in a room's box,
/// the corridor `conn` digs joins its two door spots.
#[verifier::rlimit(40)]
#[verifier::spinoff_prover]
proof fn lemma_conn_joins(
    start: &LevelMap,
    fin: &LevelMap,
    rooms: Seq<GenRoom>,
    a: int,
    b: int,
    s: Point,
    e: Point,
    t: int,
    bw: int,
    bh: int,
)
    requires
        conn_shape(start, fin, rooms, a, b, s, e, t),
        spec_conn(a, b),
        tight_cells(rooms, bw, bh),
        3 * bw <= start.width,
        3 * bh <= start.height,
        start.width <= i32::MAX / 4,
        start.height <= i32::MAX / 4,
        walls_in_rooms(start, rooms),
        fin.width == start.width,
        fin.height == start.height,
    ensures
        fin.spec_is_walkable(s),
        fin.spec_is_walkable(e),
        fin.orth_reachable(s, e),
{
    let rm = if a < b { a } else { b };
    let horizontal = a - b == 1 || b - a == 1;
    let rt = if horizontal { rm + 1 } else { rm + 3 };
    let rf = rooms[rm];
    let rto = rooms[rt];
    lemma_corridor_clear(rooms, bw, bh, rm, rt, horizontal, s, e);
    lemma_spot_on_map(rooms, bw, bh, rm, horizontal, true, s, start.width as int, start.height as int);
    lemma_spot_on_map(rooms, bw, bh, rt, horizontal, false, e, start.width as int, start.height as int);
    let n = corridor_len(horizontal, s, e);
    assert(conn_tiles(start, fin, rf, rto, horizontal, s, e, t));
    assert(fin.spec_tile(s) == (if start.spec_in_bounds(s) && ((s == s && !rf.gone) || (s == e && !rto.gone)) {
        TileKind::Door
    } else if start.spec_in_bounds(s) && start.spec_tile(s) == TileKind::Empty && (s == s || s == e || dug(
        horizontal, s, e, t, n, s)) {
        TileKind::Passage
    } else {
        start.spec_tile(s)
    }));
    assert(fin.spec_tile(e) == (if start.spec_in_bounds(e) && ((e == s && !rf.gone) || (e == e && !rto.gone)) {
        TileKind::Door
    } else if start.spec_in_bounds(e) && start.spec_tile(e) == TileKind::Empty && (e == s || e == e || dug(
        horizontal, s, e, t, n, e)) {
        TileKind::Passage
    } else {
        start.spec_tile(e)
    }));
    if rf.gone {
        assert(start.spec_tile(s) != TileKind::Wall);
    }
    if rto.gone {
        assert(start.spec_tile(e) != TileKind::Wall);
    }
    let path = Seq::new((n + 1) as nat, |j: int| if j < n { corridor_point(horizontal, s, e, t, j + 1) } else { e });
    assert forall|i: int| 0 <= i < path.len() implies {
        &&& fin.spec_is_walkable(#[trigger] path[i])
        &&& adjacent4(if i == 0 { s } else { path[i - 1] }, path[i])
    } by {
        if i < n {
            let q = corridor_point(horizontal, s, e, t, i + 1);
            lemma_corridor_walk(horizontal, s, e, t, i + 1);
            if i > 0 {
                lemma_corridor_walk(horizontal, s, e, t, i);
            }
            assert(outside_rooms(rooms, q));
            assert(start.spec_tile(q) != TileKind::Wall);
            assert(dug(horizontal, s, e, t, n, q));
            assert(q != s && q != e);
            assert(start.spec_in_bounds(q));
            assert(fin.spec_tile(q) == (if start.spec_in_bounds(q) && ((q == s && !rf.gone) || (q == e && !rto.gone)) {
                TileKind::Door
            } else if start.spec_in_bounds(q) && start.spec_tile(q) == TileKind::Empty && (q == s || q == e || dug(
                horizontal, s, e, t, n, q)) {
                TileKind::Passage
            } else {
                start.spec_tile(q)
            }));
        } else {
            lemma_corridor_walk(horizontal, s, e, t, n);
        }
    }
    assert(fin.is_walk4(s, path));
    assert(fin.is_path4(s, e, path));
}

/// Where the corridors of a room meet: a gone room's junction, else the
/// top-left cell inside a drawn room's walls.
spec fn rep(r: GenRoom) -> Point {
    if r.gone {
        r.pos
    } else {
        Point { x: (r.pos.x + 1) as i32, y: (r.pos.y + 1) as i32 }
    }
}

/// The rooms lie well inside cells of at least 5 by 5 that fit on the map,
/// every wall of `m` is in a drawn room's box, and each drawn room keeps its
/// floor inside and wall or doors on its ring.
spec fn rooms_ready(m: &LevelMap, rooms: Seq<GenRoom>, bw: int, bh: int) -> bool {
    &&& 3 * bw <= m.width <= i32::MAX / 4
    &&& 3 * bh <= m.height <= i32::MAX / 4
    &&& tight_cells(rooms, bw, bh)
    &&& walls_in_rooms(m, rooms)
    &&& forall|k: int|
        0 <= k < 9 ==> room_in_cell(#[trigger] rooms[k], k, bw, bh) && (!rooms[k].gone ==> box_kept(
            m,
            rooms[k].pos,
            rooms[k].max,
        ))
}

/// Carving keeps the rooms ready.
proof fn lemma_ready_kept(m1: &LevelMap, m2: &LevelMap, rooms: Seq<GenRoom>, bw: int, bh: int)
    requires
        rooms_ready(m1, rooms, bw, bh),
        carved(m1, m2, rooms),
        m1.width == m2.width,
        m1.height == m2.height,
    ensures
        rooms_ready(m2, rooms, bw, bh),
{
    assert forall|q: Point| #[trigger] m2.spec_tile(q) == TileKind::Wall implies !outside_rooms(rooms, q) by {
        assert(m2.spec_tile(q) == m1.spec_tile(q) || (m1.spec_tile(q) == TileKind::Empty && m2.spec_tile(q)
            == TileKind::Passage) || (m2.spec_tile(q) == TileKind::Door && ring_cell(rooms, q)));
        assert(m1.spec_tile(q) == TileKind::Wall);
    }
    assert forall|k: int| 0 <= k < 9 && !(#[trigger] rooms[k]).gone implies box_kept(m2, rooms[k].pos, rooms[k].max) by {
        let rk = rooms[k];
        assert(room_in_cell(rooms[k], k, bw, bh) && box_kept(m1, rk.pos, rk.max));
        assert forall|q: Point| m2.spec_in_bounds(q) && in_room_box(rk.pos, rk.max, q) implies {
            let t = #[trigger] m2.spec_tile(q);
            if on_room_wall(rk.pos, rk.max, q) {
                t == TileKind::Wall || t == TileKind::Door
            } else {
                t == TileKind::Floor
            }
        } by {
            assert(m1.spec_in_bounds(q));
            assert(m2.spec_tile(q) == m1.spec_tile(q) || (m1.spec_tile(q) == TileKind::Empty && m2.spec_tile(q)
                == TileKind::Passage) || (m2.spec_tile(q) == TileKind::Door && ring_cell(rooms, q)));
            if !on_room_wall(rk.pos, rk.max, q) && ring_cell(rooms, q) {
                let j = choose|j: int| 0 <= j < rooms.len() && !rooms[j].gone && #[trigger] on_room_wall(rooms[j].pos,
                    rooms[j].max, q);
                assert(j != k);
                assert(room_in_cell(rooms[j], j, bw, bh));
                lemma_boxes_apart(rk, k, rooms[j], j, bw, bh, q);
            }
        }
    }
}

/// A walk from a walkable start can be walked back.
proof fn lemma_reach_rev(m: &LevelMap, a: Point, b: Point, path: Seq<Point>)
    requires
        m.is_path4(a, b, path),
        m.spec_is_walkable(a),
    ensures
        m.orth_reachable(b, a),
    decreases path.len(),
{
    if path.len() == 0 {
        assert(m.is_path4(b, a, Seq::<Point>::empty()));
    } else {
        let p2 = path.drop_last();
        let b2 = if p2.len() == 0 { a } else { p2.last() };
        assert forall|i: int| 0 <= i < p2.len() implies {
            &&& m.spec_is_walkable(#[trigger] p2[i])
            &&& adjacent4(if i == 0 { a } else { p2[i - 1] }, p2[i])
        } by {
            assert(p2[i] == path[i]);
            if i > 0 {
                assert(p2[i - 1] == path[i - 1]);
            }
        }
        assert(m.is_path4(a, b2, p2));
        lemma_reach_rev(m, a, b2, p2);
        assert(path[path.len() - 1] == b);
        assert(adjacent4(b2, b));
        if p2.len() > 0 {
            assert(p2.last() == path[path.len() - 2]);
        }
        assert(m.spec_is_walkable(b2));
        lemma_reach_prepend(m, b, b2, a);
    }
}

/// Both ways between two walkable points joined by a walk.
proof fn lemma_reach_both(m: &LevelMap, a: Point, b: Point)
    requires
        m.orth_reachable(a, b),
        m.spec_is_walkable(a),
    ensures
        m.orth_reachable(b, a),
{
    let path = choose|path: Seq<Point>| m.is_path4(a, b, path);
    lemma_reach_rev(m, a, b, path);
}

/// A walkable door spot of a ready room and the room's meeting point reach
/// each other.
proof fn lemma_door_rep(m: &LevelMap, rooms: Seq<GenRoom>, bw: int, bh: int, k: int, horizontal: bool, start: bool, s: Point)
    requires
        rooms_ready(m, rooms, bw, bh),
        0 <= k < 9,
        end_spot(rooms[k], horizontal, start, s),
        m.spec_is_walkable(s),
    ensures
        m.spec_is_walkable(rep(rooms[k])),
        m.orth_reachable(s, rep(rooms[k])),
        m.orth_reachable(rep(rooms[k]), s),
{
    let r = rooms[k];
    lemma_cell_cases(k, bw, bh);
    assert(tight_in_cell(r, k, bw, bh));
    if r.gone {
        assert(m.is_path4(s, s, Seq::<Point>::empty()));
    } else {
        assert(room_in_cell(r, k, bw, bh) && box_kept(m, r.pos, r.max));
        let x1 = r.pos.x + 1;
        let y1 = r.pos.y + 1;
        let x2 = r.pos.x + r.max.x - 2;
        let y2 = r.pos.y + r.max.y - 2;
        assert forall|c: Point| x1 <= c.x <= x2 && y1 <= c.y <= y2 implies #[trigger] m.spec_is_walkable(c) by {
            assert(m.spec_in_bounds(c) && in_room_box(r.pos, r.max, c) && !on_room_wall(r.pos, r.max, c));
        }
        let inner = if horizontal {
            if start { Point { x: (s.x - 1) as i32, y: s.y } } else { Point { x: (s.x + 1) as i32, y: s.y } }
        } else {
            if start { Point { x: s.x, y: (s.y - 1) as i32 } } else { Point { x: s.x, y: (s.y + 1) as i32 } }
        };
        assert(m.spec_is_walkable(inner));
        assert(m.spec_is_walkable(rep(r)));
        lemma_rect_reach(m, x1, y1, x2, y2, inner, rep(r));
        lemma_rect_reach(m, x1, y1, x2, y2, rep(r), inner);
        lemma_reach_prepend(m, s, inner, rep(r));
        assert(m.is_path4(s, s, Seq::<Point>::empty()));
        lemma_reach_prepend(m, inner, s, s);
        lemma_reach_trans(m, rep(r), inner, s);
    }
}

/// After `conn(a, b)` on ready rooms, the two rooms' meeting points reach each
/// other both ways.
proof fn lemma_conn_links(start: &LevelMap, fin: &LevelMap, rooms: Seq<GenRoom>, a: int, b: int, bw: int, bh: int)
    requires
        exists|s: Point, e: Point, t: int| #[trigger] conn_shape(start, fin, rooms, a, b, s, e, t),
        spec_conn(a, b),
        rooms_ready(start, rooms, bw, bh),
        carved(start, fin, rooms),
        fin.width == start.width,
        fin.height == start.height,
    ensures
        fin.orth_reachable(rep(rooms[a]), rep(rooms[b])),
        fin.orth_reachable(rep(rooms[b]), rep(rooms[a])),
{
    let (s, e, t) = choose|s: Point, e: Point, t: int| #[trigger] conn_shape(start, fin, rooms, a, b, s, e, t);
    let rm = if a < b { a } else { b };
    let horizontal = a - b == 1 || b - a == 1;
    let rt = if horizontal { rm + 1 } else { rm + 3 };
    lemma_conn_joins(start, fin, rooms, a, b, s, e, t, bw, bh);
    lemma_ready_kept(start, fin, rooms, bw, bh);
    lemma_door_rep(fin, rooms, bw, bh, rm, horizontal, true, s);
    lemma_door_rep(fin, rooms, bw, bh, rt, horizontal, false, e);
    lemma_reach_both(fin, s, e);
    lemma_reach_trans(fin, rep(rooms[rm]), s, e);
    lemma_reach_trans(fin, rep(rooms[rm]), e, rep(rooms[rt]));
    lemma_reach_trans(fin, rep(rooms[rt]), e, s);
    lemma_reach_trans(fin, rep(rooms[rt]), s, rep(rooms[rm]));
}

/// The tiles `conn` leaves: its two doors, then the corridor dug from rock.
proof fn lemma_doors_then_corridor(
    start: &LevelMap,
    mid: &LevelMap,
    doors: &LevelMap,
    fin: &LevelMap,
    rf: GenRoom,
    rto: GenRoom,
    horizontal: bool,
    s: Point,
    e: Point,
    t: int,
)
    requires
        mid.width == start.width,
        mid.height == start.height,
        forall|q: Point|
            #[trigger] mid.spec_tile(q) == (if q == s && start.spec_in_bounds(s) && !rf.gone {
                TileKind::Door
            } else if q == s && start.spec_in_bounds(s) && start.spec_tile(s) == TileKind::Empty {
                TileKind::Passage
            } else {
                start.spec_tile(q)
            }),
        forall|q: Point|
            #[trigger] doors.spec_tile(q) == (if q == e && mid.spec_in_bounds(e) && !rto.gone {
                TileKind::Door
            } else if q == e && mid.spec_in_bounds(e) && mid.spec_tile(e) == TileKind::Empty {
                TileKind::Passage
            } else {
                mid.spec_tile(q)
            }),
        forall|q: Point|
            #[trigger] fin.spec_tile(q) == dig_tile(doors, horizontal, s, e, t, corridor_len(horizontal, s, e), q),
        doors.width == start.width,
        doors.height == start.height,
    ensures
        conn_tiles(start, fin, rf, rto, horizontal, s, e, t),
{
    assert forall|q: Point|
        #[trigger] fin.spec_tile(q) == (if start.spec_in_bounds(q) && ((q == s && !rf.gone) || (q == e && !rto.gone)) {
            TileKind::Door
        } else if start.spec_in_bounds(q) && start.spec_tile(q) == TileKind::Empty && (q == s || q == e || dug(
            horizontal,
            s,
            e,
            t,
            corridor_len(horizontal, s, e),
            q,
        )) {
            TileKind::Passage
        } else {
            start.spec_tile(q)
        }) by {
        assert(fin.spec_tile(q) == dig_tile(doors, horizontal, s, e, t, corridor_len(horizontal, s, e), q));
        assert(doors.spec_tile(q) == (if q == e && mid.spec_in_bounds(e) && !rto.gone {
            TileKind::Door
        } else if q == e && mid.spec_in_bounds(e) && mid.spec_tile(e) == TileKind::Empty {
            TileKind::Passage
        } else {
            mid.spec_tile(q)
        }));
        assert(mid.spec_tile(q) == (if q == s && start.spec_in_bounds(s) && !rf.gone {
            TileKind::Door
        } else if q == s && start.spec_in_bounds(s) && start.spec_tile(s) == TileKind::Empty {
            TileKind::Passage
        } else {
            start.spec_tile(q)
        }));
    }
}

/// `conn`: draw an L-shaped corridor between two adjacent rooms.
#[verifier::rlimit(80)]
#[verifier::spinoff_prover]
fn conn<R: RogueRng>(map: &mut LevelMap, rooms: &Vec<GenRoom>, a: usize, b: usize, rng: &mut R)
    requires
        old(map).wf(),
        no_stairs(old(map)),
        dims_ok(old(map).width as int, old(map).height as int),
        rooms@.len() == 9,
        spec_conn(a as int, b as int),
        room_fits(rooms@[a as int], old(map).width as int, old(map).height as int),
        room_fits(rooms@[b as int], old(map).width as int, old(map).height as int),
    ensures
        final(map).wf(),
        no_stairs(final(map)),
        same_meta(final(map), old(map)),
        final(map).dark_seq() == old(map).dark_seq(),
        carved(old(map), final(map), rooms@),
        opened(final(map), rooms@[a as int]),
        opened(final(map), rooms@[b as int]),
        exists|s: Point, e: Point, t: int| #[trigger] conn_shape(old(map), final(map), rooms@, a as int, b as int, s, e, t),
        rooms_ready(old(map), rooms@, old(map).width / 3, old(map).height / 3) ==> final(map).orth_reachable(
            rep(rooms@[a as int]),
            rep(rooms@[b as int]),
        ) && final(map).orth_reachable(rep(rooms@[b as int]), rep(rooms@[a as int])),
{
    let ghost w = map.width as int;
    let ghost h = map.height as int;
    let ghost start = *map;
    let (rm, horizontal) = if a < b { (a, a + 1 == b) } else { (b, b + 1 == a) };
    let rpf = rooms[rm];
    assert(room_fits(rooms@[rm as int], w, h));
    let rpt;
    let ghost rt: int;
    let mut spos;
    let mut epos;
    if horizontal {
        // Moving right to room rm+1.
        rpt = rooms[rm + 1];
        proof {
            rt = rm + 1;
        }
        assert(room_fits(rooms@[rm + 1], w, h));
        spos = rpf.pos;
        epos = rpt.pos;
        if !rpf.gone {
            let o = rng.rnd(rpf.max.y - 2);
            spos = Point::new(rpf.pos.x + rpf.max.x - 1, rpf.pos.y + o + 1);
        }
        if !rpt.gone {
            let o = rng.rnd(rpt.max.y - 2);
            epos = Point::new(rpt.pos.x, rpt.pos.y + o + 1);
        }
    } else {
        // Moving down to room rm+3.
        rpt = rooms[rm + 3];
        proof {
            rt = rm + 3;
        }
        assert(room_fits(rooms@[rm + 3], w, h));
        spos = rpf.pos;
        epos = rpt.pos;
        if !rpf.gone {
            let o = rng.rnd(rpf.max.x - 2);
            spos = Point::new(rpf.pos.x + o + 1, rpf.pos.y + rpf.max.y - 1);
        }
        if !rpt.gone {
            let o = rng.rnd(rpt.max.x - 2);
            epos = Point::new(rpt.pos.x + o + 1, rpt.pos.y);
        }
    }
    assert(end_spot(rpf, horizontal, true, spos));
    assert(end_spot(rpt, horizontal, false, epos));
    proof {
        if !rpf.gone {
            assert(on_room_wall(rooms@[rm as int].pos, rooms@[rm as int].max, spos));
            assert(ring_cell(rooms@, spos));
        }
        if !rpt.gone {
            assert(on_room_wall(rooms@[rt as int].pos, rooms@[rt as int].max, epos));
            assert(ring_cell(rooms@, epos));
        }
    }
    // Doors at room boundaries (or passage cells for gone rooms).
    door(map, &rpf, spos);
    let ghost mid = *map;
    assert(carved(&start, map, rooms@));
    proof {
        if !rpf.gone {
            assert(on_room_wall(rpf.pos, rpf.max, spos) && (mid.spec_in_bounds(spos) ==> mid.spec_tile(spos)
                == TileKind::Door));
        } else {
            assert(spos == rpf.pos);
        }
        assert(opened(&mid, rpf));
    }
    door(map, &rpt, epos);
    let ghost doors = *map;
    assert(carved(&mid, map, rooms@));
    proof {
        lemma_carved_trans(&start, &mid, map, rooms@);
        lemma_opened_kept(&mid, map, rooms@, rpf);
        if !rpt.gone {
            assert(on_room_wall(rpt.pos, rpt.max, epos) && (map.spec_in_bounds(epos) ==> map.spec_tile(epos)
                == TileKind::Door));
        } else {
            assert(epos == rpt.pos);
        }
        assert(opened(map, rpt));
        assert(rpf == rooms@[rm as int]);
        assert(rpt == rooms@[rt]);
        assert((rm == a && rt == b) || (rm == b && rt == a));
    }
    let ghost rfrom = rpf;
    let ghost rto = rpt;
    let turn_spot = dig_corridor(map, spos, epos, horizontal, rng);
    proof {
        assert(carved(&doors, map, rooms@));
        lemma_carved_trans(&start, &doors, map, rooms@);
        lemma_opened_kept(&doors, map, rooms@, rfrom);
        lemma_opened_kept(&doors, map, rooms@, rto);
        lemma_doors_then_corridor(&start, &mid, &doors, map, rfrom, rto, horizontal, spos, epos, turn_spot as int);
        assert(conn_shape(&start, map, rooms@, a as int, b as int, spos, epos, turn_spot as int));
        if rooms_ready(&start, rooms@, w / 3, h / 3) {
            lemma_conn_links(&start, map, rooms@, a as int, b as int, w / 3, h / 3);
        }
    }
}

/// Dig the L-shaped corridor from `spos` to `epos` (moving right when
/// `horizontal`, else down), turning across at a random step; returns how
/// many straight steps were left at the turn.
#[verifier::rlimit(60)]
#[verifier::spinoff_prover]
fn dig_corridor<R: RogueRng>(map: &mut LevelMap, spos: Point, epos: Point, horizontal: bool, rng: &mut R) -> (turn_spot: i32)
    requires
        old(map).wf(),
        no_stairs(old(map)),
        dims_ok(old(map).width as int, old(map).height as int),
        0 <= spos.x <= old(map).width + 6,
        0 <= spos.y <= old(map).height + 6,
        0 <= epos.x <= old(map).width + 6,
        0 <= epos.y <= old(map).height + 6,
    ensures
        final(map).wf(),
        no_stairs(final(map)),
        same_meta(final(map), old(map)),
        final(map).dark_seq() == old(map).dark_seq(),
        rnd_outcome(along_steps(horizontal, spos, epos) - 1, turn_spot - 1),
        forall|q: Point| #[trigger] final(map).spec_tile(q) == dig_tile(old(map), horizontal, spos, epos, turn_spot as int,
            corridor_len(horizontal, spos, epos), q),
{
    let ghost w = map.width as int;
    let ghost h = map.height as int;
    let ghost start = *map;
    let del = if horizontal { Point::new(1, 0) } else { Point::new(0, 1) };
    let (distance, turn_delta, turn_distance) = if horizontal {
        let dist = abs_i32(spos.x - epos.x) - 1;
        let td = Point::new(0, if spos.y < epos.y { 1 } else { -1 });
        (dist, td, abs_i32(spos.y - epos.y))
    } else {
        let dist = abs_i32(spos.y - epos.y) - 1;
        let td = Point::new(if spos.x < epos.x { 1 } else { -1 }, 0);
        (dist, td, abs_i32(spos.x - epos.x))
    };
    assert(distance == along_steps(horizontal, spos, epos));
    assert(turn_distance == across_steps(horizontal, spos, epos));
    proof {
        assert forall|q: Point| #[trigger] map.spec_tile(q) == dig_tile(&start, horizontal, spos, epos, 1, 0, q) by {
        }
    }
    if distance <= 0 {
        proof {
            assert forall|q: Point| #[trigger] map.spec_tile(q) == dig_tile(&start, horizontal, spos, epos, 1,
                corridor_len(horizontal, spos, epos), q) by {
            }
        }
        return 1;
    }
    let turn_spot = rng.rnd(distance - 1) + 1;
    let ghost i0: int = distance - turn_spot + 1;
    let ghost doors = start;
    let mut curr = spos;
    let mut dist = distance;
    while dist > 0
        invariant
            map.wf(),
            no_stairs(map),
            same_meta(map, &start),
            map.dark_seq() == start.dark_seq(),
            dims_ok(w, h),
            0 <= spos.x <= w + 6,
            0 <= spos.y <= h + 6,
            0 < distance,
            distance == along_steps(horizontal, spos, epos),
            turn_distance == across_steps(horizontal, spos, epos),
            1 <= turn_spot <= distance,
            i0 == distance - turn_spot + 1,
            0 <= turn_distance,
            distance + turn_distance <= w + h + 12,
            0 <= dist <= distance,
            horizontal ==> del == (Point { x: 1, y: 0 }) && turn_delta == (Point { x: 0, y: if spos.y < epos.y { 1i32 } else { -1i32 } }),
            !horizontal ==> del == (Point { x: 0, y: 1 }) && turn_delta == (Point { x: if spos.x < epos.x { 1i32 } else { -1i32 }, y: 0 }),
            moved(del, Point { x: 0, y: 0 }) == 1,
            moved(turn_delta, Point { x: 0, y: 0 }) == 1,
            moved(curr, spos) <= (distance - dist) + (if dist < turn_spot { turn_distance as int } else { 0 }),
            offset_at(horizontal, spos, epos, distance - dist, if dist < turn_spot { turn_distance as int } else { 0 }, curr),
            doors.width == w,
            doors.height == h,
            forall|q: Point| #[trigger] map.spec_tile(q) == dig_tile(&doors, horizontal, spos, epos, turn_spot as int,
                (distance - dist) + (if dist < turn_spot { turn_distance as int } else { 0 }), q),
            map.width == w,
            map.height == h,
        decreases dist,
    {
        assert(-(w + h + 12) <= curr.x - spos.x <= w + h + 12);
        assert(-(w + h + 12) <= curr.y - spos.y <= w + h + 12);
        curr = Point::new(curr.x + del.x, curr.y + del.y);
        if dist == turn_spot {
            let mut td = turn_distance;
            while td > 0
                invariant
                    map.wf(),
                    no_stairs(map),
                    same_meta(map, &start),
                    map.dark_seq() == start.dark_seq(),
                    dims_ok(w, h),
                    0 <= spos.x <= w + 6,
                    0 <= spos.y <= h + 6,
                    0 < distance,
                    distance == along_steps(horizontal, spos, epos),
                    turn_distance == across_steps(horizontal, spos, epos),
                    1 <= turn_spot <= distance,
                    i0 == distance - turn_spot + 1,
                    0 <= turn_distance,
                    distance + turn_distance <= w + h + 12,
                    dist == turn_spot,
                    0 < dist <= distance,
                    0 <= td <= turn_distance,
                    horizontal ==> turn_delta == (Point { x: 0, y: if spos.y < epos.y { 1i32 } else { -1i32 } }),
                    !horizontal ==> turn_delta == (Point { x: if spos.x < epos.x { 1i32 } else { -1i32 }, y: 0 }),
                    moved(turn_delta, Point { x: 0, y: 0 }) == 1,
                    moved(curr, spos) <= (distance - dist) + 1 + (turn_distance - td),
                    offset_at(horizontal, spos, epos, i0, turn_distance - td, curr),
                    doors.width == w,
                    doors.height == h,
                    forall|q: Point| #[trigger] map.spec_tile(q) == dig_tile(&doors, horizontal, spos, epos,
                        turn_spot as int, i0 - 1 + (turn_distance - td), q),
                            map.width == w,
                    map.height == h,
                decreases td,
            {
                let ghost prev = *map;
                putpass(map, curr);
                proof {
                    assert(corridor_cell(horizontal, spos, epos, turn_spot as int, i0 - 1 + (turn_distance - td) + 1, curr));
                    lemma_dig_step(&doors, &prev, map, horizontal, spos, epos, turn_spot as int,
                        i0 - 1 + (turn_distance - td), curr);
                }
                assert(-(w + h + 13) <= curr.x - spos.x <= w + h + 13);
                assert(-(w + h + 13) <= curr.y - spos.y <= w + h + 13);
                curr = Point::new(curr.x + turn_delta.x, curr.y + turn_delta.y);
                td = td - 1;
            }
        }
        let ghost prev = *map;
        let ghost k: int = (distance - dist) + (if dist < turn_spot { turn_distance as int } else { 0 }) + (if dist == turn_spot { turn_distance as int } else { 0 });
        putpass(map, curr);
        proof {
            assert(corridor_cell(horizontal, spos, epos, turn_spot as int, k + 1, curr));
            lemma_dig_step(&doors, &prev, map, horizontal, spos, epos, turn_spot as int, k, curr);
        }
        dist = dist - 1;
    }
    proof {
        assert(corridor_len(horizontal, spos, epos) == distance + turn_distance);
    }
    turn_spot
}

/// The meeting points of all nine rooms reach each other.
spec fn all_linked(m: &LevelMap, rooms: Seq<GenRoom>) -> bool {
    forall|i: int, j: int| 0 <= i < 9 && 0 <= j < 9 ==> #[trigger] m.orth_reachable(rep(rooms[i]), rep(rooms[j]))
}

/// Linked rooms stay linked where nothing walkable was closed.
proof fn lemma_all_linked_mono(m1: &LevelMap, m2: &LevelMap, rooms: Seq<GenRoom>)
    requires
        all_linked(m1, rooms),
        walk_kept(m1, m2),
    ensures
        all_linked(m2, rooms),
{
    assert forall|i: int, j: int| 0 <= i < 9 && 0 <= j < 9 implies #[trigger] m2.orth_reachable(rep(rooms[i]),
        rep(rooms[j])) by {
        assert(m1.orth_reachable(rep(rooms[i]), rep(rooms[j])));
        lemma_reach_mono(m1, m2, rep(rooms[i]), rep(rooms[j]));
    }
}

/// `a` and `b` reach each other.
spec fn linked(m: &LevelMap, a: Point, b: Point) -> bool {
    m.orth_reachable(a, b) && m.orth_reachable(b, a)
}

/// `q` lies inside the walls of drawn room `r`.
spec fn in_interior(r: GenRoom, q: Point) -> bool {
    !r.gone && in_room_box(r.pos, r.max, q) && !on_room_wall(r.pos, r.max, q)
}

/// Every floor tile of `m` lies inside a drawn room.
spec fn floors_in_rooms(m: &LevelMap, rooms: Seq<GenRoom>) -> bool {
    forall|q: Point| #[trigger] m.spec_tile(q) == TileKind::Floor ==> exists|k: int| 0 <= k < 9 && #[trigger] in_interior(rooms[k], q)
}

/// A tile one can stand on inside a room: floor, a trap or the staircase.
pub open spec fn room_ground(t: TileKind) -> bool {
    t == TileKind::Floor || t == TileKind::Trap || t == TileKind::StairsDown
}

/// Every room ground tile of the level reaches every other by orthogonal
/// steps (and so by any steps): the stairs, every spawn and the player's start
/// lie on one connected level.
pub open spec fn level_connected(m: &LevelMap) -> bool {
    forall|p: Point, q: Point|
        room_ground(#[trigger] m.spec_tile(p)) && room_ground(#[trigger] m.spec_tile(q)) ==> m.orth_reachable(p, q)
            && m.spec_reachable(p, q)
}

/// A cell inside a ready room and the room's meeting point reach each other.
proof fn lemma_interior_rep(m: &LevelMap, rooms: Seq<GenRoom>, bw: int, bh: int, k: int, q: Point)
    requires
        rooms_ready(m, rooms, bw, bh),
        0 <= k < 9,
        in_interior(rooms[k], q),
    ensures
        linked(m, q, rep(rooms[k])),
{
    let r = rooms[k];
    lemma_cell_cases(k, bw, bh);
    assert(tight_in_cell(r, k, bw, bh));
    assert(room_in_cell(r, k, bw, bh) && box_kept(m, r.pos, r.max));
    let x1 = r.pos.x + 1;
    let y1 = r.pos.y + 1;
    let x2 = r.pos.x + r.max.x - 2;
    let y2 = r.pos.y + r.max.y - 2;
    assert forall|c: Point| x1 <= c.x <= x2 && y1 <= c.y <= y2 implies #[trigger] m.spec_is_walkable(c) by {
        assert(m.spec_in_bounds(c) && in_room_box(r.pos, r.max, c) && !on_room_wall(r.pos, r.max, c));
    }
    lemma_rect_reach(m, x1, y1, x2, y2, q, rep(r));
    lemma_rect_reach(m, x1, y1, x2, y2, rep(r), q);
}

/// Carving keeps every floor tile inside a room.
proof fn lemma_floors_kept(m1: &LevelMap, m2: &LevelMap, rooms: Seq<GenRoom>)
    requires
        floors_in_rooms(m1, rooms),
        carved(m1, m2, rooms),
    ensures
        floors_in_rooms(m2, rooms),
{
    assert forall|q: Point| #[trigger] m2.spec_tile(q) == TileKind::Floor implies exists|k: int|
        0 <= k < 9 && #[trigger] in_interior(rooms[k], q) by {
        assert(m2.spec_tile(q) == m1.spec_tile(q) || (m1.spec_tile(q) == TileKind::Empty && m2.spec_tile(q)
            == TileKind::Passage) || (m2.spec_tile(q) == TileKind::Door && ring_cell(rooms, q)));
        assert(m1.spec_tile(q) == TileKind::Floor);
    }
}

/// With all rooms linked on the carved map `cm`, and traps and the staircase
/// laid only on its floor, every room ground tile of `fin` reaches every other.
proof fn lemma_level_connected(cm: &LevelMap, fin: &LevelMap, rooms: Seq<GenRoom>, bw: int, bh: int)
    requires
        rooms_ready(cm, rooms, bw, bh),
        all_linked(cm, rooms),
        floors_in_rooms(cm, rooms),
        fin.width == cm.width,
        fin.height == cm.height,
        forall|q: Point|
            #[trigger] fin.spec_tile(q) == cm.spec_tile(q) || (cm.spec_tile(q) == TileKind::Floor && (fin.spec_tile(q)
                == TileKind::Trap || fin.spec_tile(q) == TileKind::StairsDown)),
        forall|q: Point| #[trigger] cm.spec_tile(q) != TileKind::Trap && cm.spec_tile(q) != TileKind::StairsDown,
    ensures
        level_connected(fin),
{
    assert(walk_kept(cm, fin)) by {
        assert forall|q: Point| #[trigger] cm.spec_is_walkable(q) implies fin.spec_is_walkable(q) by {
            assert(fin.spec_tile(q) == cm.spec_tile(q) || (cm.spec_tile(q) == TileKind::Floor && (fin.spec_tile(q)
                == TileKind::Trap || fin.spec_tile(q) == TileKind::StairsDown)));
        }
    }
    assert forall|p: Point, q: Point|
        room_ground(#[trigger] fin.spec_tile(p)) && room_ground(#[trigger] fin.spec_tile(q)) implies fin.orth_reachable(p, q)
            && fin.spec_reachable(p, q) by {
        assert(fin.spec_tile(p) == cm.spec_tile(p) || (cm.spec_tile(p) == TileKind::Floor && (fin.spec_tile(p)
            == TileKind::Trap || fin.spec_tile(p) == TileKind::StairsDown)));
        assert(fin.spec_tile(q) == cm.spec_tile(q) || (cm.spec_tile(q) == TileKind::Floor && (fin.spec_tile(q)
            == TileKind::Trap || fin.spec_tile(q) == TileKind::StairsDown)));
        assert(cm.spec_tile(p) == TileKind::Floor);
        assert(cm.spec_tile(q) == TileKind::Floor);
        let kp = choose|k: int| 0 <= k < 9 && #[trigger] in_interior(rooms[k], p);
        let kq = choose|k: int| 0 <= k < 9 && #[trigger] in_interior(rooms[k], q);
        lemma_interior_rep(cm, rooms, bw, bh, kp, p);
        lemma_interior_rep(cm, rooms, bw, bh, kq, q);
        assert(cm.orth_reachable(rep(rooms[kp]), rep(rooms[kq])));
        lemma_reach_trans(cm, p, rep(rooms[kp]), rep(rooms[kq]));
        lemma_reach_trans(cm, p, rep(rooms[kq]), q);
        lemma_reach_mono(cm, fin, p, q);
        lemma_orth_reachable(fin, p, q);
    }
}

/// Fresh rooms drawn on an all-rock map are ready to be joined, and all
/// floor of the map lies inside them.
proof fn lemma_drawn_ready(fresh: &LevelMap, drawn: &LevelMap, rooms: Seq<GenRoom>, bw: int, bh: int)
    requires
        fresh.wf(),
        forall|i: int| 0 <= i < fresh.width * fresh.height ==> fresh.tile_seq()[i] == TileKind::Empty,
        drawn.width == fresh.width,
        drawn.height == fresh.height,
        bw == fresh.width / 3,
        bh == fresh.height / 3,
        bw >= 5,
        bh >= 5,
        fresh.width <= i32::MAX / 4,
        fresh.height <= i32::MAX / 4,
        rooms.len() == 9,
        forall|k: int|
            0 <= k < 9 ==> room_in_cell(#[trigger] rooms[k], k, bw, bh) && (!rooms[k].gone ==> box_drawn(drawn,
                rooms[k].pos, rooms[k].max)),
        forall|q: Point|
            (forall|k: int| 0 <= k < 9 && !(#[trigger] rooms[k]).gone ==> !in_room_box(rooms[k].pos, rooms[k].max, q))
                ==> #[trigger] drawn.spec_tile(q) == fresh.spec_tile(q),
    ensures
        rooms_ready(drawn, rooms, bw, bh),
        floors_in_rooms(drawn, rooms),
        forall|q: Point|
            #[trigger] drawn.spec_tile(q) == TileKind::Empty || drawn.spec_tile(q) == TileKind::Wall || drawn.spec_tile(q)
                == TileKind::Floor,
{
    assert forall|q: Point| #[trigger] fresh.spec_tile(q) == TileKind::Empty by {
        if fresh.spec_in_bounds(q) {
            lemma_idx_in_range(fresh, q);
        }
    }
    assert forall|k: int| 0 <= k < 9 implies tight_in_cell(#[trigger] rooms[k], k, bw, bh) by {
        assert(room_in_cell(rooms[k], k, bw, bh));
    }
    assert forall|q: Point|
        #[trigger] drawn.spec_tile(q) == TileKind::Empty || drawn.spec_tile(q) == TileKind::Wall || drawn.spec_tile(q)
            == TileKind::Floor by {
        if !outside_rooms(rooms, q) {
            let k = choose|k: int| 0 <= k < 9 && !(#[trigger] rooms[k]).gone && in_room_box(rooms[k].pos, rooms[k].max, q);
            assert(room_in_cell(rooms[k], k, bw, bh) && box_drawn(drawn, rooms[k].pos, rooms[k].max));
        } else {
            assert(drawn.spec_tile(q) == fresh.spec_tile(q));
        }
    }
    assert forall|q: Point| #[trigger] drawn.spec_tile(q) == TileKind::Wall implies !outside_rooms(rooms, q) by {
        if outside_rooms(rooms, q) {
            assert(drawn.spec_tile(q) == fresh.spec_tile(q));
        }
    }
    assert forall|q: Point| #[trigger] drawn.spec_tile(q) == TileKind::Floor implies exists|k: int|
        0 <= k < 9 && #[trigger] in_interior(rooms[k], q) by {
        if outside_rooms(rooms, q) {
            assert(drawn.spec_tile(q) == fresh.spec_tile(q));
        } else {
            let k = choose|k: int| 0 <= k < 9 && !(#[trigger] rooms[k]).gone && in_room_box(rooms[k].pos, rooms[k].max, q);
            assert(room_in_cell(rooms[k], k, bw, bh) && box_drawn(drawn, rooms[k].pos, rooms[k].max));
            assert(drawn.spec_in_bounds(q));
            assert(in_interior(rooms[k], q));
        }
    }
    assert forall|k: int|
        0 <= k < 9 implies room_in_cell(#[trigger] rooms[k], k, bw, bh) && (!rooms[k].gone ==> box_kept(
            drawn,
            rooms[k].pos,
            rooms[k].max,
        )) by {
        assert(room_in_cell(rooms[k], k, bw, bh));
    }
}

/// Join every room to its grid neighbour along a fixed spanning tree of the
/// grid (each room to the one on its left, the left column upwards).
fn join_grid<R: RogueRng>(map: &mut LevelMap, rooms: &Vec<GenRoom>, rng: &mut R)
    requires
        old(map).wf(),
        no_stairs(old(map)),
        dims_ok(old(map).width as int, old(map).height as int),
        rooms_bounded(rooms@, old(map).width as int, old(map).height as int),
    ensures
        final(map).wf(),
        no_stairs(final(map)),
        same_meta(final(map), old(map)),
        final(map).dark_seq() == old(map).dark_seq(),
        carved(old(map), final(map), rooms@),
        rooms_ready(old(map), rooms@, old(map).width / 3, old(map).height / 3) ==> all_linked(final(map), rooms@),
{
    let ghost start = *map;
    let ghost w = map.width as int;
    let ghost h = map.height as int;
    let ghost ready = rooms_ready(&start, rooms@, w / 3, h / 3);
    let mut b: usize = 1;
    proof {
        assert(map.is_path4(rep(rooms@[0]), rep(rooms@[0]), Seq::<Point>::empty()));
        assert(linked(map, rep(rooms@[0]), rep(rooms@[0])));
    }
    while b < MAXROOMS
        invariant
            map.wf(),
            no_stairs(map),
            same_meta(map, &start),
            map.dark_seq() == start.dark_seq(),
            carved(&start, map, rooms@),
            w == map.width,
            h == map.height,
            dims_ok(w, h),
            rooms_bounded(rooms@, w, h),
            1 <= b <= 9,
            ready == rooms_ready(&start, rooms@, w / 3, h / 3),
            ready ==> forall|x: int| 0 <= x < b ==> #[trigger] linked(map, rep(rooms@[0]), rep(rooms@[x])),
        decreases 9 - b,
    {
        let a = if b % 3 == 0 { b - 3 } else { b - 1 };
        let ghost prev = *map;
        conn(map, rooms, a, b, rng);
        proof {
            if ready {
                lemma_ready_kept(&start, &prev, rooms@, w / 3, h / 3);
                lemma_carved_walk_kept(&prev, map, rooms@);
                let p0 = rep(rooms@[0]);
                let pa = rep(rooms@[a as int]);
                let pb = rep(rooms@[b as int]);
                assert(linked(&prev, p0, pa));
                assert forall|x: int| 0 <= x < b + 1 implies #[trigger] linked(map, p0, rep(rooms@[x])) by {
                    if x == b as int {
                        lemma_reach_mono(&prev, map, p0, pa);
                        lemma_reach_mono(&prev, map, pa, p0);
                        lemma_reach_trans(map, p0, pa, pb);
                        lemma_reach_trans(map, pb, pa, p0);
                    } else {
                        assert(linked(&prev, p0, rep(rooms@[x])));
                        lemma_reach_mono(&prev, map, p0, rep(rooms@[x]));
                        lemma_reach_mono(&prev, map, rep(rooms@[x]), p0);
                    }
                }
            }
            lemma_carved_trans(&start, &prev, map, rooms@);
        }
        b = b + 1;
    }
    proof {
        if ready {
            assert forall|i: int, j: int| 0 <= i < 9 && 0 <= j < 9 implies #[trigger] map.orth_reachable(
                rep(rooms@[i]), rep(rooms@[j])) by {
                assert(linked(map, rep(rooms@[0]), rep(rooms@[j])));
                assert(linked(map, rep(rooms@[0]), rep(rooms@[i])));
                lemma_reach_trans(map, rep(rooms@[i]), rep(rooms@[0]), rep(rooms@[j]));
            }
        }
    }
}

/// `do_passages`: connect rooms with a spanning tree plus a few extra loops.
#[verifier::spinoff_prover]
fn do_passages<R: RogueRng>(map: &mut LevelMap, rooms: &Vec<GenRoom>, rng: &mut R)
    requires
        old(map).wf(),
        no_stairs(old(map)),
        dims_ok(old(map).width as int, old(map).height as int),
        rooms_bounded(rooms@, old(map).width as int, old(map).height as int),
    ensures
        final(map).wf(),
        no_stairs(final(map)),
        same_meta(final(map), old(map)),
        final(map).dark_seq() == old(map).dark_seq(),
        carved(old(map), final(map), rooms@),
        exists|a: int, b: int|
            #![trigger spec_conn(a, b)]
            spec_conn(a, b) && opened(final(map), rooms@[a]) && opened(final(map), rooms@[b]),
        rooms_ready(old(map), rooms@, old(map).width / 3, old(map).height / 3) ==> all_linked(final(map), rooms@),
        rooms_ready(old(map), rooms@, old(map).width / 3, old(map).height / 3) ==> interiors_linked(final(map), rooms@),
{
    let ghost start = *map;
    let ghost w = map.width as int;
    let ghost h = map.height as int;
    let mut ingraph: Vec<bool> = vec![false; MAXROOMS];
    assert forall|i: int| 0 <= i < 9 implies !ingraph@[i] by {
        assert(cloned(false, ingraph@[i]));
    }
    let mut isconn: Vec<bool> = vec![false; MAXROOMS * MAXROOMS];
    let mut roomcount: usize = 1;
    let mut r1 = rng.rnd(9) as usize;
    ingraph.set(r1, true);
    let ghost r0 = r1 as int;
    let ghost ready = rooms_ready(&start, rooms@, w / 3, h / 3);
    proof {
        assert(map.is_path4(rep(rooms@[r0]), rep(rooms@[r0]), Seq::<Point>::empty()));
    }
    let ghost mut joined = false;
    let ghost mut a0: int = 0;
    let ghost mut b0: int = 0;
    let mut tries: u64 = 0;
    while roomcount < MAXROOMS && tries < MAX_TRIES
        invariant
            map.wf(),
            no_stairs(map),
            same_meta(map, &start),
                    map.dark_seq() == start.dark_seq(),
            carved(&start, map, rooms@),
            w == map.width,
            h == map.height,
            dims_ok(w, h),
            rooms_bounded(rooms@, w, h),
            ingraph@.len() == 9,
            isconn@.len() == 81,
            r1 < 9,
            joined ==> spec_conn(a0, b0) && opened(map, rooms@[a0]) && opened(map, rooms@[b0]),
            joined || (tries == 0 && roomcount == 1 && forall|i: int| 0 <= i < 9 ==> (ingraph@[i] <==> i == r1)),
            ingraph@[r1 as int],
            0 <= r0 < 9,
            ready == rooms_ready(&start, rooms@, w / 3, h / 3),
            ready ==> forall|i: int| 0 <= i < 9 && ingraph@[i] ==> #[trigger] linked(map, rep(rooms@[r0]), rep(rooms@[i])),
        decreases MAX_TRIES - tries,
    {
        tries = tries + 1;
        // Reservoir-pick a random adjacent room not yet in the graph.
        let mut j: i32 = 0;
        let mut r2: Option<usize> = None;
        let mut i: usize = 0;
        while i < MAXROOMS
            invariant
                ingraph@.len() == 9,
                r1 < 9,
                i <= 9,
                0 <= j <= i,
                r2 matches Some(x) ==> x < 9 && spec_conn(r1 as int, x as int),
                j > 0 ==> r2 is Some,
                forall|i2: int| 0 <= i2 < i && spec_conn(r1 as int, i2) && !ingraph@[i2] ==> j > 0,
            decreases 9 - i,
        {
            if conn_table(r1, i) && !ingraph[i] {
                j = j + 1;
                if rng.rnd(j) == 0 {
                    r2 = Some(i);
                }
            }
            i = i + 1;
        }
        proof {
            if !joined {
                let x: int = if r1 < 6 { r1 + 3 } else { r1 - 3 };
                assert(spec_conn(r1 as int, x) && !ingraph@[x]);
            }
        }
        match r2 {
            None => {
                // Dead end: jump to another room already in the graph.
                let mut t2: u64 = 0;
                loop
                    invariant
                        ingraph@.len() == 9,
                        r1 < 9,
                        ingraph@[r1 as int],
                    decreases MAX_TRIES - t2,
                {
                    let cand = rng.rnd(9) as usize;
                    if ingraph[cand] {
                        r1 = cand;
                        break;
                    }
                    if t2 == MAX_TRIES {
                        break;
                    }
                    t2 = t2 + 1;
                }
            },
            Some(r2) => {
                let ghost g0 = ingraph@;
                ingraph.set(r2, true);
                let ghost prev = *map;
                conn(map, rooms, r1, r2, rng);
                proof {
                    if ready {
                        lemma_ready_kept(&start, &prev, rooms@, w / 3, h / 3);
                        lemma_carved_walk_kept(&prev, map, rooms@);
                        let p0 = rep(rooms@[r0]);
                        let p1 = rep(rooms@[r1 as int]);
                        let p2 = rep(rooms@[r2 as int]);
                        assert(linked(&prev, p0, p1));
                        assert forall|i: int| 0 <= i < 9 && ingraph@[i] implies #[trigger] linked(map, p0, rep(rooms@[i])) by {
                            if i == r2 as int {
                                lemma_reach_mono(&prev, map, p0, p1);
                                lemma_reach_mono(&prev, map, p1, p0);
                                lemma_reach_trans(map, p0, p1, p2);
                                lemma_reach_trans(map, p2, p1, p0);
                            } else {
                                assert(g0[i]);
                                assert(linked(&prev, p0, rep(rooms@[i])));
                                lemma_reach_mono(&prev, map, p0, rep(rooms@[i]));
                                lemma_reach_mono(&prev, map, rep(rooms@[i]), p0);
                            }
                        }
                    }
                    lemma_carved_trans(&start, &prev, map, rooms@);
                    if joined {
                        lemma_opened_kept(&prev, map, rooms@, rooms@[a0]);
                        lemma_opened_kept(&prev, map, rooms@, rooms@[b0]);
                    } else {
                        a0 = r1 as int;
                        b0 = r2 as int;
                        joined = true;
                    }
                }
                isconn.set(r1 * 9 + r2, true);
                isconn.set(r2 * 9 + r1, true);
                roomcount = roomcount + 1;
                r1 = r2;
            },
        }
    }
    assert(joined);
    let mut all_in = true;
    let mut k: usize = 0;
    while k < MAXROOMS
        invariant
            k <= 9,
            ingraph@.len() == 9,
            all_in == forall|i: int| 0 <= i < k ==> ingraph@[i],
        decreases 9 - k,
    {
        if !ingraph[k] {
            all_in = false;
        }
        k = k + 1;
    }
    if all_in {
        proof {
            if ready {
                assert forall|i: int, j: int| 0 <= i < 9 && 0 <= j < 9 implies #[trigger] map.orth_reachable(
                    rep(rooms@[i]), rep(rooms@[j])) by {
                    assert(ingraph@[i] && ingraph@[j]);
                    assert(linked(map, rep(rooms@[r0]), rep(rooms@[j])));
                    assert(linked(map, rep(rooms@[r0]), rep(rooms@[i])));
                    lemma_reach_trans(map, rep(rooms@[i]), rep(rooms@[r0]), rep(rooms@[j]));
                }
            }
        }
    } else {
        // The walk gave up before reaching every room.
        let ghost prev = *map;
        join_grid(map, rooms, rng);
        proof {
            lemma_carved_trans(&start, &prev, map, rooms@);
            lemma_opened_kept(&prev, map, rooms@, rooms@[a0]);
            lemma_opened_kept(&prev, map, rooms@, rooms@[b0]);
            if ready {
                lemma_ready_kept(&start, &prev, rooms@, w / 3, h / 3);
            }
        }
    }
    proof {
        if ready {
            lemma_ready_kept(&start, map, rooms@, w / 3, h / 3);
            lemma_linked_interiors(map, rooms@, w / 3, h / 3);
        }
    }
    // Add a random number of extra connections so the layout isn't a pure tree.
    let extra = rng.rnd(5);
    let mut e: i32 = 0;
    while e < extra
        invariant
            map.wf(),
            no_stairs(map),
            same_meta(map, &start),
                    map.dark_seq() == start.dark_seq(),
            carved(&start, map, rooms@),
            w == map.width,
            h == map.height,
            dims_ok(w, h),
            rooms_bounded(rooms@, w, h),
            isconn@.len() == 81,
            0 <= e,
            extra >= 0 ==> e <= extra,
            spec_conn(a0, b0) && opened(map, rooms@[a0]) && opened(map, rooms@[b0]),
            ready == rooms_ready(&start, rooms@, w / 3, h / 3),
            ready ==> all_linked(map, rooms@),
            ready ==> interiors_linked(map, rooms@),
        decreases extra - e,
    {
        let from = rng.rnd(9) as usize;
        let mut j: i32 = 0;
        let mut r2: Option<usize> = None;
        let mut i: usize = 0;
        while i < MAXROOMS
            invariant
                isconn@.len() == 81,
                from < 9,
                i <= 9,
                0 <= j <= i,
                r2 matches Some(x) ==> x < 9 && spec_conn(from as int, x as int),
            decreases 9 - i,
        {
            if conn_table(from, i) && !isconn[from * 9 + i] {
                j = j + 1;
                if rng.rnd(j) == 0 {
                    r2 = Some(i);
                }
            }
            i = i + 1;
        }
        if let Some(to) = r2 {
            let ghost prev = *map;
            conn(map, rooms, from, to, rng);
            proof {
                if ready {
                    lemma_carved_walk_kept(&prev, map, rooms@);
                    lemma_all_linked_mono(&prev, map, rooms@);
                    lemma_carved_trans(&start, &prev, map, rooms@);
                    lemma_ready_kept(&start, map, rooms@, w / 3, h / 3);
                    lemma_linked_interiors(map, rooms@, w / 3, h / 3);
                }
                lemma_carved_trans(&start, &prev, map, rooms@);
                lemma_opened_kept(&prev, map, rooms@, rooms@[a0]);
                lemma_opened_kept(&prev, map, rooms@, rooms@[b0]);
            }
            isconn.set(from * 9 + to, true);
            isconn.set(to * 9 + from, true);
        }
        e = e + 1;
    }
}


pub open spec fn min_int(a: int, b: int) -> int {
    if a < b { a } else { b }
}

/// A spawn or the staircase already targets this cell.
pub open spec fn spec_occupied(m: &LevelMap, p: Point) -> bool {
    (exists|i: int| 0 <= i < m.spawns@.len() && (#[trigger] m.spawns@[i]).pos == p) || m.stairs_down == Some(p)
}

/// A floor cell that nothing targets yet.
pub open spec fn free_floor(m: &LevelMap, p: Point) -> bool {
    m.spec_tile(p) == TileKind::Floor && !spec_occupied(m, p)
}

/// True if a spawn already targets this cell.
fn occupied(map: &LevelMap, p: Point) -> (b: bool)
    ensures
        b == spec_occupied(map, p),
{
    let mut i: usize = 0;
    while i < map.spawns.len()
        invariant
            i <= map.spawns@.len(),
            forall|k: int| 0 <= k < i ==> (#[trigger] map.spawns@[k]).pos != p,
        decreases map.spawns@.len() - i,
    {
        if map.spawns[i].pos == p {
            assert(map.spawns@[i as int].pos == p);
            return true;
        }
        i = i + 1;
    }
    match map.stairs_down {
        Some(s) => s == p,
        None => false,
    }
}

/// Pick a random floor cell that nothing targets, anywhere on the map.
fn random_floor<R: RogueRng>(map: &LevelMap, rng: &mut R) -> (r: Option<Point>)
    requires
        map.wf(),
    ensures
        match r {
            Some(p) => free_floor(map, p),
            None => forall|p: Point| !free_floor(map, p),
        },
{
    let mut candidates: Vec<Point> = Vec::new();
    let mut y: i32 = 0;
    while y < map.height
        invariant
            map.wf(),
            0 <= y <= map.height,
            candidates@.len() <= y * map.width,
            forall|k: int| 0 <= k < candidates@.len() ==> free_floor(map, #[trigger] candidates@[k]),
            candidates@.len() == 0 ==> forall|p: Point| p.y < y && free_floor(map, p) ==> false,
        decreases map.height - y,
    {
        let mut x: i32 = 0;
        while x < map.width
            invariant
                map.wf(),
                0 <= y < map.height,
                0 <= x <= map.width,
                candidates@.len() <= y * map.width + x,
                forall|k: int| 0 <= k < candidates@.len() ==> free_floor(map, #[trigger] candidates@[k]),
                candidates@.len() == 0 ==> forall|p: Point|
                    (p.y < y || (p.y == y && p.x < x)) && free_floor(map, p) ==> false,
            decreases map.width - x,
        {
            let p = Point::new(x, y);
            if map.tile(p) == TileKind::Floor && !occupied(map, p) {
                candidates.push(p);
            }
            x = x + 1;
        }
        proof {
            assert((y + 1) * map.width == y * map.width + map.width) by (nonlinear_arith);
        }
        y = y + 1;
    }
    if candidates.len() == 0 {
        return None;
    }
    proof {
        assert(y * map.width <= i32::MAX) by (nonlinear_arith)
            requires y == map.height, map.width >= 0, map.width * map.height <= i32::MAX;
    }
    let k = rng.rnd(candidates.len() as i32) as usize;
    Some(candidates[k])
}

/// Pick a random floor cell that nothing targets, strictly inside a room rectangle.
fn random_floor_in<R: RogueRng>(map: &LevelMap, rect: &Rect, rng: &mut R) -> (r: Option<Point>)
    requires
        map.wf(),
        dims_ok(map.width as int, map.height as int),
        0 <= rect.x1 <= rect.x2 <= map.width + 6,
        0 <= rect.y1 <= rect.y2 <= map.height + 6,
    ensures
        match r {
            Some(p) => free_floor(map, p) && rect.x1 < p.x < rect.x2 - 1 && rect.y1 < p.y < rect.y2 - 1,
            None => forall|p: Point|
                rect.x1 < p.x < rect.x2 - 1 && rect.y1 < p.y < rect.y2 - 1 ==> !free_floor(map, p),
        },
{
    let mut candidates: Vec<Point> = Vec::new();
    let mut y: i32 = rect.y1 + 1;
    while y < rect.y2 - 1
        invariant
            map.wf(),
            dims_ok(map.width as int, map.height as int),
            0 <= rect.x1 <= rect.x2 <= map.width + 6,
            0 <= rect.y1 <= rect.y2 <= map.height + 6,
            rect.y1 + 1 <= y,
            y <= rect.y2 - 1 || y == rect.y1 + 1,
            candidates@.len() <= min_int(y as int, map.height as int) * map.width,
            forall|k: int| 0 <= k < candidates@.len() ==> {
                let q = #[trigger] candidates@[k];
                free_floor(map, q) && rect.x1 < q.x < rect.x2 - 1 && rect.y1 < q.y < rect.y2 - 1
            },
            candidates@.len() == 0 ==> forall|p: Point|
                rect.x1 < p.x < rect.x2 - 1 && rect.y1 < p.y < y && free_floor(map, p) ==> false,
        decreases rect.y2 - y,
    {
        let mut x: i32 = rect.x1 + 1;
        while x < rect.x2 - 1
            invariant
                map.wf(),
                0 <= rect.x1 <= rect.x2 <= map.width + 6,
                0 <= rect.y1 <= rect.y2 <= map.height + 6,
                dims_ok(map.width as int, map.height as int),
                rect.y1 < y < rect.y2 - 1,
                rect.x1 + 1 <= x,
                x <= rect.x2 - 1 || x == rect.x1 + 1,
                candidates@.len() <= min_int(y as int, map.height as int) * map.width + (if y < map.height {
                    min_int(x as int, map.width as int)
                } else {
                    0
                }),
                x >= 1,
                forall|k: int| 0 <= k < candidates@.len() ==> {
                    let q = #[trigger] candidates@[k];
                    free_floor(map, q) && rect.x1 < q.x < rect.x2 - 1 && rect.y1 < q.y < rect.y2 - 1
                },
                candidates@.len() == 0 ==> forall|p: Point|
                    rect.x1 < p.x < rect.x2 - 1 && (rect.y1 < p.y < y || (p.y == y && p.x < x))
                        && free_floor(map, p) ==> false,
            decreases rect.x2 - x,
        {
            let p = Point::new(x, y);
            if map.tile(p) == TileKind::Floor && !occupied(map, p) {
                candidates.push(p);
            }
            x = x + 1;
        }
        proof {
            if y < map.height {
                assert(min_int(y as int, map.height as int) * map.width + map.width == (y + 1) * map.width)
                    by (nonlinear_arith)
                    requires min_int(y as int, map.height as int) == y;
            }
        }
        y = y + 1;
    }
    if candidates.len() == 0 {
        return None;
    }
    proof {
        let w = map.width as int;
        let h = map.height as int;
        assert(min_int(y as int, h) * w <= h * w) by (nonlinear_arith)
            requires min_int(y as int, h) <= h, w >= 0;
    }
    let k = rng.rnd(candidates.len() as i32) as usize;
    Some(candidates[k])
}


/// A spawn kind the generator produces: an item, a random monster or a gold
/// pile of 2 to 61 pieces.
pub open spec fn kind_ok(k: SpawnKind) -> bool {
    match k {
        SpawnKind::Item => true,
        SpawnKind::Monster(g) => g is None,
        SpawnKind::Gold(v) => 2 <= v <= 61,
        SpawnKind::NamedItem(_) => false,
    }
}

/// Every spawn stands on its own floor cell, off the staircase.
pub open spec fn spawns_ok(m: &LevelMap) -> bool {
    &&& forall|i: int|
        0 <= i < m.spawns@.len() ==> {
            let s = #[trigger] m.spawns@[i];
            &&& m.spec_tile(s.pos) == TileKind::Floor
            &&& m.stairs_down != Some(s.pos)
            &&& kind_ok(s.kind)
        }
    &&& forall|i: int, j: int|
        0 <= i < j < m.spawns@.len() ==> (#[trigger] m.spawns@[i]).pos != (#[trigger] m.spawns@[j]).pos
}

/// The staircase, if any, is the only staircase tile of the map.
pub open spec fn stairs_ok(m: &LevelMap) -> bool {
    match m.stairs_down {
        None => no_stairs(m),
        Some(p) => {
            &&& m.spec_in_bounds(p)
            &&& m.spec_tile(p) == TileKind::StairsDown
            &&& forall|i: int|
                0 <= i < m.tile_seq().len() && i != m.spec_idx(p) ==> #[trigger] m.tile_seq()[i]
                    != TileKind::StairsDown && m.tile_seq()[i] != TileKind::StairsUp
        },
    }
}

/// `q` lies on the outer ring of rectangle `r`.
pub open spec fn on_rect_ring(r: Rect, q: Point) -> bool {
    r.spec_contains(q) && (q.x == r.x1 || q.x == r.x2 - 1 || q.y == r.y1 || q.y == r.y2 - 1)
}

/// Every recorded room is walled (its ring is wall or door) and walkable
/// inside (floor, trap or the staircase).
pub open spec fn rooms_laid_out(m: &LevelMap) -> bool {
    forall|i: int, q: Point|
        0 <= i < m.rooms@.len() && m.spec_in_bounds(q) && (#[trigger] m.rooms@[i]).spec_contains(q) ==> {
            let t = #[trigger] m.spec_tile(q);
            if on_rect_ring(m.rooms@[i], q) {
                t == TileKind::Wall || t == TileKind::Door
            } else {
                t == TileKind::Floor || t == TileKind::Trap || t == TileKind::StairsDown
            }
        }
}

/// The rectangle a room records for lighting.
spec fn rect_of(r: GenRoom) -> Rect {
    Rect { x1: r.pos.x, y1: r.pos.y, x2: (r.pos.x + r.max.x) as i32, y2: (r.pos.y + r.max.y) as i32 }
}

/// `r` is the rectangle of one of the drawn rooms.
spec fn recorded_from(r: Rect, rooms: Seq<GenRoom>) -> bool {
    exists|k: int| 0 <= k < 9 && !rooms[k].gone && r == #[trigger] rect_of(rooms[k])
}

/// A room's box after the corridors: its ring is wall or door, inside floor.
spec fn box_kept(m: &LevelMap, pos: Point, max: Point) -> bool {
    forall|q: Point|
        m.spec_in_bounds(q) && in_room_box(pos, max, q) ==> {
            let t = #[trigger] m.spec_tile(q);
            if on_room_wall(pos, max, q) {
                t == TileKind::Wall || t == TileKind::Door
            } else {
                t == TileKind::Floor
            }
        }
}

/// Carving corridors leaves every drawn room walled with its floor intact.
proof fn lemma_rooms_survive_carving(m1: &LevelMap, m2: &LevelMap, rooms: Seq<GenRoom>, bw: int, bh: int)
    requires
        rooms.len() == 9,
        bw >= 4,
        bh >= 4,
        m1.width == m2.width,
        m1.height == m2.height,
        forall|k: int|
            0 <= k < 9 ==> room_in_cell(#[trigger] rooms[k], k, bw, bh) && (!rooms[k].gone ==> box_drawn(m1,
                rooms[k].pos, rooms[k].max)),
        carved(m1, m2, rooms),
    ensures
        forall|k: int| 0 <= k < 9 && !(#[trigger] rooms[k]).gone ==> box_kept(m2, rooms[k].pos, rooms[k].max),
{
    assert forall|k: int| 0 <= k < 9 && !(#[trigger] rooms[k]).gone implies box_kept(m2, rooms[k].pos, rooms[k].max) by {
        let rk = rooms[k];
        assert forall|q: Point| m2.spec_in_bounds(q) && in_room_box(rk.pos, rk.max, q) implies {
            let t = #[trigger] m2.spec_tile(q);
            if on_room_wall(rk.pos, rk.max, q) {
                t == TileKind::Wall || t == TileKind::Door
            } else {
                t == TileKind::Floor
            }
        } by {
            assert(room_in_cell(rooms[k], k, bw, bh));
            assert(m1.spec_tile(q) == if on_room_wall(rk.pos, rk.max, q) { TileKind::Wall } else { TileKind::Floor });
            if !on_room_wall(rk.pos, rk.max, q) && ring_cell(rooms, q) {
                let j = choose|j: int| 0 <= j < rooms.len() && !rooms[j].gone && #[trigger] on_room_wall(rooms[j].pos,
                    rooms[j].max, q);
                assert(j != k);
                assert(room_in_cell(rooms[j], j, bw, bh));
                lemma_boxes_apart(rk, k, rooms[j], j, bw, bh, q);
            }
        }
    }
}

/// How many of the spawns are items.
pub open spec fn item_count(s: Seq<Spawn>) -> int
    decreases s.len(),
{
    if s.len() == 0 {
        0
    } else {
        item_count(s.drop_last()) + if s.last().kind == SpawnKind::Item { 1int } else { 0int }
    }
}

proof fn lemma_item_count_concat(a: Seq<Spawn>, b: Seq<Spawn>)
    ensures
        item_count(a + b) == item_count(a) + item_count(b),
    decreases b.len(),
{
    if b.len() > 0 {
        lemma_item_count_concat(a, b.drop_last());
        assert((a + b).drop_last() =~= a + b.drop_last());
    } else {
        assert(a + b =~= a);
    }
}

proof fn lemma_item_count_bounds(s: Seq<Spawn>)
    ensures
        0 <= item_count(s) <= s.len(),
        (forall|i: int| 0 <= i < s.len() ==> (#[trigger] s[i]).kind != SpawnKind::Item) ==> item_count(s) == 0,
    decreases s.len(),
{
    if s.len() > 0 {
        lemma_item_count_bounds(s.drop_last());
        if forall|i: int| 0 <= i < s.len() ==> (#[trigger] s[i]).kind != SpawnKind::Item {
            assert forall|i: int| 0 <= i < s.drop_last().len() implies (#[trigger] s.drop_last()[i]).kind != SpawnKind::Item by {
                assert(s.drop_last()[i] == s[i]);
            }
            assert(s.last() == s[s.len() - 1]);
        }
    }
}

/// What a level owes its parameters: no dark cell unless dark rooms are
/// allowed, and six to nine rooms (all nine unless gone rooms are allowed).
pub open spec fn params_ok(params: ProcParams, m: &LevelMap) -> bool {
    &&& (!params.allow_dark ==> forall|q: Point| !#[trigger] m.spec_is_dark(q))
    &&& 6 <= m.rooms@.len() <= 9
    &&& (!params.allow_gone_rooms ==> m.rooms@.len() == 9)
}

/// The traps of `m` stand exactly on the distinct cells `placed`, at most `n`
/// of them.
pub open spec fn trap_layout(m: &LevelMap, placed: Seq<Point>, n: int) -> bool {
    &&& placed.len() <= n
    &&& forall|i: int, j: int| 0 <= i < j < placed.len() ==> #[trigger] placed[i] != #[trigger] placed[j]
    &&& forall|q: Point| (#[trigger] m.spec_tile(q) == TileKind::Trap) == placed.contains(q)
}

/// What a level owes its depth: no dark cell at depth 1 or less (a room turns
/// dark on a one-in-ten roll below the depth less one), and no more traps
/// than the depth's trap roll allows: none at depth 0 or less, else none or
/// from one up to a quarter of the depth, never more than `max_traps`.
pub open spec fn depth_ok(depth: int, max_traps: int, m: &LevelMap) -> bool {
    &&& (depth <= 1 ==> forall|q: Point| !#[trigger] m.spec_is_dark(q))
    &&& exists|placed: Seq<Point>, n: int| #[trigger] trap_layout(m, placed, n) && trap_count_ok(depth, max_traps, n)
}

/// What holds of every procedurally generated level.
pub open spec fn procedural_ok(cfg: Config, m: &LevelMap) -> bool {
    &&& m.wf()
    &&& m.width == cfg.map_width
    &&& m.height == cfg.map_height
    &&& stairs_ok(m)
    &&& (m.stairs_down is None ==> forall|p: Point| m.spec_tile(p) != TileKind::Floor)
    &&& (cfg.map_width >= 12 && cfg.map_height >= 12 ==> rooms_laid_out(m))
    &&& spawns_ok(m)
    &&& item_count(m.spawns@) <= (if cfg.max_objects_per_level < 0 { 0 } else { cfg.max_objects_per_level as int })
    &&& (free_floor(m, m.player_start) || (m.player_start.x == m.width / 2 && m.player_start.y == m.height
        / 2 && forall|p: Point| !free_floor(m, p)))
    &&& m.rooms@.len() <= 9
    &&& forall|i: int|
        0 <= i < m.rooms@.len() ==> {
            let r = #[trigger] m.rooms@[i];
            &&& 0 <= r.x1
            &&& 0 <= r.y1
            &&& r.x2 - r.x1 >= 4
            &&& r.y2 - r.y1 >= 4
        }
}

/// The trap count a level's rolls can give before clamping: one up to a
/// quarter of the depth (at least one).
pub open spec fn trap_roll_ok(depth: int, r: int) -> bool {
    if depth / 4 <= 0 { r == 1 } else { 1 <= r <= depth / 4 }
}

/// A rolled trap count capped by the configured maximum (never negative).
pub open spec fn clamp_traps(r: int, max_traps: int) -> int {
    let k = if r < max_traps { r } else { max_traps };
    if k < 0 { 0 } else { k }
}

/// How many traps a level at `depth` may ask for: none when the one-in-ten
/// check against the depth fails (possible only above depth 10), else a
/// rolled count capped by `max_traps`.
pub open spec fn trap_count_ok(depth: int, max_traps: int, n: int) -> bool {
    ||| (depth <= 9 && n == 0)
    ||| (depth >= 1 && exists|r: int| #[trigger] trap_roll_ok(depth, r) && n == clamp_traps(r, max_traps))
}

/// From `m0` to `m1`, the floor cells `placed` (distinct) became traps and
/// nothing else changed; fewer than `n` were placed only when no floor was
/// left.
spec fn traps_placed(m0: &LevelMap, m1: &LevelMap, placed: Seq<Point>, n: int) -> bool {
    &&& placed.len() <= n
    &&& (placed.len() < n ==> forall|p: Point| #[trigger] m1.spec_tile(p) != TileKind::Floor)
    &&& forall|i: int| 0 <= i < placed.len() ==> m0.spec_tile(#[trigger] placed[i]) == TileKind::Floor
    &&& forall|i: int, j: int| 0 <= i < j < placed.len() ==> #[trigger] placed[i] != #[trigger] placed[j]
    &&& forall|q: Point|
        #[trigger] m1.spec_tile(q) == if placed.contains(q) { TileKind::Trap } else { m0.spec_tile(q) }
}

/// `new_level` trap placement: unless the check against the depth fails,
/// roll how many traps to set and turn that many random floor cells into
/// traps (fewer only when the floor runs out).
fn place_traps<R: RogueRng>(map: &mut LevelMap, depth: i32, cfg: &Config, rng: &mut R)
    requires
        old(map).wf(),
        no_stairs(old(map)),
        old(map).spawns@.len() == 0,
        old(map).stairs_down is None,
    ensures
        final(map).wf(),
        no_stairs(final(map)),
        same_meta(final(map), old(map)),
        final(map).dark_seq() == old(map).dark_seq(),
        forall|q: Point|
            #[trigger] final(map).spec_tile(q) == old(map).spec_tile(q) || (old(map).spec_tile(q) == TileKind::Floor
                && final(map).spec_tile(q) == TileKind::Trap),
        exists|placed: Seq<Point>, n: int|
            #[trigger] traps_placed(old(map), final(map), placed, n) && trap_count_ok(depth as int, cfg.max_traps as int, n),
{
    let ghost start = *map;
    let ghost mut placed: Seq<Point> = Seq::empty();
    let ghost mut n: int = 0;
    if rng.rnd(10) < depth {
        let roll = rng.rnd(depth / 4);
        let r = roll + 1;
        let ntraps = if r < cfg.max_traps { r } else { cfg.max_traps };
        proof {
            n = if ntraps < 0 { 0 } else { ntraps as int };
            assert(trap_roll_ok(depth as int, r as int));
            assert(n == clamp_traps(r as int, cfg.max_traps as int));
        }
        let mut t: i32 = 0;
        while t < ntraps
            invariant
                map.wf(),
                no_stairs(map),
                same_meta(map, &start),
                    map.dark_seq() == start.dark_seq(),
                start.spawns@.len() == 0,
                start.stairs_down is None,
                0 <= t,
                ntraps >= 0 ==> t <= ntraps,
                ntraps < 0 ==> t == 0,
                n == (if ntraps < 0 { 0 } else { ntraps as int }),
                forall|q: Point|
                    #[trigger] map.spec_tile(q) == start.spec_tile(q) || (start.spec_tile(q) == TileKind::Floor
                        && map.spec_tile(q) == TileKind::Trap),
                placed.len() <= t,
                placed.len() < t ==> forall|p: Point| #[trigger] map.spec_tile(p) != TileKind::Floor,
                forall|i: int| 0 <= i < placed.len() ==> start.spec_tile(#[trigger] placed[i]) == TileKind::Floor,
                forall|i: int, j: int| 0 <= i < j < placed.len() ==> #[trigger] placed[i] != #[trigger] placed[j],
                forall|q: Point|
                    #[trigger] map.spec_tile(q) == if placed.contains(q) { TileKind::Trap } else { start.spec_tile(q) },
            decreases ntraps - t,
        {
            let pick = random_floor(map, rng);
            match pick {
                Some(p) => {
                    let ghost prev = *map;
                    let ghost before = placed;
                    proof {
                        assert(map.spec_tile(p) == TileKind::Floor);
                        assert(!before.contains(p));
                        assert(start.spec_tile(p) == TileKind::Floor);
                        if before.len() < t {
                            assert(map.spec_tile(p) != TileKind::Floor);
                        }
                    }
                    put_tile(map, p, TileKind::Trap);
                    proof {
                        placed = before.push(p);
                        assert forall|q: Point| #[trigger] map.spec_tile(q) == start.spec_tile(q) || (start.spec_tile(q)
                            == TileKind::Floor && map.spec_tile(q) == TileKind::Trap) by {
                            assert(prev.spec_tile(q) == start.spec_tile(q) || (start.spec_tile(q) == TileKind::Floor
                                && prev.spec_tile(q) == TileKind::Trap));
                        }
                        assert forall|q: Point|
                            #[trigger] map.spec_tile(q) == if placed.contains(q) { TileKind::Trap } else { start.spec_tile(q) } by {
                            if q == p {
                                assert(placed[placed.len() - 1] == p);
                            } else {
                                assert(placed.contains(q) == before.contains(q)) by {
                                    if before.contains(q) {
                                        let k = choose|k: int| 0 <= k < before.len() && before[k] == q;
                                        assert(placed[k] == q);
                                    }
                                    if placed.contains(q) {
                                        let k = choose|k: int| 0 <= k < placed.len() && placed[k] == q;
                                        assert(k < before.len());
                                        assert(before[k] == q);
                                    }
                                }
                            }
                        }
                        assert forall|i: int| 0 <= i < placed.len() implies start.spec_tile(#[trigger] placed[i])
                            == TileKind::Floor by {
                            if i < before.len() {
                                assert(placed[i] == before[i]);
                            }
                        }
                        assert forall|i: int, j: int| 0 <= i < j < placed.len() implies #[trigger] placed[i]
                            != #[trigger] placed[j] by {
                            assert(placed[i] == before[i]);
                            if j < before.len() {
                                assert(placed[j] == before[j]);
                            } else {
                                assert(before.contains(before[i]));
                            }
                        }
                    }
                },
                None => {
                    proof {
                        assert forall|p: Point| #[trigger] map.spec_tile(p) != TileKind::Floor by {
                            assert(!free_floor(map, p));
                            assert(!spec_occupied(map, p));
                        }
                    }
                },
            }
            t = t + 1;
        }
        proof {
            assert(traps_placed(&start, map, placed, n));
        }
    } else {
        proof {
            assert(traps_placed(&start, map, placed, n));
        }
    }
}

fn place_stairs<R: RogueRng>(map: &mut LevelMap, rng: &mut R)
    requires
        old(map).wf(),
        no_stairs(old(map)),
        old(map).spawns@.len() == 0,
        old(map).stairs_down is None,
    ensures
        final(map).wf(),
        stairs_ok(final(map)),
        final(map).spawns@.len() == 0,
        final(map).width == old(map).width,
        final(map).height == old(map).height,
        final(map).rooms == old(map).rooms,
        final(map).player_start == old(map).player_start,
        final(map).dark_seq() == old(map).dark_seq(),
        final(map).stairs_down is None ==> forall|p: Point| final(map).spec_tile(p) != TileKind::Floor,
        forall|q: Point|
            #[trigger] final(map).spec_tile(q) == old(map).spec_tile(q) || (old(map).spec_tile(q) == TileKind::Floor
                && final(map).spec_tile(q) == TileKind::StairsDown),
{
    let pick = random_floor(map, rng);
    proof {
        if pick is None {
            assert forall|p: Point| map.spec_tile(p) != TileKind::Floor by {
                assert(!free_floor(map, p));
                assert(!spec_occupied(map, p));
            }
        }
    }
    if let Some(p) = pick {
        let ghost before = *map;
        map.set_tile(p, TileKind::StairsDown);
        assert forall|q: Point| #[trigger] map.spec_tile(q) == before.spec_tile(q) || (before.spec_tile(q)
            == TileKind::Floor && map.spec_tile(q) == TileKind::StairsDown) by {
            if q == p {
                assert(free_floor(&before, p));
            }
        }
        let ghost set = *map;
        map.stairs_down = Some(p);
        assert forall|q: Point| #[trigger] map.spec_tile(q) == set.spec_tile(q) by {}
        proof {
            lemma_idx_in_range(&before, p);
            assert forall|i: int|
                0 <= i < map.tile_seq().len() && i != map.spec_idx(p) implies #[trigger] map.tile_seq()[i]
                    != TileKind::StairsDown && map.tile_seq()[i] != TileKind::StairsUp by {
                assert(map.tile_seq()[i] == before.tile_seq()[i]);
            }
        }
    }
}

/// Add a spawn on a free floor cell.
fn add_spawn(map: &mut LevelMap, p: Point, kind: SpawnKind)
    requires
        old(map).wf(),
        spawns_ok(old(map)),
        free_floor(old(map), p),
        kind_ok(kind),
    ensures
        final(map).wf(),
        spawns_ok(final(map)),
        final(map).spawns@ == old(map).spawns@.push(Spawn { pos: p, kind }),
        final(map).tile_seq() == old(map).tile_seq(),
        final(map).dark_seq() == old(map).dark_seq(),
        final(map).revealed_seq() == old(map).revealed_seq(),
        final(map).visible_seq() == old(map).visible_seq(),
        final(map).width == old(map).width,
        final(map).height == old(map).height,
        final(map).rooms == old(map).rooms,
        final(map).player_start == old(map).player_start,
        final(map).stairs_down == old(map).stairs_down,
{
    let ghost before = *map;
    map.spawns.push(Spawn { pos: p, kind });
    proof {
        let n = before.spawns@.len();
        assert forall|i: int, j: int|
            0 <= i < j < map.spawns@.len() implies (#[trigger] map.spawns@[i]).pos != (#[trigger] map.spawns@[j]).pos by {
            if j == n {
                assert(map.spawns@[i] == before.spawns@[i]);
                if map.spawns@[i].pos == p {
                    assert(spec_occupied(&before, p));
                }
            } else {
                assert(map.spawns@[i] == before.spawns@[i]);
                assert(map.spawns@[j] == before.spawns@[j]);
            }
        }
        assert forall|i: int| 0 <= i < map.spawns@.len() implies {
            let s = #[trigger] map.spawns@[i];
            &&& map.spec_tile(s.pos) == TileKind::Floor
            &&& map.stairs_down != Some(s.pos)
            &&& kind_ok(s.kind)
        } by {
            if i < n {
                assert(map.spawns@[i] == before.spawns@[i]);
            }
        }
    }
}

/// `extra` are item spawns, at most `max` of them (none for a negative `max`).
spec fn items_only(extra: Seq<Spawn>, max: int) -> bool {
    &&& extra.len() <= (if max < 0 { 0 } else { max })
    &&& forall|i: int| 0 <= i < extra.len() ==> (#[trigger] extra[i]).kind == SpawnKind::Item
}

/// `put_things`: scatter floor items across the level: each of
/// `max_objects_per_level` tries adds, with a chance of 36 in 100, an item
/// spawn on a random free floor cell (if one is left).
fn put_things<R: RogueRng>(map: &mut LevelMap, cfg: &Config, rng: &mut R)
    requires
        old(map).wf(),
        stairs_ok(old(map)),
        spawns_ok(old(map)),
    ensures
        final(map).wf(),
        stairs_ok(final(map)),
        spawns_ok(final(map)),
        final(map).tile_seq() == old(map).tile_seq(),
        final(map).dark_seq() == old(map).dark_seq(),
        final(map).width == old(map).width,
        final(map).height == old(map).height,
        final(map).rooms == old(map).rooms,
        final(map).player_start == old(map).player_start,
        final(map).stairs_down == old(map).stairs_down,
        exists|extra: Seq<Spawn>|
            #[trigger] items_only(extra, cfg.max_objects_per_level as int)
                && final(map).spawns@ == old(map).spawns@ + extra,
{
    let ghost start = *map;
    let ghost mut extra: Seq<Spawn> = Seq::empty();
    let mut k: i32 = 0;
    while k < cfg.max_objects_per_level
        invariant
            map.wf(),
            stairs_ok(map),
            spawns_ok(map),
            map.tile_seq() == start.tile_seq(),
            map.dark_seq() == start.dark_seq(),
            map.width == start.width,
            map.height == start.height,
            map.rooms == start.rooms,
            map.player_start == start.player_start,
            map.stairs_down == start.stairs_down,
            0 <= k,
            cfg.max_objects_per_level >= 0 ==> k <= cfg.max_objects_per_level,
            cfg.max_objects_per_level < 0 ==> k == 0,
            items_only(extra, k as int),
            map.spawns@ == start.spawns@ + extra,
        decreases cfg.max_objects_per_level - k,
    {
        if rng.rnd(100) < 36 {
            if let Some(p) = random_floor(map, rng) {
                add_spawn(map, p, SpawnKind::Item);
                proof {
                    extra = extra.push(Spawn { pos: p, kind: SpawnKind::Item });
                    assert(map.spawns@ =~= start.spawns@ + extra);
                }
            }
        }
        k = k + 1;
    }
    assert(items_only(extra, cfg.max_objects_per_level as int));
}

/// `p` lies strictly inside room `r`, off its walls.
spec fn room_interior(r: GenRoom, p: Point) -> bool {
    r.pos.x < p.x < r.pos.x + r.max.x - 1 && r.pos.y < p.y < r.pos.y + r.max.y - 1
}

/// A spawn the rooms get: a gold pile of 2 to 61 pieces or a random monster,
/// inside one of the drawn rooms.
spec fn room_spawn(rooms: Seq<GenRoom>, s: Spawn) -> bool {
    &&& (s.kind == SpawnKind::Monster(None) || (s.kind matches SpawnKind::Gold(v) && 2 <= v <= 61))
    &&& exists|k: int| 0 <= k < 9 && !rooms[k].gone && #[trigger] room_interior(rooms[k], s.pos)
}

/// `s1` is `s0` followed by `extra`: at most two spawns per room, each a
/// room spawn.
spec fn room_spawns_added(rooms: Seq<GenRoom>, s0: Seq<Spawn>, s1: Seq<Spawn>, extra: Seq<Spawn>) -> bool {
    &&& s1 == s0 + extra
    &&& extra.len() <= 18
    &&& forall|j: int| 0 <= j < extra.len() ==> room_spawn(rooms, #[trigger] extra[j])
}

/// A room keeps its place, size and kind; only its gold may be set, to a
/// pile's value, and only in a drawn room.
spec fn room_kept(r0: GenRoom, r1: GenRoom) -> bool {
    &&& r1.pos == r0.pos
    &&& r1.max == r0.max
    &&& r1.gone == r0.gone
    &&& r1.dark == r0.dark
    &&& (r1.gold != r0.gold ==> !r0.gone && 2 <= r1.gold <= 61)
}

/// Room `r`'s monster roll `roll`, drawn from `0..100`: when it falls under
/// the room's chance (80 with `gold`, 25 without) and a free floor cell is
/// left inside the room, `m` holds a random monster inside the room.
spec fn monster_rolled(r: GenRoom, gold: int, roll: int, m: &LevelMap) -> bool {
    &&& rnd_outcome(100, roll)
    &&& (roll < (if gold > 0 { 80int } else { 25int }) && (exists|p: Point| room_interior(r, p) && #[trigger] free_floor(m, p)))
        ==> exists|j: int|
        0 <= j < m.spawns@.len() && (#[trigger] m.spawns@[j]).kind == SpawnKind::Monster(None) && room_interior(r, m.spawns@[j].pos)
}

/// A roll's outcome stays met when more spawns follow on the same ground.
proof fn lemma_rolled_kept(r: GenRoom, gold: int, roll: int, m0: &LevelMap, m1: &LevelMap, more: Seq<Spawn>)
    requires
        monster_rolled(r, gold, roll, m0),
        m1.spawns@ == m0.spawns@ + more,
        m1.tile_seq() == m0.tile_seq(),
        m1.width == m0.width,
        m1.height == m0.height,
        m1.stairs_down == m0.stairs_down,
    ensures
        monster_rolled(r, gold, roll, m1),
{
    if roll < (if gold > 0 { 80int } else { 25int }) && (exists|p: Point| room_interior(r, p) && #[trigger] free_floor(m1, p)) {
        let p = choose|p: Point| room_interior(r, p) && #[trigger] free_floor(m1, p);
        assert(m1.spec_tile(p) == m0.spec_tile(p));
        assert(!spec_occupied(m0, p)) by {
            if exists|i: int| 0 <= i < m0.spawns@.len() && (#[trigger] m0.spawns@[i]).pos == p {
                let i = choose|i: int| 0 <= i < m0.spawns@.len() && (#[trigger] m0.spawns@[i]).pos == p;
                assert(m1.spawns@[i] == m0.spawns@[i]);
            }
        }
        assert(free_floor(m0, p));
        let j = choose|j: int|
            0 <= j < m0.spawns@.len() && (#[trigger] m0.spawns@[j]).kind == SpawnKind::Monster(None) && room_interior(r, m0.spawns@[j].pos);
        assert(m1.spawns@[j] == m0.spawns@[j]);
    }
}

/// Place gold piles and monsters inside rooms: each drawn room gets, by
/// chance, a gold pile (one in two) and a monster (80 in 100 with gold, 25 in
/// 100 without), each on a random free floor cell inside it.
fn place_monsters_and_gold<R: RogueRng>(map: &mut LevelMap, rooms: &mut Vec<GenRoom>, rng: &mut R)
    requires
        old(map).wf(),
        dims_ok(old(map).width as int, old(map).height as int),
        rooms_bounded(old(rooms)@, old(map).width as int, old(map).height as int),
        stairs_ok(old(map)),
        spawns_ok(old(map)),
    ensures
        final(map).wf(),
        stairs_ok(final(map)),
        spawns_ok(final(map)),
        final(map).tile_seq() == old(map).tile_seq(),
        final(map).dark_seq() == old(map).dark_seq(),
        final(map).width == old(map).width,
        final(map).height == old(map).height,
        final(map).rooms == old(map).rooms,
        final(map).player_start == old(map).player_start,
        final(map).stairs_down == old(map).stairs_down,
        final(rooms)@.len() == 9,
        forall|k: int| 0 <= k < 9 ==> room_kept(old(rooms)@[k], #[trigger] final(rooms)@[k]),
        exists|extra: Seq<Spawn>| #[trigger] room_spawns_added(old(rooms)@, old(map).spawns@, final(map).spawns@, extra),
        exists|rolls: Seq<int>|
            rolls.len() == 9 && forall|k: int|
                0 <= k < 9 && !old(rooms)@[k].gone ==> #[trigger] monster_rolled(
                    old(rooms)@[k],
                    final(rooms)@[k].gold as int,
                    rolls[k],
                    final(map),
                ),
{
    let ghost start = *map;
    let ghost rooms0 = rooms@;
    let ghost mut extra: Seq<Spawn> = Seq::empty();
    let ghost mut rolls: Seq<int> = Seq::new(9, |k: int| 0int);
    let ghost w = map.width as int;
    let ghost h = map.height as int;
    let mut i: usize = 0;
    while i < rooms.len()
        invariant
            map.wf(),
            stairs_ok(map),
            spawns_ok(map),
            map.tile_seq() == start.tile_seq(),
            map.dark_seq() == start.dark_seq(),
            map.width == start.width,
            map.height == start.height,
            map.rooms == start.rooms,
            map.player_start == start.player_start,
            map.stairs_down == start.stairs_down,
            w == map.width,
            h == map.height,
            dims_ok(w, h),
            rooms_bounded(rooms@, w, h),
            i <= 9,
            rooms0.len() == 9,
            forall|k: int| 0 <= k < 9 ==> room_kept(rooms0[k], #[trigger] rooms@[k]),
            forall|k: int| i <= k < 9 ==> #[trigger] rooms@[k] == rooms0[k],
            map.spawns@ == start.spawns@ + extra,
            extra.len() <= 2 * i,
            forall|j: int| 0 <= j < extra.len() ==> room_spawn(rooms0, #[trigger] extra[j]),
            rolls.len() == 9,
            forall|k: int|
                0 <= k < i && !rooms0[k].gone ==> #[trigger] monster_rolled(rooms0[k], rooms@[k].gold as int, rolls[k], map),
        decreases 9 - i,
    {
        let mut room = rooms[i];
        assert(room_bounded(rooms@[i as int], w, h));
        assert(room == rooms0[i as int]);
        if room.gone {
            i = i + 1;
            continue;
        }
        let rect = room.rect();
        // Gold: 50% chance.
        if rng.rnd(2) == 0 {
            if let Some(p) = random_floor_in(map, &rect, rng) {
                let val = rng.rnd(50 + 10) + 2;
                room.gold = val;
                let ghost before_rooms = rooms@;
                let ghost before_map = *map;
                rooms.set(i, room);
                add_spawn(map, p, SpawnKind::Gold(val));
                proof {
                    assert(room_interior(rooms0[i as int], p));
                    let ghost prev_extra = extra;
                    let ghost s = Spawn { pos: p, kind: SpawnKind::Gold(val) };
                    extra = extra.push(s);
                    assert(map.spawns@ =~= start.spawns@ + extra);
                    assert forall|k: int| 0 <= k < 9 implies room_kept(rooms0[k], #[trigger] rooms@[k]) by {
                        if k != i {
                            assert(rooms@[k] == before_rooms[k]);
                        }
                    }
                    assert forall|k: int| 0 <= k < 9 implies room_bounded(#[trigger] rooms@[k], w, h) by {
                        assert(room_bounded(before_rooms[k], w, h));
                    }
                    assert forall|j: int| 0 <= j < extra.len() implies room_spawn(rooms0, #[trigger] extra[j]) by {
                        if j < prev_extra.len() {
                            assert(extra[j] == prev_extra[j]);
                        } else {
                            assert(extra[j] == s);
                            assert(0 <= i < 9 && !rooms0[i as int].gone && room_interior(rooms0[i as int], s.pos));
                        }
                    }
                    assert(map.spawns@ =~= before_map.spawns@ + seq![s]);
                    assert forall|k: int|
                        0 <= k < i && !rooms0[k].gone implies #[trigger] monster_rolled(rooms0[k], rooms@[k].gold as int, rolls[k], map) by {
                        assert(rooms@[k] == before_rooms[k]);
                        lemma_rolled_kept(rooms0[k], rooms@[k].gold as int, rolls[k], &before_map, map, seq![s]);
                    }
                }
            }
        }
        assert(rooms@[i as int].gold == room.gold);
        // Monster: 80% if the room has gold, else 25%.
        let chance = if room.gold > 0 { 80 } else { 25 };
        let hit = rng.percent(chance);
        let ghost roll = choose|r: int| rnd_outcome(100, r) && hit == (r < chance);
        let ghost placed_map = *map;
        proof {
            rolls = rolls.update(i as int, roll);
        }
        if hit {
            if let Some(p) = random_floor_in(map, &rect, rng) {
                add_spawn(map, p, SpawnKind::Monster(None));
                proof {
                    assert(room_interior(rooms0[i as int], p));
                    let ghost prev_extra = extra;
                    let ghost s = Spawn { pos: p, kind: SpawnKind::Monster(None) };
                    extra = extra.push(s);
                    assert(map.spawns@ =~= start.spawns@ + extra);
                    assert forall|j: int| 0 <= j < extra.len() implies room_spawn(rooms0, #[trigger] extra[j]) by {
                        if j < prev_extra.len() {
                            assert(extra[j] == prev_extra[j]);
                        } else {
                            assert(extra[j] == s);
                            assert(0 <= i < 9 && !rooms0[i as int].gone && room_interior(rooms0[i as int], s.pos));
                        }
                    }
                    assert(map.spawns@ =~= placed_map.spawns@ + seq![s]);
                    assert forall|k: int|
                        0 <= k < i && !rooms0[k].gone implies #[trigger] monster_rolled(rooms0[k], rooms@[k].gold as int, rolls[k], map) by {
                        lemma_rolled_kept(rooms0[k], rooms@[k].gold as int, rolls[k], &placed_map, map, seq![s]);
                    }
                    let last = (map.spawns@.len() - 1) as int;
                    assert(map.spawns@[last] == s);
                    assert(monster_rolled(rooms0[i as int], rooms@[i as int].gold as int, rolls[i as int], map));
                }
            } else {
                proof {
                    assert forall|q: Point| room_interior(rooms0[i as int], q) implies !#[trigger] free_floor(map, q) by {}
                    assert(monster_rolled(rooms0[i as int], rooms@[i as int].gold as int, rolls[i as int], map));
                }
            }
        } else {
            assert(monster_rolled(rooms0[i as int], rooms@[i as int].gold as int, rolls[i as int], map));
        }
        i = i + 1;
    }
    assert(room_spawns_added(rooms0, start.spawns@, map.spawns@, extra));
    assert(forall|k: int|
        0 <= k < 9 && !rooms0[k].gone ==> #[trigger] monster_rolled(rooms0[k], rooms@[k].gold as int, rolls[k], map));
}

/// `p` lies strictly inside rectangle `r`, off its walls.
pub open spec fn rect_interior(r: Rect, p: Point) -> bool {
    r.x1 < p.x < r.x2 - 1 && r.y1 < p.y < r.y2 - 1
}

/// The monster roll `roll` of the drawn room `room`, drawn from `0..100`: when
/// it falls under 25 (the chance of a room without gold; one with gold has 80)
/// and a free floor cell is left inside the room, `m` holds a random monster
/// inside the room.
pub open spec fn room_monster_rolled(m: &LevelMap, room: Rect, roll: int) -> bool {
    &&& rnd_outcome(100, roll)
    &&& (roll < 25 && (exists|p: Point| rect_interior(room, p) && #[trigger] free_floor(m, p))) ==> exists|j: int|
        0 <= j < m.spawns@.len() && (#[trigger] m.spawns@[j]).kind == SpawnKind::Monster(None) && rect_interior(
            room,
            m.spawns@[j].pos,
        )
}

/// `rolls` are the monster rolls of the drawn rooms of `m`, one per room.
pub open spec fn rooms_rolled(m: &LevelMap, rolls: Seq<int>) -> bool {
    rolls.len() == m.rooms@.len() && forall|i: int|
        0 <= i < m.rooms@.len() ==> #[trigger] room_monster_rolled(m, m.rooms@[i], rolls[i])
}

/// Every drawn room of `m` had its monster roll.
pub open spec fn monsters_rolled(m: &LevelMap) -> bool {
    exists|rolls: Seq<int>| #[trigger] rooms_rolled(m, rolls)
}

/// The rolls made room by room carry over to the recorded room rectangles of
/// a level with the same ground and spawns.
proof fn lemma_rolls_recorded(
    m: &LevelMap,
    placed: &LevelMap,
    rooms0: Seq<GenRoom>,
    rooms1: Seq<GenRoom>,
    rolls9: Seq<int>,
    w: int,
    h: int,
)
    requires
        rooms_bounded(rooms0, w, h),
        dims_ok(w, h),
        rooms1.len() == 9,
        rolls9.len() == 9,
        forall|k: int| 0 <= k < 9 && !rooms0[k].gone ==> #[trigger] monster_rolled(rooms0[k], rooms1[k].gold as int, rolls9[k], placed),
        forall|idx: int| 0 <= idx < m.rooms@.len() ==> recorded_from(#[trigger] m.rooms@[idx], rooms0),
        m.spawns@ == placed.spawns@,
        m.tile_seq() == placed.tile_seq(),
        m.width == placed.width,
        m.height == placed.height,
        m.stairs_down == placed.stairs_down,
    ensures
        monsters_rolled(m),
{
    let ks = Seq::new(
        m.rooms@.len(),
        |idx: int| choose|k: int| 0 <= k < 9 && !rooms0[k].gone && m.rooms@[idx] == #[trigger] rect_of(rooms0[k]),
    );
    let rolls = Seq::new(m.rooms@.len(), |idx: int| rolls9[ks[idx]]);
    assert forall|idx: int| 0 <= idx < m.rooms@.len() implies #[trigger] room_monster_rolled(m, m.rooms@[idx], rolls[idx]) by {
        assert(recorded_from(m.rooms@[idx], rooms0));
        let k = ks[idx];
        assert(0 <= k < 9 && !rooms0[k].gone && m.rooms@[idx] == rect_of(rooms0[k]));
        let r = rooms0[k];
        assert(room_bounded(r, w, h));
        assert(monster_rolled(r, rooms1[k].gold as int, rolls9[k], placed));
        assert forall|q: Point| rect_interior(m.rooms@[idx], q) == room_interior(r, q) by {}
        if rolls[idx] < 25 && (exists|p: Point| rect_interior(m.rooms@[idx], p) && #[trigger] free_floor(m, p)) {
            let p = choose|p: Point| rect_interior(m.rooms@[idx], p) && #[trigger] free_floor(m, p);
            assert(m.spec_tile(p) == placed.spec_tile(p));
            assert(free_floor(placed, p));
            assert(room_interior(r, p));
            let j = choose|j: int|
                0 <= j < placed.spawns@.len() && (#[trigger] placed.spawns@[j]).kind == SpawnKind::Monster(None)
                    && room_interior(r, placed.spawns@[j].pos);
            assert(m.spawns@[j] == placed.spawns@[j]);
            assert(rect_interior(m.rooms@[idx], m.spawns@[j].pos));
        }
    }
    assert(rooms_rolled(m, rolls));
}

/// Every cell inside a drawn room reaches every cell inside any drawn room.
spec fn interiors_linked(m: &LevelMap, rooms: Seq<GenRoom>) -> bool {
    forall|i: int, j: int, p: Point, q: Point|
        0 <= i < 9 && 0 <= j < 9 && #[trigger] in_interior(rooms[i], p) && #[trigger] in_interior(rooms[j], q)
            ==> m.orth_reachable(p, q)
}

/// With all rooms linked, any cell inside one ready room reaches any cell
/// inside another.
proof fn lemma_linked_interiors(m: &LevelMap, rooms: Seq<GenRoom>, bw: int, bh: int)
    requires
        rooms_ready(m, rooms, bw, bh),
        all_linked(m, rooms),
    ensures
        interiors_linked(m, rooms),
{
    assert forall|i: int, j: int, p: Point, q: Point|
        0 <= i < 9 && 0 <= j < 9 && #[trigger] in_interior(rooms[i], p) && #[trigger] in_interior(rooms[j], q)
        implies m.orth_reachable(p, q) by {
        lemma_interior_rep(m, rooms, bw, bh, i, p);
        lemma_interior_rep(m, rooms, bw, bh, j, q);
        assert(m.orth_reachable(rep(rooms[i]), rep(rooms[j])));
        lemma_reach_trans(m, p, rep(rooms[i]), rep(rooms[j]));
        lemma_reach_trans(m, p, rep(rooms[j]), q);
    }
}

/// On a connected level the player, starting on free floor, can walk to the
/// staircase and to every spawn.
pub proof fn lemma_start_reaches_all(m: &LevelMap)
    requires
        level_connected(m),
        stairs_ok(m),
        spawns_ok(m),
        free_floor(m, m.player_start),
    ensures
        m.stairs_down matches Some(sd) ==> m.orth_reachable(m.player_start, sd) && m.spec_reachable(m.player_start, sd),
        forall|i: int|
            0 <= i < m.spawns@.len() ==> m.orth_reachable(m.player_start, (#[trigger] m.spawns@[i]).pos)
                && m.spec_reachable(m.player_start, m.spawns@[i].pos),
{
    if let Some(sd) = m.stairs_down {
        assert(room_ground(m.spec_tile(m.player_start)) && room_ground(m.spec_tile(sd)));
    }
    assert forall|i: int| 0 <= i < m.spawns@.len() implies m.orth_reachable(m.player_start, (#[trigger] m.spawns@[i]).pos) by {
        assert(room_ground(m.spec_tile(m.player_start)) && room_ground(m.spec_tile(m.spawns@[i].pos)));
    }
}

/// Generate a procedural level for the given depth.
#[verifier::rlimit(50)]
#[verifier::spinoff_prover]
pub fn generate_procedural<R: RogueRng>(cfg: &Config, depth: i32, params: &ProcParams, rng: &mut R) -> (map: LevelMap)
    requires
        dims_ok(cfg.map_width as int, cfg.map_height as int),
        depth > i32::MIN,
    ensures
        procedural_ok(*cfg, &map),
        params_ok(*params, &map),
        depth_ok(depth as int, cfg.max_traps as int, &map),
        cfg.map_width >= 15 && cfg.map_height >= 15 ==> level_connected(&map),
        monsters_rolled(&map),
{
    let mut map = LevelMap::new(cfg.map_width, cfg.map_height);
    let ghost fresh = map;
    proof {
        assert forall|q: Point| !#[trigger] fresh.spec_is_dark(q) by {
            if fresh.spec_in_bounds(q) {
                lemma_idx_in_range(&fresh, q);
            }
        }
        assert forall|q: Point| #[trigger] fresh.spec_tile(q) != TileKind::Trap by {
            if fresh.spec_in_bounds(q) {
                lemma_idx_in_range(&fresh, q);
            }
        }
    }
    let bsze = Point::new(cfg.map_width / 3, cfg.map_height / 3);
    proof {
        assert(no_stairs(&map));
    }
    let mut rooms = do_rooms(&mut map, depth, params, bsze, rng);
    let ghost drawn = map;
    let ghost rooms0 = rooms@;
    do_passages(&mut map, &rooms, rng);
    let ghost w = map.width as int;
    let ghost h = map.height as int;
    proof {
        if w >= 12 && h >= 12 {
            lemma_rooms_survive_carving(&drawn, &map, rooms0, bsze.x as int, bsze.y as int);
        }
    }
    let ghost carved_map = map;
    proof {
        if bsze.x >= 5 && bsze.y >= 5 {
            lemma_drawn_ready(&fresh, &drawn, rooms0, bsze.x as int, bsze.y as int);
            lemma_ready_kept(&drawn, &carved_map, rooms0, bsze.x as int, bsze.y as int);
            lemma_floors_kept(&drawn, &carved_map, rooms0);
            assert(all_linked(&carved_map, rooms0));
        }
    }
    // Record real (non-gone) room rectangles for lighting.
    let mut i: usize = 0;
    while i < rooms.len()
        invariant
            map.wf(),
            no_stairs(&map),
            map.spawns@.len() == 0,
            map.stairs_down is None,
            w == map.width,
            h == map.height,
            w == cfg.map_width,
            h == cfg.map_height,
            map.player_start.x == w / 2,
            map.player_start.y == h / 2,
            dims_ok(w, h),
            rooms_bounded(rooms@, w, h),
            i <= 9,
            map.rooms@.len() <= i,
            forall|k: int|
                0 <= k < map.rooms@.len() ==> {
                    let r = #[trigger] map.rooms@[k];
                    &&& 0 <= r.x1
                    &&& 0 <= r.y1
                    &&& r.x2 - r.x1 >= 4
                    &&& r.y2 - r.y1 >= 4
                },
            rooms@ == rooms0,
            map.tile_seq() == carved_map.tile_seq(),
            map.dark_seq() == carved_map.dark_seq(),
            map.rooms@.len() == i - gone_upto(rooms0, i as int),
            gone_upto(rooms0, 9) <= 3,
            !params.allow_gone_rooms ==> forall|k: int| 0 <= k < 9 ==> !(#[trigger] rooms0[k]).gone,
            forall|idx: int| 0 <= idx < map.rooms@.len() ==> recorded_from(#[trigger] map.rooms@[idx], rooms0),
        decreases 9 - i,
    {
        let r = rooms[i];
        assert(room_bounded(rooms@[i as int], w, h));
        if !r.gone {
            let ghost before = map.rooms@;
            map.rooms.push(r.rect());
            assert forall|idx: int| 0 <= idx < map.rooms@.len() implies recorded_from(#[trigger] map.rooms@[idx], rooms0) by {
                if idx < before.len() {
                    assert(map.rooms@[idx] == before[idx]);
                } else {
                    assert(map.rooms@[idx] == rect_of(rooms0[i as int]));
                }
            }
        }
        i = i + 1;
    }
    let ghost recorded = map;
    proof {
        if !params.allow_gone_rooms {
            lemma_none_gone(rooms0, 9);
        }
    }
    place_traps(&mut map, depth, cfg, rng);
    let ghost trapped = map;
    place_stairs(&mut map, rng);
    proof {
        assert(spawns_ok(&map));
    }
    let ghost staired = map;
    put_things(&mut map, cfg, rng);
    let ghost itemed = map;
    let ghost rooms_before = rooms@;
    place_monsters_and_gold(&mut map, &mut rooms, rng);
    assert(item_count(map.spawns@) <= (if cfg.max_objects_per_level < 0 { 0 } else { cfg.max_objects_per_level as int })) by {
        let extra1 = choose|extra: Seq<Spawn>| #[trigger] items_only(extra, cfg.max_objects_per_level as int)
            && itemed.spawns@ == staired.spawns@ + extra;
        let extra2 = choose|extra: Seq<Spawn>| #[trigger] room_spawns_added(rooms_before, itemed.spawns@, map.spawns@, extra);
        assert(staired.spawns@ + extra1 =~= extra1);
        lemma_item_count_concat(extra1, extra2);
        lemma_item_count_bounds(extra1);
        assert forall|i: int| 0 <= i < extra2.len() implies (#[trigger] extra2[i]).kind != SpawnKind::Item by {
            assert(room_spawn(rooms_before, extra2[i]));
        }
        lemma_item_count_bounds(extra2);
    }
    let ghost spawned = map;
    let ghost rooms_after = rooms@;
    if let Some(p) = random_floor(&map, rng) {
        map.player_start = p;
    }
    assert(params_ok(*params, &map)) by {
        assert(map.dark_seq() == drawn.dark_seq());
        assert(map.width == drawn.width && map.height == drawn.height);
        if !params.allow_dark {
            assert forall|q: Point| !#[trigger] map.spec_is_dark(q) by {
                assert(drawn.spec_is_dark(q) == fresh.spec_is_dark(q));
            }
        }
        assert(map.rooms@ == recorded.rooms@);
    }
    proof {
        let rolls9 = choose|rolls: Seq<int>|
            rolls.len() == 9 && forall|k: int|
                0 <= k < 9 && !rooms_before[k].gone ==> #[trigger] monster_rolled(
                    rooms_before[k],
                    rooms_after[k].gold as int,
                    rolls[k],
                    &spawned,
                );
        assert(rooms_before == rooms0);
        assert forall|idx: int| 0 <= idx < map.rooms@.len() implies recorded_from(#[trigger] map.rooms@[idx], rooms0) by {
            assert(map.rooms@[idx] == recorded.rooms@[idx]);
        }
        lemma_rolls_recorded(&map, &spawned, rooms0, rooms_after, rolls9, w, h);
    }
    proof {
        assert forall|p: Point| #[trigger] map.spec_tile(p) == staired.spec_tile(p) by {}
        assert forall|p: Point| #[trigger] recorded.spec_tile(p) == carved_map.spec_tile(p) by {}
        if w >= 12 && h >= 12 {
            assert forall|i: int, q: Point|
                0 <= i < map.rooms@.len() && map.spec_in_bounds(q) && (#[trigger] map.rooms@[i]).spec_contains(q) implies {
                    let t = #[trigger] map.spec_tile(q);
                    if on_rect_ring(map.rooms@[i], q) {
                        t == TileKind::Wall || t == TileKind::Door
                    } else {
                        t == TileKind::Floor || t == TileKind::Trap || t == TileKind::StairsDown
                    }
                } by {
                assert(map.rooms@[i] == recorded.rooms@[i]);
                assert(recorded_from(recorded.rooms@[i], rooms0));
                let k = choose|k: int| 0 <= k < 9 && !rooms0[k].gone && recorded.rooms@[i] == #[trigger] rect_of(rooms0[k]);
                let rk = rooms0[k];
                assert(box_kept(&carved_map, rk.pos, rk.max));
                assert(in_room_box(rk.pos, rk.max, q));
                assert(on_rect_ring(map.rooms@[i], q) == on_room_wall(rk.pos, rk.max, q));
                let tc = carved_map.spec_tile(q);
                assert(recorded.spec_tile(q) == tc);
                let t1 = trapped.spec_tile(q);
                assert(t1 == tc || (tc == TileKind::Floor && t1 == TileKind::Trap));
                let t2 = staired.spec_tile(q);
                assert(t2 == t1 || (t1 == TileKind::Floor && t2 == TileKind::StairsDown));
            }
        }
        if bsze.x >= 5 && bsze.y >= 5 {
            assert forall|q: Point|
                #[trigger] map.spec_tile(q) == carved_map.spec_tile(q) || (carved_map.spec_tile(q) == TileKind::Floor
                    && (map.spec_tile(q) == TileKind::Trap || map.spec_tile(q) == TileKind::StairsDown)) by {
                let tc = carved_map.spec_tile(q);
                assert(recorded.spec_tile(q) == tc);
                let t1 = trapped.spec_tile(q);
                assert(t1 == tc || (tc == TileKind::Floor && t1 == TileKind::Trap));
                let t2 = staired.spec_tile(q);
                assert(t2 == t1 || (t1 == TileKind::Floor && t2 == TileKind::StairsDown));
            }
            assert forall|q: Point|
                #[trigger] carved_map.spec_tile(q) != TileKind::Trap && carved_map.spec_tile(q) != TileKind::StairsDown by {
                assert(drawn.spec_tile(q) == TileKind::Empty || drawn.spec_tile(q) == TileKind::Wall || drawn.spec_tile(q)
                    == TileKind::Floor);
                assert(carved_map.spec_tile(q) == drawn.spec_tile(q) || (drawn.spec_tile(q) == TileKind::Empty
                    && carved_map.spec_tile(q) == TileKind::Passage) || (carved_map.spec_tile(q) == TileKind::Door
                    && ring_cell(rooms0, q)));
            }
            lemma_level_connected(&carved_map, &map, rooms0, bsze.x as int, bsze.y as int);
        }
    }
    proof {
        assert forall|q: Point| #[trigger] carved_map.spec_tile(q) != TileKind::Trap by {
            assert(carved_map.spec_tile(q) == drawn.spec_tile(q) || (drawn.spec_tile(q) == TileKind::Empty
                && carved_map.spec_tile(q) == TileKind::Passage) || (carved_map.spec_tile(q) == TileKind::Door
                && ring_cell(rooms0, q)));
        }
        let (placed, n) = choose|placed: Seq<Point>, n: int|
            #[trigger] traps_placed(&recorded, &trapped, placed, n) && trap_count_ok(depth as int, cfg.max_traps as int, n);
        assert forall|q: Point| (#[trigger] map.spec_tile(q) == TileKind::Trap) == placed.contains(q) by {
            assert(map.spec_tile(q) == staired.spec_tile(q));
            assert(recorded.spec_tile(q) == carved_map.spec_tile(q));
            assert(trapped.spec_tile(q) == if placed.contains(q) { TileKind::Trap } else { recorded.spec_tile(q) });
            let t1 = trapped.spec_tile(q);
            let t2 = staired.spec_tile(q);
            assert(t2 == t1 || (t1 == TileKind::Floor && t2 == TileKind::StairsDown));
        }
        assert(trap_layout(&map, placed, n));
        if depth <= 1 {
            assert forall|q: Point| !#[trigger] map.spec_is_dark(q) by {
                assert(map.dark_seq() == drawn.dark_seq());
                assert(drawn.spec_is_dark(q) == fresh.spec_is_dark(q));
            }
        }
    }
    map
}

} // verus!
