//! The dungeon level grid: tiles, visibility, rooms and spawn requests.

use vstd::prelude::*;
use crate::geometry::{Point, Rect};

verus! {

/// What occupies a single map cell.
#[derive(Debug, Clone, Copy, PartialEq, Eq, Structural)]
pub enum TileKind {
    /// Unused rock / void.
    Empty,
    /// Room floor (`.`).
    Floor,
    /// Room wall.
    Wall,
    /// Corridor (`#`).
    Passage,
    /// Door between a room and a corridor (`+`).
    Door,
    /// Stairs down to the next level (`>`).
    StairsDown,
    /// Stairs up (`<`).
    StairsUp,
    /// A trap (`^`).
    Trap,
}

/// Tiles a creature can stand on: everything but rock and walls.
pub open spec fn spec_walkable(t: TileKind) -> bool {
    !(t == TileKind::Empty || t == TileKind::Wall)
}

/// Tiles that block line of sight: rock and walls.
pub open spec fn spec_opaque(t: TileKind) -> bool {
    t == TileKind::Empty || t == TileKind::Wall
}

/// The glyph of a tile for simple renderers.
pub open spec fn spec_glyph(t: TileKind) -> char {
    match t {
        TileKind::Empty => ' ',
        TileKind::Floor => '.',
        TileKind::Wall => '#',
        TileKind::Passage => '#',
        TileKind::Door => '+',
        TileKind::StairsDown => '>',
        TileKind::StairsUp => '<',
        TileKind::Trap => '^',
    }
}

impl TileKind {
    /// Can a creature stand on / walk through this tile?
    pub fn walkable(self) -> (b: bool)
        ensures
            b == spec_walkable(self),
    {
        !(self == TileKind::Empty || self == TileKind::Wall)
    }

    /// Does this tile block line of sight?
    pub fn opaque(self) -> (b: bool)
        ensures
            b == spec_opaque(self),
    {
        self == TileKind::Empty || self == TileKind::Wall
    }

    /// Default glyph used by simple renderers / fixed-map round-tripping.
    pub fn glyph(self) -> (c: char)
        ensures
            c == spec_glyph(self),
    {
        match self {
            TileKind::Empty => ' ',
            TileKind::Floor => '.',
            TileKind::Wall => '#',
            TileKind::Passage => '#',
            TileKind::Door => '+',
            TileKind::StairsDown => '>',
            TileKind::StairsUp => '<',
            TileKind::Trap => '^',
        }
    }
}

/// What the generator wants placed on the map after layout is done.
#[derive(Debug, Clone, Copy, PartialEq, Eq)]
pub enum SpawnKind {
    /// A monster identified by its glyph (`A`..=`Z`), or `None` to pick randomly.
    Monster(Option<char>),
    /// A random floor item (picked from the item tables).
    Item,
    /// A pile of gold worth the given value.
    Gold(i32),
    /// A specific item by name (used by hand-authored levels).
    NamedItem(&'static str),
}

/// A request to place something at a position.
#[derive(Debug, Clone, Copy, PartialEq, Eq)]
pub struct Spawn {
    pub pos: Point,
    pub kind: SpawnKind,
}

/// Are `a` and `b` distinct and one king-move apart?
pub open spec fn adjacent8(a: Point, b: Point) -> bool {
    a != b && -1 <= a.x - b.x <= 1 && -1 <= a.y - b.y <= 1
}

/// Are `a` and `b` one orthogonal step apart?
pub open spec fn adjacent4(a: Point, b: Point) -> bool {
    (a.x == b.x && (a.y - b.y == 1 || b.y - a.y == 1)) || (a.y == b.y && (a.x - b.x == 1 || b.x - a.x == 1))
}

/// Number of `true` entries.
pub open spec fn count_true(s: Seq<bool>) -> nat
    decreases s.len(),
{
    if s.len() == 0 {
        0
    } else {
        count_true(s.drop_last()) + if s.last() { 1nat } else { 0nat }
    }
}

pub proof fn lemma_count_true_le(s: Seq<bool>)
    ensures
        count_true(s) <= s.len(),
    decreases s.len(),
{
    if s.len() > 0 {
        lemma_count_true_le(s.drop_last());
    }
}

pub proof fn lemma_count_true_set(s: Seq<bool>, i: int)
    requires
        0 <= i < s.len(),
        !s[i],
    ensures
        count_true(s.update(i, true)) == count_true(s) + 1,
    decreases s.len(),
{
    let u = s.update(i, true);
    if i == s.len() - 1 {
        assert(u.drop_last() =~= s.drop_last());
    } else {
        lemma_count_true_set(s.drop_last(), i);
        assert(u.drop_last() =~= s.drop_last().update(i, true));
    }
}

/// A fully generated (or loaded) dungeon level.
#[derive(Debug, Clone)]
pub struct LevelMap {
    pub width: i32,
    pub height: i32,
    pub tiles: Vec<TileKind>,
    /// Has the player ever seen this tile (persisted "memory").
    pub revealed: Vec<bool>,
    /// Is the tile currently in view this turn.
    pub visible: Vec<bool>,
    /// Tile belongs to a dark room (only lit when adjacent / by torch).
    pub dark: Vec<bool>,
    /// Room rectangles, used for lighting whole rooms at once.
    pub rooms: Vec<Rect>,
    pub player_start: Point,
    pub stairs_down: Option<Point>,
    pub spawns: Vec<Spawn>,
}

impl LevelMap {
    /// The tile layer, row by row.
    pub open spec fn tile_seq(&self) -> Seq<TileKind> {
        self.tiles@
    }

    /// Which tiles the player has seen at some point.
    pub open spec fn revealed_seq(&self) -> Seq<bool> {
        self.revealed@
    }

    /// Which tiles are in view this turn.
    pub open spec fn visible_seq(&self) -> Seq<bool> {
        self.visible@
    }

    /// Which tiles belong to dark rooms.
    pub open spec fn dark_seq(&self) -> Seq<bool> {
        self.dark@
    }

    /// The layers all hold one entry per cell.
    pub open spec fn wf(&self) -> bool {
        &&& self.width >= 0
        &&& self.height >= 0
        &&& self.width * self.height <= i32::MAX
        &&& self.tile_seq().len() == self.width * self.height
        &&& self.revealed_seq().len() == self.width * self.height
        &&& self.visible_seq().len() == self.width * self.height
        &&& self.dark_seq().len() == self.width * self.height
        &&& self.sight_consistent()
    }

    /// Every tile in view is also remembered as revealed.
    pub open spec fn sight_consistent(&self) -> bool {
        forall|i: int| 0 <= i < self.visible_seq().len() && #[trigger] self.visible_seq()[i] ==> i < self.revealed_seq().len()
            && self.revealed_seq()[i]
    }

    pub open spec fn spec_in_bounds(&self, p: Point) -> bool {
        p.x >= 0 && p.y >= 0 && p.x < self.width && p.y < self.height
    }

    pub open spec fn spec_idx(&self, p: Point) -> int {
        p.y * self.width + p.x
    }

    /// The tile at `p`; rock outside the map.
    pub open spec fn spec_tile(&self, p: Point) -> TileKind {
        if self.spec_in_bounds(p) {
            self.tile_seq()[self.spec_idx(p)]
        } else {
            TileKind::Empty
        }
    }

    pub open spec fn spec_is_walkable(&self, p: Point) -> bool {
        spec_walkable(self.spec_tile(p))
    }

    pub open spec fn spec_is_revealed(&self, p: Point) -> bool {
        self.spec_in_bounds(p) && self.revealed_seq()[self.spec_idx(p)]
    }

    pub open spec fn spec_is_visible(&self, p: Point) -> bool {
        self.spec_in_bounds(p) && self.visible_seq()[self.spec_idx(p)]
    }

    pub open spec fn spec_is_dark(&self, p: Point) -> bool {
        self.spec_in_bounds(p) && self.dark_seq()[self.spec_idx(p)]
    }

    /// `path` is a sequence of king-moves starting next to `from`, each onto a
    /// walkable tile.
    pub open spec fn is_walk(&self, from: Point, path: Seq<Point>) -> bool {
        forall|i: int|
            0 <= i < path.len() ==> {
                &&& self.spec_is_walkable(#[trigger] path[i])
                &&& adjacent8(if i == 0 { from } else { path[i - 1] }, path[i])
            }
    }

    /// `path` walks from `from` to `to` (the empty walk when they coincide).
    pub open spec fn is_path(&self, from: Point, to: Point, path: Seq<Point>) -> bool {
        &&& self.is_walk(from, path)
        &&& if path.len() == 0 { from == to } else { path.last() == to }
    }

    /// Some walk leads from `from` to `to`.
    pub open spec fn spec_reachable(&self, from: Point, to: Point) -> bool {
        exists|path: Seq<Point>| self.is_path(from, to, path)
    }

    /// `path` is a sequence of orthogonal steps starting next to `from`, each
    /// onto a walkable tile.
    pub open spec fn is_walk4(&self, from: Point, path: Seq<Point>) -> bool {
        forall|i: int|
            0 <= i < path.len() ==> {
                &&& self.spec_is_walkable(#[trigger] path[i])
                &&& adjacent4(if i == 0 { from } else { path[i - 1] }, path[i])
            }
    }

    /// `path` walks from `from` to `to` by orthogonal steps.
    pub open spec fn is_path4(&self, from: Point, to: Point, path: Seq<Point>) -> bool {
        &&& self.is_walk4(from, path)
        &&& if path.len() == 0 { from == to } else { path.last() == to }
    }

    /// Some walk of orthogonal steps leads from `from` to `to`.
    pub open spec fn orth_reachable(&self, from: Point, to: Point) -> bool {
        exists|path: Seq<Point>| self.is_path4(from, to, path)
    }

    /// Create an empty (all-rock) map.
    pub fn new(width: i32, height: i32) -> (m: LevelMap)
        requires
            width >= 0,
            height >= 0,
            width * height <= i32::MAX,
        ensures
            m.wf(),
            m.width == width,
            m.height == height,
            forall|i: int| 0 <= i < width * height ==> m.tile_seq()[i] == TileKind::Empty,
            forall|i: int| 0 <= i < width * height ==> !m.revealed_seq()[i],
            forall|i: int| 0 <= i < width * height ==> !m.visible_seq()[i],
            forall|i: int| 0 <= i < width * height ==> !m.dark_seq()[i],
            m.rooms@ == Seq::<Rect>::empty(),
            m.player_start.x == width / 2,
            m.player_start.y == height / 2,
            m.stairs_down is None,
            m.spawns@ == Seq::<Spawn>::empty(),
    {
        proof {
            assert(width * height >= 0) by (nonlinear_arith)
                requires width >= 0, height >= 0;
        }
        let n = (width * height) as usize;
        LevelMap {
            width,
            height,
            tiles: vec![TileKind::Empty; n],
            revealed: vec![false; n],
            visible: vec![false; n],
            dark: vec![false; n],
            rooms: Vec::new(),
            player_start: Point::new(width / 2, height / 2),
            stairs_down: None,
            spawns: Vec::new(),
        }
    }

    pub fn in_bounds(&self, p: Point) -> (b: bool)
        ensures
            b == self.spec_in_bounds(p),
    {
        p.x >= 0 && p.y >= 0 && p.x < self.width && p.y < self.height
    }

    /// Row-major index of a point.
    pub fn idx(&self, p: Point) -> (i: usize)
        requires
            i32::MIN <= p.y * self.width <= i32::MAX,
            i32::MIN <= p.y * self.width + p.x <= i32::MAX,
        ensures
            i == (self.spec_idx(p) as i32) as usize,
            self.wf() && self.spec_in_bounds(p) ==> i == self.spec_idx(p),
    {
        proof {
            if self.wf() && self.spec_in_bounds(p) {
                lemma_idx_in_range(self, p);
            }
        }
        (p.y * self.width + p.x) as usize
    }

    pub fn tile(&self, p: Point) -> (t: TileKind)
        requires
            self.wf(),
        ensures
            t == self.spec_tile(p),
    {
        if self.in_bounds(p) {
            proof {
                lemma_idx_in_range(self, p);
            }
            self.tiles[self.idx(p)]
        } else {
            TileKind::Empty
        }
    }

    pub fn set_tile(&mut self, p: Point, t: TileKind)
        requires
            old(self).wf(),
        ensures
            final(self).wf(),
            final(self).tile_seq() == (if old(self).spec_in_bounds(p) {
                old(self).tile_seq().update(old(self).spec_idx(p), t)
            } else {
                old(self).tile_seq()
            }),
            final(self).same_except_tiles(*old(self)),
            forall|q: Point|
                #[trigger] final(self).spec_tile(q) == (if q == p && old(self).spec_in_bounds(p) {
                    t
                } else {
                    old(self).spec_tile(q)
                }),
    {
        if self.in_bounds(p) {
            proof {
                lemma_idx_in_range(self, p);
            }
            let i = self.idx(p);
            self.tiles.set(i, t);
            proof {
                assert forall|q: Point|
                    #[trigger] self.spec_tile(q) == (if q == p { t } else { old(self).spec_tile(q) }) by {
                    if q != p && self.spec_in_bounds(q) {
                        lemma_idx_injective(self, q, p);
                        lemma_idx_in_range(self, q);
                    }
                }
            }
        }
    }

    /// Everything but the tile layer is as in `other`.
    pub open spec fn same_except_tiles(&self, other: LevelMap) -> bool {
        &&& self.width == other.width
        &&& self.height == other.height
        &&& self.revealed_seq() == other.revealed_seq()
        &&& self.visible_seq() == other.visible_seq()
        &&& self.dark_seq() == other.dark_seq()
        &&& self.rooms == other.rooms
        &&& self.player_start == other.player_start
        &&& self.stairs_down == other.stairs_down
        &&& self.spawns == other.spawns
    }

    /// Everything but the revealed and visible layers is as in `other`.
    pub open spec fn same_except_sight(&self, other: LevelMap) -> bool {
        &&& self.width == other.width
        &&& self.height == other.height
        &&& self.tile_seq() == other.tile_seq()
        &&& self.dark_seq() == other.dark_seq()
        &&& self.rooms == other.rooms
        &&& self.player_start == other.player_start
        &&& self.stairs_down == other.stairs_down
        &&& self.spawns == other.spawns
    }

    pub fn is_walkable(&self, p: Point) -> (b: bool)
        requires
            self.wf(),
        ensures
            b == self.spec_is_walkable(p),
    {
        self.tile(p).walkable()
    }

    pub fn is_opaque(&self, p: Point) -> (b: bool)
        requires
            self.wf(),
        ensures
            b == spec_opaque(self.spec_tile(p)),
    {
        self.tile(p).opaque()
    }

    pub fn is_revealed(&self, p: Point) -> (b: bool)
        requires
            self.wf(),
        ensures
            b == self.spec_is_revealed(p),
    {
        if self.in_bounds(p) {
            proof {
                lemma_idx_in_range(self, p);
            }
            self.revealed[self.idx(p)]
        } else {
            false
        }
    }

    pub fn is_visible(&self, p: Point) -> (b: bool)
        requires
            self.wf(),
        ensures
            b == self.spec_is_visible(p),
    {
        if self.in_bounds(p) {
            proof {
                lemma_idx_in_range(self, p);
            }
            self.visible[self.idx(p)]
        } else {
            false
        }
    }

    pub fn is_dark(&self, p: Point) -> (b: bool)
        requires
            self.wf(),
        ensures
            b == self.spec_is_dark(p),
    {
        if self.in_bounds(p) {
            proof {
                lemma_idx_in_range(self, p);
            }
            self.dark[self.idx(p)]
        } else {
            false
        }
    }

    pub fn set_dark(&mut self, p: Point, dark: bool)
        requires
            old(self).wf(),
        ensures
            final(self).wf(),
            final(self).dark_seq() == (if old(self).spec_in_bounds(p) {
                old(self).dark_seq().update(old(self).spec_idx(p), dark)
            } else {
                old(self).dark_seq()
            }),
            final(self).tile_seq() == old(self).tile_seq(),
            final(self).revealed_seq() == old(self).revealed_seq(),
            final(self).visible_seq() == old(self).visible_seq(),
            final(self).width == old(self).width,
            final(self).height == old(self).height,
            final(self).rooms == old(self).rooms,
            final(self).player_start == old(self).player_start,
            final(self).stairs_down == old(self).stairs_down,
            final(self).spawns == old(self).spawns,
            forall|q: Point|
                #[trigger] final(self).spec_is_dark(q) == (if q == p && old(self).spec_in_bounds(p) {
                    dark
                } else {
                    old(self).spec_is_dark(q)
                }),
    {
        if self.in_bounds(p) {
            proof {
                lemma_idx_in_range(self, p);
            }
            let i = self.idx(p);
            self.dark.set(i, dark);
            proof {
                assert forall|q: Point|
                    #[trigger] self.spec_is_dark(q) == (if q == p { dark } else { old(self).spec_is_dark(q) }) by {
                    if q != p && self.spec_in_bounds(q) {
                        lemma_idx_injective(self, q, p);
                        lemma_idx_in_range(self, q);
                    }
                }
            }
        }
    }

    pub fn reveal_tile(&mut self, p: Point)
        requires
            old(self).wf(),
        ensures
            final(self).wf(),
            final(self).revealed_seq() == (if old(self).spec_in_bounds(p) {
                old(self).revealed_seq().update(old(self).spec_idx(p), true)
            } else {
                old(self).revealed_seq()
            }),
            final(self).visible_seq() == old(self).visible_seq(),
            final(self).same_except_sight(*old(self)),
    {
        if self.in_bounds(p) {
            proof {
                lemma_idx_in_range(self, p);
            }
            let i = self.idx(p);
            self.revealed.set(i, true);
        }
    }

    /// Clear current visibility (call at the start of each FOV recompute).
    pub fn clear_visible(&mut self)
        requires
            old(self).wf(),
        ensures
            final(self).wf(),
            final(self).visible_seq().len() == old(self).visible_seq().len(),
            forall|i: int| 0 <= i < final(self).visible_seq().len() ==> !final(self).visible_seq()[i],
            final(self).revealed_seq() == old(self).revealed_seq(),
            final(self).same_except_sight(*old(self)),
    {
        let n = self.visible.len();
        let mut i: usize = 0;
        while i < n
            invariant
                i <= n,
                n == self.visible@.len(),
                self.wf(),
                self.visible@.len() == old(self).visible@.len(),
                forall|k: int| 0 <= k < i ==> !self.visible@[k],
                self.revealed@ == old(self).revealed@,
                self.same_except_sight(*old(self)),
            decreases n - i,
        {
            self.visible.set(i, false);
            i = i + 1;
        }
    }

    /// Mark a tile visible (and therefore revealed).
    pub fn set_visible(&mut self, p: Point)
        requires
            old(self).wf(),
        ensures
            final(self).wf(),
            final(self).visible_seq() == (if old(self).spec_in_bounds(p) {
                old(self).visible_seq().update(old(self).spec_idx(p), true)
            } else {
                old(self).visible_seq()
            }),
            final(self).revealed_seq() == (if old(self).spec_in_bounds(p) {
                old(self).revealed_seq().update(old(self).spec_idx(p), true)
            } else {
                old(self).revealed_seq()
            }),
            final(self).same_except_sight(*old(self)),
    {
        if self.in_bounds(p) {
            proof {
                lemma_idx_in_range(self, p);
            }
            let i = self.idx(p);
            self.visible.set(i, true);
            self.revealed.set(i, true);
        }
    }

    /// Which room (if any) contains this point: the first one that does.
    pub fn room_at(&self, p: Point) -> (r: Option<usize>)
        ensures
            match r {
                None => forall|i: int| 0 <= i < self.rooms@.len() ==> !self.rooms@[i].spec_contains(p),
                Some(i) => i < self.rooms@.len() && self.rooms@[i as int].spec_contains(p)
                    && forall|j: int| 0 <= j < i ==> !self.rooms@[j].spec_contains(p),
            },
    {
        let mut i: usize = 0;
        while i < self.rooms.len()
            invariant
                i <= self.rooms@.len(),
                forall|j: int| 0 <= j < i ==> !self.rooms@[j].spec_contains(p),
            decreases self.rooms@.len() - i,
        {
            if self.rooms[i].contains(p) {
                return Some(i);
            }
            i = i + 1;
        }
        None
    }
}

/// An in-bounds point's index lies inside the layers.
/// A walk of orthogonal steps is a walk.
pub proof fn lemma_orth_reachable(m: &LevelMap, from: Point, to: Point)
    requires
        m.orth_reachable(from, to),
    ensures
        m.spec_reachable(from, to),
{
    let path = choose|path: Seq<Point>| m.is_path4(from, to, path);
    assert(m.is_path(from, to, path));
}

pub proof fn lemma_idx_in_range(m: &LevelMap, p: Point)
    requires
        m.wf(),
        m.spec_in_bounds(p),
    ensures
        0 <= m.spec_idx(p) < m.width * m.height,
        0 <= p.y * m.width <= m.spec_idx(p),
{
    assert(p.y * m.width + p.x < m.width * m.height) by (nonlinear_arith)
        requires 0 <= p.x < m.width, 0 <= p.y < m.height;
    assert(0 <= p.y * m.width) by (nonlinear_arith)
        requires 0 <= p.y, 0 <= m.width;
}

/// Distinct in-bounds points have distinct indices.
pub proof fn lemma_idx_injective(m: &LevelMap, p: Point, q: Point)
    requires
        m.wf(),
        m.spec_in_bounds(p),
        m.spec_in_bounds(q),
        p != q,
    ensures
        m.spec_idx(p) != m.spec_idx(q),
{
    if p.y == q.y {
    } else if p.y < q.y {
        assert(p.y * m.width + p.x < q.y * m.width + q.x) by (nonlinear_arith)
            requires p.y < q.y, 0 <= p.x < m.width, 0 <= q.x;
    } else {
        assert(q.y * m.width + q.x < p.y * m.width + p.x) by (nonlinear_arith)
            requires q.y < p.y, 0 <= q.x < m.width, 0 <= p.x;
    }
}

/// A tile in view is on the map and remembered as revealed: every well-formed
/// map keeps its sight consistent, and `new` and every edit keep maps
/// well-formed.
pub proof fn lemma_visible_is_revealed(m: &LevelMap, p: Point)
    requires
        m.wf(),
        m.spec_is_visible(p),
    ensures
        m.spec_in_bounds(p),
        m.spec_is_revealed(p),
{
    lemma_idx_in_range(m, p);
    assert(m.visible_seq()[m.spec_idx(p)]);
}

} // verus!
