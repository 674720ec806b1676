//! The player's steps: where a step goes (confusion may send it astray),
//! whether it strikes a monster, and what the player finds on arriving.

use vstd::prelude::*;
use crate::cli::components::{Stats, StatusEffects};
use crate::cli::rules::status_fits;
use crate::cli::traps::{TrapKind, kind_at, spring_trap, trap_at, trap_sprung};
use crate::cli::wands::{say, text1, text3, texts};
use crate::geometry::Point;
use crate::map::{LevelMap, TileKind};
use crate::rng::RogueRng;
use crate::text::{int_text, push_int, push_str};

verus! {

/// The directions a confused step may lurch in, in the order they are drawn.
pub open spec fn lurches() -> Seq<(i32, i32)> {
    seq![
        (-1i32, 0i32), (1i32, 0i32), (0i32, -1i32), (0i32, 1i32), (-1i32, -1i32), (1i32, -1i32), (-1i32, 1i32),
        (1i32, 1i32),
    ]
}

/// Where a step ends.
#[derive(Debug, Clone, Copy, PartialEq, Eq, Structural)]
pub enum StepOutcome {
    /// The player cannot move.
    Paralyzed,
    /// The tile is not walkable: no turn passes.
    Blocked,
    /// The monster with this index stands there and is struck.
    Attack(usize),
    /// The player moves onto this tile.
    Moved(Point),
}

/// What a step in direction `d` from `pos` comes to, once its direction is
/// settled as `dir`: blocked, an attack on the first monster standing there,
/// or a move.
pub open spec fn step_to(m: &LevelMap, monsters: Seq<Point>, pos: Point, dir: (i32, i32), r: StepOutcome) -> bool {
    let dest = Point { x: (pos.x + dir.0) as i32, y: (pos.y + dir.1) as i32 };
    if !m.spec_is_walkable(dest) {
        r == StepOutcome::Blocked
    } else if monsters.contains(dest) {
        exists|i: int| #![trigger monsters[i]] 0 <= i < monsters.len() && monsters[i] == dest && (forall|j: int| 0 <= j < i
            ==> monsters[j] != dest) && r == StepOutcome::Attack(i as usize)
    } else {
        r == StepOutcome::Moved(dest)
    }
}

fn lurch(k: i32) -> (d: (i32, i32))
    requires
        0 <= k < 8,
    ensures
        d == lurches()[k as int],
{
    if k == 0 {
        (-1, 0)
    } else if k == 1 {
        (1, 0)
    } else if k == 2 {
        (0, -1)
    } else if k == 3 {
        (0, 1)
    } else if k == 4 {
        (-1, -1)
    } else if k == 5 {
        (1, -1)
    } else if k == 6 {
        (-1, 1)
    } else {
        (1, 1)
    }
}

/// The index of the first monster standing on `p`.
fn first_at(monsters: &[Point], p: Point) -> (r: Option<usize>)
    ensures
        match r {
            Some(h) => h < monsters@.len() && monsters@[h as int] == p && forall|j: int| 0 <= j < h ==> monsters@[j] != p,
            None => forall|j: int| 0 <= j < monsters@.len() ==> monsters@[j] != p,
        },
{
    let mut i: usize = 0;
    while i < monsters.len()
        invariant
            i <= monsters@.len(),
            forall|j: int| 0 <= j < i ==> monsters@[j] != p,
        decreases monsters@.len() - i,
    {
        if monsters[i] == p {
            return Some(i);
        }
        i = i + 1;
    }
    None
}

/// Try to step from `pos` in direction `d`: a paralyzed player cannot; a
/// confused one lurches in a random direction half the time; a step onto an
/// unwalkable tile is refused; a step onto a monster (`monsters` are their
/// tiles) strikes it.
pub fn try_move<R: RogueRng>(
    status: &StatusEffects,
    d: (i32, i32),
    pos: Point,
    map: &LevelMap,
    monsters: &[Point],
    log: &mut Vec<String>,
    rng: &mut R,
) -> (r: StepOutcome)
    requires
        map.wf(),
        -1 <= d.0 <= 1,
        -1 <= d.1 <= 1,
        i32::MIN < pos.x < i32::MAX,
        i32::MIN < pos.y < i32::MAX,
    ensures
        status.paralyzed > 0 ==> r == StepOutcome::Paralyzed && texts(final(log)@) == texts(old(log)@).push(
            "You are paralyzed!"@),
        status.paralyzed <= 0 ==> texts(final(log)@) == texts(old(log)@) && if status.confused > 0 {
            step_to(map, monsters@, pos, d, r) || exists|k: int| 0 <= k < 8 && #[trigger] step_to(map, monsters@, pos,
                lurches()[k], r)
        } else {
            step_to(map, monsters@, pos, d, r)
        },
{
    if status.paralyzed > 0 {
        say(log, text1("You are paralyzed!"));
        return StepOutcome::Paralyzed;
    }
    let dir = if status.confused > 0 && rng.percent(50) {
        let k = rng.rnd(8);
        lurch(k)
    } else {
        d
    };
    let dest = Point::new(pos.x + dir.0, pos.y + dir.1);
    let ghost st = if status.confused > 0 { true } else { false };
    let r = if !map.is_walkable(dest) {
        StepOutcome::Blocked
    } else {
        match first_at(monsters, dest) {
            Some(h) => {
                assert(monsters@.contains(dest)) by {
                    assert(monsters@[h as int] == dest);
                }
                StepOutcome::Attack(h)
            },
            None => {
                assert(!monsters@.contains(dest));
                StepOutcome::Moved(dest)
            },
        }
    };
    assert(step_to(map, monsters@, pos, dir, r));
    r
}

/// What lies on a tile the player steps onto (beside the tile itself).
#[derive(Debug, Clone)]
pub enum Lying {
    Nothing,
    /// A pile of gold.
    Gold(i32),
    /// An item, by name.
    Item(String),
}

/// The log after announcing what lies on the tile.
pub open spec fn found_texts(log0: Seq<Seq<char>>, lying: Lying) -> Seq<Seq<char>> {
    match lying {
        Lying::Nothing => log0,
        Lying::Gold(g) => log0.push("You found "@ + int_text(g as int) + " gold pieces."@),
        Lying::Item(name) => log0.push("You see "@ + name@ + " here. (press g to pick up)"@),
    }
}

/// What stepping onto `p` does beyond what lies there: a trap springs and is
/// gone; otherwise nothing changes.
pub open spec fn tile_entered(
    p: Point,
    m0: &LevelMap,
    m1: &LevelMap,
    traps: Seq<(Point, TrapKind)>,
    p0: Stats,
    p1: Stats,
    s0: StatusEffects,
    s1: StatusEffects,
    pos0: Point,
    pos1: Point,
    occupied: Seq<Point>,
    log0: Seq<Seq<char>>,
    log1: Seq<Seq<char>>,
    died: bool,
) -> bool {
    if m0.spec_tile(p) == TileKind::Trap {
        &&& exists|k: int| #[trigger] trap_sprung(kind_at(traps, p), k, p0, p1, s0, s1, pos0, pos1, m0, occupied, log0,
            log1, died)
        &&& forall|q: Point| #[trigger] m1.spec_tile(q) == if q == p { TileKind::Floor } else { m0.spec_tile(q) }
        &&& m1.same_except_tiles(*m0)
    } else {
        !died && p1 == p0 && s1 == s0 && pos1 == pos0 && *m1 == *m0 && log1 == log0
    }
}

/// Arrive on tile `p`: gold lying there is picked up at once (`true` is
/// returned first), an item is announced, and a trap springs (see
/// [`spring_trap`], with `traps` giving each trap tile's kind) and is then
/// gone. The second result says whether the player died.
pub fn enter_tile<R: RogueRng>(
    p: Point,
    lying: Lying,
    gold: &mut i32,
    map: &mut LevelMap,
    traps: &[(Point, TrapKind)],
    player: &mut Stats,
    status: &mut StatusEffects,
    pos: &mut Point,
    occupied: &[Point],
    log: &mut Vec<String>,
    rng: &mut R,
) -> (r: (bool, bool))
    requires
        old(map).wf(),
        old(player).hp >= i32::MIN + 6,
        status_fits(*old(status), 8),
        lying matches Lying::Gold(g) ==> i32::MIN <= *old(gold) + g <= i32::MAX,
    ensures
        r.0 == (lying is Gold),
        *final(gold) == match lying {
            Lying::Gold(g) => *old(gold) + g,
            _ => *old(gold) as int,
        },
        tile_entered(p, old(map), final(map), traps@, *old(player), *final(player), *old(status), *final(status),
            *old(pos), *final(pos), occupied@, found_texts(texts(old(log)@), lying), texts(final(log)@), r.1),
{
    let ghost log0 = texts(log@);
    let ghost lying0 = lying;
    let took = match lying {
        Lying::Nothing => false,
        Lying::Gold(g) => {
            *gold = *gold + g;
            let mut m = text1("You found ");
            push_int(&mut m, g as i64);
            push_str(&mut m, " gold pieces.");
            say(log, m);
            true
        },
        Lying::Item(name) => {
            say(log, text3("You see ", &name, " here. (press g to pick up)"));
            false
        },
    };
    let ghost log_found = texts(log@);
    assert(log_found == found_texts(log0, lying0));
    if map.tile(p) == TileKind::Trap {
        let kind = trap_at(traps, p);
        let ghost before = *map;
        let died = spring_trap(kind, player, status, pos, map, occupied, log, rng);
        map.set_tile(p, TileKind::Floor);
        assert(old(map).spec_in_bounds(p));
        assert(lying0 == lying);
        assert(tile_entered(p, old(map), map, traps@, *old(player), *player, *old(status), *status, *old(pos), *pos,
            occupied@, found_texts(texts(old(log)@), lying), texts(log@), died));
        (took, died)
    } else {
        (took, false)
    }
}

} // verus!
