//! Traps: which kind lies on each trap tile of a level, and what springing
//! one does to the player.

use vstd::prelude::*;
use crate::cli::components::{Stats, StatusEffects};
use crate::cli::rules::{apply_status, landing_ok, status_after, status_fits, teleport_target};
use crate::cli::wands::{say, text1, texts};
use crate::geometry::Point;
use crate::map::{LevelMap, TileKind};
use crate::rng::{RogueRng, rnd_outcome, roll_outcome};
use crate::text::{int_text, push_int, push_str};

verus! {

/// The kinds of trap a trap tile can hide.
#[derive(Debug, Clone, Copy, PartialEq, Eq, Structural)]
pub enum TrapKind {
    Pit,
    ArrowTrap,
    TeleportTrap,
    BearTrap,
    PoisonNeedle,
    SleepiGas,
}

/// The trap kind a `rnd(6)` roll of `r` picks.
pub open spec fn trap_kind_of(r: int) -> TrapKind {
    if r == 0 {
        TrapKind::Pit
    } else if r == 1 {
        TrapKind::ArrowTrap
    } else if r == 2 {
        TrapKind::TeleportTrap
    } else if r == 3 {
        TrapKind::BearTrap
    } else if r == 4 {
        TrapKind::PoisonNeedle
    } else {
        TrapKind::SleepiGas
    }
}

/// The trap kind a `rnd(6)` roll picks.
pub fn trap_kind_for(r: i32) -> (k: TrapKind)
    ensures
        k == trap_kind_of(r as int),
{
    if r == 0 {
        TrapKind::Pit
    } else if r == 1 {
        TrapKind::ArrowTrap
    } else if r == 2 {
        TrapKind::TeleportTrap
    } else if r == 3 {
        TrapKind::BearTrap
    } else if r == 4 {
        TrapKind::PoisonNeedle
    } else {
        TrapKind::SleepiGas
    }
}

/// `a` comes before `b` in reading order.
pub open spec fn reads_before(a: Point, b: Point) -> bool {
    a.y < b.y || (a.y == b.y && a.x < b.x)
}

/// `ps` are exactly the trap tiles of the map, in reading order.
pub open spec fn trap_tiles(m: &LevelMap, ps: Seq<Point>) -> bool {
    &&& forall|i: int| 0 <= i < ps.len() ==> m.spec_in_bounds(#[trigger] ps[i]) && m.spec_tile(ps[i]) == TileKind::Trap
    &&& forall|i: int, j: int| 0 <= i < j < ps.len() ==> reads_before(#[trigger] ps[i], #[trigger] ps[j])
    &&& forall|p: Point| m.spec_in_bounds(p) && m.spec_tile(p) == TileKind::Trap ==> ps.contains(p)
}

/// Give every trap tile of the level a random kind, in reading order.
pub fn assign_trap_kinds<R: RogueRng>(map: &LevelMap, rng: &mut R) -> (kinds: Vec<(Point, TrapKind)>)
    requires
        map.wf(),
    ensures
        trap_tiles(map, kinds@.map_values(|e: (Point, TrapKind)| e.0)),
{
    let mut kinds: Vec<(Point, TrapKind)> = Vec::new();
    let mut y: i32 = 0;
    while y < map.height
        invariant
            map.wf(),
            0 <= y <= map.height,
            ({
                let ps = kinds@.map_values(|e: (Point, TrapKind)| e.0);
                &&& forall|i: int| 0 <= i < ps.len() ==> map.spec_in_bounds(#[trigger] ps[i]) && map.spec_tile(ps[i])
                    == TileKind::Trap && ps[i].y < y
                &&& forall|i: int, j: int| 0 <= i < j < ps.len() ==> reads_before(#[trigger] ps[i], #[trigger] ps[j])
                &&& forall|p: Point| map.spec_in_bounds(p) && map.spec_tile(p) == TileKind::Trap && p.y < y ==> ps.contains(p)
            }),
        decreases map.height - y,
    {
        let mut x: i32 = 0;
        while x < map.width
            invariant
                map.wf(),
                0 <= y < map.height,
                0 <= x <= map.width,
                ({
                    let ps = kinds@.map_values(|e: (Point, TrapKind)| e.0);
                    &&& forall|i: int| 0 <= i < ps.len() ==> map.spec_in_bounds(#[trigger] ps[i]) && map.spec_tile(ps[i])
                        == TileKind::Trap && reads_before(ps[i], Point { x: x, y: y })
                    &&& forall|i: int, j: int| 0 <= i < j < ps.len() ==> reads_before(#[trigger] ps[i], #[trigger] ps[j])
                    &&& forall|p: Point| map.spec_in_bounds(p) && map.spec_tile(p) == TileKind::Trap && reads_before(p, Point {
                        x: x,
                        y: y,
                    }) ==> ps.contains(p)
                }),
            decreases map.width - x,
        {
            let p = Point::new(x, y);
            let ghost before = kinds@.map_values(|e: (Point, TrapKind)| e.0);
            if map.tile(p) == TileKind::Trap {
                let r = rng.rnd(6);
                kinds.push((p, trap_kind_for(r)));
                let ghost after = kinds@.map_values(|e: (Point, TrapKind)| e.0);
                assert(after =~= before.push(p));
                assert forall|q: Point| map.spec_in_bounds(q) && map.spec_tile(q) == TileKind::Trap && reads_before(q,
                    Point { x: (x + 1) as i32, y: y }) implies after.contains(q) by {
                    if q == p {
                        assert(after[after.len() - 1] == p);
                    } else {
                        assert(q.x != p.x || q.y != p.y);
                        assert(before.contains(q));
                        let k = choose|k: int| 0 <= k < before.len() && before[k] == q;
                        assert(after[k] == q);
                    }
                }
            } else {
                assert forall|q: Point| map.spec_in_bounds(q) && map.spec_tile(q) == TileKind::Trap && reads_before(q,
                    Point { x: (x + 1) as i32, y: y }) implies before.contains(q) by {
                    assert(q.x != p.x || q.y != p.y);
                }
            }
            x = x + 1;
        }
        y = y + 1;
    }
    kinds
}

/// The kind of the trap at `pos`: the first listed for it, a pit when none is.
pub open spec fn kind_at(kinds: Seq<(Point, TrapKind)>, pos: Point) -> TrapKind
    decreases kinds.len(),
{
    if kinds.len() == 0 {
        TrapKind::Pit
    } else if kinds[0].0 == pos {
        kinds[0].1
    } else {
        kind_at(kinds.drop_first(), pos)
    }
}

/// The kind of the trap at `pos`.
pub fn trap_at(kinds: &[(Point, TrapKind)], pos: Point) -> (k: TrapKind)
    ensures
        k == kind_at(kinds@, pos),
{
    let mut i: usize = 0;
    assert(kinds@.subrange(0, kinds@.len() as int) =~= kinds@);
    while i < kinds.len()
        invariant
            i <= kinds@.len(),
            kind_at(kinds@, pos) == kind_at(kinds@.subrange(i as int, kinds@.len() as int), pos),
        decreases kinds@.len() - i,
    {
        let (p, k) = kinds[i];
        assert(kinds@.subrange(i + 1, kinds@.len() as int) =~= kinds@.subrange(i as int, kinds@.len() as int).drop_first());
        if p == pos {
            return k;
        }
        i = i + 1;
    }
    assert(kinds@.subrange(i as int, kinds@.len() as int).len() == 0);
    TrapKind::Pit
}

/// The message of a pit or arrow trap that does `dmg`.
pub open spec fn hurt_text(kind: TrapKind, dmg: int) -> Seq<char> {
    if kind == TrapKind::Pit {
        "You fall into a pit! (-"@ + int_text(dmg) + " HP)"@
    } else {
        "An arrow springs from the wall! (-"@ + int_text(dmg) + " HP)"@
    }
}

/// The message of being paralyzed for `turns`.
pub open spec fn paralyzed_text(turns: int) -> Seq<char> {
    "You are paralyzed for "@ + int_text(turns) + " turns!"@
}

/// The message of a sleeping trap (bear trap or gas) that holds for `turns`.
pub open spec fn held_text(kind: TrapKind, turns: int) -> Seq<char> {
    if kind == TrapKind::BearTrap {
        "A bear trap snaps shut on your leg! Paralyzed for "@ + int_text(turns) + " turns."@
    } else {
        "Sleeping gas fills the room! You sleep for "@ + int_text(turns) + " turns."@
    }
}

/// What springing a trap of `kind` does, with `r` its roll: `p0`, `s0`,
/// `pos0`, `log0` are the player's stats, status effects, place and log
/// before, the others after; `died` says the player is dead.
pub open spec fn trap_sprung(
    kind: TrapKind,
    r: int,
    p0: Stats,
    p1: Stats,
    s0: StatusEffects,
    s1: StatusEffects,
    pos0: Point,
    pos1: Point,
    m: &LevelMap,
    occupied: Seq<Point>,
    log0: Seq<Seq<char>>,
    log1: Seq<Seq<char>>,
    died: bool,
) -> bool {
    match kind {
        TrapKind::Pit | TrapKind::ArrowTrap => {
            let hp = p0.hp - r;
            &&& roll_outcome(1, 6, r)
            &&& p1 == Stats { hp: hp as i32, ..p0 }
            &&& s1 == s0
            &&& pos1 == pos0
            &&& died == (hp <= 0)
            &&& log1 == if hp <= 0 { log0.push("You die..."@).push(hurt_text(kind, r)) } else { log0.push(hurt_text(kind, r)) }
        },
        TrapKind::TeleportTrap => {
            &&& p1 == p0 && s1 == s0 && !died
            &&& if forall|p: Point| !landing_ok(m, occupied, p) {
                pos1 == pos0 && log1 == log0.push("The air shimmers, but nothing happens."@).push(
                    "A teleportation trap whisks you away!"@)
            } else {
                landing_ok(m, occupied, pos1) && log1 == log0.push("You blink across the dungeon!"@).push(
                    "A teleportation trap whisks you away!"@)
            }
        },
        TrapKind::PoisonNeedle => {
            &&& p1 == p0 && pos1 == pos0 && !died
            &&& s1 == status_after(s0, "poisoned"@, 8)
            &&& log1 == log0.push("You are poisoned!"@).push("A poisoned needle pricks you!"@)
        },
        _ => {
            let turns = 3 + r;
            &&& rnd_outcome(if kind == TrapKind::BearTrap { 3 } else { 4 }, r)
            &&& p1 == p0 && pos1 == pos0 && !died
            &&& s1 == status_after(s0, "paralyzed"@, turns)
            &&& log1 == log0.push(paralyzed_text(turns)).push(held_text(kind, turns))
        },
    }
}

/// The six kinds of trap are equally likely: each comes from exactly one of
/// the six outcomes of `rnd(6)`.
pub proof fn lemma_trap_kinds_even(r1: int, r2: int)
    requires
        0 <= r1 < 6,
        0 <= r2 < 6,
    ensures
        trap_kind_of(r1) == trap_kind_of(r2) ==> r1 == r2,
{
}

/// What each trap does: a pit or an arrow takes 1 to 6 hit points and only
/// these can kill; a teleport trap alone moves the player; a poison needle
/// adds 8 turns of poison; a bear trap holds the player 3 to 5 turns and
/// sleeping gas 3 to 6. No trap touches any other counter.
pub proof fn lemma_trap_effects(
    kind: TrapKind,
    r: int,
    p0: Stats,
    p1: Stats,
    s0: StatusEffects,
    s1: StatusEffects,
    pos0: Point,
    pos1: Point,
    m: &LevelMap,
    occupied: Seq<Point>,
    log0: Seq<Seq<char>>,
    log1: Seq<Seq<char>>,
    died: bool,
)
    requires
        trap_sprung(kind, r, p0, p1, s0, s1, pos0, pos1, m, occupied, log0, log1, died),
        status_fits(s0, 8),
        p0.hp >= i32::MIN + 6,
    ensures
        kind == TrapKind::Pit || kind == TrapKind::ArrowTrap ==> 1 <= p0.hp - p1.hp <= 6 && died == (p1.hp <= 0),
        kind != TrapKind::Pit && kind != TrapKind::ArrowTrap ==> p1.hp == p0.hp && !died,
        kind != TrapKind::TeleportTrap ==> pos1 == pos0,
        s1.poisoned == s0.poisoned + (if kind == TrapKind::PoisonNeedle { 8int } else { 0 }),
        kind == TrapKind::BearTrap ==> s0.paralyzed + 3 <= s1.paralyzed <= s0.paralyzed + 5,
        kind == TrapKind::SleepiGas ==> s0.paralyzed + 3 <= s1.paralyzed <= s0.paralyzed + 6,
        kind != TrapKind::BearTrap && kind != TrapKind::SleepiGas ==> s1.paralyzed == s0.paralyzed,
        s1.confused == s0.confused,
        s1.blind == s0.blind,
        s1.haste == s0.haste,
        s1.poison_tick == s0.poison_tick,
{
    reveal_strlit("poisoned");
    reveal_strlit("paralyzed");
    reveal_strlit("confused");
    reveal_strlit("blind");
    reveal_strlit("haste");
    reveal_strlit("restore");
    assert("confused"@.len() == 8 && "blind"@.len() == 5 && "poisoned"@.len() == 8 && "paralyzed"@.len() == 9
        && "haste"@.len() == 5 && "restore"@.len() == 7);
    assert("confused"@[0] != "poisoned"@[0]);
}

/// A fresh string `a + n + b`.
fn text_num(a: &str, n: i32, b: &str) -> (s: String)
    ensures
        s@ == a@ + int_text(n as int) + b@,
{
    let mut s = text1(a);
    push_int(&mut s, n as i64);
    push_str(&mut s, b);
    s
}

/// Spring a trap of `kind` on the player standing at `pos`: pits and arrows
/// hurt `1d6`, a teleport trap moves the player to a random free walkable tile
/// (the tiles in `occupied` are taken), a poisoned needle poisons for 8 turns,
/// and a bear trap (`3 + rnd(3)` turns) or sleeping gas (`3 + rnd(4)` turns)
/// paralyzes. Returns whether the player died.
pub fn spring_trap<R: RogueRng>(
    kind: TrapKind,
    player: &mut Stats,
    status: &mut StatusEffects,
    pos: &mut Point,
    map: &LevelMap,
    occupied: &[Point],
    log: &mut Vec<String>,
    rng: &mut R,
) -> (died: bool)
    requires
        map.wf(),
        old(player).hp >= i32::MIN + 6,
        status_fits(*old(status), 8),
    ensures
        exists|r: int| #[trigger] trap_sprung(kind, r, *old(player), *final(player), *old(status), *final(status),
            *old(pos), *final(pos), map, occupied@, texts(old(log)@), texts(final(log)@), died),
{
    match kind {
        TrapKind::Pit | TrapKind::ArrowTrap => {
            let dmg = rng.roll(1, 6);
            player.hp = player.hp - dmg;
            let dead = player.hp <= 0;
            if dead {
                say(log, text1("You die..."));
            }
            if kind == TrapKind::Pit {
                say(log, text_num("You fall into a pit! (-", dmg, " HP)"));
            } else {
                say(log, text_num("An arrow springs from the wall! (-", dmg, " HP)"));
            }
            assert(trap_sprung(kind, dmg as int, *old(player), *player, *old(status), *status, *old(pos), *pos, map,
                occupied@, texts(old(log)@), texts(log@), dead));
            dead
        },
        TrapKind::TeleportTrap => {
            match teleport_target(map, occupied, rng) {
                Some(p) => {
                    *pos = p;
                    say(log, text1("You blink across the dungeon!"));
                },
                None => {
                    say(log, text1("The air shimmers, but nothing happens."));
                },
            }
            say(log, text1("A teleportation trap whisks you away!"));
            assert(trap_sprung(kind, 0, *old(player), *player, *old(status), *status, *old(pos), *pos, map,
                occupied@, texts(old(log)@), texts(log@), false));
            false
        },
        TrapKind::BearTrap => {
            let r = rng.rnd(3);
            let dur = 3 + r;
            apply_status(status, "paralyzed", dur);
            say(log, text_num("You are paralyzed for ", dur, " turns!"));
            say(log, text_num("A bear trap snaps shut on your leg! Paralyzed for ", dur, " turns."));
            assert(trap_sprung(kind, r as int, *old(player), *player, *old(status), *status, *old(pos), *pos, map,
                occupied@, texts(old(log)@), texts(log@), false));
            false
        },
        TrapKind::PoisonNeedle => {
            apply_status(status, "poisoned", 8);
            say(log, text1("You are poisoned!"));
            say(log, text1("A poisoned needle pricks you!"));
            assert(trap_sprung(kind, 0, *old(player), *player, *old(status), *status, *old(pos), *pos, map,
                occupied@, texts(old(log)@), texts(log@), false));
            false
        },
        TrapKind::SleepiGas => {
            let r = rng.rnd(4);
            let dur = 3 + r;
            apply_status(status, "paralyzed", dur);
            say(log, text_num("You are paralyzed for ", dur, " turns!"));
            say(log, text_num("Sleeping gas fills the room! You sleep for ", dur, " turns."));
            assert(trap_sprung(kind, r as int, *old(player), *player, *old(status), *status, *old(pos), *pos, map,
                occupied@, texts(old(log)@), texts(log@), false));
            false
        },
    }
}

/// The first floor tile in reading order that no entity stands on.
pub fn first_free_floor(map: &LevelMap, occupied: &[Point]) -> (r: Option<Point>)
    requires
        map.wf(),
    ensures
        match r {
            Some(p) => map.spec_in_bounds(p) && map.spec_tile(p) == TileKind::Floor && !occupied@.contains(p)
                && forall|q: Point| map.spec_in_bounds(q) && map.spec_tile(q) == TileKind::Floor && !occupied@.contains(q)
                    ==> !reads_before(q, p),
            None => forall|q: Point| map.spec_in_bounds(q) ==> map.spec_tile(q) != TileKind::Floor || occupied@.contains(q),
        },
{
    let mut y: i32 = 0;
    while y < map.height
        invariant
            map.wf(),
            0 <= y <= map.height,
            forall|q: Point| map.spec_in_bounds(q) && q.y < y ==> map.spec_tile(q) != TileKind::Floor || occupied@.contains(q),
        decreases map.height - y,
    {
        let mut x: i32 = 0;
        while x < map.width
            invariant
                map.wf(),
                0 <= y < map.height,
                0 <= x <= map.width,
                forall|q: Point| map.spec_in_bounds(q) && reads_before(q, Point { x: x, y: y }) ==> map.spec_tile(q)
                    != TileKind::Floor || occupied@.contains(q),
            decreases map.width - x,
        {
            let p = Point::new(x, y);
            if map.tile(p) == TileKind::Floor && !crate::cli::rules::contains_point(occupied, p) {
                return Some(p);
            }
            assert forall|q: Point| map.spec_in_bounds(q) && reads_before(q, Point { x: (x + 1) as i32, y: y }) implies map.spec_tile(q)
                != TileKind::Floor || occupied@.contains(q) by {
                if q.x == x && q.y == y {
                    assert(q == p);
                }
            }
            x = x + 1;
        }
        y = y + 1;
    }
    None
}

/// A floor tile of the map that no entity stands on.
pub open spec fn free_floor(map: &LevelMap, occupied: Seq<Point>, q: Point) -> bool {
    map.spec_in_bounds(q) && map.spec_tile(q) == TileKind::Floor && !occupied.contains(q)
}

/// `p` is where the Amulet goes: the first free floor tile in reading order,
/// else the stairs down, else where the player starts.
pub open spec fn amulet_place(map: &LevelMap, occupied: Seq<Point>, p: Point) -> bool {
    if exists|q: Point| free_floor(map, occupied, q) {
        free_floor(map, occupied, p) && forall|q: Point| free_floor(map, occupied, q) ==> !reads_before(q, p)
    } else {
        p == match map.stairs_down {
            Some(s) => s,
            None => map.player_start,
        }
    }
}

/// Where the Amulet of Yendor is put on a level at `depth`: only on the
/// Amulet's level or deeper, on the first free floor tile in reading order,
/// else on the stairs down, else where the player starts.
pub fn amulet_spot(map: &LevelMap, occupied: &[Point], depth: i32, amulet_level: i32) -> (r: Option<Point>)
    requires
        map.wf(),
    ensures
        (r is None) == (depth < amulet_level),
        r matches Some(p) ==> amulet_place(map, occupied@, p),
{
    if depth < amulet_level {
        return None;
    }
    match first_free_floor(map, occupied) {
        Some(p) => {
            assert(free_floor(map, occupied@, p));
            Some(p)
        },
        None => {
            assert(!exists|q: Point| free_floor(map, occupied@, q));
            match map.stairs_down {
                Some(s) => Some(s),
                None => Some(map.player_start),
            }
        },
    }
}

} // verus!
