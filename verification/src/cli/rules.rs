//! Turn rules of the terminal game, on plain values: sight, rings, status
//! effects, experience, regeneration, monster specials and monster movement.

use vstd::prelude::*;
use crate::cli::components::{MonsterSpecial, PotionKind, RingKind, Stats, StatusEffects};
use crate::geometry::Point;
use crate::map::LevelMap;
use crate::rng::{RogueRng, roll_outcome};
use crate::text::{chars_equal, chars_of};
use crate::cli::wands::{say, text1, texts};
use vstd::arithmetic::power2::{lemma2_to64, lemma_pow2_pos, lemma_pow2_strictly_increases, lemma_pow2_unfold, pow2};

verus! {

/// How far the player sees: 1 when blind, 7 with a ring of searching, else 5.
pub fn sight_radius(blind: bool, searching: bool) -> (r: i32)
    ensures
        r == (if blind { 1int } else if searching { 7int } else { 5int }),
{
    if blind {
        1
    } else if searching {
        7
    } else {
        5
    }
}

/// Number of hands wearing a ring of `kind`.
pub open spec fn rings_of(left: Option<RingKind>, right: Option<RingKind>, kind: RingKind) -> int {
    (if left == Some(kind) { 1int } else { 0int }) + (if right == Some(kind) { 1int } else { 0int })
}

/// The bonus worn rings of `kind` give: one per hand wearing one.
pub fn ring_bonus(left: Option<RingKind>, right: Option<RingKind>, kind: RingKind) -> (n: i32)
    ensures
        n == rings_of(left, right, kind),
{
    let mut n: i32 = 0;
    if let Some(k) = left {
        if k == kind {
            n = n + 1;
        }
    }
    if let Some(k) = right {
        if k == kind {
            n = n + 1;
        }
    }
    n
}

/// A hand a ring is worn on.
#[derive(Debug, Clone, Copy, PartialEq, Eq, Structural)]
pub enum Hand {
    Left,
    Right,
}

/// The hand a new ring goes on: the left if free, else the right if free.
pub fn free_hand(left: Option<RingKind>, right: Option<RingKind>) -> (h: Option<Hand>)
    ensures
        h == (if left is None {
            Some(Hand::Left)
        } else if right is None {
            Some(Hand::Right)
        } else {
            None
        }),
{
    if left.is_none() {
        Some(Hand::Left)
    } else if right.is_none() {
        Some(Hand::Right)
    } else {
        None
    }
}

/// The hand a ring comes off: the left if it wears one, else the right.
pub fn ring_to_remove(left: Option<RingKind>, right: Option<RingKind>) -> (h: Option<(Hand, RingKind)>)
    ensures
        h == (match left {
            Some(k) => Some((Hand::Left, k)),
            None => match right {
                Some(k) => Some((Hand::Right, k)),
                None => None,
            },
        }),
{
    match left {
        Some(k) => Some((Hand::Left, k)),
        None => match right {
            Some(k) => Some((Hand::Right, k)),
            None => None,
        },
    }
}

/// The effect a status name denotes and what it does to the effects.
pub open spec fn status_after(s: StatusEffects, effect: Seq<char>, duration: int) -> StatusEffects {
    if effect == "confused"@ {
        StatusEffects { confused: (s.confused + duration) as i32, ..s }
    } else if effect == "blind"@ {
        StatusEffects { blind: (s.blind + duration) as i32, ..s }
    } else if effect == "poisoned"@ {
        StatusEffects { poisoned: (s.poisoned + duration) as i32, ..s }
    } else if effect == "paralyzed"@ {
        StatusEffects { paralyzed: (s.paralyzed + duration) as i32, ..s }
    } else if effect == "haste"@ {
        StatusEffects { haste: (s.haste + duration) as i32, ..s }
    } else if effect == "restore"@ {
        StatusEffects { poisoned: 0, ..s }
    } else {
        s
    }
}

/// Durations stack without leaving `i32`.
pub open spec fn status_fits(s: StatusEffects, duration: int) -> bool {
    &&& i32::MIN <= s.confused + duration <= i32::MAX
    &&& i32::MIN <= s.blind + duration <= i32::MAX
    &&& i32::MIN <= s.poisoned + duration <= i32::MAX
    &&& i32::MIN <= s.paralyzed + duration <= i32::MAX
    &&& i32::MIN <= s.haste + duration <= i32::MAX
}

/// Apply a status effect by name, stacking its duration; `"restore"` cures
/// poison and unknown names do nothing.
pub fn apply_status(status: &mut StatusEffects, effect: &str, duration: i32)
    requires
        status_fits(*old(status), duration as int),
    ensures
        *final(status) == status_after(*old(status), effect@, duration as int),
{
    let e = chars_of(effect);
    if chars_equal(&e, "confused") {
        status.confused = status.confused + duration;
    } else if chars_equal(&e, "blind") {
        status.blind = status.blind + duration;
    } else if chars_equal(&e, "poisoned") {
        status.poisoned = status.poisoned + duration;
    } else if chars_equal(&e, "paralyzed") {
        status.paralyzed = status.paralyzed + duration;
    } else if chars_equal(&e, "haste") {
        status.haste = status.haste + duration;
    } else if chars_equal(&e, "restore") {
        status.poisoned = 0;
    }
}

/// One turn of a countdown: down by one while positive.
pub open spec fn count_down(v: i32) -> i32 {
    if v > 0 { (v - 1) as i32 } else { v }
}

/// Status effects and strength after one turn: timed effects count down, and
/// every third poisoned turn drains a point of strength (never below 1) and
/// shortens the poison by one.
pub open spec fn tick_after(s: StatusEffects, strength: int) -> (StatusEffects, int) {
    let base = StatusEffects {
        confused: count_down(s.confused),
        blind: count_down(s.blind),
        paralyzed: count_down(s.paralyzed),
        haste: count_down(s.haste),
        ..s
    };
    if s.poisoned > 0 {
        let t = s.poison_tick + 1;
        if t >= 3 {
            (StatusEffects { poison_tick: 0, poisoned: (s.poisoned - 1) as i32, ..base }, if strength > 1 { strength - 1 } else { strength })
        } else {
            (StatusEffects { poison_tick: t as i32, ..base }, strength)
        }
    } else {
        (base, strength)
    }
}

/// Status effects and strength after `n` turns with nothing new inflicted.
pub open spec fn ticked(s: StatusEffects, strength: int, n: nat) -> (StatusEffects, int)
    decreases n,
{
    if n == 0 {
        (s, strength)
    } else {
        let (s1, st1) = tick_after(s, strength);
        ticked(s1, st1, (n - 1) as nat)
    }
}

/// A countdown at `v` after `n` turns: down by `n`, but not past 0.
pub open spec fn worn(v: int, n: int) -> int {
    if v > 0 {
        if v - n > 0 { v - n } else { 0 }
    } else {
        v
    }
}

/// Timed effects wear off: after `n` turns with nothing new inflicted,
/// confusion, blindness, paralysis and haste have each run down by `n` turns
/// (stopping at 0), poison has not grown, and the poison's drain never takes
/// strength below 1 nor ever raises it.
pub proof fn lemma_effects_wear_off(s: StatusEffects, strength: int, n: nat)
    ensures
        ({
            let (s1, st1) = ticked(s, strength, n);
            &&& s1.confused == worn(s.confused as int, n as int)
            &&& s1.blind == worn(s.blind as int, n as int)
            &&& s1.paralyzed == worn(s.paralyzed as int, n as int)
            &&& s1.haste == worn(s.haste as int, n as int)
            &&& s1.poisoned <= s.poisoned
            &&& s.poisoned <= 0 ==> s1.poisoned == s.poisoned
            &&& s1.poisoned >= (if s.poisoned > 0 { 0 } else { s.poisoned as int })
            &&& st1 <= strength
            &&& strength >= 1 ==> st1 >= 1
        }),
    decreases n,
{
    if n > 0 {
        let (s1, st1) = tick_after(s, strength);
        lemma_effects_wear_off(s1, st1, (n - 1) as nat);
    }
}

/// Advance all active status effects by one turn (end of each player turn).
#[verifier::rlimit(60)]
#[verifier::spinoff_prover]
pub fn tick_status_effects(status: &mut StatusEffects, strength: &mut i32, log: &mut Vec<String>)
    requires
        old(status).poisoned > 0 ==> old(status).poison_tick < i32::MAX,
    ensures
        (*final(status), *final(strength) as int) == tick_after(*old(status), *old(strength) as int),
        texts(final(log)@) == texts(old(log)@) + tick_notes(*old(status), *old(strength) as int),
{
    let ghost s0 = *status;
    let ghost l0 = texts(log@);
    if status.confused > 0 {
        status.confused = status.confused - 1;
        if status.confused == 0 {
            say(log, text1("You feel less confused."));
        }
    }
    assert(texts(log@) =~= l0 + note_if(s0.confused == 1, "You feel less confused."@));
    let ghost l1 = texts(log@);
    if status.blind > 0 {
        status.blind = status.blind - 1;
        if status.blind == 0 {
            say(log, text1("Your vision clears."));
        }
    }
    assert(texts(log@) =~= l1 + note_if(s0.blind == 1, "Your vision clears."@));
    let ghost l2 = texts(log@);
    if status.paralyzed > 0 {
        status.paralyzed = status.paralyzed - 1;
        if status.paralyzed == 0 {
            say(log, text1("You can move again."));
        }
    }
    assert(texts(log@) =~= l2 + note_if(s0.paralyzed == 1, "You can move again."@));
    let ghost l3 = texts(log@);
    if status.haste > 0 {
        status.haste = status.haste - 1;
        if status.haste == 0 {
            say(log, text1("You slow back down."));
        }
    }
    assert(texts(log@) =~= l3 + note_if(s0.haste == 1, "You slow back down."@));
    let ghost l4 = texts(log@);
    if status.poisoned > 0 {
        status.poison_tick = status.poison_tick + 1;
        if status.poison_tick >= 3 {
            status.poison_tick = 0;
            if *strength > 1 {
                *strength = *strength - 1;
                say(log, text1("The poison saps your strength!"));
            }
            status.poisoned = status.poisoned - 1;
        }
    }
    assert(texts(log@) =~= l4 + note_if(s0.poisoned > 0 && s0.poison_tick + 1 >= 3 && *old(strength) > 1,
        "The poison saps your strength!"@));
    assert(texts(log@) =~= l0 + tick_notes(s0, *old(strength) as int));
}

/// `msg` alone when `c` holds, else nothing.
pub open spec fn note_if(c: bool, msg: Seq<char>) -> Seq<Seq<char>> {
    if c {
        seq![msg]
    } else {
        Seq::empty()
    }
}

/// What a status tick logs: each effect that wears off, and strength the
/// poison drains.
pub open spec fn tick_notes(s: StatusEffects, strength: int) -> Seq<Seq<char>> {
    note_if(s.confused == 1, "You feel less confused."@) + note_if(s.blind == 1, "Your vision clears."@) + note_if(
        s.paralyzed == 1,
        "You can move again."@,
    ) + note_if(s.haste == 1, "You slow back down."@) + note_if(
        s.poisoned > 0 && s.poison_tick + 1 >= 3 && strength > 1,
        "The poison saps your strength!"@,
    )
}

/// Levels gained past the first for `total` experience, with the next
/// threshold at `need` (thresholds double: 10, 20, 40, ...).
pub open spec fn levels_from(total: int, need: int) -> int
    decreases (if need > 0 && total >= need { total - need + 1 } else { 0 }),
{
    if need > 0 && total >= need {
        1 + levels_from(total, need * 2)
    } else {
        0
    }
}

/// The experience level for a total: level 2 at 10, level 3 at 20, level 4 at 40, ...
pub open spec fn level_for_xp(total: int) -> int {
    1 + levels_from(total, 10)
}

/// No threshold takes levels away.
proof fn lemma_levels_nonneg(total: int, need: int)
    ensures
        levels_from(total, need) >= 0,
    decreases (if need > 0 && total >= need { total - need + 1 } else { 0 }),
{
    if need > 0 && total >= need {
        lemma_levels_nonneg(total, need * 2);
    }
}

/// Past a threshold of `need`, at least `n + 1` levels are gained exactly
/// when `total` reaches `need` doubled `n` times.
proof fn lemma_levels_from(total: int, need: int, n: nat)
    requires
        need > 0,
    ensures
        (levels_from(total, need) >= n + 1) == (total >= need * pow2(n)),
    decreases n,
{
    lemma_pow2_pos(n);
    assert(need * pow2(n) >= need) by (nonlinear_arith)
        requires need > 0, pow2(n) > 0;
    if total >= need {
        assert(levels_from(total, need) == 1 + levels_from(total, need * 2));
    } else {
        assert(levels_from(total, need) == 0);
    }
    if n == 0 {
        lemma2_to64();
        assert(need * pow2(0) == need) by (nonlinear_arith)
            requires pow2(0) == 1;
        lemma_levels_nonneg(total, need * 2);
    } else {
        lemma_levels_from(total, need * 2, (n - 1) as nat);
        lemma_pow2_unfold(n);
        assert(need * 2 * pow2((n - 1) as nat) == need * pow2(n)) by (nonlinear_arith)
            requires pow2(n) == 2 * pow2((n - 1) as nat);
    }
}

/// Experience levels double their thresholds: a total under 10 is level 1,
/// and level `n + 2` is reached exactly at `10 * 2^n` points (10 for level 2,
/// 20 for level 3, 40 for level 4, ...).
pub proof fn lemma_level_thresholds(total: int, n: nat)
    ensures
        total < 10 ==> level_for_xp(total) == 1,
        (level_for_xp(total) >= n + 2) == (total >= 10 * pow2(n)),
{
    lemma_levels_from(total, 10, n);
}

/// The experience level reached with `total` experience points.
pub fn xp_level(total: i32) -> (lvl: i32)
    requires
        total < 1342177280,
    ensures
        lvl == level_for_xp(total as int),
{
    let mut lvl: i32 = 1;
    let mut need: i32 = 10;
    let ghost mut k: int = 0;
    proof {
        lemma2_to64();
    }
    while total >= need
        invariant
            total < 1342177280,
            10 <= need <= 1342177280,
            1 <= lvl <= 28,
            need == 10 * pow2(k as nat),
            0 <= k <= 27,
            lvl == k + 1,
            level_for_xp(total as int) == lvl + levels_from(total as int, need as int),
        decreases 1342177280 - need,
    {
        proof {
            lemma2_to64();
            lemma_pow2_unfold((k + 1) as nat);
            assert(k < 27);
            if k + 1 < 27 {
                lemma_pow2_strictly_increases((k + 1) as nat, 27);
            }
            assert(levels_from(total as int, need as int) == 1 + levels_from(total as int, need * 2));
        }
        lvl = lvl + 1;
        need = need * 2;
        proof {
            k = k + 1;
        }
    }
    lvl
}

/// Turns between natural regeneration ticks: `max(21 - 2 * level, 3)`, halved
/// (at least 1) with a ring of regeneration.
pub open spec fn regen_period_for(level: int, regen_ring: bool) -> int {
    let p = if 21 - level * 2 >= 3 { 21 - level * 2 } else { 3 };
    if regen_ring {
        if p / 2 >= 1 { p / 2 } else { 1 }
    } else {
        p
    }
}

/// Regeneration never stalls and never slows as the player rises: the period
/// is at least 1, at most 3 from level 9 up, never longer at a higher
/// level, and a ring of regeneration never lengthens it.
pub proof fn lemma_regen_faster(l1: int, l2: int, ring: bool)
    requires
        l1 <= l2,
    ensures
        regen_period_for(l2, ring) >= 1,
        regen_period_for(l2, ring) <= regen_period_for(l1, ring),
        regen_period_for(l1, true) <= regen_period_for(l1, false),
        l2 >= 9 ==> regen_period_for(l2, ring) <= 3,
{
}

pub fn regen_period(level: i32, regen_ring: bool) -> (p: i32)
    requires
        -0x3fff_fff0 <= level <= 0x3fff_fff0,
    ensures
        p == regen_period_for(level as int, regen_ring),
{
    let period = if 21 - level * 2 >= 3 { 21 - level * 2 } else { 3 };
    if regen_ring {
        if period / 2 >= 1 { period / 2 } else { 1 }
    } else {
        period
    }
}

/// What a monster's special attack does to the player it hits.
pub open spec fn special_applied(
    special: MonsterSpecial,
    s: StatusEffects,
    level: int,
    strength: int,
    gold: int,
) -> (StatusEffects, int, int, int) {
    match special {
        MonsterSpecial::Ordinary => (s, level, strength, gold),
        MonsterSpecial::Poison => (status_after(s, "poisoned"@, 10), level, strength, gold),
        MonsterSpecial::Confuse => (status_after(s, "confused"@, 20), level, strength, gold),
        MonsterSpecial::Paralyze => (status_after(s, "paralyzed"@, 10), level, strength, gold),
        MonsterSpecial::Blind => (status_after(s, "blind"@, 30), level, strength, gold),
        MonsterSpecial::DrainLevel => (s, if level - 1 >= 1 { level - 1 } else { 1 }, strength, gold),
        MonsterSpecial::DrainStrength => (s, level, if strength - 1 >= 1 { strength - 1 } else { 1 }, gold),
        MonsterSpecial::StealGold => (s, level, strength, 0),
    }
}

/// Apply the special attack of a monster that hit the player: a status effect,
/// a drained level or point of strength (never below 1), or all gold stolen.
pub fn apply_monster_special(special: MonsterSpecial, status: &mut StatusEffects, player: &mut Stats, gold: &mut i32)
    requires
        status_fits(*old(status), 30),
        old(player).level > i32::MIN,
        old(player).strength > i32::MIN,
    ensures
        (*final(status), final(player).level as int, final(player).strength as int, *final(gold) as int)
            == special_applied(special, *old(status), old(player).level as int, old(player).strength as int, *old(gold) as int),
        final(player).hp == old(player).hp,
        final(player).max_hp == old(player).max_hp,
        final(player).armor == old(player).armor,
        final(player).damage == old(player).damage,
        final(player).hit_plus == old(player).hit_plus,
        final(player).dam_plus == old(player).dam_plus,
        final(player).xp_reward == old(player).xp_reward,
{
    match special {
        MonsterSpecial::Ordinary => {},
        MonsterSpecial::Poison => apply_status(status, "poisoned", 10),
        MonsterSpecial::Confuse => apply_status(status, "confused", 20),
        MonsterSpecial::Paralyze => apply_status(status, "paralyzed", 10),
        MonsterSpecial::Blind => apply_status(status, "blind", 30),
        MonsterSpecial::DrainLevel => {
            player.level = if player.level - 1 >= 1 { player.level - 1 } else { 1 };
        },
        MonsterSpecial::DrainStrength => {
            player.strength = if player.strength - 1 >= 1 { player.strength - 1 } else { 1 };
        },
        MonsterSpecial::StealGold => {
            *gold = 0;
        },
    }
}

/// What each special attack does: poison adds 10 turns of poison, confusion
/// 20 turns of confusion, paralysis 10 turns, blinding 30 turns, each touching
/// its own counter alone; a level or a point of strength is drained only by
/// its own attack and never below 1, and only the thief takes the gold, all
/// of it. An ordinary hit changes nothing of these.
pub proof fn lemma_special_effects(special: MonsterSpecial, s: StatusEffects, level: int, strength: int, gold: int)
    requires
        status_fits(s, 30),
    ensures
        ({
            let (s1, lvl, str, g) = special_applied(special, s, level, strength, gold);
            &&& s1.confused == s.confused + (if special == MonsterSpecial::Confuse { 20int } else { 0 })
            &&& s1.poisoned == s.poisoned + (if special == MonsterSpecial::Poison { 10int } else { 0 })
            &&& s1.paralyzed == s.paralyzed + (if special == MonsterSpecial::Paralyze { 10int } else { 0 })
            &&& s1.blind == s.blind + (if special == MonsterSpecial::Blind { 30int } else { 0 })
            &&& s1.haste == s.haste
            &&& s1.poison_tick == s.poison_tick
            &&& lvl == (if special == MonsterSpecial::DrainLevel { if level > 1 { level - 1 } else { 1 } } else { level })
            &&& str == (if special == MonsterSpecial::DrainStrength { if strength > 1 { strength - 1 } else { 1 } } else { strength })
            &&& g == (if special == MonsterSpecial::StealGold { 0 } else { gold })
        }),
{
    reveal_strlit("confused");
    reveal_strlit("blind");
    reveal_strlit("poisoned");
    reveal_strlit("paralyzed");
    assert("confused"@.len() == 8 && "blind"@.len() == 5 && "poisoned"@.len() == 8 && "paralyzed"@.len() == 9);
    assert("confused"@[0] != "poisoned"@[0]);
}

/// The window of the difficulty-sorted monster list a depth draws from: from
/// five below to two above the depth's own slot, inside the list.
pub open spec fn monster_window(n: int, depth: int) -> (int, int) {
    let c0 = depth - 1;
    let centre = if c0 < 0 { 0 } else if c0 > n - 1 { n - 1 } else { c0 };
    let lo = if centre - 5 >= 0 { centre - 5 } else { 0 };
    let hi = if centre + 2 <= n - 1 { centre + 2 } else { n - 1 };
    (lo, hi)
}

/// The window of monsters a depth draws from lies inside the list, is never
/// empty, spans at most eight monsters, holds the depth's own slot when the
/// list reaches that deep, and only moves toward harder monsters as the
/// depth grows.
pub proof fn lemma_monster_window(n: int, d1: int, d2: int)
    requires
        n >= 1,
        d1 <= d2,
    ensures
        0 <= monster_window(n, d1).0 <= monster_window(n, d1).1 <= n - 1,
        monster_window(n, d1).1 - monster_window(n, d1).0 <= 7,
        1 <= d1 <= n ==> monster_window(n, d1).0 <= d1 - 1 <= monster_window(n, d1).1,
        monster_window(n, d1).0 <= monster_window(n, d2).0,
        monster_window(n, d1).1 <= monster_window(n, d2).1,
{
}

/// Choose a depth-appropriate archetype from the list sorted easiest first.
pub fn pick_monster_for_depth<R: RogueRng>(order: &[usize], depth: i32, rng: &mut R) -> (m: usize)
    requires
        1 <= order@.len() <= i32::MAX - 2,
        depth > i32::MIN,
    ensures
        exists|k: int| monster_window(order@.len() as int, depth as int).0 <= k <= monster_window(order@.len() as int, depth as int).1
            && m == order@[k],
{
    let n = order.len() as i32;
    let c0 = depth - 1;
    let centre = if c0 < 0 { 0 } else if c0 > n - 1 { n - 1 } else { c0 };
    let lo = if centre - 5 >= 0 { centre - 5 } else { 0 };
    let hi = if centre + 2 <= n - 1 { centre + 2 } else { n - 1 };
    let pick = lo + rng.rnd(hi - lo + 1);
    order[pick as usize]
}

/// The eight neighbours in the order monsters consider them.
pub open spec fn scan_offset(i: int) -> (int, int) {
    let dy = i / 3 - 1;
    let dx = i % 3 - 1;
    (dx, dy)
}

/// A step onto `np` is open: walkable, and free unless it is the target itself.
pub open spec fn step_open(m: &LevelMap, blocked: Seq<Point>, to: Point, np: Point) -> bool {
    m.spec_is_walkable(np) && (np == to || !blocked.contains(np))
}

/// The best step among the first `i` scan positions: the first open one
/// closest (Chebyshev) to `to`.
pub open spec fn best_step(m: &LevelMap, blocked: Seq<Point>, from: Point, to: Point, i: int) -> Option<(int, Point)>
    decreases i,
{
    if i <= 0 {
        None
    } else {
        let prev = best_step(m, blocked, from, to, i - 1);
        let (dx, dy) = scan_offset(i - 1);
        let np = Point { x: (from.x + dx) as i32, y: (from.y + dy) as i32 };
        if (dx == 0 && dy == 0) || !step_open(m, blocked, to, np) {
            prev
        } else {
            let d = np.spec_chebyshev(to);
            match prev {
                Some((bd, _)) => if d < bd { Some((d, np)) } else { prev },
                None => Some((d, np)),
            }
        }
    }
}

/// Greedy monster step: the open neighbour of `from` closest to `to`
/// (Chebyshev distance, first found on ties), avoiding `blocked` cells other
/// than `to` itself.
pub fn step_toward(map: &LevelMap, blocked: &[Point], from: Point, to: Point) -> (r: Option<Point>)
    requires
        map.wf(),
        i32::MIN < from.x < i32::MAX,
        i32::MIN < from.y < i32::MAX,
        -0x3fff_ffff <= to.x <= 0x3fff_ffff,
        -0x3fff_ffff <= to.y <= 0x3fff_ffff,
        -0x3fff_ffff <= from.x <= 0x3fff_ffff,
        -0x3fff_ffff <= from.y <= 0x3fff_ffff,
    ensures
        r == (match best_step(map, blocked@, from, to, 9) {
            Some((_, p)) => Some(p),
            None => None,
        }),
{
    let mut best: Option<(i32, Point)> = None;
    let mut i: usize = 0;
    while i < 9
        invariant
            map.wf(),
            i <= 9,
            -0x3fff_ffff <= to.x <= 0x3fff_ffff,
            -0x3fff_ffff <= to.y <= 0x3fff_ffff,
            -0x3fff_ffff <= from.x <= 0x3fff_ffff,
            -0x3fff_ffff <= from.y <= 0x3fff_ffff,
            match best_step(map, blocked@, from, to, i as int) {
                Some((d, p)) => best matches Some((bd, bp)) && bd as int == d && bp == p,
                None => best is None,
            },
        decreases 9 - i,
    {
        let dy: i32 = (i / 3) as i32 - 1;
        let dx: i32 = (i % 3) as i32 - 1;
        assert(scan_offset(i as int) == (dx as int, dy as int));
        if !(dx == 0 && dy == 0) {
            let np = Point::new(from.x + dx, from.y + dy);
            if map.is_walkable(np) && (np == to || !contains_point(blocked, np)) {
                let dist = np.chebyshev(to);
                let better = match best {
                    Some((d, _)) => dist < d,
                    None => true,
                };
                if better {
                    best = Some((dist, np));
                }
            }
        }
        i = i + 1;
    }
    match best {
        Some((_, p)) => Some(p),
        None => None,
    }
}

/// Does the list hold `p`?
pub(crate) fn contains_point(v: &[Point], p: Point) -> (b: bool)
    ensures
        b == v@.contains(p),
{
    let mut i: usize = 0;
    while i < v.len()
        invariant
            i <= v@.len(),
            forall|j: int| 0 <= j < i ==> v@[j] != p,
        decreases v@.len() - i,
    {
        if v[i] == p {
            assert(v@[i as int] == p);
            return true;
        }
        i = i + 1;
    }
    false
}

/// The dice a potion rolls: 2d8 for healing, 3d8 for extra healing, none otherwise.
pub open spec fn potion_roll_ok(kind: PotionKind, r: int) -> bool {
    match kind {
        PotionKind::Healing => roll_outcome(2, 8, r),
        PotionKind::ExtraHealing => roll_outcome(3, 8, r),
        _ => r == 0,
    }
}

/// Hit points after healing `amount`, capped at the maximum.
pub open spec fn healed(hp: int, max_hp: int, amount: int) -> int {
    if hp + amount <= max_hp { hp + amount } else { max_hp }
}

/// What quaffing a potion does, given its dice roll `r`: status effects, level,
/// strength and hit points afterwards.
pub open spec fn potion_applied(kind: PotionKind, s: StatusEffects, p: Stats, r: int) -> (StatusEffects, int, int, int) {
    match kind {
        PotionKind::Healing => (s, p.level as int, p.strength as int, healed(p.hp as int, p.max_hp as int, r + 2)),
        PotionKind::ExtraHealing => (s, p.level as int, p.strength as int, healed(p.hp as int, p.max_hp as int, r + 6)),
        PotionKind::Poison => (status_after(s, "poisoned"@, 10), p.level as int, p.strength as int, p.hp as int),
        PotionKind::GainStrength => (s, p.level as int, p.strength + 1, p.hp as int),
        PotionKind::RestoreStrength => (status_after(s, "restore"@, 1), p.level as int, p.strength as int, p.hp as int),
        PotionKind::SeeInvisible => (status_after(s, "haste"@, 1), p.level as int, p.strength as int, p.hp as int),
        PotionKind::Confusion => (status_after(s, "confused"@, 20), p.level as int, p.strength as int, p.hp as int),
        PotionKind::Blindness => (status_after(s, "blind"@, 30), p.level as int, p.strength as int, p.hp as int),
        PotionKind::HasteSelf => (status_after(s, "haste"@, 20), p.level as int, p.strength as int, p.hp as int),
        PotionKind::RaiseLevel => (s, p.level + 1, p.strength as int, p.hp as int),
        _ => (s, p.level as int, p.strength as int, p.hp as int),
    }
}

/// What each status counter gains from a potion: only poison, see invisible,
/// confusion, blindness and haste self touch the counters, each only its
/// own (see invisible quickens for a turn), and a potion of restore strength
/// cures poison; hit points change only by healing, strength only by gain
/// strength, the level only by raise level.
pub proof fn lemma_potion_effects(kind: PotionKind, s: StatusEffects, p: Stats, r: int)
    requires
        status_fits(s, 30),
    ensures
        ({
            let (s1, lvl, str, hp) = potion_applied(kind, s, p, r);
            &&& s1.confused == s.confused + (if kind == PotionKind::Confusion { 20int } else { 0 })
            &&& s1.blind == s.blind + (if kind == PotionKind::Blindness { 30int } else { 0 })
            &&& s1.paralyzed == s.paralyzed
            &&& s1.haste == s.haste + (if kind == PotionKind::HasteSelf { 20int } else if kind
                == PotionKind::SeeInvisible { 1int } else { 0 })
            &&& s1.poisoned == (if kind == PotionKind::Poison { s.poisoned + 10 } else if kind
                == PotionKind::RestoreStrength { 0 } else { s.poisoned as int })
            &&& s1.poison_tick == s.poison_tick
            &&& lvl == p.level + (if kind == PotionKind::RaiseLevel { 1int } else { 0 })
            &&& str == p.strength + (if kind == PotionKind::GainStrength { 1int } else { 0 })
            &&& hp == (if kind == PotionKind::Healing { healed(p.hp as int, p.max_hp as int, r + 2) } else if kind
                == PotionKind::ExtraHealing { healed(p.hp as int, p.max_hp as int, r + 6) } else { p.hp as int })
        }),
{
    reveal_strlit("confused");
    reveal_strlit("blind");
    reveal_strlit("poisoned");
    reveal_strlit("paralyzed");
    reveal_strlit("haste");
    reveal_strlit("restore");
    assert("confused"@.len() == 8 && "blind"@.len() == 5 && "poisoned"@.len() == 8 && "paralyzed"@.len() == 9
        && "haste"@.len() == 5 && "restore"@.len() == 7);
    assert("blind"@[0] != "haste"@[0]);
    assert("confused"@[0] != "poisoned"@[0]);
}

/// Apply the effect of a quaffed potion to the player.
pub fn apply_potion<R: RogueRng>(kind: PotionKind, status: &mut StatusEffects, player: &mut Stats, rng: &mut R)
    requires
        status_fits(*old(status), 30),
        old(player).hp <= i32::MAX - 30,
        old(player).strength < i32::MAX,
        old(player).level < i32::MAX,
    ensures
        exists|r: int| potion_roll_ok(kind, r) && (*final(status), final(player).level as int, final(player).strength as int,
            final(player).hp as int) == potion_applied(kind, *old(status), *old(player), r),
        final(player).max_hp == old(player).max_hp,
        final(player).armor == old(player).armor,
        final(player).damage == old(player).damage,
        final(player).hit_plus == old(player).hit_plus,
        final(player).dam_plus == old(player).dam_plus,
        final(player).xp_reward == old(player).xp_reward,
{
    let ghost mut used: int = 0;
    match kind {
        PotionKind::Healing => {
            let r = rng.roll(2, 8);
            let heal = r + 2;
            player.hp = if player.hp + heal <= player.max_hp { player.hp + heal } else { player.max_hp };
            proof {
                used = r as int;
            }
        },
        PotionKind::ExtraHealing => {
            let r = rng.roll(3, 8);
            let heal = r + 6;
            player.hp = if player.hp + heal <= player.max_hp { player.hp + heal } else { player.max_hp };
            proof {
                used = r as int;
            }
        },
        PotionKind::Poison => apply_status(status, "poisoned", 10),
        PotionKind::GainStrength => {
            player.strength = player.strength + 1;
        },
        PotionKind::RestoreStrength => apply_status(status, "restore", 1),
        PotionKind::SeeInvisible => apply_status(status, "haste", 1),
        PotionKind::Confusion => apply_status(status, "confused", 20),
        PotionKind::Blindness => apply_status(status, "blind", 30),
        PotionKind::HasteSelf => apply_status(status, "haste", 20),
        PotionKind::RaiseLevel => {
            player.level = player.level + 1;
        },
        _ => {},
    }
    assert(potion_roll_ok(kind, used) && potion_applied(kind, *old(status), *old(player), used) == (*status,
        player.level as int, player.strength as int, player.hp as int));
}

/// Hit points gained over `levels` new levels with a `1d8` roll of `r`.
pub open spec fn hp_gain(levels: int, r: int) -> int {
    levels * r
}

/// Awarding `xp` to `p` stays within the integer range.
pub open spec fn xp_fits(p: Stats, xp: int) -> bool {
    &&& i32::MIN <= p.xp_reward + xp < 1342177280
    &&& p.hp + 8 * (28 - p.level) <= i32::MAX
    &&& p.max_hp + 8 * (28 - p.level) <= i32::MAX
    &&& p.level >= -0x00ff_ffff
}

/// `a` is the player `b` after being awarded `xp` experience, with a `1d8` roll
/// per level gained.
pub open spec fn xp_gained(b: Stats, a: Stats, xp: int) -> bool {
    let lvl = level_for_xp(b.xp_reward + xp);
    &&& a.xp_reward == b.xp_reward + xp
    &&& if lvl > b.level {
        &&& a.level == lvl
        &&& exists|r: int| 1 <= r <= 8 && a.max_hp == b.max_hp + #[trigger] hp_gain(a.level - b.level, r)
            && a.hp == b.hp + hp_gain(a.level - b.level, r)
    } else {
        a.level == b.level && a.hp == b.hp && a.max_hp == b.max_hp
    }
    &&& a.strength == b.strength
    &&& a.armor == b.armor
    &&& a.damage == b.damage
    &&& a.hit_plus == b.hit_plus
    &&& a.dam_plus == b.dam_plus
}

/// Award experience: the total grows by `xp`; on reaching a higher level the
/// player takes it and gains `1d8` hit points (current and maximum) per level gained.
pub fn gain_xp<R: RogueRng>(player: &mut Stats, xp: i32, rng: &mut R) -> (leveled: bool)
    requires
        xp_fits(*old(player), xp as int),
    ensures
        xp_gained(*old(player), *final(player), xp as int),
        final(player).xp_reward == old(player).xp_reward + xp,
        leveled == (level_for_xp(old(player).xp_reward + xp) > old(player).level),
        leveled ==> final(player).level == level_for_xp(old(player).xp_reward + xp) && exists|r: int|
            1 <= r <= 8 && final(player).max_hp == old(player).max_hp + #[trigger] hp_gain(final(player).level - old(player).level, r)
                && final(player).hp == old(player).hp + hp_gain(final(player).level - old(player).level, r),
        !leveled ==> final(player).level == old(player).level && final(player).hp == old(player).hp
            && final(player).max_hp == old(player).max_hp,
        final(player).strength == old(player).strength,
        final(player).armor == old(player).armor,
        final(player).damage == old(player).damage,
        final(player).hit_plus == old(player).hit_plus,
        final(player).dam_plus == old(player).dam_plus,
{
    let before = player.level;
    player.xp_reward = player.xp_reward + xp;
    let lvl = xp_level(player.xp_reward);
    proof {
        lemma_level_for_xp_bound(player.xp_reward as int);
    }
    if lvl > before {
        let r = rng.roll(1, 8);
        proof {
            assert((lvl - before) * r <= (lvl - before) * 8) by (nonlinear_arith)
                requires lvl - before >= 1, 1 <= r <= 8;
            assert((lvl - before) * r >= 1) by (nonlinear_arith)
                requires lvl - before >= 1, 1 <= r <= 8;
            assert((lvl - before) * 8 <= 8 * (28 - before)) by (nonlinear_arith)
                requires lvl <= 28;
        }
        let gain = (lvl - before) * r;
        player.level = lvl;
        player.max_hp = player.max_hp + gain;
        player.hp = player.hp + gain;
        assert(gain == hp_gain(player.level - before, r as int));
        true
    } else {
        false
    }
}

/// Experience levels stay between 1 and 28 below the largest total.
proof fn lemma_level_for_xp_bound(total: int)
    requires
        total < 1342177280,
    ensures
        1 <= level_for_xp(total) <= 28,
{
    lemma2_to64();
    lemma_levels_from_bound(total, 10, 0);
}

proof fn lemma_levels_from_bound(total: int, need: int, k: nat)
    requires
        total < 1342177280,
        need == 10 * pow2(k),
        k <= 27,
    ensures
        0 <= levels_from(total, need) <= 27 - k,
    decreases 27 - k,
{
    lemma2_to64();
    if need > 0 && total >= need {
        lemma_pow2_unfold(k + 1);
        if k == 27 {
            assert(false);
        }
        lemma_levels_from_bound(total, need * 2, k + 1);
    }
}

/// What one turn of hunger and regeneration brought.
#[derive(Debug, Clone, Copy, PartialEq, Eq, Structural)]
pub struct TurnUpkeep {
    /// The player fainted from hunger (and lost a hit point).
    pub fainted: bool,
    /// A ring of teleportation fires this turn.
    pub teleport: bool,
}

/// Food left after a turn: one less, except on the skipped turns of slow
/// digestion (which alternate).
pub open spec fn eats_this_turn(slow: bool, skip_before: bool) -> bool {
    !slow || skip_before
}

/// One turn of hunger and regeneration.
///
/// A ring of slow digestion makes food run down every other turn. Once food
/// is gone, each turn the player faints with a 20% chance and loses a hit point.
/// Every `regen_period` turns the player regains a hit point (up to the
/// maximum). A ring of teleportation fires with a 1% chance. Getting hungry
/// and fainting are logged.
pub fn hunger_and_regen<R: RogueRng>(
    food: &mut i32,
    digest_skip: &mut bool,
    regen_counter: &mut i32,
    player: &mut Stats,
    slow_digestion: bool,
    regeneration: bool,
    teleportation: bool,
    log: &mut Vec<String>,
    rng: &mut R,
) -> (u: TurnUpkeep)
    requires
        *old(food) > i32::MIN,
        *old(regen_counter) < i32::MAX,
        old(player).hp > i32::MIN,
        -0x3fff_fff0 <= old(player).level <= 0x3fff_fff0,
    ensures
        *final(digest_skip) == (if slow_digestion { !*old(digest_skip) } else { *old(digest_skip) }),
        *final(food) == (if eats_this_turn(slow_digestion, *old(digest_skip)) { *old(food) - 1 } else { *old(food) as int }),
        u.fainted ==> eats_this_turn(slow_digestion, *old(digest_skip)) && *old(food) - 1 <= 0,
        ({
            let period = regen_period_for(old(player).level as int, regeneration);
            let due = *old(regen_counter) + 1 >= period;
            &&& *final(regen_counter) == (if due { 0 } else { *old(regen_counter) + 1 })
            &&& final(player).hp == (if u.fainted { old(player).hp - 1 } else { old(player).hp as int })
                + (if due && (if u.fainted { old(player).hp - 1 } else { old(player).hp as int }) < old(player).max_hp { 1int } else { 0int })
        }),
        u.teleport ==> teleportation,
        final(player).max_hp == old(player).max_hp,
        final(player).level == old(player).level,
        final(player).strength == old(player).strength,
        final(player).armor == old(player).armor,
        final(player).damage == old(player).damage,
        final(player).xp_reward == old(player).xp_reward,
        texts(final(log)@) == texts(old(log)@) + note_if(
            eats_this_turn(slow_digestion, *old(digest_skip)) && *old(food) - 1 == 20,
            "You are starting to feel hungry."@,
        ) + note_if(u.fainted, "You faint from lack of food!"@),
{
    let ghost l0 = texts(log@);
    let mut fainted = false;
    if slow_digestion {
        *digest_skip = !*digest_skip;
    }
    if !slow_digestion || !*digest_skip {
        *food = *food - 1;
        if *food == 20 {
            say(log, text1("You are starting to feel hungry."));
        }
        if *food <= 0 && rng.percent(20) {
            player.hp = player.hp - 1;
            fainted = true;
            say(log, text1("You faint from lack of food!"));
        }
    }
    assert(texts(log@) =~= l0 + note_if(eats_this_turn(slow_digestion, *old(digest_skip)) && *old(food) - 1 == 20,
        "You are starting to feel hungry."@) + note_if(fainted, "You faint from lack of food!"@));
    *regen_counter = *regen_counter + 1;
    let period = regen_period(player.level, regeneration);
    if *regen_counter >= period {
        *regen_counter = 0;
        if player.hp < player.max_hp {
            player.hp = player.hp + 1;
        }
    }
    let teleport = teleportation && rng.rnd(100) == 0;
    TurnUpkeep { fainted, teleport }
}

/// A tile a teleport can land on: walkable and unoccupied.
pub open spec fn landing_ok(m: &LevelMap, occupied: Seq<Point>, p: Point) -> bool {
    m.spec_is_walkable(p) && !occupied.contains(p)
}

/// Pick a random walkable, unoccupied tile to teleport to; `None` when there is none.
pub fn teleport_target<R: RogueRng>(map: &LevelMap, occupied: &[Point], rng: &mut R) -> (r: Option<Point>)
    requires
        map.wf(),
    ensures
        match r {
            Some(p) => landing_ok(map, occupied@, p),
            None => forall|p: Point| !landing_ok(map, occupied@, p),
        },
{
    let mut floors: Vec<Point> = Vec::new();
    let mut y: i32 = 0;
    while y < map.height
        invariant
            map.wf(),
            0 <= y <= map.height,
            floors@.len() <= y * map.width,
            forall|i: int| 0 <= i < floors@.len() ==> landing_ok(map, occupied@, #[trigger] floors@[i]),
            forall|p: Point| landing_ok(map, occupied@, p) && p.y < y ==> floors@.contains(p),
        decreases map.height - y,
    {
        let mut x: i32 = 0;
        while x < map.width
            invariant
                map.wf(),
                0 <= y < map.height,
                0 <= x <= map.width,
                floors@.len() <= y * map.width + x,
                forall|i: int| 0 <= i < floors@.len() ==> landing_ok(map, occupied@, #[trigger] floors@[i]),
                forall|p: Point| landing_ok(map, occupied@, p) && (p.y < y || (p.y == y && p.x < x)) ==> floors@.contains(p),
            decreases map.width - x,
        {
            let p = Point::new(x, y);
            if map.is_walkable(p) && !contains_point(occupied, p) {
                let ghost before = floors@;
                floors.push(p);
                assert forall|q: Point| landing_ok(map, occupied@, q) && (q.y < y || (q.y == y && q.x < x + 1)) implies floors@.contains(q) by {
                    if q == p {
                        assert(floors@[floors@.len() - 1] == p);
                    } else {
                        assert(q.x != p.x || q.y != p.y);
                        assert(q.y < y || (q.y == y && q.x < x));
                        assert(before.contains(q));
                        let k = choose|k: int| 0 <= k < before.len() && before[k] == q;
                        assert(floors@[k] == q);
                    }
                }
            }
            x = x + 1;
        }
        proof {
            assert((y + 1) * map.width == y * map.width + map.width) by (nonlinear_arith);
        }
        y = y + 1;
    }
    proof {
        assert(map.height * map.width == map.width * map.height) by (nonlinear_arith);
        assert forall|p: Point| !landing_ok(map, occupied@, p) || floors@.contains(p) by {
            if landing_ok(map, occupied@, p) {
                assert(p.y < map.height);
            }
        }
    }
    if floors.len() == 0 {
        assert forall|p: Point| !landing_ok(map, occupied@, p) by {
            if landing_ok(map, occupied@, p) {
                assert(floors@.contains(p));
            }
        }
        return None;
    }
    let k = rng.rnd(floors.len() as i32);
    Some(floors[k as usize])
}

} // verus!
