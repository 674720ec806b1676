//! Combat resolution: the `str_plus` / `add_dam` strength tables, the
//! `swing(at_lvl, op_arm, wplus)` to-hit roll and the multi-term attack.

use vstd::prelude::*;
use crate::dice::{DamageRoll, Dice};
use crate::rng::{RogueRng, rnd_outcome, roll_outcome};

verus! {

/// Adjustment to hit probability due to strength (index by strength value).
pub open spec fn str_plus_table() -> Seq<int> {
    seq![
        -7, -6, -5, -4, -3, -2, -1, 0, 0, 0, 0, 0, 0, 0, 0, 0, 0, 1, 1, 1, 1, 2, 2, 2, 2, 2, 2, 2, 2,
        2, 2, 3,
    ]
}

/// Adjustment to damage due to strength (index by strength value).
pub open spec fn add_dam_table() -> Seq<int> {
    seq![
        -7, -6, -5, -4, -3, -2, -1, 0, 0, 0, 0, 0, 0, 0, 0, 0, 1, 1, 2, 3, 3, 4, 5, 5, 5, 5, 5, 5, 5,
        5, 5, 6,
    ]
}

/// Strength clamped into the table range `0..=31`.
pub open spec fn clamp_strength(strength: int) -> int {
    if strength < 0 { 0 } else if strength > 31 { 31 } else { strength }
}

pub open spec fn spec_str_plus(strength: int) -> int {
    str_plus_table()[clamp_strength(strength)]
}

pub open spec fn spec_add_dam(strength: int) -> int {
    add_dam_table()[clamp_strength(strength)]
}

fn table_lookup(table: &[i32; 32], strength: i32) -> (v: i32)
    ensures
        v == table@[clamp_strength(strength as int)],
{
    let idx: usize = if strength < 0 { 0 } else if strength > 31 { 31 } else { strength as usize };
    table[idx]
}

/// Strength-based to-hit bonus.
pub fn str_plus(strength: i32) -> (v: i32)
    ensures
        v == spec_str_plus(strength as int),
        -7 <= v <= 3,
{
    let t: [i32; 32] = [
        -7, -6, -5, -4, -3, -2, -1, 0, 0, 0, 0, 0, 0, 0, 0, 0, 0, 1, 1, 1, 1, 2, 2, 2, 2, 2, 2, 2, 2,
        2, 2, 3,
    ];
    assert(t@.map_values(|x: i32| x as int) =~= str_plus_table());
    let v = table_lookup(&t, strength);
    assert(t@.map_values(|x: i32| x as int)[clamp_strength(strength as int)] == v);
    v
}

/// Strength-based damage bonus.
pub fn add_dam(strength: i32) -> (v: i32)
    ensures
        v == spec_add_dam(strength as int),
        -7 <= v <= 6,
{
    let t: [i32; 32] = [
        -7, -6, -5, -4, -3, -2, -1, 0, 0, 0, 0, 0, 0, 0, 0, 0, 1, 1, 2, 3, 3, 4, 5, 5, 5, 5, 5, 5, 5,
        5, 5, 6,
    ];
    assert(t@.map_values(|x: i32| x as int) =~= add_dam_table());
    let v = table_lookup(&t, strength);
    assert(t@.map_values(|x: i32| x as int)[clamp_strength(strength as int)] == v);
    v
}

/// Entry `k + 1` of `t` is at least entry `k`.
spec fn steps_up(t: Seq<int>, k: int) -> bool {
    t[k] <= t[k + 1]
}

/// A table that never steps down is ordered between any two of its entries.
proof fn lemma_table_ordered(t: Seq<int>, i: int, j: int)
    requires
        0 <= i <= j < t.len(),
        forall|k: int| 0 <= k < t.len() - 1 ==> #[trigger] steps_up(t, k),
    ensures
        t[i] <= t[j],
    decreases j - i,
{
    if i < j {
        assert(steps_up(t, j - 1));
        lemma_table_ordered(t, i, j - 1);
    }
}

/// More strength never hurts: both the to-hit and the damage bonus grow (or
/// stay) with strength.
pub proof fn lemma_strength_bonus_monotone(a: int, b: int)
    requires
        a <= b,
    ensures
        spec_str_plus(a) <= spec_str_plus(b),
        spec_add_dam(a) <= spec_add_dam(b),
{
    let sp = str_plus_table();
    let ad = add_dam_table();
    assert(steps_up(sp, 0) && steps_up(ad, 0));
    assert(steps_up(sp, 1) && steps_up(ad, 1));
    assert(steps_up(sp, 2) && steps_up(ad, 2));
    assert(steps_up(sp, 3) && steps_up(ad, 3));
    assert(steps_up(sp, 4) && steps_up(ad, 4));
    assert(steps_up(sp, 5) && steps_up(ad, 5));
    assert(steps_up(sp, 6) && steps_up(ad, 6));
    assert(steps_up(sp, 7) && steps_up(ad, 7));
    assert(steps_up(sp, 8) && steps_up(ad, 8));
    assert(steps_up(sp, 9) && steps_up(ad, 9));
    assert(steps_up(sp, 10) && steps_up(ad, 10));
    assert(steps_up(sp, 11) && steps_up(ad, 11));
    assert(steps_up(sp, 12) && steps_up(ad, 12));
    assert(steps_up(sp, 13) && steps_up(ad, 13));
    assert(steps_up(sp, 14) && steps_up(ad, 14));
    assert(steps_up(sp, 15) && steps_up(ad, 15));
    assert(steps_up(sp, 16) && steps_up(ad, 16));
    assert(steps_up(sp, 17) && steps_up(ad, 17));
    assert(steps_up(sp, 18) && steps_up(ad, 18));
    assert(steps_up(sp, 19) && steps_up(ad, 19));
    assert(steps_up(sp, 20) && steps_up(ad, 20));
    assert(steps_up(sp, 21) && steps_up(ad, 21));
    assert(steps_up(sp, 22) && steps_up(ad, 22));
    assert(steps_up(sp, 23) && steps_up(ad, 23));
    assert(steps_up(sp, 24) && steps_up(ad, 24));
    assert(steps_up(sp, 25) && steps_up(ad, 25));
    assert(steps_up(sp, 26) && steps_up(ad, 26));
    assert(steps_up(sp, 27) && steps_up(ad, 27));
    assert(steps_up(sp, 28) && steps_up(ad, 28));
    assert(steps_up(sp, 29) && steps_up(ad, 29));
    assert(steps_up(sp, 30) && steps_up(ad, 30));
    lemma_table_ordered(sp, clamp_strength(a), clamp_strength(b));
    lemma_table_ordered(ad, clamp_strength(a), clamp_strength(b));
}

/// Does a swing whose `rnd(20)` came up `res` connect? It does when
/// `res + wplus >= (20 - at_lvl) - op_arm`.
pub open spec fn swing_hits(res: int, at_lvl: int, op_arm: int, wplus: int) -> bool {
    res + wplus >= (20 - at_lvl) - op_arm
}

/// A swing connects more easily, never less, against a higher armor value, for
/// a higher-level attacker or with a bigger to-hit bonus.
pub proof fn lemma_swing_easier(res: int, at_lvl: int, op_arm: int, wplus: int, lvl2: int, arm2: int, wplus2: int)
    requires
        at_lvl <= lvl2,
        op_arm <= arm2,
        wplus <= wplus2,
        swing_hits(res, at_lvl, op_arm, wplus),
    ensures
        swing_hits(res, lvl2, arm2, wplus2),
{
}

/// The swing's outcome for a given roll `res`.
pub fn swing_with_roll(res: i32, at_lvl: i32, op_arm: i32, wplus: i32) -> (b: bool)
    requires
        i32::MIN <= res + wplus <= i32::MAX,
        20 - at_lvl <= i32::MAX,
        i32::MIN <= (20 - at_lvl) - op_arm <= i32::MAX,
    ensures
        b == swing_hits(res as int, at_lvl as int, op_arm as int, wplus as int),
{
    let need = (20 - at_lvl) - op_arm;
    res + wplus >= need
}

/// One swing's to-hit check: `swing(at_lvl, op_arm, wplus)`.
///
/// A higher defender armor value is *easier* to hit, as in classic Rogue
/// (where lower AC is better).
pub fn swing<R: RogueRng>(at_lvl: i32, op_arm: i32, wplus: i32, rng: &mut R) -> (b: bool)
    requires
        i32::MIN <= wplus,
        wplus + 19 <= i32::MAX,
        20 - at_lvl <= i32::MAX,
        i32::MIN <= (20 - at_lvl) - op_arm <= i32::MAX,
    ensures
        exists|res: int| 0 <= res < 20 && b == swing_hits(res, at_lvl as int, op_arm as int, wplus as int),
        (20 - at_lvl) - op_arm <= wplus ==> b,
        (20 - at_lvl) - op_arm > wplus + 19 ==> !b,
{
    let res = rng.rnd(20);
    swing_with_roll(res, at_lvl, op_arm, wplus)
}

/// The attacker side of a melee exchange.
#[derive(Debug, Clone)]
pub struct Attacker {
    /// Experience / monster level (`s_lvl`).
    pub level: i32,
    /// Strength (`s_str`).
    pub strength: i32,
    /// One or more attacks, e.g. `"1x8"` or `"1x8/1x8/3x10"`.
    pub damage: DamageRoll,
    /// Flat to-hit bonus from a wielded weapon (`hplus`).
    pub hit_plus: i32,
    /// Flat damage bonus from a wielded weapon (`dplus`).
    pub dam_plus: i32,
}

/// The attacker's to-hit bonus: weapon bonus plus strength bonus.
pub open spec fn attack_wplus(att: Attacker) -> int {
    att.hit_plus + spec_str_plus(att.strength as int)
}

/// Damage of one connecting term whose dice came up `roll`.
pub open spec fn term_damage(att: Attacker, roll: int) -> int {
    let d = att.dam_plus + roll + spec_add_dam(att.strength as int);
    if d < 0 { 0 } else { d }
}

/// Whether any of the first `n` terms connected, and the damage they dealt, for
/// the given swing rolls and damage rolls.
pub open spec fn attack_sum(att: Attacker, def_arm: int, swings: Seq<int>, dmgs: Seq<int>, n: nat) -> (bool, int)
    decreases n,
{
    if n == 0 {
        (false, 0)
    } else {
        let prev = attack_sum(att, def_arm, swings, dmgs, (n - 1) as nat);
        if swing_hits(swings[n - 1], att.level as int, def_arm, attack_wplus(att)) {
            (true, prev.1 + term_damage(att, dmgs[n - 1]))
        } else {
            prev
        }
    }
}

/// The result of a whole attack for the given rolls: `None` when no term
/// connected, otherwise the total damage.
pub open spec fn attack_result(att: Attacker, def_arm: int, swings: Seq<int>, dmgs: Seq<int>) -> Option<int> {
    let r = attack_sum(att, def_arm, swings, dmgs, att.damage.0@.len());
    if r.0 { Some(r.1) } else { None }
}

/// Rolls that the random source can produce for this attacker's terms.
pub open spec fn valid_rolls(att: Attacker, swings: Seq<int>, dmgs: Seq<int>) -> bool {
    let ts = att.damage.0@;
    &&& swings.len() == ts.len()
    &&& dmgs.len() == ts.len()
    &&& forall|k: int| 0 <= k < ts.len() ==> rnd_outcome(20, #[trigger] swings[k])
    &&& forall|k: int| 0 <= k < ts.len() ==> roll_outcome(ts[k].count as int, ts[k].sides as int, #[trigger] dmgs[k])
}

/// Largest damage one term can deal.
pub open spec fn term_max(att: Attacker, d: Dice) -> int {
    let hi = if d.count * d.sides > 0 { d.count * d.sides } else { 0 };
    term_damage(att, hi)
}

/// Largest damage the first `n` terms can deal together.
pub open spec fn attack_max(att: Attacker, n: nat) -> int
    decreases n,
{
    if n == 0 {
        0
    } else {
        attack_max(att, (n - 1) as nat) + term_max(att, att.damage.0@[n - 1])
    }
}

/// The arithmetic of an attack stays within `i32`.
pub open spec fn attack_fits(att: Attacker, def_arm: int) -> bool {
    let ts = att.damage.0@;
    &&& i32::MIN + 7 <= att.hit_plus <= i32::MAX - 22
    &&& 20 - att.level <= i32::MAX
    &&& i32::MIN <= (20 - att.level) - def_arm <= i32::MAX
    &&& i32::MIN + 7 <= att.dam_plus
    &&& forall|k: int| 0 <= k < ts.len() ==> #[trigger] ts[k].count * ts[k].sides <= i32::MAX
    &&& forall|k: int| 0 <= k < ts.len() ==> att.dam_plus + (#[trigger] ts[k]).count * ts[k].sides + 6 <= i32::MAX
    &&& attack_max(att, ts.len()) <= i32::MAX
}

proof fn lemma_term_bound(att: Attacker, d: Dice, roll: int)
    requires
        roll_outcome(d.count as int, d.sides as int, roll),
    ensures
        0 <= term_damage(att, roll) <= term_max(att, d),
{
    if d.count > 0 && d.sides > 0 {
        assert(d.count * d.sides > 0) by (nonlinear_arith)
            requires d.count > 0, d.sides > 0;
    }
}

proof fn lemma_attack_max_mono(att: Attacker, n: nat, m: nat)
    requires
        n <= m <= att.damage.0@.len(),
    ensures
        attack_max(att, n) <= attack_max(att, m),
    decreases m - n,
{
    if n < m {
        lemma_attack_max_mono(att, n, (m - 1) as nat);
        let d = att.damage.0@[m - 1];
        if d.count * d.sides > 0 {
        }
    }
}

/// Resolve a full attack for given rolls: `swing_rolls[k]` is the `rnd(20)` of
/// term `k` and `damage_rolls[k]` its dice total (used only if the term connects).
pub fn resolve_attack(att: &Attacker, def_arm: i32, swing_rolls: &Vec<i32>, damage_rolls: &Vec<i32>) -> (r: Option<i32>)
    requires
        attack_fits(*att, def_arm as int),
        valid_rolls(*att, swing_rolls@.map_values(|v: i32| v as int), damage_rolls@.map_values(|v: i32| v as int)),
    ensures
        opt_int(r) == attack_result(*att, def_arm as int, swing_rolls@.map_values(|v: i32| v as int), damage_rolls@.map_values(|v: i32| v as int)),
        r matches Some(t) ==> t >= 0,
{
    let ghost sw = swing_rolls@.map_values(|v: i32| v as int);
    let ghost dm = damage_rolls@.map_values(|v: i32| v as int);
    let wplus = att.hit_plus + str_plus(att.strength);
    let mut total: i32 = 0;
    let mut hit = false;
    let n = att.damage.0.len();
    let mut i: usize = 0;
    while i < n
        invariant
            n == att.damage.0@.len(),
            i <= n,
            attack_fits(*att, def_arm as int),
            valid_rolls(*att, sw, dm),
            sw == swing_rolls@.map_values(|v: i32| v as int),
            dm == damage_rolls@.map_values(|v: i32| v as int),
            wplus == attack_wplus(*att),
            (hit, total as int) == attack_sum(*att, def_arm as int, sw, dm, i as nat),
            0 <= total <= attack_max(*att, i as nat),
        decreases n - i,
    {
        let term = att.damage.0[i];
        assert(rnd_outcome(20, sw[i as int]));
        let res = swing_rolls[i];
        if swing_with_roll(res, att.level, def_arm, wplus) {
            let proll = damage_rolls[i];
            proof {
                assert(roll_outcome(term.count as int, term.sides as int, dm[i as int]));
                lemma_term_bound(*att, term, dm[i as int]);
                lemma_attack_max_mono(*att, (i + 1) as nat, n as nat);
                if term.count > 0 && term.sides > 0 {
                    assert(proll <= term.count * term.sides);
                }
            }
            let damage = att.dam_plus + proll + add_dam(att.strength);
            total = total + if damage < 0 { 0 } else { damage };
            hit = true;
        }
        i = i + 1;
    }
    if hit {
        Some(total)
    } else {
        None
    }
}

/// Resolve a full attack (possibly several swings) against a defender whose
/// armor value is `def_arm`. Returns the total damage dealt, or `None` on a
/// complete miss (no swing connected).
pub fn roll_attack<R: RogueRng>(att: &Attacker, def_arm: i32, rng: &mut R) -> (r: Option<i32>)
    requires
        attack_fits(*att, def_arm as int),
    ensures
        exists|sw: Seq<int>, dm: Seq<int>|
            valid_rolls(*att, sw, dm) && opt_int(r) == attack_result(*att, def_arm as int, sw, dm),
        r matches Some(t) ==> t >= 0,
        r matches Some(t) ==> t <= attack_max(*att, att.damage.0@.len()),
        // A term that cannot miss makes the attack connect.
        att.damage.0@.len() > 0 && (20 - att.level) - def_arm <= attack_wplus(*att) ==> r is Some,
        // When even a roll of 19 misses, the attack misses.
        (20 - att.level) - def_arm > attack_wplus(*att) + 19 ==> r is None,
        // When every connecting term deals at least one point, so does the attack.
        (forall|k: int| 0 <= k < att.damage.0@.len() ==>
            att.dam_plus + min_roll(#[trigger] att.damage.0@[k]) + spec_add_dam(att.strength as int) > 0)
            ==> (r matches Some(t) ==> t > 0),
{
    let ghost mut sw: Seq<int> = Seq::empty();
    let ghost mut dm: Seq<int> = Seq::empty();
    let wplus = att.hit_plus + str_plus(att.strength);
    let mut total: i32 = 0;
    let mut hit = false;
    let n = att.damage.0.len();
    let mut i: usize = 0;
    while i < n
        invariant
            n == att.damage.0@.len(),
            i <= n,
            attack_fits(*att, def_arm as int),
            wplus == attack_wplus(*att),
            sw.len() == i,
            dm.len() == i,
            forall|k: int| 0 <= k < i ==> rnd_outcome(20, #[trigger] sw[k]),
            forall|k: int| 0 <= k < i ==> roll_outcome(att.damage.0@[k].count as int, att.damage.0@[k].sides as int, #[trigger] dm[k]),
            (hit, total as int) == attack_sum(*att, def_arm as int, sw, dm, i as nat),
            0 <= total <= attack_max(*att, i as nat),
            (forall|k: int| 0 <= k < att.damage.0@.len() ==>
                att.dam_plus + min_roll(#[trigger] att.damage.0@[k]) + spec_add_dam(att.strength as int) > 0)
                ==> (hit ==> total > 0),
            (20 - att.level) - def_arm <= attack_wplus(*att) && i > 0 ==> hit,
            (20 - att.level) - def_arm > attack_wplus(*att) + 19 ==> !hit,
        decreases n - i,
    {
        let term = att.damage.0[i];
        let res = rng.rnd(20);
        let ghost sw0 = sw;
        let ghost dm0 = dm;
        if swing_with_roll(res, att.level, def_arm, wplus) {
            let proll = rng.roll(term.count, term.sides);
            proof {
                assert(att.damage.0@[i as int] == term);
                lemma_term_bound(*att, term, proll as int);
                lemma_attack_max_mono(*att, (i + 1) as nat, n as nat);
                sw = sw.push(res as int);
                dm = dm.push(proll as int);
                assert(sw.subrange(0, i as int) =~= sw0);
                assert(dm.subrange(0, i as int) =~= dm0);
                lemma_attack_sum_prefix(*att, def_arm as int, sw0, dm0, sw, dm, i as nat);
                if term.count > 0 && term.sides > 0 {
                    assert(proll >= term.count);
                }
            }
            let damage = att.dam_plus + proll + add_dam(att.strength);
            total = total + if damage < 0 { 0 } else { damage };
            hit = true;
        } else {
            proof {
                sw = sw.push(res as int);
                dm = dm.push(min_roll(term));
                assert(att.damage.0@[i as int] == term);
                if term.count > 0 && term.sides > 0 {
                    assert(term.count <= term.count * term.sides) by (nonlinear_arith)
                        requires term.count > 0, term.sides > 0;
                }
                assert(sw.subrange(0, i as int) =~= sw0);
                assert(dm.subrange(0, i as int) =~= dm0);
                lemma_attack_sum_prefix(*att, def_arm as int, sw0, dm0, sw, dm, i as nat);
            }
        }
        i = i + 1;
    }
    assert(valid_rolls(*att, sw, dm));
    if hit {
        Some(total)
    } else {
        None
    }
}

/// An optional `i32` read as an optional integer.
pub open spec fn opt_int(r: Option<i32>) -> Option<int> {
    match r {
        Some(t) => Some(t as int),
        None => None,
    }
}

/// The smallest dice total of a term.
pub open spec fn min_roll(d: Dice) -> int {
    if d.count <= 0 || d.sides <= 0 { 0 } else { d.count as int }
}

/// `attack_sum` over a prefix only depends on the rolls of that prefix.
proof fn lemma_attack_sum_prefix(att: Attacker, def_arm: int, sw0: Seq<int>, dm0: Seq<int>, sw: Seq<int>, dm: Seq<int>, n: nat)
    requires
        sw0.len() == n,
        dm0.len() == n,
        sw.len() == n + 1,
        dm.len() == n + 1,
        sw.subrange(0, n as int) == sw0,
        dm.subrange(0, n as int) == dm0,
    ensures
        attack_sum(att, def_arm, sw, dm, n) == attack_sum(att, def_arm, sw0, dm0, n),
    decreases n,
{
    if n > 0 {
        let m = (n - 1) as nat;
        assert(sw[n - 1] == sw0[n - 1]);
        assert(dm[n - 1] == dm0[n - 1]);
        lemma_attack_sum_prefix_gen(att, def_arm, sw0, dm0, sw, dm, m);
    }
}

proof fn lemma_attack_sum_prefix_gen(att: Attacker, def_arm: int, a: Seq<int>, b: Seq<int>, c: Seq<int>, d: Seq<int>, n: nat)
    requires
        n <= a.len(),
        n <= b.len(),
        n <= c.len(),
        n <= d.len(),
        forall|k: int| 0 <= k < n ==> a[k] == c[k] && b[k] == d[k],
    ensures
        attack_sum(att, def_arm, a, b, n) == attack_sum(att, def_arm, c, d, n),
    decreases n,
{
    if n > 0 {
        lemma_attack_sum_prefix_gen(att, def_arm, a, b, c, d, (n - 1) as nat);
    }
}

} // verus!
