//! Rogue-flavoured random helpers: `rnd(n)`, `roll(count, sides)` and `percent(p)`.
//!
//! Classic Rogue uses `rnd(n)` returning a uniform value in `0..n`. The generator
//! and combat code are written against the [`RogueRng`] trait, whose only
//! required method is `rnd`; it is implemented for `rand`'s seedable `StdRng`.

use vstd::prelude::*;
use rand::rngs::StdRng;
use rand::Rng;

verus! {

/// `rand`'s standard generator, declared so the library can hold and pass it;
/// its state is opaque here.
#[verifier::external_type_specification]
#[verifier::external_body]
pub struct ExStdRng(StdRng);

/// What `rnd(n)` may return: `0` when `n <= 0`, otherwise a value in `0..n`.
pub open spec fn rnd_outcome(n: int, r: int) -> bool {
    if n <= 0 { r == 0 } else { 0 <= r < n }
}

/// What `roll(count, sides)` may return: the sum of `count` dice, each in `1..=sides`
/// (no dice when `count <= 0` or `sides <= 0`).
pub open spec fn roll_outcome(count: int, sides: int, r: int) -> bool {
    if count <= 0 || sides <= 0 { r == 0 } else { count <= r <= count * sides }
}

/// Rogue-style random helpers.
pub trait RogueRng {
    /// Uniform integer in `0..n`; 0 when `n <= 0`.
    fn rnd(&mut self, n: i32) -> (r: i32)
        ensures
            rnd_outcome(n as int, r as int),
    ;

    /// Roll `count` dice each with `sides` faces (each die yields `1..=sides`):
    /// draw each die with `rnd(sides)`, then add the faces (`dice_sum`).
    fn roll(&mut self, count: i32, sides: i32) -> (total: i32)
        requires
            count > 0 && sides > 0 ==> count * sides <= i32::MAX,
        ensures
            roll_outcome(count as int, sides as int, total as int),
            exists|draws: Seq<int>| #[trigger] draws_ok(count as int, sides as int, draws) && total == dice_total(draws),
    {
        let mut draws: Vec<i32> = Vec::new();
        let mut i: i32 = 0;
        while i < count
            invariant
                count > 0 && sides > 0 ==> count * sides <= i32::MAX,
                0 <= i <= count || count <= 0,
                count <= 0 ==> i == 0,
                sides > 0 ==> draws@.len() == i,
                sides <= 0 ==> draws@.len() == 0,
                forall|k: int| 0 <= k < draws@.len() ==> rnd_outcome(sides as int, #[trigger] draws@[k] as int),
            decreases count - i,
        {
            if sides > 0 {
                let d = self.rnd(sides);
                draws.push(d);
            }
            i = i + 1;
        }
        let ghost ds = draws@.map_values(|d: i32| d as int);
        proof {
            if count > 0 && sides > 0 {
                assert(i == count);
            }
            assert(draws_ok(count as int, sides as int, ds));
        }
        let total = dice_sum(&draws, sides);
        proof {
            if count > 0 && sides > 0 {
                lemma_dice_total_bounds(ds, sides as int);
                assert(ds.len() * 1 <= dice_total(ds) <= ds.len() * sides);
            }
        }
        total
    }

    /// True with probability `p` percent: `rnd(100) < p` (see `percent_hit`).
    fn percent(&mut self, p: i32) -> (b: bool)
        ensures
            p <= 0 ==> !b,
            p >= 100 ==> b,
            exists|r: int| rnd_outcome(100, r) && b == (r < p),
    {
        let r = self.rnd(100);
        percent_hit(r, p)
    }
}

/// `draws` are the `rnd(sides)` draws of `count` dice (none when there are no
/// dice or no faces).
pub open spec fn draws_ok(count: int, sides: int, draws: Seq<int>) -> bool {
    if count <= 0 || sides <= 0 {
        draws.len() == 0
    } else {
        draws.len() == count && forall|k: int| 0 <= k < draws.len() ==> rnd_outcome(sides, #[trigger] draws[k])
    }
}

/// The total the dice drawn as `draws` show: each draw plus one.
pub open spec fn dice_total(draws: Seq<int>) -> int
    decreases draws.len(),
{
    if draws.len() == 0 {
        0
    } else {
        dice_total(draws.drop_last()) + draws.last() + 1
    }
}

proof fn lemma_dice_total_bounds(draws: Seq<int>, sides: int)
    requires
        sides > 0,
        forall|k: int| 0 <= k < draws.len() ==> rnd_outcome(sides, #[trigger] draws[k]),
    ensures
        draws.len() <= dice_total(draws) <= draws.len() * sides,
    decreases draws.len(),
{
    if draws.len() > 0 {
        let d = draws.drop_last();
        assert forall|k: int| 0 <= k < d.len() implies rnd_outcome(sides, #[trigger] d[k]) by {
            assert(d[k] == draws[k]);
        }
        lemma_dice_total_bounds(d, sides);
        assert(rnd_outcome(sides, draws[draws.len() - 1]));
        assert((d.len() + 1) * sides == d.len() * sides + sides) by (nonlinear_arith);
    }
}

/// The total of dice drawn as `draws` from `0..sides`: each draw plus one.
pub fn dice_sum(draws: &Vec<i32>, sides: i32) -> (total: i32)
    requires
        draws@.len() * (if sides > 0 { sides as int } else { 1 }) <= i32::MAX,
        forall|k: int| 0 <= k < draws@.len() ==> rnd_outcome(sides as int, #[trigger] draws@[k] as int),
    ensures
        total == dice_total(draws@.map_values(|d: i32| d as int)),
{
    let ghost ds = draws@.map_values(|d: i32| d as int);
    let mut total: i32 = 0;
    let mut i: usize = 0;
    while i < draws.len()
        invariant
            i <= draws@.len(),
            ds == draws@.map_values(|d: i32| d as int),
            draws@.len() * (if sides > 0 { sides as int } else { 1 }) <= i32::MAX,
            forall|k: int| 0 <= k < draws@.len() ==> rnd_outcome(sides as int, #[trigger] draws@[k] as int),
            total == dice_total(ds.take(i as int)),
        decreases draws@.len() - i,
    {
        proof {
            assert(ds.take(i + 1).drop_last() =~= ds.take(i as int));
            let t = ds.take(i as int);
            let s1: int = if sides > 0 { sides as int } else { 1 };
            assert forall|k: int| 0 <= k < t.len() implies rnd_outcome(s1, #[trigger] t[k]) by {
                assert(t[k] == draws@[k] as int);
                assert(rnd_outcome(sides as int, draws@[k] as int));
            }
            assert(rnd_outcome(sides as int, draws@[i as int] as int));
            lemma_dice_total_bounds(t, s1);
            assert((i + 1) * s1 <= draws@.len() * s1) by (nonlinear_arith)
                requires i + 1 <= draws@.len(), s1 > 0;
            assert((i + 1) * s1 == i * s1 + s1) by (nonlinear_arith);
        }
        total = total + draws[i] + 1;
        i = i + 1;
    }
    assert(ds.take(draws@.len() as int) =~= ds);
    total
}

/// A percent check on the roll `r` (drawn from `0..100`): it passes when the
/// roll is below `p`.
pub fn percent_hit(r: i32, p: i32) -> (b: bool)
    ensures
        b == (r < p),
{
    r < p
}

/// Calls `rand`'s `Rng::gen_range(0..n)` on the standard generator, trusted
/// to return a value in `0..n`; which one is left open. The range must not be
/// empty (`gen_range` panics on an empty range), so `n` must be positive.
#[verifier::external_body]
fn std_rng_below(rng: &mut StdRng, n: i32) -> (r: i32)
    requires
        n > 0,
    ensures
        0 <= r < n,
{
    rng.gen_range(0..n)
}

impl RogueRng for StdRng {
    fn rnd(&mut self, n: i32) -> (r: i32) {
        if n <= 0 {
            0
        } else {
            std_rng_below(self, n)
        }
    }
}

} // verus!
