//! Setting up a new run: the order monsters come in, and the player's
//! starting stats and pack.

use vstd::prelude::*;
use crate::cli::components::{Item, ItemKind, Monster, MonsterSpecial, Stats};
use crate::cli::items::{copy_damage, monster_special_from_symbol, special_for};
use crate::cli::rules::{monster_window, pick_monster_for_depth};
use crate::cli::wands::Target;
use crate::data::{Config, MonsterDef, MonsterFlag};
use crate::geometry::Point;
use crate::rng::{RogueRng, roll_outcome};
use crate::dice::{DamageRoll, Dice};
use crate::cli::wands::{say, text1, texts};

verus! {

/// `a` comes before `b` when monsters are ordered easiest first: by the
/// experience they give, then by their place in the list.
pub open spec fn easier(exp: Seq<i32>, a: int, b: int) -> bool {
    exp[a] < exp[b] || (exp[a] == exp[b] && a < b)
}

/// `order` lists each monster index below `n` once, easiest first.
pub open spec fn easiest_first(exp: Seq<i32>, order: Seq<usize>, n: int) -> bool {
    &&& order.len() == n
    &&& forall|i: int| 0 <= i < order.len() ==> #[trigger] order[i] < n
    &&& forall|i: int, j: int| 0 <= i < j < order.len() ==> easier(exp, #[trigger] order[i] as int, #[trigger] order[j] as int)
}

/// The experience each monster gives.
pub open spec fn experiences(monsters: Seq<MonsterDef>) -> Seq<i32> {
    monsters.map_values(|m: MonsterDef| m.experience)
}

/// Monster indices sorted easiest first (by experience; equals keep their order).
pub fn monster_order(monsters: &Vec<MonsterDef>) -> (order: Vec<usize>)
    ensures
        easiest_first(experiences(monsters@), order@, monsters@.len() as int),
{
    let ghost exp = experiences(monsters@);
    let mut order: Vec<usize> = Vec::new();
    let mut k: usize = 0;
    while k < monsters.len()
        invariant
            k <= monsters@.len(),
            exp == experiences(monsters@),
            easiest_first(exp, order@, k as int),
        decreases monsters@.len() - k,
    {
        let e = monsters[k].experience;
        // Everything already placed has a smaller index, so `k` goes after all
        // entries giving no more experience than it.
        let mut j: usize = 0;
        while j < order.len() && monsters[order[j]].experience <= e
            invariant
                k < monsters@.len(),
                exp == experiences(monsters@),
                e == exp[k as int],
                easiest_first(exp, order@, k as int),
                j <= order@.len(),
                forall|i: int| 0 <= i < j ==> exp[#[trigger] order@[i] as int] <= e,
            decreases order@.len() - j,
        {
            j = j + 1;
        }
        let ghost before = order@;
        order.insert(j, k);
        proof {
            assert(order@ =~= before.subrange(0, j as int).push(k).add(before.subrange(j as int, before.len() as int)));
            assert forall|i: int| 0 <= i < order@.len() implies #[trigger] order@[i] < k + 1 by {
                if i < j {
                    assert(order@[i] == before[i]);
                } else if i > j {
                    assert(order@[i] == before[i - 1]);
                }
            }
            assert forall|a: int, b: int| 0 <= a < b < order@.len() implies easier(exp, #[trigger] order@[a] as int,
                #[trigger] order@[b] as int) by {
                if b < j {
                    assert(order@[a] == before[a] && order@[b] == before[b]);
                } else if b == j {
                    assert(order@[a] == before[a]);
                    assert(exp[before[a] as int] <= e);
                    assert(before[a] < k);
                } else if a < j {
                    assert(order@[a] == before[a] && order@[b] == before[b - 1]);
                } else if a == j {
                    assert(order@[b] == before[b - 1]);
                    // The first entry not taken went further than `e`, and all after it too.
                    assert(j < before.len());
                    assert(exp[before[j as int] as int] > e);
                    if b - 1 > j {
                        assert(easier(exp, before[j as int] as int, before[b - 1] as int));
                    }
                } else {
                    assert(order@[a] == before[a - 1] && order@[b] == before[b - 1]);
                }
            }
        }
        k = k + 1;
    }
    order
}

/// The player's stats at the start of a run: the configured hit points,
/// strength and armor, level 1, and a `2x4` mace.
pub open spec fn starting_stats_ok(cfg: Config, s: Stats) -> bool {
    &&& s.hp == cfg.start_hp
    &&& s.max_hp == cfg.start_hp
    &&& s.level == 1
    &&& s.strength == cfg.start_strength
    &&& s.armor == cfg.start_armor
    &&& s.damage.0@ == seq![Dice { count: 2, sides: 4 }]
    &&& s.hit_plus == 0
    &&& s.dam_plus == 0
    &&& s.xp_reward == 0
}

/// The player's stats at the start of a run.
pub fn starting_stats(cfg: &Config) -> (s: Stats)
    ensures
        starting_stats_ok(*cfg, s),
{
    let mut dice: Vec<Dice> = Vec::new();
    dice.push(Dice { count: 2, sides: 4 });
    assert(dice@ =~= seq![Dice { count: 2, sides: 4 }]);
    Stats {
        hp: cfg.start_hp,
        max_hp: cfg.start_hp,
        level: 1,
        strength: cfg.start_strength,
        armor: cfg.start_armor,
        damage: DamageRoll(dice),
        hit_plus: 0,
        dam_plus: 0,
        xp_reward: 0,
    }
}

/// The pack at the start of a run: one food ration.
pub fn starting_pack() -> (pack: Vec<Item>)
    ensures
        pack@.len() == 1,
        pack@[0].name@ == "food ration"@,
        pack@[0].kind is Food,
{
    let mut pack: Vec<Item> = Vec::new();
    pack.push(Item { name: text1("food ration"), kind: ItemKind::Food });
    pack
}

/// `i` is the first monster with this glyph.
pub open spec fn first_with_symbol(monsters: Seq<MonsterDef>, g: char, i: int) -> bool {
    &&& 0 <= i < monsters.len()
    &&& monsters[i].symbol == g
    &&& forall|j: int| 0 <= j < i ==> (#[trigger] monsters[j]).symbol != g
}

/// The index of the first monster with this glyph.
fn symbol_index(monsters: &Vec<MonsterDef>, g: char) -> (r: Option<usize>)
    ensures
        match r {
            Some(i) => first_with_symbol(monsters@, g, i as int),
            None => forall|j: int| 0 <= j < monsters@.len() ==> (#[trigger] monsters@[j]).symbol != g,
        },
{
    let mut i: usize = 0;
    while i < monsters.len()
        invariant
            i <= monsters@.len(),
            forall|j: int| 0 <= j < i ==> (#[trigger] monsters@[j]).symbol != g,
        decreases monsters@.len() - i,
    {
        if monsters[i].symbol == g {
            return Some(i);
        }
        i = i + 1;
    }
    None
}

/// Does the monster have the `Mean` flag?
fn is_mean(flags: &Vec<MonsterFlag>) -> (b: bool)
    ensures
        b == flags@.contains(MonsterFlag::Mean),
{
    let mut i: usize = 0;
    while i < flags.len()
        invariant
            i <= flags@.len(),
            forall|j: int| 0 <= j < i ==> flags@[j] != MonsterFlag::Mean,
        decreases flags@.len() - i,
    {
        match flags[i] {
            MonsterFlag::Mean => {
                assert(flags@[i as int] == MonsterFlag::Mean);
                return true;
            },
            _ => {},
        }
        i = i + 1;
    }
    false
}

/// A monster as it enters the level: its archetype's stats with `hp` hit
/// points (current and maximum), asleep, mean when its archetype is.
pub open spec fn spawned_from(def: MonsterDef, pos: Point, hp: int, t: Target, m: Monster, sp: MonsterSpecial) -> bool {
    &&& t.name@ == def.name@
    &&& t.pos == pos
    &&& t.stats.hp == hp && t.stats.max_hp == hp
    &&& t.stats.level == def.level && t.stats.strength == def.strength && t.stats.armor == def.armor
    &&& t.stats.damage.0@ == def.damage.0@
    &&& t.stats.hit_plus == 0 && t.stats.dam_plus == 0
    &&& t.stats.xp_reward == def.experience
    &&& !m.awake
    &&& m.mean == def.flags@.contains(MonsterFlag::Mean)
    &&& sp == special_for(def.symbol)
}

/// Hit points a monster of level `level` may enter with: `level d8` (at least
/// one die), at least 1.
pub open spec fn spawn_hp_ok(level: int, hp: int) -> bool {
    exists|r: int| #[trigger] roll_outcome(hit_dice(level), 8, r) && hp == (if r >= 1 { r } else { 1 })
}

/// How many hit dice a monster of `level` rolls: its level, at least one.
pub open spec fn hit_dice(level: int) -> int {
    if level >= 1 { level } else { 1 }
}

/// Bring a monster onto the level at `pos`: the first archetype with the
/// requested glyph, else one drawn for the depth from the easiest-first
/// `order` (see [`pick_monster_for_depth`]).
pub fn spawn_monster<R: RogueRng>(
    monsters: &Vec<MonsterDef>,
    order: &Vec<usize>,
    depth: i32,
    pos: Point,
    glyph: Option<char>,
    rng: &mut R,
) -> (r: (usize, Target, Monster, MonsterSpecial))
    requires
        1 <= order@.len() <= i32::MAX - 2,
        forall|k: int| 0 <= k < order@.len() ==> #[trigger] order@[k] < monsters@.len(),
        forall|k: int| 0 <= k < monsters@.len() ==> (#[trigger] monsters@[k]).level <= i32::MAX / 8,
        depth > i32::MIN,
    ensures
        r.0 < monsters@.len(),
        match glyph {
            Some(g) => first_with_symbol(monsters@, g, r.0 as int) || ((forall|j: int| 0 <= j < monsters@.len() ==> (
                #[trigger] monsters@[j]).symbol != g) && picked_for_depth(order@, depth as int, r.0 as int)),
            None => picked_for_depth(order@, depth as int, r.0 as int),
        },
        spawn_hp_ok(monsters@[r.0 as int].level as int, r.1.stats.hp as int),
        spawned_from(monsters@[r.0 as int], pos, r.1.stats.hp as int, r.1, r.2, r.3),
{
    let found = match glyph {
        Some(g) => symbol_index(monsters, g),
        None => None,
    };
    let idx = match found {
        Some(i) => i,
        None => pick_monster_for_depth(order.as_slice(), depth, rng),
    };
    let def = &monsters[idx];
    let dice = if def.level >= 1 { def.level } else { 1 };
    let roll = rng.roll(dice, 8);
    let hp = if roll >= 1 { roll } else { 1 };
    let mean = is_mean(&def.flags);
    let special = monster_special_from_symbol(def.symbol);
    let t = Target {
        name: text1(def.name.as_str()),
        pos,
        stats: Stats {
            hp,
            max_hp: hp,
            level: def.level,
            strength: def.strength,
            armor: def.armor,
            damage: copy_damage(&def.damage),
            hit_plus: 0,
            dam_plus: 0,
            xp_reward: def.experience,
        },
    };
    assert(roll_outcome(hit_dice(monsters@[idx as int].level as int), 8, roll as int));
    assert(spawn_hp_ok(monsters@[idx as int].level as int, hp as int));
    (idx, t, Monster { awake: false, mean }, special)
}

/// `m` is drawn for the depth from the easiest-first order.
pub open spec fn picked_for_depth(order: Seq<usize>, depth: int, m: int) -> bool {
    exists|k: int| monster_window(order.len() as int, depth).0 <= k <= monster_window(order.len() as int, depth).1
        && m == order[k]
}

/// Greet the player as a run begins.
pub fn welcome(log: &mut Vec<String>)
    ensures
        texts(final(log)@) == texts(old(log)@).push("Welcome to the Dungeons of Doom! Find the Amulet of Yendor."@),
{
    say(log, text1("Welcome to the Dungeons of Doom! Find the Amulet of Yendor."));
}

} // verus!
