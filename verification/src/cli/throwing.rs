//! Throwing an item from the pack at the nearest visible monster.

use vstd::prelude::*;
use crate::cli::aim::{nearest_ok, throw_metric, throw_target};
use crate::cli::components::{Item, ItemKind, Stats};
use crate::cli::rules::{contains_point, xp_fits};
use crate::cli::wands::{Target, positions_of, put_back, say, text1, text3, texts, wound, wounded};
use crate::geometry::Point;
use crate::map::LevelMap;
use crate::rng::{RogueRng, roll_outcome};
use crate::text::{int_text, push_int, push_str};

verus! {

/// `i` is the item a throw takes: the first weapon, or the first item when
/// the pack holds no weapon.
pub open spec fn is_throw_pick(inv: Seq<Item>, i: int) -> bool {
    &&& 0 <= i < inv.len()
    &&& if inv[i].kind is Weapon {
        forall|j: int| 0 <= j < i ==> !(#[trigger] inv[j].kind is Weapon)
    } else {
        i == 0 && forall|j: int| 0 <= j < inv.len() ==> !(#[trigger] inv[j].kind is Weapon)
    }
}

/// The damage a thrown item may do: a weapon `1d6 + 1`, anything else `1d4`.
pub open spec fn throw_damage_ok(kind: ItemKind, d: int) -> bool {
    if kind is Weapon { roll_outcome(1, 6, d - 1) } else { roll_outcome(1, 4, d) }
}

/// The message of a throw of `item` that hits `name` for `dmg`.
pub open spec fn throw_hit_text(item: Seq<char>, name: Seq<char>, dmg: int) -> Seq<char> {
    "You throw the "@ + item + ". It hits the "@ + name + " for "@ + int_text(dmg) + "!"@
}

/// A tile a missed throw can land on: within two steps of the thrower, walkable
/// and free.
pub open spec fn drop_ok(m: &LevelMap, occupied: Seq<Point>, from: Point, p: Point) -> bool {
    &&& -2 <= p.x - from.x <= 2
    &&& -2 <= p.y - from.y <= 2
    &&& m.spec_is_walkable(p)
    &&& !occupied.contains(p)
}

/// The tiles a missed throw can land on, row by row, then a random pick of them.
fn drop_spot<R: RogueRng>(map: &LevelMap, occupied: &[Point], from: Point, rng: &mut R) -> (r: Option<Point>)
    requires
        map.wf(),
        i32::MIN + 2 <= from.x <= i32::MAX - 2,
        i32::MIN + 2 <= from.y <= i32::MAX - 2,
    ensures
        match r {
            Some(p) => drop_ok(map, occupied@, from, p),
            None => forall|p: Point| !drop_ok(map, occupied@, from, p),
        },
{
    let mut spots: Vec<Point> = Vec::new();
    let mut dy: i32 = -2;
    while dy <= 2
        invariant
            map.wf(),
            i32::MIN + 2 <= from.x <= i32::MAX - 2,
            i32::MIN + 2 <= from.y <= i32::MAX - 2,
            -2 <= dy <= 3,
            spots@.len() <= 5 * (dy + 2),
            forall|i: int| 0 <= i < spots@.len() ==> drop_ok(map, occupied@, from, #[trigger] spots@[i]),
            forall|p: Point| drop_ok(map, occupied@, from, p) && p.y - from.y < dy ==> spots@.contains(p),
        decreases 3 - dy,
    {
        let mut dx: i32 = -2;
        while dx <= 2
            invariant
                map.wf(),
                i32::MIN + 2 <= from.x <= i32::MAX - 2,
                i32::MIN + 2 <= from.y <= i32::MAX - 2,
                -2 <= dy <= 2,
                -2 <= dx <= 3,
                spots@.len() <= 5 * (dy + 2) + dx + 2,
                forall|i: int| 0 <= i < spots@.len() ==> drop_ok(map, occupied@, from, #[trigger] spots@[i]),
                forall|p: Point| drop_ok(map, occupied@, from, p) && (p.y - from.y < dy || (p.y - from.y == dy && p.x
                    - from.x < dx)) ==> spots@.contains(p),
            decreases 3 - dx,
        {
            let p = Point::new(from.x + dx, from.y + dy);
            if map.is_walkable(p) && !contains_point(occupied, p) {
                let ghost before = spots@;
                spots.push(p);
                assert forall|q: Point| drop_ok(map, occupied@, from, q) && (q.y - from.y < dy || (q.y - from.y == dy
                    && q.x - from.x < dx + 1)) implies spots@.contains(q) by {
                    if q == p {
                        assert(spots@[spots@.len() - 1] == p);
                    } else {
                        assert(q.x != p.x || q.y != p.y);
                        assert(q.y - from.y < dy || (q.y - from.y == dy && q.x - from.x < dx));
                        assert(before.contains(q));
                        let k = choose|k: int| 0 <= k < before.len() && before[k] == q;
                        assert(spots@[k] == q);
                    }
                }
            }
            dx = dx + 1;
        }
        dy = dy + 1;
    }
    if spots.len() == 0 {
        assert forall|p: Point| !drop_ok(map, occupied@, from, p) by {
            if drop_ok(map, occupied@, from, p) {
                assert(spots@.contains(p));
            }
        }
        None
    } else {
        let k = rng.rnd(spots.len() as i32);
        Some(spots[k as usize])
    }
}

/// The index of the item a throw takes, if the pack is not empty.
fn throw_pick(inventory: &Vec<Item>) -> (r: Option<usize>)
    ensures
        match r {
            Some(i) => is_throw_pick(inventory@, i as int),
            None => inventory@.len() == 0,
        },
{
    let mut i: usize = 0;
    while i < inventory.len()
        invariant
            i <= inventory@.len(),
            forall|j: int| 0 <= j < i ==> !(#[trigger] inventory@[j].kind is Weapon),
        decreases inventory@.len() - i,
    {
        match inventory[i].kind {
            ItemKind::Weapon { .. } => {
                return Some(i);
            },
            _ => {},
        }
        i = i + 1;
    }
    if inventory.len() > 0 {
        Some(0)
    } else {
        None
    }
}

/// Throw an item from the pack (the first weapon, else the first item) at the
/// nearest visible monster.
///
/// With an empty pack the turn is not used. A throw that finds a monster hurts
/// it (a weapon `1d6 + 1`, anything else `1d4`) and the item is lost; a monster
/// brought to zero hit points dies and the player gains its experience.
/// Otherwise the item lands on a random free walkable tile within two steps,
/// which is returned with the item, or is lost when there is none.
pub fn throw_item<R: RogueRng>(
    inventory: &mut Vec<Item>,
    monsters: &mut Vec<Target>,
    player_pos: Point,
    player: &mut Stats,
    map: &LevelMap,
    occupied: &[Point],
    log: &mut Vec<String>,
    rng: &mut R,
) -> (r: (bool, Option<(Point, Item)>))
    requires
        map.wf(),
        i32::MIN + 2 <= player_pos.x <= i32::MAX - 2,
        i32::MIN + 2 <= player_pos.y <= i32::MAX - 2,
        forall|k: int| 0 <= k < old(monsters)@.len() ==> (#[trigger] old(monsters)@[k]).stats.hp >= i32::MIN + 7
            && xp_fits(*old(player), old(monsters)@[k].stats.xp_reward as int),
    ensures
        old(inventory)@.len() == 0 ==> {
            &&& !r.0 && r.1 is None
            &&& texts(final(log)@) == texts(old(log)@).push("You have nothing to throw."@)
            &&& final(inventory)@ == old(inventory)@ && final(monsters)@ == old(monsters)@
            &&& *final(player) == *old(player)
        },
        forall|i: int| #[trigger] is_throw_pick(old(inventory)@, i) ==> {
            let it = old(inventory)@[i];
            let log0 = texts(old(log)@);
            let log1 = texts(final(log)@);
            &&& r.0
            &&& final(inventory)@ == old(inventory)@.remove(i)
            &&& exists|a: Option<usize>| #[trigger] nearest_ok(map, positions_of(old(monsters)@), player_pos,
                throw_metric(), a) && match a {
                Some(k) => {
                    let t = old(monsters)@[k as int];
                    &&& r.1 is None
                    &&& exists|d: int, t1: Option<Target>| throw_damage_ok(it.kind, d) && #[trigger] put_back(
                        old(monsters)@, k as int, t1) == final(monsters)@ && #[trigger] wounded(t, d, throw_hit_text(it.name@,
                        t.name@, d), "The "@ + t.name@ + " is slain!"@, t1, log0, log1, *old(player), *final(player))
                },
                None => {
                    &&& final(monsters)@ == old(monsters)@
                    &&& *final(player) == *old(player)
                    &&& match r.1 {
                        Some((p, item)) => item == it && drop_ok(map, occupied@, player_pos, p) && log1 == log0.push(
                            "The "@ + it.name@ + " clatters to the floor."@),
                        None => (forall|p: Point| !drop_ok(map, occupied@, player_pos, p)) && log1 == log0.push(
                            "The "@ + it.name@ + " disappears into the darkness."@),
                    }
                },
            }
        },
{
    let pick = throw_pick(inventory);
    let i = match pick {
        None => {
            say(log, text1("You have nothing to throw."));
            return (false, None);
        },
        Some(i) => i,
    };
    let item = inventory.remove(i);
    let mut positions: Vec<Point> = Vec::new();
    let mut k: usize = 0;
    while k < monsters.len()
        invariant
            k <= monsters@.len(),
            positions@ == positions_of(monsters@.subrange(0, k as int)),
        decreases monsters@.len() - k,
    {
        positions.push(monsters[k].pos);
        assert(monsters@.subrange(0, k + 1) =~= monsters@.subrange(0, k as int).push(monsters@[k as int]));
        k = k + 1;
    }
    assert(monsters@.subrange(0, monsters@.len() as int) =~= monsters@);
    let aim = throw_target(map, positions.as_slice(), player_pos);
    assert(nearest_ok(map, positions_of(old(monsters)@), player_pos, throw_metric(), aim));
    match aim {
        Some(k) => {
            let dmg = match item.kind {
                ItemKind::Weapon { .. } => rng.roll(1, 6) + 1,
                _ => rng.roll(1, 4),
            };
            let ghost ms0 = monsters@;
            let t = monsters.remove(k);
            let ghost t0 = t;
            let mut msg = text3("You throw the ", &item.name, ". It hits the ");
            push_str(&mut msg, t.name.as_str());
            push_str(&mut msg, " for ");
            push_int(&mut msg, dmg as i64);
            push_str(&mut msg, "!");
            assert(msg@ =~= throw_hit_text(item.name@, t0.name@, dmg as int));
            let slain = text3("The ", &t.name, " is slain!");
            let mut opt: Option<Target> = None;
            wound(t, dmg, msg, slain, &mut opt, player, log, rng);
            let ghost t1 = opt;
            match opt {
                Some(t2) => {
                    monsters.insert(k, t2);
                },
                None => {},
            }
            assert(monsters@ =~= put_back(ms0, k as int, t1));
            assert(throw_damage_ok(item.kind, dmg as int));
            (true, None)
        },
        None => {
            let spot = drop_spot(map, occupied, player_pos, rng);
            match spot {
                Some(p) => {
                    say(log, text3("The ", &item.name, " clatters to the floor."));
                    (true, Some((p, item)))
                },
                None => {
                    say(log, text3("The ", &item.name, " disappears into the darkness."));
                    (true, None)
                },
            }
        },
    }
}

} // verus!
