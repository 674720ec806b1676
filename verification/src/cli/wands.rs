//! Zapping wands: what each wand does to the monster it is aimed at, to the
//! player and to the level, and the messages it leaves in the log.

use vstd::prelude::*;
use crate::cli::aim::{nearest_ok, zap_metric, zap_target};
use crate::cli::components::{Item, ItemKind, Stats, StatusEffects, WandKind};
use crate::cli::rules::{apply_status, gain_xp, landing_ok, level_for_xp, status_after, status_fits, teleport_target, xp_fits, xp_gained};
use crate::geometry::Point;
use crate::map::{LevelMap, TileKind};
use crate::rng::{RogueRng, roll_outcome};
use crate::text::{int_text, push_int, push_str};

verus! {

/// A monster a wand is aimed at, as plain values.
pub struct Target {
    pub name: String,
    pub pos: Point,
    pub stats: Stats,
}

/// Wands whose bolt hurts the target by a dice roll.
pub open spec fn is_bolt(kind: WandKind) -> bool {
    kind == WandKind::MagicMissile || kind == WandKind::Fire || kind == WandKind::Cold || kind == WandKind::Lightning
}

/// The dice of a bolt: how many, and how many sides.
pub open spec fn bolt_dice(kind: WandKind) -> (int, int) {
    match kind {
        WandKind::MagicMissile => (2, 6),
        WandKind::Fire => (3, 6),
        WandKind::Cold => (2, 8),
        _ => (4, 6),
    }
}

/// Wands that need a target to do anything.
pub open spec fn is_aimed(kind: WandKind) -> bool {
    !(kind == WandKind::Haste || kind == WandKind::Light || kind == WandKind::NothingWand || kind == WandKind::Unknown)
}

/// The message of a bolt that hurts `name` by `dmg`.
pub open spec fn bolt_text(kind: WandKind, name: Seq<char>, dmg: int) -> Seq<char> {
    match kind {
        WandKind::MagicMissile => "The missile hits the "@ + name + " for "@ + int_text(dmg) + "."@,
        WandKind::Fire => "A burst of fire hits the "@ + name + " for "@ + int_text(dmg) + "!"@,
        WandKind::Cold => "An icy blast hits the "@ + name + " for "@ + int_text(dmg) + "!"@,
        _ => "A bolt of lightning strikes the "@ + name + " for "@ + int_text(dmg) + "!"@,
    }
}

/// The message of an aimed wand that hits `name` without a dice roll.
pub open spec fn struck_text(kind: WandKind, name: Seq<char>) -> Seq<char> {
    match kind {
        WandKind::Slow => "The "@ + name + " slows down."@,
        WandKind::Fear => "The "@ + name + " turns and flees!"@,
        WandKind::Confusion => "The "@ + name + " looks confused."@,
        WandKind::DrainLife => "You drain life from the "@ + name + "!"@,
        WandKind::Polymorph => "The "@ + name + " transforms!"@,
        WandKind::TeleportAway => "The "@ + name + " vanishes!"@,
        _ => "The monster's powers are cancelled."@,
    }
}

/// The message of an aimed wand with nothing to aim at.
pub open spec fn miss_text(kind: WandKind) -> Seq<char> {
    match kind {
        WandKind::MagicMissile => "The missile flies off into the dark."@,
        WandKind::DrainLife => "The drain beam finds nothing."@,
        WandKind::Fire => "A burst of fire scorches the wall."@,
        WandKind::Cold => "The icy blast fades away."@,
        WandKind::Lightning => "The lightning bolt crackles into the wall."@,
        _ => "The beam dissipates."@,
    }
}

/// The message when a zap kills `name`.
pub open spec fn slain_text(name: Seq<char>) -> Seq<char> {
    "You have slain the "@ + name + "!"@
}

/// The message of reaching experience level `lvl`.
pub open spec fn level_text(lvl: int) -> Seq<char> {
    "Welcome to level "@ + int_text(lvl) + "!"@
}

/// Half of `hp`, rounded toward zero: what draining life takes.
pub open spec fn drained(hp: int) -> int {
    if hp >= 0 { hp / 2 } else { -((-hp) / 2) }
}

/// The messages of the log, as character sequences.
pub open spec fn texts(log: Seq<String>) -> Seq<Seq<char>> {
    log.map_values(|s: String| s@)
}

/// `t` with its hit points set to `hp`.
pub open spec fn with_hp(t: Target, hp: int) -> Target {
    Target { name: t.name, pos: t.pos, stats: Stats { hp: hp as i32, ..t.stats } }
}

/// `t` moved to `p`.
pub open spec fn moved_to(t: Target, p: Point) -> Target {
    Target { name: t.name, pos: p, stats: t.stats }
}

/// What a wound of `dmg` does: the target lives on with fewer hit points, or
/// dies and leaves the player its experience; the log gets the wound's
/// message, then the kill's.
pub open spec fn wounded(
    t: Target,
    dmg: int,
    msg: Seq<char>,
    slain: Seq<char>,
    t1: Option<Target>,
    log0: Seq<Seq<char>>,
    log1: Seq<Seq<char>>,
    p0: Stats,
    p1: Stats,
) -> bool {
    if t.stats.hp - dmg <= 0 {
        &&& t1 is None
        &&& log1 == if level_for_xp(p0.xp_reward + t.stats.xp_reward) > p0.level {
            log0.push(msg).push(slain).push(level_text(p1.level as int))
        } else {
            log0.push(msg).push(slain)
        }
        &&& xp_gained(p0, p1, t.stats.xp_reward as int)
    } else {
        &&& t1 == Some(with_hp(t, t.stats.hp - dmg))
        &&& log1 == log0.push(msg)
        &&& p1 == p0
    }
}

/// The level after magic mapping: every tile that is not rock is revealed.
pub open spec fn mapped(m0: &LevelMap, m1: &LevelMap) -> bool {
    &&& m1.wf()
    &&& m1.same_except_sight(*m0)
    &&& m1.visible_seq() == m0.visible_seq()
    &&& forall|q: Point|
        #[trigger] m1.spec_is_revealed(q) == (m0.spec_is_revealed(q) || (m0.spec_in_bounds(q) && m0.spec_tile(q)
            != TileKind::Empty))
}

/// What zapping a wand of `kind` does: `t0`, `p0`, `s0`, `m0` and `log0` are
/// the target, player, status effects, level and log before, the others after;
/// `occupied` are the tiles entities stand on.
pub open spec fn wand_applied(
    kind: WandKind,
    t0: Option<Target>,
    t1: Option<Target>,
    p0: Stats,
    p1: Stats,
    s0: StatusEffects,
    s1: StatusEffects,
    m0: &LevelMap,
    m1: &LevelMap,
    occupied: Seq<Point>,
    log0: Seq<Seq<char>>,
    log1: Seq<Seq<char>>,
) -> bool {
    &&& s1 == if kind == WandKind::Haste { status_after(s0, "haste"@, 20) } else { s0 }
    &&& kind == WandKind::Light ==> mapped(m0, m1)
    &&& kind != WandKind::Light ==> *m1 == *m0
    &&& kind == WandKind::Haste ==> log1 == log0.push("You feel yourself moving faster for 20 turns!"@)
    &&& kind == WandKind::Light ==> log1 == log0.push("The dungeon layout floods into your mind!"@).push(
        "The area is illuminated!"@)
    &&& kind == WandKind::NothingWand || kind == WandKind::Unknown ==> log1 == log0.push("Nothing happens."@)
    &&& !is_aimed(kind) ==> t1 == t0 && p1 == p0
    &&& is_aimed(kind) && t0 is None ==> t1 == t0 && p1 == p0 && log1 == log0.push(miss_text(kind))
    &&& is_aimed(kind) && t0 is Some ==> {
        let t = t0->0;
        let slain = slain_text(t.name@);
        if is_bolt(kind) {
            exists|r: int|
                roll_outcome(bolt_dice(kind).0, bolt_dice(kind).1, r) && #[trigger] wounded(t, r, bolt_text(kind, t.name@, r),
                    slain, t1, log0, log1, p0, p1)
        } else if kind == WandKind::DrainLife {
            wounded(t, drained(t.stats.hp as int), struck_text(kind, t.name@), slain, t1, log0, log1, p0, p1)
        } else if kind == WandKind::Polymorph {
            t1 is None && log1 == log0.push(struck_text(kind, t.name@)) && p1 == p0
        } else if kind == WandKind::TeleportAway {
            &&& log1 == log0.push(struck_text(kind, t.name@))
            &&& p1 == p0
            &&& match t1 {
                Some(t2) => (t2 == t && forall|p: Point| !landing_ok(m0, occupied, p)) || exists|p: Point|
                    landing_ok(m0, occupied, p) && t2 == #[trigger] moved_to(t, p),
                None => false,
            }
        } else {
            t1 == t0 && log1 == log0.push(struck_text(kind, t.name@)) && p1 == p0
        }
    }
}

/// What a zap does to the player's status and to a target that lives on:
/// only a wand of haste self touches a counter, adding 20 turns of haste; a
/// bolt that leaves its target alive takes from it between 2 and 12 hit
/// points for magic missile (2d6), 3 and 18 for fire (3d6), 2 and 16 for
/// cold (2d8), 4 and 24 for lightning (4d6).
pub proof fn lemma_wand_effects(
    kind: WandKind,
    t0: Option<Target>,
    t1: Option<Target>,
    p0: Stats,
    p1: Stats,
    s0: StatusEffects,
    s1: StatusEffects,
    m0: &LevelMap,
    m1: &LevelMap,
    occupied: Seq<Point>,
    log0: Seq<Seq<char>>,
    log1: Seq<Seq<char>>,
)
    requires
        wand_applied(kind, t0, t1, p0, p1, s0, s1, m0, m1, occupied, log0, log1),
        status_fits(s0, 20),
    ensures
        s1.haste == s0.haste + (if kind == WandKind::Haste { 20int } else { 0 }),
        s1.confused == s0.confused,
        s1.blind == s0.blind,
        s1.poisoned == s0.poisoned,
        s1.paralyzed == s0.paralyzed,
        s1.poison_tick == s0.poison_tick,
        is_bolt(kind) && t0 is Some && t1 is Some ==> {
            let taken = t0->0.stats.hp - t1->0.stats.hp;
            let (lo, hi) = if kind == WandKind::MagicMissile {
                (2int, 12int)
            } else if kind == WandKind::Fire {
                (3int, 18int)
            } else if kind == WandKind::Cold {
                (2int, 16int)
            } else {
                (4int, 24int)
            };
            lo <= taken <= hi
        },
{
    reveal_strlit("haste");
    reveal_strlit("confused");
    reveal_strlit("blind");
    reveal_strlit("poisoned");
    reveal_strlit("paralyzed");
    reveal_strlit("restore");
    assert("confused"@.len() == 8 && "blind"@.len() == 5 && "poisoned"@.len() == 8 && "paralyzed"@.len() == 9
        && "haste"@.len() == 5 && "restore"@.len() == 7);
    assert("blind"@[0] != "haste"@[0]);
    if is_bolt(kind) && t0 is Some && t1 is Some {
        let t = t0->0;
        let r = choose|r: int|
            roll_outcome(bolt_dice(kind).0, bolt_dice(kind).1, r) && #[trigger] wounded(t, r, bolt_text(kind, t.name@, r),
                slain_text(t.name@), t1, log0, log1, p0, p1);
        assert(t.stats.hp - r > 0);
        assert(t1 == Some(with_hp(t, t.stats.hp - r)));
    }
}

/// A fresh copy of `a`.
pub(crate) fn text1(a: &str) -> (s: String)
    ensures
        s@ == a@,
{
    let mut s = String::new();
    push_str(&mut s, a);
    s
}

/// The message of an aimed wand with nothing to aim at.
fn miss_string(kind: WandKind) -> (s: String)
    ensures
        s@ == miss_text(kind),
{
    match kind {
        WandKind::MagicMissile => text1("The missile flies off into the dark."),
        WandKind::DrainLife => text1("The drain beam finds nothing."),
        WandKind::Fire => text1("A burst of fire scorches the wall."),
        WandKind::Cold => text1("The icy blast fades away."),
        WandKind::Lightning => text1("The lightning bolt crackles into the wall."),
        _ => text1("The beam dissipates."),
    }
}

/// A fresh string `a + name + b`.
pub(crate) fn text3(a: &str, name: &String, b: &str) -> (s: String)
    ensures
        s@ == a@ + name@ + b@,
{
    let mut s = String::new();
    push_str(&mut s, a);
    push_str(&mut s, name.as_str());
    push_str(&mut s, b);
    s
}

/// A fresh string `a + name + b + n + c`.
fn text5(a: &str, name: &String, b: &str, n: i32, c: &str) -> (s: String)
    ensures
        s@ == a@ + name@ + b@ + int_text(n as int) + c@,
{
    let mut s = text3(a, name, b);
    push_int(&mut s, n as i64);
    push_str(&mut s, c);
    s
}

/// Append a message to the log.
pub(crate) fn say(log: &mut Vec<String>, msg: String)
    ensures
        texts(final(log)@) == texts(old(log)@).push(msg@),
{
    log.push(msg);
    assert(texts(log@) =~= texts(old(log)@).push(msg@));
}

/// How many messages the game keeps.
pub const MAX_LOG: usize = 200;

/// The last `n` messages of `s` (all of them when there are fewer).
pub open spec fn keep_last(s: Seq<Seq<char>>, n: int) -> Seq<Seq<char>> {
    if s.len() > n {
        s.subrange(s.len() - n, s.len() as int)
    } else {
        s
    }
}

/// Drop the oldest messages beyond the last `MAX_LOG`.
pub fn trim_log(log: &mut Vec<String>)
    ensures
        texts(final(log)@) == keep_last(texts(old(log)@), MAX_LOG as int),
{
    if log.len() > MAX_LOG {
        let extra = log.len() - MAX_LOG;
        let kept = log.split_off(extra);
        *log = kept;
        assert(texts(log@) =~= keep_last(texts(old(log)@), MAX_LOG as int));
    }
}

/// Hurt `t` by `dmg`: it loses the hit points, and if that kills it the player
/// is awarded its experience.
pub(crate) fn wound<R: RogueRng>(
    t: Target,
    dmg: i32,
    msg: String,
    slain: String,
    target: &mut Option<Target>,
    player: &mut Stats,
    log: &mut Vec<String>,
    rng: &mut R,
)
    requires
        i32::MIN <= t.stats.hp - dmg <= i32::MAX,
        xp_fits(*old(player), t.stats.xp_reward as int),
    ensures
        wounded(t, dmg as int, msg@, slain@, *final(target), texts(old(log)@), texts(final(log)@), *old(player), *final(player)),
{
    let hp = t.stats.hp - dmg;
    let ghost name = t.name@;
    if hp <= 0 {
        let xp = t.stats.xp_reward;
        *target = None;
        say(log, msg);
        say(log, slain);
        if gain_xp(player, xp, rng) {
            let mut w = text1("Welcome to level ");
            push_int(&mut w, player.level as i64);
            push_str(&mut w, "!");
            say(log, w);
        }
    } else {
        let mut t2 = t;
        t2.stats.hp = hp;
        *target = Some(t2);
        say(log, msg);
    }
}

/// Zap a wand of `kind` at `target` (if any monster is in view).
///
/// Bolts (magic missile 2d6, fire 3d6, cold 2d8, lightning 4d6) and draining
/// (half the target's hit points) hurt the target, which dies at zero hit
/// points and leaves the player its experience; polymorph removes it;
/// teleport-away moves it to a free walkable tile; haste speeds the player up
/// for 20 turns; light maps the level. `occupied` are the tiles that entities
/// stand on.
pub fn apply_wand<R: RogueRng>(
    kind: WandKind,
    target: &mut Option<Target>,
    player: &mut Stats,
    status: &mut StatusEffects,
    map: &mut LevelMap,
    occupied: &[Point],
    log: &mut Vec<String>,
    rng: &mut R,
)
    requires
        old(map).wf(),
        status_fits(*old(status), 20),
        (*old(target)) is Some ==> (*old(target))->0.stats.hp >= i32::MIN + 24,
        (*old(target)) is Some ==> xp_fits(*old(player), (*old(target))->0.stats.xp_reward as int),
    ensures
        wand_applied(kind, *old(target), *final(target), *old(player), *final(player), *old(status), *final(status),
            old(map), final(map), occupied@, texts(old(log)@), texts(final(log)@)),
{
    match kind {
        WandKind::Haste => {
            apply_status(status, "haste", 20);
            say(log, text1("You feel yourself moving faster for 20 turns!"));
        },
        WandKind::Light => {
            map.magic_mapping();
            say(log, text1("The dungeon layout floods into your mind!"));
            say(log, text1("The area is illuminated!"));
        },
        WandKind::NothingWand | WandKind::Unknown => {
            say(log, text1("Nothing happens."));
        },
        _ => {
            let taken = target.take();
            match taken {
                None => {
                    say(log, miss_string(kind));
                },
                Some(t) => {
                    let ghost t0 = t;
                    match kind {
                        WandKind::MagicMissile => {
                            let dmg = rng.roll(2, 6);
                            let msg = text5("The missile hits the ", &t.name, " for ", dmg, ".");
                            let slain = text3("You have slain the ", &t.name, "!");
                            wound(t, dmg, msg, slain, target, player, log, rng);
                            assert(wounded(t0, dmg as int, bolt_text(kind, t0.name@, dmg as int), slain_text(t0.name@), *target,
                                texts(old(log)@), texts(log@), *old(player), *player));
                        },
                        WandKind::Fire => {
                            let dmg = rng.roll(3, 6);
                            let msg = text5("A burst of fire hits the ", &t.name, " for ", dmg, "!");
                            let slain = text3("You have slain the ", &t.name, "!");
                            wound(t, dmg, msg, slain, target, player, log, rng);
                            assert(wounded(t0, dmg as int, bolt_text(kind, t0.name@, dmg as int), slain_text(t0.name@), *target,
                                texts(old(log)@), texts(log@), *old(player), *player));
                        },
                        WandKind::Cold => {
                            let dmg = rng.roll(2, 8);
                            let msg = text5("An icy blast hits the ", &t.name, " for ", dmg, "!");
                            let slain = text3("You have slain the ", &t.name, "!");
                            wound(t, dmg, msg, slain, target, player, log, rng);
                            assert(wounded(t0, dmg as int, bolt_text(kind, t0.name@, dmg as int), slain_text(t0.name@), *target,
                                texts(old(log)@), texts(log@), *old(player), *player));
                        },
                        WandKind::Lightning => {
                            let dmg = rng.roll(4, 6);
                            let msg = text5("A bolt of lightning strikes the ", &t.name, " for ", dmg, "!");
                            let slain = text3("You have slain the ", &t.name, "!");
                            wound(t, dmg, msg, slain, target, player, log, rng);
                            assert(wounded(t0, dmg as int, bolt_text(kind, t0.name@, dmg as int), slain_text(t0.name@), *target,
                                texts(old(log)@), texts(log@), *old(player), *player));
                        },
                        WandKind::DrainLife => {
                            let hp = t.stats.hp;
                            let dmg = if hp >= 0 { hp / 2 } else { -((-hp) / 2) };
                            let msg = text3("You drain life from the ", &t.name, "!");
                            let slain = text3("You have slain the ", &t.name, "!");
                            wound(t, dmg, msg, slain, target, player, log, rng);
                        },
                        WandKind::Polymorph => {
                            say(log, text3("The ", &t.name, " transforms!"));
                        },
                        WandKind::TeleportAway => {
                            let dest = teleport_target(map, occupied, rng);
                            let msg = text3("The ", &t.name, " vanishes!");
                            let mut t2 = t;
                            match dest {
                                Some(p) => {
                                    t2.pos = p;
                                    assert(t2 == moved_to(t0, p));
                                },
                                None => {},
                            }
                            *target = Some(t2);
                            say(log, msg);
                        },
                        WandKind::Slow => {
                            let msg = text3("The ", &t.name, " slows down.");
                            *target = Some(t);
                            say(log, msg);
                        },
                        WandKind::Fear => {
                            let msg = text3("The ", &t.name, " turns and flees!");
                            *target = Some(t);
                            say(log, msg);
                        },
                        WandKind::Confusion => {
                            let msg = text3("The ", &t.name, " looks confused.");
                            *target = Some(t);
                            say(log, msg);
                        },
                        _ => {
                            *target = Some(t);
                            say(log, text1("The monster's powers are cancelled."));
                        },
                    }
                },
            }
        },
    }
}

/// `i` is the first wand in the pack.
pub open spec fn is_first_wand(inv: Seq<Item>, i: int) -> bool {
    &&& 0 <= i < inv.len()
    &&& inv[i].kind is Wand
    &&& forall|j: int| 0 <= j < i ==> !(#[trigger] inv[j].kind is Wand)
}

/// The pack holds no wand.
pub open spec fn no_wand(inv: Seq<Item>) -> bool {
    forall|j: int| 0 <= j < inv.len() ==> !(#[trigger] inv[j].kind is Wand)
}

/// Where the monsters stand.
pub open spec fn positions_of(ms: Seq<Target>) -> Seq<Point> {
    ms.map_values(|t: Target| t.pos)
}

/// The monsters after a zap at `k`: the target back in its place, or gone.
pub open spec fn put_back(ms: Seq<Target>, k: int, t1: Option<Target>) -> Seq<Target> {
    match t1 {
        Some(t) => ms.update(k, t),
        None => ms.remove(k),
    }
}

/// The index of the first wand in the pack, if any.
fn find_wand(inventory: &Vec<Item>) -> (r: Option<usize>)
    ensures
        match r {
            Some(i) => is_first_wand(inventory@, i as int),
            None => no_wand(inventory@),
        },
{
    let mut i: usize = 0;
    while i < inventory.len()
        invariant
            i <= inventory@.len(),
            forall|j: int| 0 <= j < i ==> !(#[trigger] inventory@[j].kind is Wand),
        decreases inventory@.len() - i,
    {
        match inventory[i].kind {
            ItemKind::Wand { .. } => {
                return Some(i);
            },
            _ => {},
        }
        i = i + 1;
    }
    None
}

/// Zap the first wand in the pack at the nearest visible monster.
///
/// With no wand, or an exhausted one, the turn is not used. Otherwise the wand
/// loses a charge, the zap is announced and the wand takes effect (see
/// [`apply_wand`]); a monster it removes leaves the list.
pub fn zap_wand<R: RogueRng>(
    inventory: &mut Vec<Item>,
    monsters: &mut Vec<Target>,
    player_pos: Point,
    player: &mut Stats,
    status: &mut StatusEffects,
    map: &mut LevelMap,
    occupied: &[Point],
    log: &mut Vec<String>,
    rng: &mut R,
) -> (acted: bool)
    requires
        old(map).wf(),
        status_fits(*old(status), 20),
        forall|k: int| 0 <= k < old(monsters)@.len() ==> (#[trigger] old(monsters)@[k]).stats.hp >= i32::MIN + 24
            && xp_fits(*old(player), old(monsters)@[k].stats.xp_reward as int),
    ensures
        no_wand(old(inventory)@) ==> {
            &&& !acted
            &&& texts(final(log)@) == texts(old(log)@).push("You have no wands."@)
            &&& final(inventory)@ == old(inventory)@ && final(monsters)@ == old(monsters)@
            &&& *final(player) == *old(player) && *final(status) == *old(status) && *final(map) == *old(map)
        },
        forall|i: int| #[trigger] is_first_wand(old(inventory)@, i) ==> {
            let it = old(inventory)@[i];
            let kind = it.kind->Wand_kind;
            let charges = it.kind->Wand_charges;
            if charges <= 0 {
                &&& !acted
                &&& texts(final(log)@) == texts(old(log)@).push("The wand is exhausted."@)
                &&& final(inventory)@ == old(inventory)@ && final(monsters)@ == old(monsters)@
                &&& *final(player) == *old(player) && *final(status) == *old(status) && *final(map) == *old(map)
            } else {
                let log0 = texts(old(log)@).push("You zap the "@ + it.name@ + "."@);
                &&& acted
                &&& final(inventory)@ == old(inventory)@.update(i, Item {
                    name: it.name,
                    kind: ItemKind::Wand { kind, charges: (charges - 1) as i32 },
                })
                &&& exists|r: Option<usize>| #[trigger] nearest_ok(old(map), positions_of(old(monsters)@), player_pos,
                    zap_metric(), r) && match r {
                    None => final(monsters)@ == old(monsters)@ && wand_applied(kind, None, None, *old(player),
                        *final(player), *old(status), *final(status), old(map), final(map), occupied@, log0,
                        texts(final(log)@)),
                    Some(k) => exists|t1: Option<Target>| #[trigger] put_back(old(monsters)@, k as int, t1)
                        == final(monsters)@ && wand_applied(kind, Some(old(monsters)@[k as int]), t1, *old(player),
                        *final(player), *old(status), *final(status), old(map), final(map), occupied@, log0,
                        texts(final(log)@)),
                }
            }
        },
{
    let found = find_wand(inventory);
    match found {
        None => {
            say(log, text1("You have no wands."));
            false
        },
        Some(i) => {
            let (kind, charges) = match inventory[i].kind {
                ItemKind::Wand { kind, charges } => (kind, charges),
                _ => {
                    proof {
                        assert(false);
                    }
                    (WandKind::Unknown, 0)
                },
            };
            if charges <= 0 {
                say(log, text1("The wand is exhausted."));
                return false;
            }
            let ghost inv0 = inventory@;
            let it = inventory.remove(i);
            let msg = text3("You zap the ", &it.name, ".");
            inventory.insert(i, Item { name: it.name, kind: ItemKind::Wand { kind, charges: charges - 1 } });
            assert(inventory@ =~= inv0.update(i as int, Item {
                name: inv0[i as int].name,
                kind: ItemKind::Wand { kind, charges: (charges - 1) as i32 },
            }));
            say(log, msg);
            let ghost log0 = texts(log@);
            let mut positions: Vec<Point> = Vec::new();
            let mut k: usize = 0;
            while k < monsters.len()
                invariant
                    k <= monsters@.len(),
                    positions@ == positions_of(monsters@.subrange(0, k as int)),
                decreases monsters@.len() - k,
            {
                positions.push(monsters[k].pos);
                assert(monsters@.subrange(0, k + 1) =~= monsters@.subrange(0, k as int).push(monsters@[k as int]));
                k = k + 1;
            }
            assert(monsters@.subrange(0, monsters@.len() as int) =~= monsters@);
            let aim = zap_target(map, positions.as_slice(), player_pos);
            match aim {
                None => {
                    let mut none: Option<Target> = None;
                    apply_wand(kind, &mut none, player, status, map, occupied, log, rng);
                    assert(nearest_ok(old(map), positions_of(old(monsters)@), player_pos, zap_metric(), aim));
                },
                Some(k) => {
                    let ghost ms0 = monsters@;
                    let t = monsters.remove(k);
                    let mut opt = Some(t);
                    apply_wand(kind, &mut opt, player, status, map, occupied, log, rng);
                    let ghost t1 = opt;
                    match opt {
                        Some(t2) => {
                            monsters.insert(k, t2);
                            assert(monsters@ =~= put_back(ms0, k as int, t1));
                        },
                        None => {
                            assert(monsters@ =~= put_back(ms0, k as int, t1));
                        },
                    }
                    assert(nearest_ok(old(map), positions_of(old(monsters)@), player_pos, zap_metric(), aim));
                },
            }
            true
        },
    }
}

} // verus!
