//! Melee in the terminal game: the player's blows (with ring bonuses), a
//! monster's blows and special attacks, and what a monster does on its turn.

use vstd::prelude::*;
use crate::cli::components::{MonsterSpecial, RingKind, Stats, StatusEffects};
use crate::cli::rules::{apply_monster_special, best_step, ring_bonus, rings_of, special_applied, status_fits, step_toward, xp_fits};
use crate::cli::wands::{Target, say, slain_text, text1, text3, texts, wound, wounded};
use crate::combat::{Attacker, attack_fits, attack_max, attack_result, roll_attack, valid_rolls};
use crate::dice::DamageRoll;
use crate::geometry::Point;
use crate::map::LevelMap;
use crate::rng::RogueRng;
use crate::text::{int_text, push_int, push_str};

verus! {

/// The player as an attacker: strength, to-hit and damage raised by one for
/// each ring of adding strength, dexterity and increasing damage worn.
pub open spec fn player_attacker(p: Stats, left: Option<RingKind>, right: Option<RingKind>) -> Attacker {
    Attacker {
        level: p.level,
        strength: (p.strength + rings_of(left, right, RingKind::AddStrength)) as i32,
        damage: p.damage,
        hit_plus: (p.hit_plus + rings_of(left, right, RingKind::Dexterity)) as i32,
        dam_plus: (p.dam_plus + rings_of(left, right, RingKind::IncreaseDamage)) as i32,
    }
}

/// A monster as an attacker.
pub open spec fn monster_attacker(s: Stats) -> Attacker {
    Attacker { level: s.level, strength: s.strength, damage: s.damage, hit_plus: s.hit_plus, dam_plus: s.dam_plus }
}

/// The message of the player's blow that hits `name` for `dmg`.
pub open spec fn hit_text(name: Seq<char>, dmg: int) -> Seq<char> {
    "You hit the "@ + name + " for "@ + int_text(dmg) + "."@
}

/// The player strikes `target`: on a hit it loses the damage and, at zero hit
/// points, dies and leaves the player its experience (`None` is returned);
/// on a miss nothing changes but the log.
pub fn player_attack<R: RogueRng>(
    target: Target,
    player: &mut Stats,
    left: Option<RingKind>,
    right: Option<RingKind>,
    log: &mut Vec<String>,
    rng: &mut R,
) -> (r: Option<Target>)
    requires
        old(player).strength <= i32::MAX - 2,
        old(player).hit_plus <= i32::MAX - 2,
        old(player).dam_plus <= i32::MAX - 2,
        attack_fits(player_attacker(*old(player), left, right), target.stats.armor as int),
        target.stats.hp - attack_max(player_attacker(*old(player), left, right), old(player).damage.0@.len()) >= i32::MIN,
        xp_fits(*old(player), target.stats.xp_reward as int),
    ensures
        ({
            let att = player_attacker(*old(player), left, right);
            exists|sw: Seq<int>, dm: Seq<int>|
                #![trigger valid_rolls(att, sw, dm)]
                valid_rolls(att, sw, dm) && match attack_result(att, target.stats.armor as int, sw, dm) {
                    Some(d) => wounded(target, d, hit_text(target.name@, d), slain_text(target.name@), r,
                        texts(old(log)@), texts(final(log)@), *old(player), *final(player)),
                    None => r == Some(target) && *final(player) == *old(player) && texts(final(log)@) == texts(
                        old(log)@).push("You miss the "@ + target.name@ + "."@),
                }
        }),
{
    let mut damage = DamageRoll(Vec::new());
    std::mem::swap(&mut damage, &mut player.damage);
    let att = Attacker {
        level: player.level,
        strength: player.strength + ring_bonus(left, right, RingKind::AddStrength),
        damage,
        hit_plus: player.hit_plus + ring_bonus(left, right, RingKind::Dexterity),
        dam_plus: player.dam_plus + ring_bonus(left, right, RingKind::IncreaseDamage),
    };
    assert(att == player_attacker(*old(player), left, right));
    let res = roll_attack(&att, target.stats.armor, rng);
    player.damage = att.damage;
    assert(*player == *old(player));
    match res {
        Some(dmg) => {
            let mut msg = text3("You hit the ", &target.name, " for ");
            push_int(&mut msg, dmg as i64);
            push_str(&mut msg, ".");
            let slain = text3("You have slain the ", &target.name, "!");
            let mut out: Option<Target> = None;
            wound(target, dmg, msg, slain, &mut out, player, log, rng);
            out
        },
        None => {
            say(log, text3("You miss the ", &target.name, "."));
            Some(target)
        },
    }
}

/// The messages of a monster's special attack after it hit: `lvl` is the
/// player's level and `stolen` the gold taken, after the attack.
pub open spec fn special_texts(special: MonsterSpecial, name: Seq<char>, lvl: int, stolen: int) -> Seq<Seq<char>> {
    match special {
        MonsterSpecial::Ordinary => seq![],
        MonsterSpecial::Poison => seq!["You are poisoned!"@, "The "@ + name + "'s bite is venomous!"@],
        MonsterSpecial::Confuse => seq!["You are confused for 20 turns!"@, "The "@ + name + " has confused you!"@],
        MonsterSpecial::Paralyze => seq!["You are paralyzed for 10 turns!"@, "You are paralyzed by the "@ + name + "!"@],
        MonsterSpecial::Blind => seq!["You are blinded for 30 turns!"@, "The "@ + name + " has blinded you!"@],
        MonsterSpecial::DrainLevel => seq!["The "@ + name + " drains your life force! (level "@ + int_text(lvl) + ")"@],
        MonsterSpecial::DrainStrength => seq!["The "@ + name + " saps your strength!"@],
        MonsterSpecial::StealGold => if stolen > 0 {
            seq!["The "@ + name + " steals "@ + int_text(stolen) + " gold and vanishes!"@]
        } else {
            seq!["The "@ + name + " finds nothing to steal."@]
        },
    }
}

/// What a monster's blow of `d` (or a miss, `None`) does to the player.
pub open spec fn blow_landed(
    name: Seq<char>,
    special: MonsterSpecial,
    res: Option<int>,
    p0: Stats,
    p1: Stats,
    s0: StatusEffects,
    s1: StatusEffects,
    g0: int,
    g1: int,
    log0: Seq<Seq<char>>,
    log1: Seq<Seq<char>>,
    died: bool,
) -> bool {
    match res {
        None => {
            &&& p1 == p0 && s1 == s0 && g1 == g0 && !died
            &&& log1 == log0.push("The "@ + name + " misses you."@)
        },
        Some(d) => {
            let hp = p0.hp - d;
            let after = special_applied(special, s0, p0.level as int, p0.strength as int, g0);
            &&& died == (hp <= 0)
            &&& p1.hp == hp
            &&& (s1, p1.level as int, p1.strength as int, g1) == after
            &&& p1.max_hp == p0.max_hp && p1.armor == p0.armor && p1.damage == p0.damage
            &&& p1.hit_plus == p0.hit_plus && p1.dam_plus == p0.dam_plus && p1.xp_reward == p0.xp_reward
            &&& log1 == (if died { log0.push("You die..."@) } else { log0 }).push("The "@ + name + " hits you for "@
                + int_text(d) + "."@) + special_texts(special, name, after.1, g0)
        },
    }
}

/// Push the messages of a monster's special attack.
fn say_special(log: &mut Vec<String>, special: MonsterSpecial, name: &String, lvl: i32, stolen: i32)
    ensures
        texts(final(log)@) == texts(old(log)@) + special_texts(special, name@, lvl as int, stolen as int),
{
    let ghost log0 = texts(log@);
    match special {
        MonsterSpecial::Ordinary => {},
        MonsterSpecial::Poison => {
            say(log, text1("You are poisoned!"));
            say(log, text3("The ", name, "'s bite is venomous!"));
        },
        MonsterSpecial::Confuse => {
            say(log, text1("You are confused for 20 turns!"));
            say(log, text3("The ", name, " has confused you!"));
        },
        MonsterSpecial::Paralyze => {
            say(log, text1("You are paralyzed for 10 turns!"));
            say(log, text3("You are paralyzed by the ", name, "!"));
        },
        MonsterSpecial::Blind => {
            say(log, text1("You are blinded for 30 turns!"));
            say(log, text3("The ", name, " has blinded you!"));
        },
        MonsterSpecial::DrainLevel => {
            let mut m = text3("The ", name, " drains your life force! (level ");
            push_int(&mut m, lvl as i64);
            push_str(&mut m, ")");
            say(log, m);
        },
        MonsterSpecial::DrainStrength => {
            say(log, text3("The ", name, " saps your strength!"));
        },
        MonsterSpecial::StealGold => {
            if stolen > 0 {
                let mut m = text3("The ", name, " steals ");
                push_int(&mut m, stolen as i64);
                push_str(&mut m, " gold and vanishes!");
                say(log, m);
            } else {
                say(log, text3("The ", name, " finds nothing to steal."));
            }
        },
    }
    assert(texts(log@) =~= log0 + special_texts(special, name@, lvl as int, stolen as int));
}

/// A monster strikes the player, whose armor is bettered by one for each ring
/// of protection worn. A hit takes the damage from the player's hit points and
/// delivers the monster's special attack. Returns whether the player died.
pub fn monster_attack<R: RogueRng>(
    monster: &mut Target,
    special: MonsterSpecial,
    player: &mut Stats,
    status: &mut StatusEffects,
    gold: &mut i32,
    left: Option<RingKind>,
    right: Option<RingKind>,
    log: &mut Vec<String>,
    rng: &mut R,
) -> (died: bool)
    requires
        old(player).armor >= i32::MIN + 2,
        attack_fits(monster_attacker(old(monster).stats), old(player).armor - rings_of(left, right, RingKind::Protection)),
        old(player).hp - attack_max(monster_attacker(old(monster).stats), old(monster).stats.damage.0@.len()) >= i32::MIN,
        status_fits(*old(status), 30),
        old(player).level > i32::MIN,
        old(player).strength > i32::MIN,
    ensures
        *final(monster) == *old(monster),
        ({
            let att = monster_attacker(old(monster).stats);
            let def = old(player).armor - rings_of(left, right, RingKind::Protection);
            exists|sw: Seq<int>, dm: Seq<int>|
                #![trigger valid_rolls(att, sw, dm)]
                valid_rolls(att, sw, dm) && blow_landed(old(monster).name@, special, attack_result(att, def, sw, dm),
                    *old(player), *final(player), *old(status), *final(status), *old(gold) as int, *final(gold) as int,
                    texts(old(log)@), texts(final(log)@), died)
        }),
{
    let mut damage = DamageRoll(Vec::new());
    std::mem::swap(&mut damage, &mut monster.stats.damage);
    let att = Attacker {
        level: monster.stats.level,
        strength: monster.stats.strength,
        damage,
        hit_plus: monster.stats.hit_plus,
        dam_plus: monster.stats.dam_plus,
    };
    assert(att == monster_attacker(old(monster).stats));
    let def_arm = player.armor - ring_bonus(left, right, RingKind::Protection);
    let res = roll_attack(&att, def_arm, rng);
    monster.stats.damage = att.damage;
    assert(*monster == *old(monster));
    match res {
        Some(dmg) => {
            player.hp = player.hp - dmg;
            let died = player.hp <= 0;
            if died {
                say(log, text1("You die..."));
            }
            let mut m = text3("The ", &monster.name, " hits you for ");
            push_int(&mut m, dmg as i64);
            push_str(&mut m, ".");
            say(log, m);
            let stolen = *gold;
            apply_monster_special(special, status, player, gold);
            say_special(log, special, &monster.name, player.level, stolen);
            died
        },
        None => {
            say(log, text3("The ", &monster.name, " misses you."));
            false
        },
    }
}

/// What a monster does on its turn.
#[derive(Debug, Clone, Copy, PartialEq, Eq, Structural)]
pub enum MonsterMove {
    Stay,
    /// Strike the player.
    Attack,
    /// Step onto this tile.
    Step(Point),
}

/// What a monster at `mpos` does on its turn: it wakes when it stands in
/// view within six steps of the player at `ppos`; an awake, mean monster
/// strikes when next to the player and otherwise steps greedily toward the
/// player (see [`step_toward`]), avoiding `blocked`; others stay. The result
/// is whether the monster is awake afterwards, and its move.
pub open spec fn turn_result(
    map: &LevelMap,
    blocked: Seq<Point>,
    mpos: Point,
    ppos: Point,
    awake: bool,
    mean: bool,
) -> (bool, MonsterMove) {
    let now_awake = awake || (map.spec_is_visible(mpos) && mpos.spec_chebyshev(ppos) <= 6);
    (
        now_awake,
        if !now_awake || !mean {
            MonsterMove::Stay
        } else if mpos.spec_chebyshev(ppos) <= 1 {
            MonsterMove::Attack
        } else {
            match best_step(map, blocked, mpos, ppos, 9) {
                Some((_, p)) => MonsterMove::Step(p),
                None => MonsterMove::Stay,
            }
        },
    )
}

/// A monster's turn: it wakes when it stands in view within six steps of the
/// player; an awake, mean monster strikes when next to the player and otherwise
/// steps greedily toward the player (see [`step_toward`]); others stay.
/// `blocked` are the tiles other creatures stand on. Returns whether the
/// monster is awake afterwards, and its move.
pub fn monster_turn(
    map: &LevelMap,
    blocked: &[Point],
    mpos: Point,
    ppos: Point,
    awake: bool,
    mean: bool,
) -> (r: (bool, MonsterMove))
    requires
        map.wf(),
        -0x3fff_ffff <= mpos.x <= 0x3fff_ffff,
        -0x3fff_ffff <= mpos.y <= 0x3fff_ffff,
        -0x3fff_ffff <= ppos.x <= 0x3fff_ffff,
        -0x3fff_ffff <= ppos.y <= 0x3fff_ffff,
    ensures
        r == turn_result(map, blocked@, mpos, ppos, awake, mean),
{
    let d = mpos.chebyshev(ppos);
    let awake = awake || (map.is_visible(mpos) && d <= 6);
    if !awake || !mean {
        return (awake, MonsterMove::Stay);
    }
    if d <= 1 {
        return (awake, MonsterMove::Attack);
    }
    match step_toward(map, blocked, mpos, ppos) {
        Some(p) => (awake, MonsterMove::Step(p)),
        None => (awake, MonsterMove::Stay),
    }
}

/// A monster as the turn loop sees it: where it stands, whether it is awake,
/// and whether it attacks at all.
#[derive(Debug, Clone, Copy, PartialEq, Eq, Structural)]
pub struct Mover {
    pub pos: Point,
    pub awake: bool,
    pub mean: bool,
}

/// Where the monsters stand.
pub open spec fn positions(ms: Seq<Mover>) -> Seq<Point> {
    ms.map_values(|m: Mover| m.pos)
}

/// The monsters and the attackers so far once the first `k` monsters have
/// taken their turns, in order: each turn sees where the others stand by
/// then, a step moves the monster, and a strike adds it to the attackers.
pub open spec fn acted(map: &LevelMap, ms: Seq<Mover>, ppos: Point, k: nat) -> (Seq<Mover>, Seq<usize>)
    decreases k,
{
    if k == 0 {
        (ms, Seq::empty())
    } else {
        let (cur, atk) = acted(map, ms, ppos, (k - 1) as nat);
        let m = cur[k - 1];
        let (awake, mv) = turn_result(map, positions(cur), m.pos, ppos, m.awake, m.mean);
        let pos = match mv {
            MonsterMove::Step(p) => p,
            _ => m.pos,
        };
        (
            cur.update(k - 1, Mover { pos, awake, mean: m.mean }),
            if mv == MonsterMove::Attack { atk.push((k - 1) as usize) } else { atk },
        )
    }
}

/// A monster's position lies within the range a turn can handle.
pub open spec fn turn_ready(p: Point) -> bool {
    -0x3fff_ffff <= p.x <= 0x3fff_ffff && -0x3fff_ffff <= p.y <= 0x3fff_ffff
}

proof fn lemma_acted_len(map: &LevelMap, ms: Seq<Mover>, ppos: Point, k: nat)
    requires
        k <= ms.len(),
    ensures
        acted(map, ms, ppos, k).0.len() == ms.len(),
        forall|j: int| k <= j < ms.len() ==> #[trigger] acted(map, ms, ppos, k).0[j] == ms[j],
        forall|j: int| 0 <= j < acted(map, ms, ppos, k).1.len() ==> #[trigger] acted(map, ms, ppos, k).1[j] < k,
    decreases k,
{
    if k > 0 {
        lemma_acted_len(map, ms, ppos, (k - 1) as nat);
    }
}

/// The monsters' turns, one after another in order. Returns the indices of
/// the monsters that strike the player, in order; their blows are dealt by
/// [`monster_attack`].
pub fn monsters_act(map: &LevelMap, movers: &mut Vec<Mover>, ppos: Point) -> (attackers: Vec<usize>)
    requires
        map.wf(),
        turn_ready(ppos),
        forall|i: int| 0 <= i < old(movers)@.len() ==> turn_ready(#[trigger] old(movers)@[i].pos),
    ensures
        (final(movers)@, attackers@) == acted(map, old(movers)@, ppos, old(movers)@.len()),
{
    let ghost ms = movers@;
    let mut attackers: Vec<usize> = Vec::new();
    let mut k: usize = 0;
    while k < movers.len()
        invariant
            map.wf(),
            turn_ready(ppos),
            forall|i: int| 0 <= i < ms.len() ==> turn_ready(#[trigger] ms[i].pos),
            k <= ms.len(),
            movers@.len() == ms.len(),
            (movers@, attackers@) == acted(map, ms, ppos, k as nat),
        decreases ms.len() - k,
    {
        proof {
            lemma_acted_len(map, ms, ppos, k as nat);
        }
        let mut blocked: Vec<Point> = Vec::new();
        let mut j: usize = 0;
        while j < movers.len()
            invariant
                j <= movers@.len(),
                blocked@ == positions(movers@).take(j as int),
            decreases movers@.len() - j,
        {
            blocked.push(movers[j].pos);
            j = j + 1;
            assert(blocked@ =~= positions(movers@).take(j as int));
        }
        assert(blocked@ =~= positions(movers@));
        let m = movers[k];
        assert(m == ms[k as int]);
        let (awake, mv) = monster_turn(map, &blocked, m.pos, ppos, m.awake, m.mean);
        let pos = match mv {
            MonsterMove::Step(p) => p,
            _ => m.pos,
        };
        movers.set(k, Mover { pos, awake, mean: m.mean });
        if mv == MonsterMove::Attack {
            attackers.push(k);
        }
        k = k + 1;
    }
    attackers
}

} // verus!
