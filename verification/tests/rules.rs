use rand::rngs::StdRng;
use rand::SeedableRng;
use rogue::cli::components::{Item, ItemKind, MonsterSpecial, PotionKind, RingKind, Stats, StatusEffects};
use rogue::cli::pack::{quaff, KnownItems};
use rogue::cli::rules::{
    apply_monster_special, apply_potion, apply_status, gain_xp, free_hand, pick_monster_for_depth, regen_period, ring_bonus, ring_to_remove,
    hunger_and_regen, sight_radius, step_toward, teleport_target, tick_status_effects, xp_level, Hand,
};
use rogue::geometry::Point;
use rogue::map::{LevelMap, TileKind};

#[test]
fn sight_depends_on_blindness_and_searching() {
    assert_eq!(sight_radius(true, true), 1);
    assert_eq!(sight_radius(false, true), 7);
    assert_eq!(sight_radius(false, false), 5);
}

#[test]
fn rings_on_two_hands() {
    let l = Some(RingKind::Protection);
    let r = Some(RingKind::Protection);
    assert_eq!(ring_bonus(l, r, RingKind::Protection), 2);
    assert_eq!(ring_bonus(l, None, RingKind::Dexterity), 0);
    assert_eq!(free_hand(None, r), Some(Hand::Left));
    assert_eq!(free_hand(l, None), Some(Hand::Right));
    assert_eq!(free_hand(l, r), None);
    assert_eq!(ring_to_remove(None, Some(RingKind::Stealth)), Some((Hand::Right, RingKind::Stealth)));
    assert_eq!(ring_to_remove(l, Some(RingKind::Stealth)), Some((Hand::Left, RingKind::Protection)));
    assert_eq!(ring_to_remove(None, None), None);
}

#[test]
fn confused_status_stacks_and_expires() {
    let mut s = StatusEffects::default();
    let mut strength = 16;
    apply_status(&mut s, "confused", 2);
    apply_status(&mut s, "confused", 1);
    assert_eq!(s.confused, 3);
    for _ in 0..3 {
        tick_status_effects(&mut s, &mut strength, &mut Vec::new());
    }
    assert_eq!(s.confused, 0);
    assert!(!s.is_any_active());
    apply_status(&mut s, "nonsense", 5);
    assert_eq!(s, StatusEffects::default());
}

#[test]
fn poison_drains_strength_every_third_turn() {
    let mut s = StatusEffects::default();
    let mut strength = 2;
    apply_status(&mut s, "poisoned", 2);
    tick_status_effects(&mut s, &mut strength, &mut Vec::new());
    tick_status_effects(&mut s, &mut strength, &mut Vec::new());
    assert_eq!((s.poisoned, s.poison_tick, strength), (2, 2, 2));
    tick_status_effects(&mut s, &mut strength, &mut Vec::new());
    assert_eq!((s.poisoned, s.poison_tick, strength), (1, 0, 1));
    for _ in 0..3 {
        tick_status_effects(&mut s, &mut strength, &mut Vec::new());
    }
    // Strength never drops below 1.
    assert_eq!((s.poisoned, strength), (0, 1));
    apply_status(&mut s, "poisoned", 9);
    apply_status(&mut s, "restore", 1);
    assert_eq!(s.poisoned, 0);
}

#[test]
fn experience_thresholds_double() {
    assert_eq!(xp_level(0), 1);
    assert_eq!(xp_level(9), 1);
    assert_eq!(xp_level(10), 2);
    assert_eq!(xp_level(19), 2);
    assert_eq!(xp_level(20), 3);
    assert_eq!(xp_level(40), 4);
    assert_eq!(xp_level(1_000_000_000), 28);
}

#[test]
fn regeneration_period() {
    assert_eq!(regen_period(1, false), 19);
    assert_eq!(regen_period(1, true), 9);
    assert_eq!(regen_period(20, false), 3);
    assert_eq!(regen_period(20, true), 1);
}

fn player() -> Stats {
    Stats {
        hp: 12,
        max_hp: 12,
        level: 3,
        strength: 16,
        armor: 7,
        damage: "2x4".parse().unwrap(),
        hit_plus: 0,
        dam_plus: 0,
        xp_reward: 0,
    }
}

#[test]
fn monster_specials_hit_the_player() {
    let mut s = StatusEffects::default();
    let mut p = player();
    let mut gold = 50;
    apply_monster_special(MonsterSpecial::Poison, &mut s, &mut p, &mut gold);
    assert!(s.poisoned > 0, "player should be poisoned after snake bite");
    apply_monster_special(MonsterSpecial::DrainLevel, &mut s, &mut p, &mut gold);
    assert_eq!(p.level, 2, "level should drop by one");
    apply_monster_special(MonsterSpecial::StealGold, &mut s, &mut p, &mut gold);
    assert_eq!(gold, 0, "all gold should have been stolen");
    p.level = 1;
    apply_monster_special(MonsterSpecial::DrainLevel, &mut s, &mut p, &mut gold);
    assert_eq!(p.level, 1);
    apply_monster_special(MonsterSpecial::Blind, &mut s, &mut p, &mut gold);
    assert_eq!(s.blind, 30);
    assert_eq!(p.hp, 12);
}

#[test]
fn monsters_are_drawn_near_the_depth() {
    let order: Vec<usize> = (0..26).rev().collect();
    let mut rng = StdRng::seed_from_u64(8);
    for _ in 0..200 {
        let m = pick_monster_for_depth(&order, 10, &mut rng);
        // Slots 4..=11 of the order.
        assert!((14..=21).contains(&m), "got {m}");
        let m = pick_monster_for_depth(&order, 1, &mut rng);
        assert!((23..=25).contains(&m), "got {m}");
    }
    assert_eq!(pick_monster_for_depth(&[7], 99, &mut rng), 7);
}

#[test]
fn monsters_step_greedily_around_obstacles() {
    let mut m = LevelMap::new(5, 5);
    for y in 0..5 {
        for x in 0..5 {
            m.set_tile(Point::new(x, y), TileKind::Floor);
        }
    }
    let from = Point::new(1, 2);
    let to = Point::new(4, 2);
    // Straight line: (2,1), (2,2) and (2,3) are all at distance 2; the first found wins.
    assert_eq!(step_toward(&m, &[], from, to), Some(Point::new(2, 1)));
    assert_eq!(step_toward(&m, &[Point::new(2, 1)], from, to), Some(Point::new(2, 2)));
    // The target itself is never blocked.
    assert_eq!(step_toward(&m, &[Point::new(2, 2)], Point::new(1, 2), Point::new(2, 2)), Some(Point::new(2, 2)));
    let walled = LevelMap::new(3, 3);
    assert_eq!(step_toward(&walled, &[], Point::new(1, 1), Point::new(2, 2)), None);
}

#[test]
fn quaff_healing_potion_restores_hp() {
    let mut rng = StdRng::seed_from_u64(4);
    let mut s = StatusEffects::default();
    let mut p = player();
    p.hp = p.max_hp - 10;
    let before = p.hp;
    let mut inv = vec![Item { name: "potion of healing".to_string(), kind: ItemKind::Potion(PotionKind::Healing) }];
    let mut known = KnownItems::new();
    let mut log = Vec::new();
    assert!(quaff(&mut inv, &mut p, &mut s, &mut known, &mut log, &mut rng));
    assert!(p.hp > before, "healing potion should restore HP");
    assert!(inv.is_empty());
}

#[test]
fn potions_apply_their_effects() {
    let mut rng = StdRng::seed_from_u64(4);
    let mut s = StatusEffects::default();
    let mut p = player();
    p.hp = 2;
    apply_potion(PotionKind::Healing, &mut s, &mut p, &mut rng);
    assert!(p.hp > 2, "healing potion should restore HP");
    assert!(p.hp <= 12);
    p.hp = 11;
    apply_potion(PotionKind::ExtraHealing, &mut s, &mut p, &mut rng);
    assert_eq!(p.hp, 12);
    apply_potion(PotionKind::GainStrength, &mut s, &mut p, &mut rng);
    assert_eq!(p.strength, 17);
    apply_potion(PotionKind::Blindness, &mut s, &mut p, &mut rng);
    assert_eq!(s.blind, 30);
    apply_potion(PotionKind::SeeInvisible, &mut s, &mut p, &mut rng);
    assert_eq!(s.haste, 1);
    apply_potion(PotionKind::Levitation, &mut s, &mut p, &mut rng);
    assert_eq!((p.level, p.hp, p.strength), (3, 12, 17));
}

#[test]
fn experience_raises_levels_and_hit_points() {
    let mut rng = StdRng::seed_from_u64(6);
    let mut p = player();
    p.level = 1;
    assert!(!gain_xp(&mut p, 9, &mut rng));
    assert_eq!((p.level, p.hp, p.xp_reward), (1, 12, 9));
    assert!(gain_xp(&mut p, 15, &mut rng));
    // 24 experience: level 3, two levels of 1d8 each.
    assert_eq!(p.level, 3);
    let gain = p.hp - 12;
    assert!((2..=16).contains(&gain) && gain % 2 == 0);
    assert_eq!(p.max_hp, p.hp);
}

#[test]
fn hunger_and_regeneration_turns() {
    let mut rng = StdRng::seed_from_u64(10);
    let mut food = 3;
    let mut skip = false;
    let mut counter = 0;
    let mut p = player();
    p.level = 1;
    p.hp = 10;
    // Slow digestion skips every other turn.
    hunger_and_regen(&mut food, &mut skip, &mut counter, &mut p, true, false, false, &mut Vec::new(), &mut rng);
    assert_eq!((food, skip, counter), (3, true, 1));
    hunger_and_regen(&mut food, &mut skip, &mut counter, &mut p, true, false, false, &mut Vec::new(), &mut rng);
    assert_eq!((food, skip, counter), (2, false, 2));
    // Level 1 regenerates every 19 turns; a ring of regeneration every 9.
    counter = 18;
    let u = hunger_and_regen(&mut food, &mut skip, &mut counter, &mut p, false, false, false, &mut Vec::new(), &mut rng);
    assert_eq!((food, counter, p.hp), (1, 0, 11));
    assert!(!u.fainted && !u.teleport);
    counter = 8;
    hunger_and_regen(&mut food, &mut skip, &mut counter, &mut p, false, true, false, &mut Vec::new(), &mut rng);
    assert_eq!((food, counter, p.hp), (0, 0, 12));
    // Starving: fainting sometimes costs a hit point.
    let mut fainted = 0;
    for _ in 0..200 {
        let before = p.hp;
        let u = hunger_and_regen(&mut food, &mut skip, &mut counter, &mut p, false, false, false, &mut Vec::new(), &mut rng);
        if u.fainted {
            fainted += 1;
            assert!(p.hp <= before);
        }
    }
    assert!(fainted > 0);
}

#[test]
fn teleports_land_on_open_floor() {
    let mut rng = StdRng::seed_from_u64(3);
    let mut m = LevelMap::new(4, 4);
    m.set_tile(Point::new(1, 1), TileKind::Floor);
    m.set_tile(Point::new(2, 2), TileKind::Floor);
    for _ in 0..50 {
        let p = teleport_target(&m, &[Point::new(1, 1)], &mut rng);
        assert_eq!(p, Some(Point::new(2, 2)));
    }
    assert_eq!(teleport_target(&m, &[Point::new(1, 1), Point::new(2, 2)], &mut rng), None);
}

#[test]
fn wearing_off_and_hunger_are_logged() {
    let mut s = StatusEffects::default();
    s.confused = 1;
    s.haste = 2;
    s.poisoned = 1;
    s.poison_tick = 2;
    let mut strength = 10;
    let mut log = Vec::new();
    tick_status_effects(&mut s, &mut strength, &mut log);
    assert_eq!(log, vec!["You feel less confused.".to_string(), "The poison saps your strength!".to_string()]);
    assert_eq!(strength, 9);
    let mut food = 21;
    let mut skip = false;
    let mut counter = 0;
    let mut p = player();
    let mut rng = StdRng::seed_from_u64(1);
    let mut log = Vec::new();
    hunger_and_regen(&mut food, &mut skip, &mut counter, &mut p, false, false, false, &mut log, &mut rng);
    assert_eq!(food, 20);
    assert_eq!(log, vec!["You are starting to feel hungry.".to_string()]);
}
