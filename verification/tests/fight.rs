use rand::rngs::StdRng;
use rand::SeedableRng;
use rogue::cli::components::{MonsterSpecial, RingKind, Stats, StatusEffects};
use rogue::cli::fight::{monster_attack, monster_turn, monsters_act, player_attack, MonsterMove, Mover};
use rogue::cli::wands::Target;
use rogue::geometry::Point;
use rogue::map::{LevelMap, TileKind};

fn stats(hp: i32, armor: i32, damage: &str) -> Stats {
    Stats {
        hp,
        max_hp: hp,
        level: 3,
        strength: 16,
        armor,
        damage: damage.parse().unwrap(),
        hit_plus: 0,
        dam_plus: 0,
        xp_reward: 7,
    }
}

fn bat(hp: i32, armor: i32) -> Target {
    Target { name: "bat".to_string(), pos: Point::new(2, 2), stats: stats(hp, armor, "1x2") }
}

#[test]
fn the_player_hits_and_kills() {
    let mut rng = StdRng::seed_from_u64(1);
    let mut player = stats(12, 7, "2x4");
    player.xp_reward = 0;
    let mut log = Vec::new();
    // Armor 30 cannot be missed at level 3.
    let left = player_attack(bat(1000, 30), &mut player, None, None, &mut log, &mut rng).unwrap();
    let dmg = 1000 - left.stats.hp;
    // 2x4 plus one for strength 16.
    assert!((3..=9).contains(&dmg));
    assert_eq!(log, vec![format!("You hit the bat for {dmg}.")]);
    log.clear();
    assert!(player_attack(bat(1, 30), &mut player, Some(RingKind::IncreaseDamage), None, &mut log, &mut rng).is_none());
    assert_eq!(log[1], "You have slain the bat!");
    assert_eq!(player.xp_reward, 7);
}

#[test]
fn the_player_misses_a_hard_target() {
    let mut rng = StdRng::seed_from_u64(2);
    let mut player = stats(12, 7, "2x4");
    let mut log = Vec::new();
    // Armor -30 cannot be hit.
    let t = player_attack(bat(5, -30), &mut player, None, None, &mut log, &mut rng).unwrap();
    assert_eq!(t.stats.hp, 5);
    assert_eq!(log, vec!["You miss the bat.".to_string()]);
}

#[test]
fn monsters_hit_and_deliver_specials() {
    let mut rng = StdRng::seed_from_u64(3);
    let mut player = stats(50, 30, "2x4");
    let mut status = StatusEffects::default();
    let mut gold = 40;
    let mut log = Vec::new();
    let mut m = bat(5, 7);
    let died = monster_attack(&mut m, MonsterSpecial::StealGold, &mut player, &mut status, &mut gold, None, None,
        &mut log, &mut rng);
    assert!(!died);
    assert_eq!(gold, 0);
    let dmg = 50 - player.hp;
    assert_eq!(log, vec![format!("The bat hits you for {dmg}."), "The bat steals 40 gold and vanishes!".to_string()]);

    log.clear();
    monster_attack(&mut m, MonsterSpecial::Confuse, &mut player, &mut status, &mut gold, None, None, &mut log, &mut rng);
    assert_eq!(status.confused, 20);
    assert_eq!(&log[1..], &["You are confused for 20 turns!".to_string(), "The bat has confused you!".to_string()]);
}

#[test]
fn a_monster_can_kill_and_rings_of_protection_help() {
    let mut rng = StdRng::seed_from_u64(4);
    let mut player = stats(1, 30, "2x4");
    let mut status = StatusEffects::default();
    let mut gold = 0;
    let mut log = Vec::new();
    let mut m = bat(5, 7);
    assert!(monster_attack(&mut m, MonsterSpecial::Ordinary, &mut player, &mut status, &mut gold, None, None,
        &mut log, &mut rng));
    assert_eq!(log[0], "You die...");

    let mut player = stats(10, -30, "2x4");
    log.clear();
    let died = monster_attack(&mut m, MonsterSpecial::Ordinary, &mut player, &mut status, &mut gold,
        Some(RingKind::Protection), Some(RingKind::Protection), &mut log, &mut rng);
    assert!(!died);
    assert_eq!(log, vec!["The bat misses you.".to_string()]);
}

#[test]
fn monsters_wake_then_close_in_and_attack() {
    let mut map = LevelMap::new(9, 3);
    for x in 0..9 {
        let p = Point::new(x, 1);
        map.set_tile(p, TileKind::Floor);
        map.set_visible(p);
    }
    let player = Point::new(1, 1);
    // Asleep and out of range: stays asleep.
    assert_eq!(monster_turn(&map, &[], Point::new(8, 1), player, false, true), (false, MonsterMove::Stay));
    // In view and close: wakes and steps toward the player.
    assert_eq!(monster_turn(&map, &[], Point::new(5, 1), player, false, true), (true, MonsterMove::Step(Point::new(4, 1))));
    // Next to the player: attacks.
    assert_eq!(monster_turn(&map, &[], Point::new(2, 1), player, true, true), (true, MonsterMove::Attack));
    // Not mean: stays.
    assert_eq!(monster_turn(&map, &[], Point::new(2, 1), player, true, false), (true, MonsterMove::Stay));
}

#[test]
fn monsters_take_their_turns_in_order() {
    // A one-tile-high corridor: monsters cannot pass each other.
    let mut map = LevelMap::new(9, 3);
    for x in 0..9 {
        let p = Point::new(x, 1);
        map.set_tile(p, TileKind::Floor);
        map.set_visible(p);
    }
    let player = Point::new(1, 1);
    let mut movers = vec![
        Mover { pos: Point::new(4, 1), awake: false, mean: true },
        Mover { pos: Point::new(3, 1), awake: true, mean: true },
        Mover { pos: Point::new(2, 1), awake: true, mean: true },
        Mover { pos: Point::new(6, 1), awake: true, mean: false },
    ];
    let attackers = monsters_act(&map, &mut movers, player);
    assert_eq!(attackers, vec![2]);
    // The first wakes and, with the second in its way, takes the only open
    // tile (greedy steps need not get closer); the second has the third in
    // its way and the first gone from behind it, so it backs off too; the
    // third strikes; the fourth is not mean.
    assert_eq!(movers[0], Mover { pos: Point::new(5, 1), awake: true, mean: true });
    assert_eq!(movers[1], Mover { pos: Point::new(4, 1), awake: true, mean: true });
    assert_eq!(movers[2], Mover { pos: Point::new(2, 1), awake: true, mean: true });
    assert_eq!(movers[3], Mover { pos: Point::new(6, 1), awake: true, mean: false });
    // Once the way is clear, the one behind closes in.
    let mut movers = vec![Mover { pos: Point::new(4, 1), awake: true, mean: true }];
    assert!(monsters_act(&map, &mut movers, player).is_empty());
    assert_eq!(movers[0].pos, Point::new(3, 1));
}
