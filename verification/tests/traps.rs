use rand::rngs::StdRng;
use rand::SeedableRng;
use rogue::cli::components::{Stats, StatusEffects};
use rogue::cli::setup::{monster_order, starting_pack, starting_stats};
use rogue::cli::traps::{amulet_spot, assign_trap_kinds, first_free_floor, spring_trap, trap_at, trap_kind_for, TrapKind};
use rogue::data::{Config, MonsterDef};
use rogue::geometry::Point;
use rogue::map::{LevelMap, TileKind};

fn player(hp: i32) -> Stats {
    Stats {
        hp,
        max_hp: 12,
        level: 1,
        strength: 16,
        armor: 7,
        damage: "1x4".parse().unwrap(),
        hit_plus: 0,
        dam_plus: 0,
        xp_reward: 0,
    }
}

#[test]
fn trap_kinds_follow_the_roll() {
    assert_eq!(trap_kind_for(0), TrapKind::Pit);
    assert_eq!(trap_kind_for(2), TrapKind::TeleportTrap);
    assert_eq!(trap_kind_for(5), TrapKind::SleepiGas);
}

#[test]
fn every_trap_tile_gets_a_kind_in_reading_order() {
    let mut m = LevelMap::new(6, 4);
    m.set_tile(Point::new(4, 0), TileKind::Trap);
    m.set_tile(Point::new(1, 2), TileKind::Trap);
    m.set_tile(Point::new(5, 3), TileKind::Trap);
    m.set_tile(Point::new(2, 2), TileKind::Floor);
    let mut rng = StdRng::seed_from_u64(1);
    let kinds = assign_trap_kinds(&m, &mut rng);
    let ps: Vec<Point> = kinds.iter().map(|k| k.0).collect();
    assert_eq!(ps, vec![Point::new(4, 0), Point::new(1, 2), Point::new(5, 3)]);
    assert_eq!(trap_at(&kinds, Point::new(1, 2)), kinds[1].1);
    assert_eq!(trap_at(&kinds, Point::new(0, 0)), TrapKind::Pit);
}

#[test]
fn pits_hurt_and_can_kill() {
    let m = LevelMap::new(3, 3);
    let mut rng = StdRng::seed_from_u64(2);
    let mut p = player(12);
    let mut status = StatusEffects::default();
    let mut pos = Point::new(1, 1);
    let mut log = Vec::new();
    let died = spring_trap(TrapKind::Pit, &mut p, &mut status, &mut pos, &m, &[], &mut log, &mut rng);
    assert!(!died);
    let dmg = 12 - p.hp;
    assert!((1..=6).contains(&dmg));
    assert_eq!(log, vec![format!("You fall into a pit! (-{dmg} HP)")]);

    let mut p = player(1);
    log.clear();
    assert!(spring_trap(TrapKind::ArrowTrap, &mut p, &mut status, &mut pos, &m, &[], &mut log, &mut rng));
    assert_eq!(log[0], "You die...");
}

#[test]
fn sleeping_and_poison_traps() {
    let m = LevelMap::new(3, 3);
    let mut rng = StdRng::seed_from_u64(3);
    let mut p = player(12);
    let mut status = StatusEffects::default();
    let mut pos = Point::new(1, 1);
    let mut log = Vec::new();
    spring_trap(TrapKind::BearTrap, &mut p, &mut status, &mut pos, &m, &[], &mut log, &mut rng);
    assert!((3..=5).contains(&status.paralyzed));
    assert_eq!(log[0], format!("You are paralyzed for {} turns!", status.paralyzed));
    spring_trap(TrapKind::PoisonNeedle, &mut p, &mut status, &mut pos, &m, &[], &mut log, &mut rng);
    assert_eq!(status.poisoned, 8);
    assert_eq!(&log[2..], &["You are poisoned!".to_string(), "A poisoned needle pricks you!".to_string()]);
}

#[test]
fn teleport_trap_moves_to_free_floor() {
    let mut m = LevelMap::new(4, 4);
    m.set_tile(Point::new(1, 1), TileKind::Floor);
    m.set_tile(Point::new(2, 2), TileKind::Floor);
    let mut rng = StdRng::seed_from_u64(4);
    let mut p = player(12);
    let mut status = StatusEffects::default();
    let mut pos = Point::new(1, 1);
    let mut log = Vec::new();
    spring_trap(TrapKind::TeleportTrap, &mut p, &mut status, &mut pos, &m, &[Point::new(1, 1)], &mut log, &mut rng);
    assert_eq!(pos, Point::new(2, 2));
    assert_eq!(log, vec!["You blink across the dungeon!".to_string(), "A teleportation trap whisks you away!".to_string()]);
}

#[test]
fn first_free_floor_in_reading_order() {
    let mut m = LevelMap::new(4, 3);
    m.set_tile(Point::new(3, 0), TileKind::Floor);
    m.set_tile(Point::new(0, 1), TileKind::Floor);
    assert_eq!(first_free_floor(&m, &[]), Some(Point::new(3, 0)));
    assert_eq!(first_free_floor(&m, &[Point::new(3, 0)]), Some(Point::new(0, 1)));
    assert_eq!(first_free_floor(&m, &[Point::new(3, 0), Point::new(0, 1)]), None);
}

fn monster(name: &str, experience: i32) -> MonsterDef {
    MonsterDef {
        name: name.to_string(),
        symbol: 'x',
        carry: 0,
        flags: vec![],
        strength: 10,
        experience,
        level: 1,
        armor: 8,
        damage: "1x4".parse().unwrap(),
    }
}

#[test]
fn monsters_ordered_easiest_first_keeping_ties() {
    let ms = vec![monster("a", 20), monster("b", 5), monster("c", 20), monster("d", 1), monster("e", 5)];
    assert_eq!(monster_order(&ms), vec![3, 1, 4, 0, 2]);
    assert!(monster_order(&Vec::new()).is_empty());
}

#[test]
fn a_run_starts_with_configured_stats_and_food() {
    let cfg = Config {
        map_width: 80,
        map_height: 24,
        max_rooms: 9,
        max_passages: 13,
        max_objects_per_level: 9,
        max_traps: 10,
        amulet_level: 26,
        hunger_time: 1300,
        stomach_size: 2000,
        start_hp: 12,
        start_strength: 16,
        start_armor: 7,
    };
    let s = starting_stats(&cfg);
    assert_eq!((s.hp, s.max_hp, s.level, s.strength, s.armor), (12, 12, 1, 16, 7));
    assert_eq!(s.damage, "2x4".parse().unwrap());
    let pack = starting_pack();
    assert_eq!(pack.len(), 1);
    assert_eq!(pack[0].name, "food ration");
}

#[test]
fn the_amulet_lies_on_the_first_free_floor_of_its_level() {
    let mut m = LevelMap::new(5, 3);
    m.set_tile(Point::new(3, 0), TileKind::Floor);
    m.set_tile(Point::new(1, 2), TileKind::Floor);
    // Shallower than the Amulet's level: no Amulet.
    assert_eq!(amulet_spot(&m, &[], 25, 26), None);
    assert_eq!(amulet_spot(&m, &[], 26, 26), Some(Point::new(3, 0)));
    assert_eq!(amulet_spot(&m, &[Point::new(3, 0)], 27, 26), Some(Point::new(1, 2)));
    // No free floor: the stairs, else where the player starts.
    let taken = [Point::new(3, 0), Point::new(1, 2)];
    assert_eq!(amulet_spot(&m, &taken, 26, 26), Some(m.player_start));
    m.stairs_down = Some(Point::new(4, 2));
    assert_eq!(amulet_spot(&m, &taken, 26, 26), Some(Point::new(4, 2)));
}
