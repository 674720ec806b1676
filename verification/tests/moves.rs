use rand::rngs::StdRng;
use rand::SeedableRng;
use rogue::cli::components::{MonsterSpecial, Stats, StatusEffects};
use rogue::cli::moves::{enter_tile, try_move, Lying, StepOutcome};
use rogue::cli::setup::spawn_monster;
use rogue::cli::traps::TrapKind;
use rogue::data::{MonsterDef, MonsterFlag};
use rogue::geometry::Point;
use rogue::map::{LevelMap, TileKind};

fn corridor() -> LevelMap {
    let mut m = LevelMap::new(6, 3);
    for x in 0..6 {
        m.set_tile(Point::new(x, 1), TileKind::Floor);
    }
    m
}

fn player() -> Stats {
    Stats {
        hp: 12,
        max_hp: 12,
        level: 1,
        strength: 16,
        armor: 7,
        damage: "2x4".parse().unwrap(),
        hit_plus: 0,
        dam_plus: 0,
        xp_reward: 0,
    }
}

#[test]
fn steps_move_attack_or_are_blocked() {
    let m = corridor();
    let mut rng = StdRng::seed_from_u64(1);
    let mut log = Vec::new();
    let calm = StatusEffects::default();
    let pos = Point::new(2, 1);
    assert_eq!(try_move(&calm, (1, 0), pos, &m, &[], &mut log, &mut rng), StepOutcome::Moved(Point::new(3, 1)));
    assert_eq!(try_move(&calm, (0, 1), pos, &m, &[], &mut log, &mut rng), StepOutcome::Blocked);
    let monsters = [Point::new(0, 0), Point::new(1, 1), Point::new(1, 1)];
    assert_eq!(try_move(&calm, (-1, 0), pos, &m, &monsters, &mut log, &mut rng), StepOutcome::Attack(1));
    assert!(log.is_empty());
    let stuck = StatusEffects { paralyzed: 2, ..StatusEffects::default() };
    assert_eq!(try_move(&stuck, (1, 0), pos, &m, &[], &mut log, &mut rng), StepOutcome::Paralyzed);
    assert_eq!(log, vec!["You are paralyzed!".to_string()]);
}

#[test]
fn arriving_picks_up_gold_and_springs_traps() {
    let mut m = corridor();
    m.set_tile(Point::new(3, 1), TileKind::Trap);
    let mut rng = StdRng::seed_from_u64(2);
    let mut log = Vec::new();
    let mut gold = 5;
    let mut p = player();
    let mut status = StatusEffects::default();
    let mut pos = Point::new(2, 1);
    let (took, died) = enter_tile(Point::new(2, 1), Lying::Gold(30), &mut gold, &mut m, &[], &mut p, &mut status,
        &mut pos, &[], &mut log, &mut rng);
    assert!(took && !died);
    assert_eq!(gold, 35);
    let traps = [(Point::new(3, 1), TrapKind::PoisonNeedle)];
    let (took, _) = enter_tile(Point::new(3, 1), Lying::Item("dagger".to_string()), &mut gold, &mut m, &traps, &mut p,
        &mut status, &mut pos, &[], &mut log, &mut rng);
    assert!(!took);
    assert_eq!(status.poisoned, 8);
    assert_eq!(m.tile(Point::new(3, 1)), TileKind::Floor);
    assert_eq!(log, vec![
        "You found 30 gold pieces.".to_string(),
        "You see dagger here. (press g to pick up)".to_string(),
        "You are poisoned!".to_string(),
        "A poisoned needle pricks you!".to_string(),
    ]);
}

fn def(name: &str, symbol: char, experience: i32, level: i32, flags: Vec<MonsterFlag>) -> MonsterDef {
    MonsterDef {
        name: name.to_string(),
        symbol,
        carry: 0,
        flags,
        strength: 10,
        experience,
        level,
        armor: 8,
        damage: "1x4".parse().unwrap(),
    }
}

#[test]
fn monsters_spawn_from_their_archetype() {
    let defs = vec![
        def("bat", 'B', 1, 1, vec![MonsterFlag::Fly]),
        def("leprechaun", 'L', 10, 3, vec![MonsterFlag::Mean]),
    ];
    let order = vec![0, 1];
    let mut rng = StdRng::seed_from_u64(3);
    let (i, t, m, sp) = spawn_monster(&defs, &order, 1, Point::new(4, 4), Some('L'), &mut rng);
    assert_eq!(i, 1);
    assert_eq!(t.name, "leprechaun");
    assert!((3..=24).contains(&t.stats.hp) && t.stats.hp == t.stats.max_hp);
    assert_eq!((t.stats.level, t.stats.xp_reward, t.pos), (3, 10, Point::new(4, 4)));
    assert!(m.mean && !m.awake);
    assert_eq!(sp, MonsterSpecial::StealGold);
    // An unknown glyph falls back to a draw for the depth.
    let (i, _, m, _) = spawn_monster(&defs, &order, 1, Point::new(1, 1), Some('Q'), &mut rng);
    assert!(i < 2);
    let (_, t, _, _) = spawn_monster(&defs, &order, 1, Point::new(1, 1), None, &mut rng);
    assert!(t.stats.hp >= 1);
    let _ = m;
}
