use rand::rngs::StdRng;
use rand::SeedableRng;
use rogue::cli::explore::{explore_step, Explore};
use rogue::data::Config;
use rogue::gen::defs::Dungeon;
use rogue::geometry::Point;
use rogue::map::{LevelMap, TileKind};

fn cfg() -> Config {
    Config {
        map_width: 80,
        map_height: 24,
        max_rooms: 9,
        max_passages: 13,
        max_objects_per_level: 9,
        max_traps: 10,
        amulet_level: 26,
        hunger_time: 1300,
        stomach_size: 2000,
        start_hp: 12,
        start_strength: 16,
        start_armor: 7,
    }
}

/// A corridor of floor along row 1, from x = 1 to x = 8, walled above and below.
fn corridor() -> LevelMap {
    let mut m = LevelMap::new(10, 3);
    for x in 0..10 {
        m.set_tile(Point::new(x, 0), TileKind::Wall);
        m.set_tile(Point::new(x, 2), TileKind::Wall);
    }
    m.set_tile(Point::new(0, 1), TileKind::Wall);
    m.set_tile(Point::new(9, 1), TileKind::Wall);
    for x in 1..9 {
        m.set_tile(Point::new(x, 1), TileKind::Floor);
    }
    m
}

fn reveal_all(m: &mut LevelMap) {
    for y in 0..m.height {
        for x in 0..m.width {
            m.reveal_tile(Point::new(x, y));
        }
    }
}

#[test]
fn auto_explore_step_returns_false_when_all_explored() {
    let d = Dungeon::default_procedural(26);
    let mut rng = StdRng::seed_from_u64(7);
    let mut map = d.build_level(1, &cfg(), &mut rng);
    reveal_all(&mut map);
    let mut log = Vec::new();
    let r = explore_step(&map, map.player_start, &[], &mut log);
    assert_eq!(r, Explore::Complete);
    assert_eq!(log, vec!["No unexplored areas visible. Exploration complete.".to_string()]);
}

#[test]
fn exploring_heads_along_known_ground_to_the_unseen() {
    // Everything but the far end of the corridor has been seen.
    let mut m = corridor();
    for y in 0..3 {
        for x in 0..8 {
            m.reveal_tile(Point::new(x, y));
        }
    }
    let mut log = Vec::new();
    assert_eq!(explore_step(&m, Point::new(2, 1), &[], &mut log), Explore::Step(1, 0));
    assert!(log.is_empty());
    // Next to the unseen already: step into the first open tile (west first).
    assert_eq!(explore_step(&m, Point::new(7, 1), &[], &mut log), Explore::Step(-1, 0));
    assert!(log.is_empty());
}

#[test]
fn exploring_stops_when_a_monster_is_in_view() {
    let mut m = corridor();
    reveal_all(&mut m);
    m.set_visible(Point::new(5, 1));
    let mut log = Vec::new();
    let r = explore_step(&m, Point::new(2, 1), &[Point::new(5, 1)], &mut log);
    assert_eq!(r, Explore::MonsterNearby);
    assert_eq!(log, vec!["A monster is nearby — you stop exploring.".to_string()]);
    // A monster out of view does not stop it.
    let mut log = Vec::new();
    let r = explore_step(&m, Point::new(2, 1), &[Point::new(7, 1)], &mut log);
    assert_eq!(r, Explore::Complete);
}

#[test]
fn unseen_rock_is_not_worth_exploring() {
    // Unseen cells that are solid rock do not count as unexplored ground.
    let mut m = LevelMap::new(5, 3);
    for x in 1..4 {
        m.set_tile(Point::new(x, 1), TileKind::Floor);
        m.reveal_tile(Point::new(x, 1));
    }
    let mut log = Vec::new();
    assert_eq!(explore_step(&m, Point::new(2, 1), &[], &mut log), Explore::Complete);
    // An unseen wall does.
    m.set_tile(Point::new(4, 1), TileKind::Wall);
    let mut log = Vec::new();
    assert_eq!(explore_step(&m, Point::new(1, 1), &[], &mut log), Explore::Step(1, 0));
    assert_eq!(explore_step(&m, Point::new(3, 1), &[], &mut log), Explore::Step(-1, 0));
}

#[test]
fn next_to_the_unseen_with_no_open_tile_beside_stays() {
    let mut m = LevelMap::new(3, 3);
    m.set_tile(Point::new(1, 1), TileKind::Floor);
    m.reveal_tile(Point::new(1, 1));
    m.set_tile(Point::new(0, 0), TileKind::Wall);
    let mut log = Vec::new();
    assert_eq!(explore_step(&m, Point::new(1, 1), &[], &mut log), Explore::Stay);
    assert!(log.is_empty());
}
