use rand::rngs::StdRng;
use rand::SeedableRng;
use rogue::data::Config;
use rogue::gen::defs::{
    default_char, resolve_char, Dungeon, DungeonFile, FixedLevel, LegendEntry, LevelDef, LevelRef, ProcParams, SpawnSpec, TileSpec,
};
use rogue::gen::fixed::{load_fixed, player_marker};
use rogue::gen::procedural::generate_procedural;
use rogue::geometry::Point;
use rogue::map::{LevelMap, SpawnKind, TileKind};

fn cfg() -> Config {
    Config {
        map_width: 80,
        map_height: 24,
        max_rooms: 9,
        max_passages: 13,
        max_objects_per_level: 9,
        max_traps: 10,
        amulet_level: 26,
        hunger_time: 1300,
        stomach_size: 2000,
        start_hp: 12,
        start_strength: 16,
        start_armor: 7,
    }
}

/// Flood-fill reachability over walkable tiles.
fn reachable(map: &LevelMap, from: Point, to: Point) -> bool {
    let mut seen = std::collections::HashSet::new();
    let mut stack = vec![from];
    while let Some(p) = stack.pop() {
        if p == to {
            return true;
        }
        if !seen.insert((p.x, p.y)) {
            continue;
        }
        for d in [Point::new(1, 0), Point::new(-1, 0), Point::new(0, 1), Point::new(0, -1)] {
            let np = p.offset(d);
            if map.is_walkable(np) && !seen.contains(&(np.x, np.y)) {
                stack.push(np);
            }
        }
    }
    false
}

#[test]
fn generates_connected_floor() {
    let cfg = cfg();
    for seed in 0..20u64 {
        let mut rng = StdRng::seed_from_u64(seed);
        let map = generate_procedural(&cfg, 3, &ProcParams::default(), &mut rng);

        // There must be a down staircase and a valid player start on floor.
        assert!(map.stairs_down.is_some(), "seed {seed}: no stairs");
        assert!(map.is_walkable(map.player_start), "seed {seed}: player not on walkable tile");

        // Player start should be able to reach the stairs (flood fill).
        assert!(
            reachable(&map, map.player_start, map.stairs_down.unwrap()),
            "seed {seed}: stairs unreachable from player start"
        );

        assert!(!map.rooms.is_empty(), "seed {seed}: no rooms");
    }
}

#[test]
fn procedural_levels_have_configured_size_and_sound_spawns() {
    let cfg = cfg();
    for seed in 0..10u64 {
        let mut rng = StdRng::seed_from_u64(seed);
        let map = generate_procedural(&cfg, 7, &ProcParams::default(), &mut rng);
        assert_eq!((map.width, map.height), (80, 24));
        assert!(map.rooms.len() <= 9);
        let stairs = map.stairs_down.unwrap();
        assert_eq!(map.tile(stairs), TileKind::StairsDown);
        assert!(map.reachable(map.player_start, stairs));
        for s in &map.spawns {
            assert_eq!(map.tile(s.pos), TileKind::Floor);
            if let SpawnKind::Gold(v) = s.kind {
                assert!(v > 0);
            }
        }
    }
}

fn sample_level() -> FixedLevel {
    FixedLevel {
        rows: vec![
            "|------|".to_string(),
            "|.@..$.|".to_string(),
            "|..o.>.+##".to_string(),
            "|------|".to_string(),
        ],
        legend: vec![LegendEntry { ch: 'o', tile: Some(TileSpec::Floor), spawn: Some(SpawnSpec::Gold(Some(75))) }],
        dark: true,
    }
}

#[test]
fn fixed_level_loads_tiles_markers_and_spawns() {
    let small = Config { map_width: 5, map_height: 2, ..cfg() };
    let mut rng = StdRng::seed_from_u64(4);
    let map = load_fixed(&sample_level(), &small, 2, &mut rng);
    // The map grows to fit the rows.
    assert_eq!((map.width, map.height), (10, 4));
    assert_eq!(map.tile(Point::new(0, 0)), TileKind::Wall);
    assert_eq!(map.tile(Point::new(2, 1)), TileKind::Floor);
    assert_eq!(map.tile(Point::new(6, 2)), TileKind::Floor);
    assert_eq!(map.tile(Point::new(7, 2)), TileKind::Door);
    assert_eq!(map.tile(Point::new(8, 2)), TileKind::Passage);
    assert_eq!(map.tile(Point::new(9, 0)), TileKind::Empty);
    assert_eq!(map.tile(Point::new(5, 2)), TileKind::StairsDown);
    assert_eq!(map.player_start, Point::new(2, 1));
    assert_eq!(map.stairs_down, Some(Point::new(5, 2)));
    // Dark where rows are written, not beyond them.
    assert!(map.is_dark(Point::new(1, 1)));
    assert!(!map.is_dark(Point::new(9, 1)));
    // Spawns in reading order: rolled gold, then the legend's fixed gold.
    assert_eq!(map.spawns.len(), 2);
    assert_eq!(map.spawns[0].pos, Point::new(5, 1));
    match map.spawns[0].kind {
        SpawnKind::Gold(v) => assert!((2..2 + 50 + 10 * 2).contains(&v)),
        other => panic!("expected gold, got {other:?}"),
    }
    assert_eq!(map.spawns[1].pos, Point::new(3, 2));
    assert_eq!(map.spawns[1].kind, SpawnKind::Gold(75));
    // One room: the interior floor component, expanded to its walls.
    assert_eq!(map.rooms.len(), 1);
    let r = map.rooms[0];
    assert_eq!((r.x1, r.y1, r.x2, r.y2), (0, 0, 8, 4));
    assert!(map.reachable(map.player_start, map.stairs_down.unwrap()));
}

#[test]
fn fixed_level_without_marker_has_no_start() {
    let level = FixedLevel {
        rows: vec!["   ".to_string(), " .M".to_string()],
        legend: vec![],
        dark: false,
    };
    assert_eq!(player_marker(&level), None);
    let bare = FixedLevel { rows: vec!["|-|".to_string()], legend: vec![], dark: false };
    assert_eq!(player_marker(&bare), None);
    let d = Dungeon { name: "x".to_string(), levels: vec![LevelDef::Fixed(bare)], repeat_last: false };
    assert!(!d.can_start(1, &cfg()));
    assert!(Dungeon::default_procedural(3).can_start(1, &cfg()));
    // With a marker the level loads.
    let marked = FixedLevel { rows: vec!["@.M".to_string(), ".@.".to_string()], legend: vec![], dark: false };
    assert_eq!(player_marker(&marked), Some(Point::new(1, 1)));
    let mut rng = StdRng::seed_from_u64(1);
    let map = load_fixed(&marked, &cfg(), 1, &mut rng);
    assert_eq!(map.player_start, Point::new(1, 1));
    assert_eq!(map.spawns.len(), 1);
}

#[test]
fn dungeon_depths_select_definitions() {
    let fixed = LevelDef::Fixed(sample_level());
    let deep = LevelDef::Procedural(ProcParams { depth: Some(5), allow_dark: false, allow_gone_rooms: true });
    let d = Dungeon {
        name: "test".to_string(),
        levels: vec![fixed.clone(), deep.clone(), fixed.clone()],
        repeat_last: true,
    };
    assert_eq!(d.def_for_depth(1), Some(&fixed));
    assert_eq!(d.def_for_depth(0), Some(&fixed));
    assert_eq!(d.def_for_depth(-7), Some(&fixed));
    assert_eq!(d.def_for_depth(2), Some(&deep));
    // Past the end: the last procedural definition repeats.
    assert_eq!(d.def_for_depth(9), Some(&deep));

    let no_repeat = Dungeon { repeat_last: false, ..d.clone() };
    assert_eq!(no_repeat.def_for_depth(9), Some(&fixed));
    let only_fixed = Dungeon { name: "f".to_string(), levels: vec![fixed.clone()], repeat_last: true };
    assert_eq!(only_fixed.def_for_depth(3), None);
    let empty = Dungeon { name: "e".to_string(), levels: vec![], repeat_last: false };
    assert_eq!(empty.def_for_depth(1), None);
}

#[test]
fn dungeon_builds_each_kind_of_level() {
    let d = Dungeon {
        name: "test".to_string(),
        levels: vec![LevelDef::Fixed(sample_level()), LevelDef::Procedural(ProcParams::default())],
        repeat_last: true,
    };
    let mut rng = StdRng::seed_from_u64(42);
    let first = d.build_level(1, &cfg(), &mut rng);
    assert_eq!(first.player_start, Point::new(2, 1));
    for depth in 2..=5 {
        let map = d.build_level(depth, &cfg(), &mut rng);
        assert_eq!((map.width, map.height), (80, 24));
        let stairs = map.stairs_down.unwrap();
        assert!(map.reachable(map.player_start, stairs), "depth {depth}: stairs unreachable");
    }
}

#[test]
fn default_dungeon_is_procedural() {
    let d = Dungeon::default_procedural(26);
    assert_eq!(d.name, "The Dungeons of Doom");
    assert_eq!(d.levels.len(), 26);
    assert!(d.repeat_last);
    assert!(d.levels.iter().all(|l| *l == LevelDef::Procedural(ProcParams::default())));
    assert_eq!(Dungeon::default_procedural(-3).levels.len(), 0);
}

#[test]
fn loaded_files_fill_file_references_in_order() {
    let file = DungeonFile {
        name: "mixed".to_string(),
        levels: vec![
            LevelRef::File("a.ron".to_string()),
            LevelRef::Procedural(ProcParams::default()),
            LevelRef::File("b.ron".to_string()),
        ],
        repeat_last: false,
    };
    let a = LevelDef::Fixed(sample_level());
    let b = LevelDef::Procedural(ProcParams { depth: Some(3), allow_dark: true, allow_gone_rooms: false });
    let d = Dungeon::from_loaded(file.clone(), vec![a.clone(), b.clone()]).unwrap();
    assert_eq!(d.name, "mixed");
    assert!(!d.repeat_last);
    assert_eq!(d.levels, vec![a.clone(), LevelDef::Procedural(ProcParams::default()), b.clone()]);
    assert!(Dungeon::from_loaded(file.clone(), vec![a.clone()]).is_none());
    assert!(Dungeon::from_loaded(file, vec![a.clone(), b.clone(), a]).is_none());
}

#[test]
fn legend_overrides_built_in_characters() {
    assert_eq!(default_char('$'), (TileKind::Floor, Some(SpawnKind::Gold(0))));
    assert_eq!(default_char('Q'), (TileKind::Floor, Some(SpawnKind::Monster(Some('Q')))));
    assert_eq!(default_char('~'), (TileKind::Empty, None));
    let legend = [
        LegendEntry { ch: 'x', tile: Some(TileSpec::StairsDown), spawn: None },
        LegendEntry { ch: '.', tile: None, spawn: Some(SpawnSpec::Item) },
        LegendEntry { ch: 'x', tile: Some(TileSpec::Wall), spawn: None },
    ];
    assert_eq!(resolve_char('x', &legend), (TileKind::StairsDown, None));
    assert_eq!(resolve_char('.', &legend), (TileKind::Floor, Some(SpawnKind::Item)));
    assert_eq!(resolve_char('#', &legend), (TileKind::Passage, None));
}

#[test]
fn fixed_level_rooms_split_at_doors_in_reading_order() {
    let level = FixedLevel {
        rows: vec![
            "-----  ----".to_string(),
            "|@..+##+..|".to_string(),
            "|...|  |..|".to_string(),
            "-----  ----".to_string(),
        ],
        legend: vec![],
        dark: false,
    };
    let mut rng = StdRng::seed_from_u64(9);
    let map = load_fixed(&level, &cfg(), 1, &mut rng);
    assert_eq!(map.rooms.len(), 2);
    let (a, b) = (map.rooms[0], map.rooms[1]);
    assert_eq!((a.x1, a.y1, a.x2, a.y2), (0, 0, 5, 4));
    assert_eq!((b.x1, b.y1, b.x2, b.y2), (7, 0, 11, 4));
}

#[test]
fn procedural_rooms_are_walled_and_walkable_inside() {
    let cfg = cfg();
    for seed in 0..10u64 {
        let mut rng = StdRng::seed_from_u64(seed);
        let map = generate_procedural(&cfg, 9, &ProcParams::default(), &mut rng);
        for r in &map.rooms {
            for y in r.y1..r.y2 {
                for x in r.x1..r.x2 {
                    let p = Point::new(x, y);
                    if !map.in_bounds(p) {
                        continue;
                    }
                    let t = map.tile(p);
                    if x == r.x1 || x == r.x2 - 1 || y == r.y1 || y == r.y2 - 1 {
                        assert!(t == TileKind::Wall || t == TileKind::Door, "seed {seed}: {t:?} on a wall at {p:?}");
                    } else {
                        assert!(map.is_walkable(p), "seed {seed}: {t:?} inside a room at {p:?}");
                    }
                }
            }
        }
    }
}

#[test]
fn every_floor_cell_and_spawn_reachable_from_start() {
    let mut small = cfg();
    small.map_width = 18;
    small.map_height = 18;
    let params = ProcParams { allow_gone_rooms: true, ..ProcParams::default() };
    for seed in 0..3u64 {
        let mut rng = StdRng::seed_from_u64(seed);
        let map = generate_procedural(&small, 5, &params, &mut rng);
        let start = map.player_start;
        for y in 0..map.height {
            for x in 0..map.width {
                let p = Point::new(x, y);
                let t = map.tile(p);
                if t == TileKind::Floor || t == TileKind::Trap || t == TileKind::StairsDown {
                    assert!(reachable(&map, start, p), "seed {seed}: {:?} cut off from the start", p);
                }
            }
        }
    }
    for seed in 0..3u64 {
        let mut rng = StdRng::seed_from_u64(seed);
        let map = generate_procedural(&cfg(), 5, &params, &mut rng);
        let start = map.player_start;
        for s in &map.spawns {
            assert!(reachable(&map, start, s.pos));
        }
    }
}

#[test]
fn shallow_levels_have_no_dark_rooms_or_traps() {
    for seed in 0..5u64 {
        let mut rng = StdRng::seed_from_u64(seed);
        let map = generate_procedural(&cfg(), 0, &ProcParams::default(), &mut rng);
        for y in 0..map.height {
            for x in 0..map.width {
                let p = Point::new(x, y);
                assert_ne!(map.tile(p), TileKind::Trap);
                assert!(!map.is_dark(p));
            }
        }
    }
    // The depth override decides: a level for depth 0 at real depth 20.
    let d = Dungeon {
        name: "x".to_string(),
        levels: vec![LevelDef::Procedural(ProcParams { depth: Some(0), ..ProcParams::default() })],
        repeat_last: true,
    };
    let mut rng = StdRng::seed_from_u64(3);
    let map = d.build_level(20, &cfg(), &mut rng);
    for y in 0..map.height {
        for x in 0..map.width {
            assert_ne!(map.tile(Point::new(x, y)), TileKind::Trap);
        }
    }
}
