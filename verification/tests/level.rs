use rand::rngs::StdRng;
use rand::SeedableRng;
use rogue::cli::components::ItemKind;
use rogue::cli::level::{descend_to, new_game, Thing};
use rogue::cli::screens::Mode;
use rogue::data::{ArmorDef, CategoryProb, Config, GameData, ItemCategory, ItemTables, MonsterDef, NamedItem, WeaponDef};
use rogue::gen::defs::{Dungeon, FixedLevel, LevelDef};
use rogue::map::{SpawnKind, TileKind};

fn cfg() -> Config {
    Config {
        map_width: 80,
        map_height: 24,
        max_rooms: 9,
        max_passages: 13,
        max_objects_per_level: 9,
        max_traps: 10,
        amulet_level: 3,
        hunger_time: 1300,
        stomach_size: 2000,
        start_hp: 12,
        start_strength: 16,
        start_armor: 7,
    }
}

fn named(name: &str, prob: i32) -> NamedItem {
    NamedItem { name: name.to_string(), prob, worth: 1 }
}

fn data() -> GameData {
    GameData {
        config: cfg(),
        monsters: vec![
            MonsterDef {
                name: "kestrel".to_string(),
                symbol: 'K',
                carry: 0,
                flags: vec![],
                strength: 10,
                experience: 1,
                level: 1,
                armor: 7,
                damage: "1x4".parse().unwrap(),
            },
            MonsterDef {
                name: "bat".to_string(),
                symbol: 'B',
                carry: 0,
                flags: vec![],
                strength: 10,
                experience: 2,
                level: 1,
                armor: 3,
                damage: "1x2".parse().unwrap(),
            },
        ],
        items: ItemTables {
            categories: vec![CategoryProb { category: ItemCategory::Food, prob: 100 }],
            potions: vec![named("healing", 1)],
            scrolls: vec![named("magic mapping", 1)],
            rings: vec![named("dexterity", 1)],
            sticks: vec![named("fire", 1)],
            armor: vec![ArmorDef { name: "leather armor".to_string(), prob: 1, worth: 5, base_ac: 8 }],
            weapons: vec![WeaponDef {
                name: "mace".to_string(),
                prob: 1,
                worth: 8,
                damage: "2x4".parse().unwrap(),
                throw_damage: "1x3".parse().unwrap(),
                launched_by: None,
                stacks: false,
            }],
        },
    }
}

#[test]
fn descending_makes_the_spawns_real_and_logs_below_the_first_level() {
    let d = data();
    let dungeon = Dungeon::default_procedural(26);
    let order = vec![0usize, 1];
    let mut log = Vec::new();
    let mut rng = StdRng::seed_from_u64(4);
    let s = descend_to(&dungeon, &d, &order, 1, 5, &mut log, &mut rng);
    assert!(log.is_empty());
    assert_eq!(s.depth, 1);
    assert_eq!(s.player_pos, s.map.player_start);
    assert_eq!(s.things.len(), s.map.spawns.len());
    for (sp, t) in s.map.spawns.iter().zip(s.things.iter()) {
        assert_eq!(sp.pos, t.pos);
        match (sp.kind, &t.thing) {
            (SpawnKind::Gold(v), Thing::Gold(g)) => assert_eq!(v, *g),
            (SpawnKind::Item, Thing::Item(it)) => assert!(matches!(it.kind, ItemKind::Food)),
            (SpawnKind::Monster(_), Thing::Monster(m, _, _)) => assert_eq!(m.pos, sp.pos),
            _ => panic!("spawn and thing disagree"),
        }
    }
    for (p, _) in &s.trap_kinds {
        assert_eq!(s.map.tile(*p), TileKind::Trap);
    }
    // On the Amulet's level it lies after the spawns.
    let s = descend_to(&dungeon, &d, &order, 3, 5, &mut log, &mut rng);
    assert_eq!(log, vec!["You descend to level 3.".to_string()]);
    assert_eq!(s.things.len(), s.map.spawns.len() + 1);
    match &s.things.last().unwrap().thing {
        Thing::Item(it) => {
            assert_eq!(it.name, "the Amulet of Yendor");
            assert!(matches!(it.kind, ItemKind::Amulet));
        }
        _ => panic!("expected the Amulet"),
    }
}

#[test]
fn a_new_game_starts_on_the_title_with_the_starting_kit() {
    let d = data();
    let dungeon = Dungeon::default_procedural(26);
    let mut rng = StdRng::seed_from_u64(8);
    let g = new_game(&dungeon, &d, &mut rng);
    assert_eq!(g.player.hp, 12);
    assert_eq!(g.food, 1300);
    assert_eq!(g.inventory.len(), 1);
    assert_eq!(g.inventory[0].name, "food ration");
    assert_eq!(g.screens.mode, Mode::Title);
    assert_eq!(g.monster_order, vec![0, 1]);
    assert_eq!(g.level.depth, 1);
    assert_eq!(g.log, vec!["Welcome to the Dungeons of Doom! Find the Amulet of Yendor.".to_string()]);
}

#[test]
fn the_log_keeps_the_last_two_hundred_messages() {
    let d = data();
    let dungeon = Dungeon::default_procedural(26);
    let order = vec![0usize, 1];
    let mut rng = StdRng::seed_from_u64(8);
    let mut log: Vec<String> = (0..200).map(|i| format!("m{i}")).collect();
    descend_to(&dungeon, &d, &order, 2, 5, &mut log, &mut rng);
    assert_eq!(log.len(), 200);
    assert_eq!(log[0], "m1");
    assert_eq!(log[199], "You descend to level 2.");
    let mut short = vec!["a".to_string(); 3];
    rogue::cli::wands::trim_log(&mut short);
    assert_eq!(short.len(), 3);
}
