use rand::rngs::StdRng;
use rand::SeedableRng;
use rogue::cli::components::{Item, ItemKind, MonsterSpecial, RingKind, ScrollKind, StatusEffects, WandKind};
use rogue::cli::fight::{monster_attack, monsters_act, Mover};
use rogue::cli::level::Thing;
use rogue::cli::moves::{try_move, StepOutcome};
use rogue::cli::pack::{put_on_ring, read_scroll, remove_ring, KnownItems};
use rogue::cli::rules::{apply_monster_special, apply_status, hunger_and_regen, ring_bonus, sight_radius, tick_status_effects};
use rogue::cli::screens::Screens;
use rogue::cli::setup::{starting_pack, starting_stats, welcome};
use rogue::cli::throwing::throw_item;
use rogue::cli::wands::{zap_wand, Target};
use rogue::cli::level::{descend_to, new_game, try_descend};
use rogue::data::{ArmorDef, CategoryProb, Config, GameData, ItemCategory, ItemTables, MonsterDef, NamedItem, WeaponDef};
use rogue::gen::defs::Dungeon;
use rogue::geometry::Point;
use rogue::map::LevelMap;

fn cfg() -> Config {
    Config {
        map_width: 80,
        map_height: 24,
        max_rooms: 9,
        max_passages: 13,
        max_objects_per_level: 9,
        max_traps: 10,
        amulet_level: 26,
        hunger_time: 1300,
        stomach_size: 2000,
        start_hp: 12,
        start_strength: 16,
        start_armor: 7,
    }
}

fn named(name: &str, prob: i32) -> NamedItem {
    NamedItem { name: name.to_string(), prob, worth: 1 }
}

/// Content for a run: two weak monsters and one entry per item table.
fn data() -> GameData {
    GameData {
        config: cfg(),
        monsters: vec![MonsterDef {
            name: "bat".to_string(),
            symbol: 'B',
            carry: 0,
            flags: vec![],
            strength: 10,
            experience: 2,
            level: 1,
            armor: 3,
            damage: "1x2".parse().unwrap(),
        }],
        items: ItemTables {
            categories: vec![CategoryProb { category: ItemCategory::Food, prob: 100 }],
            potions: vec![named("healing", 1)],
            scrolls: vec![named("magic mapping", 1)],
            rings: vec![named("dexterity", 1)],
            sticks: vec![named("fire", 1)],
            armor: vec![ArmorDef { name: "leather armor".to_string(), prob: 1, worth: 5, base_ac: 8 }],
            weapons: vec![WeaponDef {
                name: "mace".to_string(),
                prob: 1,
                worth: 8,
                damage: "2x4".parse().unwrap(),
                throw_damage: "1x3".parse().unwrap(),
                launched_by: None,
                stacks: false,
            }],
        },
    }
}

/// The level a new run starts on.
fn level(depth: i32, seed: u64) -> LevelMap {
    let d = Dungeon::default_procedural(26);
    let mut rng = StdRng::seed_from_u64(seed);
    d.build_level(depth, &cfg(), &mut rng)
}

#[test]
fn new_game_places_player_on_walkable_tile() {
    let d = Dungeon::default_procedural(26);
    let mut rng = StdRng::seed_from_u64(3);
    let g = new_game(&d, &data(), &mut rng);
    assert_eq!(g.level.depth, 1);
    assert!(g.level.map.is_walkable(g.level.player_pos));
    assert!(g.level.map.stairs_down.is_some());
}

#[test]
fn turns_run_without_panicking() {
    let d = Dungeon::default_procedural(26);
    let content = data();
    let mut rng = StdRng::seed_from_u64(5);
    let mut g = new_game(&d, &content, &mut rng);
    let mut digest_skip = false;
    let mut regen = 0;
    let mut turns = 0;
    'play: for _ in 0..50 {
        for dir in [(1, 0), (0, 1), (-1, 0), (0, -1)] {
            let monsters: Vec<Point> = g
                .level
                .things
                .iter()
                .filter(|t| matches!(t.thing, Thing::Monster(..)))
                .map(|t| t.pos)
                .collect();
            if let StepOutcome::Moved(p) =
                try_move(&g.status, dir, g.level.player_pos, &g.level.map, &monsters, &mut g.log, &mut rng)
            {
                g.level.player_pos = p;
            }
            // The end of the turn: status effects, the monsters, hunger, sight.
            turns += 1;
            tick_status_effects(&mut g.status, &mut g.player.strength, &mut g.log);
            let mut movers: Vec<Mover> = Vec::new();
            let mut slots: Vec<usize> = Vec::new();
            for (k, t) in g.level.things.iter().enumerate() {
                if let Thing::Monster(_, m, _) = &t.thing {
                    movers.push(Mover { pos: t.pos, awake: m.awake, mean: m.mean });
                    slots.push(k);
                }
            }
            let attackers = monsters_act(&g.level.map, &mut movers, g.level.player_pos);
            for (j, k) in slots.iter().enumerate() {
                g.level.things[*k].pos = movers[j].pos;
                if let Thing::Monster(_, m, _) = &mut g.level.things[*k].thing {
                    m.awake = movers[j].awake;
                }
            }
            for a in attackers {
                let k = slots[a];
                if let Thing::Monster(target, _, special) = &mut g.level.things[k].thing {
                    let special = *special;
                    if monster_attack(target, special, &mut g.player, &mut g.status, &mut g.gold, None, None, &mut g.log, &mut rng) {
                        break 'play;
                    }
                }
            }
            hunger_and_regen(&mut g.food, &mut digest_skip, &mut regen, &mut g.player, false, false, false, &mut g.log, &mut rng);
            let sight = sight_radius(g.status.blind > 0, false);
            g.level.map.field_of_view(g.level.player_pos, sight);
            assert!(g.level.map.is_visible(g.level.player_pos));
        }
    }
    assert!(turns > 0);
    assert!(g.level.map.is_walkable(g.level.player_pos));
}

#[test]
fn descending_increases_depth() {
    let d = Dungeon::default_procedural(26);
    let content = data();
    let mut rng = StdRng::seed_from_u64(11);
    let g = new_game(&d, &content, &mut rng);
    let mut log = g.log.clone();
    let state = descend_to(&d, &content, &g.monster_order, 2, 5, &mut log, &mut rng);
    assert_eq!(state.depth, 2);
    assert!(state.map.is_walkable(state.player_pos));
    // The player sees where they arrive.
    assert!(state.map.is_visible(state.player_pos));
    assert!(state.map.is_revealed(state.player_pos));
}

#[test]
fn reading_enchant_weapon_boosts_stats() {
    let mut inv = starting_pack();
    inv.push(Item { name: "scroll of enchant weapon".into(), kind: ItemKind::Scroll(ScrollKind::EnchantWeapon) });
    let mut player = starting_stats(&cfg());
    let before = (player.hit_plus, player.dam_plus);
    let mut map = level(1, 3);
    let mut pos = map.player_start;
    let mut awake = Vec::new();
    let mut known = KnownItems::new();
    let mut log = Vec::new();
    let mut rng = StdRng::seed_from_u64(1);
    assert!(read_scroll(&mut inv, &mut player, &mut pos, &mut map, &[], &mut awake, &mut known, &mut log, &mut rng));
    assert_eq!((player.hit_plus, player.dam_plus), (before.0 + 1, before.1 + 1));
    assert!(!inv.iter().any(|it| matches!(it.kind, ItemKind::Scroll(_))), "scroll is consumed");
}

#[test]
fn reading_with_no_scroll_does_nothing() {
    let mut inv = starting_pack();
    let mut player = starting_stats(&cfg());
    let mut map = level(1, 3);
    let mut pos = map.player_start;
    let mut awake = Vec::new();
    let mut known = KnownItems::new();
    let mut log = Vec::new();
    let mut rng = StdRng::seed_from_u64(1);
    assert!(!read_scroll(&mut inv, &mut player, &mut pos, &mut map, &[], &mut awake, &mut known, &mut log, &mut rng));
}

#[test]
fn ring_put_on_and_remove_cycles_correctly() {
    let mut inv = starting_pack();
    let (mut left, mut right) = (None, None);
    let mut awake = Vec::new();
    let mut log = Vec::new();
    // No rings initially.
    assert!(!remove_ring(&mut inv, &mut left, &mut right, &mut log));
    // Add two rings to the pack and put both on.
    inv.push(Item { name: "ring of protection".into(), kind: ItemKind::Ring(RingKind::Protection) });
    inv.push(Item { name: "ring of dexterity".into(), kind: ItemKind::Ring(RingKind::Dexterity) });
    assert!(put_on_ring(&mut inv, &mut left, &mut right, &mut awake, &mut log));
    assert_eq!(left, Some(RingKind::Protection));
    assert!(put_on_ring(&mut inv, &mut left, &mut right, &mut awake, &mut log));
    assert_eq!(right, Some(RingKind::Dexterity));
    // Both hands full.
    inv.push(Item { name: "ring of adornment".into(), kind: ItemKind::Ring(RingKind::Adornment) });
    assert!(!put_on_ring(&mut inv, &mut left, &mut right, &mut awake, &mut log));
    // Bonuses active.
    assert_eq!(ring_bonus(left, right, RingKind::Protection), 1);
    assert_eq!(ring_bonus(left, right, RingKind::Dexterity), 1);
    // Taking off the left ring returns it to the pack.
    assert!(remove_ring(&mut inv, &mut left, &mut right, &mut log));
    assert_eq!(left, None);
    let has_protection = inv.iter().any(|it| matches!(it.kind, ItemKind::Ring(RingKind::Protection)));
    assert!(has_protection, "removed ring should be back in inventory");
}

#[test]
fn message_log_mode_switches_on_m_key() {
    let screens = Screens::new();
    // The scroll offset starts at 0.
    assert_eq!(screens.log_scroll, 0);
    // The log holds the welcome message once a run starts.
    let mut log = Vec::new();
    welcome(&mut log);
    assert!(!log.is_empty());
}

#[test]
fn confused_status_expires_correctly() {
    let mut status = StatusEffects::default();
    let mut strength = 16;
    apply_status(&mut status, "confused", 3);
    assert_eq!(status.confused, 3);
    tick_status_effects(&mut status, &mut strength, &mut Vec::new());
    assert_eq!(status.confused, 2);
    tick_status_effects(&mut status, &mut strength, &mut Vec::new());
    tick_status_effects(&mut status, &mut strength, &mut Vec::new());
    assert_eq!(status.confused, 0);
}

#[test]
fn paralyzed_blocks_movement() {
    let map = level(1, 3);
    let mut status = StatusEffects::default();
    apply_status(&mut status, "paralyzed", 5);
    assert_eq!(status.paralyzed, 5);
    let mut log = Vec::new();
    let mut rng = StdRng::seed_from_u64(1);
    let result = try_move(&status, (1, 0), map.player_start, &map, &[], &mut log, &mut rng);
    assert_eq!(result, StepOutcome::Paralyzed, "paralyzed player should not be able to move");
}

#[test]
fn blind_reduces_fov_radius() {
    let mut map = level(1, 3);
    let pos = map.player_start;
    // Reveal the whole map first.
    map.magic_mapping();
    let mut status = StatusEffects::default();
    apply_status(&mut status, "blind", 10);
    map.field_of_view(pos, sight_radius(status.blind > 0, false));
    let visible_count = (0..map.height)
        .flat_map(|y| (0..map.width).map(move |x| Point::new(x, y)))
        .filter(|&p| map.is_visible(p))
        .count();
    // With radius 1 only the 3x3 area around the player can be in view.
    assert!(visible_count <= 9, "blind radius should be very small, got {visible_count}");
}

#[test]
fn zap_wand_with_no_target_does_not_panic() {
    let mut inv = starting_pack();
    inv.push(Item {
        name: "wand of magic missile".to_string(),
        kind: ItemKind::Wand { kind: WandKind::MagicMissile, charges: 5 },
    });
    let mut map = level(1, 3);
    let pos = map.player_start;
    let mut monsters: Vec<Target> = Vec::new();
    let mut player = starting_stats(&cfg());
    let mut status = StatusEffects::default();
    let mut log = Vec::new();
    let mut rng = StdRng::seed_from_u64(1);
    // No monsters in view: the zap still happens.
    let acted = zap_wand(&mut inv, &mut monsters, pos, &mut player, &mut status, &mut map, &[], &mut log, &mut rng);
    assert!(acted, "zapping with charges should consume a turn");
    let charges = inv
        .iter()
        .find_map(|it| if let ItemKind::Wand { charges, .. } = it.kind { Some(charges) } else { None })
        .expect("wand should still be in inventory");
    assert_eq!(charges, 4, "one charge should have been consumed");
}

#[test]
fn monster_special_poison_applies_poisoned_status() {
    let mut status = StatusEffects::default();
    let mut player = starting_stats(&cfg());
    let mut gold = 0;
    apply_monster_special(MonsterSpecial::Poison, &mut status, &mut player, &mut gold);
    assert!(status.poisoned > 0, "player should be poisoned after snake bite");
}

#[test]
fn monster_special_drain_level_reduces_player_level() {
    let mut status = StatusEffects::default();
    let mut player = starting_stats(&cfg());
    let mut gold = 0;
    let before = player.level;
    apply_monster_special(MonsterSpecial::DrainLevel, &mut status, &mut player, &mut gold);
    assert_eq!(player.level, (before - 1).max(1), "level should drop by one");
}

#[test]
fn monster_special_steal_gold_removes_gold() {
    let mut status = StatusEffects::default();
    let mut player = starting_stats(&cfg());
    let mut gold = 50;
    apply_monster_special(MonsterSpecial::StealGold, &mut status, &mut player, &mut gold);
    assert_eq!(gold, 0, "all gold should have been stolen");
}

#[test]
fn throw_item_with_no_items_fails() {
    let mut inv: Vec<Item> = Vec::new();
    let map = level(1, 3);
    let mut monsters: Vec<Target> = Vec::new();
    let mut player = starting_stats(&cfg());
    let mut log = Vec::new();
    let mut rng = StdRng::seed_from_u64(1);
    let (acted, _) = throw_item(&mut inv, &mut monsters, map.player_start, &mut player, &map, &[], &mut log, &mut rng);
    assert!(!acted);
}

#[test]
fn identification_system_marks_item_as_known() {
    let mut known = KnownItems::new();
    assert!(!known.is_known("potion of healing"));
    known.identify("potion of healing");
    assert!(known.is_known("potion of healing"));
}

#[test]
fn stairs_take_the_player_down() {
    let d = Dungeon::default_procedural(26);
    let content = data();
    let mut rng = StdRng::seed_from_u64(7);
    let mut g = new_game(&d, &content, &mut rng);
    assert!(!try_descend(&mut g, &d, &content, &mut rng));
    assert_eq!(g.log.last().unwrap(), "There are no stairs down here.");
    assert_eq!(g.level.depth, 1);
    g.level.player_pos = g.level.map.stairs_down.unwrap();
    assert!(try_descend(&mut g, &d, &content, &mut rng));
    assert_eq!(g.level.depth, 2);
    assert_eq!(g.log.last().unwrap(), "You descend to level 2.");
    assert!(g.level.map.is_visible(g.level.player_pos));
}
