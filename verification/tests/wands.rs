use rand::rngs::StdRng;
use rand::SeedableRng;
use rogue::cli::aim::{throw_target, zap_target};
use rogue::cli::components::{Item, ItemKind, Stats, StatusEffects, WandKind};
use rogue::cli::throwing::throw_item;
use rogue::cli::wands::{apply_wand, zap_wand, Target};
use rogue::geometry::Point;
use rogue::map::{LevelMap, TileKind};

fn stats(hp: i32, xp: i32) -> Stats {
    Stats {
        hp,
        max_hp: hp,
        level: 1,
        strength: 16,
        armor: 7,
        damage: "1x4".parse().unwrap(),
        hit_plus: 0,
        dam_plus: 0,
        xp_reward: xp,
    }
}

fn orc(hp: i32, pos: Point) -> Target {
    Target { name: "orc".to_string(), pos, stats: stats(hp, 5) }
}

/// A 7x5 room of floor, every tile in view.
fn lit_room() -> LevelMap {
    let mut m = LevelMap::new(7, 5);
    for y in 0..5 {
        for x in 0..7 {
            let p = Point::new(x, y);
            m.set_tile(p, TileKind::Floor);
            m.set_visible(p);
        }
    }
    m
}

#[test]
fn missile_wounds_and_kills() {
    let mut map = lit_room();
    let mut player = stats(12, 0);
    let mut status = StatusEffects::default();
    let mut log = Vec::new();
    let mut rng = StdRng::seed_from_u64(1);

    let mut target = Some(orc(100, Point::new(3, 3)));
    apply_wand(WandKind::MagicMissile, &mut target, &mut player, &mut status, &mut map, &[], &mut log, &mut rng);
    let hp = target.as_ref().unwrap().stats.hp;
    assert!((88..=98).contains(&hp));
    assert_eq!(log.len(), 1);
    assert_eq!(log[0], format!("The missile hits the orc for {}.", 100 - hp));

    let mut target = Some(orc(1, Point::new(3, 3)));
    log.clear();
    apply_wand(WandKind::Lightning, &mut target, &mut player, &mut status, &mut map, &[], &mut log, &mut rng);
    assert!(target.is_none());
    assert_eq!(log[1], "You have slain the orc!");
    assert_eq!(player.xp_reward, 5);
}

#[test]
fn drain_life_halves_hit_points() {
    let mut map = lit_room();
    let mut player = stats(12, 0);
    let mut status = StatusEffects::default();
    let mut log = Vec::new();
    let mut rng = StdRng::seed_from_u64(2);
    let mut target = Some(orc(9, Point::new(1, 1)));
    apply_wand(WandKind::DrainLife, &mut target, &mut player, &mut status, &mut map, &[], &mut log, &mut rng);
    assert_eq!(target.as_ref().unwrap().stats.hp, 5);
    assert_eq!(log, vec!["You drain life from the orc!".to_string()]);
}

#[test]
fn wands_without_a_target() {
    let mut map = lit_room();
    let mut player = stats(12, 0);
    let mut status = StatusEffects::default();
    let mut log = Vec::new();
    let mut rng = StdRng::seed_from_u64(3);
    let mut target = None;
    apply_wand(WandKind::Fire, &mut target, &mut player, &mut status, &mut map, &[], &mut log, &mut rng);
    apply_wand(WandKind::Slow, &mut target, &mut player, &mut status, &mut map, &[], &mut log, &mut rng);
    apply_wand(WandKind::NothingWand, &mut target, &mut player, &mut status, &mut map, &[], &mut log, &mut rng);
    assert_eq!(log, vec![
        "A burst of fire scorches the wall.".to_string(),
        "The beam dissipates.".to_string(),
        "Nothing happens.".to_string(),
    ]);
    apply_wand(WandKind::Haste, &mut target, &mut player, &mut status, &mut map, &[], &mut log, &mut rng);
    assert_eq!(status.haste, 20);
    assert_eq!(log[3], "You feel yourself moving faster for 20 turns!");
}

#[test]
fn light_maps_the_level_and_polymorph_removes() {
    let mut map = LevelMap::new(5, 5);
    map.set_tile(Point::new(2, 2), TileKind::Wall);
    let mut player = stats(12, 0);
    let mut status = StatusEffects::default();
    let mut log = Vec::new();
    let mut rng = StdRng::seed_from_u64(4);
    let mut target = None;
    apply_wand(WandKind::Light, &mut target, &mut player, &mut status, &mut map, &[], &mut log, &mut rng);
    assert!(map.is_revealed(Point::new(2, 2)));
    assert!(!map.is_revealed(Point::new(0, 0)));
    assert_eq!(log[1], "The area is illuminated!");

    let mut target = Some(orc(9, Point::new(1, 1)));
    apply_wand(WandKind::Polymorph, &mut target, &mut player, &mut status, &mut map, &[], &mut log, &mut rng);
    assert!(target.is_none());
    assert_eq!(log[2], "The orc transforms!");
}

#[test]
fn teleport_away_moves_the_target_to_free_floor() {
    let mut map = LevelMap::new(5, 5);
    map.set_tile(Point::new(1, 1), TileKind::Floor);
    map.set_tile(Point::new(3, 3), TileKind::Floor);
    let mut player = stats(12, 0);
    let mut status = StatusEffects::default();
    let mut log = Vec::new();
    let mut rng = StdRng::seed_from_u64(5);
    let mut target = Some(orc(9, Point::new(1, 1)));
    let occupied = [Point::new(1, 1)];
    apply_wand(WandKind::TeleportAway, &mut target, &mut player, &mut status, &mut map, &occupied, &mut log, &mut rng);
    assert_eq!(target.unwrap().pos, Point::new(3, 3));
    assert_eq!(log, vec!["The orc vanishes!".to_string()]);
}

#[test]
fn aim_at_the_nearest_visible_monster() {
    let mut map = lit_room();
    let hidden = Point::new(4, 2);
    let mut m2 = LevelMap::new(7, 5);
    for y in 0..5 {
        for x in 0..7 {
            let p = Point::new(x, y);
            m2.set_tile(p, TileKind::Floor);
            if p != hidden {
                m2.set_visible(p);
            }
        }
    }
    let from = Point::new(3, 2);
    // (4,2) is one step away but hidden; (5,3) and (1,1) tie on king moves.
    let ps = [Point::new(6, 2), hidden, Point::new(5, 3), Point::new(1, 1)];
    assert_eq!(throw_target(&m2, &ps, from), Some(2));
    // (5,3) and (1,1) also tie on straight-line distance: the first wins.
    assert_eq!(zap_target(&m2, &ps, from), Some(2));
    assert_eq!(zap_target(&map, &ps, from), Some(1));
    map.clear_visible();
    assert_eq!(zap_target(&map, &ps, from), None);
}

#[test]
fn zapping_uses_a_charge() {
    let mut map = lit_room();
    let mut player = stats(12, 0);
    let mut status = StatusEffects::default();
    let mut log = Vec::new();
    let mut rng = StdRng::seed_from_u64(6);
    let mut inventory = vec![
        Item { name: "food ration".to_string(), kind: ItemKind::Food },
        Item { name: "wand of slow monster".to_string(), kind: ItemKind::Wand { kind: WandKind::Slow, charges: 1 } },
    ];
    let mut monsters = vec![orc(9, Point::new(5, 2))];
    assert!(zap_wand(&mut inventory, &mut monsters, Point::new(3, 2), &mut player, &mut status, &mut map, &[], &mut log, &mut rng));
    assert!(matches!(inventory[1].kind, ItemKind::Wand { charges: 0, .. }));
    assert_eq!(log, vec!["You zap the wand of slow monster.".to_string(), "The orc slows down.".to_string()]);
    assert!(!zap_wand(&mut inventory, &mut monsters, Point::new(3, 2), &mut player, &mut status, &mut map, &[], &mut log, &mut rng));
    assert_eq!(log[2], "The wand is exhausted.");
    let mut empty: Vec<Item> = Vec::new();
    assert!(!zap_wand(&mut empty, &mut monsters, Point::new(3, 2), &mut player, &mut status, &mut map, &[], &mut log, &mut rng));
    assert_eq!(log[3], "You have no wands.");
}

#[test]
fn zapping_a_killing_bolt_removes_the_monster() {
    let mut map = lit_room();
    let mut player = stats(12, 0);
    let mut status = StatusEffects::default();
    let mut log = Vec::new();
    let mut rng = StdRng::seed_from_u64(7);
    let mut inventory = vec![Item {
        name: "wand of cold".to_string(),
        kind: ItemKind::Wand { kind: WandKind::Cold, charges: 3 },
    }];
    let mut monsters = vec![orc(9, Point::new(6, 4)), orc(1, Point::new(4, 2))];
    assert!(zap_wand(&mut inventory, &mut monsters, Point::new(3, 2), &mut player, &mut status, &mut map, &[], &mut log, &mut rng));
    assert_eq!(monsters.len(), 1);
    assert_eq!(monsters[0].pos, Point::new(6, 4));
    assert_eq!(log[2], "You have slain the orc!");
}

#[test]
fn throwing_prefers_weapons_and_hits_the_nearest() {
    let map = lit_room();
    let mut player = stats(12, 0);
    let mut log = Vec::new();
    let mut rng = StdRng::seed_from_u64(8);
    let mut inventory = vec![
        Item { name: "food ration".to_string(), kind: ItemKind::Food },
        Item {
            name: "dagger".to_string(),
            kind: ItemKind::Weapon { damage: "1x4".parse().unwrap(), hit_plus: 0, dam_plus: 0 },
        },
    ];
    let mut monsters = vec![orc(100, Point::new(5, 2))];
    let (acted, dropped) =
        throw_item(&mut inventory, &mut monsters, Point::new(3, 2), &mut player, &map, &[], &mut log, &mut rng);
    assert!(acted && dropped.is_none());
    assert_eq!(inventory.len(), 1);
    assert_eq!(inventory[0].name, "food ration");
    let hp = monsters[0].stats.hp;
    assert!((93..=98).contains(&hp));
    assert_eq!(log[0], format!("You throw the dagger. It hits the orc for {}!", 100 - hp));
}

#[test]
fn a_missed_throw_lands_nearby() {
    let map = lit_room();
    let mut player = stats(12, 0);
    let mut log = Vec::new();
    let mut rng = StdRng::seed_from_u64(9);
    let mut inventory = vec![Item { name: "food ration".to_string(), kind: ItemKind::Food }];
    let mut monsters: Vec<Target> = Vec::new();
    let from = Point::new(3, 2);
    let (acted, dropped) = throw_item(&mut inventory, &mut monsters, from, &mut player, &map, &[from], &mut log, &mut rng);
    assert!(acted);
    let (p, item) = dropped.unwrap();
    assert_eq!(item.name, "food ration");
    assert!(p != from && (p.x - from.x).abs() <= 2 && (p.y - from.y).abs() <= 2);
    assert_eq!(log, vec!["The food ration clatters to the floor.".to_string()]);

    let (acted, dropped) = throw_item(&mut inventory, &mut monsters, from, &mut player, &map, &[], &mut log, &mut rng);
    assert!(!acted && dropped.is_none());
    assert_eq!(log[1], "You have nothing to throw.");
}
