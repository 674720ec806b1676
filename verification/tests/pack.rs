use rand::rngs::StdRng;
use rand::SeedableRng;
use rogue::cli::components::{Item, ItemKind, PotionKind, RingKind, ScrollKind, Stats, StatusEffects};
use rogue::cli::pack::{eat, pickup, put_on_ring, quaff, read_scroll, remove_ring, KnownItems, PickedUp};
use rogue::data::Config;
use rogue::geometry::Point;
use rogue::map::{LevelMap, TileKind};

fn cfg() -> Config {
    Config {
        map_width: 80,
        map_height: 24,
        max_rooms: 9,
        max_passages: 13,
        max_objects_per_level: 9,
        max_traps: 10,
        amulet_level: 26,
        hunger_time: 1300,
        stomach_size: 2000,
        start_hp: 12,
        start_strength: 16,
        start_armor: 7,
    }
}

fn player() -> Stats {
    Stats {
        hp: 5,
        max_hp: 12,
        level: 1,
        strength: 16,
        armor: 7,
        damage: "2x4".parse().unwrap(),
        hit_plus: 0,
        dam_plus: 0,
        xp_reward: 0,
    }
}

fn item(name: &str, kind: ItemKind) -> Item {
    Item { name: name.to_string(), kind }
}

#[test]
fn eating_fills_up_to_the_stomach() {
    let mut inv = vec![item("dagger", ItemKind::Trinket), item("food ration", ItemKind::Food)];
    let mut food = 1500;
    let mut log = Vec::new();
    assert!(eat(&mut inv, &mut food, &cfg(), &mut log));
    assert_eq!(food, 2000);
    assert_eq!(inv.len(), 1);
    assert!(!eat(&mut inv, &mut food, &cfg(), &mut log));
    assert_eq!(log, vec!["You eat the food ration. That hit the spot!".to_string(), "You have no food.".to_string()]);
}

#[test]
fn picking_up_wields_wears_and_packs() {
    let mut inv = Vec::new();
    let mut p = player();
    let mut log = Vec::new();
    assert_eq!(pickup(None, &mut inv, &mut p, &mut log), PickedUp::Nothing);
    let sword = item("long sword", ItemKind::Weapon { damage: "3x4".parse().unwrap(), hit_plus: 1, dam_plus: 2 });
    assert_eq!(pickup(Some(sword), &mut inv, &mut p, &mut log), PickedUp::Taken);
    assert_eq!((p.hit_plus, p.dam_plus), (1, 2));
    assert_eq!(p.damage, "3x4".parse().unwrap());
    pickup(Some(item("leather armor", ItemKind::Armor(8))), &mut inv, &mut p, &mut log);
    assert_eq!(p.armor, 7);
    pickup(Some(item("plate mail", ItemKind::Armor(3))), &mut inv, &mut p, &mut log);
    assert_eq!(p.armor, 3);
    pickup(Some(item("food ration", ItemKind::Food)), &mut inv, &mut p, &mut log);
    assert_eq!(inv.len(), 1);
    assert_eq!(pickup(Some(item("the Amulet of Yendor", ItemKind::Amulet)), &mut inv, &mut p, &mut log), PickedUp::Won);
    assert_eq!(log, vec![
        "There is nothing here to pick up.".to_string(),
        "You pick up long sword.".to_string(),
        "You wield the long sword.".to_string(),
        "You pick up leather armor.".to_string(),
        "You don the leather armor (no better than your current armor).".to_string(),
        "You pick up plate mail.".to_string(),
        "You don the plate mail.".to_string(),
        "You pick up food ration.".to_string(),
        "You have recovered the Amulet of Yendor! YOU WIN!".to_string(),
    ]);
}

#[test]
fn rings_go_on_left_then_right_and_come_off_left_first() {
    let mut inv = vec![
        item("ring of regeneration", ItemKind::Ring(RingKind::Regeneration)),
        item("ring of aggravate monster", ItemKind::Ring(RingKind::AggravateMonster)),
        item("ring of stealth", ItemKind::Ring(RingKind::Stealth)),
    ];
    let (mut left, mut right) = (None, None);
    let mut awake = vec![false, true, false];
    let mut log = Vec::new();
    assert!(put_on_ring(&mut inv, &mut left, &mut right, &mut awake, &mut log));
    assert!(put_on_ring(&mut inv, &mut left, &mut right, &mut awake, &mut log));
    assert_eq!((left, right), (Some(RingKind::Regeneration), Some(RingKind::AggravateMonster)));
    assert_eq!(awake, vec![true, true, true]);
    assert!(!put_on_ring(&mut inv, &mut left, &mut right, &mut awake, &mut log));
    assert_eq!(log, vec![
        "You put on the ring of regeneration (left hand).".to_string(),
        "You feel a surge of vitality.".to_string(),
        "You put on the ring of aggravate monster (right hand).".to_string(),
        "A high-pitched humming wakes 3 monsters!".to_string(),
        "The ring pulses with malevolent energy!".to_string(),
        "You are already wearing two rings. Remove one first (Shift+R).".to_string(),
    ]);
    log.clear();
    assert!(remove_ring(&mut inv, &mut left, &mut right, &mut log));
    assert_eq!(left, None);
    assert_eq!(inv.last().unwrap().name, "ring of regeneration");
    assert_eq!(log[0], "You remove the ring of regeneration (left hand).");
    assert!(remove_ring(&mut inv, &mut left, &mut right, &mut log));
    assert!(!remove_ring(&mut inv, &mut left, &mut right, &mut log));
    assert_eq!(log[2], "You are not wearing any rings.");
}

#[test]
fn quaffing_heals_or_takes_effect_and_identifies() {
    let mut inv = vec![
        item("food ration", ItemKind::Food),
        item("potion of healing draught", ItemKind::Heal(4)),
        item("potion of confusion", ItemKind::Potion(PotionKind::Confusion)),
    ];
    let mut p = player();
    let mut status = StatusEffects::default();
    let mut known = KnownItems::new();
    let mut log = Vec::new();
    let mut rng = StdRng::seed_from_u64(1);
    assert!(quaff(&mut inv, &mut p, &mut status, &mut known, &mut log, &mut rng));
    assert_eq!(p.hp, 9);
    assert!(quaff(&mut inv, &mut p, &mut status, &mut known, &mut log, &mut rng));
    assert_eq!(status.confused, 20);
    assert!(known.is_known("potion of confusion"));
    assert!(!known.is_known("food ration"));
    assert!(!quaff(&mut inv, &mut p, &mut status, &mut known, &mut log, &mut rng));
    assert_eq!(log, vec![
        "You quaff potion of healing draught and feel better.".to_string(),
        "You quaff the potion of confusion.".to_string(),
        "You are confused for 20 turns!".to_string(),
        "You have no potions.".to_string(),
    ]);
}

#[test]
fn reading_scrolls() {
    let mut inv = vec![
        item("scroll of enchant weapon", ItemKind::Scroll(ScrollKind::EnchantWeapon)),
        item("scroll of identify", ItemKind::Scroll(ScrollKind::Identify)),
        item("food ration", ItemKind::Food),
        item("scroll of teleportation", ItemKind::Scroll(ScrollKind::Teleport)),
    ];
    let mut p = player();
    let mut map = LevelMap::new(4, 4);
    map.set_tile(Point::new(1, 1), TileKind::Floor);
    map.set_tile(Point::new(2, 2), TileKind::Floor);
    let mut pos = Point::new(1, 1);
    let mut awake = vec![false];
    let mut known = KnownItems::new();
    let mut log = Vec::new();
    let mut rng = StdRng::seed_from_u64(2);
    let occupied = [Point::new(1, 1)];
    assert!(read_scroll(&mut inv, &mut p, &mut pos, &mut map, &occupied, &mut awake, &mut known, &mut log, &mut rng));
    assert_eq!((p.hit_plus, p.dam_plus), (1, 1));
    assert!(read_scroll(&mut inv, &mut p, &mut pos, &mut map, &occupied, &mut awake, &mut known, &mut log, &mut rng));
    assert!(known.is_known("food ration") && known.is_known("scroll of teleportation"));
    assert!(read_scroll(&mut inv, &mut p, &mut pos, &mut map, &occupied, &mut awake, &mut known, &mut log, &mut rng));
    assert_eq!(pos, Point::new(2, 2));
    assert!(!read_scroll(&mut inv, &mut p, &mut pos, &mut map, &occupied, &mut awake, &mut known, &mut log, &mut rng));
    assert_eq!(log, vec![
        "You read the scroll of enchant weapon.".to_string(),
        "Your weapon glows blue for a moment.".to_string(),
        "You read the scroll of identify.".to_string(),
        "Your items shimmer with clarity! All items identified.".to_string(),
        "You read the scroll of teleportation.".to_string(),
        "You blink across the dungeon!".to_string(),
        "You have no scrolls to read.".to_string(),
    ]);
}
