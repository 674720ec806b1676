use rand::rngs::StdRng;
use rand::SeedableRng;
use rogue::cli::components::{Item, ItemKind, MonsterSpecial, PotionKind, RingKind, ScrollKind, StatusEffects, WandKind};
use rogue::cli::items::{
    category_for_roll, item_for_rolls, monster_special_from_symbol, named_for_roll, pick_named, roll_item, potion_kind_from_name, ring_kind_from_name, ring_name,
    scroll_kind_from_name, wand_kind_from_name,
};
use rogue::cli::render::{dim, item_render, tile_render};
use rogue::cli::scores::{ScoreEntry, Scores};
use rogue::cli::theme::{GlyphStyle, Theme};
use rogue::data::{ArmorDef, CategoryProb, ItemCategory, ItemTables, NamedItem, WeaponDef};
use rogue::dice::DamageRoll;
use rogue::map::TileKind;

#[test]
fn scroll_names_map_to_effects() {
    assert_eq!(scroll_kind_from_name("magic mapping"), ScrollKind::MagicMapping);
    assert_eq!(scroll_kind_from_name("teleportation"), ScrollKind::Teleport);
    assert_eq!(scroll_kind_from_name("enchant weapon"), ScrollKind::EnchantWeapon);
    assert_eq!(scroll_kind_from_name("protect armor"), ScrollKind::EnchantArmor);
    assert_eq!(scroll_kind_from_name("aggravate monsters"), ScrollKind::Aggravate);
    assert_eq!(scroll_kind_from_name("sleep"), ScrollKind::Unknown);
}

#[test]
fn ring_names_round_trip() {
    for kind in [
        RingKind::Protection, RingKind::AddStrength, RingKind::Dexterity,
        RingKind::IncreaseDamage, RingKind::Regeneration, RingKind::SlowDigestion,
        RingKind::Searching, RingKind::AggravateMonster,
    ] {
        let name = ring_name(kind);
        assert_eq!(ring_kind_from_name(name), kind, "round-trip failed for {name}");
    }
}

#[test]
fn names_match_case_insensitively_and_in_order() {
    assert_eq!(scroll_kind_from_name("Scroll of IDENTIFY"), ScrollKind::Identify);
    assert_eq!(potion_kind_from_name("Extra Healing"), PotionKind::ExtraHealing);
    assert_eq!(potion_kind_from_name("healing"), PotionKind::Healing);
    assert_eq!(potion_kind_from_name("thirst quenching"), PotionKind::Unknown);
    assert_eq!(wand_kind_from_name("lightning"), WandKind::Lightning);
    assert_eq!(wand_kind_from_name("light"), WandKind::Light);
    assert_eq!(wand_kind_from_name("magic missile"), WandKind::MagicMissile);
    assert_eq!(wand_kind_from_name("striking"), WandKind::Unknown);
    assert_eq!(wand_kind_from_name("slow monster"), WandKind::Slow);
    // "sustain strength" mentions strength, which is checked first.
    assert_eq!(ring_kind_from_name(ring_name(RingKind::SustainStrength)), RingKind::AddStrength);
    assert_eq!(ring_kind_from_name("ring of stealth"), RingKind::Stealth);
    assert_eq!(ring_kind_from_name(""), RingKind::Unknown);
}

#[test]
fn monster_specials_follow_symbols() {
    assert_eq!(monster_special_from_symbol('L'), MonsterSpecial::StealGold);
    assert_eq!(monster_special_from_symbol('W'), MonsterSpecial::DrainLevel);
    assert_eq!(monster_special_from_symbol('s'), MonsterSpecial::Poison);
    assert_eq!(monster_special_from_symbol('Q'), MonsterSpecial::DrainStrength);
    assert_eq!(monster_special_from_symbol('K'), MonsterSpecial::Ordinary);
}

fn named(name: &str, prob: i32) -> NamedItem {
    NamedItem { name: name.to_string(), prob, worth: 0 }
}

#[test]
fn weighted_pick_lands_on_a_weighted_item() {
    let mut rng = StdRng::seed_from_u64(12);
    let table = vec![named("a", 0), named("b", 3), named("c", 1)];
    for _ in 0..200 {
        let n = pick_named(&table, &mut rng);
        assert!(n == "b" || n == "c");
    }
    assert_eq!(pick_named(&[named("only", 5)], &mut rng), "only");
    assert_eq!(pick_named(&[], &mut rng), "nothing");
    // With no positive weight the roll is 0 and falls through to the first item.
    assert_eq!(pick_named(&[named("z", 0), named("y", 0)], &mut rng), "z");
}

fn entry(name: &str, depth: i32, gold: i32, turns: u64, won: bool) -> ScoreEntry {
    ScoreEntry { name: name.to_string(), depth, gold, turns, won }
}

#[test]
fn scores_rank_by_depth_then_gold_and_keep_twenty() {
    let mut s = Scores::default();
    s.add(entry("a", 3, 10, 100, false));
    s.add(entry("b", 5, 0, 50, false));
    s.add(entry("c", 3, 40, 70, true));
    s.add(entry("d", 3, 10, 10, false));
    let order: Vec<&str> = s.entries.iter().map(|e| e.name.as_str()).collect();
    // Equal depth and gold keep arrival order (a before d).
    assert_eq!(order, vec!["b", "c", "a", "d"]);
    for i in 0..30 {
        s.add(entry("x", -i, 0, 0, false));
    }
    assert_eq!(s.entries.len(), 20);
    assert_eq!(s.entries[0].name, "b");
    assert!(s.entries.windows(2).all(|w| (w[0].depth, w[0].gold) >= (w[1].depth, w[1].gold)));
}

#[test]
fn score_lines_are_padded_columns() {
    let mut s = Scores::default();
    s.add(entry("rodney", 7, 1234, 5678, false));
    s.add(entry("a-very-long-adventurer-name", 26, 99999, 1234567, true));
    let lines = s.top_lines(5);
    assert_eq!(lines.len(), 2);
    assert_eq!(lines[0], " 1. a-very-long-adventurer-name depth: 26  gold:99999  turns:1234567  WON");
    assert_eq!(lines[1], " 2. rodney           depth:  7  gold: 1234  turns:  5678  died");
    assert_eq!(s.top_lines(1).len(), 1);
    assert!(s.top_lines(0).is_empty());
}

#[test]
fn cli_themes_by_name() {
    let t = Theme::from_name("AMBER");
    assert_eq!(t.tint(), Some((255, 180, 60)));
    assert_eq!(t.glyph_style, GlyphStyle::Ascii);
    assert!(Theme::from_name("Boxy").use_boxy());
    assert_eq!(Theme::from_name("green").tint(), Some((80, 255, 80)));
    let c = Theme::from_name("tiled");
    assert_eq!(c.tint(), None);
    assert!(!c.use_boxy());
}

#[test]
fn status_effects_activity() {
    let mut s = StatusEffects::default();
    assert!(!s.is_any_active());
    s.poison_tick = 2;
    assert!(!s.is_any_active());
    s.haste = 1;
    assert!(s.is_any_active());
}

#[test]
fn render_looks() {
    assert_eq!(tile_render(TileKind::Wall), ('#', (140, 110, 80)));
    assert_eq!(tile_render(TileKind::Trap), ('^', (255, 80, 80)));
    let r = item_render(&Item { name: "ring".to_string(), kind: ItemKind::Ring(RingKind::Stealth) });
    assert_eq!((r.glyph, r.color), ('=', (200, 180, 60)));
    assert_eq!(dim((255, 10, 3)), (140, 5, 1));
    assert_eq!(dim((200, 100, 0)), (110, 55, 0));
}

fn tables(categories: Vec<CategoryProb>) -> ItemTables {
    ItemTables {
        categories,
        potions: vec![named("healing", 1)],
        scrolls: vec![named("magic mapping", 1)],
        rings: vec![named("dexterity", 1)],
        sticks: vec![named("fire", 1)],
        armor: vec![ArmorDef { name: "leather armor".to_string(), prob: 1, worth: 5, base_ac: 8 }],
        weapons: vec![WeaponDef {
            name: "mace".to_string(),
            prob: 1,
            worth: 8,
            damage: "2x4".parse().unwrap(),
            throw_damage: "1x3".parse().unwrap(),
            launched_by: None,
            stacks: false,
        }],
    }
}

fn only(category: ItemCategory) -> ItemTables {
    tables(vec![CategoryProb { category, prob: 10 }])
}

#[test]
fn rolled_items_follow_their_category() {
    let mut rng = StdRng::seed_from_u64(21);
    let i = roll_item(&only(ItemCategory::Potion), &mut rng);
    assert_eq!(i.name, "potion of healing");
    assert!(matches!(i.kind, ItemKind::Potion(PotionKind::Healing)));
    let i = roll_item(&only(ItemCategory::Scroll), &mut rng);
    assert_eq!(i.name, "scroll of magic mapping");
    assert!(matches!(i.kind, ItemKind::Scroll(ScrollKind::MagicMapping)));
    let i = roll_item(&only(ItemCategory::Ring), &mut rng);
    assert_eq!(i.name, "ring of dexterity");
    assert!(matches!(i.kind, ItemKind::Ring(RingKind::Dexterity)));
    let i = roll_item(&only(ItemCategory::Stick), &mut rng);
    assert_eq!(i.name, "wand of fire");
    match i.kind {
        ItemKind::Wand { kind, charges } => {
            assert_eq!(kind, WandKind::Fire);
            assert!((3..9).contains(&charges));
        }
        _ => panic!("expected a wand"),
    }
    let i = roll_item(&only(ItemCategory::Weapon), &mut rng);
    assert_eq!(i.name, "mace");
    match i.kind {
        ItemKind::Weapon { damage, hit_plus, dam_plus } => {
            assert_eq!(damage, "2x4".parse::<DamageRoll>().unwrap());
            assert_eq!((hit_plus, dam_plus), (0, 0));
        }
        _ => panic!("expected a weapon"),
    }
    let i = roll_item(&only(ItemCategory::Armor), &mut rng);
    assert_eq!(i.name, "leather armor");
    assert!(matches!(i.kind, ItemKind::Armor(8)));
    // No positive category weight: the roll falls through to food.
    let i = roll_item(&tables(vec![]), &mut rng);
    assert_eq!(i.name, "food ration");
    assert!(matches!(i.kind, ItemKind::Food));
}

#[test]
fn item_rolls_pick_exact_items() {
    let cats = vec![
        CategoryProb { category: ItemCategory::Potion, prob: 3 },
        CategoryProb { category: ItemCategory::Stick, prob: 2 },
        CategoryProb { category: ItemCategory::Weapon, prob: 1 },
    ];
    assert_eq!(category_for_roll(&cats, 0), ItemCategory::Potion);
    assert_eq!(category_for_roll(&cats, 2), ItemCategory::Potion);
    assert_eq!(category_for_roll(&cats, 3), ItemCategory::Stick);
    assert_eq!(category_for_roll(&cats, 5), ItemCategory::Weapon);
    let weighted = vec![named("healing", 2), named("blindness", 3)];
    assert_eq!(named_for_roll(&weighted, 1), "healing");
    assert_eq!(named_for_roll(&weighted, 2), "blindness");
    let mut t = tables(cats);
    t.potions = weighted;
    let i = item_for_rolls(&t, ItemCategory::Potion, 4, 0);
    assert_eq!(i.name, "potion of blindness");
    let i = item_for_rolls(&t, ItemCategory::Stick, 0, 5);
    assert_eq!(i.name, "wand of fire");
    assert!(matches!(i.kind, ItemKind::Wand { kind: WandKind::Fire, charges: 8 }));
    let i = item_for_rolls(&t, ItemCategory::Weapon, 0, 0);
    assert_eq!(i.name, "mace");
    let i = item_for_rolls(&t, ItemCategory::Food, 0, 0);
    assert_eq!(i.name, "food ration");
}
