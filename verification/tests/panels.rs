use rogue::cli::components::{Item, ItemKind, RingKind, Stats, StatusEffects};
use rogue::cli::panels::{
    cell_appearance, context_hint, inventory_lines, log_window, ring_lines, status_line, won_lines,
};
use rogue::geometry::Point;
use rogue::map::{LevelMap, TileKind};

fn stats() -> Stats {
    Stats {
        hp: 9,
        max_hp: 12,
        level: 2,
        strength: 16,
        armor: 7,
        damage: "2x4".parse().unwrap(),
        hit_plus: 0,
        dam_plus: 0,
        xp_reward: 23,
    }
}

#[test]
fn status_bar_shows_the_numbers_hunger_and_tags() {
    let calm = StatusEffects::default();
    assert_eq!(
        status_line(&stats(), 40, 3, 900, false, &calm),
        "Level:2  HP:9/12  Str:16  Arm:7  Gold:40  Exp:23  Depth:3  "
    );
    let mut st = StatusEffects::default();
    st.confused = 2;
    st.haste = 1;
    assert_eq!(
        status_line(&stats(), 0, 1, 150, true, &st),
        "Level:2  HP:9/12  Str:16  Arm:7  Gold:0  Exp:23  Depth:1  Hungry  [AUTO][CONF][HSTE]"
    );
    let mut st = StatusEffects::default();
    st.blind = 1;
    st.poisoned = 4;
    st.paralyzed = 1;
    let mut s = stats();
    s.hp = -3;
    assert_eq!(
        status_line(&s, 5, 2, 0, false, &st),
        "Level:2  HP:-3/12  Str:16  Arm:7  Gold:5  Exp:23  Depth:2  Starving[BLND][PSND][PARA]"
    );
}

#[test]
fn hints_name_the_stairs_before_an_item() {
    let mut m = LevelMap::new(4, 4);
    m.set_tile(Point::new(1, 1), TileKind::StairsDown);
    m.set_tile(Point::new(2, 1), TileKind::Floor);
    let stairs = "You are on the stairs down. Press > to descend to the next level.";
    let item = "There is an item here. Press g to pick it up.";
    assert_eq!(context_hint(&m, Point::new(1, 1), true), Some(stairs));
    assert_eq!(context_hint(&m, Point::new(1, 1), false), Some(stairs));
    assert_eq!(context_hint(&m, Point::new(2, 1), true), Some(item));
    assert_eq!(context_hint(&m, Point::new(2, 1), false), None);
}

#[test]
fn cells_show_seen_ground_and_dim_what_is_remembered() {
    let mut m = LevelMap::new(3, 1);
    m.set_tile(Point::new(0, 0), TileKind::Wall);
    m.set_tile(Point::new(1, 0), TileKind::Floor);
    m.reveal_tile(Point::new(0, 0));
    m.reveal_tile(Point::new(1, 0));
    m.set_visible(Point::new(0, 0));
    assert_eq!(cell_appearance(&m, Point::new(0, 0)), Some(('#', (140, 110, 80))));
    assert_eq!(cell_appearance(&m, Point::new(1, 0)), Some(('.', (66, 66, 66))));
    assert_eq!(cell_appearance(&m, Point::new(2, 0)), None);
}

#[test]
fn inventory_lines_letter_pad_and_name_the_kind() {
    let items = vec![
        Item { name: "food ration".to_string(), kind: ItemKind::Food },
        Item { name: "ring of searching".to_string(), kind: ItemKind::Ring(RingKind::Searching) },
    ];
    let lines = inventory_lines(&items);
    assert_eq!(lines.len(), 2);
    assert_eq!(lines[0], format!("a)  {:<36} [food]", "food ration"));
    assert_eq!(lines[1], format!("b)  {:<36} [ring]", "ring of searching"));
    let long = vec![Item { name: "x".repeat(40), kind: ItemKind::Trinket }];
    assert_eq!(inventory_lines(&long)[0], format!("a)  {} [trinket]", "x".repeat(40)));
    assert!(inventory_lines(&[]).is_empty());
}

#[test]
fn ring_slots_name_the_ring_or_none() {
    let (left, right) = ring_lines(Some(RingKind::Protection), None);
    assert_eq!(left, "  Left : ring of protection");
    assert_eq!(right, "  Right: (none)");
}

#[test]
fn the_log_panel_shows_newest_first_from_the_scroll_offset() {
    let log: Vec<String> = (0..20).map(|i| format!("message {i}")).collect();
    let lines = log_window(&log, 0);
    assert_eq!(lines.len(), 16);
    assert_eq!(lines[0], "message 19");
    assert_eq!(lines[15], "message 4");
    let lines = log_window(&log, 10);
    assert_eq!(lines.len(), 10);
    assert_eq!(lines[0], "message 9");
    assert_eq!(lines[9], "message 0");
    // Scrolling past the end keeps the oldest message in view.
    let lines = log_window(&log, 500);
    assert_eq!(lines, vec!["message 0".to_string()]);
    assert!(log_window(&Vec::new(), 3).is_empty());
    // Long lines are clipped to the panel.
    let long = vec!["y".repeat(70)];
    assert_eq!(log_window(&long, 0), vec!["y".repeat(55)]);
}

#[test]
fn the_victory_panel_sums_up_the_game() {
    let lines = won_lines(26, 1234, 98765, &stats());
    assert_eq!(
        lines,
        vec![
            "  Dungeon depth reached : 26".to_string(),
            "  Gold collected        : 1234".to_string(),
            "  Turns taken           : 98765".to_string(),
            "  Character level      : 2".to_string(),
            "  Experience           : 23".to_string(),
        ]
    );
}
