use rand::rngs::StdRng;
use rand::SeedableRng;
use rogue::cli::components::{Item, ItemKind, ScrollKind};
use rogue::cli::pack::{read_scroll, KnownItems};
use rogue::cli::setup::starting_stats;
use rogue::data::Config;
use rogue::geometry::Point;
use rogue::map::{LevelMap, TileKind};

fn cfg() -> Config {
    Config {
        map_width: 80,
        map_height: 24,
        max_rooms: 9,
        max_passages: 13,
        max_objects_per_level: 9,
        max_traps: 10,
        amulet_level: 26,
        hunger_time: 1300,
        stomach_size: 2000,
        start_hp: 12,
        start_strength: 16,
        start_armor: 7,
    }
}

fn room() -> LevelMap {
    // A 9x5 map: floor everywhere, a wall column at x = 5 (rows 0..=4).
    let mut m = LevelMap::new(9, 5);
    for y in 0..5 {
        for x in 0..9 {
            m.set_tile(Point::new(x, y), TileKind::Floor);
        }
        m.set_tile(Point::new(5, y), TileKind::Wall);
    }
    m
}

#[test]
fn lines_stop_after_the_first_opaque_tile() {
    let mut m = room();
    m.reveal_line(Point::new(1, 2), Point::new(8, 2));
    for x in 1..=5 {
        assert!(m.is_visible(Point::new(x, 2)), "x = {x}");
    }
    // The wall is seen; what lies behind it is not.
    assert!(!m.is_visible(Point::new(6, 2)));
    assert!(!m.is_visible(Point::new(0, 2)));
    assert!(m.is_revealed(Point::new(5, 2)));
}

#[test]
fn lines_follow_bresenham_steps() {
    let mut m = LevelMap::new(10, 10);
    for y in 0..10 {
        for x in 0..10 {
            m.set_tile(Point::new(x, y), TileKind::Floor);
        }
    }
    m.reveal_line(Point::new(0, 0), Point::new(4, 2));
    let lit: Vec<(i32, i32)> = (0..10)
        .flat_map(|y| (0..10).map(move |x| (x, y)))
        .filter(|&(x, y)| m.is_visible(Point::new(x, y)))
        .collect();
    assert_eq!(lit, vec![(0, 0), (1, 1), (2, 1), (3, 2), (4, 2)]);
}

#[test]
fn field_of_view_lights_the_disc_and_the_ring() {
    let mut m = room();
    m.set_visible(Point::new(8, 4));
    m.field_of_view(Point::new(2, 2), 5);
    // Earlier sight is cleared, but memory stays.
    assert!(!m.is_visible(Point::new(8, 4)));
    assert!(m.is_revealed(Point::new(8, 4)));
    assert!(m.is_visible(Point::new(0, 0)));
    assert!(m.is_visible(Point::new(5, 2)));
    assert!(!m.is_visible(Point::new(6, 2)));

    // Blind: radius 1 shows only the ring around the viewer.
    let mut m = room();
    m.field_of_view(Point::new(2, 2), 1);
    let count = (0..5).flat_map(|y| (0..9).map(move |x| Point::new(x, y))).filter(|p| m.is_visible(*p)).count();
    assert_eq!(count, 9);
}

#[test]
fn reading_magic_mapping_reveals_the_level() {
    let mut m = room();
    m.set_tile(Point::new(0, 0), TileKind::Empty);
    let revealed = |m: &LevelMap| (0..m.height).flat_map(|y| (0..m.width).map(move |x| Point::new(x, y))).filter(|p| m.is_revealed(*p)).count();
    let before = revealed(&m);
    let mut inv = vec![Item { name: "scroll of magic mapping".into(), kind: ItemKind::Scroll(ScrollKind::MagicMapping) }];
    let mut player = starting_stats(&cfg());
    let mut pos = Point::new(2, 2);
    let mut awake = Vec::new();
    let mut known = KnownItems::new();
    let mut log = Vec::new();
    let mut rng = StdRng::seed_from_u64(1);
    assert!(read_scroll(&mut inv, &mut player, &mut pos, &mut m, &[], &mut awake, &mut known, &mut log, &mut rng));
    assert!(revealed(&m) > before);
    assert!(m.is_revealed(Point::new(8, 4)));
    assert!(m.is_revealed(Point::new(5, 0)));
    assert!(!m.is_revealed(Point::new(0, 0)));
    assert!(!m.is_visible(Point::new(8, 4)));
}
