use rogue::geometry::{Point, Rect};
use rogue::map::{LevelMap, TileKind};

#[test]
fn bounds_and_tiles() {
    let mut m = LevelMap::new(10, 5);
    assert!(m.in_bounds(Point::new(0, 0)));
    assert!(!m.in_bounds(Point::new(10, 0)));
    m.set_tile(Point::new(3, 2), TileKind::Floor);
    assert_eq!(m.tile(Point::new(3, 2)), TileKind::Floor);
    assert!(m.is_walkable(Point::new(3, 2)));
    assert!(!m.is_walkable(Point::new(0, 0)));
}

#[test]
fn visibility_tracking() {
    let mut m = LevelMap::new(4, 4);
    let p = Point::new(1, 1);
    assert!(!m.is_revealed(p));
    m.set_visible(p);
    assert!(m.is_visible(p) && m.is_revealed(p));
    m.clear_visible();
    assert!(!m.is_visible(p));
    assert!(m.is_revealed(p), "revealed memory persists");
}

#[test]
fn new_map_is_rock_with_centred_start() {
    let m = LevelMap::new(7, 3);
    assert_eq!(m.tiles.len(), 21);
    assert!(m.tiles.iter().all(|t| *t == TileKind::Empty));
    assert_eq!(m.player_start, Point::new(3, 1));
    assert!(m.stairs_down.is_none());
    assert_eq!(m.idx(Point::new(2, 1)), 9);
    assert_eq!(m.tile(Point::new(-1, 0)), TileKind::Empty);
}

#[test]
fn tile_properties() {
    assert!(!TileKind::Empty.walkable());
    assert!(!TileKind::Wall.walkable());
    assert!(TileKind::Door.walkable());
    assert!(TileKind::Trap.walkable());
    assert!(TileKind::Wall.opaque());
    assert!(!TileKind::Floor.opaque());
    assert_eq!(TileKind::Passage.glyph(), '#');
    assert_eq!(TileKind::StairsUp.glyph(), '<');
}

#[test]
fn darkness_and_out_of_bounds_writes() {
    let mut m = LevelMap::new(3, 3);
    m.set_dark(Point::new(2, 2), true);
    assert!(m.is_dark(Point::new(2, 2)));
    assert!(!m.is_dark(Point::new(1, 2)));
    // Writes outside the map are ignored.
    m.set_tile(Point::new(5, 5), TileKind::Floor);
    m.reveal_tile(Point::new(-1, 0));
    assert!(m.tiles.iter().all(|t| *t == TileKind::Empty));
    assert!(!m.is_revealed(Point::new(-1, 0)));
    m.reveal_tile(Point::new(0, 0));
    assert!(m.is_revealed(Point::new(0, 0)));
    assert!(!m.is_visible(Point::new(0, 0)));
}

#[test]
fn room_lookup_takes_the_first_match() {
    let mut m = LevelMap::new(10, 10);
    m.rooms.push(Rect::new(0, 0, 4, 4));
    m.rooms.push(Rect::new(2, 2, 4, 4));
    assert_eq!(m.room_at(Point::new(1, 1)), Some(0));
    assert_eq!(m.room_at(Point::new(3, 3)), Some(0));
    assert_eq!(m.room_at(Point::new(5, 5)), Some(1));
    assert_eq!(m.room_at(Point::new(8, 8)), None);
}

fn corridor_map() -> LevelMap {
    // ..#..
    // .###.
    // .....   (row 2 is rock except the ends)
    let mut m = LevelMap::new(5, 3);
    for x in 0..5 {
        m.set_tile(Point::new(x, 0), TileKind::Floor);
    }
    m.set_tile(Point::new(2, 0), TileKind::Wall);
    m.set_tile(Point::new(0, 1), TileKind::Floor);
    m.set_tile(Point::new(4, 1), TileKind::Floor);
    m
}

#[test]
fn paths_walk_king_moves_over_walkable_tiles() {
    let m = corridor_map();
    let from = Point::new(0, 0);
    let to = Point::new(4, 0);
    // The wall at (2, 0) and the rock below it separate the two sides.
    assert!(!m.reachable(from, to));
    assert!(m.find_path(from, to).is_none());

    let mut m = m;
    m.set_tile(Point::new(2, 1), TileKind::Passage);
    assert!(m.reachable(from, to));
    let path = m.find_path(from, to).unwrap();
    assert_eq!(*path.last().unwrap(), to);
    // Shortest route: (1,0) or (1,1), then (2,1), then (3,*), then (4,0).
    assert_eq!(path.len(), 4);
    let mut prev = from;
    for p in &path {
        assert!(m.is_walkable(*p));
        assert!((p.x - prev.x).abs() <= 1 && (p.y - prev.y).abs() <= 1 && *p != prev);
        prev = *p;
    }
    assert_eq!(m.find_path(from, from), Some(vec![]));
}

#[test]
fn ascii_rendering() {
    let mut m = LevelMap::new(3, 2);
    m.set_tile(Point::new(0, 0), TileKind::Floor);
    m.set_tile(Point::new(1, 0), TileKind::Door);
    m.set_tile(Point::new(2, 1), TileKind::StairsDown);
    assert_eq!(m.to_ascii(), ".+ \n  >\n");
}

#[test]
fn neighbours_in_direction_order() {
    let mut m = LevelMap::new(3, 3);
    m.set_tile(Point::new(2, 1), TileKind::Floor);
    m.set_tile(Point::new(1, 0), TileKind::Door);
    m.set_tile(Point::new(0, 0), TileKind::Passage);
    m.set_tile(Point::new(1, 1), TileKind::Floor);
    assert_eq!(
        m.walk_neighbors(Point::new(1, 1)),
        vec![Point::new(2, 1), Point::new(1, 0), Point::new(0, 0)]
    );
    assert!(m.walk_neighbors(Point::new(5, 5)).is_empty());
}
