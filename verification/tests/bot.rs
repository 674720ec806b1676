use rogue::cli::bot::{bot_move, Autopilot, BotMove, AUTO_PERIOD};
use rogue::geometry::Point;
use rogue::map::{LevelMap, TileKind};

fn room() -> LevelMap {
    let mut m = LevelMap::new(6, 4);
    for y in 1..3 {
        for x in 1..5 {
            m.set_tile(Point::new(x, y), TileKind::Floor);
        }
    }
    m
}

#[test]
fn the_bot_heads_for_the_amulet_then_the_stairs() {
    let mut m = room();
    assert_eq!(bot_move(&m, Point::new(1, 1), None), BotMove::Idle);
    m.set_tile(Point::new(4, 1), TileKind::StairsDown);
    m.stairs_down = Some(Point::new(4, 1));
    assert_eq!(bot_move(&m, Point::new(1, 1), None), BotMove::Step(1, 0));
    assert_eq!(bot_move(&m, Point::new(4, 1), None), BotMove::Descend);
    assert_eq!(bot_move(&m, Point::new(1, 1), Some(Point::new(1, 2))), BotMove::Step(0, 1));
    assert_eq!(bot_move(&m, Point::new(1, 2), Some(Point::new(1, 2))), BotMove::Pickup);
    // A target behind rock cannot be reached.
    assert_eq!(bot_move(&m, Point::new(1, 1), Some(Point::new(0, 0))), BotMove::Idle);
}

#[test]
fn the_autopilot_pauses_between_moves_and_can_be_switched() {
    let mut log = Vec::new();
    let mut a = Autopilot::new();
    a.toggle(&mut log);
    assert_eq!(a, Autopilot { on: true, cooldown: 0 });
    assert_eq!(log, vec!["Autopilot engaged — watch the bot descend. Press A to stop.".to_string()]);
    // Acts at once, then waits out the pause.
    assert!(a.tick());
    assert_eq!(a.cooldown, AUTO_PERIOD);
    for _ in 0..AUTO_PERIOD {
        assert!(!a.tick());
    }
    assert!(a.tick());
    a.stop_stuck(&mut log);
    assert!(!a.on);
    assert_eq!(log[1], "Autopilot stopped (no path to the stairs).");
    a.toggle(&mut log);
    a.toggle(&mut log);
    assert_eq!(log[3], "Autopilot disengaged.");
    a.start_demo(&mut log);
    assert_eq!(a, Autopilot { on: true, cooldown: 0 });
    assert_eq!(log[4], "Demo mode: autopilot is driving. Press A to take control.");
}
