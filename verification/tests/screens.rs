use rogue::cli::screens::{command_for, Command, Mode, Screens, TickAction};
use rogue::engine::action::GameAction;
use rogue::engine::keys::{map_key, Key};

#[test]
fn keys_map_to_actions() {
    assert_eq!(map_key(Key::H, false), Some(GameAction::Move(-1, 0)));
    assert_eq!(map_key(Key::Kp3, false), Some(GameAction::Move(1, 1)));
    assert_eq!(map_key(Key::Period, false), Some(GameAction::Wait));
    assert_eq!(map_key(Key::Period, true), Some(GameAction::Descend));
    assert_eq!(map_key(Key::R, true), Some(GameAction::RemoveRing));
    assert_eq!(map_key(Key::S, true), Some(GameAction::Scores));
    assert_eq!(map_key(Key::S, false), Some(GameAction::Search));
    assert_eq!(map_key(Key::KpEnter, false), Some(GameAction::Confirm));
    assert_eq!(map_key(Key::Z, false), Some(GameAction::Char('z')));
    assert_eq!(map_key(Key::F, false), Some(GameAction::Char('f')));
    assert_eq!(map_key(Key::F, true), None);
    assert_eq!(map_key(Key::Other, false), None);
}

#[test]
fn play_keys_give_commands() {
    assert_eq!(command_for(Key::Y, false), Some(Command::Move(-1, -1)));
    assert_eq!(command_for(Key::Period, true), Some(Command::Descend));
    assert_eq!(command_for(Key::Z, false), Some(Command::Zap));
    assert_eq!(command_for(Key::R, false), Some(Command::Read));
    assert_eq!(command_for(Key::R, true), Some(Command::RemoveRing));
    assert_eq!(command_for(Key::Tab, false), Some(Command::Explore));
    assert_eq!(command_for(Key::X, false), None);
}

#[test]
fn title_to_play_and_quit_prompt() {
    let mut s = Screens::new();
    assert_eq!(s.tick(Some(Key::Enter), false, 0), TickAction::Nothing);
    assert_eq!(s.mode, Mode::Playing);
    assert_eq!(s.tick(Some(Key::H), false, 0), TickAction::Play);
    assert_eq!(s.tick(Some(Key::H), true, 0), TickAction::RunAutopilot);
    assert_eq!(s.tick(Some(Key::Slash), true, 0), TickAction::RunAutopilot);
    assert_eq!(s.tick(Some(Key::Slash), false, 0), TickAction::Nothing);
    assert_eq!(s.mode, Mode::Help);
    s.tick(Some(Key::Other), false, 0);
    assert_eq!(s.mode, Mode::Playing);
    s.tick(Some(Key::Escape), false, 0);
    assert_eq!((s.mode, s.quit_return), (Mode::ConfirmQuit, Mode::Playing));
    s.tick(Some(Key::N), false, 0);
    assert_eq!(s.mode, Mode::Playing);
    s.tick(Some(Key::Escape), false, 0);
    assert_eq!(s.tick(Some(Key::Y), false, 0), TickAction::Quit);
}

#[test]
fn message_log_scrolls_within_bounds() {
    let mut s = Screens::new();
    s.tick(Some(Key::Enter), false, 0);
    s.tick(Some(Key::M), false, 18);
    assert_eq!(s.mode, Mode::MessageLog);
    s.tick(Some(Key::K), false, 18);
    assert_eq!(s.log_scroll, 0);
    for _ in 0..5 {
        s.tick(Some(Key::Down), false, 18);
    }
    assert_eq!(s.log_scroll, 2);
    s.tick(Some(Key::Up), false, 18);
    assert_eq!(s.log_scroll, 1);
    s.tick(None, false, 18);
    assert_eq!(s.mode, Mode::MessageLog);
    s.tick(Some(Key::Q), false, 18);
    assert_eq!(s.mode, Mode::Playing);
}

#[test]
fn after_death_restart_or_scores() {
    let mut s = Screens { mode: Mode::Dead, quit_return: Mode::Playing, log_scroll: 3 };
    assert_eq!(s.tick(Some(Key::S), false, 0), TickAction::Nothing);
    assert_eq!(s.mode, Mode::Scores);
    s.tick(Some(Key::Other), false, 0);
    assert_eq!(s.mode, Mode::Title);
    let mut s = Screens { mode: Mode::Won, quit_return: Mode::Playing, log_scroll: 3 };
    assert_eq!(s.tick(Some(Key::Enter), false, 0), TickAction::Restart);
    assert_eq!(s, Screens { mode: Mode::Playing, quit_return: Mode::Title, log_scroll: 0 });
}
