//! The terminal game's screens and what each key press does on them: the
//! decisions of the frame loop, apart from the work they start.

use vstd::prelude::*;
use crate::engine::keys::{Key, key_move, move_of};

verus! {

/// The high-level phase the game is in.
#[derive(Debug, Clone, Copy, PartialEq, Eq, Structural)]
pub enum Mode {
    Title,
    Playing,
    Help,
    Inventory,
    ConfirmQuit,
    Dead,
    Won,
    MessageLog,
    Scores,
}

/// A command given by a key during play.
#[derive(Debug, Clone, Copy, PartialEq, Eq, Structural)]
pub enum Command {
    /// Step (or attack) by (delta x, delta y).
    Move(i32, i32),
    Wait,
    Descend,
    Pickup,
    Quaff,
    Zap,
    Eat,
    Read,
    RemoveRing,
    PutOnRing,
    Search,
    Throw,
    Explore,
}

/// The work a key press starts, beyond changing screens.
#[derive(Debug, Clone, Copy, PartialEq, Eq, Structural)]
pub enum TickAction {
    Nothing,
    /// Leave the game.
    Quit,
    ToggleAutopilot,
    /// Let the bot take its step.
    RunAutopilot,
    /// Play the key as a command (see [`command_for`]).
    Play,
    /// Start a new game, straight into play.
    Restart,
}

/// Which screen is up, where a cancelled quit returns to, and how far the
/// message log is scrolled.
#[derive(Debug, Clone, Copy, PartialEq, Eq, Structural)]
pub struct Screens {
    pub mode: Mode,
    pub quit_return: Mode,
    pub log_scroll: usize,
}

/// Lines of the message log shown at once.
pub const PANEL_LINES: usize = 16;

/// The command a key gives during play: direction keys move; `.` waits
/// (shifted: descends); `r` reads (shifted: takes off a ring); the other
/// command keys are fixed.
pub open spec fn command_of(key: Key, shift: bool) -> Option<Command> {
    match move_of(key) {
        Some((dx, dy)) => Some(Command::Move(dx, dy)),
        None => match key {
            Key::Period => Some(if shift { Command::Descend } else { Command::Wait }),
            Key::G => Some(Command::Pickup),
            Key::Q => Some(Command::Quaff),
            Key::Z => Some(Command::Zap),
            Key::E => Some(Command::Eat),
            Key::R => Some(if shift { Command::RemoveRing } else { Command::Read }),
            Key::P => Some(Command::PutOnRing),
            Key::S => Some(Command::Search),
            Key::T => Some(Command::Throw),
            Key::Tab => Some(Command::Explore),
            _ => None,
        },
    }
}

/// The command a key gives during play, if any.
pub fn command_for(key: Key, shift: bool) -> (c: Option<Command>)
    ensures
        c == command_of(key, shift),
{
    match key_move(key) {
        Some((dx, dy)) => Some(Command::Move(dx, dy)),
        None => match key {
            Key::Period => {
                if shift {
                    Some(Command::Descend)
                } else {
                    Some(Command::Wait)
                }
            },
            Key::G => Some(Command::Pickup),
            Key::Q => Some(Command::Quaff),
            Key::Z => Some(Command::Zap),
            Key::E => Some(Command::Eat),
            Key::R => {
                if shift {
                    Some(Command::RemoveRing)
                } else {
                    Some(Command::Read)
                }
            },
            Key::P => Some(Command::PutOnRing),
            Key::S => Some(Command::Search),
            Key::T => Some(Command::Throw),
            Key::Tab => Some(Command::Explore),
            _ => None,
        },
    }
}

/// Which keys give each command during play: `.` waits and, shifted,
/// descends; `g` picks up, `q` quaffs, `z` zaps, `e` eats, `p` puts on a
/// ring, `s` searches, `t` throws, Tab explores; `r` reads and, shifted,
/// takes off a ring.
pub proof fn lemma_command_keys(key: Key, shift: bool)
    ensures
        (command_of(key, shift) == Some(Command::Wait)) == (key == Key::Period && !shift),
        (command_of(key, shift) == Some(Command::Descend)) == (key == Key::Period && shift),
        (command_of(key, shift) == Some(Command::Pickup)) == (key == Key::G),
        (command_of(key, shift) == Some(Command::Quaff)) == (key == Key::Q),
        (command_of(key, shift) == Some(Command::Zap)) == (key == Key::Z),
        (command_of(key, shift) == Some(Command::Eat)) == (key == Key::E),
        (command_of(key, shift) == Some(Command::Read)) == (key == Key::R && !shift),
        (command_of(key, shift) == Some(Command::RemoveRing)) == (key == Key::R && shift),
        (command_of(key, shift) == Some(Command::PutOnRing)) == (key == Key::P),
        (command_of(key, shift) == Some(Command::Search)) == (key == Key::S),
        (command_of(key, shift) == Some(Command::Throw)) == (key == Key::T),
        (command_of(key, shift) == Some(Command::Explore)) == (key == Key::Tab),
        (command_of(key, shift) is Some) == (move_of(key) is Some || key == Key::Period || key == Key::G || key
            == Key::Q || key == Key::Z || key == Key::E || key == Key::R || key == Key::P || key == Key::S || key
            == Key::T || key == Key::Tab),
{
}

/// Ask whether to quit, remembering the screen to go back to.
pub open spec fn asking_quit(s: Screens) -> Screens {
    Screens { mode: Mode::ConfirmQuit, quit_return: s.mode, ..s }
}

/// `s` showing `mode`.
pub open spec fn showing(s: Screens, mode: Mode) -> Screens {
    Screens { mode, ..s }
}

/// How far the message log can scroll with `log_len` messages.
pub open spec fn max_scroll(log_len: int) -> int {
    if log_len > PANEL_LINES { log_len - PANEL_LINES } else { 0 }
}

/// The screens after a key press (`None`: no key this frame), and the work it
/// starts.
///
/// On the title screen Enter starts play, `s` shows the scores and Escape asks
/// to quit. In play Escape asks to quit and `a` toggles the bot; when the bot
/// is off, `/` shows help, `i` the pack and `m` the message log (from its
/// newest line); anything else is played (by the bot when it is on). Help and
/// the pack close on any key. The message log scrolls with up/`k` and
/// down/`j` and closes on any other key. Asked to quit, `y` or Enter quits and
/// `n` or Escape goes back. After death or victory Enter starts a new game, `s`
/// shows the scores and Escape asks to quit. The scores close to the title.
pub open spec fn tick_next(s: Screens, key: Option<Key>, autopilot: bool, log_len: int) -> (Screens, TickAction) {
    match s.mode {
        Mode::Title => match key {
            Some(Key::Enter) => (showing(s, Mode::Playing), TickAction::Nothing),
            Some(Key::S) => (showing(s, Mode::Scores), TickAction::Nothing),
            Some(Key::Escape) => (asking_quit(s), TickAction::Nothing),
            _ => (s, TickAction::Nothing),
        },
        Mode::Playing => {
            let play = (s, if autopilot { TickAction::RunAutopilot } else { TickAction::Play });
            match key {
                Some(Key::Escape) => (asking_quit(s), TickAction::Nothing),
                Some(Key::A) => (s, TickAction::ToggleAutopilot),
                Some(Key::Slash) => if autopilot { play } else { (showing(s, Mode::Help), TickAction::Nothing) },
                Some(Key::I) => if autopilot { play } else { (showing(s, Mode::Inventory), TickAction::Nothing) },
                Some(Key::M) => if autopilot {
                    play
                } else {
                    (Screens { mode: Mode::MessageLog, log_scroll: 0, ..s }, TickAction::Nothing)
                },
                _ => play,
            }
        },
        Mode::Help | Mode::Inventory => match key {
            Some(_) => (showing(s, Mode::Playing), TickAction::Nothing),
            None => (s, TickAction::Nothing),
        },
        Mode::MessageLog => match key {
            Some(Key::Up) | Some(Key::K) => (Screens {
                log_scroll: if s.log_scroll > 0 { (s.log_scroll - 1) as usize } else { s.log_scroll },
                ..s
            }, TickAction::Nothing),
            Some(Key::Down) | Some(Key::J) => (Screens {
                log_scroll: if s.log_scroll < max_scroll(log_len) { (s.log_scroll + 1) as usize } else { s.log_scroll },
                ..s
            }, TickAction::Nothing),
            Some(_) => (showing(s, Mode::Playing), TickAction::Nothing),
            None => (s, TickAction::Nothing),
        },
        Mode::ConfirmQuit => match key {
            Some(Key::Y) | Some(Key::Enter) => (s, TickAction::Quit),
            Some(Key::N) | Some(Key::Escape) => (showing(s, s.quit_return), TickAction::Nothing),
            _ => (s, TickAction::Nothing),
        },
        Mode::Dead | Mode::Won => match key {
            Some(Key::Enter) => (Screens { mode: Mode::Playing, quit_return: Mode::Title, log_scroll: 0 }, TickAction::Restart),
            Some(Key::S) => (showing(s, Mode::Scores), TickAction::Nothing),
            Some(Key::Escape) => (asking_quit(s), TickAction::Nothing),
            _ => (s, TickAction::Nothing),
        },
        Mode::Scores => match key {
            Some(_) => (showing(s, Mode::Title), TickAction::Nothing),
            None => (s, TickAction::Nothing),
        },
    }
}

impl Screens {
    /// The screens a new game starts on.
    pub fn new() -> (s: Screens)
        ensures
            s == (Screens { mode: Mode::Title, quit_return: Mode::Title, log_scroll: 0 }),
    {
        Screens { mode: Mode::Title, quit_return: Mode::Title, log_scroll: 0 }
    }

    fn request_quit(&mut self)
        ensures
            *final(self) == asking_quit(*old(self)),
    {
        self.quit_return = self.mode;
        self.mode = Mode::ConfirmQuit;
    }

    /// Take a frame's key press (if any) on the current screen: change screens
    /// and say what work it starts.
    pub fn tick(&mut self, key: Option<Key>, autopilot: bool, log_len: usize) -> (a: TickAction)
        ensures
            (*final(self), a) == tick_next(*old(self), key, autopilot, log_len as int),
    {
        let mode = self.mode;
        match mode {
            Mode::Title => {
                match key {
                    Some(Key::Enter) => {
                        self.mode = Mode::Playing;
                    },
                    Some(Key::S) => {
                        self.mode = Mode::Scores;
                    },
                    Some(Key::Escape) => {
                        self.request_quit();
                    },
                    _ => {},
                }
                TickAction::Nothing
            },
            Mode::Playing => {
                let play = if autopilot { TickAction::RunAutopilot } else { TickAction::Play };
                match key {
                    Some(Key::Escape) => {
                        self.request_quit();
                        TickAction::Nothing
                    },
                    Some(Key::A) => TickAction::ToggleAutopilot,
                    Some(Key::Slash) => {
                        if autopilot {
                            play
                        } else {
                            self.mode = Mode::Help;
                            TickAction::Nothing
                        }
                    },
                    Some(Key::I) => {
                        if autopilot {
                            play
                        } else {
                            self.mode = Mode::Inventory;
                            TickAction::Nothing
                        }
                    },
                    Some(Key::M) => {
                        if autopilot {
                            play
                        } else {
                            self.log_scroll = 0;
                            self.mode = Mode::MessageLog;
                            TickAction::Nothing
                        }
                    },
                    _ => play,
                }
            },
            Mode::Help | Mode::Inventory => {
                if key.is_some() {
                    self.mode = Mode::Playing;
                }
                TickAction::Nothing
            },
            Mode::MessageLog => {
                match key {
                    Some(Key::Up) | Some(Key::K) => {
                        if self.log_scroll > 0 {
                            self.log_scroll = self.log_scroll - 1;
                        }
                    },
                    Some(Key::Down) | Some(Key::J) => {
                        let max = if log_len > PANEL_LINES { log_len - PANEL_LINES } else { 0 };
                        if self.log_scroll < max {
                            self.log_scroll = self.log_scroll + 1;
                        }
                    },
                    Some(_) => self.mode = Mode::Playing,
                    None => {},
                }
                TickAction::Nothing
            },
            Mode::ConfirmQuit => match key {
                Some(Key::Y) | Some(Key::Enter) => TickAction::Quit,
                Some(Key::N) | Some(Key::Escape) => {
                    self.mode = self.quit_return;
                    TickAction::Nothing
                },
                _ => TickAction::Nothing,
            },
            Mode::Dead | Mode::Won => match key {
                Some(Key::Enter) => {
                    self.mode = Mode::Playing;
                    self.quit_return = Mode::Title;
                    self.log_scroll = 0;
                    TickAction::Restart
                },
                Some(Key::S) => {
                    self.mode = Mode::Scores;
                    TickAction::Nothing
                },
                Some(Key::Escape) => {
                    self.request_quit();
                    TickAction::Nothing
                },
                _ => TickAction::Nothing,
            },
            Mode::Scores => {
                if key.is_some() {
                    self.mode = Mode::Title;
                }
                TickAction::Nothing
            },
        }
    }
}

} // verus!
