//! Physical keys, as the front ends report them, and the actions they stand for.

use vstd::prelude::*;
use crate::engine::action::GameAction;

verus! {

/// A physical key the game reacts to; every other key is `Other`.
#[derive(Debug, Clone, Copy, PartialEq, Eq, Structural)]
pub enum Key {
    Left,
    Right,
    Up,
    Down,
    Kp1,
    Kp2,
    Kp3,
    Kp4,
    Kp6,
    Kp7,
    Kp8,
    Kp9,
    A,
    B,
    C,
    D,
    E,
    F,
    G,
    H,
    I,
    J,
    K,
    L,
    M,
    N,
    O,
    P,
    Q,
    R,
    S,
    T,
    U,
    V,
    W,
    X,
    Y,
    Z,
    Period,
    Tab,
    Slash,
    Escape,
    Enter,
    KpEnter,
    PageUp,
    PageDown,
    Other,
}

/// The place in the alphabet of a letter key (from 0 for `a`); -1 for any
/// other key.
pub open spec fn letter_index(key: Key) -> int {
    match key {
        Key::A => 0, Key::B => 1, Key::C => 2, Key::D => 3, Key::E => 4, Key::F => 5, Key::G => 6, Key::H => 7,
        Key::I => 8, Key::J => 9, Key::K => 10, Key::L => 11, Key::M => 12, Key::N => 13, Key::O => 14,
        Key::P => 15, Key::Q => 16, Key::R => 17, Key::S => 18, Key::T => 19, Key::U => 20, Key::V => 21,
        Key::W => 22, Key::X => 23, Key::Y => 24, Key::Z => 25,
        _ => -1,
    }
}

/// The letter a letter key types.
pub open spec fn letter_of(key: Key) -> Option<char> {
    if letter_index(key) >= 0 {
        Some(('a' as int + letter_index(key)) as char)
    } else {
        None
    }
}

/// The movement of a direction key: arrows, `hjkl`, `yubn` and the keypad.
pub open spec fn move_of(key: Key) -> Option<(i32, i32)> {
    match key {
        Key::Left | Key::H | Key::Kp4 => Some((-1i32, 0i32)),
        Key::Right | Key::L | Key::Kp6 => Some((1i32, 0i32)),
        Key::Up | Key::K | Key::Kp8 => Some((0i32, -1i32)),
        Key::Down | Key::J | Key::Kp2 => Some((0i32, 1i32)),
        Key::Y | Key::Kp7 => Some((-1i32, -1i32)),
        Key::U | Key::Kp9 => Some((1i32, -1i32)),
        Key::B | Key::Kp1 => Some((-1i32, 1i32)),
        Key::N | Key::Kp3 => Some((1i32, 1i32)),
        _ => None,
    }
}

/// The action a key stands for (with or without shift): direction keys move;
/// `.` waits (shifted: descends); `r` reads (shifted: removes a ring); `s`
/// searches (shifted: shows the scores); the other action keys are fixed;
/// any other unshifted letter selects by its letter.
pub open spec fn key_action(key: Key, shift: bool) -> Option<GameAction> {
    match move_of(key) {
        Some((dx, dy)) => Some(GameAction::Move(dx, dy)),
        None => match key {
            Key::Period => Some(if shift { GameAction::Descend } else { GameAction::Wait }),
            Key::G => Some(GameAction::Pickup),
            Key::Q => Some(GameAction::Quaff),
            Key::E => Some(GameAction::Eat),
            Key::R => Some(if shift { GameAction::RemoveRing } else { GameAction::Read }),
            Key::P => Some(GameAction::PutOnRing),
            Key::S => Some(if shift { GameAction::Scores } else { GameAction::Search }),
            Key::T => Some(GameAction::Throw),
            Key::Tab => Some(GameAction::Explore),
            Key::I => Some(GameAction::Inventory),
            Key::M => Some(GameAction::MessageLog),
            Key::A => Some(GameAction::Autopilot),
            Key::Slash => Some(GameAction::Help),
            Key::Escape => Some(GameAction::Quit),
            Key::Enter | Key::KpEnter => Some(GameAction::Confirm),
            Key::PageUp => Some(GameAction::ScrollUp),
            Key::PageDown => Some(GameAction::ScrollDown),
            _ => match letter_of(key) {
                Some(c) => if shift { None } else { Some(GameAction::Char(c)) },
                None => None,
            },
        },
    }
}

/// The movement of a direction key.
pub fn key_move(key: Key) -> (r: Option<(i32, i32)>)
    ensures
        r == move_of(key),
{
    match key {
        Key::Left | Key::H | Key::Kp4 => Some((-1, 0)),
        Key::Right | Key::L | Key::Kp6 => Some((1, 0)),
        Key::Up | Key::K | Key::Kp8 => Some((0, -1)),
        Key::Down | Key::J | Key::Kp2 => Some((0, 1)),
        Key::Y | Key::Kp7 => Some((-1, -1)),
        Key::U | Key::Kp9 => Some((1, -1)),
        Key::B | Key::Kp1 => Some((-1, 1)),
        Key::N | Key::Kp3 => Some((1, 1)),
        _ => None,
    }
}

/// The numeric keypad key for digit `d` (none for 5, which has no key here).
pub open spec fn keypad(d: int) -> Key {
    if d == 1 {
        Key::Kp1
    } else if d == 2 {
        Key::Kp2
    } else if d == 3 {
        Key::Kp3
    } else if d == 4 {
        Key::Kp4
    } else if d == 6 {
        Key::Kp6
    } else if d == 7 {
        Key::Kp7
    } else if d == 8 {
        Key::Kp8
    } else {
        Key::Kp9
    }
}

/// The keypad moves as it is laid out: digit `d` sits in column `(d - 1) % 3`
/// and row `(d - 1) / 3` counted from the bottom, and moves that far from the
/// centre key 5 (right and up being positive x and negative y).
pub proof fn lemma_keypad_layout(d: int)
    requires
        1 <= d <= 9,
        d != 5,
    ensures
        move_of(keypad(d)) == Some((((d - 1) % 3 - 1) as i32, (1 - (d - 1) / 3) as i32)),
{
}

/// The letter keys and the arrows move like the keypad keys in the same
/// place: `y u b n` like 7 9 1 3, `h l k j` and the arrows like 4 6 8 2.
pub proof fn lemma_keys_agree()
    ensures
        move_of(Key::Y) == move_of(Key::Kp7),
        move_of(Key::U) == move_of(Key::Kp9),
        move_of(Key::B) == move_of(Key::Kp1),
        move_of(Key::N) == move_of(Key::Kp3),
        move_of(Key::H) == move_of(Key::Kp4),
        move_of(Key::L) == move_of(Key::Kp6),
        move_of(Key::K) == move_of(Key::Kp8),
        move_of(Key::J) == move_of(Key::Kp2),
        move_of(Key::Left) == move_of(Key::Kp4),
        move_of(Key::Right) == move_of(Key::Kp6),
        move_of(Key::Up) == move_of(Key::Kp8),
        move_of(Key::Down) == move_of(Key::Kp2),
{
}

/// Only the direction keys move: the other keys give no step, and every
/// step is one king move.
pub proof fn lemma_only_direction_keys_move(key: Key)
    ensures
        (move_of(key) is Some) == ((exists|d: int| 1 <= d <= 9 && d != 5 && #[trigger] keypad(d) == key)
            || key == Key::Y || key == Key::U || key == Key::B || key == Key::N || key == Key::H || key == Key::L
            || key == Key::K || key == Key::J || key == Key::Left || key == Key::Right || key == Key::Up || key
            == Key::Down),
        move_of(key) matches Some((dx, dy)) ==> -1 <= dx <= 1 && -1 <= dy <= 1 && (dx != 0 || dy != 0),
{
    if key == Key::Kp1 { assert(keypad(1) == key); }
    if key == Key::Kp2 { assert(keypad(2) == key); }
    if key == Key::Kp3 { assert(keypad(3) == key); }
    if key == Key::Kp4 { assert(keypad(4) == key); }
    if key == Key::Kp6 { assert(keypad(6) == key); }
    if key == Key::Kp7 { assert(keypad(7) == key); }
    if key == Key::Kp8 { assert(keypad(8) == key); }
    if key == Key::Kp9 { assert(keypad(9) == key); }
}

/// Which keys give each action: `.` waits and, shifted, descends; `g`
/// picks up, `q` quaffs, `e` eats, `p` puts on a ring, `t` throws; `r` reads
/// and, shifted, removes a ring; `s` searches and, shifted, shows the scores;
/// Tab explores, `i` shows the pack, `m` the message log, `a` toggles the
/// autopilot, `/` the help, Escape quits, Enter confirms and the page keys
/// scroll. Any other letter, unshifted, names itself.
pub proof fn lemma_action_keys(key: Key, shift: bool)
    ensures
        (key_action(key, shift) == Some(GameAction::Wait)) == (key == Key::Period && !shift),
        (key_action(key, shift) == Some(GameAction::Descend)) == (key == Key::Period && shift),
        (key_action(key, shift) == Some(GameAction::Pickup)) == (key == Key::G),
        (key_action(key, shift) == Some(GameAction::Quaff)) == (key == Key::Q),
        (key_action(key, shift) == Some(GameAction::Eat)) == (key == Key::E),
        (key_action(key, shift) == Some(GameAction::Read)) == (key == Key::R && !shift),
        (key_action(key, shift) == Some(GameAction::RemoveRing)) == (key == Key::R && shift),
        (key_action(key, shift) == Some(GameAction::PutOnRing)) == (key == Key::P),
        (key_action(key, shift) == Some(GameAction::Search)) == (key == Key::S && !shift),
        (key_action(key, shift) == Some(GameAction::Scores)) == (key == Key::S && shift),
        (key_action(key, shift) == Some(GameAction::Throw)) == (key == Key::T),
        (key_action(key, shift) == Some(GameAction::Explore)) == (key == Key::Tab),
        (key_action(key, shift) == Some(GameAction::Inventory)) == (key == Key::I),
        (key_action(key, shift) == Some(GameAction::MessageLog)) == (key == Key::M),
        (key_action(key, shift) == Some(GameAction::Autopilot)) == (key == Key::A),
        (key_action(key, shift) == Some(GameAction::Help)) == (key == Key::Slash),
        (key_action(key, shift) == Some(GameAction::Quit)) == (key == Key::Escape),
        (key_action(key, shift) == Some(GameAction::Confirm)) == (key == Key::Enter || key == Key::KpEnter),
        (key_action(key, shift) == Some(GameAction::ScrollUp)) == (key == Key::PageUp),
        (key_action(key, shift) == Some(GameAction::ScrollDown)) == (key == Key::PageDown),
        forall|c: char|
            (key_action(key, shift) == Some(GameAction::Char(c))) == (!shift && letter_of(key) == Some(c)
                && move_of(key) is None && key != Key::G && key != Key::Q && key != Key::E && key != Key::R
                && key != Key::P && key != Key::S && key != Key::T && key != Key::I && key != Key::M && key != Key::A),
{
}

/// Is this one of the letter keys?
pub fn is_letter(key: Key) -> (b: bool)
    ensures
        b == (letter_index(key) >= 0),
{
    matches!(
        key,
        Key::A | Key::B | Key::C | Key::D | Key::E | Key::F | Key::G | Key::H | Key::I | Key::J | Key::K | Key::L
            | Key::M | Key::N | Key::O | Key::P | Key::Q | Key::R | Key::S | Key::T | Key::U | Key::V | Key::W
            | Key::X | Key::Y | Key::Z
    )
}

/// The letter a letter key types (`?` for any other key).
pub fn key_to_char(key: Key) -> (c: char)
    ensures
        c == match letter_of(key) {
            Some(l) => l,
            None => '?',
        },
{
    match key {
        Key::A => 'a', Key::B => 'b', Key::C => 'c', Key::D => 'd', Key::E => 'e', Key::F => 'f', Key::G => 'g',
        Key::H => 'h', Key::I => 'i', Key::J => 'j', Key::K => 'k', Key::L => 'l', Key::M => 'm', Key::N => 'n',
        Key::O => 'o', Key::P => 'p', Key::Q => 'q', Key::R => 'r', Key::S => 's', Key::T => 't', Key::U => 'u',
        Key::V => 'v', Key::W => 'w', Key::X => 'x', Key::Y => 'y', Key::Z => 'z',
        _ => '?',
    }
}

/// The action a key stands for, with or without shift held.
pub fn map_key(key: Key, shift: bool) -> (r: Option<GameAction>)
    ensures
        r == key_action(key, shift),
{
    match key_move(key) {
        Some((dx, dy)) => Some(GameAction::Move(dx, dy)),
        None => match key {
            Key::Period => {
                if shift {
                    Some(GameAction::Descend)
                } else {
                    Some(GameAction::Wait)
                }
            },
            Key::G => Some(GameAction::Pickup),
            Key::Q => Some(GameAction::Quaff),
            Key::E => Some(GameAction::Eat),
            Key::R => {
                if shift {
                    Some(GameAction::RemoveRing)
                } else {
                    Some(GameAction::Read)
                }
            },
            Key::P => Some(GameAction::PutOnRing),
            Key::S => {
                if shift {
                    Some(GameAction::Scores)
                } else {
                    Some(GameAction::Search)
                }
            },
            Key::T => Some(GameAction::Throw),
            Key::Tab => Some(GameAction::Explore),
            Key::I => Some(GameAction::Inventory),
            Key::M => Some(GameAction::MessageLog),
            Key::A => Some(GameAction::Autopilot),
            Key::Slash => Some(GameAction::Help),
            Key::Escape => Some(GameAction::Quit),
            Key::Enter | Key::KpEnter => Some(GameAction::Confirm),
            Key::PageUp => Some(GameAction::ScrollUp),
            Key::PageDown => Some(GameAction::ScrollDown),
            _ => {
                if is_letter(key) && !shift {
                    Some(GameAction::Char(key_to_char(key)))
                } else {
                    None
                }
            },
        },
    }
}

} // verus!
