//! Platform-neutral input actions.
//!
//! Each frontend maps its own key type onto one of these intent-level
//! actions before handing it to the game.

use vstd::prelude::*;

verus! {

/// A single player intent, read from a physical key event.
#[derive(Debug, Clone, Copy, PartialEq, Eq, Structural)]
pub enum GameAction {
    /// Movement by (delta x, delta y).
    Move(i32, i32),
    Wait,
    Descend,
    Pickup,
    Quaff,
    Eat,
    Read,
    Inventory,
    MessageLog,
    Drop,
    Wear,
    Wield,
    PutOnRing,
    RemoveRing,
    Throw,
    Search,
    Explore,
    Help,
    Quit,
    Scores,
    Autopilot,
    Restart,
    /// Confirm a yes/no prompt (also used as Enter / Return in menus).
    Confirm,
    /// Cancel / close overlay.
    Cancel,
    ScrollUp,
    ScrollDown,
    /// A bare letter (used to select items in inventory lists).
    Char(char),
}

} // verus!
