//! The autopilot: where the bot heads on a level and what it does next.

use vstd::prelude::*;
use crate::geometry::Point;
use crate::map::{LevelMap, TileKind};
use crate::cli::wands::{say, text1, texts};

verus! {

/// The bot's next action.
#[derive(Debug, Clone, Copy, PartialEq, Eq, Structural)]
pub enum BotMove {
    /// Nothing to do: no target, or no way to it.
    Idle,
    /// Go down the staircase it stands on.
    Descend,
    /// Pick up what it stands on (the Amulet).
    Pickup,
    /// Step (or strike) by this offset.
    Step(i32, i32),
}

/// Where the bot heads: the Amulet if it lies on this level, else the stairs.
pub open spec fn bot_target(m: &LevelMap, amulet: Option<Point>) -> Option<Point> {
    match amulet {
        Some(p) => Some(p),
        None => m.stairs_down,
    }
}

/// `path` is a shortest walk from `from` to `to`.
pub open spec fn shortest_walk(m: &LevelMap, from: Point, to: Point, path: Seq<Point>) -> bool {
    &&& m.is_path(from, to, path)
    &&& forall|other: Seq<Point>| #[trigger] m.is_path(from, to, other) ==> path.len() <= other.len()
}

/// The bot's move from `here`, with the Amulet at `amulet` if it is on this
/// level: on its target it descends (on stairs) or picks up; elsewhere it takes
/// the first step of a shortest walk to the target, or idles when there is
/// none.
pub fn bot_move(map: &LevelMap, here: Point, amulet: Option<Point>) -> (r: BotMove)
    requires
        map.wf(),
        i32::MIN < here.x < i32::MAX,
        i32::MIN < here.y < i32::MAX,
    ensures
        match bot_target(map, amulet) {
            None => r == BotMove::Idle,
            Some(t) => if t == here {
                r == if map.spec_tile(here) == TileKind::StairsDown { BotMove::Descend } else { BotMove::Pickup }
            } else if !map.spec_reachable(here, t) {
                r == BotMove::Idle
            } else {
                exists|path: Seq<Point>| #[trigger] shortest_walk(map, here, t, path) && path.len() > 0 && r == BotMove::Step(
                    (path[0].x - here.x) as i32, (path[0].y - here.y) as i32)
            },
        },
{
    let target = match amulet {
        Some(p) => p,
        None => match map.stairs_down {
            Some(p) => p,
            None => {
                return BotMove::Idle;
            },
        },
    };
    if here == target {
        if map.tile(here) == TileKind::StairsDown {
            return BotMove::Descend;
        }
        return BotMove::Pickup;
    }
    match map.find_path(here, target) {
        None => BotMove::Idle,
        Some(path) => {
            if path.len() == 0 {
                return BotMove::Idle;
            }
            let next = path[0];
            proof {
                assert(shortest_walk(map, here, target, path@));
                assert(map.is_walk(here, path@));
                assert(crate::map::adjacent8(here, path@[0]));
            }
            BotMove::Step(next.x - here.x, next.y - here.y)
        },
    }
}

/// Ticks the watchable autopilot waits between moves, so a human can follow.
pub const AUTO_PERIOD: i32 = 6;

/// The autopilot switch and the pause before its next move.
#[derive(Debug, Clone, Copy, PartialEq, Eq, Structural)]
pub struct Autopilot {
    pub on: bool,
    pub cooldown: i32,
}

impl Autopilot {
    /// Switched off, with no pause pending.
    pub fn new() -> (a: Autopilot)
        ensures
            a == (Autopilot { on: false, cooldown: 0 }),
    {
        Autopilot { on: false, cooldown: 0 }
    }

    /// Switch the autopilot on or off (the `A` key), clearing the pause, and
    /// say so.
    pub fn toggle(&mut self, log: &mut Vec<String>)
        ensures
            final(self).on == !old(self).on,
            final(self).cooldown == 0,
            texts(final(log)@) == texts(old(log)@).push(
                if final(self).on {
                    "Autopilot engaged — watch the bot descend. Press A to stop."@
                } else {
                    "Autopilot disengaged."@
                },
            ),
    {
        self.on = !self.on;
        self.cooldown = 0;
        if self.on {
            say(log, text1("Autopilot engaged — watch the bot descend. Press A to stop."));
        } else {
            say(log, text1("Autopilot disengaged."));
        }
    }

    /// Start a run with the autopilot driving (the demo), and say so.
    pub fn start_demo(&mut self, log: &mut Vec<String>)
        ensures
            *final(self) == (Autopilot { on: true, cooldown: 0 }),
            texts(final(log)@) == texts(old(log)@).push("Demo mode: autopilot is driving. Press A to take control."@),
    {
        self.on = true;
        self.cooldown = 0;
        say(log, text1("Demo mode: autopilot is driving. Press A to take control."));
    }

    /// One tick of the running autopilot: while a pause is pending it counts
    /// down and the bot waits; otherwise a new pause starts and the bot acts.
    pub fn tick(&mut self) -> (act: bool)
        ensures
            final(self).on == old(self).on,
            act == (old(self).cooldown <= 0),
            final(self).cooldown == if old(self).cooldown > 0 { old(self).cooldown - 1 } else { AUTO_PERIOD as int },
    {
        if self.cooldown > 0 {
            self.cooldown = self.cooldown - 1;
            return false;
        }
        self.cooldown = AUTO_PERIOD;
        true
    }

    /// The bot found nothing to do: switch off and say why.
    pub fn stop_stuck(&mut self, log: &mut Vec<String>)
        ensures
            *final(self) == (Autopilot { on: false, cooldown: old(self).cooldown }),
            texts(final(log)@) == texts(old(log)@).push("Autopilot stopped (no path to the stairs)."@),
    {
        self.on = false;
        say(log, text1("Autopilot stopped (no path to the stairs)."));
    }
}

} // verus!
