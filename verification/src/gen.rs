//! Dungeon generation: procedural layouts plus hand-authored fixed maps.
//!
//! Two ways to define a level (see [`defs::LevelDef`]):
//! * `Procedural` — generated with the classic Rogue algorithm
//!   (3x3 grid of rooms, spanning-tree L-shaped corridors, dark/gone rooms,
//!   traps, gold, items and a down staircase).
//! * `Fixed` — an ASCII map loaded verbatim, with a character legend.

pub mod defs;
pub mod procedural;
pub mod fixed;

use vstd::prelude::*;
use crate::data::Config;
use crate::map::LevelMap;
use crate::rng::RogueRng;
use defs::{Dungeon, LevelDef, ProcParams, default_params};
use fixed::{detected_rooms, fixed_layout_ok, last_cell, lemma_max_row_len_nonneg, load_fixed, player_marker, rooms_ok, fixed_width, fixed_height, rows_view};
use procedural::{depth_ok, dims_ok, generate_procedural, level_connected, params_ok, procedural_ok};

verus! {

/// Index of the last procedural level definition, if any.
pub open spec fn last_procedural(levels: Seq<LevelDef>) -> Option<int>
    decreases levels.len(),
{
    if levels.len() == 0 {
        None
    } else if levels.last() is Procedural {
        Some(levels.len() - 1)
    } else {
        last_procedural(levels.drop_last())
    }
}

/// Which level definition serves `depth` (1-based): the depth's own entry, or
/// past the end the last procedural one (with `repeat_last`) or the last one;
/// `None` stands for the default procedural parameters.
pub open spec fn def_index(levels: Seq<LevelDef>, repeat_last: bool, depth: int) -> Option<int> {
    let idx = if depth - 1 > 0 { depth - 1 } else { 0 };
    if idx < levels.len() {
        Some(idx)
    } else if repeat_last {
        last_procedural(levels)
    } else if levels.len() > 0 {
        Some(levels.len() - 1)
    } else {
        None
    }
}

/// The definition that serves `depth`.
pub open spec fn def_at(levels: Seq<LevelDef>, repeat_last: bool, depth: int) -> LevelDef {
    match def_index(levels, repeat_last, depth) {
        Some(i) => levels[i],
        None => LevelDef::Procedural(default_params()),
    }
}

/// A definition the player can start on: any procedural one, and a fixed one
/// with a player marker.
pub open spec fn has_start(def: LevelDef) -> bool {
    match def {
        LevelDef::Procedural(_) => true,
        LevelDef::Fixed(level) => last_cell(rows_view(level.rows@), level.legend@, false) is Some,
    }
}

/// What a definition needs to be built: the generator's demands on the
/// configuration and depth, and a player start.
pub open spec fn can_build(def: LevelDef, cfg: Config, depth: int) -> bool {
    fits_build(def, cfg, depth) && has_start(def)
}

/// The generator's demands on the configuration and depth for a definition.
pub open spec fn fits_build(def: LevelDef, cfg: Config, depth: int) -> bool {
    match def {
        LevelDef::Procedural(params) => {
            &&& dims_ok(cfg.map_width as int, cfg.map_height as int)
            &&& match params.depth {
                Some(d) => d > i32::MIN,
                None => depth > i32::MIN,
            }
        },
        LevelDef::Fixed(level) => {
            &&& level.rows@.len() <= i32::MAX
            &&& fixed_width(cfg, rows_view(level.rows@)) * fixed_height(cfg, rows_view(level.rows@)) <= i32::MAX
            &&& i32::MIN <= 10 * depth
            &&& 50 + 10 * depth < i32::MAX
        },
    }
}

/// The depth a procedural level is generated for: its override, else the
/// real depth.
pub open spec fn effective_depth(params: ProcParams, depth: int) -> int {
    match params.depth {
        Some(d) => d as int,
        None => depth,
    }
}

/// What building a level from a definition yields.
pub open spec fn built_ok(def: LevelDef, cfg: Config, depth: int, m: &LevelMap) -> bool {
    match def {
        LevelDef::Procedural(params) => {
            &&& procedural_ok(cfg, m)
            &&& params_ok(params, m)
            &&& depth_ok(effective_depth(params, depth), cfg.max_traps as int, m)
            &&& (cfg.map_width >= 15 && cfg.map_height >= 15 ==> level_connected(m))
        },
        LevelDef::Fixed(level) => fixed_layout_ok(&level, cfg, depth, m) && m.rooms@ == detected_rooms(m) && rooms_ok(m),
    }
}

impl Dungeon {
    /// Build the map for a given dungeon depth (1-based).
    ///
    /// If the depth is beyond the explicitly defined levels and `repeat_last` is
    /// set, the trailing procedural parameters are reused so the dungeon can go
    /// arbitrarily deep.
    pub fn build_level<R: RogueRng>(&self, depth: i32, cfg: &Config, rng: &mut R) -> (map: LevelMap)
        requires
            depth > i32::MIN,
            can_build(def_at(self.levels@, self.repeat_last, depth as int), *cfg, depth as int),
        ensures
            built_ok(def_at(self.levels@, self.repeat_last, depth as int), *cfg, depth as int, &map),
    {
        match self.def_for_depth(depth) {
            Some(LevelDef::Procedural(params)) => {
                let effective_depth = match params.depth {
                    Some(d) => d,
                    None => depth,
                };
                generate_procedural(cfg, effective_depth, params, rng)
            },
            Some(LevelDef::Fixed(level)) => load_fixed(level, cfg, depth, rng),
            None => {
                let params = ProcParams::default();
                generate_procedural(cfg, depth, &params, rng)
            },
        }
    }

    /// Whether the level at `depth` has a player start: procedural levels
    /// always do, a fixed level when it has a player marker. A level without
    /// one must not be built.
    pub fn can_start(&self, depth: i32, cfg: &Config) -> (b: bool)
        requires
            depth > i32::MIN,
            fits_build(def_at(self.levels@, self.repeat_last, depth as int), *cfg, depth as int),
        ensures
            b == has_start(def_at(self.levels@, self.repeat_last, depth as int)),
    {
        match self.def_for_depth(depth) {
            Some(LevelDef::Fixed(level)) => {
                proof {
                    let rows = rows_view(level.rows@);
                    lemma_max_row_len_nonneg(rows);
                    if rows.len() > 0 {
                        let fw = fixed_width(*cfg, rows);
                        let fh = fixed_height(*cfg, rows);
                        assert(fw <= fw * fh) by (nonlinear_arith) requires fh >= 1, fw >= 0;
                    }
                }
                player_marker(level).is_some()
            },
            _ => true,
        }
    }

    /// The definition that serves `depth`; `None` means the default procedural
    /// parameters.
    pub fn def_for_depth(&self, depth: i32) -> (r: Option<&LevelDef>)
        requires
            depth > i32::MIN,
        ensures
            match def_index(self.levels@, self.repeat_last, depth as int) {
                Some(i) => r == Some(&self.levels@[i]),
                None => r is None,
            },
    {
        let idx: usize = if depth - 1 > 0 { (depth - 1) as usize } else { 0 };
        if idx < self.levels.len() {
            Some(&self.levels[idx])
        } else if self.repeat_last {
            let mut i = self.levels.len();
            assert(self.levels@.subrange(0, i as int) =~= self.levels@);
            while i > 0
                invariant
                    i <= self.levels@.len(),
                    def_index(self.levels@, self.repeat_last, depth as int) == last_procedural(self.levels@),
                    last_procedural(self.levels@) == last_procedural(self.levels@.subrange(0, i as int)),
                decreases i,
            {
                let ghost pre = self.levels@.subrange(0, i as int);
                assert(pre.drop_last() =~= self.levels@.subrange(0, i - 1));
                assert(pre.last() == self.levels@[i - 1]);
                if matches!(self.levels[i - 1], LevelDef::Procedural(_)) {
                    return Some(&self.levels[i - 1]);
                }
                i = i - 1;
            }
            None
        } else if self.levels.len() > 0 {
            Some(&self.levels[self.levels.len() - 1])
        } else {
            None
        }
    }
}

} // verus!
