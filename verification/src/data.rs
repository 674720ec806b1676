//! Game content: monster archetypes, item tables and tunable configuration.
//!
//! The values themselves live in RON data files; this module holds the data
//! model and the lookups the rules need.

use vstd::prelude::*;
use crate::dice::DamageRoll;

verus! {

/// Behavioural flags for a monster.
#[derive(Debug, Clone, Copy, PartialEq, Eq, Structural)]
pub enum MonsterFlag {
    /// Attacks the player on sight.
    Mean,
    /// Flies (moves erratically / over some terrain).
    Fly,
    /// Regenerates hit points over time.
    Regen,
    /// Steals gold / is greedy for treasure.
    Greed,
    /// Invisible unless the player can see invisible.
    Invis,
}

impl MonsterFlag {
    /// Does the flag list hold `f`?
    pub fn is(flags: &[MonsterFlag], f: MonsterFlag) -> (b: bool)
        ensures
            b == flags@.contains(f),
    {
        let mut i: usize = 0;
        while i < flags.len()
            invariant
                i <= flags@.len(),
                forall|j: int| 0 <= j < i ==> flags@[j] != f,
            decreases flags@.len() - i,
        {
            if flags[i] == f {
                assert(flags@[i as int] == f);
                return true;
            }
            i = i + 1;
        }
        false
    }
}

/// A monster archetype (one of the 26 letters `A`..=`Z` in classic Rogue).
#[derive(Debug, Clone, PartialEq)]
pub struct MonsterDef {
    pub name: String,
    /// Glyph used on the map.
    pub symbol: char,
    /// Percent chance to be carrying treasure when killed.
    pub carry: i32,
    pub flags: Vec<MonsterFlag>,
    /// Base strength.
    pub strength: i32,
    /// Experience awarded for the kill.
    pub experience: i32,
    /// Monster level (drives hit-point dice: `level d8`).
    pub level: i32,
    /// Armor class — lower is harder to hit, matching Rogue.
    pub armor: i32,
    /// Attack damage, possibly multiple attacks separated by `/`.
    pub damage: DamageRoll,
}

/// The seven kinds of item that can appear in the dungeon.
#[derive(Debug, Clone, Copy, PartialEq, Eq, Structural)]
pub enum ItemCategory {
    Potion,
    Scroll,
    Food,
    Weapon,
    Armor,
    Ring,
    Stick,
}

/// Relative spawn weight for one of the seven top-level item categories.
#[derive(Debug, Clone, PartialEq, Eq)]
pub struct CategoryProb {
    pub category: ItemCategory,
    pub prob: i32,
}

/// A simple named item with a spawn weight and gold value (potions, scrolls,
/// rings, wands/staves).
#[derive(Debug, Clone, PartialEq, Eq)]
pub struct NamedItem {
    pub name: String,
    pub prob: i32,
    pub worth: i32,
}

/// An armor type. `base_ac` is the unenchanted armor class (lower is better).
#[derive(Debug, Clone, PartialEq, Eq)]
pub struct ArmorDef {
    pub name: String,
    pub prob: i32,
    pub worth: i32,
    pub base_ac: i32,
}

/// A weapon type with melee and thrown damage.
#[derive(Debug, Clone, PartialEq)]
pub struct WeaponDef {
    pub name: String,
    pub prob: i32,
    pub worth: i32,
    /// Damage when wielded in melee.
    pub damage: DamageRoll,
    /// Damage when thrown.
    pub throw_damage: DamageRoll,
    /// Name of the weapon that launches this one (e.g. arrow -> "short bow").
    pub launched_by: Option<String>,
    /// True for stackable ammunition / thrown weapons (arrows, darts...).
    pub stacks: bool,
}

/// All item tables.
#[derive(Debug, Clone, PartialEq)]
pub struct ItemTables {
    pub categories: Vec<CategoryProb>,
    pub potions: Vec<NamedItem>,
    pub scrolls: Vec<NamedItem>,
    pub rings: Vec<NamedItem>,
    pub sticks: Vec<NamedItem>,
    pub armor: Vec<ArmorDef>,
    pub weapons: Vec<WeaponDef>,
}

/// Tunable game constants (lifted from `rogue.h`).
#[derive(Debug, Clone, Copy, PartialEq, Eq, Structural)]
pub struct Config {
    pub map_width: i32,
    pub map_height: i32,
    pub max_rooms: i32,
    pub max_passages: i32,
    pub max_objects_per_level: i32,
    pub max_traps: i32,
    /// Depth at which the Amulet of Yendor appears.
    pub amulet_level: i32,
    /// Turns of food a ration provides.
    pub hunger_time: i32,
    /// Maximum food the stomach can hold.
    pub stomach_size: i32,
    /// Player starting hit points.
    pub start_hp: i32,
    /// Player starting strength.
    pub start_strength: i32,
    /// Player starting armor class (internal value; lower is better).
    pub start_armor: i32,
}

/// The starting armor class used when the configuration leaves it out.
pub fn default_start_armor() -> (a: i32)
    ensures
        a == 7,
{
    7
}

/// The complete bundle of game content.
#[derive(Debug, Clone, PartialEq)]
pub struct GameData {
    pub config: Config,
    pub monsters: Vec<MonsterDef>,
    pub items: ItemTables,
}

/// std's I/O error, declared so a load error can carry it; opaque here.
#[verifier::external_type_specification]
#[verifier::external_body]
pub struct ExIoError(std::io::Error);

/// Errors that can occur while loading game data.
#[derive(Debug)]
pub enum DataError {
    Io(std::io::Error),
    Parse(String),
}

impl GameData {
    /// Look up a monster definition by its map glyph: the first one that has it.
    pub fn monster_by_symbol(&self, symbol: char) -> (r: Option<&MonsterDef>)
        ensures
            match r {
                None => forall|i: int| 0 <= i < self.monsters@.len() ==> self.monsters@[i].symbol != symbol,
                Some(m) => exists|i: int|
                    0 <= i < self.monsters@.len() && *m == self.monsters@[i] && m.symbol == symbol
                        && forall|j: int| 0 <= j < i ==> self.monsters@[j].symbol != symbol,
            },
    {
        let mut i: usize = 0;
        while i < self.monsters.len()
            invariant
                i <= self.monsters@.len(),
                forall|j: int| 0 <= j < i ==> self.monsters@[j].symbol != symbol,
            decreases self.monsters@.len() - i,
        {
            if self.monsters[i].symbol == symbol {
                return Some(&self.monsters[i]);
            }
            i = i + 1;
        }
        None
    }
}

} // verus!
