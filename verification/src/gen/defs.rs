//! Level and dungeon definitions used to drive generation, and the built-in
//! fixed-map character vocabulary.

use vstd::prelude::*;
use crate::map::{SpawnKind, TileKind};

verus! {

/// The default for boolean options that are on unless switched off.
pub fn yes() -> (b: bool)
    ensures
        b,
{
    true
}

/// Parameters for a procedurally generated level.
#[derive(Debug, Clone, Copy, PartialEq, Eq, Structural)]
pub struct ProcParams {
    /// Override the depth used for difficulty scaling (defaults to the real depth).
    pub depth: Option<i32>,
    /// Allow rooms to be dark at sufficient depth.
    pub allow_dark: bool,
    /// Allow some rooms to be replaced by corridor junctions ("gone" rooms).
    pub allow_gone_rooms: bool,
}

/// The default procedural parameters: real depth, dark and gone rooms allowed.
pub open spec fn default_params() -> ProcParams {
    ProcParams { depth: None, allow_dark: true, allow_gone_rooms: true }
}

impl Default for ProcParams {
    fn default() -> (p: ProcParams)
        ensures
            p == default_params(),
    {
        ProcParams { depth: None, allow_dark: true, allow_gone_rooms: true }
    }
}

/// A tile that a legend character maps to.
#[derive(Debug, Clone, Copy, PartialEq, Eq, Structural)]
pub enum TileSpec {
    Empty,
    Floor,
    Wall,
    Passage,
    Door,
    StairsDown,
    StairsUp,
    Trap,
}

/// The tile a tile spec names.
pub open spec fn spec_tile_of(t: TileSpec) -> TileKind {
    match t {
        TileSpec::Empty => TileKind::Empty,
        TileSpec::Floor => TileKind::Floor,
        TileSpec::Wall => TileKind::Wall,
        TileSpec::Passage => TileKind::Passage,
        TileSpec::Door => TileKind::Door,
        TileSpec::StairsDown => TileKind::StairsDown,
        TileSpec::StairsUp => TileKind::StairsUp,
        TileSpec::Trap => TileKind::Trap,
    }
}

/// The tile a tile spec names.
pub fn tile_of(t: TileSpec) -> (k: TileKind)
    ensures
        k == spec_tile_of(t),
{
    match t {
        TileSpec::Empty => TileKind::Empty,
        TileSpec::Floor => TileKind::Floor,
        TileSpec::Wall => TileKind::Wall,
        TileSpec::Passage => TileKind::Passage,
        TileSpec::Door => TileKind::Door,
        TileSpec::StairsDown => TileKind::StairsDown,
        TileSpec::StairsUp => TileKind::StairsUp,
        TileSpec::Trap => TileKind::Trap,
    }
}

impl From<TileSpec> for TileKind {
    fn from(t: TileSpec) -> (k: TileKind) {
        tile_of(t)
    }
}

impl vstd::std_specs::convert::FromSpecImpl<TileSpec> for TileKind {
    open spec fn obeys_from_spec() -> bool {
        true
    }

    open spec fn from_spec(v: TileSpec) -> TileKind {
        spec_tile_of(v)
    }
}

/// What a legend character spawns, in addition to (or instead of) a tile.
#[derive(Debug, Clone, Copy, PartialEq, Eq, Structural)]
pub enum SpawnSpec {
    /// A monster by glyph, or `None` to pick a random depth-appropriate one.
    Monster(Option<char>),
    /// A random floor item.
    Item,
    /// Gold of an explicit value (or `None` to roll by depth).
    Gold(Option<i32>),
    /// The player's starting position.
    Player,
    /// The down staircase.
    StairsDown,
}

/// A single character mapping for a fixed map.
#[derive(Debug, Clone, Copy, PartialEq, Eq, Structural)]
pub struct LegendEntry {
    pub ch: char,
    pub tile: Option<TileSpec>,
    pub spawn: Option<SpawnSpec>,
}

/// A hand-authored, fixed dungeon level.
#[derive(Debug, Clone, PartialEq, Eq)]
pub struct FixedLevel {
    /// Rows of map text, top to bottom.
    pub rows: Vec<String>,
    /// Optional extra/overriding character mappings.
    pub legend: Vec<LegendEntry>,
    /// If true, the whole level starts dark (revealed only as explored).
    pub dark: bool,
}

/// One level's definition (in-memory, fully resolved).
#[derive(Debug, Clone, PartialEq, Eq)]
pub enum LevelDef {
    Procedural(ProcParams),
    Fixed(FixedLevel),
}

/// A reference to a level inside a dungeon file: either inline or an external file.
#[derive(Debug, Clone, PartialEq, Eq)]
pub enum LevelRef {
    Procedural(ProcParams),
    Fixed(FixedLevel),
    /// Load the level from `levels/<name>` relative to the dungeon file.
    File(String),
}

/// The on-disk `dungeon.ron` description.
#[derive(Debug, Clone, PartialEq, Eq)]
pub struct DungeonFile {
    pub name: String,
    pub levels: Vec<LevelRef>,
    pub repeat_last: bool,
}

/// A fully resolved dungeon ready for generation.
#[derive(Debug, Clone, PartialEq, Eq)]
pub struct Dungeon {
    pub name: String,
    pub levels: Vec<LevelDef>,
    pub repeat_last: bool,
}

impl Dungeon {
    /// A purely procedural dungeon of `depth` levels (used as the default).
    pub fn default_procedural(depth: i32) -> (d: Dungeon)
        ensures
            d.name@ == "The Dungeons of Doom"@,
            d.levels@.len() == (if depth > 0 { depth as int } else { 0 }),
            forall|i: int| 0 <= i < d.levels@.len() ==> d.levels@[i] == LevelDef::Procedural(default_params()),
            d.repeat_last,
    {
        let mut levels: Vec<LevelDef> = Vec::new();
        let mut i: i32 = 0;
        while i < depth
            invariant
                0 <= i,
                depth > 0 ==> i <= depth,
                depth <= 0 ==> i == 0,
                levels@.len() == i,
                forall|k: int| 0 <= k < levels@.len() ==> levels@[k] == LevelDef::Procedural(default_params()),
            decreases depth - i,
        {
            levels.push(LevelDef::Procedural(ProcParams::default()));
            i = i + 1;
        }
        Dungeon { name: String::from_str("The Dungeons of Doom"), levels, repeat_last: true }
    }

    /// Resolve a dungeon file whose `File` references have been loaded, in order,
    /// into `loaded`: every `File` entry takes the next loaded level. Gives `None`
    /// when `loaded` does not hold exactly one level per `File` entry.
    pub fn from_loaded(file: DungeonFile, loaded: Vec<LevelDef>) -> (r: Option<Dungeon>)
        ensures
            r is Some <==> loaded@.len() == file_refs(file.levels@),
            r matches Some(d) ==> d.name == file.name && d.repeat_last == file.repeat_last
                && d.levels@ == resolve_refs(file.levels@, loaded@),
    {
        let ghost all = file.levels@;
        let ghost ld = loaded@;
        let mut refs = reversed(file.levels);
        let mut pool = reversed(loaded);
        let mut levels: Vec<LevelDef> = Vec::new();
        let ghost mut k: int = 0;
        let ghost mut used: int = 0;
        #[verifier::loop_isolation(false)]
        while refs.len() > 0
            invariant
                0 <= k <= all.len(),
                refs@ == all.subrange(k, all.len() as int).reverse(),
                used == file_refs(all.subrange(0, k)),
                used <= ld.len(),
                pool@ == ld.subrange(used, ld.len() as int).reverse(),
                levels@ == resolve_refs(all.subrange(0, k), ld),
            decreases refs@.len(),
        {
            let r = refs.pop().unwrap();
            assert(r == all[k]);
            let ghost pre = all.subrange(0, k);
            let ghost nxt = all.subrange(0, k + 1);
            assert(nxt.drop_last() =~= pre);
            assert(nxt.last() == r);
            match r {
                LevelRef::Procedural(p) => {
                    levels.push(LevelDef::Procedural(p));
                },
                LevelRef::Fixed(f) => {
                    levels.push(LevelDef::Fixed(f));
                },
                LevelRef::File(_) => {
                    match pool.pop() {
                        Some(v) => {
                            assert(v == ld[used]);
                            levels.push(v);
                            proof {
                                used = used + 1;
                            }
                        },
                        None => {
                            proof {
                                assert(pool@.len() == ld.len() - used);
                                assert(file_refs(nxt) == used + 1);
                                lemma_file_refs_prefix(all, k + 1);
                                assert(file_refs(all) > ld.len());
                            }
                            return None;
                        },
                    }
                },
            }
            proof {
                k = k + 1;
                assert(refs@ =~= all.subrange(k, all.len() as int).reverse());
                assert(pool@ =~= ld.subrange(used, ld.len() as int).reverse());
            }
        }
        assert(all.subrange(0, k) =~= all);
        if pool.len() > 0 {
            return None;
        }
        Some(Dungeon { name: file.name, levels, repeat_last: file.repeat_last })
    }
}

/// The elements of a vector in reverse order.
fn reversed<T>(v: Vec<T>) -> (r: Vec<T>)
    ensures
        r@ == v@.reverse(),
{
    let ghost orig = v@;
    let mut v = v;
    let mut r: Vec<T> = Vec::new();
    while v.len() > 0
        invariant
            orig == v@ + r@.reverse(),
        decreases v@.len(),
    {
        let ghost before = v@;
        let x = v.pop().unwrap();
        r.push(x);
        assert(orig =~= v@ + r@.reverse()) by {
            assert(before =~= v@.push(x));
            assert(r@.reverse() =~= seq![x] + r@.drop_last().reverse());
        }
    }
    assert(orig =~= r@.reverse());
    assert(r@ =~= orig.reverse()) by {
        assert(r@.reverse().reverse() =~= r@);
    }
    r
}

/// The `File` entries of a prefix never outnumber those of the whole list.
proof fn lemma_file_refs_prefix(refs: Seq<LevelRef>, k: int)
    requires
        0 <= k <= refs.len(),
    ensures
        file_refs(refs.subrange(0, k)) <= file_refs(refs),
    decreases refs.len() - k,
{
    if k < refs.len() {
        lemma_file_refs_prefix(refs, k + 1);
        assert(refs.subrange(0, k + 1).drop_last() =~= refs.subrange(0, k));
    } else {
        assert(refs.subrange(0, k) =~= refs);
    }
}

/// Number of `File` entries in a list of level references.
pub open spec fn file_refs(refs: Seq<LevelRef>) -> nat
    decreases refs.len(),
{
    if refs.len() == 0 {
        0
    } else {
        file_refs(refs.drop_last()) + if refs.last() is File { 1nat } else { 0nat }
    }
}

/// The resolved levels: inline entries as they stand, `File` entries taking
/// the loaded levels in order.
pub open spec fn resolve_refs(refs: Seq<LevelRef>, loaded: Seq<LevelDef>) -> Seq<LevelDef>
    decreases refs.len(),
{
    if refs.len() == 0 {
        Seq::empty()
    } else {
        let prev = resolve_refs(refs.drop_last(), loaded);
        match refs.last() {
            LevelRef::Procedural(p) => prev.push(LevelDef::Procedural(p)),
            LevelRef::Fixed(f) => prev.push(LevelDef::Fixed(f)),
            LevelRef::File(_) => prev.push(loaded[file_refs(refs.drop_last()) as int]),
        }
    }
}

/// The built-in fixed-map character vocabulary.
pub open spec fn spec_default_char(ch: char) -> (TileKind, Option<SpawnKind>) {
    if ch == ' ' {
        (TileKind::Empty, None)
    } else if ch == '.' {
        (TileKind::Floor, None)
    } else if ch == '#' {
        (TileKind::Passage, None)
    } else if ch == '|' || ch == '-' {
        (TileKind::Wall, None)
    } else if ch == '+' {
        (TileKind::Door, None)
    } else if ch == '>' {
        (TileKind::StairsDown, None)
    } else if ch == '<' {
        (TileKind::StairsUp, None)
    } else if ch == '^' {
        (TileKind::Trap, None)
    } else if ch == '@' {
        (TileKind::Floor, None)
    } else if ch == '$' {
        (TileKind::Floor, Some(SpawnKind::Gold(0)))
    } else if ch == '*' {
        (TileKind::Floor, Some(SpawnKind::Item))
    } else if 'A' <= ch && ch <= 'Z' {
        (TileKind::Floor, Some(SpawnKind::Monster(Some(ch))))
    } else {
        (TileKind::Empty, None)
    }
}

/// The built-in fixed-map character vocabulary.
pub fn default_char(ch: char) -> (r: (TileKind, Option<SpawnKind>))
    ensures
        r == spec_default_char(ch),
{
    match ch {
        ' ' => (TileKind::Empty, None),
        '.' => (TileKind::Floor, None),
        '#' => (TileKind::Passage, None),
        '|' | '-' => (TileKind::Wall, None),
        '+' => (TileKind::Door, None),
        '>' => (TileKind::StairsDown, None),
        '<' => (TileKind::StairsUp, None),
        '^' => (TileKind::Trap, None),
        '@' => (TileKind::Floor, None),
        '$' => (TileKind::Floor, Some(SpawnKind::Gold(0))),
        '*' => (TileKind::Floor, Some(SpawnKind::Item)),
        'A'..='Z' => (TileKind::Floor, Some(SpawnKind::Monster(Some(ch)))),
        _ => (TileKind::Empty, None),
    }
}

/// The spawn a legend spawn spec asks for. Player and stairs markers are kept
/// as map metadata by the loader; they yield an item placeholder here.
pub open spec fn spec_spawn_from_spec(s: SpawnSpec) -> SpawnKind {
    match s {
        SpawnSpec::Monster(m) => SpawnKind::Monster(m),
        SpawnSpec::Item => SpawnKind::Item,
        SpawnSpec::Gold(v) => SpawnKind::Gold(
            match v {
                Some(g) => g,
                None => 0,
            },
        ),
        SpawnSpec::Player => SpawnKind::Item,
        SpawnSpec::StairsDown => SpawnKind::Item,
    }
}

pub fn spawn_from_spec(s: &SpawnSpec) -> (k: SpawnKind)
    ensures
        k == spec_spawn_from_spec(*s),
{
    match s {
        SpawnSpec::Monster(m) => SpawnKind::Monster(*m),
        SpawnSpec::Item => SpawnKind::Item,
        SpawnSpec::Gold(v) => SpawnKind::Gold(
            match v {
                Some(g) => *g,
                None => 0,
            },
        ),
        SpawnSpec::Player => SpawnKind::Item,
        SpawnSpec::StairsDown => SpawnKind::Item,
    }
}

/// `i` is the first legend entry for `ch`.
pub open spec fn first_entry_at(legend: Seq<LegendEntry>, ch: char, i: int) -> bool {
    0 <= i < legend.len() && legend[i].ch == ch && forall|j: int| 0 <= j < i ==> legend[j].ch != ch
}

/// The first legend entry for `ch`, if any.
pub open spec fn legend_entry(legend: Seq<LegendEntry>, ch: char) -> Option<LegendEntry> {
    if exists|i: int| first_entry_at(legend, ch, i) {
        Some(legend[choose|i: int| first_entry_at(legend, ch, i)])
    } else {
        None
    }
}

/// Resolve a character: a custom legend entry wins (its tile defaulting to
/// floor), otherwise the built-in vocabulary applies.
pub open spec fn spec_resolve_char(ch: char, legend: Seq<LegendEntry>) -> (TileKind, Option<SpawnKind>) {
    match legend_entry(legend, ch) {
        Some(e) => (
            match e.tile {
                Some(t) => spec_tile_of(t),
                None => TileKind::Floor,
            },
            match e.spawn {
                Some(s) => Some(spec_spawn_from_spec(s)),
                None => None,
            },
        ),
        None => spec_default_char(ch),
    }
}

/// Find the first legend entry for `ch`.
pub fn find_entry(ch: char, legend: &[LegendEntry]) -> (r: Option<LegendEntry>)
    ensures
        r == legend_entry(legend@, ch),
{
    let mut i: usize = 0;
    while i < legend.len()
        invariant
            i <= legend@.len(),
            forall|j: int| 0 <= j < i ==> legend@[j].ch != ch,
        decreases legend@.len() - i,
    {
        if legend[i].ch == ch {
            assert(first_entry_at(legend@, ch, i as int));
            assert forall|k: int| first_entry_at(legend@, ch, k) implies k == i by {
                if k < i {
                } else if k > i {
                    assert(legend@[i as int].ch == ch);
                }
            }
            return Some(legend[i]);
        }
        i = i + 1;
    }
    assert forall|k: int| !first_entry_at(legend@, ch, k) by {
        if 0 <= k < legend@.len() {
            assert(legend@[k].ch != ch);
        }
    }
    None
}

/// Resolve a legend character to a tile and/or spawn using built-in defaults
/// plus any custom entries (custom entries win).
pub fn resolve_char(ch: char, legend: &[LegendEntry]) -> (r: (TileKind, Option<SpawnKind>))
    ensures
        r == spec_resolve_char(ch, legend@),
{
    match find_entry(ch, legend) {
        Some(e) => {
            let tile = match e.tile {
                Some(t) => tile_of(t),
                None => TileKind::Floor,
            };
            let spawn = match e.spawn {
                Some(s) => Some(spawn_from_spec(&s)),
                None => None,
            };
            (tile, spawn)
        },
        None => default_char(ch),
    }
}

} // verus!
