//! Entering a dungeon level and starting a new game: the built map, what its
//! spawn requests turn into, the Amulet, the trap kinds, what the player sees
//! on arrival and the player's opening state.

use vstd::prelude::*;
use crate::cli::components::{Item, ItemKind, Monster, MonsterSpecial, RingKind, Stats, StatusEffects};
use crate::cli::items::{category_bound, category_by_roll, item_of_category, roll_item, tables_rollable};
use crate::cli::pack::KnownItems;
use crate::cli::screens::{Mode, Screens};
use crate::cli::setup::{
    easiest_first, experiences, first_with_symbol, monster_order, picked_for_depth, spawn_hp_ok, spawn_monster,
    spawned_from, starting_pack, starting_stats, starting_stats_ok, welcome,
};
use crate::cli::traps::{TrapKind, amulet_place, amulet_spot, assign_trap_kinds, free_floor, trap_tiles};
use crate::cli::wands::{MAX_LOG, Target, keep_last, say, text1, texts, trim_log};
use crate::data::{GameData, MonsterDef};
use crate::fov::sees;
use crate::cli::rules::{ring_bonus, rings_of, sight_radius};
use crate::gen::{built_ok, can_build, def_at};
use crate::gen::defs::LevelDef;
use crate::gen::fixed::{last_cell, rows_view};
use crate::gen::defs::Dungeon;
use crate::geometry::Point;
use crate::map::{LevelMap, Spawn, SpawnKind, TileKind};
use crate::rng::{RogueRng, rnd_outcome};
use crate::text::{int_text, push_int, push_str};

verus! {

/// What a spawn request becomes on the level.
pub enum Thing {
    /// A monster: its combat view, its state and its special attack.
    Monster(Target, Monster, MonsterSpecial),
    /// An item lying on the floor.
    Item(Item),
    /// A gold pile of this many pieces.
    Gold(i32),
}

/// A thing and where it lies.
pub struct Placed {
    pub pos: Point,
    pub thing: Thing,
}

/// A level as the game plays it.
pub struct LevelState {
    pub depth: i32,
    pub map: LevelMap,
    pub player_pos: Point,
    /// One entry per spawn request of the map, in order, then the Amulet on
    /// its level and deeper.
    pub things: Vec<Placed>,
    pub trap_kinds: Vec<(Point, TrapKind)>,
}

/// `made` is what the spawn request `sp` turns into at `depth`: a monster of
/// the requested glyph (or one drawn for the depth) with rolled hit points, a
/// rolled item, the named trinket, or the gold pile.
pub open spec fn spawn_made(data: GameData, order: Seq<usize>, depth: int, sp: Spawn, made: Placed) -> bool {
    &&& made.pos == sp.pos
    &&& match sp.kind {
        SpawnKind::Monster(g) => match made.thing {
            Thing::Monster(t, m, s) => exists|idx: int|
                #![trigger data.monsters@[idx]]
                0 <= idx < data.monsters@.len() && match g {
                    Some(c) => first_with_symbol(data.monsters@, c, idx) || ((forall|j: int|
                        0 <= j < data.monsters@.len() ==> (#[trigger] data.monsters@[j]).symbol != c)
                        && picked_for_depth(order, depth, idx)),
                    None => picked_for_depth(order, depth, idx),
                } && spawn_hp_ok(data.monsters@[idx].level as int, t.stats.hp as int) && spawned_from(
                    data.monsters@[idx],
                    sp.pos,
                    t.stats.hp as int,
                    t,
                    m,
                    s,
                ),
            _ => false,
        },
        SpawnKind::Item => match made.thing {
            Thing::Item(it) => exists|roll: int|
                rnd_outcome(category_bound(data.items.categories@), roll) && item_of_category(
                    &data.items,
                    category_by_roll(data.items.categories@, roll),
                    it,
                ),
            _ => false,
        },
        SpawnKind::NamedItem(name) => match made.thing {
            Thing::Item(it) => it.name@ == name@ && it.kind == ItemKind::Trinket,
            _ => false,
        },
        SpawnKind::Gold(v) => made.thing == Thing::Gold(v),
    }
}

/// The Amulet of Yendor lying at `p`.
pub open spec fn amulet_made(made: Placed, p: Point) -> bool {
    &&& made.pos == p
    &&& match made.thing {
        Thing::Item(it) => it.name@ == "the Amulet of Yendor"@ && it.kind == ItemKind::Amulet,
        _ => false,
    }
}

/// Where the spawns of a map stand.
pub open spec fn spawn_positions(m: &LevelMap) -> Seq<Point> {
    m.spawns@.map_values(|s: Spawn| s.pos)
}

/// The log line of entering a level: only below the first.
pub open spec fn descend_note(depth: int) -> Seq<Seq<char>> {
    if depth > 1 {
        seq!["You descend to level "@ + int_text(depth) + "."@]
    } else {
        Seq::empty()
    }
}

/// What the game's content must offer for monsters to be spawned and items
/// rolled: a non-empty monster list ordered easiest first, moderate levels,
/// and rollable item tables.
pub open spec fn content_ok(data: GameData, order: Seq<usize>) -> bool {
    &&& 1 <= order.len() <= i32::MAX - 2
    &&& forall|k: int| 0 <= k < order.len() ==> #[trigger] order[k] < data.monsters@.len()
    &&& forall|k: int| 0 <= k < data.monsters@.len() ==> (#[trigger] data.monsters@[k]).level <= i32::MAX / 8
    &&& tables_rollable(&data.items)
}

/// `m` is the built map `b` as seen from `p` with sight `radius`: the same
/// level, with the tiles in view lit and remembered.
pub open spec fn viewed_from(b: &LevelMap, m: &LevelMap, p: Point, radius: int) -> bool {
    &&& m.wf()
    &&& m.same_except_sight(*b)
    &&& forall|q: Point| #[trigger] m.spec_is_visible(q) == (b.spec_in_bounds(q) && sees(b, p, radius, q))
    &&& forall|q: Point|
        #[trigger] m.spec_is_revealed(q) == (b.spec_is_revealed(q) || (b.spec_in_bounds(q) && sees(b, p, radius, q)))
}

/// A level's player start lies where sight can be cast around it: a fixed
/// level's marker keeps clear of the ends of the coordinate range.
pub open spec fn start_fits(def: LevelDef) -> bool {
    match def {
        LevelDef::Procedural(_) => true,
        LevelDef::Fixed(level) => match last_cell(rows_view(level.rows@), level.legend@, false) {
            Some(p) => i32::MIN + 0x4000 <= p.x <= i32::MAX - 0x4000 && i32::MIN + 0x4000 <= p.y <= i32::MAX - 0x4000,
            None => true,
        },
    }
}

/// The level at `depth` as entered: a map built for it, seen from the player
/// on its start with sight `sight`, each spawn request made real, the Amulet
/// placed on its level or deeper, and a kind for every trap.
pub open spec fn entered(dungeon: &Dungeon, data: GameData, order: Seq<usize>, depth: int, sight: int, state: LevelState) -> bool {
    let m = state.map;
    let n = m.spawns@.len();
    &&& exists|b: LevelMap|
        #[trigger] built_ok(def_at(dungeon.levels@, dungeon.repeat_last, depth), data.config, depth, &b) && viewed_from(
            &b,
            &m,
            m.player_start,
            sight,
        )
    &&& state.depth == depth
    &&& state.player_pos == m.player_start
    &&& state.things@.len() == n + (if depth >= data.config.amulet_level { 1int } else { 0int })
    &&& forall|k: int| 0 <= k < n ==> spawn_made(data, order, depth, m.spawns@[k], #[trigger] state.things@[k])
    &&& (depth >= data.config.amulet_level ==> exists|p: Point|
        #[trigger] amulet_place(&m, spawn_positions(&m), p) && amulet_made(state.things@[n as int], p))
    &&& trap_tiles(&m, state.trap_kinds@.map_values(|e: (Point, TrapKind)| e.0))
}

/// Enter the level at `depth`: build it, put the player on its start, turn
/// its spawn requests into monsters, items and gold, place the Amulet on its
/// level or deeper, give every trap a kind, look around, and below the first
/// level log the descent (keeping the last `MAX_LOG` messages).
pub fn descend_to<R: RogueRng>(
    dungeon: &Dungeon,
    data: &GameData,
    order: &Vec<usize>,
    depth: i32,
    sight: i32,
    log: &mut Vec<String>,
    rng: &mut R,
) -> (state: LevelState)
    requires
        depth > i32::MIN,
        0 <= sight <= 0x4000,
        start_fits(def_at(dungeon.levels@, dungeon.repeat_last, depth as int)),
        can_build(def_at(dungeon.levels@, dungeon.repeat_last, depth as int), data.config, depth as int),
        content_ok(*data, order@),
    ensures
        entered(dungeon, *data, order@, depth as int, sight as int, state),
        texts(final(log)@) == keep_last(texts(old(log)@) + descend_note(depth as int), MAX_LOG as int),
{
    let mut map = dungeon.build_level(depth, &data.config, rng);
    assert(map.wf()) by {
        lemma_built_wf(dungeon, data, depth, &map);
    }
    let n = map.spawns.len();
    let mut things: Vec<Placed> = Vec::new();
    let mut k: usize = 0;
    while k < n
        invariant
            n == map.spawns@.len(),
            k <= n,
            things@.len() == k,
            content_ok(*data, order@),
            depth > i32::MIN,
            forall|j: int| 0 <= j < k ==> spawn_made(*data, order@, depth as int, map.spawns@[j], #[trigger] things@[j]),
        decreases n - k,
    {
        let sp = map.spawns[k];
        let made = match sp.kind {
            SpawnKind::Monster(g) => {
                let (_idx, t, m, s) = spawn_monster(&data.monsters, order, depth, sp.pos, g, rng);
                Placed { pos: sp.pos, thing: Thing::Monster(t, m, s) }
            },
            SpawnKind::Gold(v) => Placed { pos: sp.pos, thing: Thing::Gold(v) },
            SpawnKind::Item => Placed { pos: sp.pos, thing: Thing::Item(roll_item(&data.items, rng)) },
            SpawnKind::NamedItem(name) => Placed {
                pos: sp.pos,
                thing: Thing::Item(Item { name: text1(name), kind: ItemKind::Trinket }),
            },
        };
        let ghost before = things@;
        things.push(made);
        proof {
            assert forall|j: int| 0 <= j < k + 1 implies spawn_made(*data, order@, depth as int, map.spawns@[j], #[trigger] things@[j]) by {
                if j < k {
                    assert(things@[j] == before[j]);
                }
            }
        }
        k = k + 1;
    }
    let mut occupied: Vec<Point> = Vec::new();
    let mut j: usize = 0;
    while j < n
        invariant
            n == map.spawns@.len(),
            j <= n,
            occupied@ == spawn_positions(&map).take(j as int),
        decreases n - j,
    {
        occupied.push(map.spawns[j].pos);
        j = j + 1;
        assert(occupied@ =~= spawn_positions(&map).take(j as int));
    }
    assert(occupied@ =~= spawn_positions(&map));
    let ghost made_spawns = things@;
    match amulet_spot(&map, &occupied, depth, data.config.amulet_level) {
        Some(p) => {
            things.push(Placed {
                pos: p,
                thing: Thing::Item(Item { name: text1("the Amulet of Yendor"), kind: ItemKind::Amulet }),
            });
            assert(amulet_place(&map, spawn_positions(&map), p) && amulet_made(things@[n as int], p));
        },
        None => {},
    }
    let trap_kinds = assign_trap_kinds(&map, rng);
    if depth > 1 {
        let mut msg = text1("You descend to level ");
        push_int(&mut msg, depth as i64);
        push_str(&mut msg, ".");
        say(log, msg);
    } else {
        assert(texts(log@) =~= texts(old(log)@) + descend_note(depth as int));
    }
    trim_log(log);
    let player_pos = map.player_start;
    let ghost built = map;
    proof {
        lemma_start_in_range(dungeon, data, depth, &built);
    }
    map.field_of_view(player_pos, sight);
    proof {
        assert(viewed_from(&built, &map, map.player_start, sight as int));
        assert forall|q: Point| #[trigger] map.spec_tile(q) == built.spec_tile(q) by {}
        assert(spawn_positions(&map) == spawn_positions(&built));
        assert(built_ok(def_at(dungeon.levels@, dungeon.repeat_last, depth as int), data.config, depth as int, &built));
        assert(trap_tiles(&built, trap_kinds@.map_values(|e: (Point, TrapKind)| e.0)));
        assert(trap_tiles(&map, trap_kinds@.map_values(|e: (Point, TrapKind)| e.0)));
        assert forall|o: Seq<Point>, q: Point| #[trigger] free_floor(&map, o, q) == free_floor(&built, o, q) by {}
        if depth >= data.config.amulet_level {
            let p = choose|p: Point| #[trigger] amulet_place(&built, spawn_positions(&built), p) && amulet_made(things@[n as int], p);
            assert(amulet_place(&map, spawn_positions(&map), p));
        }
    }
    let state = LevelState { depth, map, player_pos, things, trap_kinds };
    proof {
        assert forall|i: int| 0 <= i < n implies spawn_made(*data, order@, depth as int, state.map.spawns@[i], #[trigger] state.things@[i]) by {
            assert(state.things@[i] == made_spawns[i]);
        }
    }
    state
}

/// The start of a built level lies where sight can be cast around it.
proof fn lemma_start_in_range(dungeon: &Dungeon, data: &GameData, depth: i32, m: &LevelMap)
    requires
        can_build(def_at(dungeon.levels@, dungeon.repeat_last, depth as int), data.config, depth as int),
        start_fits(def_at(dungeon.levels@, dungeon.repeat_last, depth as int)),
        built_ok(def_at(dungeon.levels@, dungeon.repeat_last, depth as int), data.config, depth as int, m),
    ensures
        i32::MIN + 0x4000 <= m.player_start.x <= i32::MAX - 0x4000,
        i32::MIN + 0x4000 <= m.player_start.y <= i32::MAX - 0x4000,
{
}

/// A built map is well formed.
proof fn lemma_built_wf(dungeon: &Dungeon, data: &GameData, depth: i32, m: &LevelMap)
    requires
        built_ok(def_at(dungeon.levels@, dungeon.repeat_last, depth as int), data.config, depth as int, m),
    ensures
        m.wf(),
{
}

/// A new game: the player with the starting stats and pack, a full stomach,
/// the screens on the title, no rings, nothing identified, and the first
/// level entered.
pub struct GameState {
    pub player: Stats,
    pub status: StatusEffects,
    pub inventory: Vec<Item>,
    pub gold: i32,
    pub food: i32,
    pub left_ring: Option<crate::cli::components::RingKind>,
    pub right_ring: Option<crate::cli::components::RingKind>,
    pub known: KnownItems,
    pub monster_order: Vec<usize>,
    pub screens: Screens,
    pub level: LevelState,
    pub log: Vec<String>,
}

/// Start a game: order the monsters easiest first, give the player the
/// starting stats and pack and a full stomach, enter level 1, and greet the
/// player.
pub fn new_game<R: RogueRng>(dungeon: &Dungeon, data: &GameData, rng: &mut R) -> (g: GameState)
    requires
        can_build(def_at(dungeon.levels@, dungeon.repeat_last, 1), data.config, 1),
        start_fits(def_at(dungeon.levels@, dungeon.repeat_last, 1)),
        1 <= data.monsters@.len() <= i32::MAX - 2,
        forall|k: int| 0 <= k < data.monsters@.len() ==> (#[trigger] data.monsters@[k]).level <= i32::MAX / 8,
        tables_rollable(&data.items),
    ensures
        starting_stats_ok(data.config, g.player),
        g.inventory@.len() == 1 && g.inventory@[0].name@ == "food ration"@ && g.inventory@[0].kind is Food,
        g.food == data.config.hunger_time,
        g.gold == 0,
        g.left_ring is None && g.right_ring is None,
        g.known@ == Set::<Seq<char>>::empty(),
        g.screens == (Screens { mode: Mode::Title, quit_return: Mode::Title, log_scroll: 0 }),
        easiest_first(experiences(data.monsters@), g.monster_order@, data.monsters@.len() as int),
        entered(dungeon, *data, g.monster_order@, 1, 5, g.level),
        texts(g.log@) == seq!["Welcome to the Dungeons of Doom! Find the Amulet of Yendor."@],
{
    let order = monster_order(&data.monsters);
    let mut log: Vec<String> = Vec::new();
    let sight = sight_radius(false, false);
    let level = descend_to(dungeon, data, &order, 1, sight, &mut log, rng);
    assert(texts(log@) =~= Seq::<Seq<char>>::empty());
    welcome(&mut log);
    GameState {
        player: starting_stats(&data.config),
        status: StatusEffects::default(),
        inventory: starting_pack(),
        gold: 0,
        food: data.config.hunger_time,
        left_ring: None,
        right_ring: None,
        known: KnownItems::new(),
        monster_order: order,
        screens: Screens::new(),
        level,
        log,
    }
}

/// The sight of a player with this status and these rings: 1 when blind, 7
/// with a ring of searching, else 5.
pub open spec fn player_sight(status: StatusEffects, left: Option<RingKind>, right: Option<RingKind>) -> int {
    if status.blind > 0 {
        1
    } else if rings_of(left, right, RingKind::Searching) > 0 {
        7
    } else {
        5
    }
}

/// Take the stairs: standing on the staircase, enter the next level (with
/// the player's own sight) and return `true`; anywhere else log that there
/// are no stairs and return `false`, changing nothing else.
pub fn try_descend<R: RogueRng>(g: &mut GameState, dungeon: &Dungeon, data: &GameData, rng: &mut R) -> (went: bool)
    requires
        old(g).level.map.wf(),
        old(g).level.depth < i32::MAX,
        can_build(def_at(dungeon.levels@, dungeon.repeat_last, old(g).level.depth + 1), data.config, old(g).level.depth + 1),
        start_fits(def_at(dungeon.levels@, dungeon.repeat_last, old(g).level.depth + 1)),
        content_ok(*data, old(g).monster_order@),
    ensures
        went == (old(g).level.map.spec_tile(old(g).level.player_pos) == TileKind::StairsDown),
        went ==> {
            &&& entered(dungeon, *data, old(g).monster_order@, old(g).level.depth + 1, player_sight(old(g).status,
                old(g).left_ring, old(g).right_ring), final(g).level)
            &&& texts(final(g).log@) == keep_last(texts(old(g).log@) + descend_note(old(g).level.depth + 1), MAX_LOG as int)
        },
        !went ==> final(g).level == old(g).level && texts(final(g).log@) == texts(old(g).log@).push(
            "There are no stairs down here."@,
        ),
        final(g).player == old(g).player,
        final(g).status == old(g).status,
        final(g).inventory == old(g).inventory,
        final(g).gold == old(g).gold,
        final(g).food == old(g).food,
        final(g).left_ring == old(g).left_ring,
        final(g).right_ring == old(g).right_ring,
        final(g).known == old(g).known,
        final(g).monster_order == old(g).monster_order,
        final(g).screens == old(g).screens,
{
    if g.level.map.tile(g.level.player_pos) == TileKind::StairsDown {
        let searching = ring_bonus(g.left_ring, g.right_ring, RingKind::Searching) > 0;
        let sight = sight_radius(g.status.blind > 0, searching);
        let level = descend_to(dungeon, data, &g.monster_order, g.level.depth + 1, sight, &mut g.log, rng);
        g.level = level;
        true
    } else {
        say(&mut g.log, text1("There are no stairs down here."));
        false
    }
}

} // verus!
