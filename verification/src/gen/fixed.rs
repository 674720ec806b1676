//! Loader for hand-authored fixed maps.

use vstd::prelude::*;
use super::defs::{
    FixedLevel, LegendEntry, SpawnSpec, find_entry, legend_entry, resolve_char, spec_resolve_char,
};
use crate::data::Config;
use crate::geometry::{Point, Rect};
use crate::map::{LevelMap, Spawn, SpawnKind, TileKind, count_true, lemma_count_true_le, lemma_count_true_set, lemma_idx_in_range, lemma_idx_injective};
use crate::rng::{RogueRng, rnd_outcome};
use crate::text::chars_of;

verus! {

/// The spawn spec of the custom legend entry for `ch`, if any.
pub open spec fn custom_spawn(legend: Seq<LegendEntry>, ch: char) -> Option<SpawnSpec> {
    match legend_entry(legend, ch) {
        Some(e) => e.spawn,
        None => None,
    }
}

/// `ch` marks the player's start.
pub open spec fn is_player_char(legend: Seq<LegendEntry>, ch: char) -> bool {
    ch == '@' || custom_spawn(legend, ch) == Some(SpawnSpec::Player)
}

/// `ch` marks the down staircase.
pub open spec fn is_stairs_char(legend: Seq<LegendEntry>, ch: char) -> bool {
    ch == '>' || custom_spawn(legend, ch) == Some(SpawnSpec::StairsDown)
}

/// The tile a map character becomes: the player's start is floor, a stairs
/// marker is the down staircase, anything else resolves through the legend.
pub open spec fn cell_tile(legend: Seq<LegendEntry>, ch: char) -> TileKind {
    if is_player_char(legend, ch) {
        TileKind::Floor
    } else if is_stairs_char(legend, ch) {
        TileKind::StairsDown
    } else {
        spec_resolve_char(ch, legend).0
    }
}

/// The spawn a map character asks for (player and stairs markers spawn nothing).
pub open spec fn cell_spawn(legend: Seq<LegendEntry>, ch: char) -> Option<SpawnKind> {
    if is_player_char(legend, ch) || is_stairs_char(legend, ch) {
        None
    } else {
        spec_resolve_char(ch, legend).1
    }
}

/// The characters of the rows.
pub open spec fn rows_view(rows: Seq<String>) -> Seq<Seq<char>> {
    rows.map_values(|s: String| s@)
}

/// The character written at `p`, if the rows reach it.
pub open spec fn char_at(rows: Seq<Seq<char>>, p: Point) -> Option<char> {
    if 0 <= p.y < rows.len() && 0 <= p.x < rows[p.y as int].len() {
        Some(rows[p.y as int][p.x as int])
    } else {
        None
    }
}

/// The tile the level puts at `p` (rock where no character is written).
pub open spec fn fixed_tile(rows: Seq<Seq<char>>, legend: Seq<LegendEntry>, p: Point) -> TileKind {
    match char_at(rows, p) {
        Some(c) => cell_tile(legend, c),
        None => TileKind::Empty,
    }
}

/// Length of the longest row.
pub open spec fn max_row_len(rows: Seq<Seq<char>>) -> int
    decreases rows.len(),
{
    if rows.len() == 0 {
        0
    } else {
        let m = max_row_len(rows.drop_last());
        if rows.last().len() > m { rows.last().len() as int } else { m }
    }
}

/// Is the character a player marker (`stairs == false`) or a stairs marker?
pub open spec fn marked(legend: Seq<LegendEntry>, ch: char, stairs: bool) -> bool {
    if stairs { is_stairs_char(legend, ch) } else { is_player_char(legend, ch) }
}

/// The last marked cell of a row prefix.
pub open spec fn last_in_row(row: Seq<char>, y: int, legend: Seq<LegendEntry>, stairs: bool) -> Option<Point>
    decreases row.len(),
{
    if row.len() == 0 {
        None
    } else if marked(legend, row.last(), stairs) {
        Some(Point { x: (row.len() - 1) as i32, y: y as i32 })
    } else {
        last_in_row(row.drop_last(), y, legend, stairs)
    }
}

/// The last marked cell of the rows, in reading order.
pub open spec fn last_cell(rows: Seq<Seq<char>>, legend: Seq<LegendEntry>, stairs: bool) -> Option<Point>
    decreases rows.len(),
{
    if rows.len() == 0 {
        None
    } else {
        let r = last_in_row(rows.last(), rows.len() - 1, legend, stairs);
        if r is Some { r } else { last_cell(rows.drop_last(), legend, stairs) }
    }
}

/// The spawns a row prefix asks for, left to right (gold of value 0 still to be rolled).
pub open spec fn row_spawns(row: Seq<char>, y: int, legend: Seq<LegendEntry>) -> Seq<Spawn>
    decreases row.len(),
{
    if row.len() == 0 {
        Seq::empty()
    } else {
        let prev = row_spawns(row.drop_last(), y, legend);
        match cell_spawn(legend, row.last()) {
            Some(k) => prev.push(Spawn { pos: Point { x: (row.len() - 1) as i32, y: y as i32 }, kind: k }),
            None => prev,
        }
    }
}

/// The spawns the rows ask for, in reading order.
pub open spec fn rows_spawns(rows: Seq<Seq<char>>, legend: Seq<LegendEntry>) -> Seq<Spawn>
    decreases rows.len(),
{
    if rows.len() == 0 {
        Seq::empty()
    } else {
        rows_spawns(rows.drop_last(), legend) + row_spawns(rows.last(), rows.len() - 1, legend)
    }
}

/// A placed spawn is the one asked for, with a requested gold value of 0 rolled
/// as `rnd(50 + 10 * depth) + 2`.
pub open spec fn spawn_matches(want: Spawn, got: Spawn, depth: int) -> bool {
    &&& got.pos == want.pos
    &&& if want.kind == SpawnKind::Gold(0) {
        got.kind matches SpawnKind::Gold(v) && rnd_outcome(50 + 10 * depth, v - 2)
    } else {
        got.kind == want.kind
    }
}

pub open spec fn spawns_match(want: Seq<Spawn>, got: Seq<Spawn>, depth: int) -> bool {
    &&& want.len() == got.len()
    &&& forall|i: int| 0 <= i < want.len() ==> spawn_matches(#[trigger] want[i], got[i], depth)
}

/// Cells before `(x, y)` in reading order.
pub open spec fn before(q: Point, y: int, x: int) -> bool {
    q.y < y || (q.y == y && q.x < x)
}

/// `first` is the first floor cell of the map in reading order.
pub open spec fn is_first_floor(m: &LevelMap, first: Point) -> bool {
    &&& m.spec_in_bounds(first)
    &&& m.spec_tile(first) == TileKind::Floor
    &&& forall|q: Point| m.spec_in_bounds(q) && before(q, first.y as int, first.x as int) ==> m.spec_tile(q) != TileKind::Floor
}

/// The first floor cell of the map in reading order.
fn first_floor(map: &LevelMap) -> (r: Option<Point>)
    requires
        map.wf(),
    ensures
        match r {
            Some(p) => is_first_floor(map, p),
            None => forall|q: Point| map.spec_in_bounds(q) ==> map.spec_tile(q) != TileKind::Floor,
        },
{
    let mut y: i32 = 0;
    while y < map.height
        invariant
            map.wf(),
            0 <= y <= map.height,
            forall|q: Point| map.spec_in_bounds(q) && q.y < y ==> map.spec_tile(q) != TileKind::Floor,
        decreases map.height - y,
    {
        let mut x: i32 = 0;
        while x < map.width
            invariant
                map.wf(),
                0 <= y < map.height,
                0 <= x <= map.width,
                forall|q: Point| map.spec_in_bounds(q) && before(q, y as int, x as int) ==> map.spec_tile(q) != TileKind::Floor,
            decreases map.width - x,
        {
            let p = Point::new(x, y);
            if map.tile(p) == TileKind::Floor {
                return Some(p);
            }
            x = x + 1;
        }
        y = y + 1;
    }
    None
}

/// The rows as character vectors, with the longest row's length.
fn row_chars(rows: &Vec<String>) -> (r: (Vec<Vec<char>>, usize))
    ensures
        r.0@.len() == rows@.len(),
        forall|i: int| 0 <= i < rows@.len() ==> (#[trigger] r.0@[i])@ == rows@[i]@,
        r.1 == max_row_len(rows_view(rows@)),
{
    let mut out: Vec<Vec<char>> = Vec::new();
    let mut longest: usize = 0;
    let mut i: usize = 0;
    while i < rows.len()
        invariant
            i <= rows@.len(),
            out@.len() == i,
            forall|k: int| 0 <= k < i ==> (#[trigger] out@[k])@ == rows@[k]@,
            longest == max_row_len(rows_view(rows@.subrange(0, i as int))),
        decreases rows@.len() - i,
    {
        let v = chars_of(rows[i].as_str());
        proof {
            let pre = rows_view(rows@.subrange(0, i as int));
            let nxt = rows_view(rows@.subrange(0, i + 1));
            assert(nxt.drop_last() =~= pre);
            assert(nxt.last() == rows@[i as int]@);
        }
        if v.len() > longest {
            longest = v.len();
        }
        out.push(v);
        i = i + 1;
    }
    assert(rows@.subrange(0, rows@.len() as int) =~= rows@);
    (out, longest)
}

/// A row is never longer than the longest row.
proof fn lemma_max_row_len(rows: Seq<Seq<char>>, i: int)
    requires
        0 <= i < rows.len(),
    ensures
        rows[i].len() <= max_row_len(rows),
        max_row_len(rows) >= 0,
    decreases rows.len(),
{
    if i < rows.len() - 1 {
        lemma_max_row_len(rows.drop_last(), i);
    }
}

/// The longest row is never shorter than empty.
pub proof fn lemma_max_row_len_nonneg(rows: Seq<Seq<char>>)
    ensures
        max_row_len(rows) >= 0,
    decreases rows.len(),
{
    if rows.len() > 0 {
        lemma_max_row_len_nonneg(rows.drop_last());
    }
}

/// The last marked cell among the rows above `y` and the first `x` cells of row `y`.
pub open spec fn last_before(rows: Seq<Seq<char>>, legend: Seq<LegendEntry>, stairs: bool, y: int, x: int) -> Option<Point> {
    let r = last_in_row(rows[y].subrange(0, x), y, legend, stairs);
    if r is Some { r } else { last_cell(rows.subrange(0, y), legend, stairs) }
}

/// The spawns asked for by the rows above `y` and the first `x` cells of row `y`.
pub open spec fn spawns_before(rows: Seq<Seq<char>>, legend: Seq<LegendEntry>, y: int, x: int) -> Seq<Spawn> {
    rows_spawns(rows.subrange(0, y), legend) + row_spawns(rows[y].subrange(0, x), y, legend)
}

/// Width of the map built for a fixed level: the configured width, widened to the longest row.
pub open spec fn fixed_width(cfg: Config, rows: Seq<Seq<char>>) -> int {
    if cfg.map_width >= max_row_len(rows) { cfg.map_width as int } else { max_row_len(rows) }
}

/// Height of the map built for a fixed level: the configured height, grown to the row count.
pub open spec fn fixed_height(cfg: Config, rows: Seq<Seq<char>>) -> int {
    if cfg.map_height >= rows.len() { cfg.map_height as int } else { rows.len() as int }
}

/// Place one map character at `p`: its tile, darkness and requested spawn.
/// Returns whether the character marks the player's start and the stairs.
fn load_cell<R: RogueRng>(
    map: &mut LevelMap,
    p: Point,
    ch: char,
    legend: &Vec<LegendEntry>,
    dark: bool,
    depth: i32,
    rng: &mut R,
) -> (marks: (bool, bool))
    requires
        old(map).wf(),
        old(map).spec_in_bounds(p),
        i32::MIN <= 10 * depth,
        50 + 10 * depth < i32::MAX,
    ensures
        marks.0 == is_player_char(legend@, ch),
        marks.1 == is_stairs_char(legend@, ch),
        final(map).wf(),
        final(map).width == old(map).width,
        final(map).height == old(map).height,
        final(map).revealed_seq() == old(map).revealed_seq(),
        final(map).visible_seq() == old(map).visible_seq(),
        final(map).rooms == old(map).rooms,
        final(map).player_start == old(map).player_start,
        final(map).stairs_down == old(map).stairs_down,
        forall|q: Point|
            #[trigger] final(map).spec_tile(q) == (if q == p { cell_tile(legend@, ch) } else { old(map).spec_tile(q) }),
        forall|q: Point|
            #[trigger] final(map).spec_is_dark(q) == (if q == p && dark { true } else { old(map).spec_is_dark(q) }),
        match cell_spawn(legend@, ch) {
            None => final(map).spawns@ == old(map).spawns@,
            Some(k) => {
                &&& final(map).spawns@.len() == old(map).spawns@.len() + 1
                &&& final(map).spawns@.drop_last() == old(map).spawns@
                &&& spawn_matches(Spawn { pos: p, kind: k }, final(map).spawns@.last(), depth as int)
            },
        },
{
    let custom = find_entry(ch, legend.as_slice());
    let custom_spawn = match custom {
        Some(e) => e.spawn,
        None => None,
    };
    let is_player = ch == '@' || matches!(custom_spawn, Some(SpawnSpec::Player));
    let is_stairs = ch == '>' || matches!(custom_spawn, Some(SpawnSpec::StairsDown));
    let (resolved, spawn) = resolve_char(ch, legend.as_slice());
    let mut tile = resolved;
    if is_stairs {
        tile = TileKind::StairsDown;
    }
    if is_player {
        tile = TileKind::Floor;
    }
    map.set_tile(p, tile);
    let ghost tiled = *map;
    if dark {
        map.set_dark(p, true);
    }
    let ghost darkened = *map;
    assert forall|q: Point|
        #[trigger] darkened.spec_is_dark(q) == (if q == p && dark { true } else { old(map).spec_is_dark(q) }) by {}
    if !(is_player || is_stairs) {
        if let Some(kind) = spawn {
            let placed = match kind {
                SpawnKind::Gold(v) => if v == 0 {
                    let r = rng.rnd(50 + 10 * depth);
                    SpawnKind::Gold(r + 2)
                } else {
                    kind
                },
                _ => kind,
            };
            let ghost before = map.spawns@;
            map.spawns.push(Spawn { pos: p, kind: placed });
            assert(map.spawns@.drop_last() =~= before);
        }
    }
    assert forall|q: Point| #[trigger] map.spec_tile(q) == tiled.spec_tile(q) by {}
    assert forall|q: Point| #[trigger] map.spec_is_dark(q) == darkened.spec_is_dark(q) by {}
    (is_player, is_stairs)
}

/// What loading a fixed level yields, but for its rooms.
pub open spec fn fixed_layout_ok(level: &FixedLevel, cfg: Config, depth: int, m: &LevelMap) -> bool {
    let rows = rows_view(level.rows@);
    let legend = level.legend@;
    &&& m.wf()
    &&& m.width == fixed_width(cfg, rows)
    &&& m.height == fixed_height(cfg, rows)
    &&& forall|q: Point| m.spec_in_bounds(q) ==> #[trigger] m.spec_tile(q) == fixed_tile(rows, legend, q)
    &&& forall|q: Point| #[trigger] m.spec_is_dark(q) == (level.dark && char_at(rows, q) is Some)
    &&& forall|i: int| 0 <= i < m.revealed_seq().len() ==> !m.revealed_seq()[i]
    &&& forall|i: int| 0 <= i < m.visible_seq().len() ==> !m.visible_seq()[i]
    &&& m.stairs_down == last_cell(rows, legend, true)
    &&& last_cell(rows, legend, false) == Some(m.player_start)
    &&& spawns_match(rows_spawns(rows, legend), m.spawns@, depth)
}

/// Where a hand-authored level puts the player: its last player marker in
/// reading order, if it has one. A level without one cannot be loaded.
pub fn player_marker(level: &FixedLevel) -> (r: Option<Point>)
    requires
        level.rows@.len() <= i32::MAX,
        max_row_len(rows_view(level.rows@)) <= i32::MAX,
    ensures
        r == last_cell(rows_view(level.rows@), level.legend@, false),
{
    let ghost rows = rows_view(level.rows@);
    let ghost legend = level.legend@;
    let (chars, _longest) = row_chars(&level.rows);
    proof {
        assert forall|i: int| 0 <= i < rows.len() implies (#[trigger] chars@[i])@ == rows[i] by {}
    }
    let mut found: Option<Point> = None;
    let mut y: usize = 0;
    while y < chars.len()
        invariant
            y <= rows.len(),
            chars@.len() == rows.len(),
            rows.len() <= i32::MAX,
            max_row_len(rows) <= i32::MAX,
            forall|i: int| 0 <= i < rows.len() ==> (#[trigger] chars@[i])@ == rows[i],
            rows == rows_view(level.rows@),
            legend == level.legend@,
            found == last_cell(rows.subrange(0, y as int), legend, false),
        decreases rows.len() - y,
    {
        let row = &chars[y];
        proof {
            lemma_max_row_len(rows, y as int);
            assert(rows[y as int].subrange(0, 0) =~= Seq::<char>::empty());
        }
        let mut x: usize = 0;
        while x < row.len()
            invariant
                y < rows.len(),
                rows.len() <= i32::MAX,
                x <= rows[y as int].len(),
                rows[y as int].len() <= max_row_len(rows) <= i32::MAX,
                row@ == rows[y as int],
                rows == rows_view(level.rows@),
                legend == level.legend@,
                found == last_before(rows, legend, false, y as int, x as int),
            decreases rows[y as int].len() - x,
        {
            let ch = row[x];
            let custom = find_entry(ch, level.legend.as_slice());
            let custom_spawn = match custom {
                Some(e) => e.spawn,
                None => None,
            };
            if ch == '@' || matches!(custom_spawn, Some(SpawnSpec::Player)) {
                found = Some(Point::new(x as i32, y as i32));
            }
            proof {
                let r = rows[y as int];
                assert(r.subrange(0, x + 1).drop_last() =~= r.subrange(0, x as int));
                assert(r.subrange(0, x + 1).last() == ch);
            }
            x = x + 1;
        }
        proof {
            let r = rows[y as int];
            assert(r.subrange(0, r.len() as int) =~= r);
            let pre = rows.subrange(0, y as int);
            let nxt = rows.subrange(0, y + 1);
            assert(nxt.drop_last() =~= pre);
            assert(nxt.last() == r);
        }
        y = y + 1;
    }
    proof {
        assert(rows.subrange(0, rows.len() as int) =~= rows);
    }
    found
}

/// Build a map from a hand-authored fixed level.
///
/// The map is sized to the configured dimensions (grown to fit the rows); rows
/// are placed from the top left. Gold values of `0` are rolled by depth,
/// matching procedural levels. The player starts on the (last) player
/// marker, which the level must have (see `player_marker`).
pub fn load_fixed<R: RogueRng>(level: &FixedLevel, cfg: &Config, depth: i32, rng: &mut R) -> (map: LevelMap)
    requires
        level.rows@.len() <= i32::MAX,
        fixed_width(*cfg, rows_view(level.rows@)) * fixed_height(*cfg, rows_view(level.rows@)) <= i32::MAX,
        i32::MIN <= 10 * depth,
        50 + 10 * depth < i32::MAX,
        last_cell(rows_view(level.rows@), level.legend@, false) is Some,
    ensures
        fixed_layout_ok(level, *cfg, depth as int, &map),
        map.rooms@ == detected_rooms(&map),
        rooms_ok(&map),
{
    let ghost rows = rows_view(level.rows@);
    let ghost legend = level.legend@;
    let (chars, longest) = row_chars(&level.rows);
    proof {
        lemma_max_row_len_nonneg(rows);
        assert(chars@.len() == rows.len());
        assert forall|i: int| 0 <= i < rows.len() implies (#[trigger] chars@[i])@ == rows[i] by {}
    }
    let ghost fw = fixed_width(*cfg, rows);
    let ghost fh = fixed_height(*cfg, rows);
    proof {
        if rows.len() > 0 {
            assert(fw <= fw * fh) by (nonlinear_arith) requires fh >= 1, fw >= 0;
        }
    }
    let width: i32 = if (cfg.map_width as i64) >= (longest as i64) { cfg.map_width } else { longest as i32 };
    let nrows = level.rows.len() as i32;
    let height: i32 = if cfg.map_height >= nrows { cfg.map_height } else { nrows };
    let mut map = LevelMap::new(width, height);
    let ghost center = map.player_start;
    proof {
        assert forall|q: Point| map.spec_in_bounds(q) implies #[trigger] map.spec_tile(q) == TileKind::Empty by {
            lemma_idx_in_range(&map, q);
        }
        assert forall|q: Point| !#[trigger] map.spec_is_dark(q) by {
            if map.spec_in_bounds(q) {
                lemma_idx_in_range(&map, q);
            }
        }
    }
    let mut player_start: Option<Point> = None;
    let mut y: usize = 0;
    while y < chars.len()
        invariant
            y <= rows.len(),
            chars@.len() == rows.len(),
            forall|i: int| 0 <= i < rows.len() ==> (#[trigger] chars@[i])@ == rows[i],
            rows == rows_view(level.rows@),
            legend == level.legend@,
            map.wf(),
            map.width == fixed_width(*cfg, rows),
            map.height == fixed_height(*cfg, rows),
            map.player_start == center,
            map.rooms@.len() == 0,
            i32::MIN <= 10 * depth,
            50 + 10 * depth < i32::MAX,
            forall|q: Point| map.spec_in_bounds(q) ==> #[trigger] map.spec_tile(q) == (if q.y < y { fixed_tile(rows, legend, q) } else { TileKind::Empty }),
            forall|q: Point| #[trigger] map.spec_is_dark(q) == (level.dark && q.y < y && char_at(rows, q) is Some),
            forall|i: int| 0 <= i < map.revealed_seq().len() ==> !map.revealed_seq()[i],
            forall|i: int| 0 <= i < map.visible_seq().len() ==> !map.visible_seq()[i],
            map.stairs_down == last_cell(rows.subrange(0, y as int), legend, true),
            player_start == last_cell(rows.subrange(0, y as int), legend, false),
            spawns_match(rows_spawns(rows.subrange(0, y as int), legend), map.spawns@, depth as int),
        decreases rows.len() - y,
    {
        let row = &chars[y];
        proof {
            lemma_max_row_len_nonneg(rows);
        }
        let mut x: usize = 0;
        while x < row.len()
            invariant
                y < rows.len(),
                x <= rows[y as int].len(),
                row@ == rows[y as int],
                rows == rows_view(level.rows@),
                legend == level.legend@,
                map.wf(),
                map.width == fixed_width(*cfg, rows),
                map.height == fixed_height(*cfg, rows),
                map.player_start == center,
                map.rooms@.len() == 0,
                i32::MIN <= 10 * depth,
                50 + 10 * depth < i32::MAX,
                forall|q: Point| map.spec_in_bounds(q) ==> #[trigger] map.spec_tile(q) == (if before(q, y as int, x as int) { fixed_tile(rows, legend, q) } else { TileKind::Empty }),
                forall|q: Point| #[trigger] map.spec_is_dark(q) == (level.dark && before(q, y as int, x as int) && char_at(rows, q) is Some),
                forall|i: int| 0 <= i < map.revealed_seq().len() ==> !map.revealed_seq()[i],
                forall|i: int| 0 <= i < map.visible_seq().len() ==> !map.visible_seq()[i],
                map.stairs_down == last_before(rows, legend, true, y as int, x as int),
                player_start == last_before(rows, legend, false, y as int, x as int),
                spawns_match(spawns_before(rows, legend, y as int, x as int), map.spawns@, depth as int),
            decreases rows[y as int].len() - x,
        {
            proof {
                lemma_max_row_len(rows, y as int);
            }
            let p = Point::new(x as i32, y as i32);
            let ch = row[x];
            let ghost prev = map;
            let ghost want_prev = spawns_before(rows, legend, y as int, x as int);
            let marks = load_cell(&mut map, p, ch, &level.legend, level.dark, depth, rng);
            let ghost after = map;
            if marks.1 {
                map.stairs_down = Some(p);
            }
            if marks.0 {
                player_start = Some(p);
            }
            proof {
                let r = rows[y as int];
                assert(r.subrange(0, x + 1).drop_last() =~= r.subrange(0, x as int));
                assert(r.subrange(0, x + 1).last() == ch);
                assert(char_at(rows, p) == Some(ch));
                let want = spawns_before(rows, legend, y as int, x + 1);
                assert(rows_spawns(rows.subrange(0, y as int), legend) + row_spawns(r.subrange(0, x as int), y as int, legend) == want_prev);
                match cell_spawn(legend, ch) {
                    None => {
                        assert(want =~= want_prev);
                    },
                    Some(k) => {
                        assert(want =~= want_prev.push(Spawn { pos: p, kind: k }));
                        assert forall|i: int| 0 <= i < want.len() implies spawn_matches(#[trigger] want[i], map.spawns@[i], depth as int) by {
                            if i < want.len() - 1 {
                                assert(want[i] == want_prev[i]);
                                assert(map.spawns@[i] == map.spawns@.drop_last()[i]);
                            }
                        }
                    },
                }
                assert forall|q: Point| map.spec_in_bounds(q) implies #[trigger] map.spec_tile(q) == (if before(q, y as int, x + 1) { fixed_tile(rows, legend, q) } else { TileKind::Empty }) by {
                    assert(after.spec_tile(q) == map.spec_tile(q));
                    if q != p {
                        assert(prev.spec_tile(q) == after.spec_tile(q));
                    }
                }
                assert forall|q: Point| #[trigger] map.spec_is_dark(q) == (level.dark && before(q, y as int, x + 1) && char_at(rows, q) is Some) by {
                    assert(after.spec_is_dark(q) == map.spec_is_dark(q));
                    if q != p {
                        assert(prev.spec_is_dark(q) == after.spec_is_dark(q));
                    }
                }
            }
            x = x + 1;
        }
        proof {
            let r = rows[y as int];
            assert(r.subrange(0, r.len() as int) =~= r);
            let pre = rows.subrange(0, y as int);
            let nxt = rows.subrange(0, y + 1);
            assert(nxt.drop_last() =~= pre);
            assert(nxt.last() == r);
            assert forall|q: Point| map.spec_in_bounds(q) implies #[trigger] map.spec_tile(q) == (if q.y < y + 1 { fixed_tile(rows, legend, q) } else { TileKind::Empty }) by {
                if q.y == y && q.x >= x {
                    assert(char_at(rows, q) is None);
                }
            }
            assert forall|q: Point| #[trigger] map.spec_is_dark(q) == (level.dark && q.y < y + 1 && char_at(rows, q) is Some) by {
                if q.y == y && q.x >= x {
                    assert(char_at(rows, q) is None);
                }
            }
        }
        y = y + 1;
    }
    proof {
        assert(rows.subrange(0, rows.len() as int) =~= rows);
        assert forall|q: Point| map.spec_in_bounds(q) implies #[trigger] map.spec_tile(q) == fixed_tile(rows, legend, q) by {
            if q.y >= rows.len() {
                assert(char_at(rows, q) is None);
            }
        }
        assert forall|q: Point| #[trigger] map.spec_is_dark(q) == (level.dark && char_at(rows, q) is Some) by {
            if q.y >= rows.len() {
                assert(char_at(rows, q) is None);
            }
        }
    }
    let ghost laid = map;
    match player_start {
        Some(p) => {
            map.player_start = p;
        },
        None => {
            assert(false);
        },
    }
    let ghost placed = map;
    assert forall|q: Point| #[trigger] placed.spec_tile(q) == laid.spec_tile(q) by {}
    assert forall|q: Point| #[trigger] placed.spec_is_dark(q) == laid.spec_is_dark(q) by {}
    assert(fixed_layout_ok(level, *cfg, depth as int, &placed));
    let rooms = detect_rooms(&map);
    map.rooms = rooms;
    proof {
        assert forall|q: Point| #[trigger] map.spec_tile(q) == placed.spec_tile(q) by {}
        assert forall|q: Point| #[trigger] map.spec_is_dark(q) == placed.spec_is_dark(q) by {}
        assert forall|i: int| 0 <= i < map.rooms@.len() implies room_ok(&map, #[trigger] map.rooms@[i]) by {
            lemma_room_ok_same_tiles(&placed, &map, rooms@[i]);
        }
        lemma_detected_same_tiles(&placed, &map);
    }
    map
}

/// The detected rooms of a map depend on its size and tiles alone.
proof fn lemma_detected_same_tiles(a: &LevelMap, b: &LevelMap)
    requires
        a.width == b.width,
        a.height == b.height,
        a.tiles@ == b.tiles@,
    ensures
        detected_rooms(a) == detected_rooms(b),
{
    assert forall|q: Point| #[trigger] interior_at(a, q) == interior_at(b, q) by {}
    assert forall|s: Seq<Point>| #[trigger] interior_chain(a, s) == interior_chain(b, s) by {
        if interior_chain(a, s) {
            assert forall|i: int| 0 <= i < s.len() implies interior_at(b, #[trigger] s[i]) by {
                assert(interior_at(a, s[i]));
            }
        }
        if interior_chain(b, s) {
            assert forall|i: int| 0 <= i < s.len() implies interior_at(a, #[trigger] s[i]) by {
                assert(interior_at(b, s[i]));
            }
        }
    }
    assert forall|u: Point, v: Point|
        #![trigger linked(a, u, v)]
        #![trigger linked(b, u, v)]
        linked(a, u, v) == linked(b, u, v) by {
        if linked(a, u, v) {
            let s = choose|s: Seq<Point>| #[trigger] interior_chain(a, s) && s[0] == u && s.last() == v;
            assert(interior_chain(b, s));
        }
        if linked(b, u, v) {
            let s = choose|s: Seq<Point>| #[trigger] interior_chain(b, s) && s[0] == u && s.last() == v;
            assert(interior_chain(a, s));
        }
    }
    assert forall|y: int, x: int| #[trigger] row_rooms(a, y, x) == row_rooms(b, y, x) by {
        lemma_row_rooms_same(a, b, y, x);
    }
    lemma_rooms_upto_same(a, b, a.height as int);
}

proof fn lemma_row_rooms_same(a: &LevelMap, b: &LevelMap, y: int, x: int)
    requires
        a.width == b.width,
        a.height == b.height,
        forall|q: Point| #[trigger] interior_at(a, q) == interior_at(b, q),
        forall|u: Point, v: Point|
            #![trigger linked(a, u, v)]
            #![trigger linked(b, u, v)]
            linked(a, u, v) == linked(b, u, v),
    ensures
        row_rooms(a, y, x) == row_rooms(b, y, x),
    decreases x,
{
    if x > 0 {
        lemma_row_rooms_same(a, b, y, x - 1);
        let q = Point { x: (x - 1) as i32, y: y as i32 };
        assert forall|e: Point| #[trigger] claimed(a, y, x, e) == claimed(b, y, x, e) by {
            if claimed(a, y, x, e) {
                let f = choose|f: Point| #![trigger linked(a, f, e)] interior_at(a, f) && before(f, y, x) && linked(a, f, e);
                assert(linked(b, f, e));
            }
            if claimed(b, y, x, e) {
                let f = choose|f: Point| #![trigger linked(b, f, e)] interior_at(b, f) && before(f, y, x) && linked(b, f, e);
                assert(linked(a, f, e));
            }
        }
        assert(claimed(a, q.y as int, q.x as int, q) == claimed(b, q.y as int, q.x as int, q)) by {
            if claimed(a, q.y as int, q.x as int, q) {
                let f = choose|f: Point| #![trigger linked(a, f, q)] interior_at(a, f) && before(f, q.y as int, q.x as int) && linked(a, f, q);
                assert(linked(b, f, q));
            }
            if claimed(b, q.y as int, q.x as int, q) {
                let f = choose|f: Point| #![trigger linked(b, f, q)] interior_at(b, f) && before(f, q.y as int, q.x as int) && linked(b, f, q);
                assert(linked(a, f, q));
            }
        }
        assert(big_group(a, q) == big_group(b, q)) by {
            if !big_group(a, q) {
                let c = choose|c: Seq<Point>| #![trigger c.len()] c.len() <= 3 && forall|r: Point| linked(a, q, r) ==> c.contains(r);
                assert(forall|r: Point| linked(b, q, r) ==> c.contains(r));
            }
            if !big_group(b, q) {
                let c = choose|c: Seq<Point>| #![trigger c.len()] c.len() <= 3 && forall|r: Point| linked(b, q, r) ==> c.contains(r);
                assert(forall|r: Point| linked(a, q, r) ==> c.contains(r));
            }
        }
        assert(room_seed(a, q) == room_seed(b, q));
        if room_seed(a, q) {
            lemma_linked_refl(a, q);
            let fx = |r: Point| r.x as int;
            let fy = |r: Point| r.y as int;
            let gx = |r: Point| -r.x;
            let gy = |r: Point| -r.y;
            lemma_has_least(a, q, fx, 0);
            lemma_has_least(a, q, fy, 0);
            lemma_has_least(a, q, gx, 1 - a.width);
            lemma_has_least(a, q, gy, 1 - a.height);
            let (mx, my, hx, hy) = group_box(a, q);
            assert(is_min_x(a, q, mx)) by {
                let v = choose|v: int| #[trigger] is_least(a, q, fx, v);
                assert(is_min_x(a, q, v));
            }
            assert(is_min_y(a, q, my)) by {
                let v = choose|v: int| #[trigger] is_least(a, q, fy, v);
                assert(is_min_y(a, q, v));
            }
            assert(is_max_x(a, q, hx)) by {
                let v = choose|v: int| #[trigger] is_least(a, q, gx, v);
                assert(is_max_x(a, q, -v));
            }
            assert(is_max_y(a, q, hy)) by {
                let v = choose|v: int| #[trigger] is_least(a, q, gy, v);
                assert(is_max_y(a, q, -v));
            }
            assert(is_min_x(b, q, mx)) by {
                let w = choose|w: Point| #![trigger linked(a, q, w)] linked(a, q, w) && w.x == mx;
                assert(linked(b, q, w));
            }
            assert(is_min_y(b, q, my)) by {
                let w = choose|w: Point| #![trigger linked(a, q, w)] linked(a, q, w) && w.y == my;
                assert(linked(b, q, w));
            }
            assert(is_max_x(b, q, hx)) by {
                let w = choose|w: Point| #![trigger linked(a, q, w)] linked(a, q, w) && w.x == hx;
                assert(linked(b, q, w));
            }
            assert(is_max_y(b, q, hy)) by {
                let w = choose|w: Point| #![trigger linked(a, q, w)] linked(a, q, w) && w.y == hy;
                assert(linked(b, q, w));
            }
            lemma_box_unique(b, q, mx, my, hx, hy);
            assert(room_rect(a, q) == room_rect(b, q));
        }
    }
}

/// `v` is the least value of `f` over the group of `p`.
pub open spec fn is_least(m: &LevelMap, p: Point, f: spec_fn(Point) -> int, v: int) -> bool {
    &&& exists|r: Point| #![trigger linked(m, p, r)] linked(m, p, r) && f(r) == v
    &&& forall|r: Point| linked(m, p, r) ==> v <= f(r)
}

/// A group has a least value of any measure bounded below on it.
proof fn lemma_has_least(m: &LevelMap, p: Point, f: spec_fn(Point) -> int, lo: int)
    requires
        linked(m, p, p),
        forall|r: Point| linked(m, p, r) ==> lo <= f(r),
    ensures
        exists|v: int| #[trigger] is_least(m, p, f, v),
    decreases f(p) - lo,
{
    if exists|r: Point| #![trigger linked(m, p, r)] linked(m, p, r) && f(r) == lo {
        assert(is_least(m, p, f, lo));
    } else {
        assert(f(p) != lo);
        lemma_has_least(m, p, f, lo + 1);
    }
}

proof fn lemma_rooms_upto_same(a: &LevelMap, b: &LevelMap, y: int)
    requires
        a.width == b.width,
        forall|y: int, x: int| #[trigger] row_rooms(a, y, x) == row_rooms(b, y, x),
    ensures
        rooms_upto(a, y) == rooms_upto(b, y),
    decreases y,
{
    if y > 0 {
        lemma_rooms_upto_same(a, b, y - 1);
        assert(row_rooms(a, y - 1, a.width as int) == row_rooms(b, y - 1, b.width as int));
    }
}

/// Whether a room is a detected room depends on the map's size and tiles alone.
proof fn lemma_room_ok_same_tiles(a: &LevelMap, b: &LevelMap, r: Rect)
    requires
        room_ok(a, r),
        a.width == b.width,
        a.height == b.height,
        a.tiles@ == b.tiles@,
    ensures
        room_ok(b, r),
{
    let q = choose|q: Point| r.spec_contains(q) && #[trigger] spec_is_interior(a.spec_tile(q));
    assert(a.spec_tile(q) == b.spec_tile(q));
}

/// Tiles that make up a room's inside: floor, stairs and traps.
pub open spec fn spec_is_interior(t: TileKind) -> bool {
    t == TileKind::Floor || t == TileKind::StairsDown || t == TileKind::StairsUp || t == TileKind::Trap
}

fn is_interior(t: TileKind) -> (b: bool)
    ensures
        b == spec_is_interior(t),
{
    matches!(t, TileKind::Floor | TileKind::StairsDown | TileKind::StairsUp | TileKind::Trap)
}

/// `q` is an interior tile of the map.
pub open spec fn interior_at(m: &LevelMap, q: Point) -> bool {
    m.spec_in_bounds(q) && spec_is_interior(m.spec_tile(q))
}

/// `a` and `b` are a rook-move apart.
pub open spec fn adj4(a: Point, b: Point) -> bool {
    ||| (a.x == b.x && (a.y - b.y == 1 || b.y - a.y == 1))
    ||| (a.y == b.y && (a.x - b.x == 1 || b.x - a.x == 1))
}

/// `s` is a chain of interior tiles, each a rook-move from the one before.
pub open spec fn interior_chain(m: &LevelMap, s: Seq<Point>) -> bool {
    &&& s.len() >= 1
    &&& forall|i: int| 0 <= i < s.len() ==> interior_at(m, #[trigger] s[i])
    &&& forall|i: int| 0 < i < s.len() ==> adj4(s[i - 1], #[trigger] s[i])
}

/// `a` and `b` lie in the same rook-connected group of interior tiles.
pub open spec fn linked(m: &LevelMap, a: Point, b: Point) -> bool {
    exists|s: Seq<Point>| #[trigger] interior_chain(m, s) && s[0] == a && s.last() == b
}

/// `q` is linked to an interior tile scanned before `(x, y)` in reading order.
pub open spec fn claimed(m: &LevelMap, y: int, x: int, q: Point) -> bool {
    exists|e: Point| #![trigger linked(m, e, q)] interior_at(m, e) && before(e, y, x) && linked(m, e, q)
}

/// The group of `p` has at least four tiles: no three tiles cover it.
pub open spec fn big_group(m: &LevelMap, p: Point) -> bool {
    !exists|c: Seq<Point>| #![trigger c.len()] c.len() <= 3 && forall|q: Point| linked(m, p, q) ==> c.contains(q)
}

/// `v` is the least column of the group of `p`.
pub open spec fn is_min_x(m: &LevelMap, p: Point, v: int) -> bool {
    (exists|q: Point| #![trigger linked(m, p, q)] linked(m, p, q) && q.x == v) && forall|q: Point| linked(m, p, q) ==> v <= q.x
}

pub open spec fn is_max_x(m: &LevelMap, p: Point, v: int) -> bool {
    (exists|q: Point| #![trigger linked(m, p, q)] linked(m, p, q) && q.x == v) && forall|q: Point| linked(m, p, q) ==> q.x <= v
}

pub open spec fn is_min_y(m: &LevelMap, p: Point, v: int) -> bool {
    (exists|q: Point| #![trigger linked(m, p, q)] linked(m, p, q) && q.y == v) && forall|q: Point| linked(m, p, q) ==> v <= q.y
}

pub open spec fn is_max_y(m: &LevelMap, p: Point, v: int) -> bool {
    (exists|q: Point| #![trigger linked(m, p, q)] linked(m, p, q) && q.y == v) && forall|q: Point| linked(m, p, q) ==> q.y <= v
}

/// The bounding box of the group of `p`: least and greatest column and row.
pub open spec fn group_box(m: &LevelMap, p: Point) -> (int, int, int, int) {
    (
        choose|v: int| is_min_x(m, p, v),
        choose|v: int| is_min_y(m, p, v),
        choose|v: int| is_max_x(m, p, v),
        choose|v: int| is_max_y(m, p, v),
    )
}

/// The room rectangle of a group: its bounding box grown by one tile on every
/// side for the walls, kept inside the map.
pub open spec fn room_rect(m: &LevelMap, p: Point) -> Rect {
    let b = group_box(m, p);
    let rx = if b.0 - 1 >= 0 { b.0 - 1 } else { 0 };
    let ry = if b.1 - 1 >= 0 { b.1 - 1 } else { 0 };
    let x2 = if b.2 + 2 <= m.width { b.2 + 2 } else { m.width as int };
    let y2 = if b.3 + 2 <= m.height { b.3 + 2 } else { m.height as int };
    Rect { x1: rx as i32, y1: ry as i32, x2: x2 as i32, y2: y2 as i32 }
}

/// `q` is the first tile (in reading order) of a group of at least four interior tiles.
pub open spec fn room_seed(m: &LevelMap, q: Point) -> bool {
    interior_at(m, q) && !claimed(m, q.y as int, q.x as int, q) && big_group(m, q)
}

/// The rooms of the first `x` tiles of row `y`, left to right.
pub open spec fn row_rooms(m: &LevelMap, y: int, x: int) -> Seq<Rect>
    decreases x,
{
    if x <= 0 {
        Seq::empty()
    } else {
        let q = Point { x: (x - 1) as i32, y: y as i32 };
        row_rooms(m, y, x - 1) + if room_seed(m, q) { seq![room_rect(m, q)] } else { Seq::empty() }
    }
}

/// The rooms of the rows above `y`, in reading order of their groups' first tiles.
pub open spec fn rooms_upto(m: &LevelMap, y: int) -> Seq<Rect>
    decreases y,
{
    if y <= 0 {
        Seq::empty()
    } else {
        rooms_upto(m, y - 1) + row_rooms(m, y - 1, m.width as int)
    }
}

/// The rooms of a map: one per group of at least four rook-connected interior
/// tiles, in reading order of the groups' first tiles.
pub open spec fn detected_rooms(m: &LevelMap) -> Seq<Rect> {
    rooms_upto(m, m.height as int)
}

/// A one-tile chain links an interior tile to itself.
proof fn lemma_linked_refl(m: &LevelMap, a: Point)
    requires
        interior_at(m, a),
    ensures
        linked(m, a, a),
{
    let s = seq![a];
    assert(interior_chain(m, s));
}

/// Chains run both ways.
proof fn lemma_linked_sym(m: &LevelMap, a: Point, b: Point)
    requires
        linked(m, a, b),
    ensures
        linked(m, b, a),
{
    let s = choose|s: Seq<Point>| #[trigger] interior_chain(m, s) && s[0] == a && s.last() == b;
    let r = s.reverse();
    assert forall|i: int| 0 <= i < r.len() implies interior_at(m, #[trigger] r[i]) by {
        assert(r[i] == s[s.len() - 1 - i]);
    }
    assert forall|i: int| 0 < i < r.len() implies adj4(r[i - 1], #[trigger] r[i]) by {
        assert(r[i] == s[s.len() - 1 - i]);
        assert(r[i - 1] == s[s.len() - i]);
        let j = s.len() - i;
        assert(adj4(s[j - 1], s[j]));
    }
    assert(interior_chain(m, r));
    assert(r[0] == b);
    assert(r.last() == a);
}

/// A chain extends by a rook-move onto another interior tile.
proof fn lemma_linked_step(m: &LevelMap, a: Point, b: Point, c: Point)
    requires
        linked(m, a, b),
        adj4(b, c),
        interior_at(m, c),
    ensures
        linked(m, a, c),
{
    let s = choose|s: Seq<Point>| #[trigger] interior_chain(m, s) && s[0] == a && s.last() == b;
    let t = s.push(c);
    assert forall|i: int| 0 <= i < t.len() implies interior_at(m, #[trigger] t[i]) by {
        if i < s.len() {
            assert(t[i] == s[i]);
        }
    }
    assert forall|i: int| 0 < i < t.len() implies adj4(t[i - 1], #[trigger] t[i]) by {
        if i < s.len() {
            assert(t[i] == s[i]);
            assert(t[i - 1] == s[i - 1]);
        }
    }
    assert(interior_chain(m, t));
    assert(t[0] == a);
}

/// Chains join end to end.
proof fn lemma_linked_trans(m: &LevelMap, a: Point, b: Point, c: Point)
    requires
        linked(m, a, b),
        linked(m, b, c),
    ensures
        linked(m, a, c),
{
    let s = choose|s: Seq<Point>| #[trigger] interior_chain(m, s) && s[0] == a && s.last() == b;
    let t = choose|t: Seq<Point>| #[trigger] interior_chain(m, t) && t[0] == b && t.last() == c;
    let u = s + t.drop_first();
    assert forall|i: int| 0 <= i < u.len() implies interior_at(m, #[trigger] u[i]) by {
        if i < s.len() {
            assert(u[i] == s[i]);
        } else {
            assert(u[i] == t[i - s.len() + 1]);
        }
    }
    assert forall|i: int| 0 < i < u.len() implies adj4(u[i - 1], #[trigger] u[i]) by {
        if i < s.len() {
            assert(u[i] == s[i]);
            assert(u[i - 1] == s[i - 1]);
        } else if i == s.len() {
            assert(u[i] == t[1]);
            assert(u[i - 1] == s.last());
            assert(adj4(t[0], t[1]));
        } else {
            assert(u[i] == t[i - s.len() + 1]);
            assert(u[i - 1] == t[i - s.len()]);
        }
    }
    assert(interior_chain(m, u));
    assert(u[0] == a);
    if t.len() == 1 {
        assert(u =~= s);
    } else {
        assert(u.last() == t.last());
    }
}

/// Linked tiles are interior tiles.
proof fn lemma_linked_ends(m: &LevelMap, a: Point, b: Point)
    requires
        linked(m, a, b),
    ensures
        interior_at(m, a),
        interior_at(m, b),
{
    let s = choose|s: Seq<Point>| #[trigger] interior_chain(m, s) && s[0] == a && s.last() == b;
    assert(interior_at(m, s[0]));
    assert(interior_at(m, s[s.len() - 1]));
}

/// A detected room lies inside the map and holds at least one interior tile.
pub open spec fn room_ok(m: &LevelMap, r: Rect) -> bool {
    &&& 0 <= r.x1 <= r.x2 <= m.width
    &&& 0 <= r.y1 <= r.y2 <= m.height
    &&& exists|q: Point| r.spec_contains(q) && #[trigger] spec_is_interior(m.spec_tile(q))
}

/// Every room of the map is a detected room.
pub open spec fn rooms_ok(m: &LevelMap) -> bool {
    forall|i: int| 0 <= i < m.rooms@.len() ==> room_ok(m, #[trigger] m.rooms@[i])
}

/// `q` is marked in the seen layer.
pub open spec fn marked_seen(m: &LevelMap, seen: Seq<bool>, q: Point) -> bool {
    m.spec_in_bounds(q) && seen[m.spec_idx(q)]
}

/// The state of a fill from `p`: the marks are the earlier marks plus what was
/// popped or is still on the stack, every such tile is a new tile of `p`'s
/// group, and nothing is counted twice.
pub open spec fn fill_inv(
    m: &LevelMap,
    base: Seq<bool>,
    seen: Seq<bool>,
    popped: Seq<Point>,
    stack: Seq<Point>,
    p: Point,
) -> bool {
    &&& seen.len() == m.width * m.height
    &&& base.len() == m.width * m.height
    &&& forall|q: Point| #[trigger] marked_seen(m, seen, q) <==> (marked_seen(m, base, q)
        || popped.contains(q) || stack.contains(q))
    &&& forall|q: Point| #[trigger] popped.contains(q) ==> !marked_seen(m, base, q) && linked(m, p, q)
    &&& forall|q: Point| #[trigger] stack.contains(q) ==> !marked_seen(m, base, q) && linked(m, p, q)
    &&& popped.no_duplicates()
    &&& stack.no_duplicates()
    &&& forall|i: int, j: int| 0 <= i < popped.len() && 0 <= j < stack.len() ==> popped[i] != stack[j]
    &&& count_true(seen) == count_true(base) + popped.len() + stack.len()
}

/// One call of `visit` from a popped tile `q` of the group keeps the fill's
/// state, only adds marks, and leaves `nb` marked when it is interior.
proof fn lemma_visit_keeps(
    m: &LevelMap,
    base: Seq<bool>,
    seen: Seq<bool>,
    seen2: Seq<bool>,
    popped: Seq<Point>,
    stack: Seq<Point>,
    stack2: Seq<Point>,
    p: Point,
    q: Point,
    nb: Point,
)
    requires
        m.wf(),
        fill_inv(m, base, seen, popped, stack, p),
        linked(m, p, q),
        adj4(q, nb),
        ({
            let cond = interior_at(m, nb) && !marked_seen(m, seen, nb);
            &&& seen2 == (if cond { seen.update(m.spec_idx(nb), true) } else { seen })
            &&& stack2 == (if cond { stack.push(nb) } else { stack })
            &&& cond ==> 0 <= m.spec_idx(nb) < seen.len()
        }),
    ensures
        fill_inv(m, base, seen2, popped, stack2, p),
        forall|r: Point| #[trigger] marked_seen(m, seen, r) ==> marked_seen(m, seen2, r),
        interior_at(m, nb) ==> marked_seen(m, seen2, nb),
        forall|r: Point| #[trigger] stack.contains(r) ==> stack2.contains(r),
        stack.len() <= stack2.len(),
        count_true(seen2) - stack2.len() == count_true(seen) - stack.len(),
{
    let cond = interior_at(m, nb) && !marked_seen(m, seen, nb);
    if cond {
        let k = m.spec_idx(nb);
        lemma_count_true_set(seen, k);
        assert forall|r: Point| #[trigger] marked_seen(m, seen2, r) <==> (marked_seen(m, seen, r) || r == nb) by {
            if m.spec_in_bounds(r) {
                lemma_idx_in_range(m, r);
                if r != nb {
                    lemma_idx_injective(m, r, nb);
                }
            }
        }
        assert forall|r: Point| #[trigger] stack2.contains(r) <==> (stack.contains(r) || r == nb) by {
            if stack2.contains(r) {
                let j = choose|j: int| 0 <= j < stack2.len() && stack2[j] == r;
                if j < stack.len() {
                    assert(stack[j] == r);
                }
            }
            if stack.contains(r) {
                let j = choose|j: int| 0 <= j < stack.len() && stack[j] == r;
                assert(stack2[j] == r);
            }
            if r == nb {
                assert(stack2[stack.len() as int] == nb);
            }
        }
        assert(!marked_seen(m, base, nb));
        lemma_linked_step(m, p, q, nb);
        assert(!stack.contains(nb));
        assert(!popped.contains(nb));
        assert(stack2.no_duplicates()) by {
            assert forall|i: int, j: int| 0 <= i < stack2.len() && 0 <= j < stack2.len() && i != j
                implies stack2[i] != stack2[j] by {
                if i < stack.len() && j < stack.len() {
                } else if i < stack.len() {
                    assert(stack.contains(stack2[i]));
                } else if j < stack.len() {
                    assert(stack.contains(stack2[j]));
                }
            }
        }
        assert forall|i: int, j: int| 0 <= i < popped.len() && 0 <= j < stack2.len()
            implies popped[i] != stack2[j] by {
            if j == stack.len() {
                assert(popped.contains(popped[i]));
            }
        }
    } else {
        assert(seen2 == seen);
        assert(stack2 == stack);
    }
}

/// Moving the top of the stack onto the popped list keeps the fill's state.
proof fn lemma_pop_keeps(
    m: &LevelMap,
    base: Seq<bool>,
    seen: Seq<bool>,
    popped: Seq<Point>,
    st: Seq<Point>,
    p: Point,
)
    requires
        fill_inv(m, base, seen, popped, st, p),
        st.len() > 0,
    ensures
        fill_inv(m, base, seen, popped.push(st.last()), st.drop_last(), p),
        forall|r: Point| #[trigger] popped.push(st.last()).contains(r) <==> (popped.contains(r) || r == st.last()),
        forall|r: Point| #[trigger] st.contains(r) <==> (st.drop_last().contains(r) || r == st.last()),
        linked(m, p, st.last()),
{
    let q = st.last();
    let pp = popped.push(q);
    let sd = st.drop_last();
    assert forall|r: Point| #[trigger] pp.contains(r) <==> (popped.contains(r) || r == q) by {
        if pp.contains(r) {
            let k = choose|k: int| 0 <= k < pp.len() && pp[k] == r;
            if k < popped.len() {
                assert(popped[k] == r);
            }
        }
        if popped.contains(r) {
            let k = choose|k: int| 0 <= k < popped.len() && popped[k] == r;
            assert(pp[k] == r);
        }
        if r == q {
            assert(pp[popped.len() as int] == q);
        }
    }
    assert forall|r: Point| #[trigger] st.contains(r) <==> (sd.contains(r) || r == q) by {
        if st.contains(r) {
            let k = choose|k: int| 0 <= k < st.len() && st[k] == r;
            if k < st.len() - 1 {
                assert(sd[k] == r);
            }
        }
        if sd.contains(r) {
            let k = choose|k: int| 0 <= k < sd.len() && sd[k] == r;
            assert(st[k] == r);
        }
        if r == q {
            assert(st[st.len() - 1] == q);
        }
    }
    assert(!popped.contains(q)) by {
        if popped.contains(q) {
            let k = choose|k: int| 0 <= k < popped.len() && popped[k] == q;
            assert(popped[k] != st[st.len() - 1]);
        }
    }
    assert(!sd.contains(q)) by {
        if sd.contains(q) {
            let k = choose|k: int| 0 <= k < sd.len() && sd[k] == q;
            assert(st[k] == q);
            assert(st[st.len() - 1] == q);
        }
    }
    assert(pp.no_duplicates()) by {
        assert forall|a: int, b: int| 0 <= a < pp.len() && 0 <= b < pp.len() && a != b
            implies pp[a] != pp[b] by {
            if a < popped.len() && b < popped.len() {
                assert(pp[a] == popped[a]);
                assert(pp[b] == popped[b]);
            } else if a < popped.len() {
                assert(pp[a] == popped[a]);
                assert(popped.contains(pp[a]));
            } else {
                assert(pp[b] == popped[b]);
                assert(popped.contains(pp[b]));
            }
        }
    }
    assert(sd.no_duplicates()) by {
        assert forall|a: int, b: int| 0 <= a < sd.len() && 0 <= b < sd.len() && a != b
            implies sd[a] != sd[b] by {
            assert(sd[a] == st[a]);
            assert(sd[b] == st[b]);
        }
    }
    assert forall|a: int, b: int| 0 <= a < pp.len() && 0 <= b < sd.len()
        implies pp[a] != sd[b] by {
        assert(sd[b] == st[b]);
        if a < popped.len() {
            assert(pp[a] == popped[a]);
        } else {
            assert(sd.contains(sd[b]));
        }
    }
    assert(st.contains(q));
    assert forall|r: Point| #[trigger] marked_seen(m, seen, r) <==> (marked_seen(m, base, r)
        || pp.contains(r) || sd.contains(r)) by {
        assert(st.contains(r) <==> (sd.contains(r) || r == q));
        assert(pp.contains(r) <==> (popped.contains(r) || r == q));
    }
    assert forall|r: Point| #[trigger] pp.contains(r) implies !marked_seen(m, base, r) && linked(m, p, r) by {
        if r == q {
            assert(st.contains(r));
        } else {
            assert(popped.contains(r));
        }
    }
    assert forall|r: Point| #[trigger] sd.contains(r) implies !marked_seen(m, base, r) && linked(m, p, r) by {
        assert(st.contains(r));
    }
    assert(count_true(seen) == count_true(base) + pp.len() + sd.len());
}

/// Push `nb` onto the flood-fill stack, marking it seen, if it is an unseen
/// interior tile inside the map.
fn visit(map: &LevelMap, seen: &mut Vec<bool>, stack: &mut Vec<Point>, nb: Point)
    requires
        map.wf(),
        old(seen)@.len() == map.width * map.height,
    ensures
        ({
            let cond = interior_at(map, nb) && !marked_seen(map, old(seen)@, nb);
            &&& final(seen)@ == (if cond { old(seen)@.update(map.spec_idx(nb), true) } else { old(seen)@ })
            &&& final(stack)@ == (if cond { old(stack)@.push(nb) } else { old(stack)@ })
            &&& cond ==> 0 <= map.spec_idx(nb) < old(seen)@.len()
        }),
{
    if map.in_bounds(nb) {
        proof {
            lemma_idx_in_range(map, nb);
        }
        let ni = map.idx(nb);
        if !seen[ni] && is_interior(map.tile(nb)) {
            seen.set(ni, true);
            stack.push(nb);
        }
    }
}

/// Every cell of a chain is linked to its first cell.
proof fn lemma_chain_prefix_linked(m: &LevelMap, s: Seq<Point>, k: int)
    requires
        interior_chain(m, s),
        0 <= k < s.len(),
    ensures
        linked(m, s[0], s[k]),
    decreases k,
{
    if k == 0 {
        lemma_linked_refl(m, s[0]);
    } else {
        lemma_chain_prefix_linked(m, s, k - 1);
        lemma_linked_step(m, s[0], s[k - 1], s[k]);
    }
}

/// When the fill is done, every tile linked to the seed has been reached.
proof fn lemma_flood_complete(
    m: &LevelMap,
    base: Seq<bool>,
    seen: Seq<bool>,
    popped: Seq<Point>,
    p: Point,
    y: int,
    x: int,
)
    requires
        forall|q: Point| #[trigger] marked_seen(m, base, q) <==> claimed(m, y, x, q),
        !claimed(m, y, x, p),
        forall|q: Point| #[trigger] marked_seen(m, seen, q) <==> (marked_seen(m, base, q) || popped.contains(q)),
        forall|a: Point, b: Point|
            #![trigger popped.contains(a), adj4(a, b)]
            popped.contains(a) && adj4(a, b) && interior_at(m, b) ==> marked_seen(m, seen, b),
        popped.contains(p),
    ensures
        forall|r: Point| linked(m, p, r) ==> popped.contains(r),
{
    assert forall|r: Point| linked(m, p, r) implies popped.contains(r) by {
        let s = choose|s: Seq<Point>| #[trigger] interior_chain(m, s) && s[0] == p && s.last() == r;
        lemma_chain_popped(m, base, seen, popped, p, y, x, s, s.len() - 1);
    }
}

proof fn lemma_chain_popped(
    m: &LevelMap,
    base: Seq<bool>,
    seen: Seq<bool>,
    popped: Seq<Point>,
    p: Point,
    y: int,
    x: int,
    s: Seq<Point>,
    k: int,
)
    requires
        forall|q: Point| #[trigger] marked_seen(m, base, q) <==> claimed(m, y, x, q),
        !claimed(m, y, x, p),
        forall|q: Point| #[trigger] marked_seen(m, seen, q) <==> (marked_seen(m, base, q) || popped.contains(q)),
        forall|a: Point, b: Point|
            #![trigger popped.contains(a), adj4(a, b)]
            popped.contains(a) && adj4(a, b) && interior_at(m, b) ==> marked_seen(m, seen, b),
        popped.contains(p),
        interior_chain(m, s),
        s[0] == p,
        0 <= k < s.len(),
    ensures
        popped.contains(s[k]),
    decreases k,
{
    if k > 0 {
        lemma_chain_popped(m, base, seen, popped, p, y, x, s, k - 1);
        let a = s[k - 1];
        let b = s[k];
        assert(adj4(a, b));
        assert(interior_at(m, b));
        assert(marked_seen(m, seen, b));
        if marked_seen(m, base, b) {
            assert(claimed(m, y, x, b));
            let e = choose|e: Point| #![trigger linked(m, e, b)] interior_at(m, e) && before(e, y, x) && linked(m, e, b);
            lemma_chain_prefix_linked(m, s, k);
            lemma_linked_sym(m, p, b);
            lemma_linked_trans(m, e, b, p);
            assert(claimed(m, y, x, p));
        }
    }
}

/// Fill the rook-connected group of interior tiles around the unseen seed `p`,
/// marking it seen. Returns the group's size (or at least 4, when it is big)
/// and its bounding box.
#[verifier::rlimit(40)]
fn flood(map: &LevelMap, seen: &mut Vec<bool>, p: Point, y: Ghost<int>, x: Ghost<int>) -> (r: (usize, i32, i32, i32, i32))
    requires
        map.wf(),
        old(seen)@.len() == map.width * map.height,
        forall|q: Point| #[trigger] marked_seen(map, old(seen)@, q) <==> claimed(map, y@, x@, q),
        interior_at(map, p),
        !marked_seen(map, old(seen)@, p),
    ensures
        final(seen)@.len() == old(seen)@.len(),
        forall|q: Point| #[trigger] marked_seen(map, final(seen)@, q) <==> (claimed(map, y@, x@, q) || linked(map, p, q)),
        (r.0 >= 4) == big_group(map, p),
        is_min_x(map, p, r.1 as int),
        is_min_y(map, p, r.2 as int),
        is_max_x(map, p, r.3 as int),
        is_max_y(map, p, r.4 as int),
        0 <= r.1 <= p.x <= r.3 < map.width,
        0 <= r.2 <= p.y <= r.4 < map.height,
{
    let ghost base = seen@;
    let ghost n = seen@.len();
    let ghost mut popped: Seq<Point> = Seq::empty();
    proof {
        lemma_idx_in_range(map, p);
        lemma_linked_refl(map, p);
    }
    let i = map.idx(p);
    let mut stack: Vec<Point> = Vec::new();
    stack.push(p);
    proof {
        lemma_count_true_set(seen@, i as int);
    }
    seen.set(i, true);
    let mut min_x = p.x;
    let mut min_y = p.y;
    let mut max_x = p.x;
    let mut max_y = p.y;
    let mut count: usize = 0;
    proof {
        assert forall|q: Point| #[trigger] marked_seen(map, seen@, q) <==> (marked_seen(map, base, q)
            || popped.contains(q) || stack@.contains(q)) by {
            if map.spec_in_bounds(q) {
                lemma_idx_in_range(map, q);
                if q != p {
                    lemma_idx_injective(map, q, p);
                }
            }
            if q == p {
                assert(stack@[0] == p);
            }
        }
        assert(stack@[0] == p);
        assert(stack@.contains(p));
        lemma_count_true_le(seen@);
        assert(fill_inv(map, base, seen@, popped, stack@, p));
    }
    while stack.len() > 0
        invariant
            map.wf(),
            n == map.width * map.height,
            seen@.len() == n,
            forall|q: Point| #[trigger] marked_seen(map, base, q) <==> claimed(map, y@, x@, q),
            interior_at(map, p),
            !claimed(map, y@, x@, p),
            fill_inv(map, base, seen@, popped, stack@, p),
            forall|a: Point, b: Point|
                #![trigger popped.contains(a), adj4(a, b)]
                popped.contains(a) && adj4(a, b) && interior_at(map, b) ==> marked_seen(map, seen@, b),
            popped.contains(p) || stack@.contains(p),
            forall|a: Point| #[trigger] popped.contains(a) ==> min_x <= a.x <= max_x && min_y <= a.y <= max_y,
            min_x <= p.x <= max_x && min_y <= p.y <= max_y,
            p.x == min_x || exists|a: Point| #[trigger] popped.contains(a) && a.x == min_x,
            p.x == max_x || exists|a: Point| #[trigger] popped.contains(a) && a.x == max_x,
            p.y == min_y || exists|a: Point| #[trigger] popped.contains(a) && a.y == min_y,
            p.y == max_y || exists|a: Point| #[trigger] popped.contains(a) && a.y == max_y,
            count == popped.len(),
            count_true(seen@) <= n,
        decreases 2 * (n - count_true(seen@)) + stack@.len(),
    {
        let ghost st = stack@;
        let ghost seen0 = seen@;
        let ghost popped0 = popped;
        let q = stack.pop().unwrap();
        proof {
            assert(q == st.last());
            assert(stack@ =~= st.drop_last());
            lemma_pop_keeps(map, base, seen@, popped0, st, p);
            popped = popped.push(q);
            assert(fill_inv(map, base, seen@, popped, stack@, p));
            assert(linked(map, p, q));
            lemma_linked_ends(map, p, q);
        }
        count = count + 1;
        let ghost (mx0, my0, Mx0, My0) = (min_x, min_y, max_x, max_y);
        min_x = min_i32(min_x, q.x);
        min_y = min_i32(min_y, q.y);
        max_x = max_i32(max_x, q.x);
        max_y = max_i32(max_y, q.y);
        let ghost s1 = seen@;
        let ghost k1 = stack@;
        let n1 = Point::new(q.x + 1, q.y);
        visit(map, seen, &mut stack, n1);
        proof {
            lemma_visit_keeps(map, base, s1, seen@, popped, k1, stack@, p, q, n1);
        }
        let ghost s2 = seen@;
        let ghost k2 = stack@;
        let n2 = Point::new(q.x - 1, q.y);
        visit(map, seen, &mut stack, n2);
        proof {
            lemma_visit_keeps(map, base, s2, seen@, popped, k2, stack@, p, q, n2);
        }
        let ghost s3 = seen@;
        let ghost k3 = stack@;
        let n3 = Point::new(q.x, q.y + 1);
        visit(map, seen, &mut stack, n3);
        proof {
            lemma_visit_keeps(map, base, s3, seen@, popped, k3, stack@, p, q, n3);
        }
        let ghost s4 = seen@;
        let ghost k4 = stack@;
        let n4 = Point::new(q.x, q.y - 1);
        visit(map, seen, &mut stack, n4);
        proof {
            lemma_visit_keeps(map, base, s4, seen@, popped, k4, stack@, p, q, n4);
            lemma_count_true_le(seen@);
            assert forall|a: Point, b: Point|
                #![trigger popped.contains(a), adj4(a, b)]
                popped.contains(a) && adj4(a, b) && interior_at(map, b) implies marked_seen(map, seen@, b) by {
                if a == q {
                    if b.x == q.x + 1 {
                        assert(b == n1);
                    } else if b.x == q.x - 1 {
                        assert(b == n2);
                    } else if b.y == q.y + 1 {
                        assert(b == n3);
                    } else {
                        assert(b == n4);
                    }
                } else {
                    assert(popped0.contains(a));
                    assert(marked_seen(map, seen0, b));
                    assert(marked_seen(map, s2, b));
                    assert(marked_seen(map, s3, b));
                    assert(marked_seen(map, s4, b));
                }
            }
            assert(popped.contains(p) || stack@.contains(p)) by {
                if stack@.contains(p) {
                } else if p == q {
                    assert(popped.contains(q));
                } else if popped0.contains(p) {
                    assert(popped.contains(p));
                } else {
                    assert(st.contains(p));
                    assert(k1.contains(p));
                }
            }
            assert forall|a: Point| #[trigger] popped.contains(a) implies min_x <= a.x <= max_x && min_y <= a.y <= max_y by {
                if a != q {
                    assert(popped0.contains(a));
                }
            }
            assert(popped.contains(q));
            if p.x != min_x {
                if q.x == min_x {
                } else {
                    let w = choose|a: Point| #[trigger] popped0.contains(a) && a.x == mx0;
                    assert(popped.contains(w));
                }
            }
            if p.x != max_x {
                if q.x == max_x {
                } else {
                    let w = choose|a: Point| #[trigger] popped0.contains(a) && a.x == Mx0;
                    assert(popped.contains(w));
                }
            }
            if p.y != min_y {
                if q.y == min_y {
                } else {
                    let w = choose|a: Point| #[trigger] popped0.contains(a) && a.y == my0;
                    assert(popped.contains(w));
                }
            }
            if p.y != max_y {
                if q.y == max_y {
                } else {
                    let w = choose|a: Point| #[trigger] popped0.contains(a) && a.y == My0;
                    assert(popped.contains(w));
                }
            }
        }
    }
    proof {
        assert(stack@.len() == 0);
        assert forall|q: Point| #[trigger] marked_seen(map, seen@, q) <==> (marked_seen(map, base, q) || popped.contains(q)) by {
            if stack@.contains(q) {
                let k = choose|k: int| 0 <= k < stack@.len() && stack@[k] == q;
            }
        }
        assert(popped.contains(p)) by {
            if stack@.contains(p) {
                let k = choose|k: int| 0 <= k < stack@.len() && stack@[k] == p;
            }
        }
        lemma_flood_complete(map, base, seen@, popped, p, y@, x@);
        assert forall|q: Point| #[trigger] marked_seen(map, seen@, q) <==> (claimed(map, y@, x@, q) || linked(map, p, q)) by {
            if linked(map, p, q) {
                assert(popped.contains(q));
            }
        }
        assert forall|q: Point| linked(map, p, q) implies min_x <= q.x <= max_x && min_y <= q.y <= max_y by {
            assert(popped.contains(q));
        }
        if p.x != min_x {
            let w = choose|a: Point| #[trigger] popped.contains(a) && a.x == min_x;
            assert(linked(map, p, w));
            lemma_linked_ends(map, p, w);
        } else {
            assert(linked(map, p, p));
        }
        if p.x != max_x {
            let w = choose|a: Point| #[trigger] popped.contains(a) && a.x == max_x;
            assert(linked(map, p, w));
            lemma_linked_ends(map, p, w);
        } else {
            assert(linked(map, p, p));
        }
        if p.y != min_y {
            let w = choose|a: Point| #[trigger] popped.contains(a) && a.y == min_y;
            assert(linked(map, p, w));
            lemma_linked_ends(map, p, w);
        } else {
            assert(linked(map, p, p));
        }
        if p.y != max_y {
            let w = choose|a: Point| #[trigger] popped.contains(a) && a.y == max_y;
            assert(linked(map, p, w));
            lemma_linked_ends(map, p, w);
        } else {
            assert(linked(map, p, p));
        }
        if count >= 4 {
            if !big_group(map, p) {
                let c = choose|c: Seq<Point>| #![trigger c.len()] c.len() <= 3 && forall|q: Point| linked(map, p, q) ==> c.contains(q);
                assert(popped.to_set().subset_of(c.to_set())) by {
                    assert forall|q: Point| popped.to_set().contains(q) implies c.to_set().contains(q) by {
                        assert(popped.contains(q));
                        assert(linked(map, p, q));
                        assert(c.contains(q));
                    }
                }
                popped.unique_seq_to_set();
                c.lemma_cardinality_of_set();
                vstd::seq_lib::seq_to_set_is_finite(c);
                vstd::set_lib::lemma_len_subset(popped.to_set(), c.to_set());
            }
        } else {
            assert(popped.len() <= 3);
            assert(forall|q: Point| linked(map, p, q) ==> popped.contains(q));
        }
    }
    (count, min_x, min_y, max_x, max_y)
}

fn min_i32(a: i32, b: i32) -> (r: i32)
    ensures
        r == if a <= b { a } else { b },
{
    if a <= b { a } else { b }
}

fn max_i32(a: i32, b: i32) -> (r: i32)
    ensures
        r == if a >= b { a } else { b },
{
    if a >= b { a } else { b }
}

/// The bounds of a group are unique.
proof fn lemma_box_unique(m: &LevelMap, p: Point, a: int, b: int, c: int, d: int)
    requires
        is_min_x(m, p, a),
        is_min_y(m, p, b),
        is_max_x(m, p, c),
        is_max_y(m, p, d),
    ensures
        group_box(m, p) == (a, b, c, d),
{
    let a2 = choose|v: int| is_min_x(m, p, v);
    let b2 = choose|v: int| is_min_y(m, p, v);
    let c2 = choose|v: int| is_max_x(m, p, v);
    let d2 = choose|v: int| is_max_y(m, p, v);
    let qa = choose|q: Point| #![trigger linked(m, p, q)] linked(m, p, q) && q.x == a;
    let qa2 = choose|q: Point| #![trigger linked(m, p, q)] linked(m, p, q) && q.x == a2;
    let qb = choose|q: Point| #![trigger linked(m, p, q)] linked(m, p, q) && q.y == b;
    let qb2 = choose|q: Point| #![trigger linked(m, p, q)] linked(m, p, q) && q.y == b2;
    let qc = choose|q: Point| #![trigger linked(m, p, q)] linked(m, p, q) && q.x == c;
    let qc2 = choose|q: Point| #![trigger linked(m, p, q)] linked(m, p, q) && q.x == c2;
    let qd = choose|q: Point| #![trigger linked(m, p, q)] linked(m, p, q) && q.y == d;
    let qd2 = choose|q: Point| #![trigger linked(m, p, q)] linked(m, p, q) && q.y == d2;
    assert(a == a2);
    assert(b == b2);
    assert(c == c2);
    assert(d == d2);
}

/// Passing a tile that is no seed leaves the claimed tiles as they were.
proof fn lemma_claimed_skip(m: &LevelMap, y: int, x: int, p: Point)
    requires
        p.x == x,
        p.y == y,
        !interior_at(m, p) || claimed(m, y, x, p),
    ensures
        forall|q: Point| #[trigger] claimed(m, y, x + 1, q) <==> claimed(m, y, x, q),
{
    assert forall|q: Point| #[trigger] claimed(m, y, x + 1, q) implies claimed(m, y, x, q) by {
        let e = choose|e: Point| #![trigger linked(m, e, q)] interior_at(m, e) && before(e, y, x + 1) && linked(m, e, q);
        if e == p {
            let f = choose|f: Point| #![trigger linked(m, f, p)] interior_at(m, f) && before(f, y, x) && linked(m, f, p);
            lemma_linked_trans(m, f, p, q);
        }
    }
    assert forall|q: Point| #[trigger] claimed(m, y, x, q) implies claimed(m, y, x + 1, q) by {
        let e = choose|e: Point| #![trigger linked(m, e, q)] interior_at(m, e) && before(e, y, x) && linked(m, e, q);
        assert(before(e, y, x + 1));
    }
}

/// Passing a seed claims its whole group.
proof fn lemma_claimed_seed(m: &LevelMap, y: int, x: int, p: Point)
    requires
        p.x == x,
        p.y == y,
        interior_at(m, p),
    ensures
        forall|q: Point| #[trigger] claimed(m, y, x + 1, q) <==> (claimed(m, y, x, q) || linked(m, p, q)),
{
    assert forall|q: Point| #[trigger] claimed(m, y, x + 1, q) implies claimed(m, y, x, q) || linked(m, p, q) by {
        let e = choose|e: Point| #![trigger linked(m, e, q)] interior_at(m, e) && before(e, y, x + 1) && linked(m, e, q);
        if e != p {
            assert(before(e, y, x));
        }
    }
    assert forall|q: Point| claimed(m, y, x, q) || linked(m, p, q) implies #[trigger] claimed(m, y, x + 1, q) by {
        if claimed(m, y, x, q) {
            let e = choose|e: Point| #![trigger linked(m, e, q)] interior_at(m, e) && before(e, y, x) && linked(m, e, q);
            assert(before(e, y, x + 1));
        } else {
            assert(before(p, y, x + 1));
        }
    }
}

/// The end of a row is the start of the next.
proof fn lemma_claimed_row(m: &LevelMap, y: int)
    ensures
        forall|q: Point| #[trigger] claimed(m, y + 1, 0, q) <==> claimed(m, y, m.width as int, q),
{
    assert forall|q: Point| #[trigger] claimed(m, y + 1, 0, q) implies claimed(m, y, m.width as int, q) by {
        let e = choose|e: Point| #![trigger linked(m, e, q)] interior_at(m, e) && before(e, y + 1, 0) && linked(m, e, q);
        assert(before(e, y, m.width as int));
    }
    assert forall|q: Point| #[trigger] claimed(m, y, m.width as int, q) implies claimed(m, y + 1, 0, q) by {
        let e = choose|e: Point| #![trigger linked(m, e, q)] interior_at(m, e) && before(e, y, m.width as int) && linked(m, e, q);
        assert(before(e, y + 1, 0));
    }
}

/// Detect room rectangles (walls included) from a fixed map by flood-filling
/// connected interior tiles (floor / stairs / traps) and taking each
/// component's bounding box expanded by one to include the wall ring. Doors and
/// corridors break components, so adjacent rooms stay distinct. Components of
/// fewer than four tiles are ignored.
#[verifier::rlimit(30)]
fn detect_rooms(map: &LevelMap) -> (rooms: Vec<Rect>)
    requires
        map.wf(),
    ensures
        rooms@ == detected_rooms(map),
        forall|i: int| 0 <= i < rooms@.len() ==> room_ok(map, #[trigger] rooms@[i]),
{
    proof {
        assert(map.width * map.height >= 0) by (nonlinear_arith)
            requires map.width >= 0, map.height >= 0;
    }
    let n = (map.width * map.height) as usize;
    let mut seen: Vec<bool> = vec![false; n];
    let mut rooms: Vec<Rect> = Vec::new();
    let mut y: i32 = 0;
    proof {
        assert forall|q: Point| #[trigger] marked_seen(map, seen@, q) <==> claimed(map, 0, 0, q) by {
            if map.spec_in_bounds(q) {
                lemma_idx_in_range(map, q);
            }
            if claimed(map, 0, 0, q) {
                let e = choose|e: Point| #![trigger linked(map, e, q)] interior_at(map, e) && before(e, 0, 0) && linked(map, e, q);
            }
        }
        assert(rooms@ == rooms_upto(map, 0) + row_rooms(map, 0, 0));
    }
    while y < map.height
        invariant
            map.wf(),
            0 <= y <= map.height,
            n == map.width * map.height,
            seen@.len() == n,
            forall|q: Point| #[trigger] marked_seen(map, seen@, q) <==> claimed(map, y as int, 0, q),
            rooms@ == rooms_upto(map, y as int),
            forall|i: int| 0 <= i < rooms@.len() ==> room_ok(map, #[trigger] rooms@[i]),
        decreases map.height - y,
    {
        let mut x: i32 = 0;
        proof {
            assert(rooms@ == rooms_upto(map, y as int) + row_rooms(map, y as int, 0));
        }
        while x < map.width
            invariant
                map.wf(),
                0 <= y < map.height,
                0 <= x <= map.width,
                n == map.width * map.height,
                seen@.len() == n,
                forall|q: Point| #[trigger] marked_seen(map, seen@, q) <==> claimed(map, y as int, x as int, q),
                rooms@ == rooms_upto(map, y as int) + row_rooms(map, y as int, x as int),
                forall|i: int| 0 <= i < rooms@.len() ==> room_ok(map, #[trigger] rooms@[i]),
            decreases map.width - x,
        {
            let p = Point::new(x, y);
            proof {
                lemma_idx_in_range(map, p);
            }
            let i = map.idx(p);
            let ghost prev = rooms@;
            if !seen[i] && is_interior(map.tile(p)) {
                proof {
                    assert(!marked_seen(map, seen@, p));
                }
                let (count, min_x, min_y, max_x, max_y) = flood(map, &mut seen, p, Ghost(y as int), Ghost(x as int));
                proof {
                    lemma_claimed_seed(map, y as int, x as int, p);
                    lemma_box_unique(map, p, min_x as int, min_y as int, max_x as int, max_y as int);
                }
                if count >= 4 {
                    let rx = max_i32(min_x - 1, 0);
                    let ry = max_i32(min_y - 1, 0);
                    let rw = if max_x + 1 < map.width { max_x + 2 - rx } else { map.width - rx };
                    let rh = if max_y + 1 < map.height { max_y + 2 - ry } else { map.height - ry };
                    let r = Rect::new(rx, ry, rw, rh);
                    assert(r.spec_contains(p) && spec_is_interior(map.spec_tile(p)));
                    assert(r == room_rect(map, p));
                    rooms.push(r);
                }
                proof {
                    assert(room_seed(map, p) == (count >= 4));
                }
            } else {
                proof {
                    if seen@[i as int] {
                        assert(marked_seen(map, seen@, p));
                    } else {
                        assert(!spec_is_interior(map.spec_tile(p)));
                    }
                    lemma_claimed_skip(map, y as int, x as int, p);
                    assert(!room_seed(map, p));
                }
            }
            proof {
                assert(p == Point { x: ((x + 1) - 1) as i32, y: y as i32 });
                assert(rooms@ == rooms_upto(map, y as int) + row_rooms(map, y as int, x + 1));
            }
            x = x + 1;
        }
        proof {
            lemma_claimed_row(map, y as int);
        }
        y = y + 1;
    }
    rooms
}

} // verus!
