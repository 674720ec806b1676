//! What the game's screens say: the status bar, the hint line, how a map cell
//! looks, and the lines of the inventory, message-log and victory panels.

use vstd::prelude::*;
use crate::cli::components::{Item, ItemKind, RingKind, Stats, StatusEffects};
use crate::cli::items::{ring_label, ring_name};
use crate::cli::render::{dim, dim_channel, tile_look, tile_render};
use crate::cli::screens::PANEL_LINES;
use crate::cli::wands::text1;
use crate::geometry::Point;
use crate::map::{LevelMap, TileKind};
use crate::text::{chars_of, int_text, pad_right, push_char, push_int, push_nat_digits, push_padded_right, push_str};

verus! {

/// The hunger word on the status bar.
pub open spec fn hunger_label(food: int) -> Seq<char> {
    if food <= 0 {
        "Starving"@
    } else if food <= 150 {
        "Hungry"@
    } else {
        Seq::empty()
    }
}

/// `tag` when `on`, else nothing.
pub open spec fn flag_text(on: bool, tag: Seq<char>) -> Seq<char> {
    if on { tag } else { Seq::empty() }
}

/// A label followed by a number.
pub open spec fn field_text(label: Seq<char>, v: int) -> Seq<char> {
    label + int_text(v)
}

/// The numbers on the status bar: level, hit points, strength, armour, gold,
/// experience and depth.
pub open spec fn numbers_text(s: Stats, gold: i32, depth: i32) -> Seq<char> {
    field_text("Level:"@, s.level as int) + field_text("  HP:"@, s.hp as int) + field_text("/"@, s.max_hp as int)
        + field_text("  Str:"@, s.strength as int) + field_text("  Arm:"@, s.armor as int) + field_text(
        "  Gold:"@,
        gold as int,
    ) + field_text("  Exp:"@, s.xp_reward as int) + field_text("  Depth:"@, depth as int)
}

/// The status bar below the map: the numbers, how hungry the player is, the
/// autopilot mark, and a tag for each status effect in force.
pub open spec fn status_text(s: Stats, gold: i32, depth: i32, food: i32, autopilot: bool, st: StatusEffects) -> Seq<char> {
    numbers_text(s, gold, depth) + "  "@ + hunger_label(food as int) + flag_text(autopilot, "  [AUTO]"@) + flag_text(
        st.confused > 0,
        "[CONF]"@,
    ) + flag_text(st.blind > 0, "[BLND]"@) + flag_text(st.poisoned > 0, "[PSND]"@) + flag_text(
        st.paralyzed > 0,
        "[PARA]"@,
    ) + flag_text(st.haste > 0, "[HSTE]"@)
}

/// Append `tag` when `on`.
fn push_flag(line: &mut String, on: bool, tag: &str)
    ensures
        final(line)@ == old(line)@ + flag_text(on, tag@),
{
    if on {
        push_str(line, tag);
    } else {
        assert(line@ =~= old(line)@ + flag_text(on, tag@));
    }
}

/// Append a label and a number.
fn push_field(line: &mut String, label: &str, v: i32)
    ensures
        final(line)@ == old(line)@ + field_text(label@, v as int),
{
    let ghost start = line@;
    push_str(line, label);
    push_int(line, v as i64);
    assert(line@ =~= start + field_text(label@, v as int));
}

fn numbers_line(s: &Stats, gold: i32, depth: i32) -> (line: String)
    ensures
        line@ == numbers_text(*s, gold, depth),
{
    let mut line = String::new();
    push_field(&mut line, "Level:", s.level);
    assert(line@ =~= field_text("Level:"@, s.level as int));
    push_field(&mut line, "  HP:", s.hp);
    push_field(&mut line, "/", s.max_hp);
    push_field(&mut line, "  Str:", s.strength);
    push_field(&mut line, "  Arm:", s.armor);
    push_field(&mut line, "  Gold:", gold);
    push_field(&mut line, "  Exp:", s.xp_reward);
    push_field(&mut line, "  Depth:", depth);
    line
}

/// The status bar: the player's level, hit points, strength, armour, gold,
/// experience and depth, then how hungry they are, the autopilot mark and the
/// tags of the status effects in force.
pub fn status_line(s: &Stats, gold: i32, depth: i32, food: i32, autopilot: bool, st: &StatusEffects) -> (line: String)
    ensures
        line@ == status_text(*s, gold, depth, food, autopilot, *st),
{
    let mut line = numbers_line(s, gold, depth);
    push_str(&mut line, "  ");
    let ghost before_hunger = line@;
    if food <= 0 {
        push_str(&mut line, "Starving");
    } else if food <= 150 {
        push_str(&mut line, "Hungry");
    } else {
        assert(line@ =~= before_hunger + hunger_label(food as int));
    }
    push_flag(&mut line, autopilot, "  [AUTO]");
    push_flag(&mut line, st.confused > 0, "[CONF]");
    push_flag(&mut line, st.blind > 0, "[BLND]");
    push_flag(&mut line, st.poisoned > 0, "[PSND]");
    push_flag(&mut line, st.paralyzed > 0, "[PARA]");
    push_flag(&mut line, st.haste > 0, "[HSTE]");
    line
}

/// The prompt for what can be done where the player stands: the stairs, or an
/// item lying there (`item_here`: the first thing on the tile besides the
/// player is an item).
pub fn context_hint(m: &LevelMap, p: Point, item_here: bool) -> (r: Option<&'static str>)
    requires
        m.wf(),
    ensures
        (r is Some) == (m.spec_tile(p) == TileKind::StairsDown || item_here),
        r matches Some(s) ==> s@ == (if m.spec_tile(p) == TileKind::StairsDown {
            "You are on the stairs down. Press > to descend to the next level."@
        } else {
            "There is an item here. Press g to pick it up."@
        }),
{
    if m.tile(p) == TileKind::StairsDown {
        return Some("You are on the stairs down. Press > to descend to the next level.");
    }
    if item_here {
        return Some("There is an item here. Press g to pick it up.");
    }
    None
}

/// A colour dimmed to 55%, as remembered ground is drawn.
pub open spec fn dimmed(c: (u8, u8, u8)) -> (u8, u8, u8) {
    (dim_channel(c.0), dim_channel(c.1), dim_channel(c.2))
}

/// How a map cell is drawn: nothing where it was never seen, its tile's
/// glyph and colour where it is in view, the colour dimmed where it is only
/// remembered.
pub open spec fn cell_look(m: &LevelMap, p: Point) -> Option<(char, (u8, u8, u8))> {
    if !m.spec_is_revealed(p) {
        None
    } else {
        let (g, c) = tile_look(m.spec_tile(p));
        Some((g, if m.spec_is_visible(p) { c } else { dimmed(c) }))
    }
}

/// How the cell at `p` is drawn.
pub fn cell_appearance(m: &LevelMap, p: Point) -> (r: Option<(char, (u8, u8, u8))>)
    requires
        m.wf(),
    ensures
        r == cell_look(m, p),
{
    if !m.is_revealed(p) {
        return None;
    }
    let (glyph, color) = tile_render(m.tile(p));
    if m.is_visible(p) {
        Some((glyph, color))
    } else {
        Some((glyph, dim(color)))
    }
}

/// The kind of thing an item is, as the inventory names it.
pub open spec fn category(kind: ItemKind) -> Seq<char> {
    match kind {
        ItemKind::Heal(_) => "potion"@,
        ItemKind::Potion(_) => "potion"@,
        ItemKind::Scroll(_) => "scroll"@,
        ItemKind::Food => "food"@,
        ItemKind::Weapon { .. } => "weapon"@,
        ItemKind::Armor(_) => "armor"@,
        ItemKind::Amulet => "amulet"@,
        ItemKind::Ring(_) => "ring"@,
        ItemKind::Wand { .. } => "wand"@,
        ItemKind::Trinket => "trinket"@,
    }
}

fn category_name(kind: &ItemKind) -> (s: &'static str)
    ensures
        s@ == category(*kind),
{
    match kind {
        ItemKind::Heal(_) => "potion",
        ItemKind::Potion(_) => "potion",
        ItemKind::Scroll(_) => "scroll",
        ItemKind::Food => "food",
        ItemKind::Weapon { .. } => "weapon",
        ItemKind::Armor(_) => "armor",
        ItemKind::Amulet => "amulet",
        ItemKind::Ring(_) => "ring",
        ItemKind::Wand { .. } => "wand",
        ItemKind::Trinket => "trinket",
    }
}

/// The inventory line of the `i`th item: its letter, its name in a column
/// 36 wide, and its kind.
pub open spec fn inventory_line(i: int, it: Item) -> Seq<char> {
    seq![(97 + i) as char] + ")  "@ + pad_right(it.name@, 36) + " ["@ + category(it.kind) + "]"@
}

/// The line of one inventory item.
fn item_line(i: usize, it: &Item) -> (s: String)
    requires
        i < 159,
    ensures
        s@ == inventory_line(i as int, *it),
{
    let mut s = String::new();
    let letter = (97u8 + i as u8) as char;
    push_char(&mut s, letter);
    push_str(&mut s, ")  ");
    push_padded_right(&mut s, &it.name, 36);
    push_str(&mut s, " [");
    push_str(&mut s, category_name(&it.kind));
    push_str(&mut s, "]");
    assert(s@ =~= inventory_line(i as int, *it));
    s
}

/// The inventory panel's item lines, one per item in pack order.
pub fn inventory_lines(items: &[Item]) -> (v: Vec<String>)
    requires
        items@.len() <= 159,
    ensures
        v@.len() == items@.len(),
        forall|i: int| 0 <= i < items@.len() ==> (#[trigger] v@[i])@ == inventory_line(i, items@[i]),
{
    let mut v: Vec<String> = Vec::new();
    let mut i: usize = 0;
    while i < items.len()
        invariant
            items@.len() <= 159,
            i <= items@.len(),
            v@.len() == i,
            forall|j: int| 0 <= j < i ==> (#[trigger] v@[j])@ == inventory_line(j, items@[j]),
        decreases items@.len() - i,
    {
        v.push(item_line(i, &items[i]));
        i = i + 1;
    }
    v
}

/// What a ring slot shows.
pub open spec fn ring_slot_text(label: Seq<char>, ring: Option<RingKind>) -> Seq<char> {
    label + match ring {
        Some(k) => "ring of "@ + ring_label(k),
        None => "(none)"@,
    }
}

/// The inventory panel's ring-slot lines, left hand then right.
pub fn ring_lines(left: Option<RingKind>, right: Option<RingKind>) -> (v: (String, String))
    ensures
        v.0@ == ring_slot_text("  Left : "@, left),
        v.1@ == ring_slot_text("  Right: "@, right),
{
    (ring_slot(text1("  Left : "), left), ring_slot(text1("  Right: "), right))
}

fn ring_slot(label: String, ring: Option<RingKind>) -> (s: String)
    ensures
        s@ == ring_slot_text(label@, ring),
{
    let mut s = label;
    match ring {
        Some(k) => {
            push_str(&mut s, "ring of ");
            push_str(&mut s, ring_name(k));
        },
        None => {
            push_str(&mut s, "(none)");
        },
    }
    s
}

/// The longest message line the log panel shows, in characters.
pub const LOG_LINE_CHARS: usize = 55;

/// The first `n` characters of `s`, or all of it.
pub open spec fn clipped(s: Seq<char>, n: int) -> Seq<char> {
    if s.len() > n { s.take(n) } else { s }
}

/// Where the log panel starts in the newest-first list: the scroll offset,
/// kept on the last message.
pub open spec fn log_start(len: int, scroll: int) -> int {
    let last = if len > 0 { len - 1 } else { 0 };
    if scroll < last { scroll } else { last }
}

/// The log panel's lines: newest first, from the scroll offset on, at most a
/// panel's worth, each clipped to the panel's width.
pub open spec fn log_window_text(log: Seq<Seq<char>>, scroll: int) -> Seq<Seq<char>> {
    let start = log_start(log.len() as int, scroll);
    let count = if log.len() - start < PANEL_LINES { log.len() - start } else { PANEL_LINES as int };
    Seq::new(count as nat, |i: int| clipped(log[log.len() - 1 - (start + i)], LOG_LINE_CHARS as int))
}

fn clip(s: &String, n: usize) -> (r: String)
    ensures
        r@ == clipped(s@, n as int),
{
    let c = chars_of(s.as_str());
    let mut r = String::new();
    let mut i: usize = 0;
    while i < c.len() && i < n
        invariant
            c@ == s@,
            i <= c@.len(),
            i <= n,
            r@ == s@.take(i as int),
        decreases c@.len() - i,
    {
        push_char(&mut r, c[i]);
        i = i + 1;
        assert(r@ =~= s@.take(i as int));
    }
    assert(s@.take(s@.len() as int) =~= s@);
    r
}

/// The lines the message-log panel shows for a log and a scroll offset.
pub fn log_window(log: &Vec<String>, scroll: usize) -> (v: Vec<String>)
    ensures
        v@.len() == log_window_text(log@.map_values(|s: String| s@), scroll as int).len(),
        forall|i: int|
            0 <= i < v@.len() ==> (#[trigger] v@[i])@ == log_window_text(log@.map_values(|s: String| s@), scroll as int)[i],
{
    let ghost view = log@.map_values(|s: String| s@);
    let len = log.len();
    let last = if len > 0 { len - 1 } else { 0 };
    let start = if scroll < last { scroll } else { last };
    let count = if len - start < PANEL_LINES { len - start } else { PANEL_LINES };
    let mut v: Vec<String> = Vec::new();
    let mut i: usize = 0;
    while i < count
        invariant
            view == log@.map_values(|s: String| s@),
            len == log@.len(),
            start == log_start(len as int, scroll as int),
            start <= len,
            count == (if len - start < PANEL_LINES { len - start } else { PANEL_LINES as int }),
            i <= count,
            v@.len() == i,
            forall|j: int|
                0 <= j < i ==> (#[trigger] v@[j])@ == log_window_text(view, scroll as int)[j],
        decreases count - i,
    {
        let k = len - 1 - (start + i);
        v.push(clip(&log[k], LOG_LINE_CHARS));
        assert(view[k as int] == log@[k as int]@);
        i = i + 1;
    }
    v
}

/// The score summary of the victory panel.
pub open spec fn won_text(depth: i32, gold: i32, turns: u64, s: Stats) -> Seq<Seq<char>> {
    seq![
        "  Dungeon depth reached : "@ + int_text(depth as int),
        "  Gold collected        : "@ + int_text(gold as int),
        "  Turns taken           : "@ + int_text(turns as int),
        "  Character level      : "@ + int_text(s.level as int),
        "  Experience           : "@ + int_text(s.xp_reward as int),
    ]
}

fn labelled(label: &str, v: i64) -> (s: String)
    ensures
        s@ == label@ + int_text(v as int),
{
    let mut s = String::new();
    push_str(&mut s, label);
    push_int(&mut s, v);
    s
}

/// The victory panel's summary lines: depth reached, gold, turns, then the
/// character's level and experience.
pub fn won_lines(depth: i32, gold: i32, turns: u64, s: &Stats) -> (v: Vec<String>)
    ensures
        v@.len() == 5,
        forall|i: int| 0 <= i < 5 ==> (#[trigger] v@[i])@ == won_text(depth, gold, turns, *s)[i],
{
    let mut v: Vec<String> = Vec::new();
    v.push(labelled("  Dungeon depth reached : ", depth as i64));
    v.push(labelled("  Gold collected        : ", gold as i64));
    let mut t = text1("  Turns taken           : ");
    push_nat_digits(&mut t, turns);
    v.push(t);
    v.push(labelled("  Character level      : ", s.level as i64));
    v.push(labelled("  Experience           : ", s.xp_reward as i64));
    v
}

} // verus!
