//! Glyphs and colours the terminal renderer draws tiles and items with.

use vstd::prelude::*;
use crate::cli::components::{Item, ItemKind, Renderable};
use crate::map::TileKind;

verus! {

/// Glyph and colour of a map tile.
pub open spec fn tile_look(t: TileKind) -> (char, (u8, u8, u8)) {
    match t {
        TileKind::Empty => (' ', (0u8, 0u8, 0u8)),
        TileKind::Floor => ('.', (120u8, 120u8, 120u8)),
        TileKind::Wall => ('#', (140u8, 110u8, 80u8)),
        TileKind::Passage => ('#', (90u8, 90u8, 90u8)),
        TileKind::Door => ('+', (160u8, 120u8, 60u8)),
        TileKind::StairsDown => ('>', (255u8, 255u8, 255u8)),
        TileKind::StairsUp => ('<', (255u8, 255u8, 255u8)),
        TileKind::Trap => ('^', (255u8, 80u8, 80u8)),
    }
}

pub fn tile_render(t: TileKind) -> (r: (char, (u8, u8, u8)))
    ensures
        r == tile_look(t),
{
    match t {
        TileKind::Empty => (' ', (0, 0, 0)),
        TileKind::Floor => ('.', (120, 120, 120)),
        TileKind::Wall => ('#', (140, 110, 80)),
        TileKind::Passage => ('#', (90, 90, 90)),
        TileKind::Door => ('+', (160, 120, 60)),
        TileKind::StairsDown => ('>', (255, 255, 255)),
        TileKind::StairsUp => ('<', (255, 255, 255)),
        TileKind::Trap => ('^', (255, 80, 80)),
    }
}

/// Glyph and colour of an item lying on the floor.
pub open spec fn item_look(kind: ItemKind) -> (char, (u8, u8, u8)) {
    match kind {
        ItemKind::Heal(_) => ('!', (255u8, 0u8, 255u8)),
        ItemKind::Potion(_) => ('!', (255u8, 0u8, 255u8)),
        ItemKind::Food => (':', (200u8, 160u8, 80u8)),
        ItemKind::Weapon { .. } => (')', (180u8, 180u8, 220u8)),
        ItemKind::Armor(_) => ('[', (150u8, 150u8, 200u8)),
        ItemKind::Amulet => ('&', (255u8, 255u8, 0u8)),
        ItemKind::Scroll(_) => ('?', (230u8, 230u8, 180u8)),
        ItemKind::Ring(_) => ('=', (200u8, 180u8, 60u8)),
        ItemKind::Wand { .. } => ('/', (160u8, 220u8, 255u8)),
        ItemKind::Trinket => ('?', (120u8, 200u8, 120u8)),
    }
}

pub fn item_render(item: &Item) -> (r: Renderable)
    ensures
        (r.glyph, r.color) == item_look(item.kind),
{
    let (glyph, color) = match item.kind {
        ItemKind::Heal(_) => ('!', (255, 0, 255)),
        ItemKind::Potion(_) => ('!', (255, 0, 255)),
        ItemKind::Food => (':', (200, 160, 80)),
        ItemKind::Weapon { .. } => (')', (180, 180, 220)),
        ItemKind::Armor(_) => ('[', (150, 150, 200)),
        ItemKind::Amulet => ('&', (255, 255, 0)),
        ItemKind::Scroll(_) => ('?', (230, 230, 180)),
        ItemKind::Ring(_) => ('=', (200, 180, 60)),
        ItemKind::Wand { .. } => ('/', (160, 220, 255)),
        ItemKind::Trinket => ('?', (120, 200, 120)),
    };
    Renderable { glyph, color }
}

/// A colour channel dimmed to 55%.
pub open spec fn dim_channel(v: u8) -> u8 {
    (v as int * 55 / 100) as u8
}

/// A remembered-but-unseen colour: each channel dimmed to 55%.
pub fn dim(c: (u8, u8, u8)) -> (r: (u8, u8, u8))
    ensures
        r == (dim_channel(c.0), dim_channel(c.1), dim_channel(c.2)),
{
    (
        (c.0 as u16 * 55 / 100) as u8,
        (c.1 as u16 * 55 / 100) as u8,
        (c.2 as u16 * 55 / 100) as u8,
    )
}

} // verus!
