//! Visual color themes for the terminal renderer.
//!
//! The **classic** theme uses the classic multi-color palette. The **amber**
//! and **green** themes mimic vintage CRT phosphor monitors by converting every
//! color to a single tinted hue while preserving relative luminance. The
//! **boxy** theme uses CP437 box-drawing characters for room walls,
//! middle-dot floors, and light-shade passage tiles.

use vstd::prelude::*;
use crate::text::{chars_equal, lemma_lower_idempotent, lower_seq, lowercase_chars};

verus! {

/// Whether to use standard ASCII glyphs or CP437 box-drawing glyphs.
#[derive(Clone, Copy, Debug, PartialEq, Eq, Structural)]
pub enum GlyphStyle {
    /// Standard Rogue glyphs: `@`, `#`, `.`, `+`, `>`, etc.
    Ascii,
    /// CP437 box-drawing for walls, `·` floors, `░` passages, `☺` player.
    Boxy,
}

/// A rendering color theme.
#[derive(Clone, Copy, Debug)]
pub struct Theme {
    /// `None` → classic multi-colour mode.
    /// `Some(tint)` → monochrome: every color is mapped to `luminance * tint`.
    tint: Option<(u8, u8, u8)>,
    /// Controls tile and player glyph selection.
    pub glyph_style: GlyphStyle,
}

/// The theme a (case-insensitive) name selects; unknown names give the classic theme.
pub open spec fn theme_for(name: Seq<char>) -> (Option<(u8, u8, u8)>, GlyphStyle) {
    let n = lower_seq(name);
    if n == "amber"@ {
        (Some((255u8, 180u8, 60u8)), GlyphStyle::Ascii)
    } else if n == "green"@ {
        (Some((80u8, 255u8, 80u8)), GlyphStyle::Ascii)
    } else if n == "boxy"@ {
        (None, GlyphStyle::Boxy)
    } else {
        (None, GlyphStyle::Ascii)
    }
}

/// Theme names are case-insensitive: a name and its lower-cased form select
/// the same theme.
pub proof fn lemma_theme_name_case(name: Seq<char>)
    ensures
        theme_for(lower_seq(name)) == theme_for(name),
{
    lemma_lower_idempotent(name);
}

impl Theme {
    /// The monochrome tint, if any.
    pub closed spec fn tint_of(&self) -> Option<(u8, u8, u8)> {
        self.tint
    }

    /// The glyph style.
    pub closed spec fn style_of(&self) -> GlyphStyle {
        self.glyph_style
    }

    /// The monochrome tint (`None` in multi-colour mode).
    pub fn tint(&self) -> (t: Option<(u8, u8, u8)>)
        ensures
            t == self.tint_of(),
    {
        self.tint
    }

    /// Original multi-color palette (default).
    pub fn classic() -> (t: Self)
        ensures
            t.tint_of() is None,
            t.style_of() == GlyphStyle::Ascii,
    {
        Self { tint: None, glyph_style: GlyphStyle::Ascii }
    }

    /// Amber phosphor CRT — everything tinted warm amber.
    pub fn amber() -> (t: Self)
        ensures
            t.tint_of() == Some((255u8, 180u8, 60u8)),
            t.style_of() == GlyphStyle::Ascii,
    {
        Self { tint: Some((255, 180, 60)), glyph_style: GlyphStyle::Ascii }
    }

    /// Green phosphor CRT — everything tinted green.
    pub fn green() -> (t: Self)
        ensures
            t.tint_of() == Some((80u8, 255u8, 80u8)),
            t.style_of() == GlyphStyle::Ascii,
    {
        Self { tint: Some((80, 255, 80)), glyph_style: GlyphStyle::Ascii }
    }

    /// PC/IBM style: CP437 box-drawing walls, green dot floors, gray passages.
    pub fn boxy() -> (t: Self)
        ensures
            t.tint_of() is None,
            t.style_of() == GlyphStyle::Boxy,
    {
        Self { tint: None, glyph_style: GlyphStyle::Boxy }
    }

    /// Look up a theme by name (case-insensitive); unknown names fall back to classic.
    pub fn from_name(name: &str) -> (t: Self)
        ensures
            (t.tint_of(), t.style_of()) == theme_for(name@),
    {
        let n = lowercase_chars(name);
        if chars_equal(&n, "amber") {
            Self::amber()
        } else if chars_equal(&n, "green") {
            Self::green()
        } else if chars_equal(&n, "boxy") {
            Self::boxy()
        } else {
            Self::classic()
        }
    }

    /// Returns `true` when CP437 box-drawing glyphs should be used.
    pub fn use_boxy(&self) -> (b: bool)
        ensures
            b == (self.style_of() == GlyphStyle::Boxy),
    {
        self.glyph_style == GlyphStyle::Boxy
    }
}

} // verus!
