//! Platform-neutral framebuffer.
//!
//! The game renders into a [`FrameBuffer`] each tick; the active frontend then
//! blits it to the actual display.

use vstd::prelude::*;
use crate::geometry::half_toward_zero;
use crate::text::chars_of;

verus! {

/// Width of the screen, in cells, that text is centred on.
pub const SCREEN_WIDTH: i32 = 80;

/// A colour as `(r, g, b)`.
pub type Rgb = (u8, u8, u8);

/// A single terminal-style cell.
#[derive(Debug, Clone, Copy, PartialEq, Eq)]
pub struct Cell {
    /// Unicode glyph to display (used when `cp437` is `None`).
    pub glyph: char,
    /// Optional raw CP437 code point (takes precedence over `glyph` when set).
    pub cp437: Option<u16>,
    /// Foreground color `(r, g, b)`.
    pub fg: (u8, u8, u8),
    /// Background color `(r, g, b)`.
    pub bg: (u8, u8, u8),
}

/// A blank cell on the given background.
pub open spec fn blank_cell(bg: Rgb) -> Cell {
    Cell { glyph: ' ', cp437: None, fg: (0, 0, 0), bg }
}

/// A cell showing a Unicode glyph.
pub open spec fn glyph_cell(glyph: char, fg: Rgb, bg: Rgb) -> Cell {
    Cell { glyph, cp437: None, fg, bg }
}

impl Cell {
    fn blank(bg: (u8, u8, u8)) -> (c: Self)
        ensures
            c == blank_cell(bg),
    {
        Self { glyph: ' ', cp437: None, fg: (0, 0, 0), bg }
    }
}

/// Full-screen cell grid produced by a single game tick.
pub struct FrameBuffer {
    pub width: i32,
    pub height: i32,
    pub cells: Vec<Cell>,
    /// Set to `true` when the game requests that the application exit.
    pub wants_quit: bool,
}

impl FrameBuffer {
    /// One cell per screen position, row by row.
    pub open spec fn wf(&self) -> bool {
        &&& self.width >= 0
        &&& self.height >= 0
        &&& self.width * self.height <= i32::MAX
        &&& self.cells@.len() == self.width * self.height
    }

    pub open spec fn spec_in_bounds(&self, x: int, y: int) -> bool {
        0 <= x < self.width && 0 <= y < self.height
    }

    /// The cell shown at `(x, y)`.
    pub open spec fn cell_at(&self, x: int, y: int) -> Cell {
        self.cells@[y * self.width + x]
    }

    /// Same size and quit request as `other`.
    pub open spec fn same_frame(&self, other: &FrameBuffer) -> bool {
        &&& self.width == other.width
        &&& self.height == other.height
        &&& self.wants_quit == other.wants_quit
    }

    pub fn new(width: i32, height: i32) -> (fb: Self)
        requires
            width >= 0,
            height >= 0,
            width * height <= i32::MAX,
        ensures
            fb.wf(),
            fb.width == width,
            fb.height == height,
            !fb.wants_quit,
            forall|x: int, y: int| fb.spec_in_bounds(x, y) ==> #[trigger] fb.cell_at(x, y) == blank_cell((0, 0, 0)),
    {
        proof {
            assert(width * height >= 0) by (nonlinear_arith)
                requires width >= 0, height >= 0;
        }
        let bg = (0u8, 0u8, 0u8);
        let fb = Self {
            width,
            height,
            cells: vec![Cell::blank(bg); (width * height) as usize],
            wants_quit: false,
        };
        proof {
            assert forall|x: int, y: int| fb.spec_in_bounds(x, y) implies #[trigger] fb.cell_at(x, y) == blank_cell((0, 0, 0)) by {
                lemma_cell_index(&fb, x, y);
            }
        }
        fb
    }

    fn idx(&self, x: i32, y: i32) -> (r: Option<usize>)
        requires
            self.wf(),
        ensures
            r == (if self.spec_in_bounds(x as int, y as int) { Some((y * self.width + x) as usize) } else { None }),
            r matches Some(i) ==> i < self.cells@.len() && i == y * self.width + x,
    {
        if x < 0 || y < 0 || x >= self.width || y >= self.height {
            return None;
        }
        proof {
            lemma_cell_index(self, x as int, y as int);
        }
        Some((y * self.width + x) as usize)
    }

    /// Fill all cells with the given background color.
    pub fn clear(&mut self, bg: (u8, u8, u8))
        requires
            old(self).wf(),
        ensures
            final(self).wf(),
            final(self).same_frame(old(self)),
            forall|x: int, y: int| final(self).spec_in_bounds(x, y) ==> #[trigger] final(self).cell_at(x, y) == blank_cell(bg),
    {
        let n = self.cells.len();
        let mut i: usize = 0;
        while i < n
            invariant
                i <= n,
                n == self.cells@.len(),
                self.wf(),
                self.same_frame(old(self)),
                forall|k: int| 0 <= k < i ==> self.cells@[k] == blank_cell(bg),
            decreases n - i,
        {
            self.cells.set(i, Cell::blank(bg));
            i = i + 1;
        }
        proof {
            assert forall|x: int, y: int| self.spec_in_bounds(x, y) implies #[trigger] self.cell_at(x, y) == blank_cell(bg) by {
                lemma_cell_index(self, x, y);
            }
        }
    }

    /// Write one cell, if `(x, y)` is on screen.
    fn put(&mut self, x: i32, y: i32, c: Cell)
        requires
            old(self).wf(),
        ensures
            final(self).wf(),
            final(self).same_frame(old(self)),
            forall|px: int, py: int| final(self).spec_in_bounds(px, py) ==>
                #[trigger] final(self).cell_at(px, py) == (if px == x && py == y { c } else { old(self).cell_at(px, py) }),
    {
        if let Some(i) = self.idx(x, y) {
            self.cells.set(i, c);
            proof {
                assert forall|px: int, py: int| self.spec_in_bounds(px, py) implies
                    #[trigger] self.cell_at(px, py) == (if px == x && py == y { c } else { old(self).cell_at(px, py) }) by {
                    lemma_cell_index(self, px, py);
                    if px != x || py != y {
                        lemma_cell_index_injective(self, px, py, x as int, y as int);
                    }
                }
            }
        }
    }

    /// Place a Unicode glyph at `(x, y)`.
    pub fn set(&mut self, x: i32, y: i32, fg: (u8, u8, u8), bg: (u8, u8, u8), glyph: char)
        requires
            old(self).wf(),
        ensures
            final(self).wf(),
            final(self).same_frame(old(self)),
            forall|px: int, py: int| final(self).spec_in_bounds(px, py) ==>
                #[trigger] final(self).cell_at(px, py) == (if px == x && py == y { glyph_cell(glyph, fg, bg) } else { old(self).cell_at(px, py) }),
    {
        self.put(x, y, Cell { glyph, cp437: None, fg, bg });
    }

    /// Place a raw CP437 code point at `(x, y)`.
    pub fn set_raw(&mut self, x: i32, y: i32, fg: (u8, u8, u8), bg: (u8, u8, u8), cp437: u16)
        requires
            old(self).wf(),
        ensures
            final(self).wf(),
            final(self).same_frame(old(self)),
            forall|px: int, py: int| final(self).spec_in_bounds(px, py) ==>
                #[trigger] final(self).cell_at(px, py) == (if px == x && py == y {
                    Cell { glyph: ' ', cp437: Some(cp437), fg, bg }
                } else {
                    old(self).cell_at(px, py)
                }),
    {
        self.put(x, y, Cell { glyph: ' ', cp437: Some(cp437), fg, bg });
    }

    /// Print a string starting at `(x, y)`; characters that fall off screen are dropped.
    pub fn print(&mut self, x: i32, y: i32, fg: (u8, u8, u8), bg: (u8, u8, u8), text: &str)
        requires
            old(self).wf(),
            text@.len() <= i32::MAX,
            x + text@.len() <= i32::MAX,
        ensures
            final(self).wf(),
            final(self).same_frame(old(self)),
            forall|px: int, py: int| final(self).spec_in_bounds(px, py) ==>
                #[trigger] final(self).cell_at(px, py) == (if py == y && x <= px < x + text@.len() {
                    glyph_cell(text@[px - x], fg, bg)
                } else {
                    old(self).cell_at(px, py)
                }),
    {
        let chars = chars_of(text);
        let mut i: usize = 0;
        while i < chars.len()
            invariant
                i <= chars@.len(),
                chars@ == text@,
                text@.len() <= i32::MAX,
                x + text@.len() <= i32::MAX,
                self.wf(),
                self.same_frame(old(self)),
                forall|px: int, py: int| self.spec_in_bounds(px, py) ==>
                    #[trigger] self.cell_at(px, py) == (if py == y && x <= px < x + i {
                        glyph_cell(text@[px - x], fg, bg)
                    } else {
                        old(self).cell_at(px, py)
                    }),
            decreases chars@.len() - i,
        {
            self.set(x + i as i32, y, fg, bg, chars[i]);
            i = i + 1;
        }
    }

    /// Print a string centered on row `y` of the screen.
    pub fn print_centered(&mut self, y: i32, fg: (u8, u8, u8), bg: (u8, u8, u8), text: &str)
        requires
            old(self).wf(),
            text@.len() + 40 <= i32::MAX,
        ensures
            final(self).wf(),
            final(self).same_frame(old(self)),
            forall|px: int, py: int| final(self).spec_in_bounds(px, py) ==>
                #[trigger] final(self).cell_at(px, py) == ({
                    let x = centred_x(text@.len() as int);
                    if py == y && x <= px < x + text@.len() {
                        glyph_cell(text@[px - x], fg, bg)
                    } else {
                        old(self).cell_at(px, py)
                    }
                }),
    {
        let n = chars_of(text).len();
        let x = (SCREEN_WIDTH - n as i32) / 2;
        let x = if x > 0 { x } else { 0 };
        self.print(x, y, fg, bg, text);
    }

    /// Draw a border box. `w` and `h` are the outer dimensions (including border).
    pub fn draw_box(&mut self, x: i32, y: i32, w: i32, h: i32, fg: (u8, u8, u8), bg: (u8, u8, u8))
        requires
            old(self).wf(),
            x < i32::MAX,
            y < i32::MAX,
            i32::MIN < x + w <= i32::MAX,
            i32::MIN < y + h <= i32::MAX,
        ensures
            final(self).wf(),
            final(self).same_frame(old(self)),
            forall|px: int, py: int| final(self).spec_in_bounds(px, py) ==>
                #[trigger] final(self).cell_at(px, py) == (match box_glyph(x as int, y as int, w as int, h as int, px, py) {
                    Some(g) => glyph_cell(g, fg, bg),
                    None => old(self).cell_at(px, py),
                }),
    {
        // Corners
        self.set(x, y, fg, bg, '\u{250C}');
        self.set(x + w - 1, y, fg, bg, '\u{2510}');
        self.set(x, y + h - 1, fg, bg, '\u{2514}');
        self.set(x + w - 1, y + h - 1, fg, bg, '\u{2518}');
        let ghost cornered = *self;
        proof {
            assert forall|px: int, py: int| self.spec_in_bounds(px, py) implies
                #[trigger] self.cell_at(px, py) == (match corner_glyph(x as int, y as int, w as int, h as int, px, py) {
                    Some(g) => glyph_cell(g, fg, bg),
                    None => old(self).cell_at(px, py),
                }) by {}
        }
        // Horizontal edges
        let mut cx = x + 1;
        while cx < x + w - 1
            invariant
                x + 1 <= cx,
                cx <= x + w - 1 || cx == x + 1,
                i32::MIN < x + w <= i32::MAX,
                i32::MIN < y + h <= i32::MAX,
                self.wf(),
                self.same_frame(&cornered),
                cornered.wf(),
                forall|px: int, py: int| self.spec_in_bounds(px, py) ==>
                    #[trigger] self.cell_at(px, py) == (if x < px < cx && (py == y || py == y + h - 1) {
                        glyph_cell('\u{2500}', fg, bg)
                    } else {
                        cornered.cell_at(px, py)
                    }),
            decreases x + w - 1 - cx,
        {
            self.set(cx, y, fg, bg, '\u{2500}');
            self.set(cx, y + h - 1, fg, bg, '\u{2500}');
            cx = cx + 1;
        }
        let ghost edged = *self;
        // Vertical edges
        let mut cy = y + 1;
        while cy < y + h - 1
            invariant
                y + 1 <= cy,
                cy <= y + h - 1 || cy == y + 1,
                i32::MIN < x + w <= i32::MAX,
                i32::MIN < y + h <= i32::MAX,
                self.wf(),
                self.same_frame(&edged),
                edged.wf(),
                forall|px: int, py: int| self.spec_in_bounds(px, py) ==>
                    #[trigger] self.cell_at(px, py) == (if y < py < cy && (px == x || px == x + w - 1) {
                        glyph_cell('\u{2502}', fg, bg)
                    } else {
                        edged.cell_at(px, py)
                    }),
            decreases y + h - 1 - cy,
        {
            self.set(x, cy, fg, bg, '\u{2502}');
            self.set(x + w - 1, cy, fg, bg, '\u{2502}');
            cy = cy + 1;
        }
        proof {
            assert forall|px: int, py: int| self.spec_in_bounds(px, py) implies
                #[trigger] self.cell_at(px, py) == (match box_glyph(x as int, y as int, w as int, h as int, px, py) {
                    Some(g) => glyph_cell(g, fg, bg),
                    None => old(self).cell_at(px, py),
                }) by {
                assert(self.cell_at(px, py) == (if y < py < cy && (px == x || px == x + w - 1) {
                    glyph_cell('\u{2502}', fg, bg)
                } else {
                    edged.cell_at(px, py)
                }));
                assert(edged.cell_at(px, py) == (if x < px < cx && (py == y || py == y + h - 1) {
                    glyph_cell('\u{2500}', fg, bg)
                } else {
                    cornered.cell_at(px, py)
                }));
            }
        }
    }
}

/// Column at which `print_centered` starts a text of `len` characters.
pub open spec fn centred_x(len: int) -> int {
    let x = half_toward_zero(SCREEN_WIDTH - len);
    if x > 0 { x } else { 0 }
}

/// The corner glyph `draw_box` leaves at `(px, py)`; later corners win where
/// corners coincide.
pub open spec fn corner_glyph(x: int, y: int, w: int, h: int, px: int, py: int) -> Option<char> {
    if px == x + w - 1 && py == y + h - 1 {
        Some('\u{2518}')
    } else if px == x && py == y + h - 1 {
        Some('\u{2514}')
    } else if px == x + w - 1 && py == y {
        Some('\u{2510}')
    } else if px == x && py == y {
        Some('\u{250C}')
    } else {
        None
    }
}

/// The glyph `draw_box` leaves at `(px, py)`, if it draws there.
pub open spec fn box_glyph(x: int, y: int, w: int, h: int, px: int, py: int) -> Option<char> {
    if corner_glyph(x, y, w, h, px, py) is Some {
        corner_glyph(x, y, w, h, px, py)
    } else if x < px < x + w - 1 && (py == y || py == y + h - 1) {
        Some('\u{2500}')
    } else if y < py < y + h - 1 && (px == x || px == x + w - 1) {
        Some('\u{2502}')
    } else {
        None
    }
}

/// An on-screen position's index lies inside the cell grid.
pub proof fn lemma_cell_index(fb: &FrameBuffer, x: int, y: int)
    requires
        fb.wf(),
        fb.spec_in_bounds(x, y),
    ensures
        0 <= y * fb.width + x < fb.width * fb.height,
{
    assert(0 <= y * fb.width + x < fb.width * fb.height) by (nonlinear_arith)
        requires 0 <= x < fb.width, 0 <= y < fb.height;
}

/// Distinct on-screen positions have distinct indices.
pub proof fn lemma_cell_index_injective(fb: &FrameBuffer, x1: int, y1: int, x2: int, y2: int)
    requires
        fb.wf(),
        fb.spec_in_bounds(x1, y1),
        fb.spec_in_bounds(x2, y2),
        x1 != x2 || y1 != y2,
    ensures
        y1 * fb.width + x1 != y2 * fb.width + x2,
{
    if y1 < y2 {
        assert(y1 * fb.width + x1 < y2 * fb.width + x2) by (nonlinear_arith)
            requires y1 < y2, 0 <= x1 < fb.width, 0 <= x2;
    } else if y2 < y1 {
        assert(y2 * fb.width + x2 < y1 * fb.width + x1) by (nonlinear_arith)
            requires y2 < y1, 0 <= x2 < fb.width, 0 <= x1;
    }
}

} // verus!
