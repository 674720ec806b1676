//! The help screen: a centred, opaque panel listing the keys.

use vstd::prelude::*;
use crate::engine::framebuffer::{Cell, FrameBuffer, box_glyph, glyph_cell};
use crate::geometry::half_toward_zero;
use crate::text::chars_of;

verus! {

/// Rows of the terminal screen.
pub const HELP_SCREEN_HEIGHT: i32 = 28;

/// The colours the help panel is drawn in: body text, the title, the footer
/// and the background.
#[derive(Debug, Clone, Copy)]
pub struct HelpColors {
    pub fg: (u8, u8, u8),
    pub header: (u8, u8, u8),
    pub dim: (u8, u8, u8),
    pub bg: (u8, u8, u8),
}

/// The lines of the help panel.
pub open spec fn help_text() -> Seq<Seq<char>> {
    seq![
        "Movement"@,
        "  h j k l        left / down / up / right"@,
        "  y u b n        diagonals"@,
        "  arrows / numpad also work"@,
        ""@,
        "Actions"@,
        "  .              wait one turn"@,
        "  >              descend stairs (Shift + .)"@,
        "  g              pick up item"@,
        "  q              quaff potion"@,
        "  e              eat food"@,
        "  r              read scroll"@,
        "  p              put on ring"@,
        "  Shift+R        remove ring"@,
        "  i              view inventory"@,
        "  s              search for secret doors"@,
        "  t              throw item"@,
        ""@,
        "Other"@,
        "  ?              show / hide this help"@,
        "  m              view message log"@,
        "  A              toggle autopilot (a bot plays for you)"@,
        "  Tab            auto-explore (move to nearest unseen tile)"@,
        "  Esc            quit"@,
    ]
}

/// The panel's title.
pub open spec fn help_title() -> Seq<char> {
    "HELP"@
}

/// The panel's footer.
pub open spec fn help_footer() -> Seq<char> {
    "Press any key to return to the game."@
}

/// Length of the longest of the first `k` lines.
pub open spec fn longest(lines: Seq<Seq<char>>, k: int) -> int
    decreases k,
{
    if k <= 0 {
        0
    } else {
        let m = longest(lines, k - 1);
        if lines[k - 1].len() > m { lines[k - 1].len() as int } else { m }
    }
}

/// Width of the panel: the longest line plus two cells of padding each side.
pub open spec fn help_width() -> int {
    longest(help_text(), 24) + 4
}

/// Height of the panel: title, blank, the lines and the footer.
pub open spec fn help_height() -> int {
    28int
}

/// Left edge of the centred panel.
pub open spec fn help_x0() -> int {
    half_toward_zero(80 - help_width())
}

/// Top edge of the centred panel.
pub open spec fn help_y0() -> int {
    half_toward_zero(HELP_SCREEN_HEIGHT - help_height())
}

/// `text` written from `x` on row `y`, at `(px, py)`, if it covers that cell.
pub open spec fn text_at(text: Seq<char>, x: int, y: int, px: int, py: int, fg: (u8, u8, u8), bg: (u8, u8, u8)) -> Option<Cell> {
    if py == y && x <= px < x + text.len() {
        Some(glyph_cell(text[px - x], fg, bg))
    } else {
        None
    }
}

/// The help line (if any) covering `(px, py)`, among the first `k`.
pub open spec fn line_at(k: int, px: int, py: int, c: HelpColors) -> Option<Cell> {
    let tx = help_x0() + 2;
    let i = py - help_y0() - 3;
    if 0 <= i < k {
        text_at(help_text()[i], tx, py, px, py, c.fg, c.bg)
    } else {
        None
    }
}

/// What the panel puts at `(px, py)` once the first `k` lines are written
/// (the footer, drawn last, only when `footer`): nothing outside the panel.
pub open spec fn panel_cell(k: int, footer: bool, px: int, py: int, c: HelpColors) -> Option<Cell> {
    let x0 = help_x0();
    let y0 = help_y0();
    let w = help_width();
    let h = help_height();
    let tx = x0 + 2;
    if footer && text_at(help_footer(), tx, y0 + h - 2, px, py, c.dim, c.bg) is Some {
        text_at(help_footer(), tx, y0 + h - 2, px, py, c.dim, c.bg)
    } else if line_at(k, px, py, c) is Some {
        line_at(k, px, py, c)
    } else if text_at(help_title(), tx, y0 + 1, px, py, c.header, c.bg) is Some {
        text_at(help_title(), tx, y0 + 1, px, py, c.header, c.bg)
    } else if box_glyph(x0, y0, w, h, px, py) is Some {
        Some(glyph_cell(box_glyph(x0, y0, w, h, px, py)->0, c.fg, c.bg))
    } else if x0 <= px < x0 + w && y0 <= py < y0 + h {
        Some(glyph_cell(' ', c.fg, c.bg))
    } else {
        None
    }
}

/// Every help line is short.
proof fn lemma_help_short()
    ensures
        forall|i: int| 0 <= i < 24 ==> (#[trigger] help_text()[i]).len() <= 100,
{
    reveal_strlit("Movement");
    reveal_strlit("  h j k l        left / down / up / right");
    reveal_strlit("  y u b n        diagonals");
    reveal_strlit("  arrows / numpad also work");
    reveal_strlit("");
    reveal_strlit("Actions");
    reveal_strlit("  .              wait one turn");
    reveal_strlit("  >              descend stairs (Shift + .)");
    reveal_strlit("  g              pick up item");
    reveal_strlit("  q              quaff potion");
    reveal_strlit("  e              eat food");
    reveal_strlit("  r              read scroll");
    reveal_strlit("  p              put on ring");
    reveal_strlit("  Shift+R        remove ring");
    reveal_strlit("  i              view inventory");
    reveal_strlit("  s              search for secret doors");
    reveal_strlit("  t              throw item");
    reveal_strlit("");
    reveal_strlit("Other");
    reveal_strlit("  ?              show / hide this help");
    reveal_strlit("  m              view message log");
    reveal_strlit("  A              toggle autopilot (a bot plays for you)");
    reveal_strlit("  Tab            auto-explore (move to nearest unseen tile)");
    reveal_strlit("  Esc            quit");
}

/// The help lines, in order.
fn help_lines() -> (v: Vec<&'static str>)
    ensures
        v@.len() == 24,
        forall|i: int| 0 <= i < 24 ==> (#[trigger] v@[i])@ == help_text()[i],
{
    let mut v: Vec<&'static str> = Vec::new();
    v.push("Movement");
    v.push("  h j k l        left / down / up / right");
    v.push("  y u b n        diagonals");
    v.push("  arrows / numpad also work");
    v.push("");
    v.push("Actions");
    v.push("  .              wait one turn");
    v.push("  >              descend stairs (Shift + .)");
    v.push("  g              pick up item");
    v.push("  q              quaff potion");
    v.push("  e              eat food");
    v.push("  r              read scroll");
    v.push("  p              put on ring");
    v.push("  Shift+R        remove ring");
    v.push("  i              view inventory");
    v.push("  s              search for secret doors");
    v.push("  t              throw item");
    v.push("");
    v.push("Other");
    v.push("  ?              show / hide this help");
    v.push("  m              view message log");
    v.push("  A              toggle autopilot (a bot plays for you)");
    v.push("  Tab            auto-explore (move to nearest unseen tile)");
    v.push("  Esc            quit");
    v
}

/// Draw the help screen: a centred panel, as wide as the longest line plus
/// padding, filled with blanks in the body colours, framed by a box, with the
/// title, the lines and the footer. Cells outside the panel are untouched.
pub fn draw_help(fb: &mut FrameBuffer, c: HelpColors)
    requires
        old(fb).wf(),
        old(fb).width == 80,
        old(fb).height == HELP_SCREEN_HEIGHT,
    ensures
        final(fb).wf(),
        final(fb).same_frame(old(fb)),
        forall|px: int, py: int| final(fb).spec_in_bounds(px, py) ==>
            #[trigger] final(fb).cell_at(px, py) == (match panel_cell(24, true, px, py, c) {
                Some(cell) => cell,
                None => old(fb).cell_at(px, py),
            }),
{
    let lines = help_lines();
    let mut inner_w: usize = 0;
    let mut k: usize = 0;
    while k < 24
        invariant
            lines@.len() == 24,
            forall|i: int| 0 <= i < 24 ==> (#[trigger] lines@[i])@ == help_text()[i],
            k <= 24,
            inner_w == longest(help_text(), k as int),
            inner_w <= 100,
        decreases 24 - k,
    {
        let n = chars_of(lines[k]).len();
        proof {
            lemma_help_short();
            assert(help_text()[k as int].len() <= 100);
        }
        if n > inner_w {
            inner_w = n;
        }
        k = k + 1;
    }
    let box_w = inner_w as i32 + 4;
    let box_h: i32 = 24 + 4;
    let x0 = (80 - box_w) / 2;
    let y0 = (HELP_SCREEN_HEIGHT - box_h) / 2;
    let tx = x0 + 2;
    let ghost start = *fb;
    // Fill the panel so the map never shows through.
    let mut y = y0;
    while y < y0 + box_h
        invariant
            fb.wf(),
            fb.same_frame(&start),
            y0 <= y <= y0 + box_h,
            x0 == help_x0(),
            y0 == help_y0(),
            box_w == help_width(),
            box_h == help_height(),
            -30 <= x0 <= 40,
            forall|px: int, py: int| fb.spec_in_bounds(px, py) ==>
                #[trigger] fb.cell_at(px, py) == (if x0 <= px < x0 + box_w && y0 <= py < y {
                    glyph_cell(' ', c.fg, c.bg)
                } else {
                    start.cell_at(px, py)
                }),
        decreases y0 + box_h - y,
    {
        let mut x = x0;
        while x < x0 + box_w
            invariant
                fb.wf(),
                fb.same_frame(&start),
                y0 <= y < y0 + box_h,
                x0 <= x <= x0 + box_w,
                x0 == help_x0(),
                y0 == help_y0(),
                box_w == help_width(),
                box_h == help_height(),
                -30 <= x0 <= 40,
                forall|px: int, py: int| fb.spec_in_bounds(px, py) ==>
                    #[trigger] fb.cell_at(px, py) == (if x0 <= px < x0 + box_w && (y0 <= py < y || (py == y && px < x)) {
                        glyph_cell(' ', c.fg, c.bg)
                    } else {
                        start.cell_at(px, py)
                    }),
            decreases x0 + box_w - x,
        {
            fb.set(x, y, c.fg, c.bg, ' ');
            x = x + 1;
        }
        y = y + 1;
    }
    fb.draw_box(x0, y0, box_w, box_h, c.fg, c.bg);
    proof {
        reveal_strlit("HELP");
    }
    fb.print(tx, y0 + 1, c.header, c.bg, "HELP");
    let ghost titled = *fb;
    let mut i: usize = 0;
    while i < 24
        invariant
            fb.wf(),
            fb.same_frame(&start),
            lines@.len() == 24,
            forall|j: int| 0 <= j < 24 ==> (#[trigger] lines@[j])@ == help_text()[j],
            i <= 24,
            x0 == help_x0(),
            y0 == help_y0(),
            tx == x0 + 2,
            box_w == help_width(),
            box_h == help_height(),
            -30 <= x0 <= 40,
            forall|px: int, py: int| fb.spec_in_bounds(px, py) ==>
                #[trigger] fb.cell_at(px, py) == (match panel_cell(i as int, false, px, py, c) {
                    Some(cell) => cell,
                    None => start.cell_at(px, py),
                }),
        decreases 24 - i,
    {
        proof {
            lemma_help_short();
            assert(help_text()[i as int].len() <= 100);
        }
        fb.print(tx, y0 + 3 + i as i32, c.fg, c.bg, lines[i]);
        i = i + 1;
    }
    proof {
        reveal_strlit("Press any key to return to the game.");
    }
    fb.print(tx, y0 + box_h - 2, c.dim, c.bg, "Press any key to return to the game.");
}

} // verus!
