use rogue::cli::help::{draw_help, HelpColors};
use rogue::engine::framebuffer::FrameBuffer;

fn row_text(fb: &FrameBuffer, y: i32, x: i32, n: usize) -> String {
    (0..n as i32).map(|i| fb.cells[(y * fb.width + x + i) as usize].glyph).collect()
}

#[test]
fn help_panel_is_centred_boxed_and_lists_the_keys() {
    let mut fb = FrameBuffer::new(80, 28);
    let c = HelpColors { fg: (200, 200, 200), header: (255, 220, 0), dim: (140, 140, 140), bg: (0, 0, 0) };
    draw_help(&mut fb, c);
    // The longest line is the auto-explore one.
    let longest = "  Tab            auto-explore (move to nearest unseen tile)".len() as i32;
    let w = longest + 4;
    let x0 = (80 - w) / 2;
    let tx = x0 + 2;
    let at = |x: i32, y: i32| fb.cells[(y * 80 + x) as usize];
    assert_eq!(at(x0, 0).glyph, '\u{250C}');
    assert_eq!(at(x0 + w - 1, 27).glyph, '\u{2518}');
    assert_eq!(row_text(&fb, 1, tx, 4), "HELP");
    assert_eq!(at(tx, 1).fg, (255, 220, 0));
    assert_eq!(row_text(&fb, 3, tx, 8), "Movement");
    assert_eq!(row_text(&fb, 25, tx, longest as usize), "  Tab            auto-explore (move to nearest unseen tile)");
    // The footer, drawn last, covers the last line's start.
    let footer = "Press any key to return to the game.";
    assert_eq!(row_text(&fb, 26, tx, footer.len()), footer);
    assert_eq!(at(tx, 26).fg, (140, 140, 140));
    // Inside the panel, untouched cells are blanks in the body colours.
    assert_eq!(at(x0 + 1, 2).glyph, ' ');
    assert_eq!(at(x0 + 1, 2).fg, (200, 200, 200));
    // Outside the panel nothing changes.
    assert_eq!(at(0, 5), FrameBuffer::new(80, 28).cells[5 * 80]);
}
