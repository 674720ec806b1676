use rogue::engine::action::GameAction;
use rogue::engine::framebuffer::{Cell, FrameBuffer};
use rogue::engine::theme::{GlyphStyle, Theme};

fn glyph_at(fb: &FrameBuffer, x: i32, y: i32) -> char {
    fb.cells[(y * fb.width + x) as usize].glyph
}

#[test]
fn new_framebuffer_is_blank() {
    let fb = FrameBuffer::new(4, 3);
    assert_eq!(fb.cells.len(), 12);
    assert!(!fb.wants_quit);
    assert!(fb.cells.iter().all(|c| *c == Cell { glyph: ' ', cp437: None, fg: (0, 0, 0), bg: (0, 0, 0) }));
}

#[test]
fn set_and_clear() {
    let mut fb = FrameBuffer::new(4, 3);
    fb.set(1, 2, (1, 2, 3), (4, 5, 6), 'x');
    assert_eq!(fb.cells[9], Cell { glyph: 'x', cp437: None, fg: (1, 2, 3), bg: (4, 5, 6) });
    fb.set(4, 0, (1, 1, 1), (1, 1, 1), 'y');
    fb.set(-1, 0, (1, 1, 1), (1, 1, 1), 'y');
    assert!(fb.cells.iter().all(|c| c.glyph != 'y'));
    fb.set_raw(0, 0, (9, 9, 9), (0, 0, 0), 219);
    assert_eq!(fb.cells[0].cp437, Some(219));
    assert_eq!(fb.cells[0].glyph, ' ');
    fb.clear((7, 7, 7));
    assert!(fb.cells.iter().all(|c| *c == Cell { glyph: ' ', cp437: None, fg: (0, 0, 0), bg: (7, 7, 7) }));
}

#[test]
fn print_clips_at_the_edges() {
    let mut fb = FrameBuffer::new(5, 2);
    fb.print(-2, 1, (1, 1, 1), (0, 0, 0), "abcdefgh");
    let row: String = (0..5).map(|x| glyph_at(&fb, x, 1)).collect();
    assert_eq!(row, "cdefg");
    let row0: String = (0..5).map(|x| glyph_at(&fb, x, 0)).collect();
    assert_eq!(row0, "     ");
}

#[test]
fn print_centered_on_the_screen_width() {
    let mut fb = FrameBuffer::new(80, 1);
    fb.print_centered(0, (1, 1, 1), (0, 0, 0), "hello");
    // (80 - 5) / 2 = 37
    assert_eq!(glyph_at(&fb, 36, 0), ' ');
    assert_eq!(glyph_at(&fb, 37, 0), 'h');
    assert_eq!(glyph_at(&fb, 41, 0), 'o');
    let long: String = std::iter::repeat('z').take(90).collect();
    fb.print_centered(0, (1, 1, 1), (0, 0, 0), &long);
    assert_eq!(glyph_at(&fb, 0, 0), 'z');
}

#[test]
fn draw_box_outlines_a_rectangle() {
    let mut fb = FrameBuffer::new(6, 4);
    fb.draw_box(1, 0, 4, 3, (1, 1, 1), (0, 0, 0));
    let rows: Vec<String> = (0..4).map(|y| (0..6).map(|x| glyph_at(&fb, x, y)).collect()).collect();
    assert_eq!(rows[0], " \u{250C}\u{2500}\u{2500}\u{2510} ");
    assert_eq!(rows[1], " \u{2502}  \u{2502} ");
    assert_eq!(rows[2], " \u{2514}\u{2500}\u{2500}\u{2518} ");
    assert_eq!(rows[3], "      ");
    // A one-cell box keeps the last corner drawn.
    let mut fb = FrameBuffer::new(2, 2);
    fb.draw_box(0, 0, 1, 1, (1, 1, 1), (0, 0, 0));
    assert_eq!(glyph_at(&fb, 0, 0), '\u{2518}');
}

#[test]
fn engine_themes() {
    assert_eq!(Theme::from_name("Tiled").glyph_style, GlyphStyle::Tiled);
    assert!(Theme::tiled().use_tiled());
    assert!(Theme::boxy().use_boxy());
    assert_eq!(Theme::from_name("nope").tint(), None);
    assert_eq!(Theme::amber().tint(), Some((255, 180, 60)));
    assert_eq!(Theme::classic().bg(), (0, 0, 0));
}

#[test]
fn actions_compare_by_value() {
    assert_eq!(GameAction::Move(1, -1), GameAction::Move(1, -1));
    assert_ne!(GameAction::Char('a'), GameAction::Char('b'));
}
