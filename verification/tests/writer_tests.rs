use vga_text::color::{Color, ColorCode};
use vga_text::screen::{BUFFER_HEIGHT, BUFFER_WIDTH};
use vga_text::writer::Writer;

fn test_color() -> ColorCode {
    ColorCode::new(Color::Yellow, Color::Black)
}

fn row_glyphs(w: &Writer, row: usize) -> String {
    let mut s = String::new();
    for col in 0..w.width() {
        s.push(w.cell(row, col).0 as char);
    }
    s
}

fn row_is_blank(w: &Writer, row: usize) -> bool {
    (0..w.width()).all(|col| w.cell(row, col).0 == 0x20)
}

#[test]
fn fresh_writer_is_blank_with_cursor_at_zero() {
    let w = Writer::new(2, 3, test_color());
    assert_eq!(w.column(), 0);
    assert_eq!(w.height(), 2);
    assert_eq!(w.width(), 3);
    assert!(row_is_blank(&w, 0));
    assert!(row_is_blank(&w, 1));
    assert_eq!(w.cell(0, 0), (0x20, 0x0e));
}

#[test]
fn printable_bytes_are_forwarded_unchanged() {
    let mut w = Writer::new(2, 80, test_color());
    w.write_string(" !aZ~");
    assert_eq!(&row_glyphs(&w, 1)[..5], " !aZ~");
    for (col, expected) in [0x20u8, 0x21, 0x61, 0x5a, 0x7e].into_iter().enumerate() {
        assert_eq!(w.cell(1, col), (expected, 0x0e));
    }
    assert_eq!(w.column(), 5);
}

#[test]
fn unprintable_bytes_become_the_fallback_glyph() {
    let mut w = Writer::new(2, 80, test_color());
    // 0x01 and 0x7f lie outside the printable range; 'é' encodes as two
    // bytes, each outside it, so it must occupy two fallback cells.
    w.write_string("\u{1}\u{7f}é");
    assert_eq!(w.column(), 4);
    for col in 0..4 {
        assert_eq!(w.cell(1, col), (0xfe, 0x0e), "column {col}");
    }
    assert_eq!(w.cell(1, 4), (0x20, 0x0e));
}

#[test]
fn write_byte_records_the_byte_as_given() {
    let mut w = Writer::new(2, 3, test_color());
    w.write_byte(b'A');
    assert_eq!(w.cell(1, 0), (b'A', 0x0e));
    assert_eq!(w.column(), 1);
}

#[test]
fn full_row_fills_without_wrap_and_next_byte_wraps() {
    let mut w = Writer::new(3, 4, test_color());
    w.write_string("WXYZ");
    // Exactly `width` bytes: the bottom row is full, nothing scrolled.
    assert_eq!(row_glyphs(&w, 2), "WXYZ");
    assert!(row_is_blank(&w, 0));
    assert!(row_is_blank(&w, 1));
    assert_eq!(w.column(), 4);
    // One more byte: exactly one scroll, then it lands at column 0.
    w.write_byte(b'Q');
    assert_eq!(row_glyphs(&w, 1), "WXYZ");
    assert_eq!(row_glyphs(&w, 2), "Q   ");
    assert!(row_is_blank(&w, 0));
    assert_eq!(w.column(), 1);
}

#[test]
fn newline_resets_cursor_and_shifts_rows_up() {
    let mut w = Writer::new(3, 3, test_color());
    w.write_string("AB");
    w.write_byte(b'\n');
    w.write_string("CD");
    assert_eq!(w.column(), 2);
    assert_eq!(row_glyphs(&w, 1), "AB ");
    assert_eq!(row_glyphs(&w, 2), "CD ");
    // Another newline discards the top row's contents irretrievably.
    w.write_byte(b'\n');
    assert_eq!(w.column(), 0);
    assert_eq!(row_glyphs(&w, 0), "AB ");
    assert_eq!(row_glyphs(&w, 1), "CD ");
    assert!(row_is_blank(&w, 2));
}

#[test]
fn newline_blanks_bottom_row_in_current_color() {
    let color = ColorCode::new(Color::White, Color::Blue).byte();
    let mut w = Writer::new(2, 3, ColorCode::new(Color::White, Color::Blue));
    w.write_string("AB\n");
    for col in 0..3 {
        assert_eq!(w.cell(1, col), (0x20, color));
    }
}

#[test]
fn page_of_newlines_then_text_leaves_only_that_text() {
    let mut w = Writer::new(3, 5, test_color());
    // Leave older output around, but with the bottom row already blank —
    // after `height - 1` newlines it has all moved off the top of the grid.
    w.write_string("abcde\n");
    w.write_string("\n\n");
    w.write_string("HI");
    assert_eq!(w.column(), 2);
    assert_eq!(row_glyphs(&w, 2), "HI   ");
    assert!(row_is_blank(&w, 0));
    assert!(row_is_blank(&w, 1));
}

#[test]
fn two_by_three_scenario() {
    let mut w = Writer::new(2, 3, test_color());
    w.write_string("AB");
    assert_eq!(row_glyphs(&w, 0), "   ");
    assert_eq!(row_glyphs(&w, 1), "AB ");
    w.write_string("C");
    assert_eq!(row_glyphs(&w, 1), "ABC");
    assert_eq!(w.column(), 3);
    w.write_string("D");
    assert_eq!(row_glyphs(&w, 0), "ABC");
    assert_eq!(row_glyphs(&w, 1), "D  ");
    assert_eq!(w.column(), 1);
}

#[test]
fn empty_text_changes_nothing() {
    let mut w = Writer::new(2, 3, test_color());
    w.write_string("x");
    w.write_string("");
    assert_eq!(w.column(), 1);
    assert_eq!(row_glyphs(&w, 1), "x  ");
    assert!(row_is_blank(&w, 0));
}

#[test]
fn one_by_one_grid_wraps_on_every_byte() {
    let mut w = Writer::new(1, 1, test_color());
    w.write_string("A");
    assert_eq!(row_glyphs(&w, 0), "A");
    assert_eq!(w.column(), 1);
    // The single cell is full: the next byte scrolls the only row away and
    // lands in the freshly blanked cell.
    w.write_string("B");
    assert_eq!(row_glyphs(&w, 0), "B");
    assert_eq!(w.column(), 1);
}

#[test]
fn reference_dimensions_hold_a_long_line() {
    let mut w = Writer::new(BUFFER_HEIGHT, BUFFER_WIDTH, test_color());
    let line: String = std::iter::repeat('x').take(BUFFER_WIDTH).collect();
    w.write_string(&line);
    assert_eq!(w.column(), BUFFER_WIDTH);
    assert_eq!(row_glyphs(&w, BUFFER_HEIGHT - 1), line);
    w.write_byte(b'y');
    assert_eq!(row_glyphs(&w, BUFFER_HEIGHT - 2), line);
    assert_eq!(w.cell(BUFFER_HEIGHT - 1, 0), (b'y', 0x0e));
}
