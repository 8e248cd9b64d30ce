use spin::Mutex;
use vga_text::color::{Color, ColorCode};
use vga_text::writer::{Writer, _print};

fn small_writer() -> Writer {
    Writer::new(3, 8, ColorCode::new(Color::Yellow, Color::Black))
}

fn row_glyphs(w: &Writer, row: usize) -> String {
    let mut s = String::new();
    for col in 0..w.width() {
        s.push(w.cell(row, col).0 as char);
    }
    s
}

#[test]
fn print_writes_through_the_lock() {
    let shared = Mutex::new(small_writer());
    _print(&mut shared.lock(), "hi");
    let w = shared.into_inner();
    assert_eq!(row_glyphs(&w, 2), "hi      ");
    assert_eq!(w.column(), 2);
}

#[test]
fn println_with_no_arguments_emits_exactly_one_newline() {
    // `println!()` with no arguments forwards the single byte "\n".
    let shared = Mutex::new(small_writer());
    _print(&mut shared.lock(), "\n");
    let w = shared.into_inner();
    assert_eq!(w.column(), 0);
    for row in 0..3 {
        assert_eq!(row_glyphs(&w, row), "        ", "row {row}");
    }
}

#[test]
fn println_appends_a_newline_after_the_text() {
    // `println!("ab")` forwards "ab\n" as one locked call.
    let shared = Mutex::new(small_writer());
    _print(&mut shared.lock(), "ab\n");
    let w = shared.into_inner();
    assert_eq!(w.column(), 0);
    assert_eq!(row_glyphs(&w, 1), "ab      ");
    assert_eq!(row_glyphs(&w, 2), "        ");
}

#[test]
fn interleaved_callers_produce_contiguous_runs() {
    // Two call sites take turns; the lock serializes each whole call, so each
    // call's characters stay contiguous in the final grid.
    let shared = Mutex::new(small_writer());
    _print(&mut shared.lock(), "AA");
    _print(&mut shared.lock(), "bb");
    _print(&mut shared.lock(), "CC");
    let w = shared.into_inner();
    assert_eq!(row_glyphs(&w, 2), "AAbbCC  ");
}

#[test]
fn print_entry_point_forwards_formatted_text() {
    let shared = Mutex::new(small_writer());
    let value = 42;
    _print(&mut shared.lock(), &format!("n={value}"));
    let w = shared.into_inner();
    assert_eq!(row_glyphs(&w, 2), "n=42    ");
}
