//! The laws of the writer, stated over the transition functions of
//! [`crate::writer`] and proved once and for all: what a newline does to every
//! row, how a row fills and wraps, and what a freshly scrolled page holds.

use vstd::prelude::*;
use crate::writer::{
    blank_cell, blank_row, byte_written, printable, sanitize, scrolled, text_written, BLANK_GLYPH,
    FALLBACK_GLYPH, NEWLINE,
};
use crate::writer::lemma_text_written_concat;
use crate::writer::lemma_text_written_snoc;

verus! {

/// Row `row` of a flat row-major grid with `width` columns.
pub open spec fn row_of(g: Seq<(u8, u8)>, width: nat, row: int) -> Seq<(u8, u8)> {
    g.subrange(row * width, row * width + width)
}

/// A byte sequence as a row of cells, every cell in the same color.
pub open spec fn colored(bytes: Seq<u8>, color: u8) -> Seq<(u8, u8)> {
    bytes.map(|i: int, b: u8| (b, color))
}

/// The glyph bytes of a row, colors dropped.
pub open spec fn glyphs_of(row: Seq<(u8, u8)>) -> Seq<u8> {
    row.map(|i: int, cell: (u8, u8)| cell.0)
}

/// `width` blank glyphs.
pub open spec fn blank_glyphs(width: nat) -> Seq<u8> {
    Seq::new(width, |i: int| BLANK_GLYPH)
}

/// A row with the cells `cursor .. cursor + bytes.len()` overwritten by
/// `bytes` in `color` and every other cell as it was.
pub open spec fn filled_row(row: Seq<(u8, u8)>, cursor: nat, color: u8, bytes: Seq<u8>) -> Seq<
    (u8, u8),
> {
    Seq::new(
        row.len(),
        |c: int|
            if cursor <= c < cursor + bytes.len() {
                (bytes[c - cursor], color)
            } else {
                row[c]
            },
    )
}

/// A run of `k` newline bytes.
pub open spec fn newlines(k: nat) -> Seq<u8> {
    Seq::new(k, |i: int| NEWLINE)
}

/// Printable bytes and the newline pass to the grid unchanged; every other
/// byte is recorded as the fallback glyph.
pub proof fn lemma_write_policy(b: u8)
    ensures
        printable(b) || b == NEWLINE ==> sanitize(b) == b,
        !(printable(b) || b == NEWLINE) ==> sanitize(b) == FALLBACK_GLYPH,
{
}

/// Writing a newline resets the cursor to column 0 and moves every row up by
/// one place: row `r` afterwards shows what row `r + 1` showed, the old top
/// row is gone from the grid, and the bottom row is blank in the writer's
/// color.
pub proof fn lemma_newline_scrolls(
    g: Seq<(u8, u8)>,
    cursor: nat,
    height: nat,
    width: nat,
    color: u8,
)
    requires
        g.len() == height * width,
        1 <= height,
        1 <= width,
    ensures
        ({
            let (g2, c2) = byte_written(g, cursor, height, width, color, NEWLINE);
            &&& c2 == 0
            &&& g2.len() == g.len()
            &&& forall|r: int|
                0 <= r < height - 1 ==> #[trigger] row_of(g2, width, r) == row_of(g, width, r + 1)
            &&& row_of(g2, width, height - 1 as int) == blank_row(width, color)
        }),
{
    let (g2, c2) = byte_written(g, cursor, height, width, color, NEWLINE);
    assert(g2 == scrolled(g, width, color));
    assert((height - 1) * width as int == height * width - width) by (nonlinear_arith);
    assert forall|r: int| 0 <= r < height - 1 implies #[trigger] row_of(g2, width, r) == row_of(
        g,
        width,
        r + 1,
    ) by {
        assert(0 <= r * width && r * width + width == (r + 1) * width && (r + 1) * width + width
            <= height * width) by (nonlinear_arith)
            requires
                0 <= r < height - 1,
                1 <= width,
                1 <= height,
        ;
        assert(row_of(g2, width, r) =~= row_of(g, width, r + 1));
    }
    assert(row_of(g2, width, height - 1 as int) =~= blank_row(width, color));
}

/// Writing printable text that fits on the rest of the bottom row fills that
/// row left to right from the cursor, advances the cursor by the text's
/// length, and leaves every other row untouched — no scroll happens.
pub proof fn lemma_text_fills_row(
    g: Seq<(u8, u8)>,
    cursor: nat,
    height: nat,
    width: nat,
    color: u8,
    bytes: Seq<u8>,
)
    requires
        g.len() == height * width,
        1 <= height,
        1 <= width,
        cursor + bytes.len() <= width,
        forall|i: int| 0 <= i < bytes.len() ==> printable(#[trigger] bytes[i]),
    ensures
        ({
            let (g2, c2) = text_written(g, cursor, height, width, color, bytes);
            &&& c2 == cursor + bytes.len()
            &&& g2.len() == g.len()
            &&& forall|r: int|
                0 <= r < height - 1 ==> #[trigger] row_of(g2, width, r) == row_of(g, width, r)
            &&& row_of(g2, width, height - 1 as int) == filled_row(
                row_of(g, width, height - 1 as int),
                cursor,
                color,
                bytes,
            )
        }),
    decreases bytes.len(),
{
    let base = (height as int - 1) * width as int;
    assert(base + width == height * width && base >= 0) by (nonlinear_arith)
        requires
            1 <= height,
            1 <= width,
            base == (height as int - 1) * width as int,
    ;
    let (g2, c2) = text_written(g, cursor, height, width, color, bytes);
    if bytes.len() == 0 {
        assert forall|r: int| 0 <= r < height - 1 implies #[trigger] row_of(g2, width, r) == row_of(
            g,
            width,
            r,
        ) by {
        }
        assert(row_of(g2, width, height - 1 as int) =~= filled_row(
            row_of(g, width, height - 1 as int),
            cursor,
            color,
            bytes,
        ));
    } else {
        let b0 = bytes[0];
        assert(sanitize(b0) == b0);
        let (g1, c1) = byte_written(g, cursor, height, width, color, b0);
        assert(g1 == g.update(base + cursor, (b0, color)));
        assert(c1 == cursor + 1);
        assert forall|i: int| 0 <= i < bytes.skip(1).len() implies printable(
            #[trigger] bytes.skip(1)[i],
        ) by {
            assert(bytes.skip(1)[i] == bytes[i + 1]);
        }
        lemma_text_fills_row(g1, c1, height, width, color, bytes.skip(1));
        assert forall|r: int| 0 <= r < height - 1 implies #[trigger] row_of(g2, width, r) == row_of(
            g,
            width,
            r,
        ) by {
            assert(row_of(g2, width, r) == row_of(g1, width, r));
            assert(0 <= r * width && r * width + width == (r + 1) * width && (r + 1) * width
                <= base) by (nonlinear_arith)
                requires
                    0 <= r < height - 1,
                    1 <= width,
                    base == (height as int - 1) * width as int,
            ;
            assert(row_of(g1, width, r) =~= row_of(g, width, r));
        }
        let last = row_of(g, width, height - 1 as int);
        assert(row_of(g1, width, height - 1 as int) =~= last.update(cursor as int, (b0, color)));
        assert(row_of(g2, width, height - 1 as int) == filled_row(
            last.update(cursor as int, (b0, color)),
            c1,
            color,
            bytes.skip(1),
        ));
        assert(filled_row(last.update(cursor as int, (b0, color)), c1, color, bytes.skip(1))
            =~= filled_row(last, cursor, color, bytes));
    }
}

/// Filling the bottom row exactly and then writing one more printable byte
/// wraps: the first `width` bytes land with no scroll, then exactly one
/// scroll happens and the extra byte lands at column 0 of the otherwise
/// blank new bottom row, cursor at 1; the filled row is now one row up.
pub proof fn lemma_row_overflow_wraps(
    g: Seq<(u8, u8)>,
    height: nat,
    width: nat,
    color: u8,
    bytes: Seq<u8>,
    extra: u8,
)
    requires
        g.len() == height * width,
        1 <= height,
        1 <= width,
        bytes.len() == width,
        forall|i: int| 0 <= i < bytes.len() ==> printable(#[trigger] bytes[i]),
        printable(extra),
    ensures
        ({
            let (g2, c2) = text_written(g, 0, height, width, color, bytes);
            let (g3, c3) = byte_written(g2, c2, height, width, color, extra);
            &&& c2 == width
            &&& c3 == 1
            &&& row_of(g3, width, height - 1 as int) == seq![(extra, color)] + blank_row(
                (width - 1) as nat,
                color,
            )
            &&& height >= 2 ==> row_of(g3, width, height - 2 as int) == colored(bytes, color)
            &&& forall|r: int|
                0 <= r < height - 2 ==> #[trigger] row_of(g3, width, r) == row_of(g, width, r + 1)
        }),
{
    let base = (height as int - 1) * width as int;
    assert(base + width == height * width && base >= 0) by (nonlinear_arith)
        requires
            1 <= height,
            1 <= width,
            base == (height as int - 1) * width as int,
    ;
    lemma_text_fills_row(g, 0, height, width, color, bytes);
    let (g2, c2) = text_written(g, 0, height, width, color, bytes);
    let (g3, c3) = byte_written(g2, c2, height, width, color, extra);
    lemma_newline_scrolls(g2, c2, height, width, color);
    let scr = scrolled(g2, width, color);
    assert(g3 == scr.update(base, (extra, color)));
    assert(row_of(scr, width, height - 1 as int) == blank_row(width, color));
    assert(row_of(g3, width, height - 1 as int) =~= row_of(scr, width, height - 1 as int).update(
        0,
        (extra, color),
    ));
    assert(blank_row(width, color).update(0, (extra, color)) =~= seq![(extra, color)] + blank_row(
        (width - 1) as nat,
        color,
    ));
    if height >= 2 {
        assert(0 <= (height - 2) * width as int && (height - 2) * width as int + width == base)
            by (nonlinear_arith)
            requires
                2 <= height,
                1 <= width,
                base == (height as int - 1) * width as int,
        ;
        assert(row_of(scr, width, height - 2 as int) == row_of(g2, width, height - 1 as int));
        assert(row_of(g3, width, height - 2 as int) =~= row_of(scr, width, height - 2 as int));
        assert(row_of(g2, width, height - 1 as int) == filled_row(
            row_of(g, width, height - 1 as int),
            0,
            color,
            bytes,
        ));
        assert(filled_row(row_of(g, width, height - 1 as int), 0, color, bytes) =~= colored(
            bytes,
            color,
        ));
    }
    assert forall|r: int| 0 <= r < height - 2 implies #[trigger] row_of(g3, width, r) == row_of(
        g,
        width,
        r + 1,
    ) by {
        assert(row_of(scr, width, r) == row_of(g2, width, r + 1));
        assert(row_of(g2, width, r + 1) == row_of(g, width, r + 1));
        assert(0 <= r * width && r * width + width <= base) by (nonlinear_arith)
            requires
                0 <= r < height - 2,
                1 <= width,
                base == (height as int - 1) * width as int,
        ;
        assert(row_of(g3, width, r) =~= row_of(scr, width, r));
    }
}

/// Writing `k` newlines shifts the grid up `k` rows, blanks the bottom `k`
/// rows, and (for `k >= 1`) leaves the cursor at column 0.
pub proof fn lemma_newlines_blank_page(
    g: Seq<(u8, u8)>,
    cursor: nat,
    height: nat,
    width: nat,
    color: u8,
    k: nat,
)
    requires
        g.len() == height * width,
        1 <= height,
        1 <= width,
        k <= height,
    ensures
        ({
            let (g2, c2) = text_written(g, cursor, height, width, color, newlines(k));
            &&& c2 == if k == 0 {
                cursor
            } else {
                0 as nat
            }
            &&& g2.len() == g.len()
            &&& forall|j: int| 0 <= j < (height - k) * width ==> g2[j] == g[j + k * width]
            &&& forall|j: int| (height - k) * width <= j < g.len() ==> g2[j] == blank_cell(color)
        }),
    decreases k,
{
    let (g2, c2) = text_written(g, cursor, height, width, color, newlines(k));
    if k == 0 {
        assert(newlines(0) =~= Seq::<u8>::empty());
    } else {
        let km = (k - 1) as nat;
        lemma_newlines_blank_page(g, cursor, height, width, color, km);
        assert(newlines(k) =~= newlines(km).push(NEWLINE));
        lemma_text_written_snoc(g, cursor, height, width, color, newlines(km), NEWLINE);
        let (g1, c1) = text_written(g, cursor, height, width, color, newlines(km));
        assert(sanitize(NEWLINE) == NEWLINE);
        assert(g2 == scrolled(g1, width, color));
        assert((height - k) * width + width == (height - km) * width && (height - km) * width
            <= height * width && (height - 1) * width == height * width - width)
            by (nonlinear_arith)
            requires
                1 <= k <= height,
                km == k - 1,
                1 <= width,
        ;
        assert forall|j: int| 0 <= j < (height - k) * width implies g2[j] == g[j + k * width] by {
            assert(g2[j] == g1.skip(width as int)[j]);
            assert(g1.skip(width as int)[j] == g1[j + width]);
            assert(g1[j + width] == g[j + width + km * width]);
            assert(j + width + km * width == j + k * width) by (nonlinear_arith)
                requires
                    km == k - 1,
            ;
        }
        assert forall|j: int| (height - k) * width <= j < g.len() implies g2[j] == blank_cell(
            color,
        ) by {
            if j < g.len() - width {
                assert(g2[j] == g1.skip(width as int)[j]);
                assert(g1.skip(width as int)[j] == g1[j + width]);
                assert((height - km) * width <= j + width);
            } else {
                assert(g2[j] == blank_row(width, color)[j - (g1.len() - width)]);
            }
        }
    }
}

/// Starting from a grid whose bottom row shows only blank glyphs, writing
/// `height - 1` newlines and then one line of printable text leaves exactly
/// that text on the bottom row, the rest of that row blank, and nothing but
/// blank glyphs on every row above it.
pub proof fn lemma_fresh_page_round_trip(
    g: Seq<(u8, u8)>,
    cursor: nat,
    height: nat,
    width: nat,
    color: u8,
    text: Seq<u8>,
)
    requires
        g.len() == height * width,
        1 <= height,
        1 <= width,
        height == 1 ==> cursor == 0,
        text.len() <= width,
        forall|i: int| 0 <= i < text.len() ==> printable(#[trigger] text[i]),
        glyphs_of(row_of(g, width, height - 1 as int)) == blank_glyphs(width),
    ensures
        ({
            let (g2, c2) = text_written(
                g,
                cursor,
                height,
                width,
                color,
                newlines((height - 1) as nat) + text,
            );
            &&& c2 == text.len()
            &&& row_of(g2, width, height - 1 as int).subrange(0, text.len() as int) == colored(
                text,
                color,
            )
            &&& glyphs_of(row_of(g2, width, height - 1 as int)) == text + blank_glyphs(
                (width - text.len()) as nat,
            )
            &&& forall|r: int|
                0 <= r < height - 1 ==> glyphs_of(#[trigger] row_of(g2, width, r)) == blank_glyphs(
                    width,
                )
        }),
{
    let base = (height as int - 1) * width as int;
    assert(base + width == height * width && base >= 0 && (height == 1 ==> base == 0) && (height
        >= 2 ==> width <= base)) by (nonlinear_arith)
        requires
            1 <= height,
            1 <= width,
            base == (height as int - 1) * width as int,
    ;
    let km = (height - 1) as nat;
    lemma_text_written_concat(g, cursor, height, width, color, newlines(km), text);
    lemma_newlines_blank_page(g, cursor, height, width, color, km);
    let (g1, c1) = text_written(g, cursor, height, width, color, newlines(km));
    assert((height - km) * width == width) by (nonlinear_arith)
        requires
            km == height - 1,
    ;
    assert(c1 == 0);
    lemma_text_fills_row(g1, 0, height, width, color, text);
    let (g2, c2) = text_written(g1, 0, height, width, color, text);
    assert(text_written(g, cursor, height, width, color, newlines(km) + text) == (g2, c2));
    assert forall|j: int| 0 <= j < width implies #[trigger] g1[j].0 == BLANK_GLYPH by {
        assert(g1[j] == g[j + km * width]);
        assert(j + km * width == base + j) by (nonlinear_arith)
            requires
                km == height - 1,
                base == (height as int - 1) * width as int,
        ;
        assert(glyphs_of(row_of(g, width, height - 1 as int))[j] == BLANK_GLYPH);
        assert(row_of(g, width, height - 1 as int)[j] == g[base + j]);
    }
    let last1 = row_of(g1, width, height - 1 as int);
    let last2 = row_of(g2, width, height - 1 as int);
    assert(last2 == filled_row(last1, 0, color, text));
    assert forall|j: int| 0 <= j < width implies #[trigger] last1[j].0 == BLANK_GLYPH by {
        assert(last1[j] == g1[base + j]);
        if height == 1 {
            assert(g1[base + j].0 == BLANK_GLYPH);
        } else {
            assert(width <= base + j);
            assert(g1[base + j] == blank_cell(color));
        }
    }
    assert(last2.subrange(0, text.len() as int) =~= colored(text, color));
    assert(glyphs_of(last2) =~= text + blank_glyphs((width - text.len()) as nat));
    assert forall|r: int| 0 <= r < height - 1 implies glyphs_of(#[trigger] row_of(g2, width, r))
        == blank_glyphs(width) by {
        assert(row_of(g2, width, r) == row_of(g1, width, r));
        assert(0 <= r * width && r * width + width <= base) by (nonlinear_arith)
            requires
                0 <= r < height - 1,
                1 <= width,
                base == (height as int - 1) * width as int,
        ;
        assert forall|c: int| 0 <= c < width implies #[trigger] row_of(g1, width, r)[c].0
            == BLANK_GLYPH by {
            let j = r * width + c;
            assert(row_of(g1, width, r)[c] == g1[j]);
            if j < width {
                assert(g1[j].0 == BLANK_GLYPH);
            } else {
                assert(width <= j < g1.len());
                assert(g1[j] == blank_cell(color));
            }
        }
        assert(glyphs_of(row_of(g2, width, r)) =~= blank_glyphs(width));
    }
}

} // verus!
