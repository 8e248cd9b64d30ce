//! The cursor-tracking writer: appends bytes to the bottom row of the grid,
//! wraps full lines, and scrolls on newline.
//!
//! The functions [`byte_written`] and [`text_written`] are the mathematical
//! account of what a write does to the grid; every method of [`Writer`]
//! promises exactly that account.

use vstd::prelude::*;
use vstd::string::StringSliceAdditionalSpecFns;
use crate::color::ColorCode;
use crate::screen::{Buffer, ScreenChar};

verus! {

/// The byte that ends a line and triggers a scroll.
pub const NEWLINE: u8 = 0x0a;

/// The glyph substituted for bytes outside the printable range.
pub const FALLBACK_GLYPH: u8 = 0xfe;

/// The glyph of an empty cell.
pub const BLANK_GLYPH: u8 = 0x20;

/// An empty cell in the given color attribute.
pub open spec fn blank_cell(color: u8) -> (u8, u8) {
    (BLANK_GLYPH, color)
}

/// One row of blank cells.
pub open spec fn blank_row(width: nat, color: u8) -> Seq<(u8, u8)> {
    Seq::new(width, |i: int| blank_cell(color))
}

/// A whole grid of blank cells.
pub open spec fn blank_grid(height: nat, width: nat, color: u8) -> Seq<(u8, u8)> {
    Seq::new(height * width, |i: int| blank_cell(color))
}

/// The grid after one scroll: every row moves up one place, the top row is
/// discarded, and the bottom row becomes blank in the writer's color.
/// On the flat row-major grid that is: drop the first row, append a blank one.
pub open spec fn scrolled(g: Seq<(u8, u8)>, width: nat, color: u8) -> Seq<(u8, u8)> {
    g.skip(width as int) + blank_row(width, color)
}

/// The printable range of the hardware font.
pub open spec fn printable(b: u8) -> bool {
    0x20 <= b <= 0x7e
}

/// What reaches the grid for an input byte: printable bytes and the newline
/// pass unchanged, everything else becomes the fallback glyph.
pub open spec fn sanitize(b: u8) -> u8 {
    if b == NEWLINE || printable(b) {
        b
    } else {
        FALLBACK_GLYPH
    }
}

/// The grid and cursor column after one `write_byte` on a grid of
/// `height * width` cells: a newline scrolls and resets the cursor; a byte on
/// a full row scrolls first; any other byte lands at the cursor on the bottom
/// row and advances it.
pub open spec fn byte_written(
    g: Seq<(u8, u8)>,
    cursor: nat,
    height: nat,
    width: nat,
    color: u8,
    b: u8,
) -> (Seq<(u8, u8)>, nat) {
    if b == NEWLINE {
        (scrolled(g, width, color), 0 as nat)
    } else if cursor >= width {
        (
            scrolled(g, width, color).update((height as int - 1) * width as int, (b, color)),
            1 as nat,
        )
    } else {
        (g.update((height as int - 1) * width as int + cursor as int, (b, color)), cursor + 1)
    }
}

/// The grid and cursor after writing a whole byte sequence, each byte
/// sanitized and then written in turn.
pub open spec fn text_written(
    g: Seq<(u8, u8)>,
    cursor: nat,
    height: nat,
    width: nat,
    color: u8,
    bytes: Seq<u8>,
) -> (Seq<(u8, u8)>, nat)
    decreases bytes.len(),
{
    if bytes.len() == 0 {
        (g, cursor)
    } else {
        let (g1, c1) = byte_written(g, cursor, height, width, color, sanitize(bytes[0]));
        text_written(g1, c1, height, width, color, bytes.skip(1))
    }
}

/// Writing one byte after a sequence is one `byte_written` step on the state
/// the sequence left behind.
pub proof fn lemma_text_written_snoc(
    g: Seq<(u8, u8)>,
    cursor: nat,
    height: nat,
    width: nat,
    color: u8,
    bytes: Seq<u8>,
    b: u8,
)
    ensures
        text_written(g, cursor, height, width, color, bytes.push(b)) == ({
            let (g1, c1) = text_written(g, cursor, height, width, color, bytes);
            byte_written(g1, c1, height, width, color, sanitize(b))
        }),
    decreases bytes.len(),
{
    reveal_with_fuel(text_written, 2);
    if bytes.len() == 0 {
        assert(bytes.push(b)[0] == b);
        assert(bytes.push(b).skip(1) =~= Seq::<u8>::empty());
    } else {
        assert(bytes.push(b)[0] == bytes[0]);
        assert(bytes.push(b).skip(1) =~= bytes.skip(1).push(b));
        let (g1, c1) = byte_written(g, cursor, height, width, color, sanitize(bytes[0]));
        lemma_text_written_snoc(g1, c1, height, width, color, bytes.skip(1), b);
    }
}

/// Writing a concatenation is writing the first part and then the second.
pub proof fn lemma_text_written_concat(
    g: Seq<(u8, u8)>,
    cursor: nat,
    height: nat,
    width: nat,
    color: u8,
    a: Seq<u8>,
    b: Seq<u8>,
)
    ensures
        text_written(g, cursor, height, width, color, a + b) == ({
            let (g1, c1) = text_written(g, cursor, height, width, color, a);
            text_written(g1, c1, height, width, color, b)
        }),
    decreases a.len(),
{
    reveal_with_fuel(text_written, 2);
    if a.len() == 0 {
        assert(a + b =~= b);
    } else {
        assert((a + b)[0] == a[0]);
        assert((a + b).skip(1) =~= a.skip(1) + b);
        let (g1, c1) = byte_written(g, cursor, height, width, color, sanitize(a[0]));
        lemma_text_written_concat(g1, c1, height, width, color, a.skip(1), b);
    }
}

/// The stateful writer: a cursor column, a current color, and the grid it
/// owns. It only ever writes to the bottom row; earlier output moves up by
/// scrolling.
pub struct Writer {
    column_position: usize,
    color_code: ColorCode,
    buffer: Buffer,
}

impl Writer {
    /// The grid contents, row-major.
    pub closed spec fn grid(&self) -> Seq<(u8, u8)> {
        self.buffer.grid()
    }

    /// The cursor column on the bottom row, `0 ..= cols`.
    pub closed spec fn cursor(&self) -> nat {
        self.column_position as nat
    }

    /// The current color attribute byte.
    pub closed spec fn color(&self) -> u8 {
        self.color_code.byte_spec()
    }

    /// Number of rows of the grid.
    pub closed spec fn rows(&self) -> nat {
        self.buffer.rows()
    }

    /// Number of columns of the grid.
    pub closed spec fn cols(&self) -> nat {
        self.buffer.cols()
    }

    /// The cursor never passes the row width, and the grid always holds one
    /// cell per position.
    pub closed spec fn wf(&self) -> bool {
        &&& self.buffer.wf()
        &&& self.column_position <= self.buffer.cols()
    }

    /// What well-formedness guarantees to every caller: real dimensions, one
    /// cell per grid position, and a cursor inside the row.
    pub proof fn lemma_wf(&self)
        requires
            self.wf(),
        ensures
            1 <= self.rows(),
            1 <= self.cols(),
            self.grid().len() == self.rows() * self.cols(),
            self.cursor() <= self.cols(),
    {
        self.buffer.lemma_wf();
    }

    /// A fresh writer over a blank grid of the given dimensions, cursor at
    /// column 0.
    pub fn new(height: usize, width: usize, color_code: ColorCode) -> (w: Writer)
        requires
            1 <= height,
            1 <= width,
            height * width <= usize::MAX,
        ensures
            w.wf(),
            w.rows() == height,
            w.cols() == width,
            w.color() == color_code.byte_spec(),
            w.cursor() == 0,
            w.grid() == blank_grid(height as nat, width as nat, color_code.byte_spec()),
    {
        let buffer = Buffer::new(height, width, color_code);
        Writer { column_position: 0, color_code, buffer }
    }

    /// Writes one byte: a newline scrolls, a byte on a full row wraps by
    /// scrolling first, and any other byte lands at the cursor in the current
    /// color. The byte is stored as given; callers that need the printable
    /// discipline go through `write_string`.
    pub fn write_byte(&mut self, byte: u8)
        requires
            old(self).wf(),
        ensures
            final(self).wf(),
            final(self).rows() == old(self).rows(),
            final(self).cols() == old(self).cols(),
            final(self).color() == old(self).color(),
            (final(self).grid(), final(self).cursor()) == byte_written(
                old(self).grid(),
                old(self).cursor(),
                old(self).rows(),
                old(self).cols(),
                old(self).color(),
                byte,
            ),
    {
        if byte == NEWLINE {
            self.new_line();
        } else {
            if self.column_position >= self.buffer.width() {
                self.new_line();
            }
            proof {
                self.buffer.lemma_wf();
            }
            let row = self.buffer.height() - 1;
            let col = self.column_position;
            let color_code = self.color_code;
            self.buffer.write(row, col, ScreenChar { ascii_character: byte, color_code });
            self.column_position = col + 1;
        }
    }

    /// Writes every byte of the text, sanitized: printable bytes and newlines
    /// pass through, all others are recorded as the fallback glyph in the
    /// current color.
    pub fn write_string(&mut self, s: &str)
        requires
            old(self).wf(),
        ensures
            final(self).wf(),
            final(self).rows() == old(self).rows(),
            final(self).cols() == old(self).cols(),
            final(self).color() == old(self).color(),
            (final(self).grid(), final(self).cursor()) == text_written(
                old(self).grid(),
                old(self).cursor(),
                old(self).rows(),
                old(self).cols(),
                old(self).color(),
                s.spec_bytes(),
            ),
    {
        let ghost g0 = self.grid();
        let ghost c0 = self.cursor();
        let ghost h = self.rows();
        let ghost w = self.cols();
        let ghost color = self.color();
        let bytes = s.as_bytes();
        let n = bytes.len();
        let mut i: usize = 0;
        while i < n
            invariant
                self.wf(),
                self.rows() == h,
                self.cols() == w,
                self.color() == color,
                n == bytes@.len(),
                bytes@ == s.spec_bytes(),
                i <= n,
                (self.grid(), self.cursor()) == text_written(g0, c0, h, w, color, bytes@.take(i as int)),
            decreases n - i,
        {
            let byte = bytes[i];
            proof {
                lemma_text_written_snoc(g0, c0, h, w, color, bytes@.take(i as int), byte);
                assert(bytes@.take(i as int).push(byte) =~= bytes@.take(i as int + 1));
            }
            if byte == NEWLINE || (0x20 <= byte && byte <= 0x7e) {
                self.write_byte(byte);
            } else {
                self.write_byte(FALLBACK_GLYPH);
            }
            i += 1;
        }
        proof {
            assert(bytes@.take(n as int) =~= bytes@);
        }
    }

    /// Scrolls: copies every row onto the one above it, in ascending row
    /// order so no row is copied after it was overwritten, then blanks the
    /// bottom row and resets the cursor.
    fn new_line(&mut self)
        requires
            old(self).wf(),
        ensures
            final(self).wf(),
            final(self).rows() == old(self).rows(),
            final(self).cols() == old(self).cols(),
            final(self).color() == old(self).color(),
            final(self).grid() == scrolled(old(self).grid(), old(self).cols(), old(self).color()),
            final(self).cursor() == 0,
    {
        let ghost g0 = self.buffer.grid();
        let ghost h = self.buffer.rows();
        let ghost w = self.buffer.cols();
        let total = self.buffer.len();
        let width = self.buffer.width();
        proof {
            self.buffer.lemma_wf();
            assert(w <= h * w) by (nonlinear_arith)
                requires 1 <= h;
        }
        let mut i: usize = width;
        while i < total
            invariant
                self.buffer.wf(),
                self.buffer.rows() == h,
                self.buffer.cols() == w,
                self.color_code == old(self).color_code,
                self.column_position == old(self).column_position,
                width == w,
                total == self.buffer.grid().len(),
                g0.len() == total,
                width <= i <= total,
                forall|j: int| 0 <= j < i - width ==> self.buffer.grid()[j] == g0[j + width],
                forall|j: int| i - width <= j < total ==> self.buffer.grid()[j] == g0[j],
            decreases total - i,
        {
            let c = self.buffer.read_flat(i);
            self.buffer.write_flat(i - width, c);
            i += 1;
        }
        let height = self.buffer.height();
        let ghost mid = self.buffer.grid();
        self.clear_row(height - 1);
        self.column_position = 0;
        proof {
            assert((height - 1) * w == h * w - w) by (nonlinear_arith)
                requires h == height, 1 <= h;
            assert forall|j: int| 0 <= j < total implies self.buffer.grid()[j] == scrolled(
                g0,
                w,
                self.color(),
            )[j] by {
                if j < total - w {
                    assert(self.buffer.grid()[j] == mid[j]);
                    assert(g0.skip(w as int)[j] == g0[j + w]);
                } else {
                    assert(self.buffer.grid()[j] == blank_cell(self.color()));
                }
            }
            assert(self.buffer.grid() =~= scrolled(g0, w, self.color()));
        }
    }

    /// Overwrites every cell of the given row with a blank in the current
    /// color.
    fn clear_row(&mut self, row: usize)
        requires
            old(self).wf(),
            row < old(self).rows(),
        ensures
            final(self).wf(),
            final(self).rows() == old(self).rows(),
            final(self).cols() == old(self).cols(),
            final(self).color() == old(self).color(),
            final(self).cursor() == old(self).cursor(),
            final(self).grid().len() == old(self).grid().len(),
            forall|j: int|
                row * old(self).cols() <= j < (row + 1) * old(self).cols()
                    ==> final(self).grid()[j] == blank_cell(old(self).color()),
            forall|j: int|
                0 <= j < old(self).grid().len() && !(row * old(self).cols() <= j < (row + 1)
                    * old(self).cols()) ==> final(self).grid()[j] == old(self).grid()[j],
    {
        let ghost g0 = self.buffer.grid();
        let ghost h = self.buffer.rows();
        let ghost w = self.buffer.cols();
        let ghost color = self.color();
        let blank = ScreenChar { ascii_character: BLANK_GLYPH, color_code: self.color_code };
        let width = self.buffer.width();
        let mut col: usize = 0;
        proof {
            self.buffer.lemma_wf();
            assert(row * w + w == (row + 1) * w) by (nonlinear_arith);
            assert((row + 1) * w <= h * w) by (nonlinear_arith)
                requires row < h;
        }
        while col < width
            invariant
                self.buffer.wf(),
                self.buffer.rows() == h,
                self.buffer.cols() == w,
                self.color() == color,
                self.column_position == old(self).column_position,
                blank@ == blank_cell(color),
                row < h,
                width == w,
                col <= width,
                g0.len() == self.buffer.grid().len(),
                row * w + w <= g0.len(),
                forall|j: int|
                    row * w <= j < row * w + col ==> self.buffer.grid()[j] == blank_cell(color),
                forall|j: int|
                    0 <= j < g0.len() && !(row * w <= j < row * w + col)
                        ==> self.buffer.grid()[j] == g0[j],
            decreases width - col,
        {
            self.buffer.write(row, col, blank);
            col += 1;
        }
        proof {
            assert(row * w + w == (row + 1) * w) by (nonlinear_arith);
        }
    }

    /// Number of rows.
    pub fn height(&self) -> (h: usize)
        ensures
            h == self.rows(),
    {
        self.buffer.height()
    }

    /// Number of columns.
    pub fn width(&self) -> (w: usize)
        ensures
            w == self.cols(),
    {
        self.buffer.width()
    }

    /// The cursor column on the bottom row.
    pub fn column(&self) -> (c: usize)
        ensures
            c == self.cursor(),
    {
        self.column_position
    }

    /// The current color attribute byte.
    pub fn color_byte(&self) -> (b: u8)
        ensures
            b == self.color(),
    {
        self.color_code.byte()
    }

    /// The (glyph, color) pair at (`row`, `col`).
    pub fn cell(&self, row: usize, col: usize) -> (c: (u8, u8))
        requires
            self.wf(),
            row < self.rows(),
            col < self.cols(),
        ensures
            c == self.grid()[row * self.cols() + col],
    {
        let sc = self.buffer.read(row, col);
        (sc.ascii_character, sc.color_code.byte())
    }
}

/// Writes already-formatted text through the given writer handle: the entry
/// point that formatted-output front ends forward to. The handle is passed in
/// explicitly; a program whose call sites can interrupt each other keeps its
/// one writer behind a mutual-exclusion lock and holds that lock across this
/// call, so each text lands contiguously.
pub fn _print(writer: &mut Writer, s: &str)
    requires
        old(writer).wf(),
    ensures
        final(writer).wf(),
        final(writer).rows() == old(writer).rows(),
        final(writer).cols() == old(writer).cols(),
        final(writer).color() == old(writer).color(),
        (final(writer).grid(), final(writer).cursor()) == text_written(
            old(writer).grid(),
            old(writer).cursor(),
            old(writer).rows(),
            old(writer).cols(),
            old(writer).color(),
            s.spec_bytes(),
        ),
{
    writer.write_string(s);
}

} // verus!
