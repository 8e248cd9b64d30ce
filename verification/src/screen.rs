//! The character grid: one cell per screen position, every access volatile.
//!
//! On the reference hardware the grid lives at a fixed device address and the
//! act of writing a cell is itself the observable effect, so no cell access may
//! be elided or reordered by the optimizer. Every cell is therefore held in a
//! [`volatile::Volatile`] wrapper and touched only through its volatile read
//! and write operations; no other access path to the cells exists.

use vstd::prelude::*;
use volatile::Volatile;
use crate::color::ColorCode;

verus! {

/// Rows of the reference device's grid.
pub const BUFFER_HEIGHT: usize = 25;

/// Columns of the reference device's grid.
pub const BUFFER_WIDTH: usize = 80;

/// One character cell exactly as the device stores it: the glyph byte first,
/// then the color attribute byte.
#[derive(Debug, Clone, Copy, PartialEq, Eq)]
pub struct ScreenChar {
    pub ascii_character: u8,
    pub color_code: ColorCode,
}

impl View for ScreenChar {
    type V = (u8, u8);

    /// A cell is, mathematically, its pair of (glyph byte, color byte).
    open spec fn view(&self) -> (u8, u8) {
        (self.ascii_character, self.color_code.byte_spec())
    }
}

/// The volatile cell wrapper of the `volatile` crate. The grid stores every
/// cell in one of these so that each read and write is a single,
/// non-elidable memory access.
#[verifier::external_type_specification]
#[verifier::external_body]
#[verifier::reject_recursive_types(T)]
pub struct ExVolatile<T: Copy>(Volatile<T>);

/// The (glyph byte, color byte) pair a volatile cell currently holds.
pub uninterp spec fn vol_cell(v: Volatile<ScreenChar>) -> (u8, u8);

/// Relies on `volatile::Volatile::new`: wraps the given value, whose bits it
/// stores unchanged; never panics.
#[verifier::external_body]
fn vol_new(c: ScreenChar) -> (v: Volatile<ScreenChar>)
    ensures
        vol_cell(v) == c@,
{
    Volatile::new(c)
}

/// Relies on `volatile::Volatile::read`: a volatile read returning a copy of
/// the wrapped value; never panics.
#[verifier::external_body]
fn vol_read_at(cells: &Vec<Volatile<ScreenChar>>, i: usize) -> (c: ScreenChar)
    requires
        i < cells@.len(),
    ensures
        c@ == vol_cell(cells@[i as int]),
{
    cells[i].read()
}

/// Relies on `volatile::Volatile::write`: a volatile write that replaces the
/// wrapped value with `c` and touches no other cell; never panics.
#[verifier::external_body]
fn vol_write_at(cells: &mut Vec<Volatile<ScreenChar>>, i: usize, c: ScreenChar)
    requires
        i < old(cells)@.len(),
    ensures
        final(cells)@.len() == old(cells)@.len(),
        vol_cell(final(cells)@[i as int]) == c@,
        forall|j: int| 0 <= j < old(cells)@.len() && j != i ==> final(cells)@[j] == old(cells)@[j],
{
    cells[i].write(c)
}

/// The full character grid, `height` rows of `width` cells stored row-major.
///
/// The struct owns its storage; on the reference hardware the same layout is
/// what the device exposes at its fixed address, and the volatile access
/// discipline below is what makes every write hardware-visible.
pub struct Buffer {
    height: usize,
    width: usize,
    chars: Vec<Volatile<ScreenChar>>,
}

impl Buffer {
    /// Number of rows.
    pub closed spec fn rows(&self) -> nat {
        self.height as nat
    }

    /// Number of columns.
    pub closed spec fn cols(&self) -> nat {
        self.width as nat
    }

    /// The grid as a flat row-major sequence of (glyph, color) pairs.
    pub closed spec fn grid(&self) -> Seq<(u8, u8)> {
        self.chars@.map(|i: int, v: Volatile<ScreenChar>| vol_cell(v))
    }

    /// A buffer is well formed when it has at least one row and one column and
    /// its storage holds exactly one cell per grid position.
    pub closed spec fn wf(&self) -> bool {
        &&& self.height >= 1
        &&& self.width >= 1
        &&& self.chars@.len() == self.rows() * self.cols()
    }

    /// What well-formedness guarantees to every caller: real dimensions and
    /// one cell per grid position.
    pub proof fn lemma_wf(&self)
        requires
            self.wf(),
        ensures
            1 <= self.rows(),
            1 <= self.cols(),
            self.grid().len() == self.rows() * self.cols(),
    {
    }

    /// Builds a grid of the given dimensions with every cell blank in the
    /// given attribute.
    pub fn new(height: usize, width: usize, color_code: ColorCode) -> (b: Buffer)
        requires
            1 <= height,
            1 <= width,
            height * width <= usize::MAX,
        ensures
            b.wf(),
            b.rows() == height,
            b.cols() == width,
            b.grid() == Seq::new((height * width) as nat, |i: int| (0x20u8, color_code.byte_spec())),
    {
        let total = height * width;
        let blank = ScreenChar { ascii_character: 0x20, color_code };
        let mut chars: Vec<Volatile<ScreenChar>> = Vec::new();
        let mut i: usize = 0;
        while i < total
            invariant
                i <= total,
                chars@.len() == i,
                blank@ == (0x20u8, color_code.byte_spec()),
                forall|j: int| 0 <= j < i ==> vol_cell(#[trigger] chars@[j]) == (0x20u8, color_code.byte_spec()),
            decreases total - i,
        {
            let ghost pre = chars@;
            let v = vol_new(blank);
            chars.push(v);
            proof {
                assert forall|j: int| 0 <= j < i + 1 implies vol_cell(#[trigger] chars@[j])
                    == (0x20u8, color_code.byte_spec()) by {
                    if j < i {
                        assert(chars@[j] == pre[j]);
                    } else {
                        assert(chars@[j] == v);
                    }
                }
            }
            i += 1;
        }
        let b = Buffer { height, width, chars };
        proof {
            assert(b.grid() =~= Seq::new((height * width) as nat, |i: int| (0x20u8, color_code.byte_spec())));
        }
        b
    }

    /// Reads the cell at flat index `i` (row-major).
    pub fn read_flat(&self, i: usize) -> (c: ScreenChar)
        requires
            i < self.grid().len(),
        ensures
            c@ == self.grid()[i as int],
    {
        vol_read_at(&self.chars, i)
    }

    /// Writes the cell at flat index `i` (row-major), leaving every other cell
    /// as it was.
    pub fn write_flat(&mut self, i: usize, c: ScreenChar)
        requires
            i < old(self).grid().len(),
        ensures
            final(self).rows() == old(self).rows(),
            final(self).cols() == old(self).cols(),
            final(self).wf() == old(self).wf(),
            final(self).grid() == old(self).grid().update(i as int, c@),
    {
        vol_write_at(&mut self.chars, i, c);
        proof {
            assert(self.grid() =~= old(self).grid().update(i as int, c@));
        }
    }

    /// Reads the cell at (`row`, `col`), both 0-indexed.
    pub fn read(&self, row: usize, col: usize) -> (c: ScreenChar)
        requires
            self.wf(),
            row < self.rows(),
            col < self.cols(),
        ensures
            c@ == self.grid()[row * self.cols() + col],
    {
        let i = self.flat_index(row, col);
        vol_read_at(&self.chars, i)
    }

    /// Writes the cell at (`row`, `col`), leaving every other cell as it was.
    pub fn write(&mut self, row: usize, col: usize, c: ScreenChar)
        requires
            old(self).wf(),
            row < old(self).rows(),
            col < old(self).cols(),
        ensures
            final(self).wf(),
            final(self).rows() == old(self).rows(),
            final(self).cols() == old(self).cols(),
            final(self).grid() == old(self).grid().update((row * old(self).cols() + col) as int, c@),
    {
        let i = self.flat_index(row, col);
        vol_write_at(&mut self.chars, i, c);
        proof {
            assert(self.grid() =~= old(self).grid().update((row * old(self).cols() + col) as int, c@));
        }
    }

    /// The number of cells, `rows * cols`.
    pub fn len(&self) -> (n: usize)
        requires
            self.wf(),
        ensures
            n == self.grid().len(),
            n == self.rows() * self.cols(),
    {
        self.chars.len()
    }

    /// Number of rows.
    pub fn height(&self) -> (h: usize)
        ensures
            h == self.rows(),
    {
        self.height
    }

    /// Number of columns.
    pub fn width(&self) -> (w: usize)
        ensures
            w == self.cols(),
    {
        self.width
    }

    /// Row-major flattening of a coordinate pair, with the bounds proof that
    /// the callers above lean on.
    fn flat_index(&self, row: usize, col: usize) -> (i: usize)
        requires
            self.wf(),
            row < self.rows(),
            col < self.cols(),
        ensures
            i == row * self.cols() + col,
            i < self.grid().len(),
    {
        // Reading the length brings `rows * cols <= usize::MAX` into scope,
        // which the overflow check below needs.
        let n = self.chars.len();
        proof {
            assert(row * self.cols() + col < self.rows() * self.cols()) by (nonlinear_arith)
                requires
                    row < self.rows(),
                    col < self.cols(),
            ;
        }
        row * self.width + col
    }
}

} // verus!
