//! Text rendering of a universe: one line per row, one glyph per cell,
//! every line newline-terminated.  The rendered text doubles as the
//! equality check on grids, so its exact shape is pinned down here.

use crate::grid::Cell;
use crate::grid::Universe;
use crate::grid::lemma_grid_index;
use vstd::prelude::*;

verus! {

/// The glyph for one cell: a space for a dead cell, a filled square for a
/// live one.
pub open spec fn spec_glyph(c: Cell) -> char {
    if c == Cell::Alive {
        '\u{2BC0}'
    } else {
        ' '
    }
}

/// The rendering of a row-major buffer: `height` lines of `width` glyphs,
/// each line closed by a newline, so position `row * (width + 1) + col`
/// holds the glyph of the cell at `(row, col)`.
pub open spec fn spec_render_cells(cells: Seq<Cell>, width: int, height: int) -> Seq<char> {
    Seq::new(
        (height * (width + 1)) as nat,
        |k: int|
            if k % (width + 1) == width {
                '\n'
            } else {
                spec_glyph(cells[(k / (width + 1)) * width + (k % (width + 1))])
            },
    )
}

/// The glyph for one cell, as executable code.
fn glyph(c: Cell) -> (g: char)
    ensures
        g == spec_glyph(c),
{
    match c {
        Cell::Alive => '\u{2BC0}',
        Cell::Dead => ' ',
    }
}

/// Relies on `String::push`: it appends the given character to the end of
/// the string.
#[verifier::external_body]
fn push_char(s: &mut String, c: char)
    ensures
        final(s)@ == old(s)@.push(c),
{
    s.push(c);
}

impl Universe {
    /// Renders the grid as text: `height` lines of `width` glyphs each,
    /// every line terminated by a newline.
    pub fn render(&self) -> (text: String)
        requires
            self.well_formed(),
        ensures
            text@ == spec_render_cells(
                self.spec_cells(),
                self.spec_width() as int,
                self.spec_height() as int,
            ),
    {
        let w = self.width();
        let h = self.height();
        let cells = self.get_cells();
        let ghost target = spec_render_cells(self.spec_cells(), w as int, h as int);
        let mut text = String::new();
        let mut row: u32 = 0;
        while row < h
            invariant
                self.well_formed(),
                w == self.spec_width(),
                h == self.spec_height(),
                cells@ == self.spec_cells(),
                target == spec_render_cells(self.spec_cells(), w as int, h as int),
                row <= h,
                text@.len() == row * (w + 1),
                forall|k: int| 0 <= k < text@.len() ==> text@[k] == target[k],
            decreases h - row,
        {
            let mut col: u32 = 0;
            while col < w
                invariant
                    self.well_formed(),
                    w == self.spec_width(),
                    h == self.spec_height(),
                    cells@ == self.spec_cells(),
                    target == spec_render_cells(self.spec_cells(), w as int, h as int),
                    row < h,
                    col <= w,
                    text@.len() == row * (w + 1) + col,
                    forall|k: int| 0 <= k < text@.len() ==> text@[k] == target[k],
                decreases w - col,
            {
                proof {
                    lemma_grid_index(w as int, h as int, row as int, col as int);
                }
                let i = (row * w + col) as usize;
                let g = glyph(cells[i]);
                proof {
                    lemma_grid_index(w as int + 1, h as int, row as int, col as int);
                    assert((h as int) * ((w as int) + 1) == ((w as int) + 1) * (h as int))
                        by (nonlinear_arith);
                    assert(g == target[row as int * (w as int + 1) + col as int]);
                }
                push_char(&mut text, g);
                col += 1;
            }
            proof {
                lemma_grid_index(w as int + 1, h as int, row as int, w as int);
                assert((h as int) * ((w as int) + 1) == ((w as int) + 1) * (h as int))
                    by (nonlinear_arith);
                assert('\n' == target[row as int * (w as int + 1) + w as int]);
            }
            push_char(&mut text, '\n');
            proof {
                assert(row as int * (w as int + 1) + (w as int + 1) == (row as int + 1) * (w as int
                    + 1)) by (nonlinear_arith);
            }
            row += 1;
        }
        proof {
            assert(text@ =~= target);
        }
        text
    }
}

/// Rendering is a pure function of the dimensions and the cell buffer, so
/// an unmodified grid renders to identical text however often it is asked.
pub proof fn lemma_render_deterministic(a: Universe, b: Universe)
    requires
        a.spec_width() == b.spec_width(),
        a.spec_height() == b.spec_height(),
        a.spec_cells() == b.spec_cells(),
    ensures
        spec_render_cells(a.spec_cells(), a.spec_width() as int, a.spec_height() as int)
            == spec_render_cells(b.spec_cells(), b.spec_width() as int, b.spec_height() as int),
{
}

/// The renderings of two same-sized grids agree at the glyph position of
/// `(row, col)` exactly when the two grids agree on that cell: the texts
/// differ precisely at the cells that differ.
pub proof fn lemma_render_diff(a: Universe, b: Universe, row: int, col: int)
    requires
        a.well_formed(),
        b.well_formed(),
        a.spec_width() == b.spec_width(),
        a.spec_height() == b.spec_height(),
        0 <= row < a.spec_height(),
        0 <= col < a.spec_width(),
    ensures
        spec_render_cells(a.spec_cells(), a.spec_width() as int, a.spec_height() as int).len()
            == spec_render_cells(b.spec_cells(), b.spec_width() as int, b.spec_height() as int).len(),
        (spec_render_cells(a.spec_cells(), a.spec_width() as int, a.spec_height() as int)[row * (
        a.spec_width() as int + 1) + col] == spec_render_cells(
            b.spec_cells(),
            b.spec_width() as int,
            b.spec_height() as int,
        )[row * (b.spec_width() as int + 1) + col]) <==> (a.cell_at(row, col) == b.cell_at(
            row,
            col,
        )),
{
    let w = a.spec_width() as int;
    let h = a.spec_height() as int;
    lemma_grid_index(w + 1, h, row, col);
    assert(h * (w + 1) == (w + 1) * h) by (nonlinear_arith);
    lemma_grid_index(w, h, row, col);
}

} // verus!
