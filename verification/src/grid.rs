//! The grid engine: a toroidal Game of Life universe.
//!
//! A `Universe` owns a flat, row-major buffer of cells together with its
//! width and height.  The spec model states the neighbour count and the
//! B3/S23 update rule over the buffer's view, and every operation's
//! contract is phrased against that model.

use crate::wrap::wrap_dec;
use crate::wrap::wrap_inc;
use crate::wrap::wrapped_add_or_sub;
use vstd::arithmetic::div_mod::lemma_fundamental_div_mod_converse;
use vstd::prelude::*;

verus! {

/// The two states a cell can take; a cell has no identity beyond its value.
#[derive(Clone, Copy, Debug, PartialEq, Eq, Structural)]
pub enum Cell {
    Dead,
    Alive,
}

/// A toroidal Game of Life board: `cells` is the row-major flattening of a
/// `height` by `width` grid, so the cell at `(row, col)` sits at index
/// `row * width + col`.
pub struct Universe {
    width: u32,
    height: u32,
    cells: Vec<Cell>,
}

/// `1` for a live cell, `0` for a dead one; neighbour counts are sums of
/// these weights.
pub open spec fn alive_weight(c: Cell) -> int {
    if c == Cell::Alive {
        1
    } else {
        0
    }
}

/// The weight of the cell at `(row, col)` in a row-major buffer.
pub open spec fn weight_at(cells: Seq<Cell>, width: int, row: int, col: int) -> int {
    alive_weight(cells[row * width + col])
}

/// The number of live cells among the eight toroidally wrapped neighbours
/// of `(row, col)`.  On a one-wide or one-tall axis the wrapped offsets can
/// coincide, so the same cell may be counted more than once; that is the
/// plain consequence of modular wraparound.
pub open spec fn spec_neighbour_count(
    cells: Seq<Cell>,
    width: int,
    height: int,
    row: int,
    col: int,
) -> int {
    weight_at(cells, width, wrap_dec(row, height), wrap_dec(col, width)) + weight_at(
        cells,
        width,
        wrap_dec(row, height),
        col,
    ) + weight_at(cells, width, wrap_dec(row, height), wrap_inc(col, width)) + weight_at(
        cells,
        width,
        row,
        wrap_dec(col, width),
    ) + weight_at(cells, width, row, wrap_inc(col, width)) + weight_at(
        cells,
        width,
        wrap_inc(row, height),
        wrap_dec(col, width),
    ) + weight_at(cells, width, wrap_inc(row, height), col) + weight_at(
        cells,
        width,
        wrap_inc(row, height),
        wrap_inc(col, width),
    )
}

/// The classic Life rule (birth on exactly 3, survival on 2 or 3): the next
/// state of a cell from its current state and its live-neighbour count.
pub open spec fn next_state(c: Cell, neighbours: int) -> Cell {
    match c {
        Cell::Alive => if neighbours < 2 {
            Cell::Dead
        } else if neighbours == 2 || neighbours == 3 {
            Cell::Alive
        } else {
            Cell::Dead
        },
        Cell::Dead => if neighbours == 3 {
            Cell::Alive
        } else {
            Cell::Dead
        },
    }
}

/// The whole next generation: every cell is updated simultaneously against
/// the current buffer.
pub open spec fn spec_next_cells(cells: Seq<Cell>, width: int, height: int) -> Seq<Cell> {
    Seq::new(
        cells.len(),
        |i: int|
            next_state(cells[i], spec_neighbour_count(cells, width, height, i / width, i % width)),
    )
}

/// The buffer `n` generations ahead.
pub open spec fn spec_next_n(cells: Seq<Cell>, width: int, height: int, n: nat) -> Seq<Cell>
    decreases n,
{
    if n == 0 {
        cells
    } else {
        spec_next_cells(spec_next_n(cells, width, height, (n - 1) as nat), width, height)
    }
}

/// Row-major index arithmetic: the flat index of an in-range coordinate
/// pair is in bounds, and the pair can be recovered from it.
pub proof fn lemma_grid_index(width: int, height: int, row: int, col: int)
    requires
        width >= 1,
        height >= 1,
        0 <= row < height,
        0 <= col < width,
    ensures
        0 <= row * width + col < width * height,
        (row * width + col) / width == row,
        (row * width + col) % width == col,
{
    assert(0 <= row * width + col < width * height) by (nonlinear_arith)
        requires
            width >= 1,
            height >= 1,
            0 <= row < height,
            0 <= col < width,
    ;
    lemma_fundamental_div_mod_converse(row * width + col, width, row, col);
}

/// Distinct in-range coordinate pairs have distinct flat indices.
pub proof fn lemma_grid_index_injective(width: int, r1: int, c1: int, r2: int, c2: int)
    requires
        width >= 1,
        0 <= r1,
        0 <= c1 < width,
        0 <= r2,
        0 <= c2 < width,
    ensures
        (r1 * width + c1 == r2 * width + c2) <==> (r1 == r2 && c1 == c2),
{
    if r1 * width + c1 == r2 * width + c2 {
        lemma_fundamental_div_mod_converse(r1 * width + c1, width, r1, c1);
        lemma_fundamental_div_mod_converse(r2 * width + c2, width, r2, c2);
    }
}

/// Any in-bounds flat index decomposes into an in-range coordinate pair.
pub proof fn lemma_flat_coords(i: int, width: int, height: int)
    requires
        width >= 1,
        height >= 1,
        0 <= i < width * height,
    ensures
        0 <= i / width < height,
        0 <= i % width < width,
        i == (i / width) * width + (i % width),
{
    assert(0 <= i / width < height && 0 <= i % width < width && i == (i / width) * width + (i
        % width)) by (nonlinear_arith)
        requires
            width >= 1,
            height >= 1,
            0 <= i < width * height,
    ;
}

/// `1` for a live cell, `0` for a dead one, as a machine integer.
fn cell_weight(c: Cell) -> (w: u8)
    ensures
        w == alive_weight(c),
{
    match c {
        Cell::Alive => 1,
        Cell::Dead => 0,
    }
}

impl Universe {
    /// The grid's width, for contracts.
    pub closed spec fn spec_width(&self) -> u32 {
        self.width
    }

    /// The grid's height, for contracts.
    pub closed spec fn spec_height(&self) -> u32 {
        self.height
    }

    /// The cell buffer's view, for contracts.
    pub closed spec fn spec_cells(&self) -> Seq<Cell> {
        self.cells@
    }

    /// The structural invariant: both dimensions are at least one, the
    /// buffer holds exactly one cell per coordinate pair, and the cell
    /// count fits the index arithmetic.
    pub open spec fn well_formed(&self) -> bool {
        &&& self.spec_width() >= 1
        &&& self.spec_height() >= 1
        &&& self.spec_cells().len() == self.spec_width() * self.spec_height()
        &&& self.spec_width() * self.spec_height() <= u32::MAX
    }

    /// The cell at `(row, col)`, through the row-major flattening.
    pub open spec fn cell_at(&self, row: int, col: int) -> Cell {
        self.spec_cells()[row * self.spec_width() + col]
    }

    /// The flat index of `(row, col)`.
    fn get_index(&self, row: u32, col: u32) -> (i: usize)
        requires
            self.well_formed(),
            row < self.spec_height(),
            col < self.spec_width(),
        ensures
            i == row * self.spec_width() + col,
            i < self.spec_cells().len(),
    {
        proof {
            lemma_grid_index(
                self.spec_width() as int,
                self.spec_height() as int,
                row as int,
                col as int,
            );
        }
        (row * self.width + col) as usize
    }

    /// A read-only view of the cell buffer.
    pub fn get_cells(&self) -> (cells: &[Cell])
        ensures
            cells@ == self.spec_cells(),
    {
        self.cells.as_slice()
    }

    /// Counts the live cells among the eight toroidally wrapped neighbours
    /// of `(row, col)`; the result is always between 0 and 8.
    pub fn live_neighbour_count(&self, row: u32, col: u32) -> (n: u8)
        requires
            self.well_formed(),
            row < self.spec_height(),
            col < self.spec_width(),
        ensures
            n == spec_neighbour_count(
                self.spec_cells(),
                self.spec_width() as int,
                self.spec_height() as int,
                row as int,
                col as int,
            ),
            n <= 8,
    {
        let up = wrapped_add_or_sub(row, self.height, -1);
        let down = wrapped_add_or_sub(row, self.height, 1);
        let left = wrapped_add_or_sub(col, self.width, -1);
        let right = wrapped_add_or_sub(col, self.width, 1);
        let mut count: u8 = 0;
        count += cell_weight(self.cells[self.get_index(up, left)]);
        count += cell_weight(self.cells[self.get_index(up, col)]);
        count += cell_weight(self.cells[self.get_index(up, right)]);
        count += cell_weight(self.cells[self.get_index(row, left)]);
        count += cell_weight(self.cells[self.get_index(row, right)]);
        count += cell_weight(self.cells[self.get_index(down, left)]);
        count += cell_weight(self.cells[self.get_index(down, col)]);
        count += cell_weight(self.cells[self.get_index(down, right)]);
        count
    }

    /// Computes the whole next generation from the current buffer, leaving
    /// the current one untouched.
    fn next_generation(&self) -> (next: Vec<Cell>)
        requires
            self.well_formed(),
        ensures
            next@ == spec_next_cells(
                self.spec_cells(),
                self.spec_width() as int,
                self.spec_height() as int,
            ),
    {
        let w = self.width;
        let h = self.height;
        let ghost target = spec_next_cells(self.spec_cells(), w as int, h as int);
        let mut next: Vec<Cell> = Vec::new();
        let mut row: u32 = 0;
        while row < h
            invariant
                self.well_formed(),
                w == self.spec_width(),
                h == self.spec_height(),
                target == spec_next_cells(self.spec_cells(), w as int, h as int),
                row <= h,
                next@.len() == row * w,
                forall|k: int| 0 <= k < next@.len() ==> next@[k] == target[k],
            decreases h - row,
        {
            let mut col: u32 = 0;
            while col < w
                invariant
                    self.well_formed(),
                    w == self.spec_width(),
                    h == self.spec_height(),
                    target == spec_next_cells(self.spec_cells(), w as int, h as int),
                    row < h,
                    col <= w,
                    next@.len() == row * w + col,
                    forall|k: int| 0 <= k < next@.len() ==> next@[k] == target[k],
                decreases w - col,
            {
                let i = self.get_index(row, col);
                let cell = self.cells[i];
                let live_neighbours = self.live_neighbour_count(row, col);
                let state = match (cell, live_neighbours) {
                    (Cell::Alive, x) if x < 2 => Cell::Dead,
                    (Cell::Alive, 2) | (Cell::Alive, 3) => Cell::Alive,
                    (Cell::Alive, x) if x > 3 => Cell::Dead,
                    (Cell::Dead, 3) => Cell::Alive,
                    (x, _) => x,
                };
                proof {
                    lemma_grid_index(w as int, h as int, row as int, col as int);
                    assert(state == target[row as int * w as int + col as int]);
                }
                next.push(state);
                col += 1;
            }
            proof {
                assert(row * w + w == (row + 1) * w) by (nonlinear_arith);
            }
            row += 1;
        }
        proof {
            assert(h as int * w as int == w as int * h as int) by (nonlinear_arith);
            assert(next@ =~= target);
        }
        next
    }

    /// Advances the grid one generation: the rule is evaluated against the
    /// current buffer only, and the buffer is replaced wholesale.
    pub fn tick(&mut self)
        requires
            old(self).well_formed(),
        ensures
            final(self).well_formed(),
            final(self).spec_width() == old(self).spec_width(),
            final(self).spec_height() == old(self).spec_height(),
            final(self).spec_cells() == spec_next_cells(
                old(self).spec_cells(),
                old(self).spec_width() as int,
                old(self).spec_height() as int,
            ),
    {
        let next = self.next_generation();
        self.cells = next;
    }

    /// The grid's width.
    pub fn width(&self) -> (w: u32)
        ensures
            w == self.spec_width(),
    {
        self.width
    }

    /// The grid's height.
    pub fn height(&self) -> (h: u32)
        ensures
            h == self.spec_height(),
    {
        self.height
    }

    /// Constructs a grid of the given dimensions with every cell dead.
    /// Both dimensions must be at least one, and the cell count must fit
    /// the 32-bit index arithmetic.
    pub fn new(width: u32, height: u32) -> (r: Universe)
        requires
            width >= 1,
            height >= 1,
            width * height <= u32::MAX,
        ensures
            r.well_formed(),
            r.spec_width() == width,
            r.spec_height() == height,
            forall|i: int| 0 <= i < r.spec_cells().len() ==> r.spec_cells()[i] == Cell::Dead,
    {
        let n = width * height;
        let mut cells: Vec<Cell> = Vec::new();
        let mut i: u32 = 0;
        while i < n
            invariant
                i <= n,
                cells@.len() == i,
                forall|k: int| 0 <= k < cells@.len() ==> cells@[k] == Cell::Dead,
            decreases n - i,
        {
            cells.push(Cell::Dead);
            i += 1;
        }
        Universe { width, height, cells }
    }

    /// Sets the cell at `(row, col)` to alive; every other cell is kept.
    pub fn bless_cell(&mut self, row: u32, col: u32)
        requires
            old(self).well_formed(),
            row < old(self).spec_height(),
            col < old(self).spec_width(),
        ensures
            final(self).well_formed(),
            final(self).spec_width() == old(self).spec_width(),
            final(self).spec_height() == old(self).spec_height(),
            final(self).spec_cells() == old(self).spec_cells().update(
                row * old(self).spec_width() + col,
                Cell::Alive,
            ),
    {
        let i = self.get_index(row, col);
        self.cells[i] = Cell::Alive;
    }
}

/// A five-by-five grid holding a horizontal blinker on its fourth row: the
/// default pattern a caller starts from.
pub fn oscillator() -> (r: Universe)
    ensures
        r.well_formed(),
        r.spec_width() == 5,
        r.spec_height() == 5,
        forall|row: int, col: int|
            0 <= row < 5 && 0 <= col < 5 ==> r.cell_at(row, col) == (if row == 3 && 1 <= col <= 3 {
                Cell::Alive
            } else {
                Cell::Dead
            }),
{
    let mut board = Universe::new(5, 5);
    board.bless_cell(3, 1);
    board.bless_cell(3, 2);
    board.bless_cell(3, 3);
    proof {
        assert(board.spec_cells().len() == 25);
        assert forall|row: int, col: int|
            0 <= row < 5 && 0 <= col < 5 implies board.cell_at(row, col) == (if row == 3 && 1
            <= col <= 3 {
            Cell::Alive
        } else {
            Cell::Dead
        }) by {
            let i = row * 5 + col;
            assert(0 <= i < 25);
            assert(i == 16 <==> row == 3 && col == 1);
            assert(i == 17 <==> row == 3 && col == 2);
            assert(i == 18 <==> row == 3 && col == 3);
        }
    }
    board
}

/// Advances the board `iterations` generations.
pub fn benchmark(board: &mut Universe, iterations: u32)
    requires
        old(board).well_formed(),
    ensures
        final(board).well_formed(),
        final(board).spec_width() == old(board).spec_width(),
        final(board).spec_height() == old(board).spec_height(),
        final(board).spec_cells() == spec_next_n(
            old(board).spec_cells(),
            old(board).spec_width() as int,
            old(board).spec_height() as int,
            iterations as nat,
        ),
{
    let mut i: u32 = 0;
    while i < iterations
        invariant
            i <= iterations,
            board.well_formed(),
            board.spec_width() == old(board).spec_width(),
            board.spec_height() == old(board).spec_height(),
            board.spec_cells() == spec_next_n(
                old(board).spec_cells(),
                old(board).spec_width() as int,
                old(board).spec_height() as int,
                i as nat,
            ),
        decreases iterations - i,
    {
        board.tick();
        i += 1;
    }
}

} // verus!
