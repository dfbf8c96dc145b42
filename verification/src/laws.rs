//! The laws of the update rule, proved against the spec model: the
//! neighbour-count bound, the stasis and birth rules, and the block
//! still life.

use crate::grid::Cell;
use crate::grid::lemma_flat_coords;
use crate::grid::lemma_grid_index;
use crate::grid::spec_neighbour_count;
use crate::grid::spec_next_cells;
use crate::grid::spec_next_n;
use crate::wrap::wrap_dec;
use crate::wrap::wrap_inc;
use vstd::prelude::*;

verus! {

/// A live-neighbour count is a sum of eight zero-or-one weights, so it
/// always lies between 0 and 8, for every cell of every grid.
pub proof fn lemma_neighbour_count_bound(
    cells: Seq<Cell>,
    width: int,
    height: int,
    row: int,
    col: int,
)
    ensures
        0 <= spec_neighbour_count(cells, width, height, row, col) <= 8,
{
}

/// The stasis rule: a live cell survives the generation step exactly when
/// it has two or three live neighbours; with fewer or more it dies.
pub proof fn lemma_stasis(cells: Seq<Cell>, width: int, height: int, row: int, col: int)
    requires
        width >= 1,
        height >= 1,
        cells.len() == width * height,
        0 <= row < height,
        0 <= col < width,
        cells[row * width + col] == Cell::Alive,
    ensures
        spec_next_cells(cells, width, height)[row * width + col] == (if 2 <= spec_neighbour_count(
            cells,
            width,
            height,
            row,
            col,
        ) <= 3 {
            Cell::Alive
        } else {
            Cell::Dead
        }),
{
    lemma_grid_index(width, height, row, col);
}

/// The birth rule: a dead cell comes alive exactly when it has three live
/// neighbours; with any other count it stays dead.
pub proof fn lemma_birth(cells: Seq<Cell>, width: int, height: int, row: int, col: int)
    requires
        width >= 1,
        height >= 1,
        cells.len() == width * height,
        0 <= row < height,
        0 <= col < width,
        cells[row * width + col] == Cell::Dead,
    ensures
        spec_next_cells(cells, width, height)[row * width + col] == (if spec_neighbour_count(
            cells,
            width,
            height,
            row,
            col,
        ) == 3 {
            Cell::Alive
        } else {
            Cell::Dead
        }),
{
    lemma_grid_index(width, height, row, col);
}

/// The grid whose live cells are exactly the two-by-two block with corner
/// `(top, left)`.
pub open spec fn block_only(
    cells: Seq<Cell>,
    width: int,
    height: int,
    top: int,
    left: int,
) -> bool {
    forall|r: int, c: int|
        0 <= r < height && 0 <= c < width ==> #[trigger] cells[r * width + c] == (if top <= r <= top
            + 1 && left <= c <= left + 1 {
            Cell::Alive
        } else {
            Cell::Dead
        })
}

/// One cell of the block grid keeps its state over a generation step: each
/// block cell has exactly three live neighbours, and no dead cell has
/// three.
proof fn lemma_block_cell(
    cells: Seq<Cell>,
    width: int,
    height: int,
    top: int,
    left: int,
    r: int,
    c: int,
)
    requires
        cells.len() == width * height,
        1 <= top,
        top + 2 <= height - 1,
        1 <= left,
        left + 2 <= width - 1,
        block_only(cells, width, height, top, left),
        0 <= r < height,
        0 <= c < width,
    ensures
        next_state_of(cells, width, height, r, c) == cells[r * width + c],
{
    let up = wrap_dec(r, height);
    let down = wrap_inc(r, height);
    let lf = wrap_dec(c, width);
    let rt = wrap_inc(c, width);
    assert(0 <= up < height && 0 <= down < height && 0 <= lf < width && 0 <= rt < width);
    assert(cells[up * width + lf] == (if top <= up <= top + 1 && left <= lf <= left + 1 {
        Cell::Alive
    } else {
        Cell::Dead
    }));
    assert(cells[up * width + c] == (if top <= up <= top + 1 && left <= c <= left + 1 {
        Cell::Alive
    } else {
        Cell::Dead
    }));
    assert(cells[up * width + rt] == (if top <= up <= top + 1 && left <= rt <= left + 1 {
        Cell::Alive
    } else {
        Cell::Dead
    }));
    assert(cells[r * width + lf] == (if top <= r <= top + 1 && left <= lf <= left + 1 {
        Cell::Alive
    } else {
        Cell::Dead
    }));
    assert(cells[r * width + rt] == (if top <= r <= top + 1 && left <= rt <= left + 1 {
        Cell::Alive
    } else {
        Cell::Dead
    }));
    assert(cells[down * width + lf] == (if top <= down <= top + 1 && left <= lf <= left + 1 {
        Cell::Alive
    } else {
        Cell::Dead
    }));
    assert(cells[down * width + c] == (if top <= down <= top + 1 && left <= c <= left + 1 {
        Cell::Alive
    } else {
        Cell::Dead
    }));
    assert(cells[down * width + rt] == (if top <= down <= top + 1 && left <= rt <= left + 1 {
        Cell::Alive
    } else {
        Cell::Dead
    }));
    assert(cells[r * width + c] == (if top <= r <= top + 1 && left <= c <= left + 1 {
        Cell::Alive
    } else {
        Cell::Dead
    }));
}

/// The next state of the cell at `(r, c)`, written out for the proofs in
/// this module.
pub open spec fn next_state_of(cells: Seq<Cell>, width: int, height: int, r: int, c: int) -> Cell {
    crate::grid::next_state(
        cells[r * width + c],
        spec_neighbour_count(cells, width, height, r, c),
    )
}

/// The still-life law: a grid holding exactly a two-by-two block of live
/// cells away from every edge is unchanged by a generation step.
pub proof fn lemma_block_still_life(
    cells: Seq<Cell>,
    width: int,
    height: int,
    top: int,
    left: int,
)
    requires
        cells.len() == width * height,
        1 <= top,
        top + 2 <= height - 1,
        1 <= left,
        left + 2 <= width - 1,
        block_only(cells, width, height, top, left),
    ensures
        spec_next_cells(cells, width, height) == cells,
{
    assert forall|i: int| 0 <= i < cells.len() implies spec_next_cells(cells, width, height)[i]
        == cells[i] by {
        lemma_flat_coords(i, width, height);
        lemma_block_cell(cells, width, height, top, left, i / width, i % width);
    }
    assert(spec_next_cells(cells, width, height) =~= cells);
}

/// The block still life holds over any number of generation steps.
pub proof fn lemma_block_still_life_n(
    cells: Seq<Cell>,
    width: int,
    height: int,
    top: int,
    left: int,
    n: nat,
)
    requires
        cells.len() == width * height,
        1 <= top,
        top + 2 <= height - 1,
        1 <= left,
        left + 2 <= width - 1,
        block_only(cells, width, height, top, left),
    ensures
        spec_next_n(cells, width, height, n) == cells,
    decreases n,
{
    if n > 0 {
        lemma_block_still_life_n(cells, width, height, top, left, (n - 1) as nat);
        lemma_block_still_life(cells, width, height, top, left);
    }
}

} // verus!
