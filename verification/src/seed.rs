//! Seeding a universe from a plain-text pattern.
//!
//! The format: lines separated by `'\n'`; the grid's height is the number
//! of lines, its width the length of the longest line, and a cell is live
//! exactly where its line holds an `X` or an `x`; every other byte, and
//! every position beyond its line's end, is a dead cell.
//!
//! The spec model walks the byte sequence once: `rows_before` and `col_at`
//! give the coordinate a byte lands on, and `width_through` tracks the
//! longest line seen so far.

use crate::grid::Cell;
use crate::grid::Universe;
use crate::grid::lemma_grid_index;
use crate::grid::lemma_grid_index_injective;
use vstd::prelude::*;

verus! {

/// The byte value of `'\n'`.
pub const NEWLINE: u8 = 10;

/// The byte value of `'X'`.
pub const UPPER_MARK: u8 = 88;

/// The byte value of `'x'`.
pub const LOWER_MARK: u8 = 120;

/// The line separator.
pub open spec fn is_newline(b: u8) -> bool {
    b == NEWLINE
}

/// The bytes that mark a live cell.
pub open spec fn is_alive_mark(b: u8) -> bool {
    b == UPPER_MARK || b == LOWER_MARK
}

/// How many line separators sit among the first `i` bytes of `t`: the row
/// the byte at position `i` lands on.
pub open spec fn rows_before(t: Seq<u8>, i: int) -> nat
    decreases i,
{
    if i <= 0 {
        0
    } else {
        rows_before(t, i - 1) + (if is_newline(t[i - 1]) {
            1nat
        } else {
            0nat
        })
    }
}

/// How far into its line position `i` of `t` sits: the column the byte at
/// position `i` lands on.
pub open spec fn col_at(t: Seq<u8>, i: int) -> nat
    decreases i,
{
    if i <= 0 {
        0
    } else if is_newline(t[i - 1]) {
        0
    } else {
        col_at(t, i - 1) + 1
    }
}

/// The longest line length reached within the first `i` bytes of `t`.
pub open spec fn width_through(t: Seq<u8>, i: int) -> nat
    decreases i,
{
    if i <= 0 {
        0
    } else if col_at(t, i) > width_through(t, i - 1) {
        col_at(t, i)
    } else {
        width_through(t, i - 1)
    }
}

/// The width of the grid a seed text describes: the length of its longest
/// line.
pub open spec fn seed_width(t: Seq<u8>) -> nat {
    width_through(t, t.len() as int)
}

/// The height of the grid a seed text describes: the number of its lines,
/// an unterminated trailing line included.
pub open spec fn seed_height(t: Seq<u8>) -> nat {
    rows_before(t, t.len() as int) + (if col_at(t, t.len() as int) > 0 {
        1nat
    } else {
        0nat
    })
}

/// Whether the seed text marks the cell at `(row, col)` live: some `X` or
/// `x` byte lands on that coordinate.
pub open spec fn seed_alive(t: Seq<u8>, row: int, col: int) -> bool {
    exists|j: int|
        0 <= j < t.len() && is_alive_mark(t[j]) && rows_before(t, j) == row && col_at(t, j) == col
}

/// Whether the pair `m` is the coordinate of some live mark within the
/// first `i` bytes of `t`.
pub open spec fn mark_ok(t: Seq<u8>, i: int, m: (usize, usize)) -> bool {
    exists|j: int|
        0 <= j < i && is_alive_mark(t[j]) && rows_before(t, j) == m.0 && col_at(t, j) == m.1
}

/// Whether the mark list holds the coordinate of the live mark at
/// position `j` of `t`.
pub open spec fn marked(t: Seq<u8>, marks: Seq<(usize, usize)>, j: int) -> bool {
    exists|m: int|
        0 <= m < marks.len() && marks[m].0 == rows_before(t, j) && marks[m].1 == col_at(t, j)
}

/// Whether one of the first `k` marks is the pair `(row, col)`.
pub open spec fn in_marks(marks: Seq<(usize, usize)>, k: int, row: int, col: int) -> bool {
    exists|m: int| 0 <= m < k && marks[m].0 == row && marks[m].1 == col
}

/// A coordinate that is a live mark within the first `i1` bytes is one
/// within any longer prefix.
proof fn lemma_mark_ok_widen(t: Seq<u8>, i1: int, i2: int, m: (usize, usize))
    requires
        i1 <= i2,
        mark_ok(t, i1, m),
    ensures
        mark_ok(t, i2, m),
{
    let j = choose|j: int|
        0 <= j < i1 && is_alive_mark(t[j]) && rows_before(t, j) == m.0 && col_at(t, j) == m.1;
    assert(0 <= j < i2 && is_alive_mark(t[j]) && rows_before(t, j) == m.0 && col_at(t, j) == m.1);
}

/// The longest line length never shrinks as more of the text is read.
proof fn lemma_width_through_mono(t: Seq<u8>, i1: int, i2: int)
    requires
        i1 <= i2,
    ensures
        width_through(t, i1) <= width_through(t, i2),
    decreases i2 - i1,
{
    if i1 < i2 {
        lemma_width_through_mono(t, i1, i2 - 1);
    }
}

/// A byte that is not a line separator sits at a column strictly below the
/// seed width.
proof fn lemma_col_bound(t: Seq<u8>, j: int)
    requires
        0 <= j < t.len(),
        !is_newline(t[j]),
    ensures
        col_at(t, j) < seed_width(t),
{
    assert(col_at(t, j + 1) == col_at(t, j) + 1);
    assert(width_through(t, j + 1) >= col_at(t, j + 1));
    lemma_width_through_mono(t, j + 1, t.len() as int);
}

/// Below a position holding a byte that is not a line separator, the row
/// count stays strictly below the line count of any longer prefix.
proof fn lemma_row_bound_aux(t: Seq<u8>, j: int, k: int)
    requires
        0 <= j,
        j < k <= t.len(),
        !is_newline(t[j]),
    ensures
        rows_before(t, j) < rows_before(t, k) + (if col_at(t, k) > 0 {
            1nat
        } else {
            0nat
        }),
    decreases k - j,
{
    if k == j + 1 {
        assert(rows_before(t, j + 1) == rows_before(t, j));
        assert(col_at(t, j + 1) == col_at(t, j) + 1);
    } else {
        lemma_row_bound_aux(t, j, k - 1);
    }
}

/// A byte that is not a line separator sits on a row strictly below the
/// seed height.
proof fn lemma_row_bound(t: Seq<u8>, j: int)
    requires
        0 <= j < t.len(),
        !is_newline(t[j]),
    ensures
        rows_before(t, j) < seed_height(t),
{
    lemma_row_bound_aux(t, j, t.len() as int);
}

/// A text with a non-empty longest line has at least one line.
proof fn lemma_height_pos_aux(t: Seq<u8>, i: int)
    requires
        0 <= i <= t.len(),
        width_through(t, i) >= 1,
    ensures
        rows_before(t, i) + (if col_at(t, i) > 0 {
            1nat
        } else {
            0nat
        }) >= 1,
    decreases i,
{
    if col_at(t, i) == 0 {
        lemma_height_pos_aux(t, i - 1);
    }
}

/// A seed with positive width has positive height.
pub proof fn lemma_height_pos(t: Seq<u8>)
    requires
        seed_width(t) >= 1,
    ensures
        seed_height(t) >= 1,
{
    lemma_height_pos_aux(t, t.len() as int);
}

impl Universe {
    /// Builds the universe a seed text describes: height many rows, one
    /// per line; width many columns, as wide as the longest line; a live
    /// cell wherever the text holds an `X` or an `x`.  Returns `None`
    /// exactly when the text has no non-empty line or the grid would not
    /// fit the 32-bit index arithmetic.
    pub fn from_seed(text: &[u8]) -> (res: Option<Universe>)
        ensures
            res is Some <==> (seed_width(text@) >= 1 && seed_width(text@) * seed_height(text@)
                <= u32::MAX),
            res matches Some(u) ==> {
                &&& u.well_formed()
                &&& u.spec_width() == seed_width(text@)
                &&& u.spec_height() == seed_height(text@)
                &&& forall|r: int, c: int|
                    0 <= r < seed_height(text@) && 0 <= c < seed_width(text@) ==> (u.cell_at(r, c)
                        == Cell::Alive <==> seed_alive(text@, r, c))
            },
    {
        let ghost t = text@;
        let n = text.len();
        let mut i: usize = 0;
        let mut row: usize = 0;
        let mut col: usize = 0;
        let mut width: usize = 0;
        let mut marks: Vec<(usize, usize)> = Vec::new();
        while i < n
            invariant
                n == t.len(),
                t == text@,
                0 <= i <= n,
                row == rows_before(t, i as int),
                col == col_at(t, i as int),
                width == width_through(t, i as int),
                row + col <= i,
                forall|m: int| 0 <= m < marks@.len() ==> mark_ok(t, i as int, #[trigger] marks@[m]),
                forall|j: int|
                    0 <= j < i && is_alive_mark(#[trigger] t[j]) ==> marked(t, marks@, j),
            decreases n - i,
        {
            let ghost marks0 = marks@;
            let b = text[i];
            if b == NEWLINE {
                row += 1;
                col = 0;
            } else {
                if b == UPPER_MARK || b == LOWER_MARK {
                    marks.push((row, col));
                }
                col += 1;
                if col > width {
                    width = col;
                }
            }
            proof {
                assert forall|m: int| 0 <= m < marks@.len() implies mark_ok(
                    t,
                    i + 1,
                    #[trigger] marks@[m],
                ) by {
                    if m < marks0.len() {
                        lemma_mark_ok_widen(t, i as int, i + 1, marks0[m]);
                    } else {
                        assert(0 <= i < i + 1 && is_alive_mark(t[i as int]) && rows_before(
                            t,
                            i as int,
                        ) == marks@[m].0 && col_at(t, i as int) == marks@[m].1);
                    }
                }
                assert forall|j: int|
                    0 <= j < i + 1 && is_alive_mark(#[trigger] t[j]) implies marked(
                    t,
                    marks@,
                    j,
                ) by {
                    if j < i as int {
                        assert(marked(t, marks0, j));
                        let m = choose|m: int|
                            0 <= m < marks0.len() && marks0[m].0 == rows_before(t, j)
                                && marks0[m].1 == col_at(t, j);
                        assert(marks@[m] == marks0[m]);
                        assert(0 <= m < marks@.len() && marks@[m].0 == rows_before(t, j)
                            && marks@[m].1 == col_at(t, j));
                    } else {
                        let m = marks0.len() as int;
                        assert(0 <= m < marks@.len() && marks@[m].0 == rows_before(t, j)
                            && marks@[m].1 == col_at(t, j));
                    }
                }
            }
            i += 1;
        }
        let height = if col > 0 {
            row + 1
        } else {
            row
        };
        assert(height == seed_height(t));
        if width == 0 {
            return None;
        }
        proof {
            lemma_height_pos(t);
            assert(seed_width(t) * seed_height(t) >= seed_width(t) && seed_width(t) * seed_height(
                t,
            ) >= seed_height(t)) by (nonlinear_arith)
                requires
                    seed_width(t) >= 1,
                    seed_height(t) >= 1,
            ;
        }
        if width > u32::MAX as usize {
            return None;
        }
        if height > u32::MAX as usize {
            return None;
        }
        proof {
            assert((width as int) * (height as int) < 0x1_0000_0000_0000_0000) by (nonlinear_arith)
                requires
                    0 <= width as int <= 0xffff_ffff,
                    0 <= height as int <= 0xffff_ffff,
            ;
        }
        if (width as u64) * (height as u64) > u32::MAX as u64 {
            return None;
        }
        let w32 = width as u32;
        let h32 = height as u32;
        let mut universe = Universe::new(w32, h32);
        proof {
            assert forall|r: int, c: int|
                0 <= r < h32 && 0 <= c < w32 implies #[trigger] universe.cell_at(r, c)
                == Cell::Dead by {
                lemma_grid_index(w32 as int, h32 as int, r, c);
            }
        }
        let mut k: usize = 0;
        while k < marks.len()
            invariant
                t == text@,
                universe.well_formed(),
                universe.spec_width() == w32,
                universe.spec_height() == h32,
                w32 == seed_width(t),
                h32 == seed_height(t),
                0 <= k <= marks@.len(),
                forall|m: int|
                    0 <= m < marks@.len() ==> mark_ok(t, t.len() as int, #[trigger] marks@[m]),
                forall|j: int|
                    0 <= j < t.len() && is_alive_mark(#[trigger] t[j]) ==> marked(t, marks@, j),
                forall|r: int, c: int|
                    0 <= r < h32 && 0 <= c < w32 ==> (#[trigger] universe.cell_at(r, c)
                        == Cell::Alive <==> in_marks(marks@, k as int, r, c)),
            decreases marks@.len() - k,
        {
            let (mr, mc) = marks[k];
            proof {
                assert(mark_ok(t, t.len() as int, marks@[k as int]));
                let j = choose|j: int|
                    0 <= j < t.len() && is_alive_mark(t[j]) && rows_before(t, j) == mr && col_at(
                        t,
                        j,
                    ) == mc;
                assert(!is_newline(t[j]));
                lemma_row_bound(t, j);
                lemma_col_bound(t, j);
            }
            let ghost before = universe;
            universe.bless_cell(mr as u32, mc as u32);
            proof {
                assert forall|r: int, c: int|
                    0 <= r < h32 && 0 <= c < w32 implies (#[trigger] universe.cell_at(r, c)
                    == Cell::Alive <==> in_marks(marks@, k + 1, r, c)) by {
                    lemma_grid_index(w32 as int, h32 as int, r, c);
                    lemma_grid_index(w32 as int, h32 as int, mr as int, mc as int);
                    lemma_grid_index_injective(w32 as int, r, c, mr as int, mc as int);
                    if universe.cell_at(r, c) == Cell::Alive {
                        if r == mr && c == mc {
                            assert(marks@[k as int].0 == r && marks@[k as int].1 == c);
                        } else {
                            assert(before.cell_at(r, c) == Cell::Alive);
                        }
                    }
                    if in_marks(marks@, k + 1, r, c) {
                        let m = choose|m: int| 0 <= m < k + 1 && marks@[m].0 == r && marks@[m].1 == c;
                        if m < k as int {
                            assert(in_marks(marks@, k as int, r, c));
                            assert(before.cell_at(r, c) == Cell::Alive);
                        }
                    }
                }
            }
            k += 1;
        }
        proof {
            assert forall|r: int, c: int| 0 <= r < h32 && 0 <= c < w32 implies (in_marks(
                marks@,
                marks@.len() as int,
                r,
                c,
            ) <==> seed_alive(t, r, c)) by {
                if in_marks(marks@, marks@.len() as int, r, c) {
                    let m = choose|m: int|
                        0 <= m < marks@.len() && marks@[m].0 == r && marks@[m].1 == c;
                    assert(mark_ok(t, t.len() as int, marks@[m]));
                    let j = choose|j: int|
                        0 <= j < t.len() && is_alive_mark(t[j]) && rows_before(t, j)
                            == marks@[m].0 && col_at(t, j) == marks@[m].1;
                    assert(0 <= j < t.len() && is_alive_mark(t[j]) && rows_before(t, j) == r
                        && col_at(t, j) == c);
                }
                if seed_alive(t, r, c) {
                    let j = choose|j: int|
                        0 <= j < t.len() && is_alive_mark(t[j]) && rows_before(t, j) == r && col_at(
                            t,
                            j,
                        ) == c;
                    assert(marked(t, marks@, j));
                    let m = choose|m: int|
                        0 <= m < marks@.len() && marks@[m].0 == rows_before(t, j) && marks@[m].1
                            == col_at(t, j);
                    assert(0 <= m < marks@.len() && marks@[m].0 == r && marks@[m].1 == c);
                }
            }
        }
        Some(universe)
    }
}

} // verus!
