//! Index arithmetic on a square grid whose edges wrap around.
//!
//! A cell is named by its row-major index: on a grid of side `size` the
//! cell in row `r` and column `c` has index `r * size + c`. Moving off one
//! edge re-enters the grid on the opposite edge, in the same row or column.

use vstd::arithmetic::div_mod::{lemma_fundamental_div_mod, lemma_fundamental_div_mod_converse};
use vstd::prelude::*;

verus! {

/// The four headings on the grid.
#[derive(Clone, Copy, Debug, PartialEq, Eq, Structural)]
pub enum Direction {
    LEFT,
    RIGHT,
    UP,
    DOWN,
}

impl Direction {
    /// The heading that points the other way: `LEFT` and `RIGHT` are a pair,
    /// `UP` and `DOWN` are a pair.
    pub open spec fn opposite(self) -> Direction {
        match self {
            Direction::LEFT => Direction::RIGHT,
            Direction::RIGHT => Direction::LEFT,
            Direction::UP => Direction::DOWN,
            Direction::DOWN => Direction::UP,
        }
    }

    /// `LEFT` and `RIGHT` move along a row.
    pub open spec fn is_horizontal(self) -> bool {
        self == Direction::LEFT || self == Direction::RIGHT
    }
}

/// A grid has at least one cell, and its cell count fits in a machine word.
pub open spec fn valid_grid(size: int) -> bool {
    0 < size && size * size <= usize::MAX
}

/// Number of cells of a grid of side `size`.
pub open spec fn cell_count(size: int) -> int {
    size * size
}

/// `idx` names a cell of the grid of side `size`.
pub open spec fn in_grid(idx: int, size: int) -> bool {
    0 <= idx < size * size
}

/// Row of the cell `idx`, counted from the top.
pub open spec fn row_of(idx: int, size: int) -> int {
    idx / size
}

/// Column of the cell `idx`, counted from the left.
pub open spec fn column_of(idx: int, size: int) -> int {
    idx % size
}

/// Index of the cell in row `row` and column `column`.
pub open spec fn cell_at(row: int, column: int, size: int) -> int {
    row * size + column
}

/// One place further along an axis of length `size`, the last place wrapping to the first.
pub open spec fn wrap_forward(place: int, size: int) -> int {
    if place + 1 == size {
        0
    } else {
        place + 1
    }
}

/// One place back along an axis of length `size`, the first place wrapping to the last.
pub open spec fn wrap_back(place: int, size: int) -> int {
    if place == 0 {
        size - 1
    } else {
        place - 1
    }
}

/// The cell reached from `idx` by one move towards `direction`.
pub open spec fn next_cell(idx: int, size: int, direction: Direction) -> int {
    let row = row_of(idx, size);
    let column = column_of(idx, size);
    match direction {
        Direction::RIGHT => cell_at(row, wrap_forward(column, size), size),
        Direction::LEFT => cell_at(row, wrap_back(column, size), size),
        Direction::DOWN => cell_at(wrap_forward(row, size), column, size),
        Direction::UP => cell_at(wrap_back(row, size), column, size),
    }
}

/// A cell index splits into a row and a column, both inside the grid.
pub proof fn lemma_cell_splits(idx: int, size: int)
    requires
        0 < size,
        in_grid(idx, size),
    ensures
        0 <= row_of(idx, size) < size,
        0 <= column_of(idx, size) < size,
        idx == cell_at(row_of(idx, size), column_of(idx, size), size),
{
    lemma_fundamental_div_mod(idx, size);
    let row = idx / size;
    assert(size * row == row * size) by (nonlinear_arith);
    assert(0 <= row < size) by (nonlinear_arith)
        requires
            0 < size,
            0 <= idx < size * size,
            idx == row * size + idx % size,
            0 <= idx % size < size,
    ;
}

/// A row and a column inside the grid name a cell, and are recovered from its index.
pub proof fn lemma_cell_at_joins(row: int, column: int, size: int)
    requires
        0 <= row < size,
        0 <= column < size,
    ensures
        in_grid(cell_at(row, column, size), size),
        row_of(cell_at(row, column, size), size) == row,
        column_of(cell_at(row, column, size), size) == column,
{
    lemma_fundamental_div_mod_converse(row * size + column, size, row, column);
    assert(0 <= row * size + column < size * size) by (nonlinear_arith)
        requires
            0 <= row < size,
            0 <= column < size,
    ;
}

/// The coordinates of the cell that a move ends on: the move takes one
/// coordinate a place around its ring and leaves the other as it is.
pub proof fn lemma_next_cell_coordinates(idx: int, size: int, direction: Direction)
    requires
        0 < size,
        in_grid(idx, size),
    ensures
        in_grid(next_cell(idx, size, direction), size),
        row_of(next_cell(idx, size, direction), size) == match direction {
            Direction::UP => wrap_back(row_of(idx, size), size),
            Direction::DOWN => wrap_forward(row_of(idx, size), size),
            _ => row_of(idx, size),
        },
        column_of(next_cell(idx, size, direction), size) == match direction {
            Direction::LEFT => wrap_back(column_of(idx, size), size),
            Direction::RIGHT => wrap_forward(column_of(idx, size), size),
            _ => column_of(idx, size),
        },
{
    lemma_cell_splits(idx, size);
    let row = row_of(idx, size);
    let column = column_of(idx, size);
    match direction {
        Direction::RIGHT => lemma_cell_at_joins(row, wrap_forward(column, size), size),
        Direction::LEFT => lemma_cell_at_joins(row, wrap_back(column, size), size),
        Direction::DOWN => lemma_cell_at_joins(wrap_forward(row, size), column, size),
        Direction::UP => lemma_cell_at_joins(wrap_back(row, size), column, size),
    }
}

/// Wraparound closure: a move from a cell of the grid ends on a cell of the grid.
pub proof fn lemma_next_cell_in_grid(idx: int, size: int, direction: Direction)
    requires
        0 < size,
        in_grid(idx, size),
    ensures
        in_grid(next_cell(idx, size, direction), size),
{
    lemma_next_cell_coordinates(idx, size, direction);
}

/// A move along a row keeps the row; a move along a column keeps the column.
pub proof fn lemma_next_cell_keeps_line(idx: int, size: int, direction: Direction)
    requires
        0 < size,
        in_grid(idx, size),
    ensures
        direction.is_horizontal() ==> row_of(next_cell(idx, size, direction), size)
            == row_of(idx, size),
        !direction.is_horizontal() ==> column_of(next_cell(idx, size, direction), size)
            == column_of(idx, size),
{
    lemma_next_cell_coordinates(idx, size, direction);
}

/// A move followed by the move in the opposite direction ends where it began.
pub proof fn lemma_next_cell_round_trip(idx: int, size: int, direction: Direction)
    requires
        0 < size,
        in_grid(idx, size),
    ensures
        next_cell(next_cell(idx, size, direction), size, direction.opposite()) == idx,
{
    lemma_cell_splits(idx, size);
    lemma_next_cell_coordinates(idx, size, direction);
}

/// The moves, written on the index itself: to the right the column is
/// `(idx + 1) % size`, to the left `(column + size - 1) % size`; up is
/// `idx - size`, from the top row the same column of the bottom row; down is
/// `(idx + size) % (size * size)`.
pub proof fn lemma_next_cell_by_index(idx: int, size: int)
    requires
        0 < size,
        in_grid(idx, size),
    ensures
        next_cell(idx, size, Direction::RIGHT) == (idx / size) * size + (idx + 1) % size,
        next_cell(idx, size, Direction::LEFT) == (idx / size) * size + (idx % size + size - 1)
            % size,
        next_cell(idx, size, Direction::UP) == if idx < size {
            (size - 1) * size + idx % size
        } else {
            idx - size
        },
        next_cell(idx, size, Direction::DOWN) == (idx + size) % (size * size),
{
    lemma_cell_splits(idx, size);
    let row = idx / size;
    let column = idx % size;
    // Right.
    if column + 1 == size {
        assert(idx + 1 == (row + 1) * size + 0) by (nonlinear_arith)
            requires
                idx == row * size + column,
                column + 1 == size,
        ;
        lemma_fundamental_div_mod_converse(idx + 1, size, row + 1, 0);
    } else {
        lemma_fundamental_div_mod_converse(idx + 1, size, row, column + 1);
    }
    // Left.
    if column == 0 {
        lemma_fundamental_div_mod_converse(column + size - 1, size, 0, size - 1);
    } else {
        lemma_fundamental_div_mod_converse(column + size - 1, size, 1, column - 1);
    }
    // Up.
    assert(idx < size <==> row == 0) by (nonlinear_arith)
        requires
            idx == row * size + column,
            0 <= row,
            0 <= column < size,
    ;
    assert((row - 1) * size + column == idx - size) by (nonlinear_arith)
        requires
            idx == row * size + column,
    ;
    // Down.
    if row + 1 == size {
        assert(idx + size == 1 * (size * size) + column) by (nonlinear_arith)
            requires
                idx == row * size + column,
                row + 1 == size,
        ;
        assert(column < size * size) by (nonlinear_arith)
            requires
                0 <= column < size,
        ;
        lemma_fundamental_div_mod_converse(idx + size, size * size, 1, column);
    } else {
        assert(idx + size == (row + 1) * size + column) by (nonlinear_arith)
            requires
                idx == row * size + column,
        ;
        lemma_cell_at_joins(row + 1, column, size);
        lemma_fundamental_div_mod_converse(idx + size, size * size, 0, idx + size);
    }
}

/// Computes the cell reached from `idx` by one move towards `direction`.
pub fn next_index(idx: usize, size: usize, direction: Direction) -> (next: usize)
    requires
        valid_grid(size as int),
        in_grid(idx as int, size as int),
    ensures
        next == next_cell(idx as int, size as int, direction),
        in_grid(next as int, size as int),
        direction.is_horizontal() ==> row_of(next as int, size as int)
            == row_of(idx as int, size as int),
        !direction.is_horizontal() ==> column_of(next as int, size as int)
            == column_of(idx as int, size as int),
{
    proof {
        lemma_cell_splits(idx as int, size as int);
        lemma_next_cell_coordinates(idx as int, size as int, direction);
        lemma_next_cell_by_index(idx as int, size as int);
    }
    let rows_passed: usize = (idx / size) * size;
    let column: usize = idx % size;
    match direction {
        Direction::RIGHT => rows_passed + (idx + 1) % size,
        Direction::LEFT => {
            let previous: usize = if column == 0 {
                size - 1
            } else {
                column - 1
            };
            rows_passed + previous
        },
        Direction::UP => {
            if idx < size {
                (size - 1) * size + column
            } else {
                idx - size
            }
        },
        Direction::DOWN => {
            // `idx + size` may exceed a machine word on the bottom row, so
            // the wrap is taken before the sum.
            assert(size <= size * size) by (nonlinear_arith)
                requires
                    0 < size,
            ;
            let bottom_row: usize = size * size - size;
            if idx >= bottom_row {
                proof {
                    lemma_fundamental_div_mod_converse(
                        idx + size,
                        size * size,
                        1,
                        idx - bottom_row,
                    );
                }
                idx - bottom_row
            } else {
                proof {
                    lemma_fundamental_div_mod_converse(idx + size, size * size, 0, idx + size);
                }
                idx + size
            }
        },
    }
}

} // verus!
