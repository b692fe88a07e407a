//! Reward placement by rejection: the host draws a cell at random, and the
//! draw is taken if the cell is free and turned down if it is not.

use crate::grid::{cell_count, in_grid, valid_grid};
use crate::snake::{cell_indices, SnakeCell};
use vstd::prelude::*;
use vstd::seq_lib::seq_to_set_is_finite;
use vstd::set_lib::{lemma_int_range, lemma_len_subset, set_int_range};

verus! {

/// Placement was asked for on a grid that the snake covers entirely.
#[derive(Clone, Copy, Debug, PartialEq, Eq, Structural)]
pub enum InvariantError {
    /// No cell of the grid is free.
    GridFull,
}

/// `cell` lies on the grid of side `size` and no segment of `body` lies on it.
pub open spec fn is_free_cell(body: Seq<int>, size: int, cell: int) -> bool {
    in_grid(cell, size) && !body.contains(cell)
}

/// Some cell of the grid of side `size` is free of `body`.
pub open spec fn has_free_cell(body: Seq<int>, size: int) -> bool {
    exists|cell: int| is_free_cell(body, size, cell)
}

/// What becomes of one random draw.
///
/// A draw that names a free cell is taken. Any other draw is turned down:
/// with `Ok(None)` while a free cell is left, so that another draw can
/// succeed, and with an error once the grid is full.
pub open spec fn reward_pick(body: Seq<int>, size: int, draw: usize) -> Result<
    Option<usize>,
    InvariantError,
> {
    if is_free_cell(body, size, draw as int) {
        Ok(Some(draw))
    } else if has_free_cell(body, size) {
        Ok(None)
    } else {
        Err(InvariantError::GridFull)
    }
}

/// A body with fewer segments than the grid has cells leaves a cell free,
/// wherever its segments lie.
pub proof fn lemma_short_body_leaves_room(body: Seq<int>, size: int)
    requires
        body.len() < cell_count(size),
    ensures
        has_free_cell(body, size),
{
    let cells = set_int_range(0, size * size);
    let taken = body.to_set();
    lemma_int_range(0, size * size);
    seq_to_set_is_finite(body);
    body.lemma_cardinality_of_set();
    if cells.subset_of(taken) {
        lemma_len_subset(cells, taken);
    }
    let free = choose|cell: int| cells.contains(cell) && !taken.contains(cell);
    assert(is_free_cell(body, size, free));
}

/// Whether a segment lies on `cell`.
pub fn is_occupied(positions: &Vec<SnakeCell>, cell: usize) -> (occupied: bool)
    ensures
        occupied == cell_indices(positions@).contains(cell as int),
{
    let mut idx: usize = 0;
    while idx < positions.len()
        invariant
            idx <= positions@.len(),
            forall|i: int| 0 <= i < idx ==> cell_indices(positions@)[i] != cell,
        decreases positions@.len() - idx,
    {
        if positions[idx].0 == cell {
            assert(cell_indices(positions@)[idx as int] == cell);
            return true;
        }
        idx += 1;
    }
    false
}

/// Whether any cell of the grid is left for a reward.
pub fn free_cell_exists(positions: &Vec<SnakeCell>, size: usize) -> (exists_free: bool)
    requires
        valid_grid(size as int),
    ensures
        exists_free == has_free_cell(cell_indices(positions@), size as int),
{
    let total: usize = size * size;
    let mut cell: usize = 0;
    while cell < total
        invariant
            cell <= total == size * size,
            forall|c: int| 0 <= c < cell ==> !is_free_cell(cell_indices(positions@), size as int, c),
        decreases total - cell,
    {
        if !is_occupied(positions, cell) {
            assert(is_free_cell(cell_indices(positions@), size as int, cell as int));
            return true;
        }
        cell += 1;
    }
    false
}

} // verus!
