//! The two-valued cell state and the local transition rule.

use vstd::prelude::*;

verus! {

/// The state of one grid cell. No other states exist.
#[derive(Debug, Copy, Clone, PartialEq, Eq, Structural)]
pub enum CellState {
    Dead,
    Alive,
}

/// The classic rule, applied to one cell given the number of Alive cells in
/// its Moore neighborhood of the current generation:
/// an Alive cell with fewer than 2 or more than 3 Alive neighbors dies
/// (underpopulation or overcrowding); a Dead cell with exactly 3 Alive
/// neighbors becomes Alive (reproduction); every other cell is unchanged.
pub open spec fn next_state(current: CellState, alive_neighbors: nat) -> CellState {
    match current {
        CellState::Alive => if alive_neighbors < 2 || alive_neighbors > 3 {
            CellState::Dead
        } else {
            CellState::Alive
        },
        CellState::Dead => if alive_neighbors == 3 {
            CellState::Alive
        } else {
            CellState::Dead
        },
    }
}

/// Computes the next state of one cell from its current state and its Alive
/// neighbor count.
pub fn next_cell(current: CellState, alive_neighbors: u8) -> (r: CellState)
    ensures
        r == next_state(current, alive_neighbors as nat),
{
    match current {
        CellState::Alive => if alive_neighbors < 2 || alive_neighbors > 3 {
            CellState::Dead
        } else {
            CellState::Alive
        },
        CellState::Dead => if alive_neighbors == 3 {
            CellState::Alive
        } else {
            CellState::Dead
        },
    }
}

} // verus!
