use vstd::prelude::*;

verus! {

/// The state of one square of the grid.
#[derive(Clone, Copy, Debug, PartialEq, Eq, Structural)]
pub enum Cell {
    Alive,
    Dead,
}

/// The transition rule: the state a cell takes in the next generation,
/// given its present state and the number `n` of its Alive neighbours.
pub open spec fn next_state(c: Cell, n: int) -> Cell {
    match c {
        Cell::Alive => if 2 <= n <= 3 { Cell::Alive } else { Cell::Dead },
        Cell::Dead => if n == 3 { Cell::Alive } else { Cell::Dead },
    }
}

/// Applies the transition rule: underpopulation, survival, overpopulation
/// and birth, in that order; any other case keeps the present state.
pub fn next_cell(c: Cell, n: u8) -> (r: Cell)
    ensures
        r == next_state(c, n as int),
{
    match c {
        Cell::Alive if n < 2 => Cell::Dead,
        Cell::Alive if n == 2 || n == 3 => Cell::Alive,
        Cell::Alive if n > 3 => Cell::Dead,
        Cell::Dead if n == 3 => Cell::Alive,
        _ => c,
    }
}

} // verus!
