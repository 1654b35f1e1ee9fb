//! A single cell and the rule that decides whether it lives on.

use vstd::prelude::*;

verus! {

/// One position of the grid: alive or dead, nothing else.
#[derive(Clone, Copy, Debug, PartialEq, Eq, Structural)]
pub struct Cell {
    pub alive: bool,
}

/// The rule of the game: a cell is alive in the next generation exactly when
/// it has three live neighbours, or is alive now and has two.
pub open spec fn lives_on(alive: bool, live_neighbors: int) -> bool {
    live_neighbors == 3 || (alive && live_neighbors == 2)
}

/// Whether a cell that is `alive` now, with `live_neighbors` live cells
/// around it, is alive in the next generation.
pub fn next_state(alive: bool, live_neighbors: usize) -> (next: bool)
    ensures
        next == lives_on(alive, live_neighbors as int),
        alive && live_neighbors < 2 ==> !next,
        alive && (live_neighbors == 2 || live_neighbors == 3) ==> next,
        alive && live_neighbors >= 4 ==> !next,
        !alive ==> (next <==> live_neighbors == 3),
{
    if alive {
        if live_neighbors < 2 {
            false
        } else if live_neighbors <= 3 {
            true
        } else {
            false
        }
    } else {
        live_neighbors == 3
    }
}

} // verus!
