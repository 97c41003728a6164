//! The move-suggestion collaborator, kept behind its narrow interface: it is
//! built from a read-only snapshot of the grid at board activation and then
//! started. Its suggestions flow through a channel outside this crate's
//! scope, and it never mutates the board.

use vstd::prelude::*;

use crate::cell::BoardCell;
use crate::grid::{view_grid, BoardCells};

verus! {

/// A handle on the collaborator: the grid snapshot it reasons over, and
/// whether it has been started.
pub struct Solver {
    pub snapshot: BoardCells,
    pub running: bool,
}

impl Solver {
    /// Capture a snapshot of the grid at activation; the solver is not yet
    /// running.
    pub fn from_grid_snapshot(grid: &BoardCells) -> (r: Solver)
        ensures
            view_grid(r.snapshot) == view_grid(*grid),
            !r.running,
    {
        let mut snapshot: BoardCells = Vec::new();
        let mut i: usize = 0;
        while i < grid.len()
            invariant
                i <= grid@.len(),
                view_grid(snapshot) =~~= view_grid(*grid).take(i as int),
            decreases grid@.len() - i,
        {
            let row = &grid[i];
            let mut row_copy: Vec<BoardCell> = Vec::new();
            let mut j: usize = 0;
            while j < row.len()
                invariant
                    j <= row@.len(),
                    row_copy@ =~= row@.take(j as int),
                decreases row@.len() - j,
            {
                row_copy.push(row[j]);
                j = j + 1;
            }
            let ghost prev = view_grid(snapshot);
            snapshot.push(row_copy);
            proof {
                assert(view_grid(snapshot) =~~= prev.push(row_copy@));
            }
            i = i + 1;
        }
        proof {
            assert(view_grid(snapshot) =~~= view_grid(*grid));
        }
        Solver { snapshot, running: false }
    }

    /// Start the solver; the snapshot it was built from stays as it is.
    pub fn start(&mut self)
        ensures
            final(self).running,
            final(self).snapshot == old(self).snapshot,
    {
        self.running = true;
    }
}

} // verus!
