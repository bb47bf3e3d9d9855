//! The 8x8 board: a grid of cells, each empty or holding the id of a piece.
//!
//! The board is plain storage.  It performs no bounds validation of its
//! own beyond what its contracts demand: callers (the move generator and
//! the move applier) are responsible for staying within `[0, 8)`.

use vstd::prelude::*;

verus! {

/// True when `(x, y)` lies on the board.
pub open spec fn in_bounds(x: int, y: int) -> bool {
    0 <= x < 8 && 0 <= y < 8
}

/// An 8x8 grid of cells.  A cell holds the id of the piece standing on
/// it, or nothing.  Stored row-major as 64 cells.
pub struct Board {
    cells: Vec<Option<usize>>,
}

impl Board {
    /// A board value is well formed when it holds exactly 64 cells.
    pub closed spec fn wf(self) -> bool {
        self.cells@.len() == 64
    }

    /// The cell at row `x`, column `y`.
    pub closed spec fn at(self, x: int, y: int) -> Option<usize> {
        self.cells@[x * 8 + y]
    }

    /// True when the cell at `(x, y)` holds a piece.
    pub open spec fn occupied(self, x: int, y: int) -> bool {
        self.at(x, y) is Some
    }

    /// An empty board: 64 cells, none occupied.
    pub fn new() -> (b: Board)
        ensures
            b.wf(),
            forall|x: int, y: int| in_bounds(x, y) ==> #[trigger] b.at(x, y) is None,
    {
        let mut cells: Vec<Option<usize>> = Vec::new();
        let mut i: usize = 0;
        while i < 64
            invariant
                i <= 64,
                cells@.len() == i,
                forall|k: int| 0 <= k < i ==> #[trigger] cells@[k] is None,
            decreases 64 - i,
        {
            cells.push(None);
            i = i + 1;
        }
        Board { cells }
    }

    /// Read the cell at `(x, y)`.
    pub fn get(&self, x: usize, y: usize) -> (r: Option<usize>)
        requires
            self.wf(),
            x < 8,
            y < 8,
        ensures
            r == self.at(x as int, y as int),
    {
        self.cells[x * 8 + y]
    }

    /// Write the cell at `(x, y)`; every other cell keeps its value.
    pub fn set(&mut self, x: usize, y: usize, v: Option<usize>)
        requires
            old(self).wf(),
            x < 8,
            y < 8,
        ensures
            final(self).wf(),
            final(self).at(x as int, y as int) == v,
            forall|x2: int, y2: int|
                in_bounds(x2, y2) && !(x2 == x && y2 == y)
                    ==> #[trigger] final(self).at(x2, y2) == old(self).at(x2, y2),
    {
        self.cells.set(x * 8 + y, v);
        proof {
            assert forall|x2: int, y2: int|
                in_bounds(x2, y2) && !(x2 == x && y2 == y)
                    implies #[trigger] self.at(x2, y2) == old(self).at(x2, y2) by {
                assert(x2 * 8 + y2 != x * 8 + y);
            }
        }
    }
}

} // verus!
