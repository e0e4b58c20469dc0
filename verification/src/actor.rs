//! The one thing that every player can do: name its next move.

use vstd::prelude::*;
use crate::board::Board;
use crate::free::free_count;
use crate::geometry::CellPos;

verus! {

/// A player: given a board, it names the cell of its next move.
pub trait Actor {
    /// The cell on which to move next. It is empty on `board`, so that the
    /// move, when made, succeeds. A board without an empty cell has no next
    /// move.
    fn next(&mut self, board: &Board) -> (r: CellPos)
        requires
            board.wf(),
            free_count(board@.cells, 0) > 0,
        ensures
            board@.legal(r.idx()),
    ;
}

} // verus!
