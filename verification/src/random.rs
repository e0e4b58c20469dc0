//! The player that moves by chance.

use vstd::prelude::*;
use crate::actor::Actor;
use crate::board::Board;
use crate::chance::random_below;
use crate::geometry::CellPos;

verus! {

/// A player that moves on an empty cell picked by chance.
pub struct RandomAI {}

impl Actor for RandomAI {
    /// One of the empty cells of `board`, each as likely as any other.
    fn next(&mut self, board: &Board) -> (r: CellPos) {
        let n = board.free_cells();
        let k = random_below(n);
        board.nth_free_cell(k)
    }
}

} // verus!
