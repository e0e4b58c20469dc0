//! The player that searches every line of play to a fixed depth, without
//! scores.

use vstd::prelude::*;
use crate::actor::Actor;
use crate::board::Board;
use crate::eval::{alive, valid_move};
use crate::free::{first_free_cell, free_count, lemma_all_free};
use crate::geometry::{cell, cell_at, CellPos};
use crate::position::{lemma_place_lift, Position};
use crate::runs::wins_at;

verus! {

/// What a search without scores knows of a line of play.
#[derive(Clone, Copy, Debug, PartialEq, Eq, Structural)]
pub enum NoobEval {
    /// The player to move wins.
    Win,
    /// The player to move loses.
    Lose,
    /// The depth limit was reached before the line was decided.
    Uncertain,
}

/// What the exhaustive search answers on `pos` with `plies` moves left to
/// look ahead: a cell and what playing it leads to, or nothing where the
/// limit is reached or no cell is alive.
pub open spec fn noob_search(pos: Position, plies: nat) -> Option<(CellPos, NoobEval)>
    decreases plies, 226nat,
{
    if plies == 0 {
        None
    } else {
        noob_scan(pos, plies, 0, None)
    }
}

/// The answer of the search once the cells before storage place `q` have
/// left the answer `best`. The alive cells are tried in storage order. A
/// cell that completes five, or after which the opponent is lost, is the
/// answer at once. A cell after which the opponent wins is kept only while
/// nothing else is known; a cell whose line is undecided replaces what was
/// kept.
pub open spec fn noob_scan(
    pos: Position,
    plies: nat,
    q: int,
    best: Option<(CellPos, NoobEval)>,
) -> Option<(CellPos, NoobEval)>
    decreases plies, 225 - q,
{
    if q < 0 || q >= 225 || plies == 0 {
        best
    } else if !alive(pos.cells, q / 15, q % 15) {
        noob_scan(pos, plies, q + 1, best)
    } else {
        let c = cell_at(q / 15, q % 15);
        let after = pos.place(q);
        if wins_at(after.cells, q / 15, q % 15) {
            Some((c, NoobEval::Win))
        } else {
            match noob_search(after, (plies - 1) as nat) {
                Some((_, NoobEval::Win)) => noob_scan(
                    pos,
                    plies,
                    q + 1,
                    if best.is_none() {
                        Some((c, NoobEval::Lose))
                    } else {
                        best
                    },
                ),
                Some((_, NoobEval::Lose)) => Some((c, NoobEval::Win)),
                _ => noob_scan(pos, plies, q + 1, Some((c, NoobEval::Uncertain))),
            }
        }
    }
}

/// The cell that the search answers is alive, given that the cell it kept
/// before was.
pub proof fn lemma_noob_scan_alive(
    pos: Position,
    plies: nat,
    q: int,
    best: Option<(CellPos, NoobEval)>,
)
    requires
        0 <= q <= 225,
        best matches Some((c, _)) ==> alive(pos.cells, c.col(), c.row()),
    ensures
        noob_scan(pos, plies, q, best) matches Some((c, _)) ==> alive(pos.cells, c.col(), c.row()),
    decreases 225 - q,
{
    if q < 225 && plies > 0 {
        let c = cell_at(q / 15, q % 15);
        if !alive(pos.cells, q / 15, q % 15) {
            lemma_noob_scan_alive(pos, plies, q + 1, best);
        } else {
            let after = pos.place(q);
            if !wins_at(after.cells, q / 15, q % 15) {
                match noob_search(after, (plies - 1) as nat) {
                    Some((_, NoobEval::Win)) => {
                        lemma_noob_scan_alive(
                            pos,
                            plies,
                            q + 1,
                            if best.is_none() {
                                Some((c, NoobEval::Lose))
                            } else {
                                best
                            },
                        );
                    },
                    Some((_, NoobEval::Lose)) => {},
                    _ => {
                        lemma_noob_scan_alive(pos, plies, q + 1, Some((c, NoobEval::Uncertain)));
                    },
                }
            }
        }
    }
}

/// A player that searches every line of play to a fixed depth and knows of
/// each only whether it is won, lost or undecided.
pub struct NoobAI {
    /// The number of moves to look ahead.
    pub depth: usize,
}

impl NoobAI {
    /// Searches the lines of play from `board`, of which `cur_depth` moves
    /// have been looked ahead already, and puts `board` back as it was.
    pub fn minmax(&self, cur_depth: usize, board: &mut Board) -> (r: Option<(CellPos, NoobEval)>)
        requires
            old(board).wf(),
            cur_depth <= self.depth,
        ensures
            final(board).wf(),
            final(board).same(old(board)),
            r == noob_search(old(board)@, (self.depth - cur_depth) as nat),
        decreases self.depth - cur_depth,
    {
        if cur_depth == self.depth {
            return None;
        }
        let ghost pos = board@;
        let ghost plies = (self.depth - cur_depth) as nat;
        let mut eval: Option<(CellPos, NoobEval)> = None;
        let mut q: usize = 0;
        while q < 225
            invariant
                board.wf(),
                board.same(old(board)),
                pos == board@,
                q <= 225,
                cur_depth < self.depth,
                plies == self.depth - cur_depth,
                noob_scan(pos, plies, q as int, eval) == noob_search(pos, plies),
            decreases 225 - q,
        {
            let cp = cell(q / 15, q % 15);
            q += 1;
            if !valid_move(board, cp) {
                continue ;
            }
            proof {
                lemma_place_lift(pos, q - 1);
            }
            let placed = board.make_move(cp);
            assert(placed);
            let win = board.check_win_from(cp);
            if win {
                board.unmake_move(cp);
                proof {
                    board.lemma_same(old(board));
                }
                return Some((cp, NoobEval::Win));
            }
            let result = self.minmax(cur_depth + 1, board);
            board.unmake_move(cp);
            proof {
                board.lemma_same(old(board));
            }
            match result {
                Some((_, NoobEval::Win)) => {
                    if eval.is_none() {
                        eval = Some((cp, NoobEval::Lose));
                    }
                },
                Some((_, NoobEval::Lose)) => {
                    return Some((cp, NoobEval::Win));
                },
                _ => {
                    eval = Some((cp, NoobEval::Uncertain));
                },
            }
        }
        eval
    }
}

impl Actor for NoobAI {
    /// The centre of an empty board; else the cell that the search answers,
    /// and the first empty cell where it answers none.
    fn next(&mut self, board: &Board) -> (r: CellPos)
        ensures
            final(self).depth == old(self).depth,
            r == (if free_count(board@.cells, 0) == 225 {
                cell_at(7, 7)
            } else {
                match noob_search(board@, old(self).depth as nat) {
                    Some((c, _)) => c,
                    None => first_free_cell(board@.cells),
                }
            }),
    {
        proof {
            lemma_all_free(board@.cells);
        }
        if board.free_positions().count() == 15 * 15 {
            return cell(7, 7);
        }
        let mut scratch = board.clone();
        match self.minmax(0, &mut scratch) {
            Some((cp, _)) => {
                proof {
                    lemma_noob_scan_alive(board@, self.depth as nat, 0, None);
                }
                cp
            },
            None => board.first_free(),
        }
    }
}

} // verus!
