//! A second, lighter evaluator: the twos and threes that the empty cells
//! would make.

use vstd::prelude::*;
use crate::board::Board;
use crate::eval::{alive, valid_move};
use crate::geometry::{cell, Stone};
use crate::position::Position;
use crate::runs::run_length;
use crate::threat::{lemma_dead_cell_shows_nothing, sight, Sight};

verus! {

/// What a sight is worth to the player `turn`, by the runs of two and three
/// that a stone on the cell would make. Only a run that is open in front
/// counts: a three open behind too counts 200 for the mover and -50 for the
/// opponent, a three bounded behind 30 and -20, a two open behind 30 and
/// -20, a two bounded behind 10 and -8.
pub open spec fn lean(turn: Stone, s: Sight) -> int {
    let sum = s.front + s.back;
    let mine = s.stone == turn;
    if !s.front_open || (sum != 3 && sum != 2) {
        0
    } else if sum == 3 && s.back_open {
        if mine {
            200
        } else {
            -50
        }
    } else if sum == 2 && !s.back_open {
        if mine {
            10
        } else {
            -8
        }
    } else {
        if mine {
            30
        } else {
            -20
        }
    }
}

/// What slot `k` is worth: direction `k % 8` of the cell at row-major place
/// `k / 8`.
pub open spec fn slot_lean(pos: Position, k: int) -> int {
    match sight(pos, (k / 8) % 15, (k / 8) / 15, k % 8) {
        None => 0,
        Some(s) => lean(pos.turn, s),
    }
}

/// What the first `n` slots are worth together.
pub open spec fn lean_sum(pos: Position, n: nat) -> int
    decreases n,
{
    if n == 0 {
        0
    } else {
        lean_sum(pos, (n - 1) as nat) + slot_lean(pos, n - 1)
    }
}

/// No slot is worth more than 200, for or against.
pub proof fn lemma_lean_sum_bound(pos: Position, n: nat)
    ensures
        -200 * n <= lean_sum(pos, n) <= 200 * n,
    decreases n,
{
    if n > 0 {
        lemma_lean_sum_bound(pos, (n - 1) as nat);
    }
}

/// The worth of the position on `board` for the player to move, by the twos
/// and threes that the empty cells would make: what all eight directions of
/// all cells are worth together.
pub fn johns_shallow_eval(board: &Board) -> (score: i32)
    requires
        board.wf(),
    ensures
        score == lean_sum(board@, 1800),
{
    let ghost pos = board@;
    let mut result: i32 = 0;
    let mut k: usize = 0;
    while k < 225
        invariant
            board.wf(),
            pos == board@,
            k <= 225,
            result == lean_sum(pos, (8 * k) as nat),
        decreases 225 - k,
    {
        let cp = cell(k % 15, k / 15);
        if !valid_move(board, cp) {
            proof {
                lemma_lean_skip(pos, k as int, 8);
            }
            k += 1;
            continue ;
        }
        let dir_count = board.compute_dir_lengths_from(cp);
        let mut i: usize = 0;
        while i < 8
            invariant
                board.wf(),
                pos == board@,
                k < 225,
                i <= 8,
                cp.col() == k % 15,
                cp.row() == k / 15,
                pos.cells[cp.idx()].is_none(),
                forall|d: int|
                    0 <= d < 8 ==> dir_count[d] == #[trigger] run_length(
                        board@.cells,
                        cp.col(),
                        cp.row(),
                        d,
                    ),
                forall|d: int| 0 <= d < 8 ==> #[trigger] dir_count[d] <= 6,
                result == lean_sum(pos, (8 * k + i) as nat),
            decreases 8 - i,
        {
            proof {
                let slot = 8 * k + i;
                assert(slot / 8 == k && slot % 8 == i);
                lemma_lean_sum_bound(pos, slot as nat);
            }
            if let Some(seen) = board.look(cp, &dir_count, i) {
                result += weigh_lean(board.turn(), &seen);
            }
            i += 1;
        }
        k += 1;
    }
    result
}

/// What a sight is worth to the player `turn`.
fn weigh_lean(turn: Stone, s: &Sight) -> (w: i32)
    requires
        s.front <= 6,
        s.back <= 6,
    ensures
        w == lean(turn, *s),
{
    let sum: usize = s.front + s.back;
    let mine = s.stone == turn;
    let mut w: i32 = 0;
    if s.front_open && s.back_open && sum == 3 {
        w = if mine {
            200
        } else {
            -50
        };
    }
    if s.front_open && !s.back_open && sum == 3 {
        w = if mine {
            30
        } else {
            -20
        };
    }
    if s.front_open && s.back_open && sum == 2 {
        w = if mine {
            30
        } else {
            -20
        };
    }
    if s.front_open && !s.back_open && sum == 2 {
        w = if mine {
            10
        } else {
            -8
        };
    }
    w
}

/// The slots of a cell that is not alive are worth nothing.
proof fn lemma_lean_skip(pos: Position, k: int, i: nat)
    requires
        0 <= k < 225,
        i <= 8,
        !alive(pos.cells, k % 15, k / 15),
    ensures
        lean_sum(pos, (8 * k + i) as nat) == lean_sum(pos, (8 * k) as nat),
    decreases i,
{
    if i > 0 {
        lemma_lean_skip(pos, k, (i - 1) as nat);
        let slot = 8 * k + i - 1;
        assert(slot / 8 == k && slot % 8 == i - 1);
        lemma_dead_cell_shows_nothing(pos, k % 15, k / 15, slot % 8);
    }
}

} // verus!
