//! Positions as specifications see them: what the cells hold, and who
//! moves next.

use vstd::prelude::*;
use crate::geometry::{flat, on_board, Stone};

verus! {

/// What the cells of a grid hold, in storage order: the cell `(x, y)` is
/// entry `15 * x + y`.
pub type Grid = Seq<Option<Stone>>;

/// A position of the game: what every cell holds, and who moves next.
pub struct Position {
    pub cells: Grid,
    pub turn: Stone,
}

/// What the cell `(x, y)` of `cells` holds; nothing where `(x, y)` is off
/// the grid.
pub open spec fn stone_at(cells: Grid, x: int, y: int) -> Option<Stone> {
    if on_board(x, y) {
        cells[flat(x, y)]
    } else {
        None
    }
}

/// How many of the first `n` cells hold a stone of colour `s`.
pub open spec fn stones(cells: Grid, s: Stone, n: nat) -> nat
    decreases n,
{
    if n == 0 {
        0
    } else {
        stones(cells, s, (n - 1) as nat) + if cells[n - 1] == Some(s) {
            1nat
        } else {
            0nat
        }
    }
}

impl Position {
    /// A position has 225 cells.
    pub open spec fn full_size(self) -> bool {
        self.cells.len() == 225
    }

    /// White moves first and the players alternate: White has as many
    /// stones as Black when it is White's turn, and one more when it is
    /// Black's.
    pub open spec fn balanced(self) -> bool {
        stones(self.cells, Stone::White, 225) == stones(self.cells, Stone::Black, 225) + (
        if self.turn == Stone::Black {
            1nat
        } else {
            0nat
        })
    }

    /// Whether the mover may put a stone on cell `i`: it is a cell, and empty.
    pub open spec fn legal(self, i: int) -> bool {
        0 <= i < 225 && self.cells[i].is_none()
    }

    /// Whether the last move can have been made on cell `i`: it holds a
    /// stone of the player who is not on turn.
    pub open spec fn retractable(self, i: int) -> bool {
        0 <= i < 225 && self.cells[i] == Some(self.turn.other())
    }

    /// The position after the mover has put a stone on cell `i`.
    pub open spec fn place(self, i: int) -> Position {
        Position { cells: self.cells.update(i, Some(self.turn)), turn: self.turn.other() }
    }

    /// The position before the stone on cell `i` was put there.
    pub open spec fn lift(self, i: int) -> Position {
        Position { cells: self.cells.update(i, None), turn: self.turn.other() }
    }

    /// Number of empty cells among the first `n`.
    pub open spec fn vacant(self, n: nat) -> nat
        decreases n,
    {
        if n == 0 {
            0
        } else {
            self.vacant((n - 1) as nat) + if self.cells[n - 1].is_none() {
                1nat
            } else {
                0nat
            }
        }
    }
}

/// Taking back a move that was legal gives the position in which it was
/// made.
pub proof fn lemma_place_lift(pos: Position, i: int)
    requires
        pos.legal(i),
        pos.full_size(),
    ensures
        pos.place(i).retractable(i),
        pos.place(i).full_size(),
        pos.place(i).lift(i) == pos,
{
    assert(pos.place(i).lift(i).cells =~= pos.cells);
}

/// A move on an empty cell leaves one empty cell fewer.
pub proof fn lemma_place_fills(pos: Position, i: int)
    requires
        pos.legal(i),
        pos.full_size(),
    ensures
        pos.place(i).vacant(225) + 1 == pos.vacant(225),
{
    lemma_vacant_update(pos, i, Some(pos.turn), 225);
    lemma_vacant_turn(Position { cells: pos.place(i).cells, turn: pos.turn }, pos.place(i), 225);
}

/// The number of empty cells does not depend on whose turn it is.
pub proof fn lemma_vacant_turn(a: Position, b: Position, n: nat)
    requires
        a.cells == b.cells,
    ensures
        a.vacant(n) == b.vacant(n),
    decreases n,
{
    if n > 0 {
        lemma_vacant_turn(a, b, (n - 1) as nat);
    }
}

/// Changing one cell changes the count of a colour by what that cell gave
/// before and gives after.
pub proof fn lemma_stones_update(cells: Grid, s: Stone, i: int, c: Option<Stone>, n: nat)
    requires
        0 <= i < cells.len(),
        n <= cells.len(),
    ensures
        stones(cells.update(i, c), s, n) + (if i < n && cells[i] == Some(s) {
            1nat
        } else {
            0nat
        }) == stones(cells, s, n) + (if i < n && c == Some(s) {
            1nat
        } else {
            0nat
        }),
    decreases n,
{
    if n > 0 {
        lemma_stones_update(cells, s, i, c, (n - 1) as nat);
    }
}

/// Changing one cell changes the number of empty cells by what that cell
/// gave before and gives after.
pub proof fn lemma_vacant_update(p: Position, i: int, c: Option<Stone>, n: nat)
    requires
        0 <= i < p.cells.len(),
        n <= p.cells.len(),
    ensures
        (Position { cells: p.cells.update(i, c), turn: p.turn }).vacant(n) + (if i < n
            && p.cells[i].is_none() {
            1nat
        } else {
            0nat
        }) == p.vacant(n) + (if i < n && c.is_none() {
            1nat
        } else {
            0nat
        }),
    decreases n,
{
    if n > 0 {
        lemma_vacant_update(p, i, c, (n - 1) as nat);
    }
}

} // verus!
