//! The empty cells of a board in row-major order.

use vstd::prelude::*;
use crate::board::Board;
use crate::geometry::{cell, cell_at, flat, CellPos};
use crate::position::Grid;

verus! {

/// Whether the `k`-th cell in row-major order, the cell `(k % 15, k / 15)`,
/// is empty.
pub open spec fn free_at(cells: Grid, k: int) -> bool {
    cells[flat(k % 15, k / 15)].is_none()
}

/// The row-major place of the first empty cell at or after place `from`;
/// 225 where there is none.
pub open spec fn next_free(cells: Grid, from: int) -> int
    decreases 225 - from,
{
    if from < 0 || from >= 225 {
        225
    } else if free_at(cells, from) {
        from
    } else {
        next_free(cells, from + 1)
    }
}

/// The first empty cell of the grid in row-major order.
pub open spec fn first_free_cell(cells: Grid) -> CellPos {
    cell_at(next_free(cells, 0) % 15, next_free(cells, 0) / 15)
}

/// The row-major place of the empty cell that has `k` empty cells between
/// place `from` and itself; 225 where there is none.
pub open spec fn nth_free(cells: Grid, from: int, k: nat) -> int
    decreases 225 - from,
{
    if from < 0 || from >= 225 {
        225
    } else if !free_at(cells, from) {
        nth_free(cells, from + 1, k)
    } else if k == 0 {
        from
    } else {
        nth_free(cells, from + 1, (k - 1) as nat)
    }
}

/// The number of empty cells at or after the row-major place `from`.
pub open spec fn free_count(cells: Grid, from: int) -> nat
    decreases 225 - from,
{
    if from < 0 || from >= 225 {
        0
    } else {
        free_count(cells, from + 1) + if free_at(cells, from) {
            1nat
        } else {
            0nat
        }
    }
}

/// The first empty cell lies at or after the place the search began, and no
/// empty cell lies in between.
pub proof fn lemma_next_free(cells: Grid, from: int)
    requires
        0 <= from <= 225,
    ensures
        from <= next_free(cells, from) <= 225,
        next_free(cells, from) < 225 ==> free_at(cells, next_free(cells, from)),
        forall|j: int| from <= j < next_free(cells, from) ==> !free_at(cells, j),
    decreases 225 - from,
{
    if from < 225 && !free_at(cells, from) {
        lemma_next_free(cells, from + 1);
    }
}

/// Where a cell at or after `from` is empty, there is a first one.
pub proof fn lemma_first_free(cells: Grid, from: int)
    requires
        0 <= from <= 225,
    ensures
        free_count(cells, from) > 0 <==> next_free(cells, from) < 225,
    decreases 225 - from,
{
    if from < 225 {
        lemma_first_free(cells, from + 1);
    }
}

/// Occupied cells do not count: the `k`-th empty cell from `from` on is the
/// `k`-th from `to` on, where no cell between the two places is empty.
pub proof fn lemma_skip_occupied(cells: Grid, from: int, to: int, k: nat)
    requires
        0 <= from <= to <= 225,
        forall|j: int| from <= j < to ==> !free_at(cells, j),
    ensures
        nth_free(cells, from, k) == nth_free(cells, to, k),
        free_count(cells, from) == free_count(cells, to),
    decreases to - from,
{
    if from < to {
        lemma_skip_occupied(cells, from + 1, to, k);
    }
}

/// No more cells are empty than there are cells left.
pub proof fn lemma_free_count_bound(cells: Grid, from: int)
    requires
        0 <= from <= 225,
    ensures
        free_count(cells, from) <= 225 - from,
    decreases 225 - from,
{
    if from < 225 {
        lemma_free_count_bound(cells, from + 1);
    }
}

/// Every cell counts as empty exactly when the whole grid is empty.
pub proof fn lemma_all_free(cells: Grid)
    requires
        cells.len() == 225,
    ensures
        free_count(cells, 0) == 225 <==> (forall|i: int| 0 <= i < 225 ==> cells[i].is_none()),
{
    lemma_all_free_from(cells, 0);
    if free_count(cells, 0) == 225 {
        assert forall|i: int| 0 <= i < 225 implies cells[i].is_none() by {
            let k = 15 * (i % 15) + i / 15;
            assert(free_at(cells, k));
            assert(flat(k % 15, k / 15) == i);
        }
    } else {
        let k = choose|k: int| 0 <= k < 225 && !free_at(cells, k);
        assert(!cells[flat(k % 15, k / 15)].is_none());
    }
}

proof fn lemma_all_free_from(cells: Grid, from: int)
    requires
        0 <= from <= 225,
    ensures
        free_count(cells, from) == 225 - from <==> (forall|k: int|
            from <= k < 225 ==> free_at(cells, k)),
    decreases 225 - from,
{
    if from < 225 {
        lemma_all_free_from(cells, from + 1);
        lemma_free_count_bound(cells, from + 1);
    }
}

/// Walks the empty cells of a board in row-major order.
pub struct FreePosIterator<'a> {
    board: &'a Board,
    i: usize,
}

impl<'a> FreePosIterator<'a> {
    /// The cells of the board that is walked.
    pub closed spec fn cells(&self) -> Grid {
        self.board@.cells
    }

    /// The row-major place at which the walk goes on.
    pub closed spec fn cursor(&self) -> int {
        self.i as int
    }

    /// The walk is over a well-formed board and within it.
    pub closed spec fn wf(&self) -> bool {
        self.board.wf() && self.i <= 225
    }

    /// The next empty cell, or `None` when the walk is over.
    pub fn next(&mut self) -> (r: Option<CellPos>)
        requires
            old(self).wf(),
        ensures
            final(self).wf(),
            final(self).cells() == old(self).cells(),
            0 <= old(self).cursor() <= 225,
            ({
                let k = next_free(old(self).cells(), old(self).cursor());
                if k < 225 {
                    r == Some(cell_at(k % 15, k / 15)) && final(self).cursor() == k + 1
                } else {
                    r.is_none() && final(self).cursor() == 225
                }
            }),
    {
        while self.i < 225
            invariant
                self.wf(),
                self.board == old(self).board,
                old(self).i <= self.i <= 225,
                next_free(self.cells(), self.i as int) == next_free(
                    old(self).cells(),
                    old(self).i as int,
                ),
            decreases 225 - self.i,
        {
            let x: usize = self.i % 15;
            let y: usize = self.i / 15;
            self.i += 1;
            if self.board.get(cell(x, y)).is_none() {
                return Some(cell(x, y));
            }
        }
        None
    }

    /// The number of empty cells that the walk has still to give.
    pub fn count(self) -> (n: usize)
        requires
            self.wf(),
        ensures
            n == free_count(self.cells(), self.cursor()),
    {
        let mut n: usize = 0;
        let mut k: usize = self.i;
        while k < 225
            invariant
                self.wf(),
                self.i <= k <= 225,
                n + free_count(self.cells(), k as int) == free_count(self.cells(), self.cursor()),
                n <= k,
            decreases 225 - k,
        {
            if self.board.get(cell(k % 15, k / 15)).is_none() {
                n += 1;
            }
            k += 1;
        }
        n
    }
}

/// Where more than `k` cells are empty from `from` on, the `k`-th of them
/// exists and is empty.
pub proof fn lemma_nth_free(cells: Grid, from: int, k: nat)
    requires
        0 <= from <= 225,
        k < free_count(cells, from),
    ensures
        from <= nth_free(cells, from, k) < 225,
        free_at(cells, nth_free(cells, from, k)),
    decreases 225 - from,
{
    if from < 225 {
        if !free_at(cells, from) {
            lemma_nth_free(cells, from + 1, k);
        } else if k > 0 {
            lemma_nth_free(cells, from + 1, (k - 1) as nat);
        }
    }
}

impl Board {
    /// The number of empty cells of the board.
    pub fn free_cells(&self) -> (n: usize)
        requires
            self.wf(),
        ensures
            n == free_count(self@.cells, 0),
            n <= 225,
    {
        proof {
            lemma_free_count_bound(self@.cells, 0);
        }
        self.free_positions().count()
    }

    /// The empty cell of the board that has `k` empty cells before it in
    /// row-major order.
    pub fn nth_free_cell(&self, k: usize) -> (r: CellPos)
        requires
            self.wf(),
            k < free_count(self@.cells, 0),
        ensures
            r == cell_at(nth_free(self@.cells, 0, k as nat) % 15, nth_free(self@.cells, 0, k as nat) / 15),
            self@.legal(r.idx()),
    {
        let ghost cells = self@.cells;
        let mut walk = self.free_positions();
        let mut left: usize = k;
        let ghost mut from: int = 0;
        loop
            invariant
                self.wf(),
                cells == self@.cells,
                walk.wf(),
                walk.cells() == cells,
                walk.cursor() == from,
                0 <= from <= 225,
                left < free_count(cells, from),
                nth_free(cells, from, left as nat) == nth_free(cells, 0, k as nat),
            decreases 225 - from,
        {
            proof {
                lemma_nth_free(cells, from, left as nat);
                lemma_next_free(cells, from);
                lemma_first_free(cells, from);
                lemma_skip_occupied(cells, from, next_free(cells, from), left as nat);
            }
            let ghost at = next_free(cells, from);
            match walk.next() {
                Some(cp) => {
                    if left == 0 {
                        return cp;
                    }
                    left -= 1;
                    proof {
                        from = at + 1;
                    }
                },
                None => {
                    return cell(0, 0);
                },
            }
        }
    }

    /// The first empty cell of the board in row-major order.
    pub fn first_free(&self) -> (r: CellPos)
        requires
            self.wf(),
            free_count(self@.cells, 0) > 0,
        ensures
            r == first_free_cell(self@.cells),
            self@.legal(r.idx()),
    {
        proof {
            lemma_first_free(self@.cells, 0);
            lemma_next_free(self@.cells, 0);
        }
        let mut walk = self.free_positions();
        match walk.next() {
            Some(cp) => cp,
            None => cell(0, 0),
        }
    }

    /// A walk over the empty cells of the board, from the first.
    pub fn free_positions(&self) -> (it: FreePosIterator<'_>)
        requires
            self.wf(),
        ensures
            it.wf(),
            it.cells() == self@.cells,
            it.cursor() == 0,
    {
        FreePosIterator { board: self, i: 0 }
    }
}

} // verus!
