//! Run lengths and the win test.

use vstd::prelude::*;
use crate::board::Board;
use crate::geometry::{cell, dir, flat, on_board, step, CellPos, Stone};
use crate::position::{stone_at, Grid};

verus! {

/// The longest run that is ever counted: a longer one reads as this long.
pub const RUN_CAP: usize = 6;

/// The number of stones of colour `s` that follow one another from `(x, y)`
/// in steps of `(dx, dy)`, counted up to `cap`.
pub open spec fn run_from(cells: Grid, x: int, y: int, dx: int, dy: int, s: Stone, cap: nat) -> nat
    decreases cap,
{
    if cap == 0 || stone_at(cells, x, y) != Some(s) {
        0
    } else {
        1 + run_from(cells, x + dx, y + dy, dx, dy, s, (cap - 1) as nat)
    }
}

/// The run length from `(x, y)` in direction `i`. From an occupied cell it
/// is the length of the run of that stone's colour that starts there. From
/// an empty cell it is the length of the run that starts at the neighbour in
/// that direction, 0 if the neighbour is empty or off the grid. No run
/// counts for more than 6.
pub open spec fn run_length(cells: Grid, x: int, y: int, i: int) -> nat {
    let (dx, dy) = step(i);
    match stone_at(cells, x, y) {
        Some(s) => run_from(cells, x, y, dx, dy, s, 6),
        None => match stone_at(cells, x + dx, y + dy) {
            Some(s) => run_from(cells, x + dx, y + dy, dx, dy, s, 6),
            None => 0,
        },
    }
}

/// Whether the run through `(x, y)` along axis `i` (direction `i` and its
/// opposite) is a run of exactly five, as the capped run lengths show it.
pub open spec fn five_on_axis(cells: Grid, x: int, y: int, i: int) -> bool {
    run_length(cells, x, y, i) + run_length(cells, x, y, i + 4) - 1 == 5
}

/// Whether the stone on `(x, y)` completes five in a row along some axis.
pub open spec fn wins_at(cells: Grid, x: int, y: int) -> bool {
    &&& stone_at(cells, x, y).is_some()
    &&& (five_on_axis(cells, x, y, 0) || five_on_axis(cells, x, y, 1) || five_on_axis(
        cells,
        x,
        y,
        2,
    ) || five_on_axis(cells, x, y, 3))
}

/// Whether some stone of the grid completes five in a row.
pub open spec fn has_win(cells: Grid) -> bool {
    exists|x: int, y: int| on_board(x, y) && #[trigger] wins_at(cells, x, y)
}

/// A run is never longer than its cap.
pub proof fn lemma_run_capped(cells: Grid, x: int, y: int, dx: int, dy: int, s: Stone, cap: nat)
    ensures
        run_from(cells, x, y, dx, dy, s, cap) <= cap,
    decreases cap,
{
    if cap > 0 {
        lemma_run_capped(cells, x + dx, y + dy, dx, dy, s, (cap - 1) as nat);
    }
}

/// No run length exceeds 6, however many equal stones stand in the row.
pub proof fn lemma_run_length_capped(cells: Grid, x: int, y: int, i: int)
    ensures
        run_length(cells, x, y, i) <= 6,
{
    let (dx, dy) = step(i);
    match stone_at(cells, x, y) {
        Some(s) => lemma_run_capped(cells, x, y, dx, dy, s, 6),
        None => match stone_at(cells, x + dx, y + dy) {
            Some(s) => lemma_run_capped(cells, x + dx, y + dy, dx, dy, s, 6),
            None => {},
        },
    }
}

/// A run that ends before its cap is as long under any cap above its
/// length.
pub proof fn lemma_run_uncapped(
    cells: Grid,
    x: int,
    y: int,
    dx: int,
    dy: int,
    s: Stone,
    a: nat,
    b: nat,
)
    requires
        run_from(cells, x, y, dx, dy, s, a) < a,
        run_from(cells, x, y, dx, dy, s, a) < b,
    ensures
        run_from(cells, x, y, dx, dy, s, b) == run_from(cells, x, y, dx, dy, s, a),
    decreases a,
{
    if a > 0 && stone_at(cells, x, y) == Some(s) {
        lemma_run_uncapped(cells, x + dx, y + dy, dx, dy, s, (a - 1) as nat, (b - 1) as nat);
    }
}

/// A run that starts `m` steps, at least one, ahead of a cell and leads
/// away from it does not change with what that cell holds.
pub proof fn lemma_run_ahead(
    cells: Grid,
    ax: int,
    ay: int,
    c: Option<Stone>,
    i: int,
    m: int,
    s: Stone,
    cap: nat,
)
    requires
        cells.len() == 225,
        on_board(ax, ay),
        0 <= i < 8,
        m >= 1,
    ensures
        run_from(
            cells.update(flat(ax, ay), c),
            ax + m * step(i).0,
            ay + m * step(i).1,
            step(i).0,
            step(i).1,
            s,
            cap,
        ) == run_from(
            cells,
            ax + m * step(i).0,
            ay + m * step(i).1,
            step(i).0,
            step(i).1,
            s,
            cap,
        ),
    decreases cap,
{
    let (dx, dy) = step(i);
    let x = ax + m * dx;
    let y = ay + m * dy;
    assert(m * dx == (if dx == 1 {
        m
    } else if dx == 0 {
        0
    } else {
        -m
    }) && m * dy == (if dy == 1 {
        m
    } else if dy == 0 {
        0
    } else {
        -m
    }) && (m + 1) * dx == m * dx + dx && (m + 1) * dy == m * dy + dy) by (nonlinear_arith)
        requires
            -1 <= dx <= 1,
            -1 <= dy <= 1,
    ;
    assert(stone_at(cells.update(flat(ax, ay), c), x, y) == stone_at(cells, x, y));
    if cap > 0 && stone_at(cells, x, y) == Some(s) {
        lemma_run_ahead(cells, ax, ay, c, i, m + 1, s, (cap - 1) as nat);
    }
}

/// A stone before a run of fewer than five makes the run one longer.
proof fn lemma_run_grows(cells: Grid, x: int, y: int, dx: int, dy: int, s: Stone, v: nat)
    requires
        stone_at(cells, x, y) == Some(s),
        run_from(cells, x + dx, y + dy, dx, dy, s, 6) == v,
        v < 5,
    ensures
        run_from(cells, x, y, dx, dy, s, 6) == v + 1,
{
    lemma_run_uncapped(cells, x + dx, y + dy, dx, dy, s, 6, 5);
}

/// Whether `(a, b)` is one of the `n` cells, at most five, that follow one
/// another from `(x, y)` in direction `i`.
pub open spec fn on_line(a: int, b: int, x: int, y: int, i: int, n: int) -> bool {
    let (dx, dy) = step(i);
    ||| (0 < n && a == x && b == y)
    ||| (1 < n && a == x + dx && b == y + dy)
    ||| (2 < n && a == x + 2 * dx && b == y + 2 * dy)
    ||| (3 < n && a == x + 3 * dx && b == y + 3 * dy)
    ||| (4 < n && a == x + 4 * dx && b == y + 4 * dy)
}

/// Whether the grid holds stones of colour `s` on the `n` cells that follow
/// one another from `(x, y)` in direction `i`, all of them on the grid, and
/// is empty otherwise.
pub open spec fn only_line(cells: Grid, x: int, y: int, i: int, n: int, s: Stone) -> bool {
    &&& cells.len() == 225
    &&& 0 <= i < 4
    &&& 1 <= n <= 5
    &&& on_board(x, y)
    &&& on_board(x + (n - 1) * step(i).0, y + (n - 1) * step(i).1)
    &&& forall|a: int, b: int|
        on_board(a, b) ==> #[trigger] stone_at(cells, a, b) == if on_line(a, b, x, y, i, n) {
            Some(s)
        } else {
            None
        }
}

/// Win detection on five in a row: where five stones of one colour follow
/// one another on an otherwise empty grid, each of the five cells completes
/// five.
pub proof fn lemma_five_in_line_wins(cells: Grid, x: int, y: int, i: int, s: Stone, a: int, b: int)
    requires
        only_line(cells, x, y, i, 5, s),
        on_line(a, b, x, y, i, 5),
    ensures
        wins_at(cells, a, b),
{
    let (dx, dy) = step(i);
    assert(step(i + 4) == (-dx, -dy));
    assert(stone_at(cells, x, y) == Some(s));
    assert(stone_at(cells, x + dx, y + dy) == Some(s));
    assert(stone_at(cells, x + 2 * dx, y + 2 * dy) == Some(s));
    assert(stone_at(cells, x + 3 * dx, y + 3 * dy) == Some(s));
    assert(stone_at(cells, x + 4 * dx, y + 4 * dy) == Some(s));
    assert(stone_at(cells, x - dx, y - dy).is_none());
    assert(stone_at(cells, x + 5 * dx, y + 5 * dy).is_none());
    assert(run_from(cells, x + 5 * dx, y + 5 * dy, dx, dy, s, 6) == 0);
    lemma_run_grows(cells, x + 4 * dx, y + 4 * dy, dx, dy, s, 0);
    lemma_run_grows(cells, x + 3 * dx, y + 3 * dy, dx, dy, s, 1);
    lemma_run_grows(cells, x + 2 * dx, y + 2 * dy, dx, dy, s, 2);
    lemma_run_grows(cells, x + dx, y + dy, dx, dy, s, 3);
    lemma_run_grows(cells, x, y, dx, dy, s, 4);
    assert(run_from(cells, x - dx, y - dy, -dx, -dy, s, 6) == 0);
    lemma_run_grows(cells, x, y, -dx, -dy, s, 0);
    lemma_run_grows(cells, x + dx, y + dy, -dx, -dy, s, 1);
    lemma_run_grows(cells, x + 2 * dx, y + 2 * dy, -dx, -dy, s, 2);
    lemma_run_grows(cells, x + 3 * dx, y + 3 * dy, -dx, -dy, s, 3);
    lemma_run_grows(cells, x + 4 * dx, y + 4 * dy, -dx, -dy, s, 4);
    assert(five_on_axis(cells, a, b, i));
}

/// Win detection on four in a row: where four stones of one colour follow
/// one another on an otherwise empty grid, no cell completes five.
pub proof fn lemma_four_in_line_wins_not(cells: Grid, x: int, y: int, i: int, s: Stone)
    requires
        only_line(cells, x, y, i, 4, s),
    ensures
        !has_win(cells),
{
    assert forall|a: int, b: int| on_board(a, b) implies !wins_at(cells, a, b) by {
        if stone_at(cells, a, b).is_some() {
            assert(on_line(a, b, x, y, i, 4));
            lemma_four_on_axis(cells, x, y, i, s, a, b, 0);
            lemma_four_on_axis(cells, x, y, i, s, a, b, 1);
            lemma_four_on_axis(cells, x, y, i, s, a, b, 2);
            lemma_four_on_axis(cells, x, y, i, s, a, b, 3);
        }
    }
}

/// A cell of a lone line of four sees no five along any axis.
proof fn lemma_four_on_axis(cells: Grid, x: int, y: int, i: int, s: Stone, a: int, b: int, axis: int)
    requires
        only_line(cells, x, y, i, 4, s),
        on_line(a, b, x, y, i, 4),
        0 <= axis < 4,
    ensures
        !five_on_axis(cells, a, b, axis),
{
    if axis == i {
        lemma_four_along(cells, x, y, i, s, a, b);
    } else {
        lemma_four_across(cells, x, y, i, s, a, b, axis);
    }
}

/// Along its own axis a lone line of four is a run of four.
proof fn lemma_four_along(cells: Grid, x: int, y: int, i: int, s: Stone, a: int, b: int)
    requires
        only_line(cells, x, y, i, 4, s),
        on_line(a, b, x, y, i, 4),
    ensures
        !five_on_axis(cells, a, b, i),
{
    let (dx, dy) = step(i);
    assert(step(i + 4) == (-dx, -dy));
    assert(stone_at(cells, x, y) == Some(s));
    assert(stone_at(cells, x + dx, y + dy) == Some(s));
    assert(stone_at(cells, x + 2 * dx, y + 2 * dy) == Some(s));
    assert(stone_at(cells, x + 3 * dx, y + 3 * dy) == Some(s));
    assert(stone_at(cells, x - dx, y - dy).is_none());
    assert(stone_at(cells, x + 4 * dx, y + 4 * dy).is_none());
    assert(run_from(cells, x + 4 * dx, y + 4 * dy, dx, dy, s, 6) == 0);
    lemma_run_grows(cells, x + 3 * dx, y + 3 * dy, dx, dy, s, 0);
    lemma_run_grows(cells, x + 2 * dx, y + 2 * dy, dx, dy, s, 1);
    lemma_run_grows(cells, x + dx, y + dy, dx, dy, s, 2);
    lemma_run_grows(cells, x, y, dx, dy, s, 3);
    assert(run_from(cells, x - dx, y - dy, -dx, -dy, s, 6) == 0);
    lemma_run_grows(cells, x, y, -dx, -dy, s, 0);
    lemma_run_grows(cells, x + dx, y + dy, -dx, -dy, s, 1);
    lemma_run_grows(cells, x + 2 * dx, y + 2 * dy, -dx, -dy, s, 2);
    lemma_run_grows(cells, x + 3 * dx, y + 3 * dy, -dx, -dy, s, 3);
}

/// Across its own axis a lone line is a run of one.
proof fn lemma_four_across(cells: Grid, x: int, y: int, i: int, s: Stone, a: int, b: int, axis: int)
    requires
        only_line(cells, x, y, i, 4, s),
        on_line(a, b, x, y, i, 4),
        0 <= axis < 4,
        axis != i,
    ensures
        !five_on_axis(cells, a, b, axis),
{
    let (ex, ey) = step(axis);
    assert(step(axis + 4) == (-ex, -ey));
    assert(stone_at(cells, a, b) == Some(s));
    assert(!on_line(a + ex, b + ey, x, y, i, 4));
    assert(!on_line(a - ex, b - ey, x, y, i, 4));
    assert(stone_at(cells, a + ex, b + ey).is_none());
    assert(stone_at(cells, a - ex, b - ey).is_none());
    assert(run_from(cells, a + ex, b + ey, ex, ey, s, 6) == 0);
    assert(run_from(cells, a - ex, b - ey, -ex, -ey, s, 6) == 0);
    lemma_run_grows(cells, a, b, ex, ey, s, 0);
    lemma_run_grows(cells, a, b, -ex, -ey, s, 0);
}

impl Board {
    /// The run length from `cp` in direction `i`.
    fn run_toward(&self, cp: CellPos, i: usize) -> (count: usize)
        requires
            self.wf(),
            i < 8,
        ensures
            count == run_length(self@.cells, cp.col(), cp.row(), i as int),
            count <= 6,
    {
        let d = dir(i);
        let ghost cells = self@.cells;
        let ghost total = run_length(cells, cp.col(), cp.row(), i as int);
        let mut count: usize = if self.get(cp).is_some() {
            1
        } else {
            0
        };
        let mut cur = cp;
        proof {
            use_type_invariant(cp);
            lemma_run_length_capped(cells, cp.col(), cp.row(), i as int);
            reveal_with_fuel(run_from, 2);
        }
        loop
            invariant_except_break
                self.wf(),
                cells == self@.cells,
                (d.dx(), d.dy()) == step(i as int),
                total == run_length(cells, cp.col(), cp.row(), i as int),
                total <= 6,
                count < 6,
                count == 0 ==> cur == cp && cells[cp.idx()].is_none(),
                count > 0 ==> (cells[cur.idx()] matches Some(s) && total == count - 1 + run_from(
                    cells,
                    cur.col(),
                    cur.row(),
                    d.dx(),
                    d.dy(),
                    s,
                    (7 - count) as nat,
                )),
            ensures
                count == total,
            decreases 6 - count,
        {
            proof {
                use_type_invariant(cp);
                use_type_invariant(cur);
                reveal_with_fuel(run_from, 2);
            }
            match cur.try_add(d) {
                None => {
                    break ;
                },
                Some(next) => {
                    let here = self.get(next);
                    let onward = match here {
                        None => false,
                        Some(s) => count == 0 || self.get(cur) == Some(s),
                    };
                    if !onward {
                        break ;
                    }
                    count += 1;
                    cur = next;
                    if count == 6 {
                        break ;
                    }
                },
            }
        }
        count
    }

    /// The eight run lengths from `cp`, one for each direction.
    pub fn compute_dir_lengths_from(&self, cp: CellPos) -> (r: [usize; 8])
        requires
            self.wf(),
        ensures
            forall|i: int|
                0 <= i < 8 ==> r[i] == #[trigger] run_length(self@.cells, cp.col(), cp.row(), i),
            forall|i: int| 0 <= i < 8 ==> #[trigger] r[i] <= 6,
    {
        let mut result: [usize; 8] = [0usize; 8];
        let mut i: usize = 0;
        while i < 8
            invariant
                self.wf(),
                i <= 8,
                forall|k: int|
                    0 <= k < i ==> result[k] == #[trigger] run_length(
                        self@.cells,
                        cp.col(),
                        cp.row(),
                        k,
                    ),
                forall|k: int| 0 <= k < i ==> #[trigger] result[k] <= 6,
            decreases 8 - i,
        {
            let n = self.run_toward(cp, i);
            result[i] = n;
            i += 1;
        }
        result
    }

    /// Whether the stone on `cp` completes five in a row. An empty cell
    /// completes nothing.
    pub fn check_win_from(&self, cp: CellPos) -> (won: bool)
        requires
            self.wf(),
        ensures
            won == wins_at(self@.cells, cp.col(), cp.row()),
    {
        proof {
            use_type_invariant(cp);
        }
        if self.get(cp).is_none() {
            return false;
        }
        let dir_lengths = self.compute_dir_lengths_from(cp);
        let mut i: usize = 0;
        while i < 4
            invariant
                self.wf(),
                i <= 4,
                stone_at(self@.cells, cp.col(), cp.row()).is_some(),
                forall|k: int|
                    0 <= k < 8 ==> dir_lengths[k] == #[trigger] run_length(
                        self@.cells,
                        cp.col(),
                        cp.row(),
                        k,
                    ),
                forall|k: int| 0 <= k < 8 ==> #[trigger] dir_lengths[k] <= 6,
                forall|k: int| 0 <= k < i ==> !#[trigger] five_on_axis(self@.cells, cp.col(), cp.row(), k),
            decreases 4 - i,
        {
            proof {
                use_type_invariant(cp);
            }
            let along = dir_lengths[i] + dir_lengths[i + 4];
            assert(along == 6 <==> five_on_axis(self@.cells, cp.col(), cp.row(), i as int));
            if along == 6 {
                return true;
            }
            i += 1;
        }
        false
    }

    /// Whether some stone on the board completes five in a row.
    pub fn check_win(&self) -> (won: bool)
        requires
            self.wf(),
        ensures
            won == has_win(self@.cells),
    {
        let mut x: usize = 0;
        while x < 15
            invariant
                self.wf(),
                x <= 15,
                forall|a: int, b: int| 0 <= a < x && 0 <= b < 15 ==> !#[trigger] wins_at(self@.cells, a, b),
            decreases 15 - x,
        {
            let mut y: usize = 0;
            while y < 15
                invariant
                    self.wf(),
                    x < 15,
                    y <= 15,
                    forall|a: int, b: int|
                        0 <= a < x && 0 <= b < 15 ==> !#[trigger] wins_at(self@.cells, a, b),
                    forall|b: int| 0 <= b < y ==> !#[trigger] wins_at(self@.cells, x as int, b),
                decreases 15 - y,
            {
                if self.check_win_from(cell(x, y)) {
                    return true;
                }
                y += 1;
            }
            x += 1;
        }
        false
    }
}

} // verus!
