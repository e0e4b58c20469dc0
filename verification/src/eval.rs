//! The static evaluator: a score of the position for the player to move,
//! from the runs that its cells see.

use vstd::prelude::*;
use crate::board::Board;
use crate::geometry::{cell, dir, flat, on_board, step, CellPos, Stone};
use crate::position::{stone_at, Grid, Position};
use crate::runs::{run_from, run_length};

verus! {

/// The score of a position that the mover has won.
pub const WIN: i32 = 1_000_000;

/// The score of a position that the mover has lost.
pub const LOST: i32 = -1_000_000;

/// The coordinates reached from `(x, y)` by `k` steps in direction `i`.
pub open spec fn ahead(x: int, y: int, i: int, k: int) -> (int, int) {
    (x + k * step(i).0, y + k * step(i).1)
}

/// Whether `p` names a cell of the grid that is empty. A run whose next cell
/// is such a cell is open at that end; otherwise it is bounded there.
pub open spec fn vacant_at(cells: Grid, p: (int, int)) -> bool {
    on_board(p.0, p.1) && cells[flat(p.0, p.1)].is_none()
}

/// Whether a stone stands one or two steps from `(x, y)` in direction `i`.
pub open spec fn stone_near(cells: Grid, x: int, y: int, i: int) -> bool {
    stone_at(cells, x + step(i).0, y + step(i).1).is_some() || stone_at(
        cells,
        x + 2 * step(i).0,
        y + 2 * step(i).1,
    ).is_some()
}

/// Whether `(x, y)` is alive: an empty cell with a stone within two steps in
/// one of the eight directions.
pub open spec fn alive(cells: Grid, x: int, y: int) -> bool {
    &&& on_board(x, y)
    &&& cells[flat(x, y)].is_none()
    &&& exists|i: int| 0 <= i < 8 && #[trigger] stone_near(cells, x, y, i)
}

/// A run as one cell sees it along one axis.
pub struct Shape {
    /// Whether the run is of the mover's colour.
    pub mine: bool,
    /// The length of the run.
    pub count: usize,
    /// How many of its two ends are bounded: 0 or 1.
    pub bounded: usize,
    /// What the cell adds to the bucket of such runs.
    pub weight: usize,
}

/// How many of the two ends of a run are bounded, where the cells next
/// past its ends are `front` and `back`.
pub open spec fn ends_bounded(cells: Grid, front: (int, int), back: (int, int)) -> int {
    2 - (if vacant_at(cells, front) {
        1int
    } else {
        0int
    }) - (if vacant_at(cells, back) {
        1int
    } else {
        0int
    })
}

/// The run that a stone of colour `s` on `(x, y)` sees along axis `i`: the
/// run through itself. Its length is the two run lengths along the axis less
/// the cell counted twice, and it weighs 1, so that a run of `k` stones
/// weighs `k` in all. Runs of 6 and more do not count, nor runs that are
/// bounded at both ends.
pub open spec fn stone_shape_at(pos: Position, x: int, y: int, i: int, s: Stone) -> Option<Shape> {
    let front = run_length(pos.cells, x, y, i) as int;
    let back = run_length(pos.cells, x, y, i + 4) as int;
    let count = front + back - 1;
    let bounded = ends_bounded(pos.cells, ahead(x, y, i, front), ahead(x, y, i + 4, back));
    if bounded == 2 || count >= 6 {
        None
    } else {
        Some(Shape { mine: s == pos.turn, count: count as usize, bounded: bounded as usize, weight: 1 })
    }
}

/// The run that the empty cell `(x, y)` sees along axis `i`: where it lies
/// between two stones of one colour, the run that a stone on it would join.
/// Its length is the two run lengths together, and it weighs that length.
/// Such a run counts up to length 4, and not if bounded at both ends.
pub open spec fn gap_shape_at(pos: Position, x: int, y: int, i: int) -> Option<Shape> {
    let front = run_length(pos.cells, x, y, i) as int;
    let back = run_length(pos.cells, x, y, i + 4) as int;
    let before = stone_at(pos.cells, x + step(i).0, y + step(i).1);
    let behind = stone_at(pos.cells, x + step(i + 4).0, y + step(i + 4).1);
    let count = front + back;
    let bounded = ends_bounded(pos.cells, ahead(x, y, i, front + 1), ahead(x, y, i + 4, back + 1));
    if before.is_none() || before != behind || bounded == 2 || count >= 5 {
        None
    } else {
        Some(
            Shape {
                mine: before == Some(pos.turn),
                count: count as usize,
                bounded: bounded as usize,
                weight: count as usize,
            },
        )
    }
}

/// The run that the cell `(x, y)` sees along axis `i`, if it counts.
#[verifier::opaque]
pub open spec fn shape_at(pos: Position, x: int, y: int, i: int) -> Option<Shape> {
    match stone_at(pos.cells, x, y) {
        Some(s) => stone_shape_at(pos, x, y, i, s),
        None => gap_shape_at(pos, x, y, i),
    }
}

/// What slot `k` adds to the bucket of the runs of length `count` with
/// `bounded` bounded ends, the mover's if `mine` and else the opponent's.
/// Slot `k` is axis `k % 4` of the cell with storage place `k / 4`.
pub open spec fn share(pos: Position, mine: bool, count: int, bounded: int, k: int) -> nat {
    match shape_at(pos, (k / 4) / 15, (k / 4) % 15, k % 4) {
        Some(sh) => if sh.mine == mine && sh.count == count && sh.bounded == bounded {
            sh.weight as nat
        } else {
            0
        },
        None => 0,
    }
}

/// The bucket of the runs of length `count` with `bounded` bounded ends, as
/// the first `n` slots fill it.
pub open spec fn tally(pos: Position, mine: bool, count: int, bounded: int, n: nat) -> nat
    decreases n,
{
    if n == 0 {
        0
    } else {
        tally(pos, mine, count, bounded, (n - 1) as nat) + share(pos, mine, count, bounded, n - 1)
    }
}

/// The mover's bucket of runs of length `count` with `bounded` bounded ends.
pub open spec fn mover(pos: Position, count: int, bounded: int) -> int {
    tally(pos, true, count, bounded, 900) as int
}

/// The opponent's bucket of runs of length `count` with `bounded` bounded
/// ends.
pub open spec fn rival(pos: Position, count: int, bounded: int) -> int {
    tally(pos, false, count, bounded, 900) as int
}

/// The score of a position for the player to move. A decided position scores
/// [`WIN`] or [`LOST`], by the first rule that applies; an undecided one
/// scores the weighted sum of its open and half-open twos, threes and fours.
pub open spec fn evaluate(pos: Position) -> int {
    if mover(pos, 5, 0) + mover(pos, 5, 1) != 0 {
        WIN as int
    } else if rival(pos, 5, 0) + rival(pos, 5, 1) != 0 {
        LOST as int
    } else if mover(pos, 4, 0) + mover(pos, 4, 1) != 0 {
        WIN as int
    } else if rival(pos, 4, 0) != 0 {
        LOST as int
    } else if mover(pos, 3, 0) != 0 && rival(pos, 4, 1) == 0 {
        WIN as int
    } else if rival(pos, 4, 1) / 4 > 0 && rival(pos, 4, 1) / 4 + rival(pos, 3, 0) / 3 > 1 {
        LOST as int
    } else if rival(pos, 3, 0) / 3 > 1 && mover(pos, 3, 0) + mover(pos, 3, 1) == 0 {
        LOST as int
    } else {
        10 * mover(pos, 2, 0) + mover(pos, 2, 1) + 300 * mover(pos, 3, 0) + 20 * mover(pos, 3, 1)
            - (5 * rival(pos, 2, 0) + rival(pos, 2, 1) + 70 * rival(pos, 4, 1) + 70 * rival(
            pos,
            3,
            0,
        ) + 10 * rival(pos, 3, 1))
    }
}

/// Whether `score` is a score of a position: from [`LOST`] to [`WIN`].
pub open spec fn in_range(score: int) -> bool {
    LOST <= score <= WIN
}

/// Whether `score` is a score or one of the two bounds that the alpha-beta
/// search puts below and above every score.
pub open spec fn sane(score: int) -> bool {
    LOST - 1 <= score <= WIN + 1
}

/// A bucket of runs of length `count` holds no more than `count` for each
/// slot: a stone adds 1 and an empty cell the length of the run.
pub proof fn lemma_tally_tight(pos: Position, mine: bool, count: int, bounded: int, n: nat)
    requires
        count >= 1,
    ensures
        tally(pos, mine, count, bounded, n) <= count * n,
    decreases n,
{
    if n > 0 {
        lemma_tally_tight(pos, mine, count, bounded, (n - 1) as nat);
        reveal(shape_at);
        assert(share(pos, mine, count, bounded, n - 1) <= count);
        assert(count * (n - 1) + count == count * n) by (nonlinear_arith);
    }
}

/// The score of a position lies between [`LOST`] and [`WIN`].
pub proof fn lemma_evaluate_in_range(pos: Position)
    ensures
        in_range(evaluate(pos)),
        sane(evaluate(pos)),
{
    lemma_tally_tight(pos, true, 2, 0, 900);
    lemma_tally_tight(pos, true, 2, 1, 900);
    lemma_tally_tight(pos, true, 3, 0, 900);
    lemma_tally_tight(pos, true, 3, 1, 900);
    lemma_tally_tight(pos, false, 2, 0, 900);
    lemma_tally_tight(pos, false, 2, 1, 900);
    lemma_tally_tight(pos, false, 3, 0, 900);
    lemma_tally_tight(pos, false, 3, 1, 900);
    lemma_tally_tight(pos, false, 4, 1, 900);
}

/// A bucket holds at least what any one of its slots adds.
pub proof fn lemma_tally_holds(pos: Position, mine: bool, count: int, bounded: int, n: nat, k: int)
    requires
        0 <= k < n,
    ensures
        tally(pos, mine, count, bounded, n) >= share(pos, mine, count, bounded, k),
    decreases n,
{
    if k < n - 1 {
        lemma_tally_holds(pos, mine, count, bounded, (n - 1) as nat, k);
    }
}

/// An open three of the mover wins where the opponent has no four and no
/// five: the position then scores [`WIN`]. Here the stone on `(x, y)` sees,
/// along axis `i`, a run of three of the mover with both ends open.
pub proof fn lemma_open_three_wins(pos: Position, x: int, y: int, i: int)
    requires
        on_board(x, y),
        0 <= i < 4,
        shape_at(pos, x, y, i) matches Some(sh) && sh.mine && sh.count == 3 && sh.bounded == 0
            && sh.weight >= 1,
        rival(pos, 5, 0) + rival(pos, 5, 1) == 0,
        rival(pos, 4, 0) == 0,
        rival(pos, 4, 1) == 0,
    ensures
        evaluate(pos) == WIN,
{
    let k = 4 * flat(x, y) + i;
    assert((k / 4) / 15 == x && (k / 4) % 15 == y && k % 4 == i);
    lemma_tally_holds(pos, true, 3, 0, 900, k);
}

/// Evaluator monotonicity: where one more stone of the mover, the position
/// being otherwise the same and the same player on turn, extends a run of
/// the mover to an open three, the opponent has no four and no five, and the
/// position was not won before, the score rises. Here `after` is `before`
/// with the stone on the cell with storage place `at`, and the stone on
/// `(x, y)` sees the open three along axis `i`.
pub proof fn lemma_open_three_raises_score(
    before: Position,
    after: Position,
    at: int,
    x: int,
    y: int,
    i: int,
)
    requires
        before.legal(at),
        after.turn == before.turn,
        after.cells == before.cells.update(at, Some(before.turn)),
        on_board(x, y),
        0 <= i < 4,
        shape_at(after, x, y, i) matches Some(sh) && sh.mine && sh.count == 3 && sh.bounded == 0
            && sh.weight >= 1,
        rival(after, 5, 0) + rival(after, 5, 1) == 0,
        rival(after, 4, 0) == 0,
        rival(after, 4, 1) == 0,
        evaluate(before) < WIN,
    ensures
        evaluate(after) > evaluate(before),
{
    lemma_open_three_wins(after, x, y, i);
}

/// A step of one cell, taken `k` times, moves by `k`, by nothing or by `-k`.
pub proof fn lemma_unit_scale(d: int, k: int)
    requires
        -1 <= d <= 1,
    ensures
        k * d == (if d == 1 {
            k
        } else if d == 0 {
            0
        } else {
            -k
        }),
        d * k == k * d,
{
    assert(k * d == (if d == 1 {
        k
    } else if d == 0 {
        0
    } else {
        -k
    })) by (nonlinear_arith)
        requires
            -1 <= d <= 1,
    ;
    assert(d * k == k * d) by (nonlinear_arith);
}

/// No slot weighs more than 4, so no bucket holds more than 4 for each slot.
pub proof fn lemma_tally_bound(pos: Position, mine: bool, count: int, bounded: int, n: nat)
    ensures
        tally(pos, mine, count, bounded, n) <= 4 * n,
    decreases n,
{
    if n > 0 {
        lemma_tally_bound(pos, mine, count, bounded, (n - 1) as nat);
        reveal(shape_at);
    }
}

impl Board {
    /// Whether the cell `k` steps from `cp` in direction `i` is on the board
    /// and empty.
    pub(crate) fn open_end(&self, cp: CellPos, i: usize, k: usize) -> (r: bool)
        requires
            self.wf(),
            i < 8,
            k <= 7,
        ensures
            r == vacant_at(self@.cells, ahead(cp.col(), cp.row(), i as int, k as int)),
    {
        let d = dir(i);
        proof {
            use_type_invariant(cp);
            lemma_unit_scale(d.dx(), k as int);
            lemma_unit_scale(d.dy(), k as int);
        }
        match cp.try_add(d * k) {
            Some(c) => self.get(c).is_none(),
            None => false,
        }
    }

    /// How many of the two ends of a run are bounded, where the cells next
    /// past its ends lie `front` steps along direction `i` and `back` steps
    /// along the opposite direction.
    fn bounded_ends(&self, cp: CellPos, i: usize, front: usize, back: usize) -> (r: usize)
        requires
            self.wf(),
            i < 4,
            front <= 7,
            back <= 7,
        ensures
            r == ends_bounded(
                self@.cells,
                ahead(cp.col(), cp.row(), i as int, front as int),
                ahead(cp.col(), cp.row(), i + 4, back as int),
            ),
            r <= 2,
    {
        let mut bounded: usize = 2;
        if self.open_end(cp, i, front) {
            bounded -= 1;
        }
        if self.open_end(cp, i + 4, back) {
            bounded -= 1;
        }
        bounded
    }

    /// The run that the stone `s` on `cp` sees along axis `i`, if it counts.
    fn stone_shape(&self, cp: CellPos, s: Stone, front: usize, back: usize, i: usize) -> (r: Option<
        Shape,
    >)
        requires
            self.wf(),
            i < 4,
            front == run_length(self@.cells, cp.col(), cp.row(), i as int),
            back == run_length(self@.cells, cp.col(), cp.row(), i + 4),
            1 <= front <= 6,
            1 <= back <= 6,
        ensures
            r == stone_shape_at(self@, cp.col(), cp.row(), i as int, s),
            r matches Some(sh) ==> sh.count < 6 && sh.bounded < 2 && sh.weight <= 4,
    {
        let count: usize = front + back - 1;
        let bounded = self.bounded_ends(cp, i, front, back);
        if bounded == 2 || count >= 6 {
            return None;
        }
        Some(Shape { mine: s == self.turn(), count, bounded, weight: 1 })
    }

    /// The run that the empty cell `cp` sees along axis `i`, if it counts.
    fn gap_shape(&self, cp: CellPos, front: usize, back: usize, i: usize) -> (r: Option<Shape>)
        requires
            self.wf(),
            i < 4,
            front == run_length(self@.cells, cp.col(), cp.row(), i as int),
            back == run_length(self@.cells, cp.col(), cp.row(), i + 4),
            front <= 6,
            back <= 6,
        ensures
            r == gap_shape_at(self@, cp.col(), cp.row(), i as int),
            r matches Some(sh) ==> sh.count < 6 && sh.bounded < 2 && sh.weight <= 4,
    {
        let before = self.neighbour(cp, i);
        let behind = self.neighbour(cp, i + 4);
        let colour = match (before, behind) {
            (Some(a), Some(b)) => if a == b {
                a
            } else {
                return None;
            },
            _ => {
                return None;
            },
        };
        let count: usize = front + back;
        let bounded = self.bounded_ends(cp, i, front + 1, back + 1);
        if bounded == 2 || count >= 5 {
            return None;
        }
        Some(Shape { mine: colour == self.turn(), count, bounded, weight: count })
    }

    /// What the cell next to `cp` in direction `i` holds; nothing where it is
    /// off the board.
    pub(crate) fn neighbour(&self, cp: CellPos, i: usize) -> (r: Option<Stone>)
        requires
            self.wf(),
            i < 8,
        ensures
            r == stone_at(self@.cells, cp.col() + step(i as int).0, cp.row() + step(i as int).1),
    {
        match cp.try_add(dir(i)) {
            Some(c) => self.get(c),
            None => None,
        }
    }

    /// The run that `cp` sees along axis `i`, if it counts; `runs` holds the
    /// eight run lengths from `cp`.
    fn shape_on_axis(&self, cp: CellPos, runs: &[usize; 8], i: usize) -> (r: Option<Shape>)
        requires
            self.wf(),
            i < 4,
            forall|k: int|
                0 <= k < 8 ==> runs[k] == #[trigger] run_length(self@.cells, cp.col(), cp.row(), k),
            forall|k: int| 0 <= k < 8 ==> #[trigger] runs[k] <= 6,
        ensures
            r == shape_at(self@, cp.col(), cp.row(), i as int),
            r matches Some(sh) ==> sh.count < 6 && sh.bounded < 2 && sh.weight <= 4,
    {
        proof {
            use_type_invariant(cp);
            reveal(shape_at);
        }
        let front: usize = runs[i];
        let back: usize = runs[i + 4];
        assert(front == run_length(self@.cells, cp.col(), cp.row(), i as int));
        assert(back == run_length(self@.cells, cp.col(), cp.row(), i + 4));
        match self.get(cp) {
            None => self.gap_shape(cp, front, back, i),
            Some(s) => {
                proof {
                    lemma_run_from_stone(self@.cells, cp.col(), cp.row(), i as int);
                    lemma_run_from_stone(self@.cells, cp.col(), cp.row(), i + 4);
                }
                self.stone_shape(cp, s, front, back, i)
            },
        }
    }
}

/// From an occupied cell every run length is at least 1.
pub proof fn lemma_run_from_stone(cells: Grid, x: int, y: int, i: int)
    requires
        stone_at(cells, x, y).is_some(),
    ensures
        run_length(cells, x, y, i) >= 1,
{
    reveal_with_fuel(run_from, 2);
}

/// Whether the counters `c` hold what the first `n` slots give to the
/// buckets of one player.
pub open spec fn counted(c: [[usize; 2]; 6], pos: Position, mine: bool, n: nat) -> bool {
    forall|a: int, b: int|
        0 <= a < 6 && 0 <= b < 2 ==> (#[trigger] c[a][b]) == tally(pos, mine, a, b, n)
}

/// The score of the position on `board` for the player to move.
pub fn bobs_shallow_eval(board: &Board) -> (score: i32)
    requires
        board.wf(),
    ensures
        score == evaluate(board@),
{
    let mut counter_f: [[usize; 2]; 6] = [[0usize; 2]; 6];
    let mut counter_e: [[usize; 2]; 6] = [[0usize; 2]; 6];
    let ghost pos = board@;
    let mut q: usize = 0;
    while q < 225
        invariant
            board.wf(),
            pos == board@,
            q <= 225,
            counted(counter_f, pos, true, (4 * q) as nat),
            counted(counter_e, pos, false, (4 * q) as nat),
        decreases 225 - q,
    {
        let cp = cell(q / 15, q % 15);
        let dir_count = board.compute_dir_lengths_from(cp);
        let mut i: usize = 0;
        while i < 4
            invariant
                board.wf(),
                pos == board@,
                q < 225,
                i <= 4,
                cp.col() == q / 15,
                cp.row() == q % 15,
                forall|k: int|
                    0 <= k < 8 ==> dir_count[k] == #[trigger] run_length(
                        board@.cells,
                        cp.col(),
                        cp.row(),
                        k,
                    ),
                forall|k: int| 0 <= k < 8 ==> #[trigger] dir_count[k] <= 6,
                counted(counter_f, pos, true, (4 * q + i) as nat),
                counted(counter_e, pos, false, (4 * q + i) as nat),
            decreases 4 - i,
        {
            let ghost n = (4 * q + i) as nat;
            let ghost old_f = counter_f;
            let ghost old_e = counter_e;
            let found = board.shape_on_axis(cp, &dir_count, i);
            proof {
                assert((n as int / 4) / 15 == q / 15 && (n as int / 4) % 15 == q % 15 && n as int
                    % 4 == i);
                assert forall|a: int, b: int| 0 <= a < 6 && 0 <= b < 2 implies tally(
                    pos,
                    true,
                    a,
                    b,
                    n,
                ) <= 3600 && tally(pos, false, a, b, n) <= 3600 by {
                    lemma_tally_bound(pos, true, a, b, n);
                    lemma_tally_bound(pos, false, a, b, n);
                }
            }
            if let Some(sh) = found {
                if sh.mine {
                    assert(old_f[sh.count as int][sh.bounded as int] <= 3600);
                    let row: [usize; 2] = counter_f[sh.count];
                    let mut grown: [usize; 2] = row;
                    grown[sh.bounded] = row[sh.bounded] + sh.weight;
                    counter_f[sh.count] = grown;
                } else {
                    assert(old_e[sh.count as int][sh.bounded as int] <= 3600);
                    let row: [usize; 2] = counter_e[sh.count];
                    let mut grown: [usize; 2] = row;
                    grown[sh.bounded] = row[sh.bounded] + sh.weight;
                    counter_e[sh.count] = grown;
                }
            }
            proof {
                assert forall|a: int, b: int| 0 <= a < 6 && 0 <= b < 2 implies (
                #[trigger] counter_f[a][b]) == tally(pos, true, a, b, n + 1) by {
                    assert(old_f[a][b] == tally(pos, true, a, b, n));
                    assert(counter_f[a][b] == old_f[a][b] + share(pos, true, a, b, n as int));
                }
                assert forall|a: int, b: int| 0 <= a < 6 && 0 <= b < 2 implies (
                #[trigger] counter_e[a][b]) == tally(pos, false, a, b, n + 1) by {
                    assert(old_e[a][b] == tally(pos, false, a, b, n));
                    assert(counter_e[a][b] == old_e[a][b] + share(pos, false, a, b, n as int));
                }
            }
            i += 1;
        }
        q += 1;
    }
    proof {
        assert forall|a: int, b: int| 0 <= a < 6 && 0 <= b < 2 implies counter_f[a][b] == tally(
            pos,
            true,
            a,
            b,
            900,
        ) && counter_f[a][b] <= 3600 && counter_e[a][b] == tally(pos, false, a, b, 900)
            && counter_e[a][b] <= 3600 by {
            lemma_tally_bound(pos, true, a, b, 900);
            lemma_tally_bound(pos, false, a, b, 900);
        }
    }
    let f20: i32 = counter_f[2][0] as i32;
    let f21: i32 = counter_f[2][1] as i32;
    let f30: i32 = counter_f[3][0] as i32;
    let f31: i32 = counter_f[3][1] as i32;
    let f40: i32 = counter_f[4][0] as i32;
    let f41: i32 = counter_f[4][1] as i32;
    let f50: i32 = counter_f[5][0] as i32;
    let f51: i32 = counter_f[5][1] as i32;
    let e20: i32 = counter_e[2][0] as i32;
    let e21: i32 = counter_e[2][1] as i32;
    let e30: i32 = counter_e[3][0] as i32;
    let e31: i32 = counter_e[3][1] as i32;
    let e40: i32 = counter_e[4][0] as i32;
    let e41: i32 = counter_e[4][1] as i32;
    let e50: i32 = counter_e[5][0] as i32;
    let e51: i32 = counter_e[5][1] as i32;
    assert(f20 == mover(pos, 2, 0) && f21 == mover(pos, 2, 1) && f30 == mover(pos, 3, 0) && f31
        == mover(pos, 3, 1) && f40 == mover(pos, 4, 0) && f41 == mover(pos, 4, 1) && f50 == mover(
        pos,
        5,
        0,
    ) && f51 == mover(pos, 5, 1));
    assert(e20 == rival(pos, 2, 0) && e21 == rival(pos, 2, 1) && e30 == rival(pos, 3, 0) && e31
        == rival(pos, 3, 1) && e40 == rival(pos, 4, 0) && e41 == rival(pos, 4, 1) && e50 == rival(
        pos,
        5,
        0,
    ) && e51 == rival(pos, 5, 1));
    if f50 + f51 != 0 {
        return WIN;
    }
    if e50 + e51 != 0 {
        return LOST;
    }
    if f40 + f41 != 0 {
        return WIN;
    }
    if e40 != 0 {
        return LOST;
    }
    if f30 != 0 && e41 == 0 {
        return WIN;
    }
    if e41 / 4 > 0 && e41 / 4 + e30 / 3 > 1 {
        return LOST;
    }
    if e30 / 3 > 1 && f30 + f31 == 0 {
        return LOST;
    }
    let gain: i32 = f20 * 10 + f21 + f30 * 300 + f31 * 20;
    let loss: i32 = e20 * 5 + e21 + e41 * 70 + e30 * 70 + e31 * 10;
    gain - loss
}

/// Whether `cp` is alive on `board`: empty, with a stone within two steps.
pub fn valid_move(board: &Board, cp: CellPos) -> (r: bool)
    requires
        board.wf(),
    ensures
        r == alive(board@.cells, cp.col(), cp.row()),
{
    proof {
        use_type_invariant(cp);
    }
    if board.get(cp).is_some() {
        return false;
    }
    let mut has_d_neighbor = false;
    let mut i: usize = 0;
    while i < 8
        invariant
            board.wf(),
            i <= 8,
            has_d_neighbor == (exists|k: int|
                0 <= k < i && #[trigger] stone_near(board@.cells, cp.col(), cp.row(), k)),
        decreases 8 - i,
    {
        let ghost seen = has_d_neighbor;
        proof {
            use_type_invariant(cp);
        }
        if let Some(next) = cp.try_add(dir(i)) {
            has_d_neighbor = has_d_neighbor || board.get(next).is_some();
            if let Some(next2) = next.try_add(dir(i)) {
                has_d_neighbor = has_d_neighbor || board.get(next2).is_some();
            }
        }
        proof {
            assert(has_d_neighbor == (seen || stone_near(
                board@.cells,
                cp.col(),
                cp.row(),
                i as int,
            )));
        }
        i += 1;
    }
    has_d_neighbor
}

} // verus!
