//! The tactical state of a position: wins, losses and forced replies that
//! overrule the search.

use vstd::prelude::*;
use crate::board::Board;
use crate::eval::{ahead, alive, stone_near, vacant_at, valid_move};
use crate::free::{free_at, lemma_next_free, next_free};
use crate::geometry::{cell_at, flat, on_board, step, CellPos, Stone};
use crate::position::{stone_at, Position};
use crate::runs::{
    five_on_axis, lemma_run_ahead, lemma_run_length_capped, lemma_run_uncapped, run_from,
    run_length, wins_at,
};

verus! {

/// What an empty cell shows when looked at along one direction.
#[derive(Clone, Copy, Debug, PartialEq, Eq, Structural)]
pub enum Finding {
    /// Nothing of note.
    Nothing,
    /// A stone here gives the mover an open four: a win in two moves.
    Attack,
    /// A stone of the opponent here would complete five.
    Defense,
    /// The opponent has an open run of four that ends here.
    Loss,
    /// A stone of the mover here completes five.
    Win,
}

/// The tactical state of a position, as specifications see it.
pub enum Tactic {
    Boring,
    TwoMoveWin(CellPos),
    ForcedDefense(Seq<CellPos>),
    OneMoveLoss(CellPos),
    OneMoveWin(CellPos),
}

impl Tactic {
    /// The rank of the state: a higher one overrides a lower one.
    pub open spec fn rank(self) -> int {
        match self {
            Tactic::Boring => 0,
            Tactic::TwoMoveWin(_) => 2,
            Tactic::ForcedDefense(_) => 3,
            Tactic::OneMoveLoss(_) => 4,
            Tactic::OneMoveWin(_) => 5,
        }
    }

    /// The state after the finding `f` at cell `c` has been taken in. A
    /// finding of higher rank replaces the state; of equal rank, a cell to
    /// defend joins the list of such cells, and any other finding is dropped.
    pub open spec fn absorb(self, f: Finding, c: CellPos) -> Tactic {
        match f {
            Finding::Nothing => self,
            Finding::Attack => if self.rank() < 2 {
                Tactic::TwoMoveWin(c)
            } else {
                self
            },
            Finding::Defense => match self {
                Tactic::ForcedDefense(cells) => Tactic::ForcedDefense(cells.push(c)),
                _ => if self.rank() < 3 {
                    Tactic::ForcedDefense(seq![c])
                } else {
                    self
                },
            },
            Finding::Loss => if self.rank() < 4 {
                Tactic::OneMoveLoss(c)
            } else {
                self
            },
            Finding::Win => if self.rank() < 5 {
                Tactic::OneMoveWin(c)
            } else {
                self
            },
        }
    }
}

/// What an empty cell sees along one direction: the run in front of it and
/// the run behind it that a stone on the cell would join.
pub struct Sight {
    /// The colour of the neighbour in front, and so of both runs.
    pub stone: Stone,
    /// The length of the run in front.
    pub front: usize,
    /// The length of the run behind; 0 where the neighbour behind is not of
    /// the same colour.
    pub back: usize,
    /// Whether the cell past the run in front is on the grid and empty.
    pub front_open: bool,
    /// Whether the cell past the run behind is on the grid and empty.
    pub back_open: bool,
}

/// What the cell `(x, y)` sees along direction `i`: nothing where it is
/// occupied or where its neighbour in that direction is empty or off the
/// grid.
#[verifier::opaque]
pub open spec fn sight(pos: Position, x: int, y: int, i: int) -> Option<Sight> {
    let j = (i + 4) % 8;
    if !vacant_at(pos.cells, (x, y)) {
        None
    } else {
        match stone_at(pos.cells, x + step(i).0, y + step(i).1) {
            None => None,
            Some(stone) => {
                let front = run_length(pos.cells, x, y, i) as int;
                let back = if stone_at(pos.cells, x + step(j).0, y + step(j).1) == Some(stone) {
                    run_length(pos.cells, x, y, j) as int
                } else {
                    0
                };
                Some(
                    Sight {
                        stone,
                        front: front as usize,
                        back: back as usize,
                        front_open: vacant_at(pos.cells, ahead(x, y, i, front + 1)),
                        back_open: vacant_at(pos.cells, ahead(x, y, j, back + 1)),
                    },
                )
            },
        }
    }
}

/// What a sight means for the player `turn` who is to move. With
/// `front + back == 4` the cell completes five: a win for the mover's
/// colour, a cell to defend for the opponent's, and a loss where the
/// opponent's four is unbroken and open at its far end. Three of the mover's
/// in front, or two in front and one behind, with both far ends open, is a
/// win in two moves.
pub open spec fn judge(turn: Stone, s: Sight) -> Finding {
    if s.stone == turn {
        if s.front + s.back == 4 {
            Finding::Win
        } else if s.front_open && s.back_open && ((s.front == 3 && s.back == 0) || (s.front == 2
            && s.back == 1)) {
            Finding::Attack
        } else {
            Finding::Nothing
        }
    } else {
        if s.front == 4 && s.back == 0 && s.front_open {
            Finding::Loss
        } else if s.front + s.back == 4 {
            Finding::Defense
        } else {
            Finding::Nothing
        }
    }
}

/// What the cell `(x, y)` shows along direction `i`.
pub open spec fn finding(pos: Position, x: int, y: int, i: int) -> Finding {
    match sight(pos, x, y, i) {
        None => Finding::Nothing,
        Some(s) => judge(pos.turn, s),
    }
}

/// The finding of slot `k`: direction `k % 8` of the cell at row-major place
/// `k / 8`.
pub open spec fn slot_finding(pos: Position, k: int) -> Finding {
    finding(pos, (k / 8) % 15, (k / 8) / 15, k % 8)
}

/// The cell of slot `k`.
pub open spec fn slot_cell(k: int) -> CellPos {
    cell_at((k / 8) % 15, (k / 8) / 15)
}

/// The tactical state that the first `n` slots give.
pub open spec fn scan(pos: Position, n: nat) -> Tactic
    decreases n,
{
    if n == 0 {
        Tactic::Boring
    } else {
        scan(pos, (n - 1) as nat).absorb(slot_finding(pos, n - 1), slot_cell(n - 1))
    }
}

/// The tactical state of a position: what all eight directions of all cells
/// give, taken in row-major order.
pub open spec fn classify(pos: Position) -> Tactic {
    scan(pos, 1800)
}

/// The tactical state of a board.
#[derive(Debug)]
pub enum BoardState {
    /// No tactic was found.
    Boring,
    /// The mover wins in two moves by playing the cell.
    TwoMoveWin(CellPos),
    /// The opponent completes five on each of the cells unless the mover
    /// takes it first.
    ForcedDefense(Vec<CellPos>),
    /// The opponent has an open four that ends on the cell.
    OneMoveLoss(CellPos),
    /// The mover completes five by playing the cell.
    OneMoveWin(CellPos),
}

impl View for BoardState {
    type V = Tactic;

    open spec fn view(&self) -> Tactic {
        match self {
            BoardState::Boring => Tactic::Boring,
            BoardState::TwoMoveWin(c) => Tactic::TwoMoveWin(*c),
            BoardState::ForcedDefense(cells) => Tactic::ForcedDefense(cells@),
            BoardState::OneMoveLoss(c) => Tactic::OneMoveLoss(*c),
            BoardState::OneMoveWin(c) => Tactic::OneMoveWin(*c),
        }
    }
}

/// A position that has a winning cell stays so classified, whatever the
/// slots that follow show.
pub proof fn lemma_scan_settled(pos: Position, n: nat, m: nat)
    requires
        n <= m,
        scan(pos, n) is OneMoveWin,
    ensures
        scan(pos, m) == scan(pos, n),
    decreases m,
{
    if n < m {
        lemma_scan_settled(pos, n, (m - 1) as nat);
    }
}

/// A sight of four completes five: where the runs before and behind an
/// empty cell have four stones together, a stone of their colour on the cell
/// completes five in a row.
pub proof fn lemma_four_in_sight(pos: Position, x: int, y: int, i: int)
    requires
        pos.full_size(),
        0 <= i < 8,
        sight(pos, x, y, i) matches Some(s) && s.front + s.back == 4,
    ensures
        vacant_at(pos.cells, (x, y)),
        wins_at(pos.cells.update(flat(x, y), Some(sight(pos, x, y, i).unwrap().stone)), x, y),
{
    reveal(sight);
    let seen = sight(pos, x, y, i).unwrap();
    let stone = seen.stone;
    let j = (i + 4) % 8;
    let (dx, dy) = step(i);
    assert(step(j) == (-dx, -dy));
    let cells = pos.cells;
    let after = cells.update(flat(x, y), Some(stone));
    let front = run_from(cells, x + dx, y + dy, dx, dy, stone, 6);
    let back = run_from(cells, x - dx, y - dy, -dx, -dy, stone, 6);
    reveal_with_fuel(run_from, 2);
    lemma_run_length_capped(cells, x, y, i);
    lemma_run_length_capped(cells, x, y, j);
    assert(front == seen.front);
    assert(back == seen.back);
    lemma_run_ahead(cells, x, y, Some(stone), i, 1, stone, 5);
    lemma_run_ahead(cells, x, y, Some(stone), j, 1, stone, 5);
    lemma_run_uncapped(cells, x + dx, y + dy, dx, dy, stone, 6, 5);
    lemma_run_uncapped(cells, x - dx, y - dy, -dx, -dy, stone, 6, 5);
    assert(stone_at(after, x, y) == Some(stone));
    assert(run_from(after, x, y, dx, dy, stone, 6) == 1 + front);
    assert(run_from(after, x, y, -dx, -dy, stone, 6) == 1 + back);
    assert(run_length(after, x, y, i) == 1 + front);
    assert(run_length(after, x, y, j) == 1 + back);
    if i < 4 {
        assert(five_on_axis(after, x, y, i));
    } else {
        assert(five_on_axis(after, x, y, j));
    }
}

/// A winning cell wins: where a cell shows a win, the mover's stone on it
/// completes five in a row.
pub proof fn lemma_win_completes_five(pos: Position, x: int, y: int, i: int)
    requires
        pos.full_size(),
        0 <= i < 8,
        finding(pos, x, y, i) == Finding::Win,
    ensures
        pos.legal(flat(x, y)),
        wins_at(pos.place(flat(x, y)).cells, x, y),
{
    lemma_four_in_sight(pos, x, y, i);
}

/// A cell to defend must be taken: where a cell shows a loss or a cell to
/// defend, the opponent's stone on it would complete five in a row.
pub proof fn lemma_defense_prevents_five(pos: Position, x: int, y: int, i: int)
    requires
        pos.full_size(),
        0 <= i < 8,
        finding(pos, x, y, i) == Finding::Defense || finding(pos, x, y, i) == Finding::Loss,
    ensures
        pos.legal(flat(x, y)),
        wins_at(pos.cells.update(flat(x, y), Some(pos.turn.other())), x, y),
{
    lemma_four_in_sight(pos, x, y, i);
}

/// The cells of the slots among the first `n` that show a cell to defend,
/// in the order of the slots.
pub open spec fn defense_cells(pos: Position, n: nat) -> Seq<CellPos>
    decreases n,
{
    if n == 0 {
        Seq::empty()
    } else if slot_finding(pos, n - 1) == Finding::Defense {
        defense_cells(pos, (n - 1) as nat).push(slot_cell(n - 1))
    } else {
        defense_cells(pos, (n - 1) as nat)
    }
}

/// The list of the cells to defend is complete: a state that names cells to
/// defend names the cell of every slot that shows one, once for each such
/// slot and in the order of the slots.
pub proof fn lemma_defense_complete(pos: Position, n: nat)
    ensures
        scan(pos, n) matches Tactic::ForcedDefense(cells) ==> cells == defense_cells(pos, n),
        !shown(pos, Finding::Defense, n as int) ==> defense_cells(pos, n).len() == 0,
    decreases n,
{
    if n > 0 {
        let m = (n - 1) as nat;
        lemma_defense_complete(pos, m);
        lemma_scan_kind(pos, m);
        lemma_shown_step(pos, Finding::Defense, m as int);
        if slot_finding(pos, m as int) == Finding::Defense && !(scan(pos, m) is ForcedDefense)
            && scan(pos, n) is ForcedDefense {
            assert(defense_cells(pos, m).len() == 0);
            assert(defense_cells(pos, n) =~= seq![slot_cell(m as int)]);
        }
    }
}

/// The winning cell that a state names is the cell of a slot that shows a
/// win.
pub proof fn lemma_scan_win_cell(pos: Position, n: nat)
    requires
        n <= 1800,
    ensures
        scan(pos, n) matches Tactic::OneMoveWin(c) ==> exists|k: int|
            0 <= k < n && c == slot_cell(k) && #[trigger] slot_finding(pos, k) == Finding::Win,
    decreases n,
{
    if n > 0 {
        lemma_scan_win_cell(pos, (n - 1) as nat);
        if let Tactic::OneMoveWin(c) = scan(pos, n) {
            if scan(pos, (n - 1) as nat) is OneMoveWin {
                let k = choose|k: int|
                    0 <= k < n - 1 && c == slot_cell(k) && #[trigger] slot_finding(pos, k)
                        == Finding::Win;
                assert(0 <= k < n && c == slot_cell(k) && slot_finding(pos, k) == Finding::Win);
            } else {
                assert(c == slot_cell(n - 1) && slot_finding(pos, n - 1) == Finding::Win);
            }
        }
    }
}

/// A win in one move is one: the cell that the classifier names as winning
/// is empty, and the mover's stone on it completes five in a row.
pub proof fn lemma_one_move_win_wins(pos: Position)
    requires
        pos.full_size(),
    ensures
        classify(pos) matches Tactic::OneMoveWin(c) ==> pos.legal(c.idx()) && wins_at(
            pos.place(c.idx()).cells,
            c.col(),
            c.row(),
        ),
{
    lemma_scan_win_cell(pos, 1800);
    if let Tactic::OneMoveWin(c) = classify(pos) {
        let k = choose|k: int|
            0 <= k < 1800 && c == slot_cell(k) && #[trigger] slot_finding(pos, k) == Finding::Win;
        lemma_win_completes_five(pos, (k / 8) % 15, (k / 8) / 15, k % 8);
    }
}

/// The cells to defend that the classifier names are all there are: the
/// cell of every slot that shows one, in the order of the slots.
pub proof fn lemma_classify_defense_complete(pos: Position)
    ensures
        classify(pos) matches Tactic::ForcedDefense(cells) ==> cells == defense_cells(pos, 1800),
{
    lemma_defense_complete(pos, 1800);
}

/// Whether one of the first `n` slots shows the finding `f`.
pub open spec fn shown(pos: Position, f: Finding, n: int) -> bool {
    exists|k: int| 0 <= k < n && #[trigger] slot_finding(pos, k) == f
}

/// The kind of the state after `n` slots is the highest kind that one of
/// them shows: a win before a loss, a loss before a cell to defend, a cell to
/// defend before a win in two moves; a state is quiet where no slot shows
/// anything.
pub proof fn lemma_scan_kind(pos: Position, n: nat)
    ensures
        scan(pos, n) is OneMoveWin <==> shown(pos, Finding::Win, n as int),
        scan(pos, n) is OneMoveLoss <==> shown(pos, Finding::Loss, n as int) && !shown(
            pos,
            Finding::Win,
            n as int,
        ),
        scan(pos, n) is ForcedDefense <==> shown(pos, Finding::Defense, n as int) && !shown(
            pos,
            Finding::Loss,
            n as int,
        ) && !shown(pos, Finding::Win, n as int),
        scan(pos, n) is TwoMoveWin <==> shown(pos, Finding::Attack, n as int) && !shown(
            pos,
            Finding::Defense,
            n as int,
        ) && !shown(pos, Finding::Loss, n as int) && !shown(pos, Finding::Win, n as int),
    decreases n,
{
    if n > 0 {
        let m = (n - 1) as nat;
        lemma_scan_kind(pos, m);
        let f = slot_finding(pos, m as int);
        lemma_shown_step(pos, Finding::Win, m as int);
        lemma_shown_step(pos, Finding::Loss, m as int);
        lemma_shown_step(pos, Finding::Defense, m as int);
        lemma_shown_step(pos, Finding::Attack, m as int);
    }
}

/// A finding is shown by the first `m + 1` slots where the first `m` show
/// it or the slot `m` does.
proof fn lemma_shown_step(pos: Position, f: Finding, m: int)
    requires
        0 <= m,
    ensures
        shown(pos, f, m + 1) <==> shown(pos, f, m) || slot_finding(pos, m) == f,
{
    if shown(pos, f, m + 1) {
        let k = choose|k: int| 0 <= k < m + 1 && #[trigger] slot_finding(pos, k) == f;
        if k < m {
            assert(shown(pos, f, m));
        }
    }
    if shown(pos, f, m) {
        let k = choose|k: int| 0 <= k < m && #[trigger] slot_finding(pos, k) == f;
        assert(0 <= k < m + 1 && slot_finding(pos, k) == f);
    }
    if slot_finding(pos, m) == f && m >= 0 {
        assert(0 <= m < m + 1 && slot_finding(pos, m) == f);
    }
}

/// The kind of the tactical state of a position is the highest kind that
/// one of its cells shows in one of the eight directions.
pub proof fn lemma_classify_kind(pos: Position)
    ensures
        classify(pos) is OneMoveWin <==> shown(pos, Finding::Win, 1800),
        classify(pos) is OneMoveLoss <==> shown(pos, Finding::Loss, 1800) && !shown(
            pos,
            Finding::Win,
            1800,
        ),
        classify(pos) is ForcedDefense <==> shown(pos, Finding::Defense, 1800) && !shown(
            pos,
            Finding::Loss,
            1800,
        ) && !shown(pos, Finding::Win, 1800),
        classify(pos) is TwoMoveWin <==> shown(pos, Finding::Attack, 1800) && !shown(
            pos,
            Finding::Defense,
            1800,
        ) && !shown(pos, Finding::Loss, 1800) && !shown(pos, Finding::Win, 1800),
{
    lemma_scan_kind(pos, 1800);
}

/// Where no slot before the `n`-th shows a win, the state after `n` slots
/// names no winning cell.
pub proof fn lemma_scan_no_win(pos: Position, n: nat)
    requires
        forall|k: int| 0 <= k < n ==> slot_finding(pos, k) != Finding::Win,
    ensures
        !(scan(pos, n) is OneMoveWin),
    decreases n,
{
    if n > 0 {
        lemma_scan_no_win(pos, (n - 1) as nat);
    }
}

/// The priority of a win: where some cell completes five for the mover, the
/// position is classified as a win in one move, on the first such cell in
/// scanning order, whatever cells there are to defend and whatever else the
/// position shows.
pub proof fn lemma_win_outranks_all(pos: Position, k: int)
    requires
        0 <= k < 1800,
        slot_finding(pos, k) == Finding::Win,
        forall|j: int| 0 <= j < k ==> slot_finding(pos, j) != Finding::Win,
    ensures
        classify(pos) == Tactic::OneMoveWin(slot_cell(k)),
{
    lemma_scan_no_win(pos, k as nat);
    assert(scan(pos, (k + 1) as nat) == Tactic::OneMoveWin(slot_cell(k)));
    lemma_scan_settled(pos, (k + 1) as nat, 1800);
}

/// A position with a winning cell for the mover and a cell to defend is
/// classified as a win in one move, never as a forced defense.
pub proof fn lemma_win_outranks_defense(pos: Position, won: int, defended: int)
    requires
        0 <= won < 1800,
        0 <= defended < 1800,
        slot_finding(pos, won) == Finding::Win,
        slot_finding(pos, defended) == Finding::Defense,
    ensures
        classify(pos) is OneMoveWin,
        !(classify(pos) is ForcedDefense),
{
    lemma_classify_kind(pos);
    assert(shown(pos, Finding::Win, 1800));
}

/// Slots that show nothing leave the state as it is.
pub proof fn lemma_scan_skip(pos: Position, n: nat, m: nat)
    requires
        n <= m,
        forall|k: int| n <= k < m ==> slot_finding(pos, k) == Finding::Nothing,
    ensures
        scan(pos, m) == scan(pos, n),
    decreases m,
{
    if n < m {
        lemma_scan_skip(pos, n, (m - 1) as nat);
    }
}

/// Whether `c` is a cell of `pos` that shows something in some direction.
pub open spec fn shows_something(pos: Position, c: CellPos) -> bool {
    exists|k: int| 0 <= k < 1800 && c == slot_cell(k) && #[trigger] slot_finding(pos, k) != Finding::Nothing
}

/// Every cell that a tactical state names shows something.
pub open spec fn names_findings(pos: Position, t: Tactic) -> bool {
    match t {
        Tactic::Boring => true,
        Tactic::TwoMoveWin(c) => shows_something(pos, c),
        Tactic::ForcedDefense(cells) => cells.len() > 0 && forall|j: int|
            0 <= j < cells.len() ==> shows_something(pos, #[trigger] cells[j]),
        Tactic::OneMoveLoss(c) => shows_something(pos, c),
        Tactic::OneMoveWin(c) => shows_something(pos, c),
    }
}

/// The cells that the state after `n` slots names are cells that show
/// something.
pub proof fn lemma_scan_cells(pos: Position, n: nat)
    requires
        n <= 1800,
    ensures
        names_findings(pos, scan(pos, n)),
    decreases n,
{
    if n > 0 {
        lemma_scan_cells(pos, (n - 1) as nat);
        let before = scan(pos, (n - 1) as nat);
        let f = slot_finding(pos, n - 1);
        let c = slot_cell(n - 1);
        if f != Finding::Nothing {
            assert(shows_something(pos, c));
        }
        match scan(pos, n) {
            Tactic::ForcedDefense(cells) => {
                assert forall|j: int| 0 <= j < cells.len() implies shows_something(
                    pos,
                    #[trigger] cells[j],
                ) by {
                    if before is ForcedDefense && j < cells.len() - 1 {
                        assert(cells[j] == before->ForcedDefense_0[j]);
                    }
                }
            },
            _ => {},
        }
    }
}

/// Every cell that the tactical state of a position names is alive: empty,
/// with a stone beside it.
pub proof fn lemma_classify_cells(pos: Position)
    ensures
        match classify(pos) {
            Tactic::Boring => true,
            Tactic::TwoMoveWin(c) => alive(pos.cells, c.col(), c.row()),
            Tactic::ForcedDefense(cells) => cells.len() > 0 && forall|j: int|
                0 <= j < cells.len() ==> alive(pos.cells, (#[trigger] cells[j]).col(), cells[j].row()),
            Tactic::OneMoveLoss(c) => alive(pos.cells, c.col(), c.row()),
            Tactic::OneMoveWin(c) => alive(pos.cells, c.col(), c.row()),
        },
{
    lemma_scan_cells(pos, 1800);
    assert forall|c: CellPos| shows_something(pos, c) implies alive(pos.cells, c.col(), c.row()) by {
        let k = choose|k: int|
            0 <= k < 1800 && c == slot_cell(k) && #[trigger] slot_finding(pos, k) != Finding::Nothing;
        if !alive(pos.cells, c.col(), c.row()) {
            lemma_dead_cell_shows_nothing(pos, (k / 8) % 15, (k / 8) / 15, k % 8);
        }
    }
}

/// A cell that is not alive sees and shows nothing in any direction.
pub proof fn lemma_dead_cell_shows_nothing(pos: Position, x: int, y: int, i: int)
    requires
        0 <= i < 8,
        !alive(pos.cells, x, y),
    ensures
        sight(pos, x, y, i).is_none(),
        finding(pos, x, y, i) == Finding::Nothing,
{
    reveal(sight);
    if vacant_at(pos.cells, (x, y)) {
        assert(!stone_near(pos.cells, x, y, i));
    }
}

impl Board {
    /// What the empty cell `cp` sees along direction `i`; `runs` holds the
    /// eight run lengths from `cp`.
    pub(crate) fn look(&self, cp: CellPos, runs: &[usize; 8], i: usize) -> (r: Option<Sight>)
        requires
            self.wf(),
            i < 8,
            self@.cells[cp.idx()].is_none(),
            forall|k: int|
                0 <= k < 8 ==> runs[k] == #[trigger] run_length(self@.cells, cp.col(), cp.row(), k),
            forall|k: int| 0 <= k < 8 ==> #[trigger] runs[k] <= 6,
        ensures
            r == sight(self@, cp.col(), cp.row(), i as int),
            r matches Some(s) ==> s.front <= 6 && s.back <= 6,
    {
        proof {
            use_type_invariant(cp);
            reveal(sight);
        }
        let j: usize = (i + 4) % 8;
        let stone = match self.neighbour(cp, i) {
            Some(s) => s,
            None => {
                return None;
            },
        };
        let front: usize = runs[i];
        assert(front == run_length(self@.cells, cp.col(), cp.row(), i as int));
        let mut back: usize = 0;
        if let Some(prev_stone) = self.neighbour(cp, j) {
            if prev_stone == stone {
                back = runs[j];
                assert(back == run_length(self@.cells, cp.col(), cp.row(), j as int));
            }
        }
        let front_open = self.open_end(cp, i, front + 1);
        let back_open = self.open_end(cp, j, back + 1);
        Some(Sight { stone, front, back, front_open, back_open })
    }
}

impl BoardState {
    /// The rank of the state: a higher one overrides a lower one.
    pub fn priority(&self) -> (r: u8)
        ensures
            r == self@.rank(),
    {
        match self {
            BoardState::Boring => 0,
            BoardState::TwoMoveWin(_) => 2,
            BoardState::ForcedDefense(_) => 3,
            BoardState::OneMoveLoss(_) => 4,
            BoardState::OneMoveWin(_) => 5,
        }
    }

    /// The state after the finding `f` at cell `cp` has been taken in.
    fn absorb(self, f: Finding, cp: CellPos) -> (r: BoardState)
        ensures
            r@ == self@.absorb(f, cp),
    {
        let rank = self.priority();
        match f {
            Finding::Nothing => self,
            Finding::Attack => if rank < 2 {
                BoardState::TwoMoveWin(cp)
            } else {
                self
            },
            Finding::Defense => match self {
                BoardState::ForcedDefense(mut cells) => {
                    cells.push(cp);
                    BoardState::ForcedDefense(cells)
                },
                other => if rank < 3 {
                    let mut cells: Vec<CellPos> = Vec::new();
                    cells.push(cp);
                    assert(cells@ =~= seq![cp]);
                    BoardState::ForcedDefense(cells)
                } else {
                    other
                },
            },
            Finding::Loss => if rank < 4 {
                BoardState::OneMoveLoss(cp)
            } else {
                self
            },
            Finding::Win => if rank < 5 {
                BoardState::OneMoveWin(cp)
            } else {
                self
            },
        }
    }

    /// What a sight means for the player `turn` who is to move.
    fn weigh(turn: Stone, s: &Sight) -> (f: Finding)
        requires
            s.front <= 6,
            s.back <= 6,
        ensures
            f == judge(turn, *s),
    {
        if s.stone == turn {
            if s.front + s.back == 4 {
                Finding::Win
            } else if s.front_open && s.back_open && ((s.front == 3 && s.back == 0) || (s.front
                == 2 && s.back == 1)) {
                Finding::Attack
            } else {
                Finding::Nothing
            }
        } else {
            if s.front == 4 && s.back == 0 && s.front_open {
                Finding::Loss
            } else if s.front + s.back == 4 {
                Finding::Defense
            } else {
                Finding::Nothing
            }
        }
    }

    /// The tactical state of the position on `board`.
    pub fn compute(board: &Board) -> (r: BoardState)
        requires
            board.wf(),
        ensures
            r@ == classify(board@),
    {
        let ghost pos = board@;
        let mut result = BoardState::Boring;
        let mut walk = board.free_positions();
        let ghost mut done: int = 0;
        loop
            invariant_except_break
                board.wf(),
                pos == board@,
                walk.wf(),
                walk.cells() == pos.cells,
                walk.cursor() == done,
                0 <= done <= 225,
                result@ == scan(pos, (8 * done) as nat),
                !(result@ is OneMoveWin),
            ensures
                result@ == classify(pos),
            decreases 225 - done,
        {
            let ghost from = done;
            let cp = match walk.next() {
                Some(cp) => cp,
                None => {
                    proof {
                        lemma_next_free(pos.cells, from);
                        assert forall|k: int| 8 * from <= k < 1800 implies slot_finding(pos, k)
                            == Finding::Nothing by {
                            assert(!free_at(pos.cells, k / 8));
                            lemma_dead_cell_shows_nothing(pos, (k / 8) % 15, (k / 8) / 15, k % 8);
                        }
                        lemma_scan_skip(pos, (8 * from) as nat, 1800);
                    }
                    break ;
                },
            };
            proof {
                lemma_next_free(pos.cells, from);
                let at = next_free(pos.cells, from);
                done = at + 1;
                use_type_invariant(cp);
                assert(cp.col() == at % 15 && cp.row() == at / 15);
                assert forall|k: int| 8 * from <= k < 8 * at implies slot_finding(pos, k)
                    == Finding::Nothing by {
                    assert(!free_at(pos.cells, k / 8));
                    lemma_dead_cell_shows_nothing(pos, (k / 8) % 15, (k / 8) / 15, k % 8);
                }
                lemma_scan_skip(pos, (8 * from) as nat, (8 * at) as nat);
            }
            let ghost at = done - 1;
            if !valid_move(board, cp) {
                proof {
                    assert forall|k: int| 8 * at <= k < 8 * done implies slot_finding(pos, k)
                        == Finding::Nothing by {
                        assert(k / 8 == at);
                        lemma_dead_cell_shows_nothing(pos, cp.col(), cp.row(), k % 8);
                    }
                    lemma_scan_skip(pos, (8 * at) as nat, (8 * done) as nat);
                }
                continue ;
            }
            let dir_count = board.compute_dir_lengths_from(cp);
            let mut i: usize = 0;
            while i < 8
                invariant
                    board.wf(),
                    pos == board@,
                    i <= 8,
                    0 <= at < 225,
                    cp.col() == at % 15,
                    cp.row() == at / 15,
                    pos.cells[cp.idx()].is_none(),
                    forall|k: int|
                        0 <= k < 8 ==> dir_count[k] == #[trigger] run_length(
                            board@.cells,
                            cp.col(),
                            cp.row(),
                            k,
                        ),
                    forall|k: int| 0 <= k < 8 ==> #[trigger] dir_count[k] <= 6,
                    result@ == scan(pos, (8 * at + i) as nat),
                    !(result@ is OneMoveWin),
                decreases 8 - i,
            {
                let found = match board.look(cp, &dir_count, i) {
                    Some(seen) => BoardState::weigh(board.turn(), &seen),
                    None => Finding::Nothing,
                };
                proof {
                    let k = 8 * at + i;
                    assert(k / 8 == at && k % 8 == i);
                    assert(slot_cell(k) == cp);
                }
                result = result.absorb(found, cp);
                i += 1;
                if found == Finding::Win {
                    proof {
                        lemma_scan_settled(pos, (8 * at + i) as nat, 1800);
                    }
                    return result;
                }
            }
        }
        result
    }
}

} // verus!
