//! The player that rations its search by a quota of effort and lets the
//! tactics of a position overrule the search.

use vstd::prelude::*;
use crate::actor::Actor;
use crate::advice::{
    alive_order, bare, final_result, first_best, john_final, john_passes, john_search, john_widen,
    lemma_final_decided, lemma_final_frame, lemma_passes_decided, lemma_passes_frame,
    lemma_widen_frame, pass_count, quota_before, ranked, Advice, Found,
};
use crate::board::Board;
use crate::eval::{
    alive, bobs_shallow_eval, evaluate, in_range, lemma_evaluate_in_range, valid_move, LOST, WIN,
};
use crate::free::{first_free_cell, free_count, lemma_all_free};
use crate::geometry::{cell, cell_at, CellPos};
use crate::ordering::{lemma_sort_by_score, reverse_moves, sort_by_score, sort_moves, Scored};
use crate::position::{lemma_place_fills, lemma_place_lift, Position};
use crate::threat::{classify, lemma_classify_cells, BoardState, Tactic};

verus! {

/// A quota of search effort. The search asks it what is left after a node,
/// whether it is spent, and how to share it among the moves of a node; how
/// the quota counts is the business of the type that implements it. Nothing
/// is asked of the answers. The search states of its result that it follows
/// from what these methods answered to what they were asked.
pub trait Budget: Sized {
    /// What is left of the quota once a node has paid its overhead.
    fn enter(&self) -> Self;

    /// Whether the quota is spent, so that the node is scored and not
    /// searched.
    fn exhausted(&self) -> bool;

    /// The quota of one move before the first widening pass, where `passes`
    /// passes are to come and `moves` moves share the quota.
    fn seed(&self, passes: i32, moves: usize) -> Self;

    /// This quota of one move, grown by the multiplier of a pass.
    fn widen(&self) -> Self;

    /// Whether this quota of one move is below the floor of a node, so that
    /// the pass is skipped.
    fn below_floor(&self) -> bool;

    /// The share, in a widening pass with this quota of one move, of the
    /// move at place `rank` among `moves` moves; the first places get most.
    fn pass_share(&self, rank: usize, moves: usize) -> Self;

    /// The share, when this quota is shared out in the final pass, of the
    /// move at place `rank` among `moves` moves; the first places get most.
    fn final_share(&self, rank: usize, moves: usize) -> Self;
}

/// The rule that gave a search result.
#[derive(Clone, Copy, Debug, PartialEq, Eq, Structural)]
pub enum Reason {
    /// Every move loses.
    AllLosingMoves,
    /// A move completes five, or was searched and wins.
    WinningMove,
    /// The position was scored by the static evaluator.
    BobsEval,
    /// The mover completes five at once.
    OneMoveWin,
    /// The mover wins in two moves.
    TwoMove,
    /// The opponent's open four cannot be stopped.
    OneMoveLoss,
    /// The opponent threatens five on two cells at once.
    ForcedLoss,
    /// The one cell on which the opponent threatens five was taken.
    ForcedDefense,
}

/// Whether `cells` is in strictly ascending order of storage place.
pub open spec fn strictly_ascending(cells: Seq<CellPos>) -> bool {
    forall|i: int, j: int| 0 <= i < j < cells.len() ==> cells[i].idx() < cells[j].idx()
}

/// Whether `distinct` holds the cells of `cells`, each once, in ascending
/// order of storage place.
pub open spec fn is_distinct_of(distinct: Seq<CellPos>, cells: Seq<CellPos>) -> bool {
    &&& strictly_ascending(distinct)
    &&& forall|c: CellPos| distinct.contains(c) <==> cells.contains(c)
}

/// The cells of `cells`, each once, in ascending order of storage place.
pub fn distinct_cells(cells: &Vec<CellPos>) -> (distinct: Vec<CellPos>)
    ensures
        is_distinct_of(distinct@, cells@),
{
    let mut distinct: Vec<CellPos> = Vec::new();
    let mut n: usize = 0;
    while n < cells.len()
        invariant
            n <= cells.len(),
            strictly_ascending(distinct@),
            forall|c: CellPos| distinct@.contains(c) <==> cells@.take(n as int).contains(c),
        decreases cells.len() - n,
    {
        let c = cells[n];
        let ghost before = distinct@;
        assert(forall|d: CellPos| before.contains(d) <==> cells@.take(n as int).contains(d));
        let mut p: usize = 0;
        while p < distinct.len() && distinct[p].index() < c.index()
            invariant
                p <= distinct.len(),
                n < cells.len(),
                c == cells@[n as int],
                distinct@ == before,
                strictly_ascending(before),
                forall|d: CellPos| before.contains(d) <==> cells@.take(n as int).contains(d),
                forall|j: int| 0 <= j < p ==> distinct@[j].idx() < c.idx(),
            decreases distinct.len() - p,
        {
            p += 1;
        }
        proof {
            use_type_invariant(c);
        }
        let mut known = false;
        if p < distinct.len() {
            let d = distinct[p];
            proof {
                use_type_invariant(d);
            }
            known = d.index() == c.index();
            assert(known ==> d == c);
        }
        if known {
            assert(before[p as int] == c);
        } else {
            distinct.insert(p, c);
            assert(distinct@[p as int] == c);
        }
        proof {
            let upto = cells@.take(n as int);
            let more = cells@.take(n + 1);
            assert(more =~= upto.push(c));
            assert forall|d: CellPos| distinct@.contains(d) <==> more.contains(d) by {
                if distinct@.contains(d) {
                    let j = choose|j: int| 0 <= j < distinct@.len() && distinct@[j] == d;
                    if d == c {
                        assert(more[n as int] == d);
                    } else {
                        if known {
                            assert(before[j] == d);
                        } else if j < p {
                            assert(before[j] == d);
                        } else {
                            assert(before[j - 1] == d);
                        }
                        assert(before.contains(d));
                        assert(upto.contains(d));
                        let i = choose|i: int| 0 <= i < upto.len() && upto[i] == d;
                        assert(more[i] == d);
                    }
                }
                if more.contains(d) {
                    let i = choose|i: int| 0 <= i < more.len() && more[i] == d;
                    if i < n {
                        assert(upto[i] == d);
                        assert(before.contains(d));
                        let j = choose|j: int| 0 <= j < before.len() && before[j] == d;
                        if known || j < p {
                            assert(distinct@[j] == d);
                        } else {
                            assert(distinct@[j + 1] == d);
                        }
                    } else {
                        assert(d == c);
                        assert(distinct@[p as int] == c);
                    }
                }
            }
        }
        n += 1;
    }
    assert(cells@.take(cells.len() as int) =~= cells@);
    distinct
}

/// Whether every move of `moves` is an alive cell of `pos`.
pub open spec fn all_alive(pos: Position, moves: Seq<Scored>) -> bool {
    forall|k: int|
        0 <= k < moves.len() ==> alive(pos.cells, (#[trigger] moves[k]).1.col(), moves[k].1.row())
}

/// Sorting and turning a list of alive cells leaves a list of alive cells.
proof fn lemma_ranked_alive(pos: Position, moves: Seq<Scored>)
    requires
        all_alive(pos, moves),
    ensures
        all_alive(pos, sort_by_score(moves, moves.len()).reverse()),
        sort_by_score(moves, moves.len()).reverse().len() == moves.len(),
{
    broadcast use vstd::seq_lib::group_to_multiset_ensures;

    lemma_sort_by_score(moves, moves.len());
    let sorted = sort_by_score(moves, moves.len());
    let ranked = sorted.reverse();
    assert(moves.take(moves.len() as int) =~= moves);
    assert forall|k: int| 0 <= k < ranked.len() implies alive(
        pos.cells,
        (#[trigger] ranked[k]).1.col(),
        ranked[k].1.row(),
    ) by {
        let m = sorted[sorted.len() - 1 - k];
        assert(ranked[k] == m);
        assert(sorted.to_multiset().count(m) > 0);
        assert(moves.to_multiset().count(m) > 0);
        let j = choose|j: int| 0 <= j < moves.len() && moves[j] == m;
        assert(alive(pos.cells, moves[j].1.col(), moves[j].1.row()));
    }
}

/// Every alive cell in row-major order is an alive cell.
proof fn lemma_alive_order(pos: Position, n: nat)
    requires
        n <= 225,
    ensures
        all_alive(pos, alive_order(pos, n)),
        alive_order(pos, n).len() <= n,
    decreases n,
{
    if n > 0 {
        lemma_alive_order(pos, (n - 1) as nat);
    }
}

/// The alive cells of `board` in row-major order, each with the score 0.
pub fn alive_moves(board: &Board) -> (moves: Vec<Scored>)
    requires
        board.wf(),
    ensures
        moves@ == alive_order(board@, 225),
        all_alive(board@, moves@),
        moves@.len() <= 225,
{
    let mut moves: Vec<Scored> = Vec::new();
    let mut k: usize = 0;
    while k < 225
        invariant
            board.wf(),
            k <= 225,
            moves@ == alive_order(board@, k as nat),
        decreases 225 - k,
    {
        let cp = cell(k % 15, k / 15);
        if valid_move(board, cp) {
            moves.push((0, cp));
        }
        k += 1;
    }
    proof {
        lemma_alive_order(board@, 225);
    }
    moves
}

/// The moves of `moves` in descending order of score.
pub fn rank_moves(moves: Vec<Scored>) -> (turned: Vec<Scored>)
    ensures
        turned@ == ranked(moves@),
{
    reverse_moves(sort_moves(moves))
}

/// The cell of `cells` with the least storage place; of several such, the
/// one that stands first.
pub open spec fn least_cell(cells: Seq<CellPos>) -> CellPos
    decreases cells.len(),
{
    if cells.len() <= 1 {
        cells[0]
    } else {
        let least = least_cell(cells.drop_last());
        if cells.last().idx() < least.idx() {
            cells.last()
        } else {
            least
        }
    }
}

/// Whether `cells` names more than one cell.
pub open spec fn several(cells: Seq<CellPos>) -> bool {
    exists|i: int, j: int| 0 <= i < cells.len() && 0 <= j < cells.len() && cells[i] != cells[j]
}

/// What the tactics of a position decide before any search.
#[derive(Clone, Copy, Debug, PartialEq, Eq, Structural)]
pub enum Verdict {
    /// The result is fixed: score, move and the rule that decided.
    Decided(i32, CellPos, Reason),
    /// The move is fixed; its score is that of the position after it.
    Forced(CellPos),
    /// Nothing is fixed: the position is searched.
    Open,
}

/// What a tactical state decides. A cell that wins at once or in two moves
/// fixes the score [`WIN`] and the cell; an open four of the opponent fixes
/// [`LOST`] and its cell. Several cells to defend cannot all be taken: they
/// fix [`LOST`] and the least of them. One cell to defend fixes the move. A
/// quiet position fixes nothing.
pub open spec fn verdict_of(t: Tactic) -> Verdict {
    match t {
        Tactic::OneMoveWin(c) => Verdict::Decided(WIN, c, Reason::OneMoveWin),
        Tactic::TwoMoveWin(c) => Verdict::Decided(WIN, c, Reason::TwoMove),
        Tactic::OneMoveLoss(c) => Verdict::Decided(LOST, c, Reason::OneMoveLoss),
        Tactic::ForcedDefense(cells) => if several(cells) {
            Verdict::Decided(LOST, least_cell(cells), Reason::ForcedLoss)
        } else {
            Verdict::Forced(cells[0])
        },
        Tactic::Boring => Verdict::Open,
    }
}

/// What the tactics of a position fix of the result `r` of its search: the
/// whole result, or its move. A quiet position is answered without a move
/// only with its static score, the quota being spent, or as lost, no move
/// being left. Whatever cell is answered is alive.
pub open spec fn follows_tactics(pos: Position, r: (i32, Option<CellPos>, Reason)) -> bool {
    &&& match verdict_of(classify(pos)) {
        Verdict::Decided(score, c, why) => r == (score, Some(c), why),
        Verdict::Forced(c) => r.1 == Some(c),
        Verdict::Open => r.1.is_none() ==> {
            ||| r == (evaluate(pos) as i32, None::<CellPos>, Reason::BobsEval)
            ||| r == (LOST, None::<CellPos>, Reason::AllLosingMoves)
        },
    }
    &&& r.1 matches Some(c) ==> alive(pos.cells, c.col(), c.row())
}

/// The least cell is one of the cells, and none has a lesser storage place.
pub proof fn lemma_least_cell(cells: Seq<CellPos>)
    requires
        cells.len() > 0,
    ensures
        cells.contains(least_cell(cells)),
        forall|d: CellPos| cells.contains(d) ==> least_cell(cells).idx() <= d.idx(),
    decreases cells.len(),
{
    if cells.len() <= 1 {
        assert(cells[0] == least_cell(cells));
        assert forall|d: CellPos| cells.contains(d) implies least_cell(cells).idx() <= d.idx() by {
            let j = choose|j: int| 0 <= j < cells.len() && cells[j] == d;
        }
    } else {
        let front = cells.drop_last();
        lemma_least_cell(front);
        let least = least_cell(front);
        let j = choose|j: int| 0 <= j < front.len() && front[j] == least;
        assert(cells[j] == least);
        assert(cells[cells.len() - 1] == cells.last());
        assert forall|d: CellPos| cells.contains(d) implies least_cell(cells).idx() <= d.idx() by {
            let k = choose|k: int| 0 <= k < cells.len() && cells[k] == d;
            if k < front.len() {
                assert(front[k] == d);
                assert(front.contains(d));
            }
        }
    }
}

/// Where the cells are not several, the least of them is the first.
pub proof fn lemma_least_of_one(cells: Seq<CellPos>)
    requires
        cells.len() > 0,
        !several(cells),
    ensures
        least_cell(cells) == cells[0],
{
    lemma_least_cell(cells);
    let j = choose|j: int| 0 <= j < cells.len() && cells[j] == least_cell(cells);
    assert(cells[j] == cells[0]);
}

/// The cell that a verdict names is one of the cells that the tactical state
/// names.
proof fn lemma_verdict_cells(pos: Position)
    ensures
        verdict_of(classify(pos)) matches Verdict::Decided(_, c, _) ==> alive(
            pos.cells,
            c.col(),
            c.row(),
        ),
        verdict_of(classify(pos)) matches Verdict::Forced(c) ==> alive(pos.cells, c.col(), c.row()),
        classify(pos) matches Tactic::ForcedDefense(cells) ==> cells.len() > 0,
{
    lemma_classify_cells(pos);
    match classify(pos) {
        Tactic::ForcedDefense(cells) => {
            lemma_least_cell(cells);
            let j = choose|j: int| 0 <= j < cells.len() && cells[j] == least_cell(cells);
            assert(alive(pos.cells, cells[j].col(), cells[j].row()));
            assert(alive(pos.cells, cells[0].col(), cells[0].row()));
        },
        _ => {},
    }
}

/// The first of the distinct cells is the least of the cells, and the
/// distinct cells are several exactly where the cells are.
proof fn lemma_distinct_first(distinct: Seq<CellPos>, cells: Seq<CellPos>)
    requires
        is_distinct_of(distinct, cells),
        cells.len() > 0,
    ensures
        distinct.len() > 0,
        distinct[0] == least_cell(cells),
        several(cells) <==> distinct.len() > 1,
        !several(cells) ==> distinct[0] == cells[0],
{
    lemma_least_cell(cells);
    let least = least_cell(cells);
    assert(cells.contains(cells[0]));
    assert(distinct.contains(cells[0]));
    assert(distinct.contains(distinct[0]));
    assert(cells.contains(distinct[0]));
    assert(distinct.contains(least));
    let at = choose|at: int| 0 <= at < distinct.len() && distinct[at] == least;
    assert(at == 0);
    if several(cells) {
        let (i, j) = choose|i: int, j: int|
            0 <= i < cells.len() && 0 <= j < cells.len() && cells[i] != cells[j];
        assert(cells.contains(cells[i]) && cells.contains(cells[j]));
        assert(distinct.contains(cells[i]) && distinct.contains(cells[j]));
    } else {
        let k = choose|k: int| 0 <= k < cells.len() && cells[k] == distinct[0];
        assert(cells[k] == cells[0]);
    }
    if distinct.len() > 1 {
        assert(distinct[0].idx() < distinct[1].idx());
        assert(distinct.contains(distinct[1]));
        assert(cells.contains(distinct[1]));
        let i = choose|i: int| 0 <= i < cells.len() && cells[i] == distinct[0];
        let j = choose|j: int| 0 <= j < cells.len() && cells[j] == distinct[1];
        assert(cells[i] != cells[j]);
    }
}

/// What the tactical state `state` decides before any search. A state that
/// names cells to defend names at least one.
pub fn tactical_verdict(state: &BoardState) -> (v: Verdict)
    requires
        state@ matches Tactic::ForcedDefense(cells) ==> cells.len() > 0,
    ensures
        v == verdict_of(state@),
{
    match state {
        BoardState::OneMoveWin(cp) => Verdict::Decided(WIN, *cp, Reason::OneMoveWin),
        BoardState::TwoMoveWin(cp) => Verdict::Decided(WIN, *cp, Reason::TwoMove),
        BoardState::OneMoveLoss(cp) => Verdict::Decided(LOST, *cp, Reason::OneMoveLoss),
        BoardState::ForcedDefense(mvs) => {
            let distinct = distinct_cells(mvs);
            proof {
                lemma_distinct_first(distinct@, mvs@);
            }
            if distinct.len() > 1 {
                Verdict::Decided(LOST, distinct[0], Reason::ForcedLoss)
            } else {
                Verdict::Forced(distinct[0])
            }
        },
        BoardState::Boring => Verdict::Open,
    }
}

/// What a widening pass decides, `ranked` being the moves that it kept, in
/// descending order of score: with no move left the position is lost, with a
/// winning move on top it is won, and else the search goes on.
pub open spec fn pass_verdict_of(ranked: Seq<Scored>) -> Option<(i32, Option<CellPos>, Reason)> {
    if ranked.len() == 0 {
        Some((LOST, None, Reason::AllLosingMoves))
    } else if ranked[0].0 == WIN {
        Some((WIN, Some(ranked[0].1), Reason::WinningMove))
    } else {
        None
    }
}

/// What a widening pass decides, `ranked` being the moves that it kept, in
/// descending order of score.
pub fn pass_verdict(ranked: &Vec<Scored>) -> (r: Option<(i32, Option<CellPos>, Reason)>)
    ensures
        r == pass_verdict_of(ranked@),
{
    if ranked.len() == 0 {
        Some((LOST, None, Reason::AllLosingMoves))
    } else if ranked[0].0 == WIN {
        Some((WIN, Some(ranked[0].1), Reason::WinningMove))
    } else {
        None
    }
}

/// What a quiet position is answered with once the quota has said whether
/// it is spent: its static score where it is, and nothing where it is not,
/// the position then being searched.
pub open spec fn spent_verdict_of(pos: Position, spent: bool) -> Option<(
    i32,
    Option<CellPos>,
    Reason,
)> {
    if spent {
        Some((evaluate(pos) as i32, None, Reason::BobsEval))
    } else {
        None
    }
}

/// What the quiet position on `board` is answered with once the quota has
/// said whether it is spent.
pub fn spent_verdict(board: &Board, spent: bool) -> (r: Option<(i32, Option<CellPos>, Reason)>)
    requires
        board.wf(),
    ensures
        r == spent_verdict_of(board@, spent),
{
    proof {
        lemma_evaluate_in_range(board@);
    }
    if spent {
        Some((bobs_shallow_eval(board), None, Reason::BobsEval))
    } else {
        None
    }
}

/// The best of the moves that the final pass has searched so far.
#[derive(Clone, Copy, Debug, PartialEq, Eq, Structural)]
pub struct Best {
    /// The lower bound of the window.
    pub low: i32,
    /// The best score.
    pub eval: i32,
    /// The move that raised the lower bound last.
    pub cell: CellPos,
    /// The rule that gave the best score.
    pub reason: Reason,
}

impl Best {
    /// The best after a move `cp` has scored `score` by the rule `why`: a
    /// score above the best becomes the best, with its rule, and a score
    /// above the lower bound raises the bound and names the move.
    pub open spec fn taken(self, score: i32, why: Reason, cp: CellPos) -> Best {
        Best {
            low: if score > self.low {
                score
            } else {
                self.low
            },
            eval: if score > self.eval {
                score
            } else {
                self.eval
            },
            cell: if score > self.low {
                cp
            } else {
                self.cell
            },
            reason: if score > self.eval {
                why
            } else {
                self.reason
            },
        }
    }

    /// Takes in that the move `cp` has scored `score` by the rule `why`, and
    /// tells whether the search is cut off: the score has raised the lower
    /// bound to `beta` or above.
    pub fn take(&mut self, score: i32, why: Reason, cp: CellPos, beta: i32) -> (cut: bool)
        ensures
            *final(self) == old(self).taken(score, why, cp),
            cut == (score > old(self).low && score >= beta),
    {
        if score > self.eval {
            self.eval = score;
            self.reason = why;
        }
        if score > self.low {
            self.low = score;
            self.cell = cp;
            if self.low >= beta {
                return true;
            }
        }
        false
    }
}

/// A player that rations its search by a quota of effort and lets the
/// tactics of a position overrule the search.
pub struct John<B: Budget> {
    compute: B,
    count_iter: i32,
}

impl<B: Budget> John<B> {
    /// A player that searches each move with the quota `compute` and widens
    /// its search `count_iter` times at every node.
    pub fn new(compute: B, count_iter: i32) -> (ai: John<B>)
        ensures
            ai.passes() == count_iter,
            ai.quota() == compute,
    {
        John { compute, count_iter }
    }

    /// The number of widening passes at every node.
    pub closed spec fn passes(&self) -> i32 {
        self.count_iter
    }

    /// The quota of one search.
    pub closed spec fn quota(&self) -> B {
        self.compute
    }

    /// Searches `board` with the window from `alpha` to `beta` and the quota
    /// `comp_rem`, and puts `board` back as it was. The result is the score,
    /// the move, if one was found, and the rule that decided: what the
    /// search gives by the answers that the quota gives wherever the search
    /// asks it.
    pub fn minimax(&self, board: &mut Board, alpha: i32, beta: i32, comp_rem: &B) -> (r: (
        i32,
        Option<CellPos>,
        Reason,
    ))
        requires
            old(board).wf(),
            alpha > i32::MIN,
            beta > i32::MIN,
        ensures
            final(board).wf(),
            final(board).same(old(board)),
            in_range(r.0 as int),
            follows_tactics(old(board)@, r),
            exists|adv: Advice<B>|
                #[trigger] john_search(
                    *comp_rem,
                    old(board)@.vacant(225),
                    self.passes(),
                    old(board)@,
                    alpha as int,
                    beta as int,
                    adv,
                ) == (r, true),
    {
        let found = self.search(board, alpha, beta, comp_rem);
        found.0
    }

    /// The search of [`John::minimax`], with the answers that the quota
    /// has given on the way.
    fn search(&self, board: &mut Board, alpha: i32, beta: i32, comp_rem: &B) -> (out: (
        (i32, Option<CellPos>, Reason),
        Ghost<Advice<B>>,
    ))
        requires
            old(board).wf(),
            alpha > i32::MIN,
            beta > i32::MIN,
        ensures
            final(board).wf(),
            final(board).same(old(board)),
            in_range(out.0.0 as int),
            follows_tactics(old(board)@, out.0),
            john_search(
                *comp_rem,
                old(board)@.vacant(225),
                self.passes(),
                old(board)@,
                alpha as int,
                beta as int,
                out.1@,
            ) == (out.0, true),
        decreases old(board)@.vacant(225), 1nat,
    {
        let ghost pos = board@;
        let ghost plies = pos.vacant(225);
        let ghost passes = self.count_iter;
        let left = comp_rem.enter();
        proof {
            lemma_verdict_cells(pos);
            lemma_evaluate_in_range(pos);
        }
        let state = BoardState::compute(board);
        match tactical_verdict(&state) {
            Verdict::Decided(score, cp, why) => ((score, Some(cp), why), Ghost(bare(left))),
            Verdict::Forced(reply) => {
                proof {
                    lemma_place_lift(pos, reply.idx());
                    lemma_place_fills(pos, reply.idx());
                }
                board.make_move(reply);
                let below = self.search(board, -beta, -alpha, &left);
                board.unmake_move(reply);
                proof {
                    board.lemma_same(old(board));
                }
                let ghost adv = Advice { forced: seq![below.1@], ..bare(left) };
                ((-below.0.0, Some(reply), below.0.2), Ghost(adv))
            },
            Verdict::Open => {
                let spent = left.exhausted();
                if let Some(scored) = spent_verdict(board, spent) {
                    let ghost adv = Advice { spent: true, ..bare(left) };
                    return (scored, Ghost(adv));
                }
                let found = alive_moves(board);
                if found.len() == 0 {
                    return ((LOST, None, Reason::AllLosingMoves), Ghost(bare(left)));
                }
                let mut cur = left.seed(self.count_iter, found.len());
                let ghost seed = cur;
                proof {
                    lemma_ranked_alive(pos, found@);
                    assert(alive(pos.cells, found@[0].1.col(), found@[0].1.row()));
                    lemma_place_fills(pos, found@[0].1.idx());
                }
                let ghost first = ranked(found@);
                let mut moves = rank_moves(found);
                let ghost mut told: Advice<B> = Advice { seed, ..bare(left) };
                let mut pass: i32 = 0;
                while pass < self.count_iter
                    invariant
                        board.wf(),
                        board.same(old(board)),
                        pos == board@,
                        plies == pos.vacant(225),
                        plies > 0,
                        passes == self.count_iter,
                        alpha > i32::MIN,
                        beta > i32::MIN,
                        all_alive(pos, moves@),
                        0 < moves@.len() <= 225,
                        verdict_of(classify(pos)) == Verdict::Open,
                        alive_order(pos, 225).len() > 0,
                        first == ranked(alive_order(pos, 225)),
                        call_ensures(B::enter, (comp_rem,), left),
                        call_ensures(B::exhausted, (&left,), false),
                        call_ensures(
                            B::seed,
                            (&left, passes, alive_order(pos, 225).len() as usize),
                            seed,
                        ),
                        0 <= pass,
                        pass <= self.count_iter || pass == 0,
                        told.left == left,
                        !told.spent,
                        told.seed == seed,
                        told.curs.len() == pass,
                        told.skipped.len() == pass,
                        told.shares.len() == pass,
                        told.widened.len() == pass,
                        cur == quota_before(told, pass as int),
                        john_passes(
                            plies,
                            passes,
                            pos,
                            alpha as int,
                            beta as int,
                            first,
                            pass as nat,
                            told,
                        ) == (None::<Found>, moves@, true),
                    decreases self.count_iter - pass,
                {
                    let ghost before = told;
                    pass += 1;
                    cur = cur.widen();
                    if cur.below_floor() {
                        proof {
                            told = Advice {
                                curs: told.curs.push(cur),
                                skipped: told.skipped.push(true),
                                shares: told.shares.push(Seq::empty()),
                                widened: told.widened.push(Seq::empty()),
                                ..told
                            };
                            lemma_passes_frame(
                                plies,
                                passes,
                                pos,
                                alpha as int,
                                beta as int,
                                first,
                                (pass - 1) as nat,
                                before,
                                told,
                            );
                        }
                        continue ;
                    }
                    let kept = self.widen_pass(board, &moves, alpha, beta, &cur);
                    proof {
                        lemma_ranked_alive(pos, kept.0@);
                        told = Advice {
                            curs: told.curs.push(cur),
                            skipped: told.skipped.push(false),
                            shares: told.shares.push(kept.1@.0),
                            widened: told.widened.push(kept.1@.1),
                            ..told
                        };
                        lemma_passes_frame(
                            plies,
                            passes,
                            pos,
                            alpha as int,
                            beta as int,
                            first,
                            (pass - 1) as nat,
                            before,
                            told,
                        );
                    }
                    moves = rank_moves(kept.0);
                    if let Some(decided) = pass_verdict(&moves) {
                        proof {
                            lemma_passes_decided(
                                plies,
                                passes,
                                pos,
                                alpha as int,
                                beta as int,
                                first,
                                pass as nat,
                                pass_count(passes),
                                told,
                            );
                        }
                        return (decided, Ghost(told));
                    }
                }
                let last = self.final_pass(board, &moves, alpha, beta, &left);
                let ghost adv = Advice { final_shares: last.1@.0, finals: last.1@.1, ..told };
                proof {
                    lemma_passes_frame(
                        plies,
                        passes,
                        pos,
                        alpha as int,
                        beta as int,
                        first,
                        pass as nat,
                        told,
                        adv,
                    );
                }
                (last.0, Ghost(adv))
            },
        }
    }

    /// One widening pass: searches each of `moves` with its share of the
    /// quota `cur` of one move, and keeps, with their new scores, those that
    /// do not lose.
    fn widen_pass(&self, board: &mut Board, moves: &Vec<Scored>, alpha: i32, beta: i32, cur: &B) -> (out: (
        Vec<Scored>,
        Ghost<(Seq<B>, Seq<Advice<B>>)>,
    ))
        requires
            old(board).wf(),
            alpha > i32::MIN,
            beta > i32::MIN,
            all_alive(old(board)@, moves@),
        ensures
            final(board).wf(),
            final(board).same(old(board)),
            all_alive(old(board)@, out.0@),
            out.0@.len() <= moves@.len(),
            forall|k: int| 0 <= k < out.0@.len() ==> in_range((#[trigger] out.0@[k]).0 as int),
            john_widen(
                *cur,
                old(board)@.vacant(225),
                self.passes(),
                old(board)@,
                alpha as int,
                beta as int,
                moves@,
                moves@.len(),
                out.1@.0,
                out.1@.1,
            ) == (out.0@, true),
        decreases old(board)@.vacant(225), 0nat,
    {
        let ghost pos = board@;
        let ghost plies = pos.vacant(225);
        let ghost passes = self.count_iter;
        let mvs_count = moves.len();
        let mut kept: Vec<Scored> = Vec::new();
        let ghost mut shares: Seq<B> = Seq::empty();
        let ghost mut advs: Seq<Advice<B>> = Seq::empty();
        let mut i: usize = 0;
        while i < mvs_count
            invariant
                board.wf(),
                board.same(old(board)),
                pos == board@,
                plies == pos.vacant(225),
                passes == self.count_iter,
                alpha > i32::MIN,
                beta > i32::MIN,
                mvs_count == moves@.len(),
                i <= mvs_count,
                all_alive(pos, moves@),
                all_alive(pos, kept@),
                kept@.len() <= i,
                forall|k: int| 0 <= k < kept@.len() ==> in_range((#[trigger] kept@[k]).0 as int),
                shares.len() == i,
                advs.len() == i,
                john_widen(
                    *cur,
                    plies,
                    passes,
                    pos,
                    alpha as int,
                    beta as int,
                    moves@,
                    i as nat,
                    shares,
                    advs,
                ) == (kept@, true),
            decreases mvs_count - i,
        {
            let cp = moves[i].1;
            let comp = cur.pass_share(i, mvs_count);
            let ghost shares_before = shares;
            let ghost advs_before = advs;
            proof {
                assert(alive(pos.cells, moves@[i as int].1.col(), moves@[i as int].1.row()));
                lemma_place_lift(pos, cp.idx());
                lemma_place_fills(pos, cp.idx());
                shares = shares.push(comp);
            }
            i += 1;
            board.make_move(cp);
            if board.check_win_from(cp) {
                board.unmake_move(cp);
                proof {
                    board.lemma_same(old(board));
                    advs = advs.push(bare(comp));
                    lemma_widen_frame(
                        *cur,
                        plies,
                        passes,
                        pos,
                        alpha as int,
                        beta as int,
                        moves@,
                        (i - 1) as nat,
                        shares_before,
                        advs_before,
                        shares,
                        advs,
                    );
                }
                kept.push((WIN, cp));
                continue ;
            }
            let below = self.search(board, -beta, -alpha, &comp);
            let score = -below.0.0;
            board.unmake_move(cp);
            proof {
                board.lemma_same(old(board));
                advs = advs.push(below.1@);
                lemma_widen_frame(
                    *cur,
                    plies,
                    passes,
                    pos,
                    alpha as int,
                    beta as int,
                    moves@,
                    (i - 1) as nat,
                    shares_before,
                    advs_before,
                    shares,
                    advs,
                );
            }
            if score != LOST {
                kept.push((score, cp));
            }
        }
        (kept, Ghost((shares, advs)))
    }

    /// The final pass: searches each of `moves` with its share of the quota
    /// `left` and answers the best, cutting off at `beta`.
    fn final_pass(&self, board: &mut Board, moves: &Vec<Scored>, alpha: i32, beta: i32, left: &B) -> (out: (
        (i32, Option<CellPos>, Reason),
        Ghost<(Seq<B>, Seq<Advice<B>>)>,
    ))
        requires
            old(board).wf(),
            alpha > i32::MIN,
            beta > i32::MIN,
            all_alive(old(board)@, moves@),
            moves@.len() > 0,
        ensures
            final(board).wf(),
            final(board).same(old(board)),
            in_range(out.0.0 as int),
            out.0.1 matches Some(c) && alive(old(board)@.cells, c.col(), c.row()),
            john_final(
                *left,
                old(board)@.vacant(225),
                self.passes(),
                old(board)@,
                beta as int,
                moves@,
                moves@.len(),
                first_best(alpha as int, moves@),
                out.1@.0,
                out.1@.1,
            ).2,
            out.0 == final_result(
                john_final(
                    *left,
                    old(board)@.vacant(225),
                    self.passes(),
                    old(board)@,
                    beta as int,
                    moves@,
                    moves@.len(),
                    first_best(alpha as int, moves@),
                    out.1@.0,
                    out.1@.1,
                ),
            ),
        decreases old(board)@.vacant(225), 0nat,
    {
        let ghost pos = board@;
        let ghost plies = pos.vacant(225);
        let ghost passes = self.count_iter;
        let ghost first = first_best(alpha as int, moves@);
        let mv_count = moves.len();
        let mut best = Best { low: alpha, eval: LOST - 1, cell: moves[0].1, reason: Reason::BobsEval };
        let ghost mut shares: Seq<B> = Seq::empty();
        let ghost mut advs: Seq<Advice<B>> = Seq::empty();
        let mut i: usize = 0;
        while i < mv_count
            invariant
                board.wf(),
                board.same(old(board)),
                pos == board@,
                plies == pos.vacant(225),
                passes == self.count_iter,
                first == first_best(alpha as int, moves@),
                best.low > i32::MIN,
                beta > i32::MIN,
                mv_count == moves@.len(),
                i <= mv_count,
                all_alive(pos, moves@),
                alive(pos.cells, best.cell.col(), best.cell.row()),
                best.eval == LOST - 1 || in_range(best.eval as int),
                i > 0 ==> in_range(best.eval as int),
                shares.len() == i,
                advs.len() == i,
                john_final(
                    *left,
                    plies,
                    passes,
                    pos,
                    beta as int,
                    moves@,
                    i as nat,
                    first,
                    shares,
                    advs,
                ) == (None::<Found>, best, true),
            decreases mv_count - i,
        {
            let cp = moves[i].1;
            let share = left.final_share(i, mv_count);
            let ghost shares_before = shares;
            let ghost advs_before = advs;
            proof {
                assert(alive(pos.cells, moves@[i as int].1.col(), moves@[i as int].1.row()));
                lemma_place_lift(pos, cp.idx());
                lemma_place_fills(pos, cp.idx());
                shares = shares.push(share);
            }
            i += 1;
            board.make_move(cp);
            if board.check_win_from(cp) {
                board.unmake_move(cp);
                proof {
                    board.lemma_same(old(board));
                    advs = advs.push(bare(share));
                    lemma_final_frame(
                        *left,
                        plies,
                        passes,
                        pos,
                        beta as int,
                        moves@,
                        (i - 1) as nat,
                        first,
                        shares_before,
                        advs_before,
                        shares,
                        advs,
                    );
                    lemma_final_decided(
                        *left,
                        plies,
                        passes,
                        pos,
                        beta as int,
                        moves@,
                        i as nat,
                        mv_count as nat,
                        first,
                        shares,
                        advs,
                    );
                }
                return ((WIN, Some(cp), Reason::WinningMove), Ghost((shares, advs)));
            }
            let below = self.search(board, -beta, -best.low, &share);
            board.unmake_move(cp);
            proof {
                board.lemma_same(old(board));
                advs = advs.push(below.1@);
                lemma_final_frame(
                    *left,
                    plies,
                    passes,
                    pos,
                    beta as int,
                    moves@,
                    (i - 1) as nat,
                    first,
                    shares_before,
                    advs_before,
                    shares,
                    advs,
                );
            }
            if best.take(-below.0.0, below.0.2, cp, beta) {
                proof {
                    lemma_final_decided(
                        *left,
                        plies,
                        passes,
                        pos,
                        beta as int,
                        moves@,
                        i as nat,
                        mv_count as nat,
                        first,
                        shares,
                        advs,
                    );
                }
                return ((best.eval, Some(best.cell), below.0.2), Ghost((shares, advs)));
            }
        }
        ((best.eval, Some(best.cell), best.reason), Ghost((shares, advs)))
    }
}

impl<B: Budget> Actor for John<B> {
    /// The centre of an empty board; else the move that the search with the
    /// widest window and the player's quota answers, and the first empty
    /// cell where it answers none.
    fn next(&mut self, board: &Board) -> (r: CellPos)
        ensures
            *final(self) == *old(self),
            free_count(board@.cells, 0) == 225 ==> r == cell_at(7, 7),
            free_count(board@.cells, 0) != 225 ==> (match classify(board@) {
                Tactic::OneMoveWin(c) => r == c,
                Tactic::TwoMoveWin(c) => r == c,
                Tactic::OneMoveLoss(c) => r == c,
                Tactic::ForcedDefense(cells) => r == least_cell(cells),
                Tactic::Boring => true,
            }),
            free_count(board@.cells, 0) != 225 ==> exists|adv: Advice<B>|
                ({
                    let out = #[trigger] john_search(
                        old(self).quota(),
                        board@.vacant(225),
                        old(self).passes(),
                        board@,
                        LOST - 1,
                        WIN + 1,
                        adv,
                    );
                    &&& out.1
                    &&& r == (match out.0.1 {
                        Some(c) => c,
                        None => first_free_cell(board@.cells),
                    })
                }),
    {
        proof {
            lemma_all_free(board@.cells);
            lemma_verdict_cells(board@);
            if let Tactic::ForcedDefense(cells) = classify(board@) {
                if !several(cells) {
                    lemma_least_of_one(cells);
                }
            }
        }
        let mut scratch = board.clone();
        if scratch.free_positions().count() == 15 * 15 {
            return cell(7, 7);
        }
        let result = self.minimax(&mut scratch, LOST - 1, WIN + 1, &self.compute);
        proof {
            let adv = choose|adv: Advice<B>|
                #[trigger] john_search(
                    self.compute,
                    board@.vacant(225),
                    self.passes(),
                    board@,
                    LOST - 1,
                    WIN + 1,
                    adv,
                ) == (result, true);
            assert(john_search(
                self.quota(),
                board@.vacant(225),
                self.passes(),
                board@,
                LOST - 1,
                WIN + 1,
                adv,
            ).1);
        }
        match result.1 {
            Some(cp) => cp,
            None => board.first_free(),
        }
    }
}

} // verus!
