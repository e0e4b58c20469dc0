//! What the budget search gives, as a function of the position, the window
//! and the answers of the quota, and what ties those answers to the quota.

use vstd::prelude::*;
use crate::eval::{alive, LOST, WIN};
use crate::geometry::{cell_at, CellPos};
use crate::john::{pass_verdict_of, spent_verdict_of, verdict_of, Best, Budget, Reason, Verdict};
use crate::ordering::{sort_by_score, Scored};
use crate::position::Position;
use crate::runs::wins_at;
use crate::threat::{classify, lemma_one_move_win_wins};

verus! {

/// The result of a search: score, move, and the rule that decided.
pub type Found = (i32, Option<CellPos>, Reason);

/// What the quota answered in the course of a search: at the node itself,
/// and in the searches below it.
pub struct Advice<B> {
    /// What was left of the quota once the node had paid its overhead.
    pub left: B,
    /// Whether the quota was spent at the node.
    pub spent: bool,
    /// The quota of one move before the first widening pass.
    pub seed: B,
    /// For each widening pass, the quota of one move in it.
    pub curs: Seq<B>,
    /// For each widening pass, whether the quota of one move lay below the
    /// floor, so that the pass was skipped.
    pub skipped: Seq<bool>,
    /// For each widening pass, the share of each of its moves.
    pub shares: Seq<Seq<B>>,
    /// For each widening pass, what the quota answered below each of its
    /// moves.
    pub widened: Seq<Seq<Advice<B>>>,
    /// The share of each move of the final pass.
    pub final_shares: Seq<B>,
    /// What the quota answered below each move of the final pass.
    pub finals: Seq<Advice<B>>,
    /// What the quota answered below the forced reply, where there was one.
    pub forced: Seq<Advice<B>>,
}

/// The advice of a quota that was asked only what was left of it.
pub open spec fn bare<B>(left: B) -> Advice<B> {
    Advice {
        left,
        spent: false,
        seed: left,
        curs: Seq::empty(),
        skipped: Seq::empty(),
        shares: Seq::empty(),
        widened: Seq::empty(),
        final_shares: Seq::empty(),
        finals: Seq::empty(),
        forced: Seq::empty(),
    }
}

/// The alive cells among the first `n` row-major places, in that order, each
/// with the score 0.
pub open spec fn alive_order(pos: Position, n: nat) -> Seq<Scored>
    decreases n,
{
    if n == 0 {
        Seq::empty()
    } else {
        let k = n - 1;
        let rest = alive_order(pos, k as nat);
        if alive(pos.cells, k % 15, k / 15) {
            rest.push((0i32, cell_at(k % 15, k / 15)))
        } else {
            rest
        }
    }
}

/// The moves of `moves` in descending order of score; moves of equal score
/// come in the opposite of the order in which they stood.
pub open spec fn ranked(moves: Seq<Scored>) -> Seq<Scored> {
    sort_by_score(moves, moves.len()).reverse()
}

/// The best before the first move of the final pass: the lower bound of the
/// window, a score below every other, and the first of the moves.
pub open spec fn first_best(alpha: int, moves: Seq<Scored>) -> Best {
    Best { low: alpha as i32, eval: (LOST - 1) as i32, cell: moves[0].1, reason: Reason::BobsEval }
}

/// The result of the final pass in the state `state`: what a move has
/// decided, and else the best.
pub open spec fn final_result(state: (Option<Found>, Best, bool)) -> Found {
    match state.0 {
        Some(found) => found,
        None => (state.1.eval, Some(state.1.cell), state.1.reason),
    }
}

/// The number of widening passes at a node where `passes` are asked for.
pub open spec fn pass_count(passes: i32) -> nat {
    if passes < 0 {
        0
    } else {
        passes as nat
    }
}

/// The search of `pos` with the window from `alpha` to `beta`, the quota
/// `quota`, `passes` widening passes at every node and the answers `adv`,
/// where `plies` moves can still be made: its result, and whether `adv`
/// holds what the quota answers where the search asks it.
///
/// The search first asks what is left of the quota. What the tactics decide
/// is the result. A forced reply is made, and scores the negated result of
/// the search after it, with what is left. Of a quiet position the search
/// asks whether the quota is spent: then the position is scored by the
/// static evaluator. It is lost where no cell is alive. Else the search asks
/// for the quota of one move, and the alive cells go through the widening
/// passes and, unless one of them decides, through the final pass.
pub open spec fn john_search<B: Budget>(
    quota: B,
    plies: nat,
    passes: i32,
    pos: Position,
    alpha: int,
    beta: int,
    adv: Advice<B>,
) -> (Found, bool)
    decreases plies, 3nat, 0nat,
{
    let entered = call_ensures(B::enter, (&quota,), adv.left);
    match verdict_of(classify(pos)) {
        Verdict::Decided(score, c, why) => ((score, Some(c), why), entered),
        Verdict::Forced(c) => if plies == 0 {
            ((LOST, Some(c), Reason::ForcedDefense), entered)
        } else {
            let sub = john_search(
                adv.left,
                (plies - 1) as nat,
                passes,
                pos.place(c.idx()),
                -beta,
                -alpha,
                adv.forced[0],
            );
            (((-sub.0.0) as i32, Some(c), sub.0.2), entered && sub.1)
        },
        Verdict::Open => {
            let asked = entered && call_ensures(B::exhausted, (&adv.left,), adv.spent);
            let found = alive_order(pos, 225);
            if let Some(scored) = spent_verdict_of(pos, adv.spent) {
                (scored, asked)
            } else if found.len() == 0 || plies == 0 {
                ((LOST, None, Reason::AllLosingMoves), asked)
            } else {
                let seeded = asked && call_ensures(
                    B::seed,
                    (&adv.left, passes, found.len() as usize),
                    adv.seed,
                );
                let widened = john_passes(
                    plies,
                    passes,
                    pos,
                    alpha,
                    beta,
                    ranked(found),
                    pass_count(passes),
                    adv,
                );
                match widened.0 {
                    Some(decided) => (decided, seeded && widened.2),
                    None => {
                        let last = john_final(
                            adv.left,
                            plies,
                            passes,
                            pos,
                            beta,
                            widened.1,
                            widened.1.len(),
                            first_best(alpha, widened.1),
                            adv.final_shares,
                            adv.finals,
                        );
                        (final_result(last), seeded && widened.2 && last.2)
                    },
                }
            }
        },
    }
}

/// The quota of one move before the `n`-th widening pass, counted from 0.
pub open spec fn quota_before<B>(adv: Advice<B>, n: int) -> B {
    if n == 0 {
        adv.seed
    } else {
        adv.curs[n - 1]
    }
}

/// The state after the first `n` widening passes: what a pass has decided,
/// if any has, the moves that are left, in their order, and whether `adv`
/// holds what the quota answers. Each pass asks for the quota of one move,
/// grown, and whether it lies below the floor. A pass that is skipped leaves
/// the moves as they are; another keeps the moves that do not lose and ranks
/// them by their new scores.
pub open spec fn john_passes<B: Budget>(
    plies: nat,
    passes: i32,
    pos: Position,
    alpha: int,
    beta: int,
    first: Seq<Scored>,
    n: nat,
    adv: Advice<B>,
) -> (Option<Found>, Seq<Scored>, bool)
    decreases plies, 2nat, n,
{
    if n == 0 {
        (None, first, true)
    } else {
        let before = john_passes(plies, passes, pos, alpha, beta, first, (n - 1) as nat, adv);
        if before.0.is_some() {
            before
        } else {
            let cur = adv.curs[n - 1];
            let asked = before.2 && call_ensures(B::widen, (&quota_before(adv, n - 1),), cur)
                && call_ensures(B::below_floor, (&cur,), adv.skipped[n - 1]);
            if adv.skipped[n - 1] {
                (None, before.1, asked)
            } else {
                let kept = john_widen(
                    cur,
                    plies,
                    passes,
                    pos,
                    alpha,
                    beta,
                    before.1,
                    before.1.len(),
                    adv.shares[n - 1],
                    adv.widened[n - 1],
                );
                (pass_verdict_of(ranked(kept.0)), ranked(kept.0), asked && kept.1)
            }
        }
    }
}

/// The moves that a widening pass with the quota `cur` of one move keeps of
/// the first `n` of `moves`, with their new scores, and whether `shares` and
/// `advs` hold what the quota answers. Each move is given its share. A move
/// that completes five scores [`WIN`]; another scores the negated result of
/// the search after it, with its share, and is dropped where that is
/// [`LOST`].
pub open spec fn john_widen<B: Budget>(
    cur: B,
    plies: nat,
    passes: i32,
    pos: Position,
    alpha: int,
    beta: int,
    moves: Seq<Scored>,
    n: nat,
    shares: Seq<B>,
    advs: Seq<Advice<B>>,
) -> (Seq<Scored>, bool)
    decreases plies, 1nat, n,
{
    if n == 0 || plies == 0 {
        (Seq::empty(), true)
    } else {
        let before = john_widen(
            cur,
            plies,
            passes,
            pos,
            alpha,
            beta,
            moves,
            (n - 1) as nat,
            shares,
            advs,
        );
        let cp = moves[n - 1].1;
        let after = pos.place(cp.idx());
        let shared = before.1 && call_ensures(
            B::pass_share,
            (&cur, (n - 1) as usize, moves.len() as usize),
            shares[n - 1],
        );
        if wins_at(after.cells, cp.col(), cp.row()) {
            (before.0.push((WIN, cp)), shared)
        } else {
            let sub = john_search(
                shares[n - 1],
                (plies - 1) as nat,
                passes,
                after,
                -beta,
                -alpha,
                advs[n - 1],
            );
            if -sub.0.0 != LOST {
                (before.0.push(((-sub.0.0) as i32, cp)), shared && sub.1)
            } else {
                (before.0, shared && sub.1)
            }
        }
    }
}

/// The state of the final pass, which shares out the quota `left`, after the
/// first `n` of `moves`: the result, if a move has decided it, the best so
/// far, and whether `shares` and `advs` hold what the quota answers. Each
/// move is given its share. A move that completes five decides with the
/// score [`WIN`]; a move whose score raises the lower bound to `beta` or
/// above decides with the best score.
pub open spec fn john_final<B: Budget>(
    left: B,
    plies: nat,
    passes: i32,
    pos: Position,
    beta: int,
    moves: Seq<Scored>,
    n: nat,
    first: Best,
    shares: Seq<B>,
    advs: Seq<Advice<B>>,
) -> (Option<Found>, Best, bool)
    decreases plies, 1nat, n,
{
    if n == 0 || plies == 0 {
        (None, first, true)
    } else {
        let before = john_final(
            left,
            plies,
            passes,
            pos,
            beta,
            moves,
            (n - 1) as nat,
            first,
            shares,
            advs,
        );
        if before.0.is_some() {
            before
        } else {
            let best = before.1;
            let cp = moves[n - 1].1;
            let after = pos.place(cp.idx());
            let shared = before.2 && call_ensures(
                B::final_share,
                (&left, (n - 1) as usize, moves.len() as usize),
                shares[n - 1],
            );
            if wins_at(after.cells, cp.col(), cp.row()) {
                (Some((WIN, Some(cp), Reason::WinningMove)), best, shared)
            } else {
                let sub = john_search(
                    shares[n - 1],
                    (plies - 1) as nat,
                    passes,
                    after,
                    -beta,
                    -best.low,
                    advs[n - 1],
                );
                let score = (-sub.0.0) as i32;
                let next = best.taken(score, sub.0.2, cp);
                if score > best.low && score >= beta {
                    (Some((next.eval, Some(next.cell), sub.0.2)), next, shared && sub.1)
                } else {
                    (None, next, shared && sub.1)
                }
            }
        }
    }
}

/// An open four is completed: where a cell completes five for the mover,
/// the search answers the first such cell with the score [`WIN`], whatever
/// the quota answers, and the mover's stone on that cell completes five in a
/// row.
pub proof fn lemma_search_takes_win<B: Budget>(
    quota: B,
    plies: nat,
    passes: i32,
    pos: Position,
    alpha: int,
    beta: int,
    adv: Advice<B>,
)
    requires
        pos.full_size(),
        classify(pos) is OneMoveWin,
    ensures
        ({
            let c = classify(pos)->OneMoveWin_0;
            &&& john_search(quota, plies, passes, pos, alpha, beta, adv).0 == (
                WIN,
                Some(c),
                Reason::OneMoveWin,
            )
            &&& pos.legal(c.idx())
            &&& wins_at(pos.place(c.idx()).cells, c.col(), c.row())
        }),
{
    lemma_one_move_win_wins(pos);
}

/// What a widening pass keeps of the first `n` moves depends on the shares
/// of those moves and the advice below them only.
pub proof fn lemma_widen_frame<B: Budget>(
    cur: B,
    plies: nat,
    passes: i32,
    pos: Position,
    alpha: int,
    beta: int,
    moves: Seq<Scored>,
    n: nat,
    s: Seq<B>,
    a: Seq<Advice<B>>,
    t: Seq<B>,
    b: Seq<Advice<B>>,
)
    requires
        forall|k: int| 0 <= k < n ==> a[k] == b[k] && s[k] == t[k],
    ensures
        john_widen(cur, plies, passes, pos, alpha, beta, moves, n, s, a) == john_widen(
            cur,
            plies,
            passes,
            pos,
            alpha,
            beta,
            moves,
            n,
            t,
            b,
        ),
    decreases n,
{
    if n > 0 && plies > 0 {
        lemma_widen_frame(cur, plies, passes, pos, alpha, beta, moves, (n - 1) as nat, s, a, t, b);
    }
}

/// The state of the final pass after the first `n` moves depends on the
/// shares of those moves and the advice below them only.
pub proof fn lemma_final_frame<B: Budget>(
    left: B,
    plies: nat,
    passes: i32,
    pos: Position,
    beta: int,
    moves: Seq<Scored>,
    n: nat,
    first: Best,
    s: Seq<B>,
    a: Seq<Advice<B>>,
    t: Seq<B>,
    b: Seq<Advice<B>>,
)
    requires
        forall|k: int| 0 <= k < n ==> a[k] == b[k] && s[k] == t[k],
    ensures
        john_final(left, plies, passes, pos, beta, moves, n, first, s, a) == john_final(
            left,
            plies,
            passes,
            pos,
            beta,
            moves,
            n,
            first,
            t,
            b,
        ),
    decreases n,
{
    if n > 0 && plies > 0 {
        lemma_final_frame(left, plies, passes, pos, beta, moves, (n - 1) as nat, first, s, a, t, b);
    }
}

/// Once a move has decided the final pass, the moves after it change
/// nothing.
pub proof fn lemma_final_decided<B: Budget>(
    left: B,
    plies: nat,
    passes: i32,
    pos: Position,
    beta: int,
    moves: Seq<Scored>,
    n: nat,
    m: nat,
    first: Best,
    s: Seq<B>,
    a: Seq<Advice<B>>,
)
    requires
        n <= m,
        john_final(left, plies, passes, pos, beta, moves, n, first, s, a).0.is_some(),
    ensures
        john_final(left, plies, passes, pos, beta, moves, m, first, s, a) == john_final(
            left,
            plies,
            passes,
            pos,
            beta,
            moves,
            n,
            first,
            s,
            a,
        ),
    decreases m,
{
    if n < m {
        lemma_final_decided(left, plies, passes, pos, beta, moves, n, (m - 1) as nat, first, s, a);
    }
}

/// Whether two advices agree on the first `n` widening passes.
pub open spec fn same_passes<B>(a: Advice<B>, b: Advice<B>, n: nat) -> bool {
    &&& a.seed == b.seed
    &&& forall|k: int|
        0 <= k < n ==> (#[trigger] a.curs[k]) == b.curs[k] && a.skipped[k] == b.skipped[k]
            && a.shares[k] == b.shares[k] && a.widened[k] == b.widened[k]
}

/// The state after the first `n` widening passes depends on the advice of
/// those passes only.
pub proof fn lemma_passes_frame<B: Budget>(
    plies: nat,
    passes: i32,
    pos: Position,
    alpha: int,
    beta: int,
    first: Seq<Scored>,
    n: nat,
    a: Advice<B>,
    b: Advice<B>,
)
    requires
        same_passes(a, b, n),
    ensures
        john_passes(plies, passes, pos, alpha, beta, first, n, a) == john_passes(
            plies,
            passes,
            pos,
            alpha,
            beta,
            first,
            n,
            b,
        ),
    decreases n,
{
    if n > 0 {
        assert(same_passes(a, b, (n - 1) as nat));
        lemma_passes_frame(plies, passes, pos, alpha, beta, first, (n - 1) as nat, a, b);
        assert(a.curs[n - 1] == b.curs[n - 1]);
        if n > 1 {
            assert(a.curs[n - 2] == b.curs[n - 2]);
        }
    }
}

/// Once a widening pass has decided, the passes after it change nothing.
pub proof fn lemma_passes_decided<B: Budget>(
    plies: nat,
    passes: i32,
    pos: Position,
    alpha: int,
    beta: int,
    first: Seq<Scored>,
    n: nat,
    m: nat,
    adv: Advice<B>,
)
    requires
        n <= m,
        john_passes(plies, passes, pos, alpha, beta, first, n, adv).0.is_some(),
    ensures
        john_passes(plies, passes, pos, alpha, beta, first, m, adv) == john_passes(
            plies,
            passes,
            pos,
            alpha,
            beta,
            first,
            n,
            adv,
        ),
    decreases m,
{
    if n < m {
        lemma_passes_decided(plies, passes, pos, alpha, beta, first, n, (m - 1) as nat, adv);
    }
}

} // verus!
