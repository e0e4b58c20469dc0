//! The player that searches with alpha-beta pruning to a fixed depth and
//! remembers the positions it has scored.

use std::collections::HashMap;
use vstd::prelude::*;
use crate::actor::Actor;
use crate::board::{zobrist, Board, KeyTable};
use crate::free::{first_free_cell, free_count, lemma_all_free};
use crate::eval::{alive, bobs_shallow_eval, evaluate, lemma_evaluate_in_range, sane, valid_move, LOST, WIN};
use crate::geometry::{cell, cell_at, CellPos};
use crate::ordering::{lemma_sort_by_score, sort_by_score, sort_moves, Scored};
use crate::position::{lemma_place_lift, Position};
use crate::runs::wins_at;

verus! {

/// What the search remembers: for a depth and a fingerprint, packed into one
/// key, the score and the move that it found there.
pub type Memo = Map<u128, (i32, Option<CellPos>)>;

/// The key under which the search remembers the position with fingerprint
/// `hash` at depth `depth`.
pub open spec fn memo_key(depth: u8, hash: u64) -> u128 {
    (depth * 0x1_0000_0000_0000_0000 + hash) as u128
}

/// The alive cells among the first `n` storage places, each with the score
/// that the position has for the opponent once the mover has played there.
pub open spec fn scored_candidates(pos: Position, n: nat) -> Seq<Scored>
    decreases n,
{
    if n == 0 {
        Seq::empty()
    } else {
        let q = n - 1;
        let rest = scored_candidates(pos, q as nat);
        if alive(pos.cells, q / 15, q % 15) {
            rest.push((evaluate(pos.place(q)) as i32, cell_at(q / 15, q % 15)))
        } else {
            rest
        }
    }
}

/// The order in which the search tries the moves of `pos`: the alive cells,
/// in ascending order of the score one move ahead.
pub open spec fn move_order(pos: Position) -> Seq<Scored> {
    let found = scored_candidates(pos, 225);
    sort_by_score(found, found.len())
}

/// Every scored candidate is an alive cell.
pub proof fn lemma_candidates_alive(pos: Position, n: nat)
    requires
        n <= 225,
    ensures
        scored_candidates(pos, n).len() <= n,
        forall|k: int|
            0 <= k < scored_candidates(pos, n).len() ==> alive(
                pos.cells,
                (#[trigger] scored_candidates(pos, n)[k]).1.col(),
                scored_candidates(pos, n)[k].1.row(),
            ),
    decreases n,
{
    if n > 0 {
        lemma_candidates_alive(pos, (n - 1) as nat);
    }
}

/// Every move that the search tries is an alive cell.
pub proof fn lemma_move_order_alive(pos: Position)
    ensures
        move_order(pos).len() <= 225,
        forall|k: int|
            0 <= k < move_order(pos).len() ==> alive(
                pos.cells,
                (#[trigger] move_order(pos)[k]).1.col(),
                move_order(pos)[k].1.row(),
            ),
{
    broadcast use vstd::seq_lib::group_to_multiset_ensures;

    let found = scored_candidates(pos, 225);
    lemma_candidates_alive(pos, 225);
    lemma_sort_by_score(found, found.len());
    let sorted = move_order(pos);
    assert(found.take(found.len() as int) =~= found);
    assert forall|k: int| 0 <= k < sorted.len() implies alive(
        pos.cells,
        (#[trigger] sorted[k]).1.col(),
        sorted[k].1.row(),
    ) by {
        assert(sorted.to_multiset().count(sorted[k]) > 0);
        assert(found.to_multiset().count(sorted[k]) > 0);
        let j = choose|j: int| 0 <= j < found.len() && found[j] == sorted[k];
        assert(alive(pos.cells, found[j].1.col(), found[j].1.row()));
    }
}

/// The alive cells of `board`, each with the score one move ahead.
pub fn scored_moves(board: &mut Board) -> (moves: Vec<Scored>)
    requires
        old(board).wf(),
    ensures
        final(board).wf(),
        final(board).same(old(board)),
        moves@ == scored_candidates(old(board)@, 225),
{
    let ghost pos = board@;
    let mut moves: Vec<Scored> = Vec::new();
    let mut q: usize = 0;
    while q < 225
        invariant
            board.wf(),
            board.same(old(board)),
            pos == board@,
            q <= 225,
            moves@ == scored_candidates(pos, q as nat),
        decreases 225 - q,
    {
        let cp = cell(q / 15, q % 15);
        if valid_move(board, cp) {
            proof {
                lemma_place_lift(pos, q as int);
            }
            board.make_move(cp);
            let score = bobs_shallow_eval(board);
            board.unmake_move(cp);
            proof {
                board.lemma_same(old(board));
            }
            moves.push((score, cp));
        }
        q += 1;
    }
    moves
}

/// What fixes a search: the key table of the board, the depth at which the
/// position is scored and not searched further, and whether the results of
/// the nodes above that depth are remembered too.
pub struct Rules {
    pub keys: KeyTable,
    pub limit: u8,
    pub inner: bool,
}

/// How far the scan of a node's moves has come.
pub struct Progress {
    /// The lower bound of the window.
    pub alpha: int,
    /// The best score so far.
    pub score: int,
    /// The move that gave it.
    pub best: Option<CellPos>,
    /// What is remembered.
    pub memo: Memo,
    /// How often the memory answered.
    pub used: nat,
    /// How many positions were computed.
    pub computed: nat,
}

/// What a search gives: score and move, what it remembers afterwards, how
/// often its memory answered, and how many positions it computed.
pub struct Outcome {
    pub score: int,
    pub best: Option<CellPos>,
    pub memo: Memo,
    pub used: nat,
    pub computed: nat,
}

/// The alpha-beta search of `pos` at depth `depth` with the window from
/// `alpha` to `beta`. A remembered position is answered from memory. At the
/// depth limit the position is scored, and the score remembered. Else the
/// moves are scanned, from a best score below every other.
pub open spec fn bob_search(
    rules: Rules,
    pos: Position,
    depth: u8,
    alpha: int,
    beta: int,
    memo: Memo,
) -> Outcome
    decreases rules.limit - depth, 1nat, 0nat,
{
    let key = memo_key(depth, zobrist(rules.keys, pos.cells, 225));
    if memo.contains_key(key) {
        Outcome { score: memo[key].0 as int, best: memo[key].1, memo, used: 1, computed: 0 }
    } else if depth >= rules.limit {
        Outcome {
            score: evaluate(pos),
            best: None,
            memo: memo.insert(key, (evaluate(pos) as i32, None)),
            used: 0,
            computed: 1,
        }
    } else {
        bob_scan(
            rules,
            pos,
            depth,
            move_order(pos),
            0,
            beta,
            Progress { alpha, score: LOST - 1, best: None, memo, used: 0, computed: 1 },
        )
    }
}

/// The scan of the moves of a node from the `k`-th on. A move that completes
/// five is the answer, with the score [`WIN`]. Else the move is searched one
/// level deeper with the window negated and swapped, and scores the negated
/// result. A score above the best so far becomes the best; where it also
/// rises above `alpha` and reaches `beta`, it is the answer. When no move is
/// left the best so far is the answer.
pub open spec fn bob_scan(
    rules: Rules,
    pos: Position,
    depth: u8,
    moves: Seq<Scored>,
    k: int,
    beta: int,
    st: Progress,
) -> Outcome
    decreases rules.limit - depth, 0nat, moves.len() - k,
{
    if depth >= rules.limit || k < 0 || k >= moves.len() {
        Outcome {
            score: st.score,
            best: st.best,
            memo: if rules.inner {
                st.memo.insert(
                    memo_key(depth, zobrist(rules.keys, pos.cells, 225)),
                    (st.score as i32, st.best),
                )
            } else {
                st.memo
            },
            used: st.used,
            computed: st.computed,
        }
    } else {
        let cp = moves[k].1;
        let after = pos.place(cp.idx());
        if wins_at(after.cells, cp.col(), cp.row()) {
            Outcome {
                score: WIN as int,
                best: Some(cp),
                memo: st.memo,
                used: st.used,
                computed: st.computed,
            }
        } else {
            let sub = bob_search(rules, after, (depth + 1) as u8, -beta, -st.alpha, st.memo);
            let score = -sub.score;
            let used = st.used + sub.used;
            let computed = st.computed + sub.computed;
            if score > st.score && score > st.alpha && score >= beta {
                Outcome { score, best: Some(cp), memo: sub.memo, used, computed }
            } else if score > st.score {
                bob_scan(
                    rules,
                    pos,
                    depth,
                    moves,
                    k + 1,
                    beta,
                    Progress {
                        alpha: if score > st.alpha {
                            score
                        } else {
                            st.alpha
                        },
                        score,
                        best: Some(cp),
                        memo: sub.memo,
                        used,
                        computed,
                    },
                )
            } else {
                bob_scan(
                    rules,
                    pos,
                    depth,
                    moves,
                    k + 1,
                    beta,
                    Progress { memo: sub.memo, used, computed, ..st },
                )
            }
        }
    }
}

/// Whether every remembered score lies within the limit of scores.
pub open spec fn memo_sane(memo: Memo) -> bool {
    forall|key: u128| memo.contains_key(key) ==> sane((#[trigger] memo[key]).0 as int)
}

/// The count `n` as a counter of the machine's word size holds it: counters
/// start again at zero when they run over.
pub open spec fn wrapped(n: int) -> usize {
    (n % (usize::MAX + 1)) as usize
}

/// A player that searches with alpha-beta pruning to a fixed depth, scores
/// the positions at that depth, and remembers what it has scored.
pub struct BobAI {
    depth: u8,
    memory: HashMap<u128, (i32, Option<CellPos>)>,
    remember_inner: bool,
    used_memory: usize,
    computed_positions: usize,
}

impl BobAI {
    /// The depth at which positions are scored.
    pub closed spec fn limit(&self) -> u8 {
        self.depth
    }

    /// Whether the results of inner nodes are remembered.
    pub closed spec fn inner(&self) -> bool {
        self.remember_inner
    }

    /// What the player remembers.
    pub closed spec fn memo(&self) -> Memo {
        self.memory@
    }

    /// How often the memory has answered.
    pub closed spec fn hits(&self) -> usize {
        self.used_memory
    }

    /// How many positions have been computed.
    pub closed spec fn nodes(&self) -> usize {
        self.computed_positions
    }

    /// Every remembered score lies within the limit of scores.
    #[verifier::type_invariant]
    pub closed spec fn wf(&self) -> bool {
        memo_sane(self.memory@)
    }

    /// The rules by which the player searches on a board with the key table
    /// `keys`.
    pub open spec fn rules(&self, keys: KeyTable) -> Rules {
        Rules { keys, limit: self.limit(), inner: self.inner() }
    }

    /// A player that scores positions at depth `depth`, remembers nothing
    /// yet, and will remember the scored positions only.
    pub fn new(depth: u8) -> (ai: BobAI)
        ensures
            ai.limit() == depth,
            !ai.inner(),
            ai.memo() == Memo::empty(),
            ai.hits() == 0,
            ai.nodes() == 0,
    {
        BobAI {
            depth,
            memory: HashMap::new(),
            remember_inner: false,
            used_memory: 0,
            computed_positions: 0,
        }
    }

    /// The depth at which positions are scored.
    pub fn depth(&self) -> (r: u8)
        ensures
            r == self.limit(),
    {
        self.depth
    }

    /// How often the memory has answered, counted as [`wrapped`] counts.
    pub fn used_memory(&self) -> (r: usize)
        ensures
            r == self.hits(),
    {
        self.used_memory
    }

    /// How many positions have been computed, counted as [`wrapped`] counts.
    pub fn computed_positions(&self) -> (r: usize)
        ensures
            r == self.nodes(),
    {
        self.computed_positions
    }

    /// Sets whether the results of the nodes above the depth limit are
    /// remembered too.
    pub fn remember_inner(&mut self, on: bool)
        ensures
            final(self).inner() == on,
            final(self).limit() == old(self).limit(),
            final(self).memo() == old(self).memo(),
            final(self).hits() == old(self).hits(),
            final(self).nodes() == old(self).nodes(),
    {
        proof {
            use_type_invariant(&*self);
        }
        self.remember_inner = on;
    }

    /// Remembers `found` under `key`.
    fn remember(&mut self, key: u128, found: (i32, Option<CellPos>))
        requires
            sane(found.0 as int),
        ensures
            final(self).memo() == old(self).memo().insert(key, found),
            final(self).limit() == old(self).limit(),
            final(self).inner() == old(self).inner(),
            final(self).hits() == old(self).hits(),
            final(self).nodes() == old(self).nodes(),
    {
        proof {
            use_type_invariant(&*self);
        }
        let mut memory: HashMap<u128, (i32, Option<CellPos>)> = HashMap::new();
        core::mem::swap(&mut self.memory, &mut memory);
        memory.insert(key, found);
        core::mem::swap(&mut self.memory, &mut memory);
    }

    /// The key under which the position with fingerprint `hash` is
    /// remembered at depth `depth`.
    fn key_of(depth: u8, hash: u64) -> (key: u128)
        ensures
            key == memo_key(depth, hash),
    {
        let high: u128 = depth as u128;
        let low: u128 = hash as u128;
        high * 0x1_0000_0000_0000_0000u128 + low
    }

    /// Searches `board` at depth `cur_depth` with the window from `alpha` to
    /// `beta`, and puts `board` back as it was.
    pub fn minmax(&mut self, cur_depth: u8, board: &mut Board, alpha: i32, beta: i32) -> (r: (
        i32,
        Option<CellPos>,
    ))
        requires
            old(board).wf(),
            cur_depth <= old(self).limit(),
            alpha > i32::MIN,
            beta > i32::MIN,
        ensures
            final(board).wf(),
            final(board).same(old(board)),
            final(self).limit() == old(self).limit(),
            final(self).inner() == old(self).inner(),
            sane(r.0 as int),
            ({
                let out = bob_search(
                    old(self).rules(old(board).keys()),
                    old(board)@,
                    cur_depth,
                    alpha as int,
                    beta as int,
                    old(self).memo(),
                );
                &&& r.0 == out.score
                &&& r.1 == out.best
                &&& final(self).memo() == out.memo
                &&& final(self).hits() == wrapped(old(self).hits() + out.used)
                &&& final(self).nodes() == wrapped(old(self).nodes() + out.computed)
            }),
        decreases old(self).limit() - cur_depth,
    {
        let ghost pos = board@;
        let ghost rules = self.rules(board.keys());
        let ghost goal = bob_search(rules, pos, cur_depth, alpha as int, beta as int, self.memo());
        let key = BobAI::key_of(cur_depth, board.hash());
        proof {
            use_type_invariant(&*self);
            lemma_wrapped_small(self.hits() as int);
            lemma_wrapped_small(self.nodes() as int);
        }
        if let Some(found) = self.memory.get(&key) {
            let result = *found;
            proof {
                lemma_wrapped_step(old(self).hits() as int, 0, 1);
            }
            self.used_memory = self.used_memory.wrapping_add(1);
            return result;
        }
        proof {
            lemma_wrapped_step(old(self).nodes() as int, 0, 1);
            lemma_evaluate_in_range(pos);
        }
        self.computed_positions = self.computed_positions.wrapping_add(1);
        if cur_depth == self.depth {
            let result: (i32, Option<CellPos>) = (bobs_shallow_eval(board), None);
            self.remember(key, result);
            return result;
        }
        let mut low: i32 = alpha;
        let mut result: (i32, Option<CellPos>) = (LOST - 1, None);
        let found = scored_moves(board);
        let moves = sort_moves(found);
        assert(moves@ == move_order(pos));
        let ghost mut used: nat = 0;
        let ghost mut computed: nat = 1;
        proof {
            lemma_move_order_alive(pos);
        }
        let mut k: usize = 0;
        while k < moves.len()
            invariant
                board.wf(),
                board.same(old(board)),
                pos == board@,
                self.limit() == old(self).limit(),
                self.inner() == old(self).inner(),
                rules == self.rules(board.keys()),
                cur_depth < self.limit(),
                key == memo_key(cur_depth, zobrist(rules.keys, pos.cells, 225)),
                k <= moves.len(),
                moves@ == move_order(pos),
                low > i32::MIN,
                beta > i32::MIN,
                sane(result.0 as int),
                goal == bob_search(
                    old(self).rules(old(board).keys()),
                    old(board)@,
                    cur_depth,
                    alpha as int,
                    beta as int,
                    old(self).memo(),
                ),
                self.hits() == wrapped(old(self).hits() + used),
                self.nodes() == wrapped(old(self).nodes() + computed),
                goal == bob_scan(
                    rules,
                    pos,
                    cur_depth,
                    moves@,
                    k as int,
                    beta as int,
                    Progress {
                        alpha: low as int,
                        score: result.0 as int,
                        best: result.1,
                        memo: self.memo(),
                        used,
                        computed,
                    },
                ),
            decreases moves.len() - k,
        {
            let cp = moves[k].1;
            proof {
                lemma_move_order_alive(pos);
                assert(alive(pos.cells, moves@[k as int].1.col(), moves@[k as int].1.row()));
                lemma_place_lift(pos, cp.idx());
            }
            let ghost st = Progress {
                alpha: low as int,
                score: result.0 as int,
                best: result.1,
                memo: self.memo(),
                used,
                computed,
            };
            assert(goal == bob_scan(rules, pos, cur_depth, moves@, k as int, beta as int, st));
            let placed = board.make_move(cp);
            assert(placed);
            if board.check_win_from(cp) {
                board.unmake_move(cp);
                proof {
                    board.lemma_same(old(board));
                }
                return (WIN, Some(cp));
            }
            let ghost before_hits = self.hits();
            let ghost before_nodes = self.nodes();
            let ghost sub = bob_search(
                rules,
                pos.place(cp.idx()),
                (cur_depth + 1) as u8,
                -(beta as int),
                -(low as int),
                self.memo(),
            );
            let mut eval = self.minmax(cur_depth + 1, board, -beta, -low);
            eval.0 = -eval.0;
            board.unmake_move(cp);
            proof {
                board.lemma_same(old(board));
                lemma_wrapped_step(old(self).hits() as int, used as int, sub.used as int);
                lemma_wrapped_step(old(self).nodes() as int, computed as int, sub.computed as int);
                used = used + sub.used;
                computed = computed + sub.computed;
            }
            k += 1;
            if eval.0 > result.0 {
                result = (eval.0, Some(cp));
                if eval.0 > low {
                    low = eval.0;
                    if low >= beta {
                        return result;
                    }
                }
            }
        }
        if self.remember_inner {
            self.remember(key, result);
        }
        result
    }
}

/// The cell that the player answers where its search has given `best`: the
/// move, if it is legal, and else the first empty cell.
pub open spec fn answered(pos: Position, best: Option<CellPos>) -> CellPos {
    match best {
        Some(c) => if pos.legal(c.idx()) {
            c
        } else {
            first_free_cell(pos.cells)
        },
        None => first_free_cell(pos.cells),
    }
}

impl BobAI {
    /// The next move on `board` and, where the board is not empty, the score
    /// that the search from depth 0 with the widest window gave. The move is
    /// the centre of an empty board; else the move of the search, and the
    /// first empty cell where the search answers none or, out of its memory,
    /// one that is occupied.
    pub fn next_scored(&mut self, board: &Board) -> (r: (Option<i32>, CellPos))
        requires
            board.wf(),
            free_count(board@.cells, 0) > 0,
        ensures
            board@.legal(r.1.idx()),
            final(self).limit() == old(self).limit(),
            final(self).inner() == old(self).inner(),
            free_count(board@.cells, 0) == 225 ==> {
                &&& r == (None::<i32>, cell_at(7, 7))
                &&& final(self).memo() == old(self).memo()
                &&& final(self).hits() == old(self).hits()
                &&& final(self).nodes() == old(self).nodes()
            },
            free_count(board@.cells, 0) != 225 ==> ({
                let out = bob_search(
                    old(self).rules(board.keys()),
                    board@,
                    0,
                    LOST - 1,
                    WIN + 1,
                    old(self).memo(),
                );
                &&& final(self).memo() == out.memo
                &&& final(self).hits() == wrapped(old(self).hits() + out.used)
                &&& final(self).nodes() == wrapped(old(self).nodes() + out.computed)
                &&& r.0 == Some(out.score as i32)
                &&& r.1 == answered(board@, out.best)
            }),
    {
        proof {
            lemma_all_free(board@.cells);
        }
        if board.free_positions().count() == 15 * 15 {
            return (None, cell(7, 7));
        }
        let mut scratch = board.clone();
        let next_move = self.minmax(0, &mut scratch, LOST - 1, WIN + 1);
        let chosen = match next_move.1 {
            Some(cp) => if board.get(cp).is_none() {
                proof {
                    use_type_invariant(cp);
                }
                cp
            } else {
                board.first_free()
            },
            None => board.first_free(),
        };
        (Some(next_move.0), chosen)
    }
}

impl Actor for BobAI {
    /// The centre of an empty board; else the move that the search from
    /// depth 0 with the widest window answers, and the first empty cell
    /// where it answers none or, out of its memory, one that is occupied.
    fn next(&mut self, board: &Board) -> (r: CellPos)
        ensures
            final(self).limit() == old(self).limit(),
            final(self).inner() == old(self).inner(),
            free_count(board@.cells, 0) == 225 ==> {
                &&& r == cell_at(7, 7)
                &&& final(self).memo() == old(self).memo()
                &&& final(self).hits() == old(self).hits()
                &&& final(self).nodes() == old(self).nodes()
            },
            free_count(board@.cells, 0) != 225 ==> ({
                let out = bob_search(
                    old(self).rules(board.keys()),
                    board@,
                    0,
                    LOST - 1,
                    WIN + 1,
                    old(self).memo(),
                );
                &&& final(self).memo() == out.memo
                &&& final(self).hits() == wrapped(old(self).hits() + out.used)
                &&& final(self).nodes() == wrapped(old(self).nodes() + out.computed)
                &&& r == answered(board@, out.best)
            }),
    {
        self.next_scored(board).1
    }
}

/// A count that a counter can hold is held as it is.
pub proof fn lemma_wrapped_small(n: int)
    requires
        0 <= n <= usize::MAX,
    ensures
        wrapped(n) == n,
{
    vstd::arithmetic::div_mod::lemma_small_mod(n as nat, (usize::MAX + 1) as nat);
}

/// Counting on from a wrapped count gives the wrapped sum.
pub proof fn lemma_wrapped_step(base: int, a: int, b: int)
    requires
        0 <= base,
        0 <= a,
        0 <= b,
    ensures
        wrapped(wrapped(base + a) + b) == wrapped(base + a + b),
        b == 1 ==> wrapped(base + a + 1) == (if wrapped(base + a) == usize::MAX {
            0usize
        } else {
            (wrapped(base + a) + 1) as usize
        }),
{
    let m = usize::MAX + 1;
    vstd::arithmetic::div_mod::lemma_add_mod_noop(base + a, b, m);
    vstd::arithmetic::div_mod::lemma_mod_bound(base + a, m);
    vstd::arithmetic::div_mod::lemma_mod_bound(base + a + b, m);
    vstd::arithmetic::div_mod::lemma_mod_bound((base + a) % m + b, m);
    if b == 1 {
        vstd::arithmetic::div_mod::lemma_small_mod(1, m as nat);
        if (base + a) % m == usize::MAX {
            vstd::arithmetic::div_mod::lemma_mod_self_0(m);
        } else {
            vstd::arithmetic::div_mod::lemma_small_mod(((base + a) % m + 1) as nat, m as nat);
        }
    } else {
        if b < m {
            vstd::arithmetic::div_mod::lemma_small_mod(b as nat, m as nat);
        }
    }
}

} // verus!
