//! Lists of scored moves, and their order.

use vstd::prelude::*;
use crate::geometry::CellPos;

verus! {

/// A move with the score it was given.
pub type Scored = (i32, CellPos);

/// The list `sorted` with `m` put behind the last entry whose score is not
/// above that of `m`.
pub open spec fn insert_by_score(sorted: Seq<Scored>, m: Scored) -> Seq<Scored>
    decreases sorted.len(),
{
    if sorted.len() == 0 {
        seq![m]
    } else if sorted.last().0 <= m.0 {
        sorted.push(m)
    } else {
        insert_by_score(sorted.drop_last(), m).push(sorted.last())
    }
}

/// The first `n` entries of `moves` in ascending order of score; entries of
/// equal score keep the order in which they stood.
pub open spec fn sort_by_score(moves: Seq<Scored>, n: nat) -> Seq<Scored>
    decreases n,
{
    if n == 0 {
        Seq::empty()
    } else {
        insert_by_score(sort_by_score(moves, (n - 1) as nat), moves[n - 1])
    }
}

/// Whether the scores of `moves` ascend.
pub open spec fn ascending(moves: Seq<Scored>) -> bool {
    forall|i: int, j: int| 0 <= i <= j < moves.len() ==> moves[i].0 <= moves[j].0
}

/// Putting `m` in at place `p` is what [`insert_by_score`] does, where the
/// entries from `p` on score above `m` and the entry before `p` does not.
pub proof fn lemma_insert_at(sorted: Seq<Scored>, m: Scored, p: int)
    requires
        0 <= p <= sorted.len(),
        forall|j: int| p <= j < sorted.len() ==> sorted[j].0 > m.0,
        p > 0 ==> sorted[p - 1].0 <= m.0,
    ensures
        insert_by_score(sorted, m) == sorted.insert(p, m),
    decreases sorted.len(),
{
    if sorted.len() == 0 {
        assert(sorted.insert(p, m) =~= seq![m]);
    } else if p == sorted.len() {
        assert(sorted.insert(p, m) =~= sorted.push(m));
    } else {
        lemma_insert_at(sorted.drop_last(), m, p);
        assert(sorted.insert(p, m) =~= sorted.drop_last().insert(p, m).push(sorted.last()));
    }
}

/// Inserting keeps every entry and adds the new one: the result holds `m`
/// and the entries of `sorted`, and nothing else.
pub proof fn lemma_insert_members(sorted: Seq<Scored>, m: Scored)
    ensures
        insert_by_score(sorted, m).len() == sorted.len() + 1,
        insert_by_score(sorted, m).to_multiset() == sorted.to_multiset().insert(m),
        ascending(sorted) ==> ascending(insert_by_score(sorted, m)),
    decreases sorted.len(),
{
    broadcast use vstd::seq_lib::group_to_multiset_ensures;

    if sorted.len() == 0 {
    } else if sorted.last().0 <= m.0 {
    } else {
        let front = sorted.drop_last();
        lemma_insert_members(front, m);
        assert(sorted =~= front.push(sorted.last()));
        let into = insert_by_score(front, m);
        if ascending(sorted) {
            assert(ascending(front));
            assert forall|i: int| 0 <= i < into.len() implies into[i].0 <= sorted.last().0 by {
                assert(into.to_multiset().count(into[i]) > 0);
                if into[i] != m {
                    assert(front.to_multiset().count(into[i]) > 0);
                    let k = choose|k: int| 0 <= k < front.len() && front[k] == into[i];
                    assert(sorted[k] == front[k]);
                }
            }
        }
    }
}

/// Sorting keeps the moves: the sorted list holds each of them as often as
/// the list that was sorted, and its scores ascend.
pub proof fn lemma_sort_by_score(moves: Seq<Scored>, n: nat)
    requires
        n <= moves.len(),
    ensures
        sort_by_score(moves, n).len() == n,
        sort_by_score(moves, n).to_multiset() == moves.take(n as int).to_multiset(),
        ascending(sort_by_score(moves, n)),
    decreases n,
{
    broadcast use vstd::seq_lib::group_to_multiset_ensures;

    if n > 0 {
        lemma_sort_by_score(moves, (n - 1) as nat);
        lemma_insert_members(sort_by_score(moves, (n - 1) as nat), moves[n - 1]);
        assert(moves.take(n as int) =~= moves.take(n - 1).push(moves[n - 1]));
    } else {
        assert(moves.take(0) =~= Seq::<Scored>::empty());
    }
}

/// Sorts `moves` in ascending order of score; moves of equal score keep
/// their order.
pub fn sort_moves(moves: Vec<Scored>) -> (sorted: Vec<Scored>)
    ensures
        sorted@ == sort_by_score(moves@, moves@.len()),
{
    let mut sorted: Vec<Scored> = Vec::new();
    let mut n: usize = 0;
    while n < moves.len()
        invariant
            n <= moves.len(),
            sorted@ == sort_by_score(moves@, n as nat),
            sorted@.len() == n,
        decreases moves.len() - n,
    {
        let m = moves[n];
        let mut p: usize = sorted.len();
        while p > 0 && sorted[p - 1].0 > m.0
            invariant
                p <= sorted.len(),
                forall|j: int| p <= j < sorted.len() ==> sorted@[j].0 > m.0,
            decreases p,
        {
            p -= 1;
        }
        proof {
            lemma_insert_at(sorted@, m, p as int);
        }
        sorted.insert(p, m);
        n += 1;
    }
    sorted
}

/// The moves of `moves` in the opposite order.
pub fn reverse_moves(moves: Vec<Scored>) -> (turned: Vec<Scored>)
    ensures
        turned@ == moves@.reverse(),
{
    let mut turned: Vec<Scored> = Vec::new();
    let mut n: usize = moves.len();
    while n > 0
        invariant
            n <= moves.len(),
            turned@.len() == moves.len() - n,
            forall|j: int| 0 <= j < turned@.len() ==> turned@[j] == moves@[moves.len() - 1 - j],
        decreases n,
    {
        n -= 1;
        turned.push(moves[n]);
    }
    assert(turned@ =~= moves@.reverse());
    turned
}

} // verus!
