//! The board: cells, the player on turn, and the fingerprint that moves and
//! their retractions keep up to date.

use vstd::prelude::*;
use crate::chance::random_key;
use crate::geometry::{CellPos, Stone};
use crate::position::{lemma_place_lift, lemma_stones_update, stones, Grid, Position};

verus! {

/// The three keys of each cell: one for the empty cell, one for each colour.
pub type KeyTable = [[u64; 3]; 225];

/// The fingerprint of the first `n` cells: the exclusive or, over them, of
/// the key that each cell's content selects.
pub open spec fn zobrist(keys: KeyTable, cells: Grid, n: nat) -> u64
    decreases n,
{
    if n == 0 {
        0
    } else {
        zobrist(keys, cells, (n - 1) as nat) ^ keys[n - 1][Stone::slot(cells[n - 1])]
    }
}

/// Changing the content of cell `i` toggles the key of its old content out
/// of the fingerprint and the key of its new content in.
pub proof fn lemma_zobrist_update(keys: KeyTable, cells: Grid, i: int, c: Option<Stone>, n: nat)
    requires
        0 <= i < cells.len(),
        n <= cells.len(),
    ensures
        zobrist(keys, cells.update(i, c), n) == if i < n {
            zobrist(keys, cells, n) ^ keys[i][Stone::slot(cells[i])] ^ keys[i][Stone::slot(c)]
        } else {
            zobrist(keys, cells, n)
        },
    decreases n,
{
    if n > 0 {
        let m = (n - 1) as nat;
        lemma_zobrist_update(keys, cells, i, c, m);
        let z = zobrist(keys, cells, m);
        let ko = keys[i][Stone::slot(cells[i])];
        let kn = keys[i][Stone::slot(c)];
        if i == m {
            assert((z ^ kn) == (z ^ ko) ^ ko ^ kn) by (bit_vector);
        } else if i < m {
            let k = keys[m as int][Stone::slot(cells[m as int])];
            assert(((z ^ ko ^ kn) ^ k) == (z ^ k) ^ ko ^ kn) by (bit_vector);
        }
    }
}

/// A move or its retraction.
pub enum Step {
    /// The mover puts a stone on the cell with this storage place.
    Make(int),
    /// The last move, on the cell with this storage place, is taken back.
    Unmake(int),
}

impl Step {
    /// Whether the step can be taken in `pos`: a move needs an empty cell, a
    /// retraction a stone of the player who is not on turn.
    pub open spec fn allowed(self, pos: Position) -> bool {
        match self {
            Step::Make(i) => pos.legal(i),
            Step::Unmake(i) => pos.retractable(i),
        }
    }

    /// The position after the step.
    pub open spec fn apply(self, pos: Position) -> Position {
        match self {
            Step::Make(i) => pos.place(i),
            Step::Unmake(i) => pos.lift(i),
        }
    }

    /// The fingerprint after the step, made from the fingerprint `h` before
    /// it by two toggles: a move toggles the cell's empty key out and the
    /// mover's key in, a retraction the other way round.
    pub open spec fn toggle(self, keys: KeyTable, h: u64, pos: Position) -> u64 {
        match self {
            Step::Make(i) => h ^ keys[i][0] ^ keys[i][Stone::slot(Some(pos.turn))],
            Step::Unmake(i) => h ^ keys[i][Stone::slot(Some(pos.turn.other()))] ^ keys[i][0],
        }
    }
}

/// Whether the steps of `steps` can be taken from `pos` one after another.
pub open spec fn replay_allowed(pos: Position, steps: Seq<Step>) -> bool
    decreases steps.len(),
{
    steps.len() == 0 || (steps[0].allowed(pos) && replay_allowed(
        steps[0].apply(pos),
        steps.drop_first(),
    ))
}

/// The position that the steps of `steps` lead to from `pos`.
pub open spec fn replay(pos: Position, steps: Seq<Step>) -> Position
    decreases steps.len(),
{
    if steps.len() == 0 {
        pos
    } else {
        replay(steps[0].apply(pos), steps.drop_first())
    }
}

/// The fingerprint that the steps of `steps` leave, toggled step by step
/// from the fingerprint `h` of `pos`.
pub open spec fn replay_fingerprint(keys: KeyTable, h: u64, pos: Position, steps: Seq<Step>) -> u64
    decreases steps.len(),
{
    if steps.len() == 0 {
        h
    } else {
        replay_fingerprint(
            keys,
            steps[0].toggle(keys, h, pos),
            steps[0].apply(pos),
            steps.drop_first(),
        )
    }
}

/// Fingerprint consistency: after any sequence of moves and retractions,
/// the fingerprint that was toggled along equals the fingerprint computed
/// from scratch over the cells that the sequence has led to.
pub proof fn lemma_fingerprint_consistent(keys: KeyTable, pos: Position, steps: Seq<Step>)
    requires
        pos.full_size(),
        replay_allowed(pos, steps),
    ensures
        replay(pos, steps).full_size(),
        replay_fingerprint(keys, zobrist(keys, pos.cells, 225), pos, steps) == zobrist(
            keys,
            replay(pos, steps).cells,
            225,
        ),
    decreases steps.len(),
{
    if steps.len() > 0 {
        match steps[0] {
            Step::Make(i) => {
                lemma_zobrist_update(keys, pos.cells, i, Some(pos.turn), 225);
            },
            Step::Unmake(i) => {
                lemma_zobrist_update(keys, pos.cells, i, None, 225);
            },
        }
        lemma_fingerprint_consistent(keys, steps[0].apply(pos), steps.drop_first());
    }
}

/// The inverse law of moves: taking back a legal move gives the position in
/// which it was made, cell by cell and with the same player on turn, and
/// with it the same fingerprint, both computed from scratch and toggled.
pub proof fn lemma_unmake_reverts_make(keys: KeyTable, pos: Position, i: int)
    requires
        pos.full_size(),
        pos.legal(i),
    ensures
        pos.place(i).retractable(i),
        pos.place(i).lift(i) == pos,
        zobrist(keys, pos.place(i).lift(i).cells, 225) == zobrist(keys, pos.cells, 225),
        Step::Unmake(i).toggle(
            keys,
            Step::Make(i).toggle(keys, zobrist(keys, pos.cells, 225), pos),
            pos.place(i),
        ) == zobrist(keys, pos.cells, 225),
{
    lemma_place_lift(pos, i);
    let steps = seq![Step::Make(i), Step::Unmake(i)];
    assert(steps.drop_first() =~= seq![Step::Unmake(i)]);
    assert(steps.drop_first().drop_first() =~= Seq::<Step>::empty());
    reveal_with_fuel(replay_allowed, 3);
    reveal_with_fuel(replay, 3);
    reveal_with_fuel(replay_fingerprint, 3);
    lemma_fingerprint_consistent(keys, pos, steps);
}

/// A 15 by 15 board with its stones, the player on turn, and a 64-bit
/// fingerprint of the position that every move keeps up to date.
#[derive(Debug)]
pub struct Board {
    data: Vec<Option<Stone>>,
    turn: Stone,
    hash: u64,
    cell_hashes: KeyTable,
}

impl View for Board {
    type V = Position;

    closed spec fn view(&self) -> Position {
        Position { cells: self.data@, turn: self.turn }
    }
}

impl Board {
    /// The key table that the board was made with.
    pub closed spec fn keys(&self) -> KeyTable {
        self.cell_hashes
    }

    /// The fingerprint that the board carries.
    pub closed spec fn fingerprint(&self) -> u64 {
        self.hash
    }

    /// The board is well formed: it has 225 cells, the players have
    /// alternated, and the fingerprint it carries is the one that its cells
    /// and keys give when computed from scratch.
    pub open spec fn wf(&self) -> bool {
        &&& self@.full_size()
        &&& self@.balanced()
        &&& self.fingerprint() == zobrist(self.keys(), self@.cells, 225)
    }

    /// Two boards in the same state: same cells, same turn, same keys and
    /// same fingerprint.
    pub open spec fn same(&self, other: &Board) -> bool {
        &&& self@ == other@
        &&& self.keys() == other.keys()
        &&& self.fingerprint() == other.fingerprint()
    }

    /// An empty board with freshly drawn keys; White moves first.
    pub fn new() -> (b: Board)
        ensures
            b.wf(),
            b@.turn == Stone::White,
            forall|i: int| 0 <= i < 225 ==> b@.cells[i].is_none(),
    {
        let mut cell_hashes: KeyTable = [[0u64; 3]; 225];
        let mut hash: u64 = 0;
        let ghost blank: Grid = Seq::new(225, |k: int| None);
        let mut i: usize = 0;
        while i < 225
            invariant
                i <= 225,
                hash == zobrist(cell_hashes, blank, i as nat),
                blank == Seq::new(225, |k: int| None::<Stone>),
            decreases 225 - i,
        {
            let ghost before = cell_hashes;
            let row: [u64; 3] = [random_key(), random_key(), random_key()];
            cell_hashes[i] = row;
            proof {
                lemma_zobrist_rows(before, cell_hashes, blank, i as nat);
            }
            hash = hash ^ cell_hashes[i][0];
            i += 1;
        }
        let mut data: Vec<Option<Stone>> = Vec::new();
        let mut k: usize = 0;
        while k < 225
            invariant
                k <= 225,
                data@.len() == k,
                forall|j: int| 0 <= j < k ==> data@[j].is_none(),
            decreases 225 - k,
        {
            data.push(None);
            k += 1;
        }
        proof {
            assert(data@ =~= blank);
            lemma_stones_blank(data@, Stone::White, 225);
            lemma_stones_blank(data@, Stone::Black, 225);
        }
        Board { data, turn: Stone::White, hash, cell_hashes }
    }

    /// Two well-formed boards with the same cells, turn and keys carry the
    /// same fingerprint.
    pub proof fn lemma_same(&self, other: &Board)
        requires
            self.wf(),
            other.wf(),
            self@ == other@,
            self.keys() == other.keys(),
        ensures
            self.same(other),
    {
    }

    /// The player to move next.
    pub fn turn(&self) -> (r: Stone)
        ensures
            r == self@.turn,
    {
        self.turn
    }

    /// The fingerprint of the position.
    pub fn hash(&self) -> (r: u64)
        ensures
            r == self.fingerprint(),
    {
        self.hash
    }

    /// The key table of the board.
    pub fn cell_hashes(&self) -> (r: &KeyTable)
        ensures
            *r == self.keys(),
    {
        &self.cell_hashes
    }

    /// What the cell `cp` holds.
    pub fn get(&self, cp: CellPos) -> (r: Option<Stone>)
        requires
            self.wf(),
        ensures
            r == self@.cells[cp.idx()],
    {
        self.data[cp.index()]
    }

    fn set(&mut self, cp: CellPos, stone: Option<Stone>)
        requires
            old(self)@.full_size(),
        ensures
            final(self)@.cells == old(self)@.cells.update(cp.idx(), stone),
            final(self)@.turn == old(self)@.turn,
            final(self).keys() == old(self).keys(),
            final(self).fingerprint() == old(self).fingerprint(),
    {
        let i: usize = cp.index();
        self.data[i] = stone;
    }

    /// Puts a stone of the player on turn on `cp` and passes the turn. Does
    /// nothing and answers `false` where the cell is occupied.
    pub fn make_move(&mut self, cp: CellPos) -> (done: bool)
        requires
            old(self).wf(),
        ensures
            final(self).wf(),
            final(self).keys() == old(self).keys(),
            done == old(self)@.legal(cp.idx()),
            done ==> final(self)@ == old(self)@.place(cp.idx()),
            done ==> final(self).fingerprint() == Step::Make(cp.idx()).toggle(
                old(self).keys(),
                old(self).fingerprint(),
                old(self)@,
            ),
            !done ==> final(self).same(old(self)),
    {
        if self.get(cp).is_some() {
            return false;
        }
        let i: usize = cp.index();
        let slot: usize = self.turn.key_slot();
        proof {
            lemma_zobrist_update(self.keys(), self@.cells, i as int, Some(self.turn), 225);
            lemma_stones_update(self@.cells, Stone::White, i as int, Some(self.turn), 225);
            lemma_stones_update(self@.cells, Stone::Black, i as int, Some(self.turn), 225);
        }
        self.set(cp, Some(self.turn));
        self.hash = self.hash ^ self.cell_hashes[i][0];
        self.hash = self.hash ^ self.cell_hashes[i][slot];
        self.turn = self.turn.other_side();
        true
    }

    /// Takes back the move that was made on `cp`: lifts the stone and hands
    /// the turn back to the player who had put it there.
    pub fn unmake_move(&mut self, cp: CellPos)
        requires
            old(self).wf(),
            old(self)@.retractable(cp.idx()),
        ensures
            final(self).wf(),
            final(self).keys() == old(self).keys(),
            final(self)@ == old(self)@.lift(cp.idx()),
            final(self).fingerprint() == Step::Unmake(cp.idx()).toggle(
                old(self).keys(),
                old(self).fingerprint(),
                old(self)@,
            ),
    {
        let i: usize = cp.index();
        proof {
            lemma_zobrist_update(self.keys(), self@.cells, i as int, None, 225);
            lemma_stones_update(self@.cells, Stone::White, i as int, None, 225);
            lemma_stones_update(self@.cells, Stone::Black, i as int, None, 225);
        }
        self.turn = self.turn.other_side();
        let slot: usize = self.turn.key_slot();
        self.hash = self.hash ^ self.cell_hashes[i][slot];
        self.hash = self.hash ^ self.cell_hashes[i][0];
        self.set(cp, None);
    }
}

impl core::ops::Index<CellPos> for Board {
    type Output = Option<Stone>;

    /// What the cell `index` holds.
    fn index(&self, index: CellPos) -> (r: &Option<Stone>)
        ensures
            *r == self@.cells[index.idx()],
    {
        &self.data[index.index()]
    }
}

impl vstd::std_specs::core::IndexSpecImpl<CellPos> for Board {
    open spec fn index_req(&self, index: &CellPos) -> bool {
        self.wf()
    }
}

impl Clone for Board {
    /// A board of its own in the same state.
    fn clone(&self) -> (b: Board)
        ensures
            b.same(self),
            self.wf() ==> b.wf(),
    {
        let mut data: Vec<Option<Stone>> = Vec::new();
        let mut i: usize = 0;
        while i < self.data.len()
            invariant
                i <= self.data.len(),
                data@ == self.data@.take(i as int),
            decreases self.data.len() - i,
        {
            data.push(self.data[i]);
            assert(data@ =~= self.data@.take(i + 1));
            i += 1;
        }
        assert(data@ =~= self.data@);
        Board { data, turn: self.turn, hash: self.hash, cell_hashes: self.cell_hashes }
    }
}

/// An empty grid holds no stone of any colour.
proof fn lemma_stones_blank(cells: Grid, s: Stone, n: nat)
    requires
        n <= cells.len(),
        forall|k: int| 0 <= k < n ==> cells[k].is_none(),
    ensures
        stones(cells, s, n) == 0,
    decreases n,
{
    if n > 0 {
        lemma_stones_blank(cells, s, (n - 1) as nat);
    }
}

/// The fingerprint of the first `n` cells reads only the first `n` rows of
/// the key table.
proof fn lemma_zobrist_rows(a: KeyTable, b: KeyTable, cells: Grid, n: nat)
    requires
        n <= 225,
        forall|k: int| 0 <= k < n ==> a[k] == b[k],
    ensures
        zobrist(a, cells, n) == zobrist(b, cells, n),
    decreases n,
{
    if n > 0 {
        lemma_zobrist_rows(a, b, cells, (n - 1) as nat);
    }
}

} // verus!
