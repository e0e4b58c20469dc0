//! Stones, cells and directions of the grid.

use vstd::prelude::*;

verus! {

/// Side length of the square grid.
pub const SIZE: usize = 15;

/// Number of cells of the grid.
pub const CELLS: usize = 225;

/// The colour of a stone, and with it the name of a player.
#[derive(Clone, Copy, Debug, PartialEq, Eq, Structural)]
pub enum Stone {
    Black,
    White,
}

impl Stone {
    /// The other colour.
    pub open spec fn other(self) -> Stone {
        match self {
            Stone::Black => Stone::White,
            Stone::White => Stone::Black,
        }
    }

    /// Which of a cell's three keys stands for a cell holding `content`:
    /// 0 for an empty cell, 1 for a black stone, 2 for a white one.
    pub open spec fn slot(content: Option<Stone>) -> int {
        match content {
            None => 0,
            Some(Stone::Black) => 1,
            Some(Stone::White) => 2,
        }
    }

    /// The key slot of a cell that holds this stone.
    pub fn key_slot(self) -> (r: usize)
        ensures
            r == Stone::slot(Some(self)),
    {
        match self {
            Stone::Black => 1,
            Stone::White => 2,
        }
    }

    /// The other colour.
    pub fn other_side(self) -> (r: Stone)
        ensures
            r == self.other(),
    {
        match self {
            Stone::Black => Stone::White,
            Stone::White => Stone::Black,
        }
    }

    /// The name of the colour.
    pub fn name(self) -> (r: &'static str)
        ensures
            r@ == (match self {
                Stone::Black => "Black"@,
                Stone::White => "White"@,
            }),
    {
        match self {
            Stone::Black => "Black",
            Stone::White => "White",
        }
    }
}

impl core::ops::Neg for Stone {
    type Output = Stone;

    fn neg(self) -> Stone {
        match self {
            Stone::Black => Stone::White,
            Stone::White => Stone::Black,
        }
    }
}

impl vstd::std_specs::ops::NegSpecImpl for Stone {
    open spec fn obeys_neg_spec() -> bool {
        true
    }

    open spec fn neg_req(self) -> bool {
        true
    }

    open spec fn neg_spec(self) -> Stone {
        self.other()
    }
}

/// A displacement on the grid: a unit step along one of the four axes, or a
/// multiple of one.
#[derive(Clone, Copy, Debug, PartialEq, Eq, Structural)]
pub struct Dir(pub(crate) isize, pub(crate) isize);

impl Dir {
    /// Whether `k` times the displacement `(dx, dy)` can be held: the
    /// factor and both products fit the machine's signed word.
    pub open spec fn fits(dx: int, dy: int, k: int) -> bool {
        &&& k <= isize::MAX
        &&& isize::MIN <= dx * k <= isize::MAX
        &&& isize::MIN <= dy * k <= isize::MAX
    }

    /// The displacement along the first coordinate.
    pub open(crate) spec fn dx(self) -> int {
        self.0 as int
    }

    /// The displacement along the second coordinate.
    pub open(crate) spec fn dy(self) -> int {
        self.1 as int
    }
}

impl core::ops::Neg for Dir {
    type Output = Dir;

    fn neg(self) -> Dir {
        Dir(-self.0, -self.1)
    }
}

impl vstd::std_specs::ops::NegSpecImpl for Dir {
    open spec fn obeys_neg_spec() -> bool {
        true
    }

    open(crate) spec fn neg_req(self) -> bool {
        self.0 > isize::MIN && self.1 > isize::MIN
    }

    open(crate) spec fn neg_spec(self) -> Dir {
        Dir((-self.0) as isize, (-self.1) as isize)
    }
}

/// The unit step of direction `i`, for `i` below 8. Directions `i` and
/// `i + 4` are opposite; directions 0 to 3 name the four axes.
pub open spec fn step(i: int) -> (int, int) {
    if i == 0 {
        (0, 1)
    } else if i == 1 {
        (1, 0)
    } else if i == 2 {
        (1, 1)
    } else if i == 3 {
        (1, -1)
    } else if i == 4 {
        (0, -1)
    } else if i == 5 {
        (-1, 0)
    } else if i == 6 {
        (-1, -1)
    } else {
        (-1, 1)
    }
}

/// The unit step of direction `i % 8`.
pub fn dir(i: usize) -> (r: Dir)
    ensures
        (r.dx(), r.dy()) == step((i % 8) as int),
{
    let k: usize = i % 8;
    if k == 0 {
        Dir(0, 1)
    } else if k == 1 {
        Dir(1, 0)
    } else if k == 2 {
        Dir(1, 1)
    } else if k == 3 {
        Dir(1, -1)
    } else if k == 4 {
        Dir(0, -1)
    } else if k == 5 {
        Dir(-1, 0)
    } else if k == 6 {
        Dir(-1, -1)
    } else {
        Dir(-1, 1)
    }
}

/// A cell of the grid, named by its two coordinates, both below [`SIZE`].
#[derive(Clone, Copy, Debug, PartialEq, Eq, Structural, PartialOrd, Ord, Hash)]
pub struct CellPos(pub(crate) usize, pub(crate) usize);

impl CellPos {
    #[verifier::type_invariant]
    pub open(crate) spec fn on_grid(self) -> bool {
        self.0 < SIZE && self.1 < SIZE
    }

    /// The first coordinate.
    pub open(crate) spec fn col(self) -> int {
        self.0 as int
    }

    /// The second coordinate.
    pub open(crate) spec fn row(self) -> int {
        self.1 as int
    }

    /// The place of the cell in the grid's storage: `15 * col + row`.
    pub open spec fn idx(self) -> int {
        flat(self.col(), self.row())
    }

    /// The first coordinate.
    pub fn x(self) -> (r: usize)
        ensures
            r == self.col(),
            r < SIZE,
    {
        proof {
            use_type_invariant(self);
        }
        self.0
    }

    /// The second coordinate.
    pub fn y(self) -> (r: usize)
        ensures
            r == self.row(),
            r < SIZE,
    {
        proof {
            use_type_invariant(self);
        }
        self.1
    }

    /// The place of the cell in the grid's storage.
    pub fn index(self) -> (r: usize)
        ensures
            r == self.idx(),
            r < CELLS,
            self.col() == r / 15,
            self.row() == r % 15,
    {
        proof {
            use_type_invariant(self);
        }
        self.0 * SIZE + self.1
    }

    /// The cell reached from this one by `shift`, if it lies on the grid.
    pub fn try_add(self, shift: Dir) -> (r: Option<CellPos>)
        ensures
            r.is_some() == on_board(self.col() + shift.dx(), self.row() + shift.dy()),
            r matches Some(c) ==> c == cell_at(self.col() + shift.dx(), self.row() + shift.dy()),
    {
        proof {
            use_type_invariant(self);
        }
        let x: isize = match (self.0 as isize).checked_add(shift.0) {
            Some(x) => x,
            None => {
                return None;
            },
        };
        let y: isize = match (self.1 as isize).checked_add(shift.1) {
            Some(y) => y,
            None => {
                return None;
            },
        };
        if x < 0 || x >= 15 || y < 0 || y >= 15 {
            None
        } else {
            Some(cell(x as usize, y as usize))
        }
    }
}

/// Whether the coordinates `(x, y)` name a cell of the grid.
pub open spec fn on_board(x: int, y: int) -> bool {
    0 <= x < 15 && 0 <= y < 15
}

/// The place in the grid's storage of the cell `(x, y)`.
pub open spec fn flat(x: int, y: int) -> int {
    15 * x + y
}

/// The cell with coordinates `x` and `y`.
pub fn cell(x: usize, y: usize) -> (r: CellPos)
    requires
        x < SIZE,
        y < SIZE,
    ensures
        r == cell_at(x as int, y as int),
{
    CellPos(x, y)
}

/// The cell with coordinates `x` and `y`, as a value of specifications.
pub open(crate) spec fn cell_at(x: int, y: int) -> CellPos {
    CellPos(x as usize, y as usize)
}

impl core::ops::Mul<usize> for Dir {
    type Output = Dir;

    fn mul(self, rhs: usize) -> Dir {
        Dir(self.0 * (rhs as isize), self.1 * (rhs as isize))
    }
}

impl vstd::std_specs::ops::MulSpecImpl<usize> for Dir {
    open spec fn obeys_mul_spec() -> bool {
        true
    }

    open(crate) spec fn mul_req(self, rhs: usize) -> bool {
        Dir::fits(self.0 as int, self.1 as int, rhs as int)
    }

    open(crate) spec fn mul_spec(self, rhs: usize) -> Dir {
        Dir((self.0 * rhs) as isize, (self.1 * rhs) as isize)
    }
}

impl core::ops::Mul<Dir> for usize {
    type Output = Dir;

    fn mul(self, rhs: Dir) -> Dir {
        rhs * self
    }
}

impl vstd::std_specs::ops::MulSpecImpl<Dir> for usize {
    open spec fn obeys_mul_spec() -> bool {
        true
    }

    open(crate) spec fn mul_req(self, rhs: Dir) -> bool {
        Dir::fits(rhs.0 as int, rhs.1 as int, self as int)
    }

    open(crate) spec fn mul_spec(self, rhs: Dir) -> Dir {
        Dir((rhs.0 * self) as isize, (rhs.1 * self) as isize)
    }
}

} // verus!
