use vstd::prelude::*;

use crate::pieces::{type_color, PieceType};

verus! {

/// Number of rows of the grid.
pub const ROWS: usize = 20;

/// Number of columns of the grid.
pub const COLS: usize = 10;

/// Whether a (row, column) coordinate lies on the grid.
pub open spec fn in_grid(c: (int, int)) -> bool {
    0 <= c.0 < ROWS as int && 0 <= c.1 < COLS as int
}

/// Whether one of the four cells of a footprint is `c`.
pub open spec fn covers(fp: Seq<(int, int)>, c: (int, int)) -> bool {
    c == fp[0] || c == fp[1] || c == fp[2] || c == fp[3]
}

/// The color that marks an empty cell.
pub open spec fn empty_color() -> (u8, u8, u8) {
    (255, 255, 255)
}

/// One grid cell: empty, or filled by a piece of some type.
#[derive(Clone, Copy, Debug, PartialEq, Eq, Structural)]
pub enum Cell {
    Empty,
    Filled(PieceType),
}

impl Cell {
    pub open spec fn occupied(self) -> bool {
        self is Filled
    }

    pub open spec fn color_spec(self) -> (u8, u8, u8) {
        match self {
            Cell::Empty => empty_color(),
            Cell::Filled(t) => type_color(t),
        }
    }

    /// Whether the cell holds a block.
    pub fn is_occupied(&self) -> (b: bool)
        ensures
            b == self.occupied(),
    {
        match self {
            Cell::Empty => false,
            Cell::Filled(_) => true,
        }
    }

    /// The cell's color: the piece's color, or white when empty.
    pub fn color(&self) -> (c: (u8, u8, u8))
        ensures
            c == self.color_spec(),
    {
        match self {
            Cell::Empty => (255, 255, 255),
            Cell::Filled(t) => t.color(),
        }
    }
}

/// A row is full when every one of its cells is filled.
pub open spec fn row_full(row: [Cell; 10]) -> bool {
    forall|c: int| 0 <= c < COLS as int ==> (#[trigger] row@[c]).occupied()
}

/// The 20 x 10 playing field.
#[derive(Clone, Copy, Debug)]
pub struct Board {
    pub cells: [[Cell; 10]; 20],
}

impl Board {
    /// The cell at a grid coordinate.
    pub open spec fn at(self, c: (int, int)) -> Cell {
        self.cells@[c.0]@[c.1]
    }

    /// Every cell is empty.
    pub open spec fn is_clear(self) -> bool {
        forall|p: (int, int)| in_grid(p) ==> #[trigger] self.at(p) == Cell::Empty
    }

    /// `c` may be taken by a piece whose current footprint is `live`: it is on
    /// the grid, and empty or already the piece's own.
    pub open spec fn free_for(self, live: Seq<(int, int)>, c: (int, int)) -> bool {
        in_grid(c) && (self.at(c) == Cell::Empty || covers(live, c))
    }

    /// Every cell of `target` is free for the piece on `live`.
    pub open spec fn open_for(self, live: Seq<(int, int)>, target: Seq<(int, int)>) -> bool {
        self.free_for(live, target[0]) && self.free_for(live, target[1]) && self.free_for(
            live,
            target[2],
        ) && self.free_for(live, target[3])
    }

    /// `after` is `before` with the footprint `live` lifted off and `target`
    /// written with type `t`.
    pub open spec fn moved(
        before: Board,
        after: Board,
        live: Seq<(int, int)>,
        target: Seq<(int, int)>,
        t: PieceType,
    ) -> bool {
        forall|p: (int, int)|
            in_grid(p) ==> #[trigger] after.at(p) == if covers(target, p) {
                Cell::Filled(t)
            } else if covers(live, p) {
                Cell::Empty
            } else {
                before.at(p)
            }
    }

    /// `after` is `before` with the footprint `fp` emptied.
    pub open spec fn lifted(before: Board, after: Board, fp: Seq<(int, int)>) -> bool {
        forall|p: (int, int)|
            in_grid(p) ==> #[trigger] after.at(p) == if covers(fp, p) {
                Cell::Empty
            } else {
                before.at(p)
            }
    }

    /// `after` is `before` with each empty cell of `fp` filled with type `t`;
    /// filled cells keep what they hold.
    pub open spec fn stamped(before: Board, after: Board, fp: Seq<(int, int)>, t: PieceType) -> bool {
        forall|p: (int, int)|
            in_grid(p) ==> #[trigger] after.at(p) == if covers(fp, p) && before.at(p)
                == Cell::Empty {
                Cell::Filled(t)
            } else {
                before.at(p)
            }
    }

    /// Every cell of the footprint `fp` is empty.
    pub open spec fn vacant(self, fp: Seq<(int, int)>) -> bool {
        &&& self.at(fp[0]) == Cell::Empty
        &&& self.at(fp[1]) == Cell::Empty
        &&& self.at(fp[2]) == Cell::Empty
        &&& self.at(fp[3]) == Cell::Empty
    }

    /// An empty board.
    pub fn new() -> (b: Board)
        ensures
            b.is_clear(),
    {
        Board { cells: [[Cell::Empty; 10]; 20] }
    }

    /// The cell at row `r`, column `c`.
    pub fn get(&self, r: usize, c: usize) -> (x: Cell)
        requires
            r < ROWS,
            c < COLS,
        ensures
            x == self.at((r as int, c as int)),
    {
        self.cells[r][c]
    }

    /// Writes the cell at row `r`, column `c`.
    pub fn set(&mut self, r: usize, c: usize, x: Cell)
        requires
            r < ROWS,
            c < COLS,
        ensures
            forall|p: (int, int)|
                in_grid(p) ==> #[trigger] final(self).at(p) == if p == (r as int, c as int) {
                    x
                } else {
                    old(self).at(p)
                },
    {
        let mut row = self.cells[r];
        row[c] = x;
        self.cells[r] = row;
    }
}

/// A cell is occupied exactly when its color is not the empty color, on
/// every board.
pub proof fn lemma_occupied_iff_colored(b: Board, p: (int, int))
    ensures
        b.at(p).occupied() <==> b.at(p).color_spec() != empty_color(),
{
}

/// After a valid move from `f0` to `f1`, the cells free for the piece on
/// `f1` are those that were free for it on `f0`.
pub proof fn lemma_moved_free(
    b0: Board,
    b1: Board,
    f0: Seq<(int, int)>,
    f1: Seq<(int, int)>,
    t: PieceType,
    c: (int, int),
)
    requires
        b0.open_for(f0, f1),
        Board::moved(b0, b1, f0, f1, t),
    ensures
        b1.free_for(f1, c) == b0.free_for(f0, c),
{
    if in_grid(c) {
        assert(b1.at(c) == b1.at(c));
    }
}

/// Two valid moves in a row are one move.
pub proof fn lemma_moved_compose(
    b0: Board,
    b1: Board,
    b2: Board,
    f0: Seq<(int, int)>,
    f1: Seq<(int, int)>,
    f2: Seq<(int, int)>,
    t: PieceType,
)
    requires
        b0.open_for(f0, f1),
        Board::moved(b0, b1, f0, f1, t),
        Board::moved(b1, b2, f1, f2, t),
    ensures
        Board::moved(b0, b2, f0, f2, t),
{
    assert forall|p: (int, int)| in_grid(p) implies #[trigger] b2.at(p) == if covers(f2, p) {
        Cell::Filled(t)
    } else if covers(f0, p) {
        Cell::Empty
    } else {
        b0.at(p)
    } by {
        assert(b1.at(p) == b1.at(p));
    }
}

} // verus!
