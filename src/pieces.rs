use vstd::prelude::*;

use rand::seq::SliceRandom;
use vstd::multiset::Multiset;
use vstd::seq_lib::{lemma_multiset_commutative, to_multiset_build, to_multiset_update};

use crate::board::{covers, in_grid, lemma_moved_compose, lemma_moved_free, Board, Cell, COLS, ROWS};
use crate::config::Config;
use crate::game::{clear_points, full_rows, level_for, rows_cleared, MainGame, COUNT_LIMIT};

verus! {

/// The seven piece types.
#[derive(Clone, Copy, Debug, PartialEq, Eq, Structural)]
pub enum PieceType {
    I,
    L,
    J,
    S,
    Z,
    O,
    T,
}

/// Display color of a piece type.
pub open spec fn type_color(t: PieceType) -> (u8, u8, u8) {
    match t {
        PieceType::I => (0, 255, 255),
        PieceType::L => (255, 127, 0),
        PieceType::J => (0, 0, 255),
        PieceType::S => (0, 255, 0),
        PieceType::Z => (255, 0, 0),
        PieceType::O => (255, 255, 0),
        PieceType::T => (128, 0, 128),
    }
}

/// Position of a piece type in the per-type spawn counters.
pub open spec fn type_index(t: PieceType) -> int {
    match t {
        PieceType::I => 0,
        PieceType::L => 1,
        PieceType::J => 2,
        PieceType::S => 3,
        PieceType::Z => 4,
        PieceType::O => 5,
        PieceType::T => 6,
    }
}

/// Pieces whose rotation-0 shape leaves an overhang: never dealt first when
/// the configuration asks for it.
pub open spec fn overhangs(t: PieceType) -> bool {
    t == PieceType::S || t == PieceType::Z || t == PieceType::O
}

/// The four cell offsets (row, column) of a piece type at a rotation index.
pub open spec fn shape(t: PieceType, r: int) -> Seq<(int, int)> {
    match t {
        PieceType::I => if r % 2 == 0 {
            seq![(0, 0), (0, 1), (0, 2), (0, 3)]
        } else {
            seq![(0, 0), (1, 0), (2, 0), (3, 0)]
        },
        PieceType::L => if r == 0 {
            seq![(1, 1), (1, 0), (1, 2), (0, 2)]
        } else if r == 1 {
            seq![(0, 0), (1, 0), (2, 0), (2, 1)]
        } else if r == 2 {
            seq![(0, 0), (0, 1), (0, 2), (1, 0)]
        } else {
            seq![(0, 0), (0, 1), (1, 1), (2, 1)]
        },
        PieceType::J => if r == 0 {
            seq![(0, 0), (1, 0), (1, 1), (1, 2)]
        } else if r == 1 {
            seq![(0, 0), (0, 1), (1, 0), (2, 0)]
        } else if r == 2 {
            seq![(0, 0), (0, 1), (0, 2), (1, 2)]
        } else {
            seq![(0, 1), (1, 1), (2, 1), (2, 0)]
        },
        PieceType::S => if r % 2 == 0 {
            seq![(1, 0), (1, 1), (0, 1), (0, 2)]
        } else {
            seq![(0, 0), (1, 0), (1, 1), (2, 1)]
        },
        PieceType::Z => if r % 2 == 0 {
            seq![(0, 0), (0, 1), (1, 1), (1, 2)]
        } else {
            seq![(1, 0), (2, 0), (0, 1), (1, 1)]
        },
        PieceType::O => seq![(0, 0), (0, 1), (1, 0), (1, 1)],
        PieceType::T => if r == 0 {
            seq![(1, 0), (1, 1), (0, 1), (1, 2)]
        } else if r == 1 {
            seq![(0, 0), (1, 0), (2, 0), (1, 1)]
        } else if r == 2 {
            seq![(0, 0), (0, 1), (0, 2), (1, 1)]
        } else {
            seq![(1, 0), (0, 1), (1, 1), (2, 1)]
        },
    }
}

/// The board cells covered by a piece type at a rotation index and anchor.
pub open spec fn cells_at(t: PieceType, r: int, row: int, col: int) -> Seq<(int, int)> {
    Seq::new(4, |i: int| (row + shape(t, r)[i].0, col + shape(t, r)[i].1))
}

/// One cell offset of the shape table, computed.
fn shape_cell(t: PieceType, r: usize, i: usize) -> (c: (usize, usize))
    requires
        r < 4,
        i < 4,
    ensures
        (c.0 as int, c.1 as int) == shape(t, r as int)[i as int],
        c.0 < 4 && c.1 < 4,
{
    let a: [(usize, usize); 4] = match t {
        PieceType::I => if r % 2 == 0 {
            [(0, 0), (0, 1), (0, 2), (0, 3)]
        } else {
            [(0, 0), (1, 0), (2, 0), (3, 0)]
        },
        PieceType::L => if r == 0 {
            [(1, 1), (1, 0), (1, 2), (0, 2)]
        } else if r == 1 {
            [(0, 0), (1, 0), (2, 0), (2, 1)]
        } else if r == 2 {
            [(0, 0), (0, 1), (0, 2), (1, 0)]
        } else {
            [(0, 0), (0, 1), (1, 1), (2, 1)]
        },
        PieceType::J => if r == 0 {
            [(0, 0), (1, 0), (1, 1), (1, 2)]
        } else if r == 1 {
            [(0, 0), (0, 1), (1, 0), (2, 0)]
        } else if r == 2 {
            [(0, 0), (0, 1), (0, 2), (1, 2)]
        } else {
            [(0, 1), (1, 1), (2, 1), (2, 0)]
        },
        PieceType::S => if r % 2 == 0 {
            [(1, 0), (1, 1), (0, 1), (0, 2)]
        } else {
            [(0, 0), (1, 0), (1, 1), (2, 1)]
        },
        PieceType::Z => if r % 2 == 0 {
            [(0, 0), (0, 1), (1, 1), (1, 2)]
        } else {
            [(1, 0), (2, 0), (0, 1), (1, 1)]
        },
        PieceType::O => [(0, 0), (0, 1), (1, 0), (1, 1)],
        PieceType::T => if r == 0 {
            [(1, 0), (1, 1), (0, 1), (1, 2)]
        } else if r == 1 {
            [(0, 0), (1, 0), (2, 0), (1, 1)]
        } else if r == 2 {
            [(0, 0), (0, 1), (0, 2), (1, 1)]
        } else {
            [(1, 0), (0, 1), (1, 1), (2, 1)]
        },
    };
    a[i]
}


/// A piece: its type, rotation index and anchor (row, column).
#[derive(Clone, Copy, Debug, PartialEq, Eq)]
pub struct Piece {
    pub piece_type: PieceType,
    pub offset: (usize, usize),
    pub rotations: usize,
}

/// The rotation index after one turn.
pub open spec fn next_rotation(r: int, clockwise: bool) -> int {
    if clockwise {
        (r + 1) % 4
    } else {
        (r + 3) % 4
    }
}

impl PieceType {
    /// The display color of this type.
    pub fn color(&self) -> (c: (u8, u8, u8))
        ensures
            c == type_color(*self),
    {
        match self {
            PieceType::I => (0, 255, 255),
            PieceType::L => (255, 127, 0),
            PieceType::J => (0, 0, 255),
            PieceType::S => (0, 255, 0),
            PieceType::Z => (255, 0, 0),
            PieceType::O => (255, 255, 0),
            PieceType::T => (128, 0, 128),
        }
    }
}

impl Piece {
    /// The board cells the piece covers.
    pub open spec fn cells(self) -> Seq<(int, int)> {
        cells_at(self.piece_type, self.rotations as int, self.offset.0 as int, self.offset.1 as int)
    }

    /// A valid rotation index, and every covered cell on the grid.
    pub open spec fn placed(self) -> bool {
        &&& self.rotations < 4
        &&& in_grid(self.cells()[0])
        &&& in_grid(self.cells()[1])
        &&& in_grid(self.cells()[2])
        &&& in_grid(self.cells()[3])
    }

    /// The piece turned back to rotation 0 at the same anchor.
    pub open spec fn upright(self) -> Piece {
        Piece { rotations: 0, ..self }
    }

    /// The cells a spawn of the piece covers: its rotation-0 shape at its
    /// anchor.
    pub open spec fn spawn_cells(self) -> Seq<(int, int)> {
        self.upright().cells()
    }

    /// The cells the piece would cover one row lower.
    pub open spec fn below(self) -> Seq<(int, int)> {
        cells_at(
            self.piece_type,
            self.rotations as int,
            self.offset.0 + 1,
            self.offset.1 as int,
        )
    }

    /// A fresh piece of type `t`.
    pub open spec fn fresh(t: PieceType) -> Piece {
        Piece { piece_type: t, offset: (0, 3), rotations: 0 }
    }

    /// The display color of the piece.
    pub fn color(&self) -> (c: (u8, u8, u8))
        ensures
            c == type_color(self.piece_type),
    {
        self.piece_type.color()
    }

    /// The `i`-th covered cell.
    fn block(&self, i: usize) -> (c: (usize, usize))
        requires
            self.rotations < 4,
            i < 4,
            self.offset.0 <= ROWS,
            self.offset.1 <= COLS,
        ensures
            (c.0 as int, c.1 as int) == self.cells()[i as int],
            c.0 < ROWS + 4,
            c.1 < COLS + 4,
    {
        let d = shape_cell(self.piece_type, self.rotations, i);
        (self.offset.0 + d.0, self.offset.1 + d.1)
    }

    /// Whether the piece covers `c`.
    pub(crate) fn covers_cell(&self, c: (usize, usize)) -> (b: bool)
        requires
            self.placed(),
        ensures
            b == covers(self.cells(), (c.0 as int, c.1 as int)),
    {
        let b0 = self.block(0);
        let b1 = self.block(1);
        let b2 = self.block(2);
        let b3 = self.block(3);
        (c.0 == b0.0 && c.1 == b0.1) || (c.0 == b1.0 && c.1 == b1.1) || (c.0 == b2.0 && c.1 == b2.1)
            || (c.0 == b3.0 && c.1 == b3.1)
    }
}

/// Whether `c` is free for the piece `live`.
fn cell_free(board: &Board, live: &Piece, c: (usize, usize)) -> (ok: bool)
    requires
        live.placed(),
    ensures
        ok == board.free_for(live.cells(), (c.0 as int, c.1 as int)),
{
    if c.0 >= ROWS || c.1 >= COLS {
        return false;
    }
    board.get(c.0, c.1) == Cell::Empty || live.covers_cell(c)
}

/// Whether `cand` may replace `live` on the board.
fn fits(board: &Board, live: &Piece, cand: &Piece) -> (ok: bool)
    requires
        live.placed(),
        cand.rotations < 4,
        cand.offset.0 <= ROWS,
        cand.offset.1 <= COLS,
    ensures
        ok == board.open_for(live.cells(), cand.cells()),
{
    cell_free(board, live, cand.block(0)) && cell_free(board, live, cand.block(1)) && cell_free(
        board,
        live,
        cand.block(2),
    ) && cell_free(board, live, cand.block(3))
}

/// Empties the cells covered by `p`.
fn lift(board: &mut Board, p: &Piece)
    requires
        p.placed(),
    ensures
        Board::lifted(*old(board), *final(board), p.cells()),
{
    let b0 = p.block(0);
    let b1 = p.block(1);
    let b2 = p.block(2);
    let b3 = p.block(3);
    board.set(b0.0, b0.1, Cell::Empty);
    board.set(b1.0, b1.1, Cell::Empty);
    board.set(b2.0, b2.1, Cell::Empty);
    board.set(b3.0, b3.1, Cell::Empty);
}

/// Fills the cells covered by `p` with its type.
fn fill(board: &mut Board, p: &Piece)
    requires
        p.placed(),
    ensures
        forall|q: (int, int)|
            in_grid(q) ==> #[trigger] final(board).at(q) == if covers(p.cells(), q) {
                Cell::Filled(p.piece_type)
            } else {
                old(board).at(q)
            },
{
    let b0 = p.block(0);
    let b1 = p.block(1);
    let b2 = p.block(2);
    let b3 = p.block(3);
    let x = Cell::Filled(p.piece_type);
    board.set(b0.0, b0.1, x);
    board.set(b1.0, b1.1, x);
    board.set(b2.0, b2.1, x);
    board.set(b3.0, b3.1, x);
}

/// Moves the piece `live` on the board to the place of `cand`.
fn relocate(board: &mut Board, live: &Piece, cand: &Piece)
    requires
        live.placed(),
        cand.placed(),
        cand.piece_type == live.piece_type,
    ensures
        Board::moved(*old(board), *final(board), live.cells(), cand.cells(), live.piece_type),
{
    lift(board, live);
    fill(board, cand);
}


/// Every shape has a cell in its leftmost column.
proof fn lemma_left_column(t: PieceType, r: int)
    requires
        0 <= r < 4,
    ensures
        shape(t, r)[0].1 == 0 || shape(t, r)[1].1 == 0 || shape(t, r)[2].1 == 0 || shape(t, r)[3].1
            == 0,
{
}

impl Piece {
    /// A fresh I piece.
    pub fn get_i_piece() -> (p: Piece)
        ensures
            p == Piece::fresh(PieceType::I),
    {
        Piece { piece_type: PieceType::I, offset: (0, 3), rotations: 0 }
    }

    /// A fresh L piece.
    pub fn get_l_piece() -> (p: Piece)
        ensures
            p == Piece::fresh(PieceType::L),
    {
        Piece { piece_type: PieceType::L, offset: (0, 3), rotations: 0 }
    }

    /// A fresh J piece.
    pub fn get_j_piece() -> (p: Piece)
        ensures
            p == Piece::fresh(PieceType::J),
    {
        Piece { piece_type: PieceType::J, offset: (0, 3), rotations: 0 }
    }

    /// A fresh S piece.
    pub fn get_s_piece() -> (p: Piece)
        ensures
            p == Piece::fresh(PieceType::S),
    {
        Piece { piece_type: PieceType::S, offset: (0, 3), rotations: 0 }
    }

    /// A fresh Z piece.
    pub fn get_z_piece() -> (p: Piece)
        ensures
            p == Piece::fresh(PieceType::Z),
    {
        Piece { piece_type: PieceType::Z, offset: (0, 3), rotations: 0 }
    }

    /// A fresh O piece.
    pub fn get_o_piece() -> (p: Piece)
        ensures
            p == Piece::fresh(PieceType::O),
    {
        Piece { piece_type: PieceType::O, offset: (0, 3), rotations: 0 }
    }

    /// A fresh T piece.
    pub fn get_t_piece() -> (p: Piece)
        ensures
            p == Piece::fresh(PieceType::T),
    {
        Piece { piece_type: PieceType::T, offset: (0, 3), rotations: 0 }
    }

    /// A fresh piece of the given type.
    pub fn of_type(t: PieceType) -> (p: Piece)
        ensures
            p == Piece::fresh(t),
            p.placed(),
    {
        match t {
            PieceType::I => Self::get_i_piece(),
            PieceType::L => Self::get_l_piece(),
            PieceType::J => Self::get_j_piece(),
            PieceType::S => Self::get_s_piece(),
            PieceType::Z => Self::get_z_piece(),
            PieceType::O => Self::get_o_piece(),
            PieceType::T => Self::get_t_piece(),
        }
    }

    /// Rotates the piece a quarter turn, clockwise or counter-clockwise, if
    /// every target cell is on the grid and free. Returns whether it did.
    pub fn rotate_piece(piece: &mut Piece, board: &mut Board, clockwise: bool) -> (ok: bool)
        requires
            old(piece).placed(),
        ensures
            ok == old(board).open_for(
                old(piece).cells(),
                cells_at(
                    old(piece).piece_type,
                    next_rotation(old(piece).rotations as int, clockwise),
                    old(piece).offset.0 as int,
                    old(piece).offset.1 as int,
                ),
            ),
            ok ==> *final(piece) == (Piece {
                rotations: next_rotation(old(piece).rotations as int, clockwise) as usize,
                ..*old(piece)
            }),
            ok ==> Board::moved(
                *old(board),
                *final(board),
                old(piece).cells(),
                final(piece).cells(),
                old(piece).piece_type,
            ),
            !ok ==> *final(piece) == *old(piece),
            !ok ==> *final(board) == *old(board),
            final(piece).placed(),
    {
        let r = if clockwise {
            if piece.rotations == 3 {
                0
            } else {
                piece.rotations + 1
            }
        } else {
            if piece.rotations == 0 {
                3
            } else {
                piece.rotations - 1
            }
        };
        assert(r as int == next_rotation(piece.rotations as int, clockwise));
        let cand = Piece { rotations: r, ..*piece };
        if !fits(board, piece, &cand) {
            return false;
        }
        relocate(board, piece, &cand);
        *piece = cand;
        true
    }

    /// Moves the piece one column left if every target cell is on the grid and
    /// free. Returns whether it did.
    pub fn move_piece_left(piece: &mut Piece, board: &mut Board) -> (ok: bool)
        requires
            old(piece).placed(),
        ensures
            ok == old(board).open_for(
                old(piece).cells(),
                cells_at(
                    old(piece).piece_type,
                    old(piece).rotations as int,
                    old(piece).offset.0 as int,
                    old(piece).offset.1 - 1,
                ),
            ),
            ok ==> *final(piece) == (Piece {
                offset: (old(piece).offset.0, (old(piece).offset.1 - 1) as usize),
                ..*old(piece)
            }),
            ok ==> Board::moved(
                *old(board),
                *final(board),
                old(piece).cells(),
                final(piece).cells(),
                old(piece).piece_type,
            ),
            !ok ==> *final(piece) == *old(piece),
            !ok ==> *final(board) == *old(board),
            final(piece).placed(),
    {
        if piece.offset.1 == 0 {
            proof {
                lemma_left_column(piece.piece_type, piece.rotations as int);
            }
            return false;
        }
        let cand = Piece { offset: (piece.offset.0, piece.offset.1 - 1), ..*piece };
        if !fits(board, piece, &cand) {
            return false;
        }
        relocate(board, piece, &cand);
        *piece = cand;
        true
    }

    /// Moves the piece one column right if every target cell is on the grid
    /// and free. Returns whether it did.
    pub fn move_piece_right(piece: &mut Piece, board: &mut Board) -> (ok: bool)
        requires
            old(piece).placed(),
        ensures
            ok == old(board).open_for(
                old(piece).cells(),
                cells_at(
                    old(piece).piece_type,
                    old(piece).rotations as int,
                    old(piece).offset.0 as int,
                    old(piece).offset.1 + 1,
                ),
            ),
            ok ==> *final(piece) == (Piece {
                offset: (old(piece).offset.0, (old(piece).offset.1 + 1) as usize),
                ..*old(piece)
            }),
            ok ==> Board::moved(
                *old(board),
                *final(board),
                old(piece).cells(),
                final(piece).cells(),
                old(piece).piece_type,
            ),
            !ok ==> *final(piece) == *old(piece),
            !ok ==> *final(board) == *old(board),
            final(piece).placed(),
    {
        let cand = Piece { offset: (piece.offset.0, piece.offset.1 + 1), ..*piece };
        if !fits(board, piece, &cand) {
            return false;
        }
        relocate(board, piece, &cand);
        *piece = cand;
        true
    }
}


/// The seven types, once each, in catalog order.
pub open spec fn all_types() -> Seq<PieceType> {
    seq![
        PieceType::I,
        PieceType::L,
        PieceType::J,
        PieceType::S,
        PieceType::Z,
        PieceType::O,
        PieceType::T,
    ]
}

/// `n` copies of the seven types, unshuffled.
pub open spec fn full_bag(n: nat) -> Seq<PieceType>
    decreases n,
{
    if n == 0 {
        Seq::empty()
    } else {
        full_bag((n - 1) as nat) + all_types()
    }
}

/// `s` is a freshly generated bag for `config`, as dealt from its end: a
/// permutation of `config.bags()` copies of the seven types, whose last item
/// is no S, Z or O when first-piece fairness applies.
pub open spec fn refilled(config: Config, first_bag: bool, s: Seq<PieceType>) -> bool {
    &&& s.to_multiset() == full_bag(config.bags()).to_multiset()
    &&& s.len() == 7 * config.bags()
    &&& (first_bag && config.first_piece_no_overhang) ==> !overhangs(s.last())
}

/// One deal of the modern randomizer: pop the last pending type, after
/// refilling an empty bag.
pub open spec fn bag_dealt(
    config: Config,
    first_bag: bool,
    bag0: Seq<PieceType>,
    bag1: Seq<PieceType>,
    t: PieceType,
) -> bool {
    if bag0.len() > 0 {
        t == bag0.last() && bag1 == bag0.drop_last()
    } else {
        refilled(config, first_bag, bag1.push(t))
    }
}

/// One deal of the randomizer in the mode `config` selects: a fresh piece;
/// the bag is untouched in classic mode.
pub open spec fn dealt(
    config: Config,
    first_bag: bool,
    bag0: Seq<PieceType>,
    bag1: Seq<PieceType>,
    p: Piece,
) -> bool {
    &&& p == Piece::fresh(p.piece_type)
    &&& if config.modern_piece_rng {
        bag_dealt(config, first_bag, bag0, bag1, p.piece_type)
    } else {
        bag1 == bag0
    }
}

/// `j` is the last position of `s` holding a type other than S, Z and O.
pub open spec fn fair_index(s: Seq<PieceType>, j: int) -> bool {
    &&& 0 <= j < s.len()
    &&& !overhangs(s[j])
    &&& forall|k: int| j < k < s.len() ==> overhangs(#[trigger] s[k])
}

/// A bag of `n` copies holds each type `n` times.
pub proof fn lemma_full_bag_count(n: nat, t: PieceType)
    ensures
        full_bag(n).to_multiset().count(t) == n,
        full_bag(n).len() == 7 * n,
    decreases n,
{
    broadcast use to_multiset_build, vstd::multiset::group_multiset_axioms;

    let e = Seq::<PieceType>::empty();
    assert(e.to_multiset() =~= Multiset::empty()) by {
        e.to_multiset_ensures();
        vstd::multiset::lemma_multiset_empty_len(e.to_multiset());
    }
    if n == 0 {
        assert(full_bag(n) =~= e);
    } else {
        lemma_full_bag_count((n - 1) as nat, t);
        lemma_multiset_commutative(full_bag((n - 1) as nat), all_types());
        let s1 = e.push(PieceType::I);
        let s2 = s1.push(PieceType::L);
        let s3 = s2.push(PieceType::J);
        let s4 = s3.push(PieceType::S);
        let s5 = s4.push(PieceType::Z);
        let s6 = s5.push(PieceType::O);
        let s7 = s6.push(PieceType::T);
        assert(all_types() =~= s7);
        assert(s7.to_multiset().count(t) == 1);
    }
}

/// A deal takes from a non-empty bag without refilling it; a refill holds
/// `7 * bags` pieces, each type `bags` times; and the first piece dealt from
/// a first bag with fairness on is no S, Z or O.
pub proof fn lemma_bag_law(
    config: Config,
    first_bag: bool,
    bag0: Seq<PieceType>,
    bag1: Seq<PieceType>,
    t: PieceType,
)
    requires
        bag_dealt(config, first_bag, bag0, bag1, t),
    ensures
        bag0.len() > 0 ==> bag1 == bag0.drop_last() && t == bag0.last(),
        bag0.len() == 0 ==> bag1.push(t).len() == 7 * config.bags(),
        bag0.len() == 0 ==> forall|u: PieceType|
            #[trigger] bag1.push(t).to_multiset().count(u) == config.bags(),
        bag0.len() == 0 && first_bag && config.first_piece_no_overhang ==> !overhangs(t),
{
    if bag0.len() == 0 {
        assert forall|u: PieceType| #[trigger] bag1.push(t).to_multiset().count(u) == config.bags() by {
            lemma_full_bag_count(config.bags(), u);
        }
        assert(bag1.push(t).last() == t);
    }
}

/// Relies on rand's `SliceRandom::shuffle` (a pass of swaps): the items are
/// permuted.
#[verifier::external_body]
fn shuffle_bag(bag: &mut Vec<PieceType>)
    ensures
        final(bag)@.to_multiset() == old(bag)@.to_multiset(),
        final(bag)@.len() == old(bag)@.len(),
{
    bag.shuffle(&mut rand::thread_rng());
}

/// Relies on rand's `SliceRandom::choose`: `None` only for an empty slice,
/// otherwise one of its items.
#[verifier::external_body]
fn choose_type(kinds: &[PieceType]) -> (r: Option<PieceType>)
    ensures
        r is Some <==> kinds@.len() > 0,
        r matches Some(t) ==> kinds@.contains(t),
{
    kinds.choose(&mut rand::thread_rng()).copied()
}

impl Piece {
    /// Makes the item dealt next from `bag` (its last) an I, L, J or T by
    /// swapping it with the last such item, if the bag has one.
    pub fn avoid_first_overhang(bag: &mut Vec<PieceType>)
        ensures
            final(bag)@.to_multiset() == old(bag)@.to_multiset(),
            final(bag)@.len() == old(bag)@.len(),
            (forall|k: int| 0 <= k < old(bag)@.len() ==> overhangs(#[trigger] old(bag)@[k]))
                ==> final(bag)@ == old(bag)@,
            forall|j: int|
                fair_index(old(bag)@, j) ==> final(bag)@ == old(bag)@.update(
                    j,
                    old(bag)@.last(),
                ).update(old(bag)@.len() - 1, #[trigger] old(bag)@[j]),
            (exists|k: int| 0 <= k < old(bag)@.len() && !overhangs(#[trigger] old(bag)@[k]))
                ==> !overhangs(final(bag)@.last()),
    {
        let len = bag.len();
        let mut i = len;
        while i > 0
            invariant
                i <= len == bag@.len(),
                bag@ == old(bag)@,
                forall|k: int| i <= k < len ==> overhangs(#[trigger] bag@[k]),
            decreases i,
        {
            let t = bag[i - 1];
            if !(t == PieceType::S || t == PieceType::Z || t == PieceType::O) {
                let last = bag[len - 1];
                let ghost s = bag@;
                bag.set(i - 1, last);
                bag.set(len - 1, t);
                proof {
                    let j = i - 1;
                    assert(fair_index(s, j));
                    assert forall|j2: int| fair_index(s, j2) implies j2 == j by {
                        if j2 < j {
                            assert(overhangs(s[j]));
                        } else if j2 > j {
                            assert(overhangs(s[j2]));
                        }
                    }
                    broadcast use to_multiset_update, vstd::multiset::group_multiset_axioms;

                    let a = s.last();
                    let b = s[j];
                    let s1 = s.update(j, a);
                    assert(bag@ == s1.update(len - 1, b));
                    s.to_multiset_ensures();
                    s1.to_multiset_ensures();
                    assert(s.contains(b));
                    assert(s1[len - 1] == a);
                    assert(s1.contains(a));
                    assert(s1.to_multiset() == s.to_multiset().insert(a).remove(b));
                    assert(bag@.to_multiset() == s1.to_multiset().insert(b).remove(a));
                    assert(bag@.to_multiset() =~= s.to_multiset());
                }
                return;
            }
            i -= 1;
        }
        proof {
            assert forall|j: int| !fair_index(old(bag)@, j) by {
                if 0 <= j < len {
                    assert(overhangs(old(bag)@[j]));
                }
            }
        }
    }

    /// A new bag: `config.bags()` copies of the seven types, shuffled; with
    /// `first_bag` and first-piece fairness on, the item dealt first is no S,
    /// Z or O.
    pub fn get_new_piece_bag(config: Config, first_bag: bool) -> (bag: Vec<PieceType>)
        ensures
            refilled(config, first_bag, bag@),
    {
        let n: u8 = if config.bag_amount < 1 {
            1
        } else {
            config.bag_amount
        };
        let mut bag: Vec<PieceType> = Vec::new();
        let mut k: u8 = 0;
        while k < n
            invariant
                k <= n,
                n as nat == config.bags(),
                bag@ == full_bag(k as nat),
            decreases n - k,
        {
            bag.push(PieceType::I);
            bag.push(PieceType::L);
            bag.push(PieceType::J);
            bag.push(PieceType::S);
            bag.push(PieceType::Z);
            bag.push(PieceType::O);
            bag.push(PieceType::T);
            assert(bag@ =~= full_bag((k + 1) as nat));
            k += 1;
        }
        proof {
            lemma_full_bag_count(n as nat, PieceType::I);
        }
        shuffle_bag(&mut bag);
        if first_bag && config.first_piece_no_overhang {
            proof {
                bag@.to_multiset_ensures();
                assert(bag@.contains(PieceType::I));
                let k = choose|k: int| 0 <= k < bag@.len() && bag@[k] == PieceType::I;
                assert(!overhangs(bag@[k]));
            }
            Self::avoid_first_overhang(&mut bag);
        }
        bag
    }

    /// A piece type drawn uniformly at random, as a fresh piece.
    pub fn get_random_piece_classic() -> (p: Piece)
        ensures
            p == Piece::fresh(p.piece_type),
    {
        let all = [
            PieceType::I,
            PieceType::L,
            PieceType::J,
            PieceType::S,
            PieceType::Z,
            PieceType::O,
            PieceType::T,
        ];
        match choose_type(&all) {
            Some(t) => Self::of_type(t),
            None => Self::get_i_piece(),
        }
    }

    /// Deals the last type of `piece_bag` as a fresh piece, refilling the bag
    /// first when it is empty.
    pub fn get_random_piece_modern(piece_bag: &mut Vec<PieceType>, config: Config, first_bag: bool) -> (p: Piece)
        ensures
            p == Piece::fresh(p.piece_type),
            bag_dealt(config, first_bag, old(piece_bag)@, final(piece_bag)@, p.piece_type),
    {
        if piece_bag.len() == 0 {
            *piece_bag = Self::get_new_piece_bag(config, first_bag);
        }
        let ghost full = piece_bag@;
        let t = piece_bag.pop().unwrap();
        assert(full =~= piece_bag@.push(t));
        Self::of_type(t)
    }

    /// Deals the next piece in the mode the configuration selects.
    pub fn get_random_piece(piece_bag: &mut Vec<PieceType>, config: Config, first_bag: bool) -> (p: Piece)
        ensures
            dealt(config, first_bag, old(piece_bag)@, final(piece_bag)@, p),
    {
        if !config.modern_piece_rng {
            return Self::get_random_piece_classic();
        }
        Self::get_random_piece_modern(piece_bag, config, first_bag)
    }
}


/// `s` with its `i`-th counter one higher.
pub open spec fn bump(s: Seq<u128>, i: int) -> Seq<u128> {
    s.update(i, (s[i] + 1) as u128)
}

/// What a spawn of `p` does to a session that is not over. A spawn draws
/// the rotation-0 shape of `p` at its anchor. Inside the hold flow
/// (`spawn_held`) it counts nothing, fills only the empty cells of that shape
/// and never ends the game; any other spawn counts `p`'s type, and ends the
/// game, writing nothing, when a cell of that shape is taken.
pub open spec fn spawn_result(g0: MainGame, g1: MainGame, p: Piece, spawn_held: bool) -> bool {
    let collides = !spawn_held && !g0.board.vacant(p.spawn_cells());
    &&& g1.piece_count@ == if spawn_held {
        g0.piece_count@
    } else {
        bump(g0.piece_count@, type_index(p.piece_type))
    }
    &&& g1.game_over == collides
    &&& if collides {
        g1.board == g0.board
    } else {
        Board::stamped(g0.board, g1.board, p.spawn_cells(), p.piece_type)
    }
    &&& g1 == (MainGame {
        board: g1.board,
        piece_count: g1.piece_count,
        game_over: g1.game_over,
        ..g0
    })
}

/// What a lock does to `g0`: full rows clear and score, the level follows the
/// lines, soft-drop presses are scored and reset, the next piece becomes
/// current and spawns, a new next piece is dealt, and holding is allowed again.
pub open spec fn locked(g0: MainGame, g1: MainGame) -> bool {
    let n = full_rows(g0.board);
    let lines = g0.lines_cleared + n;
    let p = g0.next_piece;
    &&& g1.lines_cleared == lines
    &&& g1.level == level_for(lines)
    &&& g1.score == g0.score + clear_points(n, g0.level as int) + g0.down_presses
    &&& g1.clear_count@ == if 1 <= n <= 4 {
        bump(g0.clear_count@, n - 1)
    } else {
        g0.clear_count@
    }
    &&& g1.down_presses == 0
    &&& g1.current_piece == p
    &&& dealt(g0.config, false, g0.piece_bag@, g1.piece_bag@, g1.next_piece)
    &&& g1.piece_count@ == bump(g0.piece_count@, type_index(p.piece_type))
    &&& g1.can_swap
    &&& exists|mid: Board|
        rows_cleared(g0.board, mid, n) && if mid.vacant(p.cells()) {
            !g1.game_over && Board::stamped(mid, g1.board, p.cells(), p.piece_type)
        } else {
            g1.game_over && g1.board == mid
        }
    &&& g1.held_piece == g0.held_piece
    &&& g1.ticks == g0.ticks
    &&& g1.paused == g0.paused
    &&& g1.config == g0.config
}

/// The cells of `p` with its anchor moved to row `row`.
pub open spec fn drop_target(p: Piece, row: int) -> Seq<(int, int)> {
    cells_at(p.piece_type, p.rotations as int, row, p.offset.1 as int)
}

/// Row `r` is where `p` comes to rest when dropped on `b`: every row from
/// its own down to `r` is open to it, and the row below `r` is not.
pub open spec fn rests_at(b: Board, p: Piece, r: int) -> bool {
    &&& p.offset.0 <= r
    &&& forall|k: int| p.offset.0 < k <= r ==> #[trigger] b.open_for(p.cells(), drop_target(p, k))
    &&& !b.open_for(p.cells(), drop_target(p, r + 1))
}

/// The row the shadow of `g`'s current piece is drawn at: where the piece
/// rests, or where it is once the game is over.
pub open spec fn shadow_row(g: MainGame, r: int) -> bool {
    if g.game_over {
        r == g.current_piece.offset.0
    } else {
        rests_at(g.board, g.current_piece, r)
    }
}

/// `cells` lists the footprint `fp`, in order.
pub open spec fn lists_cells(cells: Seq<(usize, usize)>, fp: Seq<(int, int)>) -> bool {
    &&& cells.len() == 4
    &&& forall|i: int| 0 <= i < 4 ==> (#[trigger] cells[i].0 as int, cells[i].1 as int) == fp[i]
}

/// `g1` is `g0` with its current piece dropped to where it rests, and one
/// point scored per row fallen.
pub open spec fn dropped(g0: MainGame, g1: MainGame) -> bool {
    let p = g0.current_piece;
    let r = g1.current_piece.offset.0 as int;
    &&& rests_at(g0.board, p, r)
    &&& g1 == (MainGame {
        board: g1.board,
        current_piece: Piece { offset: (r as usize, p.offset.1), ..p },
        score: (g0.score + (r - p.offset.0)) as u128,
        ..g0
    })
    &&& r == p.offset.0 ==> g1.board == g0.board
    &&& r > p.offset.0 ==> Board::moved(g0.board, g1.board, p.cells(), drop_target(p, r), p.piece_type)
}

/// Whether `hold_piece` refuses to act on `g`.
pub open spec fn hold_blocked(g: MainGame) -> bool {
    !g.can_swap || !g.config.holding_enabled || g.game_over
}

/// What a hold does to `g0` when it is not blocked: the current piece leaves
/// the board for the held slot; the piece held before, back at rotation 0
/// and its spawn anchor, or else the next piece, becomes current and is drawn
/// on the freed board; holding is then refused until the next lock.
pub open spec fn hold_result(g0: MainGame, g1: MainGame) -> bool {
    let incoming = match g0.held_piece {
        Some(h) => Piece::fresh(h.piece_type),
        None => g0.next_piece,
    };
    &&& g1.current_piece == incoming
    &&& g1.held_piece == Some(g0.current_piece)
    &&& exists|mid: Board|
        Board::lifted(g0.board, mid, g0.current_piece.cells()) && Board::stamped(
            mid,
            g1.board,
            incoming.cells(),
            incoming.piece_type,
        )
    &&& !g1.can_swap
    &&& match g0.held_piece {
        Some(_) => {
            &&& g1.next_piece == g0.next_piece
            &&& g1.piece_bag@ == g0.piece_bag@
            &&& g1.piece_count@ == g0.piece_count@
        },
        None => {
            &&& dealt(g0.config, false, g0.piece_bag@, g1.piece_bag@, g1.next_piece)
            &&& g1.piece_count@ == bump(g0.piece_count@, type_index(incoming.piece_type))
        },
    }
    &&& g1 == (MainGame {
        board: g1.board,
        current_piece: g1.current_piece,
        next_piece: g1.next_piece,
        piece_bag: g1.piece_bag,
        held_piece: g1.held_piece,
        can_swap: g1.can_swap,
        piece_count: g1.piece_count,
        ..g0
    })
}

/// Every cell offset of a shape lies in its 4 x 4 box.
pub proof fn lemma_shape_box(t: PieceType, r: int)
    requires
        0 <= r < 4,
    ensures
        forall|i: int| 0 <= i < 4 ==> 0 <= #[trigger] shape(t, r)[i].0 < 4 && 0 <= shape(t, r)[i].1 < 4,
{
    assert forall|i: int| 0 <= i < 4 implies 0 <= #[trigger] shape(t, r)[i].0 < 4 && 0 <= shape(t, r)[i].1 < 4 by {
        assert(i == 0 || i == 1 || i == 2 || i == 3);
    }
}

/// A fresh piece lies on the grid.
pub proof fn lemma_fresh_placed(t: PieceType)
    ensures
        Piece::fresh(t).placed(),
{
}

/// The counter slot of a piece type.
fn type_slot(t: PieceType) -> (i: usize)
    ensures
        i as int == type_index(t),
{
    match t {
        PieceType::I => 0,
        PieceType::L => 1,
        PieceType::J => 2,
        PieceType::S => 3,
        PieceType::Z => 4,
        PieceType::O => 5,
        PieceType::T => 6,
    }
}

/// Whether every cell of `p` is empty.
fn is_vacant(board: &Board, p: &Piece) -> (b: bool)
    requires
        p.placed(),
    ensures
        b == board.vacant(p.cells()),
{
    let b0 = p.block(0);
    let b1 = p.block(1);
    let b2 = p.block(2);
    let b3 = p.block(3);
    board.get(b0.0, b0.1) == Cell::Empty && board.get(b1.0, b1.1) == Cell::Empty && board.get(
        b2.0,
        b2.1,
    ) == Cell::Empty && board.get(b3.0, b3.1) == Cell::Empty
}

/// Fills each empty cell of `p` with its type.
fn stamp(board: &mut Board, p: &Piece)
    requires
        p.placed(),
    ensures
        Board::stamped(*old(board), *final(board), p.cells(), p.piece_type),
{
    let x = Cell::Filled(p.piece_type);
    let b0 = p.block(0);
    if board.get(b0.0, b0.1) == Cell::Empty {
        board.set(b0.0, b0.1, x);
    }
    let b1 = p.block(1);
    if board.get(b1.0, b1.1) == Cell::Empty {
        board.set(b1.0, b1.1, x);
    }
    let b2 = p.block(2);
    if board.get(b2.0, b2.1) == Cell::Empty {
        board.set(b2.0, b2.1, x);
    }
    let b3 = p.block(3);
    if board.get(b3.0, b3.1) == Cell::Empty {
        board.set(b3.0, b3.1, x);
    }
}

/// Adds one to the `i`-th counter.
fn count_up(counts: &mut Vec<u128>, i: usize)
    requires
        i < old(counts)@.len(),
        old(counts)@[i as int] < COUNT_LIMIT,
    ensures
        final(counts)@ == bump(old(counts)@, i as int),
{
    let c = counts[i];
    counts.set(i, c + 1);
}

/// Finishes the current piece: clears rows, scores, levels, and spawns the
/// next piece.
fn lock_piece(game: &mut MainGame)
    requires
        old(game).wf(),
        old(game).lock_room(),
        !old(game).game_over,
    ensures
        final(game).wf(),
        locked(*old(game), *final(game)),
{
    let ghost g0 = *game;
    let n = MainGame::erase_lines(
        &mut game.board,
        &mut game.score,
        game.level,
        &mut game.clear_count,
    );
    let ghost mid = game.board;
    game.lines_cleared = game.lines_cleared + n as u128;
    game.level = (game.lines_cleared + 10) / 10;
    game.score = game.score + game.down_presses;
    game.down_presses = 0;
    let new_piece = Piece::get_random_piece(&mut game.piece_bag, game.config, false);
    game.current_piece = game.next_piece;
    proof {
        lemma_fresh_placed(game.next_piece.piece_type);
    }
    Piece::spawn_piece(game.next_piece, game, false);
    game.next_piece = new_piece;
    game.can_swap = true;
    assert(rows_cleared(g0.board, mid, full_rows(g0.board)));
}

impl Piece {
    /// Spawns the rotation-0 shape of `piece` at its anchor. Does nothing
    /// once the game is over. Outside the hold flow the spawn is counted, and
    /// a taken cell ends the game instead; inside it only the empty cells are
    /// filled.
    pub fn spawn_piece(piece: Piece, game: &mut MainGame, spawn_held: bool)
        requires
            piece.upright().placed(),
            old(game).piece_count@.len() == 7,
            forall|i: int| 0 <= i < 7 ==> #[trigger] old(game).piece_count@[i] < COUNT_LIMIT,
        ensures
            old(game).game_over ==> *final(game) == *old(game),
            !old(game).game_over ==> spawn_result(*old(game), *final(game), piece, spawn_held),
    {
        if game.game_over {
            return;
        }
        let upright = Piece { rotations: 0, ..piece };
        if !spawn_held {
            count_up(&mut game.piece_count, type_slot(piece.piece_type));
            if !is_vacant(&game.board, &upright) {
                game.game_over = true;
                return;
            }
        }
        stamp(&mut game.board, &upright);
    }

    /// Moves the current piece one row down if every target cell is on the
    /// grid and free. Otherwise the piece locks, unless `shadow` is set.
    /// Returns whether the piece moved.
    pub fn move_piece_down(game: &mut MainGame, shadow: bool) -> (ok: bool)
        requires
            old(game).wf(),
            old(game).lock_room(),
        ensures
            final(game).wf(),
            old(game).game_over ==> !ok && *final(game) == *old(game),
            !old(game).game_over ==> ok == old(game).board.open_for(
                old(game).current_piece.cells(),
                old(game).current_piece.below(),
            ),
            ok ==> *final(game) == (MainGame {
                board: final(game).board,
                current_piece: Piece {
                    offset: (
                        (old(game).current_piece.offset.0 + 1) as usize,
                        old(game).current_piece.offset.1,
                    ),
                    ..old(game).current_piece
                },
                ..*old(game)
            }),
            ok ==> Board::moved(
                old(game).board,
                final(game).board,
                old(game).current_piece.cells(),
                old(game).current_piece.below(),
                old(game).current_piece.piece_type,
            ),
            !ok && shadow ==> *final(game) == *old(game),
            !ok && !shadow && !old(game).game_over ==> locked(*old(game), *final(game)),
    {
        if game.game_over {
            return false;
        }
        let cur = game.current_piece;
        let cand = Piece { offset: (cur.offset.0 + 1, cur.offset.1), ..cur };
        if !fits(&game.board, &cur, &cand) {
            if !shadow {
                lock_piece(game);
            }
            return false;
        }
        relocate(&mut game.board, &cur, &cand);
        game.current_piece = cand;
        true
    }
}


impl Piece {
    /// Drops the current piece as far as it goes, scoring one point per row
    /// fallen; then the piece locks, unless `shadow` is set. Does nothing once
    /// the game is over.
    pub fn drop_piece_down(game: &mut MainGame, shadow: bool)
        requires
            old(game).wf(),
            old(game).headroom(),
        ensures
            final(game).wf(),
            old(game).game_over ==> *final(game) == *old(game),
            !old(game).game_over && shadow ==> dropped(*old(game), *final(game)),
            !old(game).game_over && !shadow ==> exists|mid: MainGame|
                dropped(*old(game), mid) && locked(mid, *final(game)),
    {
        if game.game_over {
            return;
        }
        let ghost g0 = *game;
        let ghost p = g0.current_piece;
        let mut steps: u128 = 0;
        let mut falling = true;
        while falling
            invariant
                g0.wf(),
                g0.headroom(),
                !g0.game_over,
                p == g0.current_piece,
                game.wf(),
                game.current_piece.offset.0 == p.offset.0 + steps,
                steps <= 20,
                *game == (MainGame {
                    board: game.board,
                    current_piece: Piece {
                        offset: (game.current_piece.offset.0, p.offset.1),
                        ..p
                    },
                    ..g0
                }),
                steps == 0 ==> game.board == g0.board,
                steps > 0 ==> Board::moved(
                    g0.board,
                    game.board,
                    p.cells(),
                    drop_target(p, p.offset.0 + steps),
                    p.piece_type,
                ),
                forall|k: int|
                    p.offset.0 < k <= p.offset.0 + steps ==> #[trigger] g0.board.open_for(
                        p.cells(),
                        drop_target(p, k),
                    ),
                !falling ==> !g0.board.open_for(p.cells(), drop_target(p, p.offset.0 + steps + 1)),
            decreases 20 - game.current_piece.offset.0 + if falling {
                1int
            } else {
                0int
            },
        {
            let ghost before = *game;
            proof {
                lemma_shape_box(p.piece_type, p.rotations as int);
                let r = p.offset.0 + steps + 1;
                assert forall|c: (int, int)| #[trigger] before.board.free_for(before.current_piece.cells(), c)
                    == g0.board.free_for(p.cells(), c) by {
                    if steps > 0 {
                        lemma_moved_free(
                            g0.board,
                            before.board,
                            p.cells(),
                            drop_target(p, p.offset.0 + steps),
                            p.piece_type,
                            c,
                        );
                    }
                }
                assert(before.current_piece.below() == drop_target(p, r));
            }
            if Piece::move_piece_down(game, true) {
                proof {
                    let r = p.offset.0 + steps + 1;
                    if steps > 0 {
                        lemma_moved_compose(
                            g0.board,
                            before.board,
                            game.board,
                            p.cells(),
                            drop_target(p, p.offset.0 + steps),
                            drop_target(p, r),
                            p.piece_type,
                        );
                    } else {
                        assert(before.current_piece.cells() == p.cells());
                    }
                }
                steps = steps + 1;
            } else {
                falling = false;
            }
        }
        game.score = game.score + steps;
        let ghost mid = *game;
        assert(dropped(g0, mid));
        if !shadow {
            lock_piece(game);
        }
    }

    /// The cells the current piece would cover if dropped from where it is;
    /// once the game is over, the cells it covers. Reads the session only.
    pub fn get_shadow_piece(game: &MainGame) -> (cells: Vec<(usize, usize)>)
        requires
            game.wf(),
        ensures
            cells@.len() == 4,
            exists|r: int|
                shadow_row(*game, r) && lists_cells(cells@, drop_target(game.current_piece, r)),
    {
        let cur = game.current_piece;
        let mut land = cur;
        if !game.game_over {
            let mut falling = true;
            while falling
                invariant
                    cur == game.current_piece,
                    cur.placed(),
                    land == (Piece { offset: (land.offset.0, cur.offset.1), ..cur }),
                    land.placed(),
                    cur.offset.0 <= land.offset.0,
                    forall|k: int|
                        cur.offset.0 < k <= land.offset.0 ==> #[trigger] game.board.open_for(
                            cur.cells(),
                            drop_target(cur, k),
                        ),
                    !falling ==> !game.board.open_for(
                        cur.cells(),
                        drop_target(cur, land.offset.0 + 1),
                    ),
                decreases 20 - land.offset.0 + if falling {
                    1int
                } else {
                    0int
                },
            {
                proof {
                    lemma_shape_box(cur.piece_type, cur.rotations as int);
                }
                let cand = Piece { offset: (land.offset.0 + 1, land.offset.1), ..land };
                if fits(&game.board, &cur, &cand) {
                    land = cand;
                } else {
                    falling = false;
                }
            }
        }
        let mut cells: Vec<(usize, usize)> = Vec::new();
        cells.push(land.block(0));
        cells.push(land.block(1));
        cells.push(land.block(2));
        cells.push(land.block(3));
        proof {
            let r = land.offset.0 as int;
            assert(land.cells() == drop_target(cur, r));
            assert forall|i: int| 0 <= i < 4 implies (#[trigger] cells@[i].0 as int, cells@[i].1 as int)
                == drop_target(cur, r)[i] by {
                assert(i == 0 || i == 1 || i == 2 || i == 3);
            }
            assert(shadow_row(*game, r));
            assert(lists_cells(cells@, drop_target(cur, r)));
        }
        cells
    }

    /// Swaps the current piece with the held one, or with the next piece when
    /// none is held. Does nothing when holding is disabled, already used since
    /// the last lock, or the game is over.
    pub fn hold_piece(game: &mut MainGame)
        requires
            old(game).wf(),
            old(game).headroom(),
        ensures
            final(game).wf(),
            hold_blocked(*old(game)) ==> *final(game) == *old(game),
            !hold_blocked(*old(game)) ==> hold_result(*old(game), *final(game)),
    {
        if !game.can_swap || !game.config.holding_enabled || game.game_over {
            return;
        }
        let ghost g0 = *game;
        let cur = game.current_piece;
        lift(&mut game.board, &cur);
        let ghost mid = game.board;
        match game.held_piece {
            None => {
                game.held_piece = Some(cur);
                let new_piece = Piece::get_random_piece(&mut game.piece_bag, game.config, false);
                let incoming = game.next_piece;
                proof {
                    lemma_fresh_placed(incoming.piece_type);
                }
                game.current_piece = incoming;
                Piece::spawn_piece(incoming, game, true);
                count_up(&mut game.piece_count, type_slot(incoming.piece_type));
                game.next_piece = new_piece;
                assert(Board::stamped(mid, game.board, incoming.cells(), incoming.piece_type));
                assert(exists|m: Board|
                    Board::lifted(g0.board, m, g0.current_piece.cells()) && Board::stamped(
                        m,
                        game.board,
                        incoming.cells(),
                        incoming.piece_type,
                    ));
            },
            Some(h) => {
                let incoming = Piece::of_type(h.piece_type);
                game.current_piece = incoming;
                Piece::spawn_piece(incoming, game, true);
                game.held_piece = Some(cur);
                assert(Board::stamped(mid, game.board, incoming.cells(), incoming.piece_type));

            },
        }
        game.can_swap = false;
        assert(Board::lifted(g0.board, mid, g0.current_piece.cells()));
        assert(game.current_piece == match g0.held_piece {
            Some(h) => Piece::fresh(h.piece_type),
            None => g0.next_piece,
        });

    }
}

} // verus!
