use vstd::prelude::*;

use crate::board::{covers, empty_color, in_grid, row_full, Board, Cell, COLS, ROWS};
use crate::config::Config;
use crate::pieces::{
    bump, cells_at, dropped, hold_blocked, hold_result, lemma_fresh_placed, locked, next_rotation,
    overhangs, refilled, type_index, Piece, PieceType,
};

verus! {

/// Bound kept on the score so that one more lock and drop cannot overflow.
pub const SCORE_LIMIT: u128 = 0x10_0000_0000_0000_0000_0000_0000;

/// Bound kept on the line, press and spawn counters for the same reason.
pub const COUNT_LIMIT: u128 = 0x1000_0000_0000_0000;

/// The rows of `rows` that are not full, in their order.
pub open spec fn surviving(rows: Seq<[Cell; 10]>) -> Seq<[Cell; 10]>
    decreases rows.len(),
{
    if rows.len() == 0 {
        rows
    } else {
        let s = surviving(rows.drop_last());
        if row_full(rows.last()) {
            s
        } else {
            s.push(rows.last())
        }
    }
}

/// Every cell of the row is empty.
pub open spec fn row_empty(row: [Cell; 10]) -> bool {
    forall|c: int| 0 <= c < COLS as int ==> #[trigger] row@[c] == Cell::Empty
}

/// How many rows of the board are full.
pub open spec fn full_rows(b: Board) -> nat {
    (ROWS - surviving(b.cells@).len()) as nat
}

/// `after` is `before` with its `n` full rows removed, the rest moved down in
/// their order, and `n` empty rows on top.
pub open spec fn rows_cleared(before: Board, after: Board, n: nat) -> bool {
    &&& n + surviving(before.cells@).len() == ROWS
    &&& forall|i: int| 0 <= i < n ==> row_empty(#[trigger] after.cells@[i])
    &&& forall|i: int|
        n <= i < ROWS ==> #[trigger] after.cells@[i] == surviving(before.cells@)[i - n]
}

/// Points for clearing `n` rows at once at `level`.
pub open spec fn clear_points(n: nat, level: int) -> int {
    if n == 1 {
        40 * level
    } else if n == 2 {
        100 * level
    } else if n == 3 {
        300 * level
    } else if n == 4 {
        1200 * level
    } else {
        0
    }
}

/// The level after `lines` cleared lines: `ceil((lines + 1) / 10)`.
pub open spec fn level_for(lines: int) -> int {
    (lines + 10) / 10
}

/// The surviving rows never number more than the rows.
pub proof fn lemma_surviving_len(rows: Seq<[Cell; 10]>)
    ensures
        surviving(rows).len() <= rows.len(),
    decreases rows.len(),
{
    if rows.len() > 0 {
        lemma_surviving_len(rows.drop_last());
    }
}

/// An input command.
#[derive(Clone, Copy, Debug, PartialEq, Eq, Structural)]
pub enum Command {
    MoveLeft,
    MoveRight,
    /// One soft-drop press: counted, then one row down.
    SoftDrop,
    HardDrop,
    RotateClockwise,
    RotateCounterClockwise,
    Hold,
    /// Pause a running game, or resume a paused one.
    Pause,
    /// Start over once the game is over.
    Reset,
}

/// `g1` is `g0` after trying to move its current piece to `cand`, covering
/// `target`: done when every cell of `target` is free for it, else nothing.
pub open spec fn shifted(g0: MainGame, g1: MainGame, target: Seq<(int, int)>, cand: Piece) -> bool {
    if g0.board.open_for(g0.current_piece.cells(), target) {
        &&& g1 == (MainGame { board: g1.board, current_piece: cand, ..g0 })
        &&& Board::moved(
            g0.board,
            g1.board,
            g0.current_piece.cells(),
            target,
            g0.current_piece.piece_type,
        )
    } else {
        g1 == g0
    }
}

/// `g1` is `g0` after one step of gravity on a running game: one row down,
/// or a lock.
pub open spec fn fell(g0: MainGame, g1: MainGame) -> bool {
    let p = g0.current_piece;
    if g0.board.open_for(p.cells(), p.below()) {
        shifted(
            g0,
            g1,
            p.below(),
            Piece { offset: ((p.offset.0 + 1) as usize, p.offset.1), ..p },
        )
    } else {
        locked(g0, g1)
    }
}

/// `g` as a new session starts with `config`: a fresh bag drawn, the first
/// and next pieces dealt from it in modern mode, the first piece spawned on an
/// empty board and counted, the counters at zero.
pub open spec fn initial(g: MainGame, config: Config) -> bool {
    let p = g.current_piece;
    &&& p == Piece::fresh(p.piece_type)
    &&& g.next_piece == Piece::fresh(g.next_piece.piece_type)
    &&& forall|q: (int, int)|
        in_grid(q) ==> #[trigger] g.board.at(q) == if covers(p.cells(), q) {
            Cell::Filled(p.piece_type)
        } else {
            Cell::Empty
        }
    &&& g.piece_count@ == bump(Seq::new(7, |i: int| 0u128), type_index(p.piece_type))
    &&& g.clear_count@ == Seq::new(4, |i: int| 0u128)
    &&& g.score == 0 && g.level == 1 && g.lines_cleared == 0 && g.down_presses == 0 && g.ticks == 0
    &&& g.held_piece is None
    &&& g.can_swap && !g.paused && !g.game_over
    &&& g.config == config
    &&& (config.modern_piece_rng && config.first_piece_no_overhang) ==> !overhangs(p.piece_type)
    &&& if config.modern_piece_rng {
        refilled(config, true, g.piece_bag@.push(g.next_piece.piece_type).push(p.piece_type))
    } else {
        refilled(config, true, g.piece_bag@)
    }
}

/// The level formula is the ceiling of `(lines + 1) / 10`: the least whole
/// number whose tenfold reaches `lines + 1`.
pub proof fn lemma_level_is_ceiling(lines: int)
    requires
        lines >= 0,
    ensures
        10 * level_for(lines) >= lines + 1,
        10 * (level_for(lines) - 1) < lines + 1,
{
}

/// The rows kept by a clear are exactly the rows that were not full, in
/// their order: none of them is full, and none that was not full is dropped.
pub proof fn lemma_surviving_rows(rows: Seq<[Cell; 10]>)
    ensures
        forall|i: int| 0 <= i < surviving(rows).len() ==> !row_full(#[trigger] surviving(rows)[i]),
        forall|i: int|
            0 <= i < rows.len() && !row_full(#[trigger] rows[i]) ==> surviving(rows).contains(rows[i]),
    decreases rows.len(),
{
    if rows.len() > 0 {
        let init = rows.drop_last();
        lemma_surviving_rows(init);
        assert forall|i: int|
            0 <= i < rows.len() && !row_full(#[trigger] rows[i]) implies surviving(rows).contains(
            rows[i],
        ) by {
            if i < rows.len() - 1 {
                assert(init[i] == rows[i]);
                let k = choose|k: int| 0 <= k < surviving(init).len() && surviving(init)[k] == rows[i];
                assert(surviving(rows)[k] == rows[i]);
            } else {
                assert(surviving(rows)[surviving(rows).len() - 1] == rows[i]);
            }
        }
    }
}

/// After a clear no row of the board is full, and it still has 20 rows.
pub proof fn lemma_no_full_row_after_clear(before: Board, after: Board, n: nat)
    requires
        rows_cleared(before, after, n),
    ensures
        forall|i: int| 0 <= i < ROWS ==> !row_full(#[trigger] after.cells@[i]),
        after.cells@.len() == ROWS,
{
    lemma_surviving_rows(before.cells@);
    assert forall|i: int| 0 <= i < ROWS implies !row_full(#[trigger] after.cells@[i]) by {
        if i < n {
            assert(after.cells@[i]@[0] == Cell::Empty);
        } else {
            assert(after.cells@[i] == surviving(before.cells@)[i - n]);
        }
    }
}

/// With no full row, a clear removes nothing and leaves every row where it
/// was.
pub proof fn lemma_clear_without_full_rows(before: Board, after: Board, n: nat)
    requires
        rows_cleared(before, after, n),
        forall|i: int| 0 <= i < ROWS ==> !row_full(#[trigger] before.cells@[i]),
    ensures
        n == 0,
        after.cells@ == before.cells@,
{
    lemma_surviving_keeps_all(before.cells@);
    assert(after.cells@ =~= before.cells@);
}

/// Rows none of which is full all survive a clear.
pub proof fn lemma_surviving_keeps_all(rows: Seq<[Cell; 10]>)
    requires
        forall|i: int| 0 <= i < rows.len() ==> !row_full(#[trigger] rows[i]),
    ensures
        surviving(rows) == rows,
    decreases rows.len(),
{
    if rows.len() > 0 {
        let init = rows.drop_last();
        assert forall|i: int| 0 <= i < init.len() implies !row_full(#[trigger] init[i]) by {
            assert(init[i] == rows[i]);
        }
        lemma_surviving_keeps_all(init);
        assert(!row_full(rows[rows.len() - 1]));
        assert(init.push(rows.last()) =~= rows);
    }
}

/// A successful hold is followed by refused ones until a lock: after it the
/// hold is blocked, and only a lock allows it again.
pub proof fn lemma_one_hold_per_lock(g0: MainGame, g1: MainGame, g2: MainGame)
    requires
        !hold_blocked(g0),
        hold_result(g0, g1),
    ensures
        hold_blocked(g1),
        locked(g1, g2) ==> g2.can_swap,
{
}

/// A session: board, pieces, randomizer state, counters and flags.
#[derive(Clone, Debug)]
pub struct MainGame {
    pub board: Board,
    pub current_piece: Piece,
    pub next_piece: Piece,
    /// Pending piece types; the last one is dealt next.
    pub piece_bag: Vec<PieceType>,
    pub score: u128,
    pub level: u128,
    pub lines_cleared: u128,
    pub held_piece: Option<Piece>,
    /// Whether a hold is still allowed before the next lock.
    pub can_swap: bool,
    /// Spawns per piece type, in catalog order I, L, J, S, Z, O, T.
    pub piece_count: Vec<u128>,
    /// Clears of one, two, three and four rows at once.
    pub clear_count: Vec<u128>,
    /// Soft-drop presses since the down key went down; added to the score at
    /// the next lock.
    pub down_presses: u128,
    /// Clock ticks since the last gravity step.
    pub ticks: u128,
    pub paused: bool,
    pub game_over: bool,
    pub config: Config,
}

/// Whether every cell of the row is filled.
fn row_is_full(row: &[Cell; 10]) -> (b: bool)
    ensures
        b == row_full(*row),
{
    let mut c: usize = 0;
    while c < COLS
        invariant
            c <= COLS,
            forall|k: int| 0 <= k < c ==> (#[trigger] row@[k]).occupied(),
        decreases COLS - c,
    {
        if !row[c].is_occupied() {
            return false;
        }
        c += 1;
    }
    true
}

impl MainGame {
    /// The shape every operation keeps: the current piece on the grid, the
    /// next piece fresh, seven spawn counters, four clear counters, and the
    /// level matching the lines cleared.
    pub open spec fn wf(&self) -> bool {
        &&& self.current_piece.placed()
        &&& self.next_piece == Piece::fresh(self.next_piece.piece_type)
        &&& self.piece_count@.len() == 7
        &&& self.clear_count@.len() == 4
        &&& self.level == level_for(self.lines_cleared as int)
    }

    /// Counters far enough from the top of `u128` for one more operation.
    pub open spec fn headroom(&self) -> bool {
        &&& self.score < SCORE_LIMIT
        &&& self.lines_cleared < COUNT_LIMIT
        &&& self.down_presses < COUNT_LIMIT
        &&& self.ticks < COUNT_LIMIT
        &&& forall|i: int| 0 <= i < self.piece_count@.len() ==> #[trigger] self.piece_count@[i] < COUNT_LIMIT
        &&& forall|i: int| 0 <= i < self.clear_count@.len() ==> #[trigger] self.clear_count@[i] < COUNT_LIMIT
    }

    /// The room a lock needs: `headroom`, with a few points of a drop
    /// already added to the score.
    pub open spec fn lock_room(&self) -> bool {
        &&& self.score < SCORE_LIMIT + 32
        &&& self.lines_cleared < COUNT_LIMIT
        &&& self.down_presses <= COUNT_LIMIT
        &&& forall|i: int| 0 <= i < self.piece_count@.len() ==> #[trigger] self.piece_count@[i] < COUNT_LIMIT
        &&& forall|i: int| 0 <= i < self.clear_count@.len() ==> #[trigger] self.clear_count@[i] < COUNT_LIMIT
    }

    /// Whether the counters have the room `headroom` asks for.
    pub fn has_headroom(&self) -> (b: bool)
        ensures
            b == self.headroom(),
    {
        if !(self.score < SCORE_LIMIT && self.lines_cleared < COUNT_LIMIT && self.down_presses
            < COUNT_LIMIT && self.ticks < COUNT_LIMIT) {
            return false;
        }
        let mut i: usize = 0;
        while i < self.piece_count.len()
            invariant
                i <= self.piece_count@.len(),
                forall|k: int| 0 <= k < i ==> #[trigger] self.piece_count@[k] < COUNT_LIMIT,
            decreases self.piece_count@.len() - i,
        {
            if self.piece_count[i] >= COUNT_LIMIT {
                return false;
            }
            i += 1;
        }
        let mut i: usize = 0;
        while i < self.clear_count.len()
            invariant
                i <= self.clear_count@.len(),
                forall|k: int| 0 <= k < i ==> #[trigger] self.clear_count@[k] < COUNT_LIMIT,
            decreases self.clear_count@.len() - i,
        {
            if self.clear_count[i] >= COUNT_LIMIT {
                return false;
            }
            i += 1;
        }
        true
    }

    /// Removes the full rows, moves the others down in their order and fills
    /// the top with empty rows; adds the points for the clear to `score` and
    /// counts it in `clear_count`. Returns the number of rows removed.
    pub fn erase_lines(
        board: &mut Board,
        score: &mut u128,
        level: u128,
        clear_count: &mut Vec<u128>,
    ) -> (n: u8)
        requires
            old(clear_count)@.len() == 4,
            *old(score) < SCORE_LIMIT + 32,
            level <= COUNT_LIMIT,
            forall|i: int| 0 <= i < 4 ==> #[trigger] old(clear_count)@[i] < COUNT_LIMIT,
        ensures
            n as nat == full_rows(*old(board)),
            rows_cleared(*old(board), *final(board), n as nat),
            *final(score) == *old(score) + clear_points(n as nat, level as int),
            final(clear_count)@ == if 1 <= n <= 4 {
                old(clear_count)@.update(n - 1, (old(clear_count)@[n - 1] + 1) as u128)
            } else {
                old(clear_count)@
            },
    {
        let ghost rows = board.cells@;
        let mut kept: Vec<[Cell; 10]> = Vec::new();
        let mut i: usize = 0;
        while i < ROWS
            invariant
                i <= ROWS,
                rows == board.cells@,
                kept@ == surviving(rows.take(i as int)),
            decreases ROWS - i,
        {
            let row = board.cells[i];
            assert(rows.take(i + 1).drop_last() =~= rows.take(i as int));
            if !row_is_full(&row) {
                kept.push(row);
            }
            i += 1;
        }
        assert(rows.take(ROWS as int) =~= rows);
        proof {
            lemma_surviving_len(rows);
        }
        let n: usize = ROWS - kept.len();
        let mut out: [[Cell; 10]; 20] = [[Cell::Empty; 10]; 20];
        let mut j: usize = 0;
        while j < kept.len()
            invariant
                n + kept@.len() == ROWS,
                j <= kept@.len(),
                kept@ == surviving(rows),
                forall|k: int| 0 <= k < n ==> row_empty(#[trigger] out@[k]),
                forall|k: int| n <= k < n + j ==> #[trigger] out@[k] == kept@[k - n],
            decreases kept@.len() - j,
        {
            out[n + j] = kept[j];
            j += 1;
        }
        board.cells = out;
        if n == 1 {
            *score = *score + 40 * level;
        } else if n == 2 {
            *score = *score + 100 * level;
        } else if n == 3 {
            *score = *score + 300 * level;
        } else if n == 4 {
            *score = *score + 1200 * level;
        }
        if 1 <= n && n <= 4 {
            let c = clear_count[n - 1];
            clear_count.set(n - 1, c + 1);
        }
        n as u8
    }
}

/// A vector of `n` zeros.
fn zeros(n: usize) -> (v: Vec<u128>)
    ensures
        v@ == Seq::new(n as nat, |i: int| 0u128),
{
    let mut v: Vec<u128> = Vec::new();
    while v.len() < n
        invariant
            v.len() <= n,
            forall|i: int| 0 <= i < v@.len() ==> #[trigger] v@[i] == 0,
        decreases n - v.len(),
    {
        v.push(0);
    }
    assert(v@ =~= Seq::new(n as nat, |i: int| 0u128));
    v
}

/// Clock ticks per gravity step at `level`: `ceil(level / 5)`.
pub open spec fn gravity_interval(level: int) -> int {
    (level + 4) / 5
}

/// Clock ticks per gravity step at `level`: `ceil(level / 5)`.
pub fn ticks_per_drop(level: u128) -> (r: u128)
    ensures
        r == gravity_interval(level as int),
{
    level / 5 + if level % 5 == 0 {
        0
    } else {
        1
    }
}

impl MainGame {
    /// The color a renderer shows for the cell at row `r`, column `c`: the
    /// cell's own color, except that locked blocks turn white when the board
    /// is not colored; the current piece keeps its color.
    pub fn cell_display_color(&self, r: usize, c: usize) -> (color: (u8, u8, u8))
        requires
            self.wf(),
            r < ROWS,
            c < COLS,
        ensures
            ({
                let q = (r as int, c as int);
                color == if !self.config.colored_board && self.board.at(q).occupied() && !covers(
                    self.current_piece.cells(),
                    q,
                ) {
                    empty_color()
                } else {
                    self.board.at(q).color_spec()
                }
            }),
    {
        let cell = self.board.get(r, c);
        if !self.config.colored_board && cell.is_occupied() && !self.current_piece.covers_cell(
            (r, c),
        ) {
            (255, 255, 255)
        } else {
            cell.color()
        }
    }

    /// A new session: a fresh bag, the first and next pieces dealt from it,
    /// the first piece spawned on an empty board.
    pub fn new(config: Config) -> (g: MainGame)
        ensures
            g.wf(),
            g.headroom(),
            initial(g, config),
    {
        let mut piece_bag = Piece::get_new_piece_bag(config, true);
        let ghost fresh_bag = piece_bag@;
        let piece = Piece::get_random_piece(&mut piece_bag, config, true);
        let next_piece = Piece::get_random_piece(&mut piece_bag, config, true);
        proof {
            if config.modern_piece_rng {
                assert(fresh_bag =~= piece_bag@.push(next_piece.piece_type).push(piece.piece_type));
            }
        }
        let mut g = MainGame {
            board: Board::new(),
            current_piece: piece,
            next_piece: next_piece,
            piece_bag: piece_bag,
            score: 0,
            level: 1,
            lines_cleared: 0,
            held_piece: None,
            can_swap: true,
            piece_count: zeros(7),
            clear_count: zeros(4),
            down_presses: 0,
            ticks: 0,
            paused: false,
            game_over: false,
            config: config,
        };
        proof {
            lemma_fresh_placed(piece.piece_type);
        }
        Piece::spawn_piece(piece, &mut g, false);
        g
    }

    /// Starts the session over with `config`, as `new` does.
    pub fn reset_game(&mut self, config: Config)
        ensures
            final(self).wf(),
            final(self).headroom(),
            initial(*final(self), config),
    {
        *self = MainGame::new(config);
    }

    /// One gravity tick: the current piece falls a row, or locks. Ignored
    /// while paused or once the game is over.
    pub fn update(&mut self)
        requires
            old(self).wf(),
            old(self).headroom(),
        ensures
            final(self).wf(),
            old(self).paused || old(self).game_over ==> *final(self) == *old(self),
            !old(self).paused && !old(self).game_over ==> fell(*old(self), *final(self)),
    {
        if !self.paused {
            Piece::move_piece_down(self, false);
        }
    }

    /// One tick of the fixed-rate clock. While running, every
    /// `ceil(level / 5)`-th tick is a gravity step; paused or over, ticks are
    /// ignored.
    pub fn tick(&mut self)
        requires
            old(self).wf(),
            old(self).headroom(),
        ensures
            final(self).wf(),
            old(self).paused || old(self).game_over ==> *final(self) == *old(self),
            !old(self).paused && !old(self).game_over ==> if old(self).ticks + 1 >= gravity_interval(
                old(self).level as int,
            ) {
                fell(MainGame { ticks: 0, ..*old(self) }, *final(self))
            } else {
                *final(self) == (MainGame { ticks: (old(self).ticks + 1) as u128, ..*old(self) })
            },
    {
        if self.paused || self.game_over {
            return;
        }
        let t = self.ticks + 1;
        if t >= ticks_per_drop(self.level) {
            self.ticks = 0;
            self.update();
        } else {
            self.ticks = t;
        }
    }

    /// Releasing the soft-drop key forgets the presses counted so far.
    pub fn key_up_event(&mut self, command: Command)
        ensures
            command == Command::SoftDrop ==> *final(self) == (MainGame {
                down_presses: 0,
                ..*old(self)
            }),
            command != Command::SoftDrop ==> *final(self) == *old(self),
    {
        if command == Command::SoftDrop {
            self.down_presses = 0;
        }
    }

    /// Applies one command. While paused only `Pause` (resume) acts; once the
    /// game is over only `Reset` acts, and only when `repeat` says the key is
    /// held.
    pub fn key_down_event(&mut self, command: Command, repeat: bool)
        requires
            old(self).wf(),
            old(self).headroom(),
        ensures
            final(self).wf(),
            old(self).paused ==> *final(self) == if command == Command::Pause {
                MainGame { paused: false, ..*old(self) }
            } else {
                *old(self)
            },
            !old(self).paused && old(self).game_over ==> if command == Command::Reset && repeat {
                initial(*final(self), old(self).config)
            } else {
                *final(self) == *old(self)
            },
            !old(self).paused && !old(self).game_over ==> ({
                let g0 = *old(self);
                let g1 = *final(self);
                let p = g0.current_piece;
                match command {
                    Command::MoveLeft => shifted(
                        g0,
                        g1,
                        cells_at(p.piece_type, p.rotations as int, p.offset.0 as int, p.offset.1 - 1),
                        Piece { offset: (p.offset.0, (p.offset.1 - 1) as usize), ..p },
                    ),
                    Command::MoveRight => shifted(
                        g0,
                        g1,
                        cells_at(p.piece_type, p.rotations as int, p.offset.0 as int, p.offset.1 + 1),
                        Piece { offset: (p.offset.0, (p.offset.1 + 1) as usize), ..p },
                    ),
                    Command::RotateClockwise => shifted(
                        g0,
                        g1,
                        cells_at(
                            p.piece_type,
                            next_rotation(p.rotations as int, true),
                            p.offset.0 as int,
                            p.offset.1 as int,
                        ),
                        Piece { rotations: next_rotation(p.rotations as int, true) as usize, ..p },
                    ),
                    Command::RotateCounterClockwise => shifted(
                        g0,
                        g1,
                        cells_at(
                            p.piece_type,
                            next_rotation(p.rotations as int, false),
                            p.offset.0 as int,
                            p.offset.1 as int,
                        ),
                        Piece { rotations: next_rotation(p.rotations as int, false) as usize, ..p },
                    ),
                    Command::SoftDrop => fell(
                        MainGame { down_presses: (g0.down_presses + 1) as u128, ..g0 },
                        g1,
                    ),
                    Command::HardDrop => exists|mid: MainGame| dropped(g0, mid) && locked(mid, g1),
                    Command::Hold => if hold_blocked(g0) {
                        g1 == g0
                    } else {
                        hold_result(g0, g1)
                    },
                    Command::Pause => g1 == (MainGame { paused: true, ..g0 }),
                    Command::Reset => g1 == g0,
                }
            }),
    {
        if self.paused {
            if command == Command::Pause {
                self.paused = false;
            }
            return;
        }
        if self.game_over {
            if command == Command::Reset && repeat {
                let config = self.config;
                self.reset_game(config);
            }
            return;
        }
        match command {
            Command::MoveLeft => {
                Piece::move_piece_left(&mut self.current_piece, &mut self.board);
            },
            Command::MoveRight => {
                Piece::move_piece_right(&mut self.current_piece, &mut self.board);
            },
            Command::SoftDrop => {
                self.down_presses = self.down_presses + 1;
                Piece::move_piece_down(self, false);
            },
            Command::HardDrop => {
                Piece::drop_piece_down(self, false);
            },
            Command::RotateClockwise => {
                Piece::rotate_piece(&mut self.current_piece, &mut self.board, true);
            },
            Command::RotateCounterClockwise => {
                Piece::rotate_piece(&mut self.current_piece, &mut self.board, false);
            },
            Command::Hold => {
                Piece::hold_piece(self);
            },
            Command::Pause => {
                self.paused = true;
            },
            Command::Reset => {},
        }
    }
}

} // verus!
