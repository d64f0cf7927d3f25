use tetris::board::{Board, Cell};
use tetris::config::{
    bag_amount_default, colored_board_default, first_piece_no_overhang_default,
    holding_enabled_default, modern_piece_rng_default, Config,
};
use tetris::game::{ticks_per_drop, Command, MainGame};
use tetris::pieces::{Piece, PieceType};

const ALL: [PieceType; 7] = [
    PieceType::I,
    PieceType::L,
    PieceType::J,
    PieceType::S,
    PieceType::Z,
    PieceType::O,
    PieceType::T,
];

fn filled(t: PieceType) -> Cell {
    Cell::Filled(t)
}

/// A running game on an empty board with `piece` as the current piece,
/// drawn on the board.
fn game_with(piece: Piece) -> MainGame {
    let mut g = MainGame::new(Config::default());
    g.board = Board::new();
    g.current_piece = piece;
    Piece::spawn_piece(piece, &mut g, true);
    g
}

/// A running game on an empty board whose current piece is an upright I
/// in the rightmost column, brought there by a rotation and moves.
fn vertical_i_at_right_edge() -> MainGame {
    let mut g = game_with(Piece::get_i_piece());
    assert!(Piece::rotate_piece(&mut g.current_piece, &mut g.board, true));
    for _ in 0..6 {
        assert!(Piece::move_piece_right(&mut g.current_piece, &mut g.board));
    }
    assert_eq!(g.current_piece.offset, (0, 9));
    g
}

fn count_filled(b: &Board) -> usize {
    let mut n = 0;
    for r in 0..20 {
        for c in 0..10 {
            if b.get(r, c).is_occupied() {
                n += 1;
            }
        }
    }
    n
}

#[test]
fn hard_drop_i_piece_lands_on_bottom_row() {
    let mut g = game_with(Piece::get_i_piece());
    Piece::drop_piece_down(&mut g, false);
    for c in 0..10 {
        let want = if (3..=6).contains(&c) { filled(PieceType::I) } else { Cell::Empty };
        assert_eq!(g.board.get(19, c), want);
    }
    assert_eq!(g.score, 19);
    assert_eq!(g.lines_cleared, 0);
    assert!(g.can_swap);
}

#[test]
fn completing_one_row_clears_it_and_scores_a_single() {
    let mut g = vertical_i_at_right_edge();
    for c in 0..9 {
        g.board.set(19, c, filled(PieceType::T));
    }
    Piece::drop_piece_down(&mut g, false);
    assert_eq!(g.lines_cleared, 1);
    assert_eq!(g.clear_count, vec![1, 0, 0, 0]);
    assert_eq!(g.score, 16 + 40);
    for c in 0..9 {
        assert_eq!(g.board.get(19, c), Cell::Empty);
    }
    for r in 17..20 {
        assert_eq!(g.board.get(r, 9), filled(PieceType::I));
    }
    assert_eq!(g.board.get(16, 9), Cell::Empty);
}

#[test]
fn four_rows_at_once_score_a_tetris_and_raise_the_level() {
    let mut g = vertical_i_at_right_edge();
    g.lines_cleared = 8;
    g.level = 1;
    for r in 16..20 {
        for c in 0..9 {
            g.board.set(r, c, filled(PieceType::L));
        }
    }
    Piece::drop_piece_down(&mut g, false);
    assert_eq!(g.clear_count, vec![0, 0, 0, 1]);
    assert_eq!(g.score, 16 + 1200);
    assert_eq!(g.lines_cleared, 12);
    assert_eq!(g.level, 2);
    for r in 2..20 {
        for c in 0..10 {
            assert_eq!(g.board.get(r, c), Cell::Empty);
        }
    }
}

#[test]
fn rotating_an_o_piece_keeps_the_board() {
    let mut g = game_with(Piece::get_o_piece());
    let before = g.board;
    let ok = Piece::rotate_piece(&mut g.current_piece, &mut g.board, true);
    assert!(ok);
    assert_eq!(g.current_piece.rotations, 1);
    assert_eq!(g.board.cells, before.cells);
}

#[test]
fn hold_disabled_changes_nothing() {
    let mut config = Config::default();
    config.holding_enabled = false;
    let mut g = MainGame::new(config);
    let before = g.clone();
    Piece::hold_piece(&mut g);
    assert_eq!(g.board.cells, before.board.cells);
    assert_eq!(g.current_piece, before.current_piece);
    assert_eq!(g.next_piece, before.next_piece);
    assert_eq!(g.held_piece, before.held_piece);
    assert_eq!(g.can_swap, before.can_swap);
    assert_eq!(g.piece_bag, before.piece_bag);
}

#[test]
fn bag_with_one_piece_deals_it_then_refills() {
    let config = Config::default();
    let mut bag = vec![PieceType::I];
    let first = Piece::get_random_piece(&mut bag, config, false);
    assert_eq!(first, Piece::get_i_piece());
    assert!(bag.is_empty());
    let second = Piece::get_random_piece(&mut bag, config, false);
    assert_eq!(bag.len(), 7 * 5 - 1);
    bag.push(second.piece_type);
    for t in ALL {
        assert_eq!(bag.iter().filter(|x| **x == t).count(), 5);
    }
}

#[test]
fn cells_are_occupied_exactly_when_colored() {
    let mut g = game_with(Piece::get_t_piece());
    Piece::drop_piece_down(&mut g, false);
    Piece::move_piece_left(&mut g.current_piece, &mut g.board);
    for r in 0..20 {
        for c in 0..10 {
            let cell = g.board.get(r, c);
            assert_eq!(cell.is_occupied(), cell.color() != (255, 255, 255));
        }
    }
    assert_eq!(Cell::Empty.color(), (255, 255, 255));
    assert_eq!(filled(PieceType::L).color(), (255, 127, 0));
}

#[test]
fn rejected_moves_leave_board_and_piece_alone() {
    let mut p = Piece::get_j_piece();
    p.offset = (0, 0);
    let mut g = game_with(p);
    let board = g.board;
    assert!(!Piece::move_piece_left(&mut g.current_piece, &mut g.board));
    assert_eq!(g.current_piece, p);
    assert_eq!(g.board.cells, board.cells);
    g.board.set(2, 3, filled(PieceType::Z));
    let board = g.board;
    let mut right = Piece::get_j_piece();
    right.offset = (0, 7);
    g.current_piece = right;
    assert!(!Piece::move_piece_right(&mut g.current_piece, &mut g.board));
    assert_eq!(g.current_piece, right);
    assert_eq!(g.board.cells, board.cells);
    let mut i = Piece::get_i_piece();
    i.offset = (18, 3);
    let mut g = game_with(i);
    let board = g.board;
    assert!(!Piece::rotate_piece(&mut g.current_piece, &mut g.board, false));
    assert_eq!(g.current_piece, i);
    assert_eq!(g.board.cells, board.cells);
}

#[test]
fn successful_move_relocates_the_piece() {
    let mut g = game_with(Piece::get_i_piece());
    assert!(Piece::move_piece_right(&mut g.current_piece, &mut g.board));
    assert_eq!(g.current_piece.offset, (0, 4));
    assert_eq!(g.board.get(0, 3), Cell::Empty);
    assert_eq!(g.board.get(0, 7), filled(PieceType::I));
    assert_eq!(count_filled(&g.board), 4);
    assert!(Piece::rotate_piece(&mut g.current_piece, &mut g.board, true));
    assert_eq!(g.current_piece.rotations, 1);
    for r in 0..4 {
        assert_eq!(g.board.get(r, 4), filled(PieceType::I));
    }
    assert_eq!(count_filled(&g.board), 4);
}

#[test]
fn line_clear_keeps_row_order_and_twenty_rows() {
    let mut b = Board::new();
    for c in 0..10 {
        b.set(5, c, filled(PieceType::S));
        b.set(10, c, filled(PieceType::Z));
    }
    b.set(4, 0, filled(PieceType::I));
    b.set(7, 1, filled(PieceType::O));
    b.set(12, 2, filled(PieceType::T));
    let mut score: u128 = 0;
    let mut counts = vec![0u128; 4];
    let n = MainGame::erase_lines(&mut b, &mut score, 1, &mut counts);
    assert_eq!(n, 2);
    assert_eq!(b.cells.len(), 20);
    assert_eq!(b.get(6, 0), filled(PieceType::I));
    assert_eq!(b.get(8, 1), filled(PieceType::O));
    assert_eq!(b.get(12, 2), filled(PieceType::T));
    assert_eq!(count_filled(&b), 3);
    assert_eq!(score, 100);
    assert_eq!(counts, vec![0, 1, 0, 0]);
}

#[test]
fn clear_scores_follow_the_table() {
    for (rows, points) in [(0usize, 0u128), (1, 40), (2, 100), (3, 300), (4, 1200)] {
        let mut b = Board::new();
        for r in 0..rows {
            for c in 0..10 {
                b.set(19 - r, c, filled(PieceType::J));
            }
        }
        let mut score: u128 = 7;
        let mut counts = vec![0u128; 4];
        let n = MainGame::erase_lines(&mut b, &mut score, 3, &mut counts);
        assert_eq!(n as usize, rows);
        assert_eq!(score, 7 + 3 * points);
        assert_eq!(count_filled(&b), 0);
        if rows > 0 {
            assert_eq!(counts[rows - 1], 1);
        } else {
            assert_eq!(counts, vec![0, 0, 0, 0]);
        }
    }
}

#[test]
fn level_is_ceiling_of_lines_plus_one_over_ten() {
    let mut g = vertical_i_at_right_edge();
    g.lines_cleared = 9;
    g.level = 1;
    for c in 0..9 {
        g.board.set(19, c, filled(PieceType::T));
    }
    Piece::drop_piece_down(&mut g, false);
    assert_eq!(g.lines_cleared, 10);
    assert_eq!(g.level, 2);
    assert_eq!(g.score, 16 + 40);
}

#[test]
fn new_bags_hold_every_type_equally_and_start_fair() {
    for _ in 0..50 {
        let bag = Piece::get_new_piece_bag(Config::default(), true);
        assert_eq!(bag.len(), 35);
        for t in ALL {
            assert_eq!(bag.iter().filter(|x| **x == t).count(), 5);
        }
        let last = *bag.last().unwrap();
        assert!(last != PieceType::S && last != PieceType::Z && last != PieceType::O);
    }
    let mut config = Config::default();
    config.bag_amount = 0;
    let bag = Piece::get_new_piece_bag(config, false);
    assert_eq!(bag.len(), 7);
}

#[test]
fn first_piece_of_a_game_is_never_an_overhang() {
    for _ in 0..50 {
        let g = MainGame::new(Config::default());
        let t = g.current_piece.piece_type;
        assert!(t != PieceType::S && t != PieceType::Z && t != PieceType::O);
    }
}

#[test]
fn shuffled_bags_are_not_all_in_catalog_order() {
    let mut config = Config::default();
    config.first_piece_no_overhang = false;
    let mut ordered = Vec::new();
    for _ in 0..5 {
        ordered.extend_from_slice(&ALL);
    }
    let mut differs = false;
    for _ in 0..20 {
        if Piece::get_new_piece_bag(config, false) != ordered {
            differs = true;
        }
    }
    assert!(differs);
}

#[test]
fn classic_randomizer_deals_several_types() {
    let mut seen = Vec::new();
    for _ in 0..300 {
        let p = Piece::get_random_piece_classic();
        assert_eq!(p.offset, (0, 3));
        assert_eq!(p.rotations, 0);
        if !seen.contains(&p.piece_type) {
            seen.push(p.piece_type);
        }
    }
    assert!(seen.len() > 1);
    let mut config = Config::default();
    config.modern_piece_rng = false;
    let mut bag = vec![PieceType::O];
    Piece::get_random_piece(&mut bag, config, true);
    assert_eq!(bag, vec![PieceType::O]);
}

#[test]
fn avoid_first_overhang_swaps_with_last_fair_piece() {
    let mut bag = vec![PieceType::I, PieceType::T, PieceType::S, PieceType::O, PieceType::Z];
    Piece::avoid_first_overhang(&mut bag);
    assert_eq!(bag, vec![PieceType::I, PieceType::Z, PieceType::S, PieceType::O, PieceType::T]);
    let mut fair = vec![PieceType::S, PieceType::L];
    Piece::avoid_first_overhang(&mut fair);
    assert_eq!(fair, vec![PieceType::S, PieceType::L]);
    let mut none = vec![PieceType::S, PieceType::O];
    Piece::avoid_first_overhang(&mut none);
    assert_eq!(none, vec![PieceType::S, PieceType::O]);
}

#[test]
fn only_one_hold_between_locks() {
    let mut g = MainGame::new(Config::default());
    let first = g.current_piece;
    let next = g.next_piece;
    Piece::hold_piece(&mut g);
    assert_eq!(g.held_piece, Some(first));
    assert_eq!(g.current_piece, next);
    assert!(!g.can_swap);
    let after_one = g.clone();
    Piece::hold_piece(&mut g);
    assert_eq!(g.current_piece, after_one.current_piece);
    assert_eq!(g.held_piece, after_one.held_piece);
    assert_eq!(g.board.cells, after_one.board.cells);
    Piece::drop_piece_down(&mut g, false);
    assert!(g.can_swap);
    let current = g.current_piece;
    Piece::hold_piece(&mut g);
    assert_eq!(g.held_piece, Some(current));
    assert_eq!(g.current_piece, Piece::of_type(first.piece_type));
}

#[test]
fn hold_is_refused_after_game_over() {
    let mut g = MainGame::new(Config::default());
    g.game_over = true;
    let before = g.clone();
    Piece::hold_piece(&mut g);
    assert_eq!(g.current_piece, before.current_piece);
    assert_eq!(g.held_piece, None);
    assert!(g.can_swap);
}

#[test]
fn shadow_projection_touches_nothing() {
    let mut g = game_with(Piece::get_o_piece());
    g.board.set(15, 4, filled(PieceType::T));
    let before = g.clone();
    let cells = Piece::get_shadow_piece(&g);
    assert_eq!(cells, vec![(13, 3), (13, 4), (14, 3), (14, 4)]);
    assert_eq!(g.score, before.score);
    assert_eq!(g.board.cells, before.board.cells);
    assert_eq!(g.piece_count, before.piece_count);
    assert_eq!(g.current_piece, before.current_piece);
    assert_eq!(g.next_piece, before.next_piece);
}

#[test]
fn colliding_spawn_ends_the_game_and_writes_nothing() {
    let mut g = MainGame::new(Config::default());
    g.board = Board::new();
    g.board.set(1, 4, filled(PieceType::Z));
    let before = g.board;
    let counts = g.piece_count.clone();
    Piece::spawn_piece(Piece::get_t_piece(), &mut g, false);
    assert!(g.game_over);
    assert_eq!(g.board.cells, before.cells);
    assert_eq!(g.piece_count[6], counts[6] + 1);
    let mut done = g.clone();
    Piece::spawn_piece(Piece::get_i_piece(), &mut done, false);
    assert_eq!(done.piece_count, g.piece_count);
}

#[test]
fn new_game_starts_with_the_first_piece_spawned() {
    let g = MainGame::new(Config::default());
    assert_eq!(count_filled(&g.board), 4);
    assert_eq!(g.score, 0);
    assert_eq!(g.level, 1);
    assert_eq!(g.held_piece, None);
    assert_eq!(g.piece_count.iter().sum::<u128>(), 1);
    assert_eq!(g.clear_count, vec![0, 0, 0, 0]);
    assert_eq!(g.piece_bag.len(), 33);
}

#[test]
fn reset_reinitialises_a_finished_game() {
    let mut g = MainGame::new(Config::default());
    g.score = 500;
    g.game_over = true;
    g.key_down_event(Command::Reset, false);
    assert!(g.game_over);
    g.key_down_event(Command::Reset, true);
    assert!(!g.game_over);
    assert_eq!(g.score, 0);
    assert_eq!(count_filled(&g.board), 4);
}

#[test]
fn pause_blocks_commands_until_resumed() {
    let mut g = MainGame::new(Config::default());
    g.key_down_event(Command::Pause, false);
    assert!(g.paused);
    let before = g.clone();
    g.key_down_event(Command::MoveLeft, false);
    g.update();
    assert_eq!(g.current_piece, before.current_piece);
    g.key_down_event(Command::Pause, false);
    assert!(!g.paused);
    g.update();
    assert_eq!(g.current_piece.offset.0, before.current_piece.offset.0 + 1);
}

#[test]
fn soft_drop_presses_score_at_lock_and_reset() {
    let mut g = game_with(Piece::get_i_piece());
    for _ in 0..3 {
        g.key_down_event(Command::SoftDrop, false);
    }
    assert_eq!(g.down_presses, 3);
    assert_eq!(g.current_piece.offset.0, 3);
    g.key_up_event(Command::SoftDrop);
    assert_eq!(g.down_presses, 0);
    g.key_down_event(Command::SoftDrop, false);
    g.key_down_event(Command::HardDrop, false);
    assert_eq!(g.score, 15 + 1);
    assert_eq!(g.down_presses, 0);
}

#[test]
fn defaults_and_gravity_rate() {
    let c = Config::default();
    assert!(c.colored_board && c.modern_piece_rng && c.first_piece_no_overhang && c.holding_enabled);
    assert_eq!(c.bag_amount, 5);
    assert!(colored_board_default());
    assert!(modern_piece_rng_default());
    assert_eq!(bag_amount_default(), 5);
    assert!(first_piece_no_overhang_default());
    assert!(holding_enabled_default());
    assert_eq!(ticks_per_drop(1), 1);
    assert_eq!(ticks_per_drop(5), 1);
    assert_eq!(ticks_per_drop(6), 2);
    assert_eq!(ticks_per_drop(11), 3);
}

#[test]
fn catalog_pieces_spawn_at_the_anchor() {
    let pieces = [
        Piece::get_i_piece(),
        Piece::get_l_piece(),
        Piece::get_j_piece(),
        Piece::get_s_piece(),
        Piece::get_z_piece(),
        Piece::get_o_piece(),
        Piece::get_t_piece(),
    ];
    for (p, t) in pieces.iter().zip(ALL) {
        assert_eq!(p.piece_type, t);
        assert_eq!(p.offset, (0, 3));
        assert_eq!(p.rotations, 0);
        assert_eq!(*p, Piece::of_type(t));
    }
    assert_eq!(Piece::get_t_piece().color(), (128, 0, 128));
}

#[test]
fn uncolored_board_shows_locked_blocks_white() {
    let mut config = Config::default();
    config.colored_board = false;
    let mut g = MainGame::new(config);
    g.board = Board::new();
    g.current_piece = Piece::get_t_piece();
    Piece::spawn_piece(g.current_piece, &mut g, true);
    g.board.set(19, 0, filled(PieceType::Z));
    assert_eq!(g.cell_display_color(19, 0), (255, 255, 255));
    assert_eq!(g.cell_display_color(0, 4), (128, 0, 128));
    g.config.colored_board = true;
    assert_eq!(g.cell_display_color(19, 0), (255, 0, 0));
}

#[test]
fn gravity_falls_every_ceil_level_over_five_ticks() {
    let mut g = game_with(Piece::get_i_piece());
    g.tick();
    assert_eq!(g.current_piece.offset.0, 1);
    g.lines_cleared = 60;
    g.level = 7;
    g.tick();
    assert_eq!(g.current_piece.offset.0, 1);
    assert_eq!(g.ticks, 1);
    g.tick();
    assert_eq!(g.current_piece.offset.0, 2);
    assert_eq!(g.ticks, 0);
    g.paused = true;
    g.tick();
    assert_eq!(g.ticks, 0);
    assert_eq!(g.current_piece.offset.0, 2);
}

#[test]
fn spawn_draws_the_rotation_zero_shape() {
    let mut g = MainGame::new(Config::default());
    g.board = Board::new();
    let mut i = Piece::get_i_piece();
    i.rotations = 1;
    Piece::spawn_piece(i, &mut g, false);
    assert!(!g.game_over);
    for c in 3..7 {
        assert_eq!(g.board.get(0, c), filled(PieceType::I));
    }
    assert_eq!(count_filled(&g.board), 4);

    let mut g = MainGame::new(Config::default());
    g.board = Board::new();
    g.board.set(0, 4, filled(PieceType::Z));
    let before = g.board;
    Piece::spawn_piece(i, &mut g, false);
    assert!(g.game_over);
    assert_eq!(g.board.cells, before.cells);

    let mut g = MainGame::new(Config::default());
    g.board = Board::new();
    g.board.set(1, 4, filled(PieceType::Z));
    let before = g.board;
    let mut l = Piece::get_l_piece();
    l.rotations = 2;
    Piece::spawn_piece(l, &mut g, false);
    assert!(g.game_over);
    assert_eq!(g.board.cells, before.cells);
    assert_eq!(g.board.get(1, 3), Cell::Empty);
}

#[test]
fn new_game_deals_from_a_fresh_bag() {
    let g = MainGame::new(Config::default());
    let mut all = g.piece_bag.clone();
    all.push(g.next_piece.piece_type);
    all.push(g.current_piece.piece_type);
    assert_eq!(all.len(), 35);
    for t in ALL {
        assert_eq!(all.iter().filter(|x| **x == t).count(), 5);
    }
    let mut config = Config::default();
    config.modern_piece_rng = false;
    config.bag_amount = 2;
    let g = MainGame::new(config);
    assert_eq!(g.piece_bag.len(), 14);
}
