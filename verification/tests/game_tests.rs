use tetris::game::TetrisGame;
use tetris::game::ControlError;
use tetris::piece::{Tetromino, TetrominoType};

fn empty_board() -> [[bool; 10]; 20] {
    [[false; 10]; 20]
}

#[test]
fn new_game_is_empty_and_playing() {
    let g = TetrisGame::new();
    assert!(!g.game_over);
    assert!(g.current_piece.is_none());
    assert_eq!(g.score, 0);
    for row in g.board.iter() {
        for cell in row.iter() {
            assert!(!cell);
        }
    }
}

#[test]
fn collision_is_deterministic() {
    let mut board = empty_board();
    board[10][4] = true;
    let g = TetrisGame::with_board(board, TetrominoType::T);
    let p = Tetromino {
        piece_type: TetrominoType::T,
        x: 3,
        y: 8,
        rotation: 0,
    };
    let first = g.check_collision(&p);
    let second = g.check_collision(&p);
    assert_eq!(first, second);
    assert!(first);
}

#[test]
fn collision_detects_walls_and_floor() {
    let g = TetrisGame::with_board(empty_board(), TetrominoType::I);
    let left = Tetromino {
        piece_type: TetrominoType::I,
        x: -1,
        y: 0,
        rotation: 0,
    };
    assert!(g.check_collision(&left));
    let right = Tetromino {
        piece_type: TetrominoType::I,
        x: 7,
        y: 0,
        rotation: 0,
    };
    assert!(g.check_collision(&right));
    let floor = Tetromino {
        piece_type: TetrominoType::O,
        x: 3,
        y: 18,
        rotation: 0,
    };
    assert!(g.check_collision(&floor));
    let fine = Tetromino {
        piece_type: TetrominoType::O,
        x: 3,
        y: 17,
        rotation: 0,
    };
    assert!(!g.check_collision(&fine));
}

#[test]
fn spawn_on_empty_board_succeeds() {
    let mut g = TetrisGame::with_board(empty_board(), TetrominoType::Z);
    g.spawn_piece();
    assert!(!g.game_over);
    let p = g.current_piece.expect("piece spawned");
    assert_eq!(p.piece_type, TetrominoType::Z);
    assert_eq!(p.x, 3);
    assert_eq!(p.y, 0);
    assert_eq!(p.rotation, 0);
}

#[test]
fn spawn_advances_the_lookahead_kind() {
    let mut g = TetrisGame::with_board(empty_board(), TetrominoType::Z);
    g.spawn_piece();
    // The selector reads (score + top-left cell) mod 7 = 0, the first kind.
    assert_eq!(g.next_piece_type, TetrominoType::I);
}

#[test]
fn terminal_state_ignores_moves_until_reset() {
    let mut board = empty_board();
    board[1][4] = true;
    let mut g = TetrisGame::with_board(board, TetrominoType::O);
    g.spawn_piece();
    assert!(g.game_over);
    let board_before = g.board;
    assert!(!g.move_left());
    assert!(!g.move_right());
    assert!(!g.move_down());
    assert!(!g.rotate());
    g.hard_drop();
    g.spawn_piece();
    assert!(g.game_over);
    assert!(g.current_piece.is_none());
    assert_eq!(g.board, board_before);
}

#[test]
fn spawn_collision_is_the_sole_game_over_trigger() {
    let mut board = empty_board();
    // The O piece spawns on cells (1..=2, 4..=5); block one of them.
    board[1][4] = true;
    let mut g = TetrisGame::with_board(board, TetrominoType::O);
    g.spawn_piece();
    assert!(g.game_over);
    assert!(g.current_piece.is_none());
}

#[test]
fn moves_are_speculative_and_reversible_on_collision() {
    let mut g = TetrisGame::with_board(empty_board(), TetrominoType::O);
    g.spawn_piece();
    assert!(g.move_left());
    assert_eq!(g.current_piece.unwrap().x, 2);
    assert!(g.move_right());
    assert_eq!(g.current_piece.unwrap().x, 3);
    // The O piece occupies columns x+1 and x+2: the left wall stops it at x = -1.
    let mut lefts = 0;
    while g.move_left() {
        lefts += 1;
    }
    assert_eq!(lefts, 4);
    assert_eq!(g.current_piece.unwrap().x, -1);
    // A refused move leaves the piece untouched.
    let before = g.current_piece.unwrap();
    assert!(!g.move_left());
    assert_eq!(g.current_piece.unwrap(), before);
}

#[test]
fn rotation_rejected_when_it_would_collide() {
    let mut g = TetrisGame::with_board(empty_board(), TetrominoType::I);
    g.spawn_piece();
    // Vertical I hugging the left wall: rotating back to horizontal would
    // cross the wall, so the rotation is refused.
    assert!(g.rotate());
    for _ in 0..5 {
        g.move_left();
    }
    assert_eq!(g.current_piece.unwrap().x, -2);
    let before = g.current_piece.unwrap();
    assert!(!g.rotate());
    assert_eq!(g.current_piece.unwrap(), before);
}

#[test]
fn o_piece_drops_to_the_bottom() {
    let mut g = TetrisGame::with_board(empty_board(), TetrominoType::O);
    g.spawn_piece();
    let mut downs = 0;
    while g.move_down() {
        downs += 1;
    }
    // The O piece's 2 x 2 footprint sits on rows 18 and 19, columns 4 and 5.
    assert_eq!(downs, 17);
    assert!(g.board[18][4]);
    assert!(g.board[18][5]);
    assert!(g.board[19][4]);
    assert!(g.board[19][5]);
    for x in 0..10 {
        if x != 4 && x != 5 {
            assert!(!g.board[19][x]);
            assert!(!g.board[18][x]);
        }
    }
    // The downward collision locked the piece and spawned the next one.
    assert!(g.current_piece.is_some());
    assert_eq!(g.score, 0);
}

#[test]
fn hard_drop_locks_in_place() {
    let mut g = TetrisGame::with_board(empty_board(), TetrominoType::O);
    g.spawn_piece();
    g.hard_drop();
    assert!(g.board[18][4]);
    assert!(g.board[18][5]);
    assert!(g.board[19][4]);
    assert!(g.board[19][5]);
    assert!(g.current_piece.is_some());
}

#[test]
fn lock_preserves_previously_occupied_cells() {
    let mut board = empty_board();
    board[19][0] = true;
    board[19][9] = true;
    board[15][3] = true;
    let mut g = TetrisGame::with_board(board, TetrominoType::O);
    g.spawn_piece();
    g.hard_drop();
    // No row filled, so no clear ran: every previously occupied cell stays.
    assert!(g.board[19][0]);
    assert!(g.board[19][9]);
    assert!(g.board[15][3]);
    assert_eq!(g.score, 0);
}

#[test]
fn completing_a_row_clears_it_and_scores_100() {
    let mut board = empty_board();
    for x in 1..10 {
        board[19][x] = true;
    }
    let mut g = TetrisGame::with_board(board, TetrominoType::I);
    g.spawn_piece();
    // Stand the I upright (column x + 2) and walk it to column 0.
    assert!(g.rotate());
    for _ in 0..5 {
        assert!(g.move_left());
    }
    g.hard_drop();
    assert_eq!(g.score, 100);
    // The full bottom row went away; the upright I's three remaining cells
    // moved down one row, and the top row is entirely empty again.
    for x in 1..10 {
        assert!(!g.board[19][x]);
    }
    assert!(g.board[19][0]);
    assert!(g.board[18][0]);
    assert!(g.board[17][0]);
    assert!(!g.board[16][0]);
    for x in 0..10 {
        assert!(!g.board[0][x]);
    }
}

#[test]
fn clear_lines_ignores_rows_with_an_empty_cell() {
    let mut board = empty_board();
    for x in 0..9 {
        board[19][x] = true;
    }
    let mut g = TetrisGame::with_board(board, TetrominoType::T);
    g.clear_lines();
    assert_eq!(g.score, 0);
    for x in 0..9 {
        assert!(g.board[19][x]);
    }
    assert!(!g.board[19][9]);
}

#[test]
fn two_separated_full_rows_score_300() {
    let mut board = empty_board();
    for x in 0..10 {
        board[19][x] = true;
        board[17][x] = true;
    }
    board[18][0] = true;
    let mut g = TetrisGame::with_board(board, TetrominoType::T);
    g.clear_lines();
    assert_eq!(g.score, 300);
    // Both full rows went; the partial row slid to the bottom.
    assert!(g.board[19][0]);
    for x in 1..10 {
        assert!(!g.board[19][x]);
    }
    for y in 0..19 {
        for x in 0..10 {
            assert!(!g.board[y][x]);
        }
    }
}

#[test]
fn adjacent_full_rows_clear_one_per_pass() {
    // The single bottom-to-top pass does not revisit shifted rows: of two
    // adjacent full rows only the lower one is cleared by one pass, and the
    // other remains for the next lock event.
    let mut board = empty_board();
    for x in 0..10 {
        board[19][x] = true;
        board[18][x] = true;
    }
    let mut g = TetrisGame::with_board(board, TetrominoType::T);
    g.clear_lines();
    assert_eq!(g.score, 100);
    for x in 0..10 {
        assert!(g.board[19][x]);
        assert!(!g.board[18][x]);
    }
    g.clear_lines();
    assert_eq!(g.score, 200);
    for x in 0..10 {
        assert!(!g.board[19][x]);
    }
}

#[test]
fn three_separated_full_rows_score_500() {
    let mut board = empty_board();
    for y in [15, 17, 19] {
        for x in 0..10 {
            board[y][x] = true;
        }
    }
    let mut g = TetrisGame::with_board(board, TetrominoType::T);
    g.clear_lines();
    assert_eq!(g.score, 500);
    for y in 0..20 {
        for x in 0..10 {
            assert!(!g.board[y][x]);
        }
    }
}

#[test]
fn four_full_rows_score_800() {
    let mut board = empty_board();
    for y in [13, 15, 17, 19] {
        for x in 0..10 {
            board[y][x] = true;
        }
    }
    let mut g = TetrisGame::with_board(board, TetrominoType::T);
    g.clear_lines();
    assert_eq!(g.score, 800);
    for y in 0..20 {
        for x in 0..10 {
            assert!(!g.board[y][x]);
        }
    }
}

#[test]
fn score_is_monotonic_across_events() {
    let mut g = TetrisGame::with_board(empty_board(), TetrominoType::O);
    g.spawn_piece();
    let mut last = g.score;
    for _ in 0..30 {
        g.hard_drop();
        assert!(g.score >= last);
        last = g.score;
        if g.game_over {
            break;
        }
    }
}

#[test]
fn reset_resumes_play_with_a_fresh_piece() {
    let mut board = empty_board();
    board[1][4] = true;
    let mut g = TetrisGame::with_board(board, TetrominoType::O);
    g.spawn_piece();
    assert!(g.game_over);
    g.reset();
    assert!(!g.game_over);
    assert!(g.current_piece.is_some());
    assert_eq!(g.score, 0);
    for y in 0..20 {
        for x in 0..10 {
            assert!(!g.board[y][x]);
        }
    }
}

#[test]
fn next_piece_selector_follows_score_and_corner_cell() {
    // (score + top-left cell) mod 7 in enumeration order.
    let g = TetrisGame::with_board(empty_board(), TetrominoType::I);
    assert_eq!(g.get_random_piece_type(), TetrominoType::I);
    let mut corner = empty_board();
    corner[0][0] = true;
    let g2 = TetrisGame::with_board(corner, TetrominoType::I);
    assert_eq!(g2.get_random_piece_type(), TetrominoType::O);
    let mut g3 = TetrisGame::with_board(empty_board(), TetrominoType::I);
    g3.score = 100;
    assert_eq!(g3.get_random_piece_type(), TetrominoType::T);
}

#[test]
fn control_code_6_is_invalid_and_5_resets() {
    let mut board = empty_board();
    board[1][4] = true;
    let mut g = TetrisGame::with_board(board, TetrominoType::O);
    g.spawn_piece();
    assert!(g.game_over);
    assert_eq!(g.apply_control_code(6), Err(ControlError::InvalidCode));
    assert!(g.game_over);
    assert_eq!(g.apply_control_code(5), Ok(()));
    assert!(!g.game_over);
    assert!(g.current_piece.is_some());
}

#[test]
fn control_codes_drive_the_moves() {
    let mut g = TetrisGame::with_board(empty_board(), TetrominoType::O);
    g.spawn_piece();
    assert_eq!(g.apply_control_code(0), Ok(()));
    assert_eq!(g.current_piece.unwrap().x, 2);
    assert_eq!(g.apply_control_code(1), Ok(()));
    assert_eq!(g.current_piece.unwrap().x, 3);
    assert_eq!(g.apply_control_code(2), Ok(()));
    assert_eq!(g.current_piece.unwrap().y, 1);
    assert_eq!(g.apply_control_code(3), Ok(()));
    assert_eq!(g.current_piece.unwrap().rotation, 1);
    assert_eq!(g.apply_control_code(4), Ok(()));
    assert!(g.board[19][4]);
}

#[test]
fn command_bytes_drive_the_moves_and_others_are_ignored() {
    let mut g = TetrisGame::with_board(empty_board(), TetrominoType::O);
    g.spawn_piece();
    g.apply_command(b'a');
    assert_eq!(g.current_piece.unwrap().x, 2);
    g.apply_command(b'D');
    assert_eq!(g.current_piece.unwrap().x, 3);
    g.apply_command(b's');
    assert_eq!(g.current_piece.unwrap().y, 1);
    g.apply_command(b'w');
    assert_eq!(g.current_piece.unwrap().rotation, 1);
    let before = g.current_piece.unwrap();
    g.apply_command(b'x');
    assert_eq!(g.current_piece.unwrap(), before);
    g.apply_command(b' ');
    assert!(g.board[19][4]);
    g.apply_command(b'r');
    assert_eq!(g.score, 0);
    for y in 0..20 {
        for x in 0..10 {
            assert!(!g.board[y][x]);
        }
    }
}
