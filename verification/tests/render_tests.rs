use tetris::game::TetrisGame;
use tetris::piece::TetrominoType;

fn expected_empty_render() -> Vec<u8> {
    let mut s = String::new();
    s.push('\u{2554}');
    for _ in 0..20 {
        s.push('\u{2550}');
    }
    s.push('\u{2557}');
    s.push('\n');
    for _ in 0..20 {
        s.push('\u{2551}');
        for _ in 0..10 {
            s.push_str("  ");
        }
        s.push('\u{2551}');
        s.push('\n');
    }
    s.push('\u{255A}');
    for _ in 0..20 {
        s.push('\u{2550}');
    }
    s.push('\u{255D}');
    s.push('\n');
    s.push_str("Score: 0\n");
    s.into_bytes()
}

#[test]
fn render_empty_board_with_score_zero() {
    let g = TetrisGame::new();
    let out = g.render_to_buffer(2048);
    let expected = expected_empty_render();
    assert_eq!(out, expected);
    assert!(out.starts_with("\u{2554}\u{2550}\u{2550}".as_bytes()));
    assert!(out.ends_with(b"Score: 0\n"));
}

#[test]
fn render_overlays_the_active_piece_without_mutating_the_board() {
    let mut g = TetrisGame::with_board([[false; 10]; 20], TetrominoType::O);
    g.spawn_piece();
    let out = g.render_to_buffer(2048);
    let text = String::from_utf8(out).expect("valid utf-8");
    // The O piece covers rows 1 and 2, columns 4 and 5: the second body row
    // shows two filled two-column glyphs after four empty columns.
    let lines: Vec<&str> = text.lines().collect();
    let row1: Vec<char> = lines[2].chars().collect();
    assert_eq!(row1[1 + 8], '\u{2588}');
    assert_eq!(row1[1 + 9], '\u{2588}');
    assert_eq!(row1[1 + 10], '\u{2588}');
    assert_eq!(row1[1 + 11], '\u{2588}');
    assert_eq!(row1[1 + 7], ' ');
    assert_eq!(row1[1 + 12], ' ');
    // Rendering never bakes the piece into the stored board.
    for y in 0..20 {
        for x in 0..10 {
            assert!(!g.board[y][x]);
        }
    }
}

#[test]
fn render_truncates_at_capacity_without_error() {
    let g = TetrisGame::new();
    let full = g.render_to_buffer(4096);
    let cut = g.render_to_buffer(10);
    assert_eq!(cut.len(), 10);
    assert_eq!(&cut[..], &full[..10]);
    let nothing = g.render_to_buffer(0);
    assert!(nothing.is_empty());
}

#[test]
fn render_appends_game_over_banner() {
    let mut board = [[false; 10]; 20];
    board[1][4] = true;
    let mut g = TetrisGame::with_board(board, TetrominoType::O);
    g.spawn_piece();
    assert!(g.game_over);
    let out = g.render_to_buffer(2048);
    assert!(out.ends_with(b"GAME OVER!\n"));
}

#[test]
fn render_score_in_decimal_without_leading_zeros() {
    let mut g = TetrisGame::new();
    g.score = 1050;
    let out = g.render_to_buffer(2048);
    assert!(out.ends_with(b"Score: 1050\n"));
}
