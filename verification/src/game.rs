//! The board, the collision engine, and the game state machine: spawning,
//! moves, rotation, locking, line clearing, scoring, and reset, together with
//! the byte-command and control-code dispatch that drives them.

use vstd::arithmetic::div_mod::lemma_add_mod_noop;
use vstd::prelude::*;

use crate::piece::{lemma_shape_nonempty, mat_view, shape_mat, Tetromino, TetrominoType};

verus! {

pub const BOARD_WIDTH: usize = 10;

pub const BOARD_HEIGHT: usize = 20;

/// The mathematical model of a game state: the grid of locked cells as a
/// sequence of rows, the active piece, the score, the terminal flag, and the
/// kind the next spawn will use.
#[verifier::ext_equal]
pub struct GameModel {
    pub grid: Seq<Seq<bool>>,
    pub piece: Option<Tetromino>,
    pub score: u32,
    pub game_over: bool,
    pub next: TetrominoType,
}

/// A grid of 20 rows of 10 cells.
pub open spec fn grid_wf(g: Seq<Seq<bool>>) -> bool {
    g.len() == 20 && forall|y: int| 0 <= y < 20 ==> (#[trigger] g[y]).len() == 10
}

/// The piece covers board cell `(y, x)`: the cell falls inside the piece's
/// 4 x 4 bounding box and the corresponding shape cell is filled.
pub open spec fn covers(p: Tetromino, y: int, x: int) -> bool {
    &&& p.y <= y < p.y + 4
    &&& p.x <= x < p.x + 4
    &&& shape_mat(p.piece_type, (p.rotation % 4) as nat)[y - p.y][x - p.x]
}

/// Shape cell `(i, j)` of the piece witnesses a collision: it is filled and
/// its board position is out of bounds or already occupied.
pub open spec fn collides_at(g: Seq<Seq<bool>>, p: Tetromino, i: int, j: int) -> bool {
    shape_mat(p.piece_type, (p.rotation % 4) as nat)[i][j] && (p.x + j < 0 || p.x + j >= 10 || p.y
        + i < 0 || p.y + i >= 20 || g[p.y + i][p.x + j])
}

/// The piece, at its position and orientation, collides with the board: some
/// filled shape cell is out of bounds or overlaps an occupied cell.
pub open spec fn collides(g: Seq<Seq<bool>>, p: Tetromino) -> bool {
    exists|i: int, j: int| 0 <= i < 4 && 0 <= j < 4 && collides_at(g, p, i, j)
}

/// A fresh piece of the given kind at the fixed spawn position.
pub open spec fn spawn_tetromino(kind: TetrominoType) -> Tetromino {
    Tetromino { piece_type: kind, x: 3, y: 0, rotation: 0 }
}

/// The kind at a given index of the fixed enumeration order.
pub open spec fn kind_of_index(n: int) -> TetrominoType {
    if n == 0 {
        TetrominoType::I
    } else if n == 1 {
        TetrominoType::O
    } else if n == 2 {
        TetrominoType::T
    } else if n == 3 {
        TetrominoType::S
    } else if n == 4 {
        TetrominoType::Z
    } else if n == 5 {
        TetrominoType::J
    } else {
        TetrominoType::L
    }
}

/// The deterministic next-piece selector: `(score + top-left cell) mod 7`,
/// mapped to the kinds in enumeration order.
pub open spec fn pick_kind(score: u32, top_left: bool) -> TetrominoType {
    kind_of_index((score + if top_left {
        1int
    } else {
        0int
    }) % 7)
}

/// A well-formed state: the grid has its fixed dimensions, and the active
/// piece, when present, has a reduced rotation and rests in a legal position.
pub open spec fn model_wf(m: GameModel) -> bool {
    &&& grid_wf(m.grid)
    &&& m.piece matches Some(p) ==> p.rotation < 4 && !collides(m.grid, p)
}

/// The spawn transition: in a terminal state nothing happens; otherwise the
/// next kind is placed at the spawn position, and either it collides at once
/// (the sole game-over trigger) or it becomes the active piece and the
/// selector picks the following kind.
pub open spec fn spawn_model(m: GameModel) -> GameModel {
    if m.game_over {
        m
    } else {
        let cand = spawn_tetromino(m.next);
        if collides(m.grid, cand) {
            GameModel { game_over: true, ..m }
        } else {
            GameModel { piece: Some(cand), next: pick_kind(m.score, m.grid[0][0]), ..m }
        }
    }
}

/// The speculative-move step shared by the lateral moves and the rotation:
/// commit the candidate piece if it is legal, else leave the state unchanged.
pub open spec fn try_piece(m: GameModel, cand: Tetromino) -> (GameModel, bool) {
    if !collides(m.grid, cand) {
        (GameModel { piece: Some(cand), ..m }, true)
    } else {
        (m, false)
    }
}

/// The move-left transition and its success flag.
pub open spec fn move_left_model(m: GameModel) -> (GameModel, bool) {
    match m.piece {
        Some(p) => try_piece(m, Tetromino { x: (p.x - 1) as i32, ..p }),
        None => (m, false),
    }
}

/// The move-right transition and its success flag.
pub open spec fn move_right_model(m: GameModel) -> (GameModel, bool) {
    match m.piece {
        Some(p) => try_piece(m, Tetromino { x: (p.x + 1) as i32, ..p }),
        None => (m, false),
    }
}

/// The rotate transition and its success flag: one more quarter turn, same
/// position, committed only if legal; no wall kicks.
pub open spec fn rotate_model(m: GameModel) -> (GameModel, bool) {
    match m.piece {
        Some(p) => try_piece(m, Tetromino { rotation: ((p.rotation + 1) % 4) as u8, ..p }),
        None => (m, false),
    }
}

/// The grid after the active piece is baked in: a cell is occupied if it was
/// occupied before or the piece covers it (cells outside the board are
/// dropped by the bounds of the grid itself).
pub open spec fn bake_grid(g: Seq<Seq<bool>>, p: Tetromino) -> Seq<Seq<bool>> {
    Seq::new(20, |y: int| Seq::new(10, |x: int| g[y][x] || covers(p, y, x)))
}

/// Every cell of the row is occupied.
pub open spec fn row_full(row: Seq<bool>) -> bool {
    forall|x: int| 0 <= x < 10 ==> row[x]
}

/// No cell of the row is occupied.
pub open spec fn row_empty(row: Seq<bool>) -> bool {
    forall|x: int| 0 <= x < 10 ==> !row[x]
}

/// A row of 10 unoccupied cells.
pub open spec fn empty_row() -> Seq<bool> {
    Seq::new(10, |x: int| false)
}

/// A grid of 20 empty rows.
pub open spec fn empty_grid() -> Seq<Seq<bool>> {
    Seq::new(20, |y: int| empty_row())
}

/// Remove row `y`: every row above it moves down by one and a fresh empty
/// row appears at the top; rows below `y` are unchanged.
pub open spec fn shift_down(g: Seq<Seq<bool>>, y: int) -> Seq<Seq<bool>> {
    Seq::new(
        20,
        |r: int|
            if r > y {
                g[r]
            } else if r == 0 {
                empty_row()
            } else {
                g[r - 1]
            },
    )
}

/// The single bottom-to-top clearing pass over rows `y` down to `0`: each
/// scan position holding a full row is cleared by a shift, and the scan then
/// moves up without revisiting shifted rows. Returns the resulting grid and
/// the number of rows cleared.
pub open spec fn clear_pass(g: Seq<Seq<bool>>, y: int) -> (Seq<Seq<bool>>, nat)
    decreases y + 1,
{
    if y < 0 {
        (g, 0)
    } else {
        let g1 = if row_full(g[y]) {
            shift_down(g, y)
        } else {
            g
        };
        let rest = clear_pass(g1, y - 1);
        (rest.0, (rest.1 + if row_full(g[y]) {
            1nat
        } else {
            0nat
        }) as nat)
    }
}

/// The score awarded for clearing `n` rows in one lock event.
pub open spec fn line_score(n: nat) -> nat {
    if n == 0 {
        0
    } else if n == 1 {
        100
    } else if n == 2 {
        300
    } else if n == 3 {
        500
    } else {
        800
    }
}

/// The score after a lock event that cleared `n` rows, saturating at the
/// largest representable score.
pub open spec fn bump_score(s: u32, n: nat) -> u32 {
    if s + line_score(n) <= u32::MAX {
        (s + line_score(n)) as u32
    } else {
        u32::MAX
    }
}

/// The lock transition: bake the piece into the grid, drop the piece, run
/// the clearing pass, award the score, and spawn the next piece. With no
/// active piece nothing happens.
pub open spec fn lock_model(m: GameModel) -> GameModel {
    match m.piece {
        Some(p) => {
            let baked = bake_grid(m.grid, p);
            let cleared = clear_pass(baked, 19);
            spawn_model(
                GameModel {
                    grid: cleared.0,
                    piece: None,
                    score: bump_score(m.score, cleared.1),
                    game_over: m.game_over,
                    next: m.next,
                },
            )
        },
        None => m,
    }
}

/// The move-down transition and its success flag: descend one row if legal;
/// a downward collision is the sole lock trigger.
pub open spec fn down_step(m: GameModel) -> (GameModel, bool) {
    match m.piece {
        Some(p) => {
            let cand = Tetromino { y: (p.y + 1) as i32, ..p };
            if !collides(m.grid, cand) {
                (GameModel { piece: Some(cand), ..m }, true)
            } else {
                (lock_model(m), false)
            }
        },
        None => (m, false),
    }
}

/// The hard-drop transition: the piece descends while it legally can and is
/// then locked; with no active piece nothing happens.
pub open spec fn drop_model(m: GameModel) -> GameModel
    decreases (match m.piece {
        Some(p) => 20 - p.y,
        None => 0int,
    }),
{
    match m.piece {
        Some(p) => {
            let cand = Tetromino { y: (p.y + 1) as i32, ..p };
            if -4 <= p.y < 20 && !collides(m.grid, cand) {
                drop_model(GameModel { piece: Some(cand), ..m })
            } else {
                lock_model(m)
            }
        },
        None => m,
    }
}

/// The reset transition: an empty board, no piece, score zero, play resumed,
/// then a spawn. The next-piece lookahead carries over.
pub open spec fn reset_model(m: GameModel) -> GameModel {
    spawn_model(
        GameModel {
            grid: empty_grid(),
            piece: None,
            score: 0,
            game_over: false,
            next: m.next,
        },
    )
}

/// The error returned for an unrecognized control code.
#[derive(Clone, Copy, PartialEq, Eq, Structural, Debug)]
pub enum ControlError {
    InvalidCode,
}

/// The byte-command transition table: a/A left, d/D right, s/S down, w/W
/// rotate, space hard drop, r/R reset; any other byte is a no-op.
pub open spec fn command_model(m: GameModel, b: u8) -> GameModel {
    if b == 97 || b == 65 {
        move_left_model(m).0
    } else if b == 100 || b == 68 {
        move_right_model(m).0
    } else if b == 115 || b == 83 {
        down_step(m).0
    } else if b == 119 || b == 87 {
        rotate_model(m).0
    } else if b == 32 {
        drop_model(m)
    } else if b == 114 || b == 82 {
        reset_model(m)
    } else {
        m
    }
}

/// The control-code transition table for the codes 0 to 5.
pub open spec fn control_model(m: GameModel, cmd: u32) -> GameModel {
    if cmd == 0 {
        move_left_model(m).0
    } else if cmd == 1 {
        move_right_model(m).0
    } else if cmd == 2 {
        down_step(m).0
    } else if cmd == 3 {
        rotate_model(m).0
    } else if cmd == 4 {
        drop_model(m)
    } else {
        reset_model(m)
    }
}

/// A legally placed piece sits close to the board: some filled shape cell is
/// in bounds, and the bounding box is anchored at most 3 cells outside.
pub proof fn lemma_piece_bounds(g: Seq<Seq<bool>>, p: Tetromino)
    requires
        !collides(g, p),
    ensures
        -3 <= p.x <= 9,
        -3 <= p.y <= 19,
{
    lemma_shape_nonempty(p.piece_type, (p.rotation % 4) as nat);
    let (i, j): (int, int) = choose|i: int, j: int|
        0 <= i < 4 && 0 <= j < 4 && #[trigger] shape_mat(p.piece_type, (p.rotation % 4) as nat)[i][j];
    assert(!collides_at(g, p, i, j));
}

/// The game state: the occupancy grid of locked cells, the falling piece,
/// the score, the terminal flag, and the next piece's kind.
pub struct TetrisGame {
    pub board: [[bool; BOARD_WIDTH]; BOARD_HEIGHT],
    pub current_piece: Option<Tetromino>,
    pub score: u32,
    pub game_over: bool,
    pub next_piece_type: TetrominoType,
}

impl TetrisGame {
    /// The grid of locked cells as a sequence of rows.
    pub open spec fn grid(&self) -> Seq<Seq<bool>> {
        Seq::new(20, |y: int| Seq::new(10, |x: int| self.board[y][x]))
    }

    /// The whole state as its mathematical model.
    pub open spec fn model(&self) -> GameModel {
        GameModel {
            grid: self.grid(),
            piece: self.current_piece,
            score: self.score,
            game_over: self.game_over,
            next: self.next_piece_type,
        }
    }

    /// The state is well formed.
    pub open spec fn wf(&self) -> bool {
        model_wf(self.model())
    }

    /// A fresh game: empty board, no active piece, score zero, playing, with
    /// the first kind of the catalogue as lookahead.
    pub fn new() -> (g: TetrisGame)
        ensures
            g.wf(),
            g.model() == (GameModel {
                grid: empty_grid(),
                piece: None,
                score: 0,
                game_over: false,
                next: TetrominoType::I,
            }),
    {
        let g = TetrisGame {
            board: [[false; BOARD_WIDTH]; BOARD_HEIGHT],
            current_piece: None,
            score: 0,
            game_over: false,
            next_piece_type: TetrominoType::I,
        };
        proof {
            assert(g.grid() =~~= empty_grid());
        }
        g
    }

    /// A game over a given board, with no active piece, score zero, playing,
    /// and a chosen lookahead kind.
    pub fn with_board(board: [[bool; BOARD_WIDTH]; BOARD_HEIGHT], next: TetrominoType) -> (g:
        TetrisGame)
        ensures
            g.wf(),
            g.model().grid == Seq::new(20, |y: int| Seq::new(10, |x: int| board[y][x])),
            g.model().piece is None,
            g.model().score == 0,
            !g.model().game_over,
            g.model().next == next,
    {
        TetrisGame {
            board,
            current_piece: None,
            score: 0,
            game_over: false,
            next_piece_type: next,
        }
    }

    /// Whether the piece, at its position and orientation, collides with the
    /// board: some filled shape cell out of bounds or on an occupied cell.
    /// A pure function of its inputs alone.
    pub fn check_collision(&self, piece: &Tetromino) -> (r: bool)
        ensures
            r == collides(self.grid(), *piece),
    {
        let shape = piece.get_shape();
        let mut i: usize = 0;
        while i < 4
            invariant
                i <= 4,
                mat_view(shape) == shape_mat(piece.piece_type, (piece.rotation % 4) as nat),
                forall|a: int, b: int|
                    0 <= a < i && 0 <= b < 4 ==> !#[trigger] collides_at(self.grid(), *piece, a, b),
            decreases 4 - i,
        {
            let mut j: usize = 0;
            while j < 4
                invariant
                    i < 4,
                    j <= 4,
                    mat_view(shape) == shape_mat(piece.piece_type, (piece.rotation % 4) as nat),
                    forall|a: int, b: int|
                        0 <= a < i && 0 <= b < 4 ==> !#[trigger] collides_at(
                            self.grid(),
                            *piece,
                            a,
                            b,
                        ),
                    forall|b: int|
                        0 <= b < j ==> !#[trigger] collides_at(self.grid(), *piece, i as int, b),
                decreases 4 - j,
            {
                if shape[i][j] {
                    let board_x = piece.x as i64 + j as i64;
                    let board_y = piece.y as i64 + i as i64;
                    if board_x < 0 || board_x >= BOARD_WIDTH as i64 {
                        proof {
                            assert(collides_at(self.grid(), *piece, i as int, j as int));
                        }
                        return true;
                    }
                    if board_y < 0 || board_y >= BOARD_HEIGHT as i64 {
                        proof {
                            assert(collides_at(self.grid(), *piece, i as int, j as int));
                        }
                        return true;
                    }
                    if self.board[board_y as usize][board_x as usize] {
                        proof {
                            assert(self.grid()[board_y as int][board_x as int]);
                            assert(collides_at(self.grid(), *piece, i as int, j as int));
                        }
                        return true;
                    }
                }
                proof {
                    assert(!collides_at(self.grid(), *piece, i as int, j as int));
                }
                j += 1;
            }
            i += 1;
        }
        false
    }

    /// The deterministic pseudo-random selector for the next piece's kind:
    /// `(score + top-left cell) mod 7` in the fixed enumeration order.
    pub fn get_random_piece_type(&self) -> (k: TetrominoType)
        ensures
            k == pick_kind(self.score, self.grid()[0][0]),
    {
        let bump: u32 = if self.board[0][0] {
            1
        } else {
            0
        };
        let random = (self.score % 7 + bump) % 7;
        proof {
            lemma_add_mod_noop(self.score as int, bump as int, 7);
            assert(self.grid()[0][0] == self.board[0][0]);
        }
        match random {
            0 => TetrominoType::I,
            1 => TetrominoType::O,
            2 => TetrominoType::T,
            3 => TetrominoType::S,
            4 => TetrominoType::Z,
            5 => TetrominoType::J,
            _ => TetrominoType::L,
        }
    }

    /// Spawn the next piece at the fixed spawn position. In a terminal state
    /// this is a no-op; a spawn that collides at once is the sole game-over
    /// trigger; otherwise the piece is committed and the lookahead advances.
    pub fn spawn_piece(&mut self)
        requires
            old(self).wf(),
        ensures
            final(self).wf(),
            final(self).model() == spawn_model(old(self).model()),
    {
        if self.game_over {
            return ;
        }
        let new_piece = Tetromino::new(self.next_piece_type);
        if self.check_collision(&new_piece) {
            self.game_over = true;
            return ;
        }
        self.current_piece = Some(new_piece);
        self.next_piece_type = self.get_random_piece_type();
    }

    /// Try to move the piece one column left; commit and report success only
    /// if the new position is legal.
    pub fn move_left(&mut self) -> (r: bool)
        requires
            old(self).wf(),
        ensures
            final(self).wf(),
            final(self).model() == move_left_model(old(self).model()).0,
            r == move_left_model(old(self).model()).1,
    {
        match self.current_piece {
            Some(piece) => {
                proof {
                    lemma_piece_bounds(self.grid(), piece);
                }
                let mut cand = piece;
                cand.x = cand.x - 1;
                if !self.check_collision(&cand) {
                    self.current_piece = Some(cand);
                    true
                } else {
                    false
                }
            },
            None => false,
        }
    }

    /// Try to move the piece one column right; commit and report success only
    /// if the new position is legal.
    pub fn move_right(&mut self) -> (r: bool)
        requires
            old(self).wf(),
        ensures
            final(self).wf(),
            final(self).model() == move_right_model(old(self).model()).0,
            r == move_right_model(old(self).model()).1,
    {
        match self.current_piece {
            Some(piece) => {
                proof {
                    lemma_piece_bounds(self.grid(), piece);
                }
                let mut cand = piece;
                cand.x = cand.x + 1;
                if !self.check_collision(&cand) {
                    self.current_piece = Some(cand);
                    true
                } else {
                    false
                }
            },
            None => false,
        }
    }

    /// Whether every cell of row `y` is occupied.
    fn row_is_full(&self, y: usize) -> (r: bool)
        requires
            y < 20,
        ensures
            r == row_full(self.grid()[y as int]),
    {
        let mut x: usize = 0;
        while x < BOARD_WIDTH
            invariant
                x <= 10,
                y < 20,
                forall|b: int| 0 <= b < x ==> self.grid()[y as int][b],
            decreases 10 - x,
        {
            if !self.board[y][x] {
                proof {
                    assert(!self.grid()[y as int][x as int]);
                }
                return false;
            }
            proof {
                assert(self.grid()[y as int][x as int]);
            }
            x += 1;
        }
        true
    }

    /// Scan the rows bottom to top in one pass; clear each full row found at
    /// its scan position by shifting every row above it down one and blanking
    /// the top row; then award the score for the total count once.
    pub fn clear_lines(&mut self)
        requires
            old(self).wf(),
            old(self).current_piece is None,
        ensures
            final(self).wf(),
            final(self).model() == (GameModel {
                grid: clear_pass(old(self).grid(), 19).0,
                piece: None,
                score: bump_score(old(self).score, clear_pass(old(self).grid(), 19).1),
                game_over: old(self).game_over,
                next: old(self).next_piece_type,
            }),
    {
        let ghost m0 = self.model();
        let mut lines_cleared: u32 = 0;
        let mut yi: usize = BOARD_HEIGHT;
        while yi > 0
            invariant
                yi <= 20,
                lines_cleared <= 20 - yi,
                self.current_piece == m0.piece,
                m0.piece is None,
                self.score == m0.score,
                self.game_over == m0.game_over,
                self.next_piece_type == m0.next,
                clear_pass(m0.grid, 19).0 == clear_pass(self.grid(), yi as int - 1).0,
                clear_pass(m0.grid, 19).1 == lines_cleared + clear_pass(
                    self.grid(),
                    yi as int - 1,
                ).1,
            decreases yi,
        {
            let y = yi - 1;
            let ghost gpre = self.grid();
            let full = self.row_is_full(y);
            if full {
                lines_cleared = lines_cleared + 1;
                let mut yy = y;
                while yy >= 1
                    invariant
                        yy <= y,
                        y < 20,
                        forall|r: int, c: int|
                            0 <= r < 20 && 0 <= c < 10 ==> #[trigger] self.grid()[r][c] == (if yy
                                < r <= y {
                                gpre[r - 1][c]
                            } else {
                                gpre[r][c]
                            }),
                        self.current_piece == m0.piece,
                        self.score == m0.score,
                        self.game_over == m0.game_over,
                        self.next_piece_type == m0.next,
                    decreases yy,
                {
                    let ghost gmid = self.grid();
                    self.board[yy] = self.board[yy - 1];
                    proof {
                        assert forall|r: int, c: int| 0 <= r < 20 && 0 <= c < 10 implies #[trigger] self.grid()[r][c]
                            == (if yy - 1 < r <= y {
                            gpre[r - 1][c]
                        } else {
                            gpre[r][c]
                        }) by {
                            assert(self.grid()[r][c] == self.board@[r]@[c]);
                            if r == yy {
                                assert(self.grid()[r][c] == gmid[yy - 1][c]);
                            } else {
                                assert(self.grid()[r][c] == gmid[r][c]);
                            }
                        }
                    }
                    yy -= 1;
                }
                let ghost gdone = self.grid();
                self.board[0] = [false; BOARD_WIDTH];
                proof {
                    assert forall|r: int, c: int| 0 <= r < 20 && 0 <= c < 10 implies #[trigger] self.grid()[r][c]
                        == shift_down(gpre, y as int)[r][c] by {
                        assert(self.grid()[r][c] == self.board@[r]@[c]);
                        if r != 0 {
                            assert(self.grid()[r][c] == gdone[r][c]);
                        }
                    }
                    assert(self.grid() =~~= shift_down(gpre, y as int));
                }
            }
            proof {
                if row_full(gpre[y as int]) {
                    assert(clear_pass(gpre, y as int).0 == clear_pass(
                        shift_down(gpre, y as int),
                        y as int - 1,
                    ).0);
                    assert(clear_pass(gpre, y as int).1 == clear_pass(
                        shift_down(gpre, y as int),
                        y as int - 1,
                    ).1 + 1);
                } else {
                    assert(clear_pass(gpre, y as int) == clear_pass(gpre, y as int - 1));
                }
            }
            yi -= 1;
        }
        proof {
            assert(clear_pass(self.grid(), -1) == (self.grid(), 0nat));
        }
        let delta: u32 = if lines_cleared == 0 {
            0
        } else if lines_cleared == 1 {
            100
        } else if lines_cleared == 2 {
            300
        } else if lines_cleared == 3 {
            500
        } else {
            800
        };
        if self.score <= u32::MAX - delta {
            self.score = self.score + delta;
        } else {
            self.score = u32::MAX;
        }
        proof {
            assert(self.model() =~~= (GameModel {
                grid: clear_pass(m0.grid, 19).0,
                piece: None,
                score: bump_score(m0.score, clear_pass(m0.grid, 19).1),
                game_over: m0.game_over,
                next: m0.next,
            }));
        }
    }

    /// Bake the active piece's filled cells into the board (cells outside the
    /// board are dropped), clear the piece, run the line clear, and spawn the
    /// next piece. With no active piece this is a no-op.
    pub fn lock_piece(&mut self)
        requires
            old(self).wf(),
        ensures
            final(self).wf(),
            final(self).model() == lock_model(old(self).model()),
    {
        let piece = match self.current_piece {
            Some(p) => p,
            None => {
                return ;
            },
        };
        let ghost m0 = self.model();
        let ghost g0 = self.grid();
        let shape = piece.get_shape();
        let mut i: usize = 0;
        while i < 4
            invariant
                i <= 4,
                mat_view(shape) == shape_mat(piece.piece_type, (piece.rotation % 4) as nat),
                self.current_piece == m0.piece,
                m0.piece == Some(piece),
                self.score == m0.score,
                self.game_over == m0.game_over,
                self.next_piece_type == m0.next,
                forall|r: int, c: int|
                    0 <= r < 20 && 0 <= c < 10 ==> #[trigger] self.grid()[r][c] == (g0[r][c] || (
                    covers(piece, r, c) && r - piece.y < i)),
            decreases 4 - i,
        {
            let mut j: usize = 0;
            while j < 4
                invariant
                    i < 4,
                    j <= 4,
                    mat_view(shape) == shape_mat(piece.piece_type, (piece.rotation % 4) as nat),
                    self.current_piece == m0.piece,
                    m0.piece == Some(piece),
                    self.score == m0.score,
                    self.game_over == m0.game_over,
                    self.next_piece_type == m0.next,
                    forall|r: int, c: int|
                        0 <= r < 20 && 0 <= c < 10 ==> #[trigger] self.grid()[r][c] == (g0[r][c]
                            || (covers(piece, r, c) && (r - piece.y < i || (r - piece.y == i && c
                            - piece.x < j)))),
                decreases 4 - j,
            {
                if shape[i][j] {
                    let board_x = piece.x as i64 + j as i64;
                    let board_y = piece.y as i64 + i as i64;
                    if board_y >= 0 && board_y < BOARD_HEIGHT as i64 && board_x >= 0 && board_x
                        < BOARD_WIDTH as i64 {
                        let ghost gmid = self.grid();
                        let by = board_y as usize;
                        let bx = board_x as usize;
                        let mut row = self.board[by];
                        row[bx] = true;
                        self.board[by] = row;
                        proof {
                            assert(covers(piece, by as int, bx as int));
                            assert forall|r: int, c: int| 0 <= r < 20 && 0 <= c < 10 implies #[trigger] self.grid()[r][c]
                                == (g0[r][c] || (covers(piece, r, c) && (r - piece.y < i || (r
                                - piece.y == i && c - piece.x < j + 1)))) by {
                                assert(self.grid()[r][c] == self.board@[r]@[c]);
                                if r == by as int && c == bx as int {
                                    assert(self.grid()[r][c]);
                                } else if r == by as int {
                                    assert(self.grid()[r][c] == row@[c]);
                                    assert(self.grid()[r][c] == gmid[r][c]);
                                } else {
                                    assert(self.grid()[r][c] == gmid[r][c]);
                                }
                            }
                        }
                    } else {
                        proof {
                            assert forall|r: int, c: int| 0 <= r < 20 && 0 <= c < 10 && covers(
                                piece,
                                r,
                                c,
                            ) implies !(r - piece.y == i && c - piece.x == j) by {}
                        }
                    }
                } else {
                    proof {
                        assert forall|r: int, c: int| 0 <= r < 20 && 0 <= c < 10 && covers(
                            piece,
                            r,
                            c,
                        ) implies !(r - piece.y == i && c - piece.x == j) by {}
                    }
                }
                j += 1;
            }
            i += 1;
        }
        proof {
            assert(self.grid() =~~= bake_grid(g0, piece));
        }
        self.current_piece = None;
        self.clear_lines();
        self.spawn_piece();
        proof {
            assert(self.model() == lock_model(m0));
        }
    }

    /// Try to move the piece one row down; commit and report success if the
    /// new position is legal. A downward collision is the sole lock trigger:
    /// the piece is locked in place and failure is reported.
    pub fn move_down(&mut self) -> (r: bool)
        requires
            old(self).wf(),
        ensures
            final(self).wf(),
            final(self).model() == down_step(old(self).model()).0,
            r == down_step(old(self).model()).1,
    {
        match self.current_piece {
            Some(piece) => {
                proof {
                    lemma_piece_bounds(self.grid(), piece);
                }
                let mut cand = piece;
                cand.y = cand.y + 1;
                if !self.check_collision(&cand) {
                    self.current_piece = Some(cand);
                    true
                } else {
                    self.lock_piece();
                    false
                }
            },
            None => false,
        }
    }

    /// Drop the piece straight down: move it down until that fails, which
    /// locks it in place. With no active piece this is a no-op.
    pub fn hard_drop(&mut self)
        requires
            old(self).wf(),
        ensures
            final(self).wf(),
            final(self).model() == drop_model(old(self).model()),
    {
        let ghost m0 = self.model();
        loop
            invariant_except_break
                self.wf(),
                drop_model(m0) == drop_model(self.model()),
            ensures
                self.wf(),
                self.model() == drop_model(m0),
            decreases (match self.current_piece {
                Some(p) => 20 - p.y,
                None => 0int,
            }),
        {
            let ghost mpre = self.model();
            proof {
                match mpre.piece {
                    Some(p) => lemma_piece_bounds(mpre.grid, p),
                    None => (),
                }
            }
            if !self.move_down() {
                break ;
            }
        }
    }

    /// Reinitialize everything: empty board, no piece, score zero, play
    /// resumed; then spawn a fresh piece. The lookahead kind carries over.
    pub fn reset(&mut self)
        ensures
            final(self).wf(),
            final(self).model() == reset_model(old(self).model()),
    {
        let ghost m0 = self.model();
        self.board = [[false; BOARD_WIDTH]; BOARD_HEIGHT];
        self.current_piece = None;
        self.score = 0;
        self.game_over = false;
        proof {
            assert(self.grid() =~~= empty_grid());
        }
        self.spawn_piece();
    }

    /// Try to rotate the piece one quarter turn clockwise in place; commit
    /// and report success only if the new orientation is legal. No kicks.
    pub fn rotate(&mut self) -> (r: bool)
        requires
            old(self).wf(),
        ensures
            final(self).wf(),
            final(self).model() == rotate_model(old(self).model()).0,
            r == rotate_model(old(self).model()).1,
    {
        match self.current_piece {
            Some(piece) => {
                let mut cand = piece;
                cand.rotation = (cand.rotation + 1) % 4;
                if !self.check_collision(&cand) {
                    self.current_piece = Some(cand);
                    true
                } else {
                    false
                }
            },
            None => false,
        }
    }
    /// Apply one byte of the command alphabet: a/A left, d/D right, s/S
    /// down, w/W rotate, space hard drop, r/R reset; any other byte is a
    /// no-op.
    pub fn apply_command(&mut self, b: u8)
        requires
            old(self).wf(),
        ensures
            final(self).wf(),
            final(self).model() == command_model(old(self).model(), b),
    {
        match b {
            97 | 65 => {
                self.move_left();
            },
            100 | 68 => {
                self.move_right();
            },
            115 | 83 => {
                self.move_down();
            },
            119 | 87 => {
                self.rotate();
            },
            32 => {
                self.hard_drop();
            },
            114 | 82 => {
                self.reset();
            },
            _ => {},
        }
    }

    /// Apply a numeric control code: 0 left, 1 right, 2 down, 3 rotate,
    /// 4 hard drop, 5 reset; any other code is refused as invalid and leaves
    /// the state unchanged.
    pub fn apply_control_code(&mut self, cmd: u32) -> (r: Result<(), ControlError>)
        requires
            old(self).wf(),
        ensures
            final(self).wf(),
            cmd <= 5 ==> r == Ok::<(), ControlError>(()) && final(self).model() == control_model(
                old(self).model(),
                cmd,
            ),
            cmd > 5 ==> r == Err::<(), ControlError>(ControlError::InvalidCode)
                && final(self).model() == old(self).model(),
    {
        match cmd {
            0 => {
                self.move_left();
                Ok(())
            },
            1 => {
                self.move_right();
                Ok(())
            },
            2 => {
                self.move_down();
                Ok(())
            },
            3 => {
                self.rotate();
                Ok(())
            },
            4 => {
                self.hard_drop();
                Ok(())
            },
            5 => {
                self.reset();
                Ok(())
            },
            _ => Err(ControlError::InvalidCode),
        }
    }
}

/// `check_collision` is deterministic and referentially transparent: its
/// result is a function of the board and piece values alone, so equal inputs
/// always give equal results.
pub proof fn lemma_collides_deterministic(
    g1: Seq<Seq<bool>>,
    p1: Tetromino,
    g2: Seq<Seq<bool>>,
    p2: Tetromino,
)
    requires
        g1 == g2,
        p1 == p2,
    ensures
        collides(g1, p1) == collides(g2, p2),
{
}

/// Locking only adds cells: every cell occupied before the piece is baked
/// into the board is still occupied in the baked board. Cells become
/// unoccupied only through the clearing pass's row shifts.
pub proof fn lemma_bake_preserves_occupied(g: Seq<Seq<bool>>, p: Tetromino)
    ensures
        forall|y: int, x: int|
            0 <= y < 20 && 0 <= x < 10 && g[y][x] ==> #[trigger] bake_grid(g, p)[y][x],
{
}

/// A pass over a board whose scanned rows each have at least one empty cell
/// clears nothing and leaves the board unchanged.
pub proof fn lemma_clear_pass_no_full_rows(g: Seq<Seq<bool>>, y: int)
    requires
        y <= 19,
        forall|r: int| 0 <= r <= y ==> !row_full(#[trigger] g[r]),
    ensures
        clear_pass(g, y) == (g, 0nat),
    decreases y + 1,
{
    if y >= 0 {
        lemma_clear_pass_no_full_rows(g, y - 1);
    }
}

/// Shifting out a row keeps the grid's fixed dimensions.
pub proof fn lemma_shift_down_wf(g: Seq<Seq<bool>>, y: int)
    requires
        grid_wf(g),
    ensures
        grid_wf(shift_down(g, y)),
{
}

/// Each cleared row introduces a fresh, entirely empty row at the top: a
/// pass over a board whose top `k` rows are empty yields a board whose top
/// `k + n` rows are empty, where `n` is the number of rows the pass cleared.
pub proof fn lemma_clear_pass_top_rows_empty(g: Seq<Seq<bool>>, y: int, k: int)
    requires
        grid_wf(g),
        -1 <= y <= 19,
        0 <= k <= 20,
        forall|r: int| 0 <= r < k ==> row_empty(#[trigger] g[r]),
    ensures
        forall|r: int|
            0 <= r < k + clear_pass(g, y).1 ==> row_empty(#[trigger] clear_pass(g, y).0[r]),
    decreases y + 1,
{
    if y < 0 {
        assert(clear_pass(g, y) == (g, 0nat));
    } else {
        if row_full(g[y]) {
            assert(y >= k) by {
                if y < k {
                    assert(row_empty(g[y]));
                    assert(!g[y][0]);
                }
            }
            let g1 = shift_down(g, y);
            lemma_shift_down_wf(g, y);
            assert(row_empty(g1[0]));
            assert forall|r: int| 0 <= r < k + 1 implies row_empty(#[trigger] g1[r]) by {
                if r > 0 {
                    assert(g1[r] == g[r - 1]);
                }
            }
            lemma_clear_pass_top_rows_empty(g1, y - 1, k + 1);
            assert(clear_pass(g, y).0 == clear_pass(g1, y - 1).0);
            assert(clear_pass(g, y).1 == clear_pass(g1, y - 1).1 + 1);
        } else {
            lemma_clear_pass_top_rows_empty(g, y - 1, k);
            assert(clear_pass(g, y) == clear_pass(g, y - 1));
        }
    }
}

/// After the full clearing pass, the rows introduced at the top are
/// entirely empty.
pub proof fn lemma_clear_top_rows_empty(g: Seq<Seq<bool>>)
    requires
        grid_wf(g),
    ensures
        forall|r: int|
            0 <= r < clear_pass(g, 19).1 ==> row_empty(#[trigger] clear_pass(g, 19).0[r]),
{
    lemma_clear_pass_top_rows_empty(g, 19, 0);
}

/// The pass only ever shifts rows at or above the scan position: everything
/// below a cleared row stays exactly where it was.
pub proof fn lemma_clear_pass_below_unchanged(g: Seq<Seq<bool>>, y: int)
    ensures
        forall|r: int| y < r < 20 ==> #[trigger] clear_pass(g, y).0[r] == g[r],
    decreases y + 1,
{
    if y < 0 {
        assert(clear_pass(g, y) == (g, 0nat));
    } else {
        if row_full(g[y]) {
            let g1 = shift_down(g, y);
            lemma_clear_pass_below_unchanged(g1, y - 1);
            assert forall|r: int| y < r < 20 implies #[trigger] clear_pass(g, y).0[r] == g[r] by {
                assert(clear_pass(g, y).0[r] == clear_pass(g1, y - 1).0[r]);
                assert(g1[r] == g[r]);
            }
        } else {
            lemma_clear_pass_below_unchanged(g, y - 1);
            assert(clear_pass(g, y) == clear_pass(g, y - 1));
        }
    }
}

/// The pass clears at most one row per scanned position.
pub proof fn lemma_clear_pass_count_bound(g: Seq<Seq<bool>>, y: int)
    requires
        -1 <= y,
    ensures
        clear_pass(g, y).1 <= y + 1,
    decreases y + 1,
{
    if y < 0 {
        assert(clear_pass(g, y) == (g, 0nat));
    } else if row_full(g[y]) {
        lemma_clear_pass_count_bound(shift_down(g, y), y - 1);
        assert(clear_pass(g, y).1 == clear_pass(shift_down(g, y), y - 1).1 + 1);
    } else {
        lemma_clear_pass_count_bound(g, y - 1);
        assert(clear_pass(g, y).1 == clear_pass(g, y - 1).1);
    }
}

/// `kept` witnesses how the pass rearranged the board: the result is `n`
/// introduced rows on top, and below them the surviving original rows, in
/// their original order. A surviving row at original position `kept[t]` ends
/// at position `n + t`, so it moved down by exactly the number of cleared
/// rows that lay below it.
pub open spec fn rows_trace(
    g: Seq<Seq<bool>>,
    res: Seq<Seq<bool>>,
    n: nat,
    kept: Seq<int>,
) -> bool {
    &&& kept.len() + n == 20
    &&& forall|a: int, b: int| 0 <= a < b < kept.len() ==> kept[a] < kept[b]
    &&& forall|t: int| 0 <= t < kept.len() ==> 0 <= #[trigger] kept[t] < 20
    &&& forall|t: int| 0 <= t < kept.len() ==> res[n + t] == g[#[trigger] kept[t]]
}

/// After a pass that cleared `n` rows, the rows below the `n` fresh top rows
/// are original rows in their original order, each moved down by exactly the
/// number of rows cleared below it.
pub proof fn lemma_clear_pass_surviving_rows(g: Seq<Seq<bool>>, y: int)
    requires
        -1 <= y <= 19,
    ensures
        exists|kept: Seq<int>| #[trigger] rows_trace(g, clear_pass(g, y).0, clear_pass(g, y).1, kept),
    decreases y + 1,
{
    if y < 0 {
        assert(clear_pass(g, y) == (g, 0nat));
        let kept = Seq::new(20, |t: int| t);
        assert(rows_trace(g, g, 0, kept));
        assert(rows_trace(g, clear_pass(g, y).0, clear_pass(g, y).1, kept));
    } else if !row_full(g[y]) {
        lemma_clear_pass_surviving_rows(g, y - 1);
        assert(clear_pass(g, y) == clear_pass(g, y - 1));
        let kept = choose|kept: Seq<int>|
            #[trigger] rows_trace(g, clear_pass(g, y - 1).0, clear_pass(g, y - 1).1, kept);
        assert(rows_trace(g, clear_pass(g, y).0, clear_pass(g, y).1, kept));
    } else {
        let g1 = shift_down(g, y);
        lemma_clear_pass_surviving_rows(g1, y - 1);
        lemma_clear_pass_count_bound(g1, y - 1);
        let res = clear_pass(g1, y - 1).0;
        let n1 = clear_pass(g1, y - 1).1;
        let kept1 = choose|kept: Seq<int>| #[trigger] rows_trace(g1, res, n1, kept);
        assert(rows_trace(g1, res, n1, kept1));
        assert(clear_pass(g, y).0 == res);
        assert(clear_pass(g, y).1 == n1 + 1);
        let kept = Seq::new(
            (kept1.len() - 1) as nat,
            |t: int|
                if kept1[t + 1] <= y {
                    kept1[t + 1] - 1
                } else {
                    kept1[t + 1]
                },
        );
        assert forall|t: int| 0 <= t < kept.len() implies res[n1 + 1 + t] == g[#[trigger] kept[t]] by {
            if kept1[0] < 1 {
                assert(kept1[0] < kept1[t + 1]);
            }
            assert(1 <= kept1[t + 1] < 20);
            assert(res[n1 + (t + 1)] == g1[kept1[t + 1]]);
            if kept1[t + 1] <= y {
                assert(g1[kept1[t + 1]] == g[kept1[t + 1] - 1]);
            } else {
                assert(g1[kept1[t + 1]] == g[kept1[t + 1]]);
            }
        }
        assert forall|a: int, b: int| 0 <= a < b < kept.len() implies kept[a] < kept[b] by {
            assert(kept1[a + 1] < kept1[b + 1]);
        }
        assert(rows_trace(g, clear_pass(g, y).0, clear_pass(g, y).1, kept));
    }
}

/// The suffix of the pass below the unique full row: helper for the
/// single-row clearing law.
proof fn lemma_clear_single_from(g: Seq<Seq<bool>>, y: int, z: int)
    requires
        grid_wf(g),
        0 <= y <= z <= 19,
        row_full(g[y]),
        forall|r: int| 0 <= r < 20 && r != y ==> !row_full(#[trigger] g[r]),
    ensures
        clear_pass(g, z) == (shift_down(g, y), 1nat),
    decreases z,
{
    if z == y {
        let g1 = shift_down(g, y);
        assert(!row_full(g1[0])) by {
            assert(!empty_row()[0]);
        }
        assert forall|r: int| 0 <= r <= y - 1 implies !row_full(#[trigger] g1[r]) by {
            if r > 0 {
                assert(g1[r] == g[r - 1]);
            }
        }
        lemma_clear_pass_no_full_rows(g1, y - 1);
    } else {
        lemma_clear_single_from(g, y, z - 1);
    }
}

/// On a board with exactly one full row, the pass clears exactly that row:
/// every row above it moves down by one (the number of rows cleared below
/// them), the rows below it are unchanged, a fresh empty row appears at the
/// top, and the count is one.
pub proof fn lemma_clear_single_full_row(g: Seq<Seq<bool>>, y: int)
    requires
        grid_wf(g),
        0 <= y <= 19,
        row_full(g[y]),
        forall|r: int| 0 <= r < 20 && r != y ==> !row_full(#[trigger] g[r]),
    ensures
        clear_pass(g, 19) == (shift_down(g, y), 1nat),
        forall|r: int| y < r < 20 ==> #[trigger] clear_pass(g, 19).0[r] == g[r],
        forall|r: int| 1 <= r <= y ==> #[trigger] clear_pass(g, 19).0[r] == g[r - 1],
        row_empty(clear_pass(g, 19).0[0]),
{
    lemma_clear_single_from(g, y, 19);
}

/// The score never decreases across a lock event.
pub proof fn lemma_score_monotonic(s: u32, n: nat)
    ensures
        bump_score(s, n) >= s,
{
}

/// A lock event never decreases the score.
pub proof fn lemma_lock_score_monotonic(m: GameModel)
    ensures
        lock_model(m).score >= m.score,
{
    match m.piece {
        Some(p) => {
            let baked = bake_grid(m.grid, p);
            lemma_score_monotonic(m.score, clear_pass(baked, 19).1);
        },
        None => (),
    }
}

/// A hard drop never decreases the score.
pub proof fn lemma_drop_score_monotonic(m: GameModel)
    ensures
        drop_model(m).score >= m.score,
    decreases (match m.piece {
        Some(p) => 20 - p.y,
        None => 0int,
    }),
{
    match m.piece {
        Some(p) => {
            let cand = Tetromino { y: (p.y + 1) as i32, ..p };
            if -4 <= p.y < 20 && !collides(m.grid, cand) {
                lemma_drop_score_monotonic(GameModel { piece: Some(cand), ..m });
            } else {
                lemma_lock_score_monotonic(m);
            }
        },
        None => (),
    }
}

/// The score awarded for the rows cleared by a single lock event follows
/// the fixed table, with zero for a lock that clears nothing.
pub proof fn lemma_score_table()
    ensures
        line_score(0) == 0,
        line_score(1) == 100,
        line_score(2) == 300,
        line_score(3) == 500,
        forall|n: nat| n >= 4 ==> line_score(n) == 800,
{
}

/// In a playing state, spawning flips the game-over flag exactly when the
/// fresh piece collides with the board at the spawn position.
pub proof fn lemma_spawn_game_over_iff(m: GameModel)
    requires
        !m.game_over,
    ensures
        spawn_model(m).game_over <==> collides(m.grid, spawn_tetromino(m.next)),
{
}

/// A piece at the fixed spawn position never collides with the empty board:
/// its whole bounding box lies within the top four rows and middle columns.
pub proof fn lemma_spawn_on_empty_no_collision(p: Tetromino)
    requires
        p.x == 3,
        p.y == 0,
    ensures
        !collides(empty_grid(), p),
{
    assert forall|i: int, j: int| 0 <= i < 4 && 0 <= j < 4 implies !collides_at(
        empty_grid(),
        p,
        i,
        j,
    ) by {
        assert(!empty_grid()[p.y + i][p.x + j]);
    }
}

/// Reset always resumes play: afterwards the game is not over and a fresh
/// piece is in flight.
pub proof fn lemma_reset_playing(m: GameModel)
    ensures
        !reset_model(m).game_over,
        reset_model(m).piece is Some,
{
    lemma_spawn_on_empty_no_collision(spawn_tetromino(m.next));
}

} // verus!
