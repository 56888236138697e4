//! The tetromino catalogue: seven piece kinds, their base 4 x 4 shape
//! matrices, and the pure 90-degree clockwise rotation transform.

use vstd::prelude::*;

verus! {

/// The seven tetromino kinds, in the fixed enumeration order used by the
/// pseudo-random next-piece selector.
#[derive(Clone, Copy, PartialEq, Eq, Structural, Debug)]
pub enum TetrominoType {
    I,
    O,
    T,
    S,
    Z,
    J,
    L,
}

/// The falling piece: its kind, the board position of the top-left corner of
/// its 4 x 4 bounding box, and its orientation (a quarter-turn count).
#[derive(Clone, Copy, PartialEq, Eq, Structural, Debug)]
pub struct Tetromino {
    pub piece_type: TetrominoType,
    pub x: i32,
    pub y: i32,
    pub rotation: u8,
}

/// Cell `(i, j)` of a kind's base (unrotated) 4 x 4 shape matrix.
pub open spec fn base_cell(kind: TetrominoType, i: int, j: int) -> bool {
    match kind {
        TetrominoType::I => i == 1 && 0 <= j < 4,
        TetrominoType::O => (i == 1 || i == 2) && (j == 1 || j == 2),
        TetrominoType::T => (i == 1 && j == 1) || (i == 2 && 0 <= j <= 2),
        TetrominoType::S => (i == 1 && (j == 1 || j == 2)) || (i == 2 && (j == 0 || j == 1)),
        TetrominoType::Z => (i == 1 && (j == 0 || j == 1)) || (i == 2 && (j == 1 || j == 2)),
        TetrominoType::J => (i == 1 && j == 0) || (i == 2 && 0 <= j <= 2),
        TetrominoType::L => (i == 1 && j == 2) || (i == 2 && 0 <= j <= 2),
    }
}

/// A kind's base shape matrix as a sequence of rows.
pub open spec fn base_shape(kind: TetrominoType) -> Seq<Seq<bool>> {
    Seq::new(4, |i: int| Seq::new(4, |j: int| base_cell(kind, i, j)))
}

/// One 90-degree clockwise rotation of a 4 x 4 matrix: the rotated cell
/// `(i, j)` is the original cell `(3 - j, i)`.
pub open spec fn mat_rot(m: Seq<Seq<bool>>) -> Seq<Seq<bool>> {
    Seq::new(4, |i: int| Seq::new(4, |j: int| m[3 - j][i]))
}

/// A kind's shape matrix after `r` quarter turns.
pub open spec fn shape_mat(kind: TetrominoType, r: nat) -> Seq<Seq<bool>>
    decreases r,
{
    if r == 0 {
        base_shape(kind)
    } else {
        mat_rot(shape_mat(kind, (r - 1) as nat))
    }
}

/// A well-formed 4 x 4 matrix of cells.
pub open spec fn mat_wf(m: Seq<Seq<bool>>) -> bool {
    m.len() == 4 && forall|i: int| 0 <= i < 4 ==> (#[trigger] m[i]).len() == 4
}

/// The view of an executable 4 x 4 matrix as a sequence of rows.
pub open spec fn mat_view(m: [[bool; 4]; 4]) -> Seq<Seq<bool>> {
    Seq::new(4, |i: int| Seq::new(4, |j: int| m[i][j]))
}

/// Every shape matrix is a well-formed 4 x 4 matrix.
pub proof fn lemma_shape_mat_wf(kind: TetrominoType, r: nat)
    ensures
        mat_wf(shape_mat(kind, r)),
    decreases r,
{
    if r > 0 {
        lemma_shape_mat_wf(kind, (r - 1) as nat);
    }
}

/// Four quarter turns return any 4 x 4 matrix to itself: the round-trip law
/// of the rotation transform.
pub proof fn lemma_rotate_four_identity(m: Seq<Seq<bool>>)
    requires
        mat_wf(m),
    ensures
        mat_rot(mat_rot(mat_rot(mat_rot(m)))) == m,
{
    assert(mat_rot(mat_rot(mat_rot(mat_rot(m)))) =~~= m);
}

/// Rotating a shape four more quarter turns yields the same shape matrix:
/// rotation counts matter only modulo 4.
pub proof fn lemma_shape_mat_period(kind: TetrominoType, r: nat)
    ensures
        shape_mat(kind, r + 4) == shape_mat(kind, r),
{
    lemma_shape_mat_wf(kind, r);
    assert(shape_mat(kind, r + 4) == mat_rot(shape_mat(kind, r + 3)));
    assert(shape_mat(kind, r + 3) == mat_rot(shape_mat(kind, r + 2)));
    assert(shape_mat(kind, r + 2) == mat_rot(shape_mat(kind, r + 1)));
    assert(shape_mat(kind, r + 1) == mat_rot(shape_mat(kind, r)));
    lemma_rotate_four_identity(shape_mat(kind, r));
}

/// Every shape matrix, in every orientation, has at least one filled cell.
pub proof fn lemma_shape_nonempty(kind: TetrominoType, r: nat)
    ensures
        exists|i: int, j: int| 0 <= i < 4 && 0 <= j < 4 && #[trigger] shape_mat(kind, r)[i][j],
    decreases r,
{
    if r == 0 {
        match kind {
            TetrominoType::I => assert(shape_mat(kind, 0)[1][1]),
            TetrominoType::O => assert(shape_mat(kind, 0)[1][1]),
            _ => assert(shape_mat(kind, 0)[2][1]),
        }
    } else {
        lemma_shape_nonempty(kind, (r - 1) as nat);
        let (i, j): (int, int) = choose|i: int, j: int|
            0 <= i < 4 && 0 <= j < 4 && #[trigger] shape_mat(kind, (r - 1) as nat)[i][j];
        assert(shape_mat(kind, r)[j][3 - i]);
    }
}

impl Tetromino {
    /// A freshly spawned piece of the given kind, unrotated, at the fixed
    /// spawn position: horizontally centred, at the top of the board.
    pub fn new(piece_type: TetrominoType) -> (p: Tetromino)
        ensures
            p.piece_type == piece_type,
            p.x == 3,
            p.y == 0,
            p.rotation == 0,
    {
        Tetromino { piece_type, x: 3, y: 0, rotation: 0 }
    }

    /// One clockwise quarter turn of a 4 x 4 matrix.
    pub fn rotate_matrix(matrix: [[bool; 4]; 4]) -> (r: [[bool; 4]; 4])
        ensures
            mat_view(r) == mat_rot(mat_view(matrix)),
    {
        let mut rotated: [[bool; 4]; 4] = [[false; 4]; 4];
        let mut i: usize = 0;
        while i < 4
            invariant
                i <= 4,
                forall|a: int, b: int|
                    0 <= a < 4 && 0 <= b < 4 ==> #[trigger] mat_view(rotated)[a][b] == (3 - b < i
                        && mat_view(matrix)[3 - b][a]),
            decreases 4 - i,
        {
            let mut j: usize = 0;
            while j < 4
                invariant
                    i < 4,
                    j <= 4,
                    forall|a: int, b: int|
                        0 <= a < 4 && 0 <= b < 4 ==> #[trigger] mat_view(rotated)[a][b] == ((3 - b
                            < i || (3 - b == i && a < j)) && mat_view(matrix)[3 - b][a]),
                decreases 4 - j,
            {
                let ghost rotated0 = rotated;
                let mut row = rotated[j];
                row[3 - i] = matrix[i][j];
                rotated[j] = row;
                proof {
                    assert forall|a: int, b: int| 0 <= a < 4 && 0 <= b < 4 implies #[trigger] mat_view(
                        rotated,
                    )[a][b] == ((3 - b < i || (3 - b == i && a < j + 1)) && mat_view(matrix)[3
                        - b][a]) by {
                        assert(mat_view(rotated)[a][b] == rotated@[a]@[b]);
                        assert(mat_view(rotated0)[a][b] == rotated0@[a]@[b]);
                        if a == j {
                            assert(rotated@[a] == row);
                            assert(row@ == rotated0@[a]@.update(3 - (i as int), matrix[i as int][j as int]));
                        } else {
                            assert(rotated@[a] == rotated0@[a]);
                        }
                    }
                }
                j += 1;
            }
            i += 1;
        }
        proof {
            assert(mat_view(rotated) =~~= mat_rot(mat_view(matrix)));
        }
        rotated
    }

    /// The piece's shape matrix in its current orientation: the base shape of
    /// its kind, rotated a quarter turn `rotation mod 4` times.
    pub fn get_shape(&self) -> (m: [[bool; 4]; 4])
        ensures
            mat_view(m) == shape_mat(self.piece_type, (self.rotation % 4) as nat),
    {
        let base: [[bool; 4]; 4] = match self.piece_type {
            TetrominoType::I => [
                [false, false, false, false],
                [true, true, true, true],
                [false, false, false, false],
                [false, false, false, false],
            ],
            TetrominoType::O => [
                [false, false, false, false],
                [false, true, true, false],
                [false, true, true, false],
                [false, false, false, false],
            ],
            TetrominoType::T => [
                [false, false, false, false],
                [false, true, false, false],
                [true, true, true, false],
                [false, false, false, false],
            ],
            TetrominoType::S => [
                [false, false, false, false],
                [false, true, true, false],
                [true, true, false, false],
                [false, false, false, false],
            ],
            TetrominoType::Z => [
                [false, false, false, false],
                [true, true, false, false],
                [false, true, true, false],
                [false, false, false, false],
            ],
            TetrominoType::J => [
                [false, false, false, false],
                [true, false, false, false],
                [true, true, true, false],
                [false, false, false, false],
            ],
            TetrominoType::L => [
                [false, false, false, false],
                [false, false, true, false],
                [true, true, true, false],
                [false, false, false, false],
            ],
        };
        proof {
            assert(mat_view(base) =~~= base_shape(self.piece_type));
        }
        let steps = self.rotation % 4;
        let mut result = base;
        let mut r: u8 = 0;
        while r < steps
            invariant
                r <= steps,
                mat_view(result) == shape_mat(self.piece_type, r as nat),
            decreases steps - r,
        {
            result = Self::rotate_matrix(result);
            r += 1;
        }
        result
    }
}

} // verus!
