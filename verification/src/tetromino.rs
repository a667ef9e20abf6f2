use vstd::prelude::*;

verus! {

broadcast use vstd::array::group_array_axioms;

/// The seven tetromino kinds, named after the letter their shape resembles.
#[derive(Clone, Copy, PartialEq, Eq, Structural, Debug)]
pub enum PieceKind {
    I,
    J,
    L,
    O,
    S,
    T,
    Z,
}

/// A piece: its kind, the current 4x4 occupancy matrix (the rotation state),
/// its color tag, and its position on the field as column `x` and row `y`.
/// The row may be negative: a piece may float partly above the visible field.
#[derive(Clone, Copy)]
pub struct Tetromino {
    pub kind: PieceKind,
    pub shape: [[bool; 4]; 4],
    pub color: (u8, u8, u8),
    pub x: i32,
    pub y: i32,
}

/// Whether local cell (x, y) of a 4x4 occupancy matrix is occupied.
pub open spec fn occ(s: [[bool; 4]; 4], x: int, y: int) -> bool {
    0 <= x < 4 && 0 <= y < 4 && s[y][x]
}

/// `r` is `s` turned a quarter turn clockwise (transpose, then reverse each row).
pub open spec fn is_rotation_of(r: [[bool; 4]; 4], s: [[bool; 4]; 4]) -> bool {
    forall|x: int, y: int| 0 <= x < 4 && 0 <= y < 4 ==> #[trigger] r[y][x] == s[3 - x][y]
}

/// The neutral-orientation occupancy of each kind, cell by cell.
pub open spec fn base_occ(k: PieceKind, x: int, y: int) -> bool {
    match k {
        PieceKind::I => y == 1 && 0 <= x < 4,
        PieceKind::J => (y == 1 && x == 1) || (y == 2 && 1 <= x < 4),
        PieceKind::L => (y == 1 && x == 3) || (y == 2 && 1 <= x < 4),
        PieceKind::O => 1 <= x < 3 && 1 <= y < 3,
        PieceKind::S => (y == 1 && 2 <= x < 4) || (y == 2 && 1 <= x < 3),
        PieceKind::T => (y == 1 && x == 2) || (y == 2 && 1 <= x < 4),
        PieceKind::Z => (y == 1 && 1 <= x < 3) || (y == 2 && 2 <= x < 4),
    }
}

/// The color tag of each kind.
pub open spec fn base_color(k: PieceKind) -> (u8, u8, u8) {
    match k {
        PieceKind::I => (0u8, 190u8, 225u8),
        PieceKind::J => (60u8, 60u8, 230u8),
        PieceKind::L => (220u8, 150u8, 50u8),
        PieceKind::O => (240u8, 215u8, 0u8),
        PieceKind::S => (135u8, 220u8, 130u8),
        PieceKind::T => (110u8, 40u8, 230u8),
        PieceKind::Z => (220u8, 60u8, 90u8),
    }
}

/// A matrix shaped like a real piece: it has an occupied cell at row >= 1, one
/// at row <= 2, one at column >= 1 and one at column <= 2. Every neutral shape
/// satisfies this, and a quarter turn preserves it.
pub open spec fn shape_ok(s: [[bool; 4]; 4]) -> bool {
    &&& exists|x: int, y: int| #[trigger] occ(s, x, y) && y >= 1
    &&& exists|x: int, y: int| #[trigger] occ(s, x, y) && y <= 2
    &&& exists|x: int, y: int| #[trigger] occ(s, x, y) && x >= 1
    &&& exists|x: int, y: int| #[trigger] occ(s, x, y) && x <= 2
}

/// `t` carries the neutral orientation and the color of its kind.
pub open spec fn neutral_piece(t: Tetromino) -> bool {
    &&& forall|x: int, y: int| #[trigger] occ(t.shape, x, y) <==> base_occ(t.kind, x, y)
    &&& t.color == base_color(t.kind)
}

/// The kind drawn for a given index, in the fixed table order.
pub open spec fn kind_of_index(i: int) -> PieceKind {
    if i == 0 {
        PieceKind::I
    } else if i == 1 {
        PieceKind::J
    } else if i == 2 {
        PieceKind::L
    } else if i == 3 {
        PieceKind::O
    } else if i == 4 {
        PieceKind::S
    } else if i == 5 {
        PieceKind::T
    } else {
        PieceKind::Z
    }
}

/// The fixed table order of the seven kinds.
pub open spec fn all_kinds() -> Seq<PieceKind> {
    seq![
        PieceKind::I,
        PieceKind::J,
        PieceKind::L,
        PieceKind::O,
        PieceKind::S,
        PieceKind::T,
        PieceKind::Z,
    ]
}

/// The neutral occupancy matrix of a kind.
pub fn shape_of(k: PieceKind) -> (s: [[bool; 4]; 4])
    ensures
        forall|x: int, y: int| #[trigger] occ(s, x, y) <==> base_occ(k, x, y),
{
    let f = false;
    let t = true;
    let s: [[bool; 4]; 4] = match k {
        PieceKind::I => [[f, f, f, f], [t, t, t, t], [f, f, f, f], [f, f, f, f]],
        PieceKind::J => [[f, f, f, f], [f, t, f, f], [f, t, t, t], [f, f, f, f]],
        PieceKind::L => [[f, f, f, f], [f, f, f, t], [f, t, t, t], [f, f, f, f]],
        PieceKind::O => [[f, f, f, f], [f, t, t, f], [f, t, t, f], [f, f, f, f]],
        PieceKind::S => [[f, f, f, f], [f, f, t, t], [f, t, t, f], [f, f, f, f]],
        PieceKind::T => [[f, f, f, f], [f, f, t, f], [f, t, t, t], [f, f, f, f]],
        PieceKind::Z => [[f, f, f, f], [f, t, t, f], [f, f, t, t], [f, f, f, f]],
    };
    assert forall|x: int, y: int| #[trigger] occ(s, x, y) <==> base_occ(k, x, y) by {
        if 0 <= x < 4 && 0 <= y < 4 {
            assert(s[y][x] == base_occ(k, x, y));
        }
    }
    s
}

/// The color tag of a kind.
pub fn color_of(k: PieceKind) -> (c: (u8, u8, u8))
    ensures
        c == base_color(k),
{
    match k {
        PieceKind::I => (0, 190, 225),
        PieceKind::J => (60, 60, 230),
        PieceKind::L => (220, 150, 50),
        PieceKind::O => (240, 215, 0),
        PieceKind::S => (135, 220, 130),
        PieceKind::T => (110, 40, 230),
        PieceKind::Z => (220, 60, 90),
    }
}

/// The kind drawn for an index into the fixed table.
pub fn kind_of(i: usize) -> (k: PieceKind)
    requires
        i < 7,
    ensures
        k == kind_of_index(i as int),
{
    if i == 0 {
        PieceKind::I
    } else if i == 1 {
        PieceKind::J
    } else if i == 2 {
        PieceKind::L
    } else if i == 3 {
        PieceKind::O
    } else if i == 4 {
        PieceKind::S
    } else if i == 5 {
        PieceKind::T
    } else {
        PieceKind::Z
    }
}

/// A quarter turn clockwise of a 4x4 occupancy matrix: transpose and reverse
/// each row, so the new cell (x, y) holds the old cell (y, 3 - x).
pub fn rotate_shape(s: &[[bool; 4]; 4]) -> (r: [[bool; 4]; 4])
    ensures
        is_rotation_of(r, *s),
{
    let r: [[bool; 4]; 4] = [
        [s[3][0], s[2][0], s[1][0], s[0][0]],
        [s[3][1], s[2][1], s[1][1], s[0][1]],
        [s[3][2], s[2][2], s[1][2], s[0][2]],
        [s[3][3], s[2][3], s[1][3], s[0][3]],
    ];
    assert forall|x: int, y: int| 0 <= x < 4 && 0 <= y < 4 implies #[trigger] r[y][x] == s[3 - x][y]
    by {
        assert(r@[y]@[x] == s@[3 - x]@[y]);
    }
    r
}

impl Tetromino {
    /// A piece of the given kind at the given position, in neutral orientation.
    pub fn new(kind: PieceKind, x: i32, y: i32) -> (t: Tetromino)
        ensures
            t.kind == kind,
            t.x == x,
            t.y == y,
            neutral_piece(t),
    {
        Tetromino { kind, shape: shape_of(kind), color: color_of(kind), x, y }
    }

    /// Replaces the occupancy matrix by its quarter turn clockwise; kind,
    /// color and position stay as they were.
    pub fn rotate(&mut self)
        ensures
            is_rotation_of(final(self).shape, old(self).shape),
            final(self).kind == old(self).kind,
            final(self).color == old(self).color,
            final(self).x == old(self).x,
            final(self).y == old(self).y,
    {
        self.shape = rotate_shape(&self.shape);
    }
}

/// A matrix has exactly one quarter turn: two rotations of the same matrix are
/// the same matrix.
pub proof fn lemma_rotation_unique(r1: [[bool; 4]; 4], r2: [[bool; 4]; 4], s: [[bool; 4]; 4])
    requires
        is_rotation_of(r1, s),
        is_rotation_of(r2, s),
    ensures
        r1 == r2,
{
    assert forall|y: int| 0 <= y < 4 implies r1@[y] == r2@[y] by {
        assert forall|x: int| 0 <= x < 4 implies r1@[y]@[x] == r2@[y]@[x] by {
            assert(r1[y][x] == s[3 - x][y]);
            assert(r2[y][x] == s[3 - x][y]);
        }
        assert(r1@[y] =~= r2@[y]);
    }
    assert(r1 =~= r2);
}

/// Four successive quarter turns return a matrix to its original value.
pub proof fn lemma_rotation_period(
    s0: [[bool; 4]; 4],
    s1: [[bool; 4]; 4],
    s2: [[bool; 4]; 4],
    s3: [[bool; 4]; 4],
    s4: [[bool; 4]; 4],
)
    requires
        is_rotation_of(s1, s0),
        is_rotation_of(s2, s1),
        is_rotation_of(s3, s2),
        is_rotation_of(s4, s3),
    ensures
        s4 == s0,
{
    assert forall|y: int| 0 <= y < 4 implies s4@[y] == s0@[y] by {
        assert forall|x: int| 0 <= x < 4 implies s4@[y]@[x] == s0@[y]@[x] by {
            assert(s4[y][x] == s3[3 - x][y]);
            assert(s3[3 - x][y] == s2[3 - y][3 - x]);
            assert(s2[3 - y][3 - x] == s1[x][3 - y]);
            assert(s1[x][3 - y] == s0[y][x]);
        }
        assert(s4@[y] =~= s0@[y]);
    }
    assert(s4 =~= s0);
}

/// A quarter turn keeps a matrix shaped like a real piece.
pub proof fn lemma_rotation_preserves_shape_ok(r: [[bool; 4]; 4], s: [[bool; 4]; 4])
    requires
        is_rotation_of(r, s),
        shape_ok(s),
    ensures
        shape_ok(r),
{
    let (x1, y1): (int, int) = choose|x: int, y: int| #[trigger] occ(s, x, y) && y >= 1;
    let (x2, y2): (int, int) = choose|x: int, y: int| #[trigger] occ(s, x, y) && y <= 2;
    let (x3, y3): (int, int) = choose|x: int, y: int| #[trigger] occ(s, x, y) && x >= 1;
    let (x4, y4): (int, int) = choose|x: int, y: int| #[trigger] occ(s, x, y) && x <= 2;
    // a cell at (x, y) of s reappears at (3 - y, x) of r
    assert(occ(r, 3 - y1, x1) && 3 - y1 <= 2);
    assert(occ(r, 3 - y2, x2) && 3 - y2 >= 1);
    assert(occ(r, 3 - y3, x3) && x3 >= 1);
    assert(occ(r, 3 - y4, x4) && x4 <= 2);
}

/// Every neutral shape is shaped like a real piece.
pub proof fn lemma_neutral_shape_ok(t: Tetromino)
    requires
        neutral_piece(t),
    ensures
        shape_ok(t.shape),
{
    match t.kind {
        PieceKind::I => assert(occ(t.shape, 1, 1)),
        PieceKind::J => assert(occ(t.shape, 1, 1)),
        PieceKind::L => assert(occ(t.shape, 1, 2)),
        PieceKind::O => assert(occ(t.shape, 1, 1)),
        PieceKind::S => assert(occ(t.shape, 2, 1)),
        PieceKind::T => assert(occ(t.shape, 2, 1)),
        PieceKind::Z => assert(occ(t.shape, 1, 1)),
    }
}

} // verus!
