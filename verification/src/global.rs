use vstd::prelude::*;

use crate::random::random_index;
use crate::tetromino::{kind_of, neutral_piece, Tetromino};

verus! {

/// Number of columns of the playing field.
pub const BOARD_WIDTH: usize = 10;

/// Number of rows of the playing field.
pub const BOARD_HEIGHT: usize = 20;

/// The sentinel color of an unoccupied cell.
pub const BOARD_COLOR: (u8, u8, u8) = (0, 0, 0);

/// Column of the spawn coordinate of a freshly drawn piece.
pub const DEFAULT_TETROMINO_X: i32 = 3;

/// Row of the spawn coordinate; a fresh piece floats one row above the field.
pub const DEFAULT_TETROMINO_Y: i32 = -1;

/// Column of the off-board preview coordinate of the next piece.
pub const NEXT_TETROMINO_X: i32 = 11;

/// Row of the off-board preview coordinate of the next piece.
pub const NEXT_TETROMINO_Y: i32 = 0;

/// Compares two cell colors; spec-level `==` on tuples is componentwise.
pub fn cell_eq(a: (u8, u8, u8), b: (u8, u8, u8)) -> (r: bool)
    ensures
        r == (a == b),
{
    a.0 == b.0 && a.1 == b.1 && a.2 == b.2
}

/// A fresh all-empty playing field of `BOARD_HEIGHT` rows of `BOARD_WIDTH` cells.
pub fn new_board() -> (g: Vec<Vec<(u8, u8, u8)>>)
    ensures
        g@.len() == BOARD_HEIGHT,
        forall|y: int| 0 <= y < BOARD_HEIGHT ==> (#[trigger] g@[y])@.len() == BOARD_WIDTH,
        forall|y: int, x: int|
            0 <= y < BOARD_HEIGHT && 0 <= x < BOARD_WIDTH ==> (#[trigger] g@[y]@[x]) == BOARD_COLOR,
{
    let mut g: Vec<Vec<(u8, u8, u8)>> = Vec::new();
    while g.len() < BOARD_HEIGHT
        invariant
            g@.len() <= BOARD_HEIGHT,
            forall|y: int| 0 <= y < g@.len() ==> (#[trigger] g@[y])@.len() == BOARD_WIDTH,
            forall|y: int, x: int|
                0 <= y < g@.len() && 0 <= x < BOARD_WIDTH ==> (#[trigger] g@[y]@[x]) == BOARD_COLOR,
        decreases BOARD_HEIGHT - g@.len(),
    {
        g.push(empty_row());
    }
    g
}

/// A piece of a kind picked at random, at the spawn coordinate in neutral
/// orientation. Whatever kind the random draw gives, the returned piece is
/// that kind's neutral piece.
pub fn new_tetromino() -> (t: Tetromino)
    ensures
        neutral_piece(t),
        t.x == DEFAULT_TETROMINO_X,
        t.y == DEFAULT_TETROMINO_Y,
{
    let i: usize = random_index(0, 7);
    Tetromino::new(kind_of(i), DEFAULT_TETROMINO_X, DEFAULT_TETROMINO_Y)
}

/// A single all-empty row of `BOARD_WIDTH` cells.
pub fn empty_row() -> (r: Vec<(u8, u8, u8)>)
    ensures
        r@.len() == BOARD_WIDTH,
        forall|x: int| 0 <= x < BOARD_WIDTH ==> (#[trigger] r@[x]) == BOARD_COLOR,
{
    let mut r: Vec<(u8, u8, u8)> = Vec::new();
    while r.len() < BOARD_WIDTH
        invariant
            r@.len() <= BOARD_WIDTH,
            forall|x: int| 0 <= x < r@.len() ==> (#[trigger] r@[x]) == BOARD_COLOR,
        decreases BOARD_WIDTH - r@.len(),
    {
        r.push(BOARD_COLOR);
    }
    r
}

} // verus!
