use tetris_core::board::{Board, InputState};
use tetris_core::global::{
    new_board, new_tetromino, BOARD_COLOR, BOARD_HEIGHT, BOARD_WIDTH, DEFAULT_TETROMINO_X,
    DEFAULT_TETROMINO_Y,
};
use tetris_core::tetromino::{rotate_shape, PieceKind, Tetromino};

const KINDS: [PieceKind; 7] = [
    PieceKind::I,
    PieceKind::J,
    PieceKind::L,
    PieceKind::O,
    PieceKind::S,
    PieceKind::T,
    PieceKind::Z,
];

fn count_filled(b: &Board) -> usize {
    let mut n = 0;
    for row in &b.board {
        for cell in row {
            if *cell != BOARD_COLOR {
                n += 1;
            }
        }
    }
    n
}

fn idle_input(time: u64) -> InputState {
    InputState { time, left: false, right: false, soft_drop: false, rotate: false, hard_drop: false }
}

#[test]
fn new_board_is_empty() {
    let g = new_board();
    assert_eq!(g.len(), BOARD_HEIGHT);
    for row in &g {
        assert_eq!(row.len(), BOARD_WIDTH);
        for cell in row {
            assert_eq!(*cell, BOARD_COLOR);
        }
    }
}

#[test]
fn new_tetromino_spawns_a_known_kind() {
    for _ in 0..50 {
        let t = new_tetromino();
        assert_eq!(t.x, DEFAULT_TETROMINO_X);
        assert_eq!(t.y, DEFAULT_TETROMINO_Y);
        let reference = Tetromino::new(t.kind, t.x, t.y);
        assert_eq!(t.shape, reference.shape);
        assert_eq!(t.color, reference.color);
    }
}

#[test]
fn collision_left_wall() {
    let b = Board::new();
    // the I piece's leftmost occupied cell sits at local column 0
    let t = Tetromino::new(PieceKind::I, -1, 5);
    assert!(b.check_collision(t, None));
}

#[test]
fn collision_right_wall() {
    let b = Board::new();
    // the I piece occupies local columns 0..=3, so column 6 is the last free spot
    let t = Tetromino::new(PieceKind::I, 6, 5);
    assert!(!b.check_collision(t, None));
    let t = Tetromino::new(PieceKind::I, 7, 5);
    assert!(b.check_collision(t, None));
}

#[test]
fn collision_floor() {
    let b = Board::new();
    // the I piece occupies local row 1
    let t = Tetromino::new(PieceKind::I, 3, (BOARD_HEIGHT as i32) - 2);
    assert!(!b.check_collision(t, None));
    let t = Tetromino::new(PieceKind::I, 3, (BOARD_HEIGHT as i32) - 1);
    assert!(b.check_collision(t, None));
}

#[test]
fn collision_above_board_is_free_inside_walls() {
    let b = Board::new();
    let t = Tetromino::new(PieceKind::O, 3, -3);
    assert!(!b.check_collision(t, None));
}

#[test]
fn collision_occupied_cell() {
    let mut b = Board::new();
    b.board[10][4] = (9, 9, 9);
    let t = Tetromino::new(PieceKind::O, 3, 9);
    // O occupies local (1..=2, 1..=2): absolute columns 4..=5, rows 10..=11
    assert!(b.check_collision(t, None));
    let t = Tetromino::new(PieceKind::O, 4, 9);
    assert!(!b.check_collision(t, None));
}

#[test]
fn rotation_has_period_four() {
    for kind in KINDS {
        let t = Tetromino::new(kind, 3, 5);
        let mut s = t.shape;
        for _ in 0..4 {
            s = rotate_shape(&s);
        }
        assert_eq!(s, t.shape);
    }
}

#[test]
fn bag_refilled_from_empty_holds_each_kind_once() {
    let b = Board::new();
    // the fresh bag held seven kinds; the first preview draw took one
    assert_eq!(b.bag.len(), 6);
    let mut kinds = b.bag.clone();
    kinds.push(b.t2.kind);
    for kind in KINDS {
        assert_eq!(kinds.iter().filter(|k| **k == kind).count(), 1);
    }
}

#[test]
fn bag_is_empty_after_seven_draws() {
    let mut b = Board::new();
    // Board::new drew one of the seven; six more draws exhaust the bag
    for i in 0..6 {
        assert_eq!(b.bag.len(), 6 - i);
        b.refill_bag();
    }
    assert_eq!(b.bag.len(), 0);
    // the next draw refills the bag with a fresh shuffle before consuming
    b.refill_bag();
    assert_eq!(b.bag.len(), 6);
}

#[test]
fn clear_single_full_row() {
    let mut b = Board::new();
    for x in 0..BOARD_WIDTH {
        b.board[19][x] = (200, 10, 10);
    }
    // a marker above the full row must shift down by one
    b.board[18][0] = (1, 2, 3);
    b.clear_lines();
    assert_eq!(b.board.len(), BOARD_HEIGHT);
    for x in 0..BOARD_WIDTH {
        assert_eq!(b.board[0][x], BOARD_COLOR);
    }
    assert_eq!(b.board[19][0], (1, 2, 3));
    for x in 1..BOARD_WIDTH {
        assert_eq!(b.board[19][x], BOARD_COLOR);
    }
}

#[test]
fn clear_leaves_partial_rows_alone() {
    let mut b = Board::new();
    for x in 0..BOARD_WIDTH - 1 {
        b.board[19][x] = (200, 10, 10);
    }
    b.clear_lines();
    assert_eq!(b.board.len(), BOARD_HEIGHT);
    assert_eq!(b.board[19][0], (200, 10, 10));
    assert_eq!(b.board[19][BOARD_WIDTH - 1], BOARD_COLOR);
}

#[test]
fn phantom_rests_on_lowest_legal_row() {
    let mut b = Board::new();
    b.update_phantom();
    assert!(b.p1.y >= b.t1.y);
    assert!(!b.check_collision(b.p1, None));
    assert!(b.check_collision(b.p1, Some((0, 1))));
    assert_eq!(b.p1.x, b.t1.x);
    assert_eq!(b.p1.shape, b.t1.shape);
}

#[test]
fn phantom_rests_on_pile() {
    let mut b = Board::new();
    for x in 0..BOARD_WIDTH {
        b.board[15][x] = (50, 50, 50);
    }
    b.t1 = Tetromino::new(PieceKind::O, 3, 0);
    b.update_phantom();
    // O occupies local rows 1..=2; resting just above the pile row 15
    assert_eq!(b.p1.y, 12);
}

#[test]
fn rotation_in_open_field_keeps_column() {
    let mut b = Board::new();
    b.t1 = Tetromino::new(PieceKind::T, 4, 5);
    let before = b.t1;
    b.rotate_tetromino();
    assert_eq!(b.t1.x, before.x);
    assert_eq!(b.t1.y, before.y);
    assert_ne!(b.t1.shape, before.shape);
}

#[test]
fn rotation_against_wall_kicks() {
    let mut b = Board::new();
    // a vertical I hugging the left wall: local column 2 at board column 0
    let mut t = Tetromino::new(PieceKind::I, -2, 5);
    t.shape = rotate_shape(&t.shape);
    b.t1 = t;
    assert!(!b.check_collision(b.t1, None));
    b.rotate_tetromino();
    // the horizontal I needs a kick to fit inside the left wall
    assert_ne!(b.t1.x, t.x);
    assert!(!b.check_collision(b.t1, None));
}

#[test]
fn rotation_blocked_everywhere_restores_piece() {
    let mut b = Board::new();
    for y in 0..BOARD_HEIGHT {
        for x in 0..BOARD_WIDTH {
            b.board[y][x] = (80, 80, 80);
        }
    }
    // keep the vertical I's own cells free so only the rotation is blocked
    let mut t = Tetromino::new(PieceKind::I, 1, 5);
    t.shape = rotate_shape(&t.shape);
    for y in 0..4 {
        b.board[(5 + y) as usize][3] = BOARD_COLOR;
    }
    b.t1 = t;
    assert!(!b.check_collision(b.t1, None));
    b.rotate_tetromino();
    assert_eq!(b.t1.x, t.x);
    assert_eq!(b.t1.y, t.y);
    assert_eq!(b.t1.shape, t.shape);
    assert_eq!(b.t1.color, t.color);
}

#[test]
fn o_piece_four_rotations_change_nothing() {
    let mut b = Board::new();
    b.t1 = Tetromino::new(PieceKind::O, DEFAULT_TETROMINO_X, DEFAULT_TETROMINO_Y);
    let before = b.t1;
    for _ in 0..4 {
        b.rotate_tetromino();
        assert_eq!(b.t1.shape, before.shape);
        assert_eq!(b.t1.x, before.x);
        assert_eq!(b.t1.y, before.y);
    }
}

#[test]
fn locking_into_a_gap_clears_the_row() {
    let mut b = Board::new();
    for x in 0..BOARD_WIDTH {
        if x != 3 {
            b.board[19][x] = (200, 10, 10);
        }
    }
    // a vertical I: local column 2 occupied, so board column 3 at x = 1,
    // filling rows 16..=19
    let mut t = Tetromino::new(PieceKind::I, 1, 16);
    t.shape = rotate_shape(&t.shape);
    b.t1 = t;
    assert!(!b.check_collision(b.t1, None));
    b.place_tetromino();
    assert_eq!(b.board.len(), BOARD_HEIGHT);
    // row 19 was completed and removed; an empty row entered at the top
    for x in 0..BOARD_WIDTH {
        assert_eq!(b.board[0][x], BOARD_COLOR);
    }
    // the rest of the piece shifted down one row: column 3, rows 17..=19
    let color = t.color;
    assert_eq!(b.board[17][3], color);
    assert_eq!(b.board[18][3], color);
    assert_eq!(b.board[19][3], color);
    assert_eq!(b.board[16][3], BOARD_COLOR);
    // no full row survives
    for y in 0..BOARD_HEIGHT {
        assert!(b.board[y].iter().any(|c| *c == BOARD_COLOR));
    }
}

#[test]
fn soft_drop_locks_exactly_once_within_window() {
    let mut b = Board::new();
    let window_ticks = BOARD_HEIGHT as u64;
    let mut locks = 0;
    let mut filled = count_filled(&b);
    for i in 1..=window_ticks {
        let time = i * b.drop_delay;
        let inp = InputState {
            time,
            left: false,
            right: false,
            soft_drop: true,
            rotate: false,
            hard_drop: false,
        };
        b.run(inp);
        let now = count_filled(&b);
        if now > filled {
            locks += 1;
        }
        filled = now;
    }
    assert_eq!(locks, 1);
}

#[test]
fn hard_drop_locks_at_phantom_position() {
    let mut b = Board::new();
    // one idle tick so the phantom piece is in place
    b.run(idle_input(1));
    let phantom = b.p1;
    let filled_before = count_filled(&b);
    let inp = InputState {
        time: 2,
        left: false,
        right: false,
        soft_drop: false,
        rotate: false,
        hard_drop: true,
    };
    b.run(inp);
    assert_eq!(count_filled(&b), filled_before + 4);
    // the locked cells stand where the phantom piece stood
    for ly in 0..4 {
        for lx in 0..4 {
            if phantom.shape[ly][lx] {
                let cy = (phantom.y + ly as i32) as usize;
                let cx = (phantom.x + lx as i32) as usize;
                assert_eq!(b.board[cy][cx], phantom.color);
            }
        }
    }
}

#[test]
fn gravity_fires_without_keys() {
    let mut b = Board::new();
    let y0 = b.t1.y;
    b.run(idle_input(b.gravity_delay));
    assert_eq!(b.t1.y, y0 + 1);
    // before the next gravity window nothing moves
    let y1 = b.t1.y;
    b.run(idle_input(b.gravity_delay + 1));
    assert_eq!(b.t1.y, y1);
}

#[test]
fn horizontal_right_wins_when_both_held() {
    let mut b = Board::new();
    let x0 = b.t1.x;
    let inp = InputState {
        time: 200,
        left: true,
        right: true,
        soft_drop: false,
        rotate: false,
        hard_drop: false,
    };
    b.run(inp);
    assert_eq!(b.t1.x, x0 + 1);
}

#[test]
fn horizontal_rate_limit_blocks_repeat() {
    let mut b = Board::new();
    let x0 = b.t1.x;
    let held_left = |time: u64| InputState {
        time,
        left: true,
        right: false,
        soft_drop: false,
        rotate: false,
        hard_drop: false,
    };
    b.run(held_left(110));
    assert_eq!(b.t1.x, x0 - 1);
    // within the repeat window the held key is a no-op
    b.run(held_left(150));
    assert_eq!(b.t1.x, x0 - 1);
    b.run(held_left(220));
    assert_eq!(b.t1.x, x0 - 2);
}
