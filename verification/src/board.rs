use vstd::prelude::*;

use crate::global::{
    cell_eq, BOARD_COLOR, BOARD_HEIGHT, BOARD_WIDTH, DEFAULT_TETROMINO_X, DEFAULT_TETROMINO_Y,
    NEXT_TETROMINO_X, NEXT_TETROMINO_Y,
};
use crate::random::shuffle_kinds;
use crate::tetromino::{
    all_kinds, is_rotation_of, lemma_neutral_shape_ok, lemma_rotation_preserves_shape_ok,
    lemma_rotation_unique, neutral_piece, occ, shape_ok, PieceKind, Tetromino,
};

verus! {

/// The playing field as a sequence of rows, each a sequence of cell colors.
pub open spec fn grid_view(g: Seq<Vec<(u8, u8, u8)>>) -> Seq<Seq<(u8, u8, u8)>> {
    Seq::new(g.len(), |i: int| g[i]@)
}

/// A well-formed field: `BOARD_HEIGHT` rows of `BOARD_WIDTH` cells.
pub open spec fn grid_wf(gv: Seq<Seq<(u8, u8, u8)>>) -> bool {
    &&& gv.len() == BOARD_HEIGHT
    &&& forall|y: int| 0 <= y < gv.len() ==> (#[trigger] gv[y]).len() == BOARD_WIDTH
}

/// The absolute coordinate (cx, cy) counts as a collision: it is outside the
/// side walls, below the floor, or on an occupied cell of the visible field.
/// Rows above the field (cy < 0) inside the walls are free.
pub open spec fn cell_blocked(gv: Seq<Seq<(u8, u8, u8)>>, cx: int, cy: int) -> bool {
    ||| cx < 0
    ||| cx >= BOARD_WIDTH
    ||| cy >= BOARD_HEIGHT
    ||| (0 <= cy < BOARD_HEIGHT && 0 <= cx < BOARD_WIDTH && gv[cy][cx] != BOARD_COLOR)
}

/// The piece, displaced by (ox, oy), overlaps a wall, the floor, or an
/// occupied cell.
pub open spec fn collides(gv: Seq<Seq<(u8, u8, u8)>>, t: Tetromino, ox: int, oy: int) -> bool {
    exists|lx: int, ly: int|
        #[trigger] occ(t.shape, lx, ly) && cell_blocked(gv, t.x + lx + ox, t.y + ly + oy)
}

/// Every occupied cell of the piece lies between the side walls.
pub open spec fn cols_in_range(t: Tetromino) -> bool {
    forall|lx: int, ly: int|
        #[trigger] occ(t.shape, lx, ly) ==> 0 <= t.x + lx < BOARD_WIDTH
}

/// The spec-level offset of an optional displacement.
pub open spec fn off_x(offset: Option<(i32, i32)>) -> int {
    match offset {
        None => 0,
        Some(o) => o.0 as int,
    }
}

/// The spec-level offset of an optional displacement.
pub open spec fn off_y(offset: Option<(i32, i32)>) -> int {
    match offset {
        None => 0,
        Some(o) => o.1 as int,
    }
}

/// A row with no unoccupied cell.
pub open spec fn full_row(r: Seq<(u8, u8, u8)>) -> bool {
    forall|x: int| 0 <= x < r.len() ==> (#[trigger] r[x]) != BOARD_COLOR
}

/// The rows of the field that are not full, in their original order.
pub open spec fn non_full_rows(gv: Seq<Seq<(u8, u8, u8)>>) -> Seq<Seq<(u8, u8, u8)>>
    decreases gv.len(),
{
    if gv.len() == 0 {
        Seq::empty()
    } else {
        let rest = non_full_rows(gv.drop_last());
        if full_row(gv.last()) {
            rest
        } else {
            rest.push(gv.last())
        }
    }
}

/// One all-empty row.
pub open spec fn empty_row_view() -> Seq<(u8, u8, u8)> {
    Seq::new(BOARD_WIDTH as nat, |x: int| BOARD_COLOR)
}

/// The field after the line clear: the full rows are removed, the others keep
/// their order and shift to the bottom, and as many empty rows enter at the top.
pub open spec fn cleared_view(gv: Seq<Seq<(u8, u8, u8)>>) -> Seq<Seq<(u8, u8, u8)>> {
    Seq::new((gv.len() - non_full_rows(gv).len()) as nat, |i: int| empty_row_view()) + non_full_rows(
        gv,
    )
}

/// There are never more non-full rows than rows.
pub proof fn lemma_non_full_rows_len(gv: Seq<Seq<(u8, u8, u8)>>)
    ensures
        non_full_rows(gv).len() <= gv.len(),
    decreases gv.len(),
{
    if gv.len() > 0 {
        lemma_non_full_rows_len(gv.drop_last());
    }
}

/// Every non-full row is one of the field's rows, so it keeps the field's width.
pub proof fn lemma_non_full_rows_width(gv: Seq<Seq<(u8, u8, u8)>>, w: int)
    requires
        forall|y: int| 0 <= y < gv.len() ==> (#[trigger] gv[y]).len() == w,
    ensures
        forall|y: int| 0 <= y < non_full_rows(gv).len() ==> (#[trigger] non_full_rows(gv)[y]).len()
            == w,
    decreases gv.len(),
{
    if gv.len() > 0 {
        assert forall|y: int| 0 <= y < gv.drop_last().len() implies (#[trigger] gv.drop_last()[
            y
        ]).len() == w by {
            assert(gv.drop_last()[y] == gv[y]);
        }
        lemma_non_full_rows_width(gv.drop_last(), w);
        let res = non_full_rows(gv);
        let rest = non_full_rows(gv.drop_last());
        assert forall|y: int| 0 <= y < res.len() implies (#[trigger] res[y]).len() == w by {
            if y < rest.len() {
                assert(res[y] == rest[y]);
            } else {
                assert(res[y] == gv.last());
                assert(gv.last() == gv[gv.len() - 1]);
            }
        }
    }
}

/// The line clear keeps the field well formed.
pub proof fn lemma_cleared_wf(gv: Seq<Seq<(u8, u8, u8)>>)
    requires
        grid_wf(gv),
    ensures
        grid_wf(cleared_view(gv)),
{
    lemma_non_full_rows_len(gv);
    lemma_non_full_rows_width(gv, BOARD_WIDTH as int);
}

/// True when the row has no unoccupied cell.
pub fn row_full(r: &Vec<(u8, u8, u8)>) -> (b: bool)
    ensures
        b == full_row(r@),
{
    let mut x: usize = 0;
    while x < r.len()
        invariant
            0 <= x <= r@.len(),
            forall|i: int| 0 <= i < x ==> (#[trigger] r@[i]) != BOARD_COLOR,
        decreases r@.len() - x,
    {
        if cell_eq(r[x], BOARD_COLOR) {
            return false;
        }
        x = x + 1;
    }
    true
}

/// The piece has an occupied cell at the absolute coordinate (cx, cy).
pub open spec fn covered(t: Tetromino, cx: int, cy: int) -> bool {
    exists|lx: int, ly: int| #[trigger] occ(t.shape, lx, ly) && t.x + lx == cx && t.y + ly == cy
}

/// As `covered`, but only by the cells already scanned: those in a local row
/// before `uy`, or in row `uy` before column `ux`.
pub open spec fn covered_before(t: Tetromino, cx: int, cy: int, uy: int, ux: int) -> bool {
    exists|lx: int, ly: int|
        #[trigger] occ(t.shape, lx, ly) && (ly < uy || (ly == uy && lx < ux)) && t.x + lx == cx
            && t.y + ly == cy
}

/// The field with the scanned part of the piece written in: every visible cell
/// the piece covers takes the piece's color, all other cells keep theirs.
/// Cells of the piece above the visible field fall outside the row range and
/// are dropped.
pub open spec fn locked_partial(
    gv: Seq<Seq<(u8, u8, u8)>>,
    t: Tetromino,
    uy: int,
    ux: int,
) -> Seq<Seq<(u8, u8, u8)>> {
    Seq::new(
        gv.len(),
        |cy: int|
            Seq::new(
                gv[cy].len(),
                |cx: int|
                    if covered_before(t, cx, cy, uy, ux) {
                        t.color
                    } else {
                        gv[cy][cx]
                    },
            ),
    )
}

/// The field with the whole piece written in.
pub open spec fn locked_view(gv: Seq<Seq<(u8, u8, u8)>>, t: Tetromino) -> Seq<Seq<(u8, u8, u8)>> {
    locked_partial(gv, t, 4, 0)
}

/// What refilling leaves in the bag. From a nonempty bag only the last element
/// is drawn. An empty bag is first refilled with some order of the seven
/// kinds, so the drawn kind and the six left over make up exactly the seven.
pub open spec fn bag_refilled(
    pre: Seq<PieceKind>,
    post: Seq<PieceKind>,
    drawn: PieceKind,
) -> bool {
    if pre.len() == 0 {
        &&& post.len() == 6
        &&& post.push(drawn).to_multiset() == all_kinds().to_multiset()
    } else {
        &&& post == pre.drop_last()
        &&& drawn == pre.last()
    }
}

/// The whole lock step: the piece `t` is written into `pre`'s field, full rows
/// are cleared, the next piece moves to the spawn coordinate as the new active
/// piece, and a fresh next piece is drawn from the bag. Nothing else changes.
pub open spec fn lock_advance(pre: Board, t: Tetromino, post: Board) -> bool {
    &&& grid_view(post.board@) == cleared_view(locked_view(grid_view(pre.board@), t))
    &&& post.t1 == (Tetromino {
        x: DEFAULT_TETROMINO_X,
        y: DEFAULT_TETROMINO_Y,
        ..pre.t2
    })
    &&& bag_refilled(pre.bag@, post.bag@, post.t2.kind)
    &&& neutral_piece(post.t2)
    &&& post.t2.x == NEXT_TETROMINO_X
    &&& post.t2.y == NEXT_TETROMINO_Y
    &&& post == (Board {
        board: post.board,
        t1: post.t1,
        t2: post.t2,
        bag: post.bag,
        ..pre
    })
}

/// A sequence with no duplicate kinds keeps none when its pushed last kind is
/// taken off again.
pub proof fn lemma_push_no_duplicates(s: Seq<PieceKind>, k: PieceKind)
    requires
        s.push(k).no_duplicates(),
    ensures
        s.no_duplicates(),
{
    assert forall|i: int, j: int|
        0 <= i < s.len() && 0 <= j < s.len() && i != j implies s[i] != s[j] by {
        assert(s.push(k)[i] == s[i]);
        assert(s.push(k)[j] == s[j]);
    }
}

/// A sequence holding exactly the multiset of the seven kinds has length
/// seven and no kind twice.
pub proof fn lemma_kinds_multiset_distinct(s: Seq<PieceKind>)
    requires
        s.to_multiset() == all_kinds().to_multiset(),
    ensures
        s.len() == 7,
        s.no_duplicates(),
{
    broadcast use vstd::seq_lib::group_to_multiset_ensures;

    assert(all_kinds().no_duplicates());
    all_kinds().lemma_multiset_has_no_duplicates();
    assert(forall|k: PieceKind|
        s.to_multiset().contains(k) ==> #[trigger] s.to_multiset().count(k) == 1);
    s.lemma_multiset_has_no_duplicates_conv();
    assert(s.len() == s.to_multiset().len());
    assert(all_kinds().len() == all_kinds().to_multiset().len());
}

/// What locking a piece needs of the state: a well-formed field, the piece to
/// lock between the walls, a bag that holds no kind twice, and the inert
/// pieces sound enough to carry the invariant over the advance. The active
/// piece's row is free: a hard drop locks the phantom piece, which may rest
/// below the rows the active piece reaches.
pub open spec fn place_pre(b: Board) -> bool {
    &&& b.bag@.push(b.t2.kind).no_duplicates()
    &&& grid_wf(grid_view(b.board@))
    &&& cols_in_range(b.t1)
    &&& shape_ok(b.t2.shape)
    &&& shape_ok(b.p1.shape)
    &&& cols_in_range(b.p1)
    &&& -2 <= b.p1.y <= 2 * BOARD_HEIGHT + 2
}

/// The piece displaced by (dx, dy), position fields wrapped as the machine
/// would; the displacements this crate uses never wrap.
pub open spec fn moved(t: Tetromino, dx: int, dy: int) -> Tetromino {
    Tetromino { x: (t.x + dx) as i32, y: (t.y + dy) as i32, ..t }
}

/// The piece displaced by (dx, dy) where that stands free, else unchanged.
pub open spec fn try_move(gv: Seq<Seq<(u8, u8, u8)>>, t: Tetromino, dx: int, dy: int) -> Tetromino {
    if collides(gv, moved(t, dx, dy), 0, 0) {
        t
    } else {
        moved(t, dx, dy)
    }
}

/// Displacing the piece and displacing the test offset see the same cells.
pub proof fn lemma_collides_moved_off(
    gv: Seq<Seq<(u8, u8, u8)>>,
    t: Tetromino,
    dx: int,
    dy: int,
    ox: int,
    oy: int,
)
    requires
        i32::MIN <= t.x + dx <= i32::MAX,
        i32::MIN <= t.y + dy <= i32::MAX,
    ensures
        collides(gv, moved(t, dx, dy), ox, oy) == collides(gv, t, dx + ox, dy + oy),
{
    let m = moved(t, dx, dy);
    if collides(gv, m, ox, oy) {
        let (lx, ly): (int, int) = choose|lx: int, ly: int|
            #[trigger] occ(m.shape, lx, ly) && cell_blocked(gv, m.x + lx + ox, m.y + ly + oy);
        assert(occ(t.shape, lx, ly) && cell_blocked(gv, t.x + lx + dx + ox, t.y + ly + dy + oy));
    }
    if collides(gv, t, dx + ox, dy + oy) {
        let (lx, ly): (int, int) = choose|lx: int, ly: int|
            #[trigger] occ(t.shape, lx, ly) && cell_blocked(
                gv,
                t.x + lx + dx + ox,
                t.y + ly + dy + oy,
            );
        assert(occ(m.shape, lx, ly) && cell_blocked(gv, m.x + lx + ox, m.y + ly + oy));
    }
}

/// The plain form for a displaced piece tested with no extra offset.
pub proof fn lemma_collides_moved(gv: Seq<Seq<(u8, u8, u8)>>, t: Tetromino, dx: int, dy: int)
    requires
        i32::MIN <= t.x + dx <= i32::MAX,
        i32::MIN <= t.y + dy <= i32::MAX,
    ensures
        collides(gv, moved(t, dx, dy), 0, 0) == collides(gv, t, dx, dy),
{
    lemma_collides_moved_off(gv, t, dx, dy, 0, 0);
}

/// How many single rows the piece can fall, starting from test offset `k`,
/// with at most `fuel` probes: the first colliding offset, or `k + fuel` if
/// every probe stands free.
pub open spec fn drop_steps(gv: Seq<Seq<(u8, u8, u8)>>, t: Tetromino, k: int, fuel: nat) -> int
    decreases fuel,
{
    if fuel == 0 {
        k
    } else if collides(gv, t, 0, k) {
        k
    } else {
        drop_steps(gv, t, k + 1, (fuel - 1) as nat)
    }
}

/// The resting place of the piece: one row above the first downward collision,
/// probed for at most `BOARD_HEIGHT + 1` rows.
pub open spec fn phantom_of(gv: Seq<Seq<(u8, u8, u8)>>, t: Tetromino) -> Tetromino {
    Tetromino { y: (t.y + drop_steps(gv, t, 0, (BOARD_HEIGHT + 1) as nat) - 1) as i32, ..t }
}

/// One more probe either stops on the offset the search reached, or moves one
/// row further.
pub proof fn lemma_drop_steps_unfold_back(gv: Seq<Seq<(u8, u8, u8)>>, t: Tetromino, k: int, fuel: nat)
    ensures
        ({
            let d = drop_steps(gv, t, k, fuel);
            drop_steps(gv, t, k, (fuel + 1) as nat) == if collides(gv, t, 0, d) {
                d
            } else {
                d + 1
            }
        }),
    decreases fuel,
{
    let d = drop_steps(gv, t, k, fuel);
    if fuel == 0 {
        assert(drop_steps(gv, t, k + 1, 0) == k + 1);
        assert(drop_steps(gv, t, k, 1) == (if collides(gv, t, 0, k) {
            k
        } else {
            k + 1
        }));
    } else if collides(gv, t, 0, k) {
        assert(d == k);
        assert(drop_steps(gv, t, k, (fuel + 1) as nat) == k);
    } else {
        lemma_drop_steps_unfold_back(gv, t, k + 1, (fuel - 1) as nat);
        assert(drop_steps(gv, t, k, (fuel + 1) as nat) == drop_steps(gv, t, k + 1, fuel));
        assert(d == drop_steps(gv, t, k + 1, (fuel - 1) as nat));
    }
}

/// The search result stays between its start and its fuel.
pub proof fn lemma_drop_steps_bounds(gv: Seq<Seq<(u8, u8, u8)>>, t: Tetromino, k: int, fuel: nat)
    ensures
        k <= drop_steps(gv, t, k, fuel) <= k + fuel,
    decreases fuel,
{
    if fuel > 0 && !collides(gv, t, 0, k) {
        lemma_drop_steps_bounds(gv, t, k + 1, (fuel - 1) as nat);
    }
}

/// Every offset the search passed stands free, and where fuel was left over,
/// the search stopped on a collision.
pub proof fn lemma_drop_steps_found(gv: Seq<Seq<(u8, u8, u8)>>, t: Tetromino, k: int, fuel: nat)
    ensures
        forall|j: int| k <= j < drop_steps(gv, t, k, fuel) ==> !collides(gv, t, 0, j),
        drop_steps(gv, t, k, fuel) < k + fuel ==> collides(gv, t, 0, drop_steps(gv, t, k, fuel)),
    decreases fuel,
{
    if fuel > 0 && !collides(gv, t, 0, k) {
        lemma_drop_steps_found(gv, t, k + 1, (fuel - 1) as nat);
        lemma_drop_steps_bounds(gv, t, k + 1, (fuel - 1) as nat);
    }
}

/// A collision at some probed offset caps the search there.
pub proof fn lemma_drop_steps_capped(
    gv: Seq<Seq<(u8, u8, u8)>>,
    t: Tetromino,
    k: int,
    fuel: nat,
    j: int,
)
    requires
        k <= j,
        collides(gv, t, 0, j),
    ensures
        drop_steps(gv, t, k, fuel) <= j,
    decreases fuel,
{
    if fuel > 0 && !collides(gv, t, 0, k) {
        lemma_drop_steps_capped(gv, t, k + 1, (fuel - 1) as nat, j);
    }
}

/// The horizontal displacements tried after a rotation, in priority order.
pub open spec fn kick_offset(i: int) -> int {
    if i == 0 {
        0
    } else if i == 1 {
        -1
    } else if i == 2 {
        1
    } else if i == 3 {
        -2
    } else {
        2
    }
}

/// The piece at the i-th kick displacement, its row untouched.
pub open spec fn kicked(t: Tetromino, i: int) -> Tetromino {
    Tetromino { x: (t.x + kick_offset(i)) as i32, ..t }
}

/// What a rotation attempt leaves as the active piece. For the quarter turn
/// `r` of the piece's matrix: the first of the five kick displacements where
/// the turned piece stands free is taken, with the piece's own row; where all
/// five collide, the piece is left exactly as it was.
pub open spec fn rotate_outcome(gv: Seq<Seq<(u8, u8, u8)>>, pre: Tetromino, post: Tetromino) -> bool {
    forall|r: [[bool; 4]; 4]|
        #[trigger] is_rotation_of(r, pre.shape) ==> ({
            let rp = Tetromino { shape: r, ..pre };
            if exists|i: int| 0 <= i < 5 && !collides(gv, #[trigger] kicked(rp, i), 0, 0) {
                exists|i: int|
                    0 <= i < 5 && !collides(gv, #[trigger] kicked(rp, i), 0, 0) && post == kicked(
                        rp,
                        i,
                    ) && (forall|j: int| 0 <= j < i ==> collides(gv, kicked(rp, j), 0, 0))
            } else {
                post == pre
            }
        })
}

/// The horizontal repeat window has elapsed and a direction key is held.
pub open spec fn h_fired(pre: Board, inp: InputState) -> bool {
    (inp.left || inp.right) && inp.time >= pre.last_horizontal + pre.horizontal_delay
}

/// The soft-drop window has elapsed and the drop key is held.
pub open spec fn s_fired(pre: Board, inp: InputState) -> bool {
    inp.soft_drop && inp.time >= pre.last_drop + pre.drop_delay
}

/// The gravity window has elapsed; this fires whatever the keys say.
pub open spec fn g_fired(pre: Board, inp: InputState) -> bool {
    inp.time >= pre.last_gravity + pre.gravity_delay
}

/// The horizontal intent of the tick: right wins over left when both fire,
/// because it is tested second.
pub open spec fn intent_x(pre: Board, inp: InputState) -> int {
    if h_fired(pre, inp) {
        if inp.right {
            1
        } else {
            -1
        }
    } else {
        0
    }
}

/// The downward intent of the tick: soft drop and gravity both force it.
pub open spec fn intent_y(pre: Board, inp: InputState) -> int {
    if s_fired(pre, inp) || g_fired(pre, inp) {
        1
    } else {
        0
    }
}

/// Each rate limiter that fired is reset to this tick's clock sample.
pub open spec fn timers_updated(pre: Board, inp: InputState, post: Board) -> bool {
    &&& post.last_horizontal == (if h_fired(pre, inp) {
        inp.time
    } else {
        pre.last_horizontal
    })
    &&& post.last_drop == (if s_fired(pre, inp) {
        inp.time
    } else {
        pre.last_drop
    })
    &&& post.last_gravity == (if g_fired(pre, inp) {
        inp.time
    } else {
        pre.last_gravity
    })
}

/// The field, the bag and the inert pieces were not touched.
pub open spec fn pipeline_untouched(pre: Board, post: Board) -> bool {
    &&& post.board == pre.board
    &&& post.bag == pre.bag
    &&& post.t2 == pre.t2
    &&& post.p1 == pre.p1
}

/// The piece moved to the spawn coordinate.
pub open spec fn spawn_of(t: Tetromino) -> Tetromino {
    Tetromino { x: DEFAULT_TETROMINO_X, y: DEFAULT_TETROMINO_Y, ..t }
}

/// Everything one `input` tick does. The intents and timer resets are fixed by
/// the clock sample and the held keys. Without an edge-triggered key the piece
/// makes its horizontal then its vertical step, each reverted if it collides.
/// A rotation press first resolves the rotation; a hard-drop press locks the
/// phantom piece, clears rows and spawns the next piece, and the steps then
/// move that fresh piece on the new field.
pub open spec fn input_step(pre: Board, inp: InputState, post: Board) -> bool {
    let gv = grid_view(pre.board@);
    let dx = intent_x(pre, inp);
    let dy = intent_y(pre, inp);
    &&& timers_updated(pre, inp, post)
    &&& post.direction.0 == dx
    &&& post.direction.1 == dy
    &&& post.horizontal_delay == pre.horizontal_delay
    &&& post.drop_delay == pre.drop_delay
    &&& post.gravity_delay == pre.gravity_delay
    &&& (!inp.rotate && !inp.hard_drop) ==> (pipeline_untouched(pre, post) && post.t1 == try_move(
        gv,
        try_move(gv, pre.t1, dx, 0),
        0,
        dy,
    ))
    &&& (inp.rotate && !inp.hard_drop) ==> (pipeline_untouched(pre, post) && exists|mid: Tetromino|
        #[trigger] rotate_outcome(gv, pre.t1, mid) && post.t1 == try_move(
            gv,
            try_move(gv, mid, dx, 0),
            0,
            dy,
        ))
    &&& inp.hard_drop ==> ({
        let gv2 = cleared_view(locked_view(gv, pre.p1));
        &&& grid_view(post.board@) == gv2
        &&& bag_refilled(pre.bag@, post.bag@, post.t2.kind)
        &&& neutral_piece(post.t2)
        &&& post.t2.x == NEXT_TETROMINO_X
        &&& post.t2.y == NEXT_TETROMINO_Y
        &&& post.p1 == pre.p1
        &&& post.t1 == try_move(gv2, try_move(gv2, spawn_of(pre.t2), dx, 0), 0, dy)
    })
}

/// The phantom piece was recomputed from the active piece and the field.
pub open spec fn phantom_step(pre: Board, post: Board) -> bool {
    post == (Board { p1: phantom_of(grid_view(pre.board@), pre.t1), ..pre })
}

/// The active piece cannot fall one more row, and this tick carried a genuine
/// downward intent: the piece is due to lock.
pub open spec fn lock_ready(pre: Board) -> bool {
    collides(grid_view(pre.board@), pre.t1, 0, 1) && pre.direction.1 == 1
}

/// What the end-of-tick check does: lock and advance when the piece is due to
/// lock, nothing otherwise.
pub open spec fn game_step(pre: Board, post: Board) -> bool {
    &&& lock_ready(pre) ==> lock_advance(pre, pre.t1, post)
    &&& !lock_ready(pre) ==> post == pre
}

/// Inputs of one tick: the clock sample and the five logical button states.
/// `left`, `right` and `soft_drop` are level-triggered (held); `rotate` and
/// `hard_drop` are edge-triggered (just pressed this tick).
#[derive(Clone, Copy)]
pub struct InputState {
    pub time: u64,
    pub left: bool,
    pub right: bool,
    pub soft_drop: bool,
    pub rotate: bool,
    pub hard_drop: bool,
}

/// One player's whole game state: the field, the active piece `t1`, the next
/// piece `t2` (inert, at the preview coordinate), the phantom piece `p1` (the
/// projection of `t1` to its resting row), the bag of kinds still to be drawn
/// this cycle, the movement intent of the current tick, and the rate-limit
/// delays and last-fired clock samples, in milliseconds.
pub struct Board {
    pub t1: Tetromino,
    pub t2: Tetromino,
    pub p1: Tetromino,

    pub bag: Vec<PieceKind>,
    pub board: Vec<Vec<(u8, u8, u8)>>,
    pub direction: (i32, i32),

    pub horizontal_delay: u64,
    pub drop_delay: u64,
    pub gravity_delay: u64,

    pub last_horizontal: u64,
    pub last_drop: u64,
    pub last_gravity: u64,
}

impl Board {
    /// The invariant every public operation preserves: the field has its fixed
    /// dimensions, the three pieces are shaped like real pieces, the active
    /// and phantom pieces stand between the walls and within the rows the
    /// game can reach, and the bag together with the kind already drawn for
    /// the next piece holds no kind twice: a cycle draws without replacement.
    pub open spec fn wf(self) -> bool {
        &&& self.bag@.push(self.t2.kind).no_duplicates()
        &&& grid_wf(grid_view(self.board@))
        &&& shape_ok(self.t1.shape)
        &&& shape_ok(self.t2.shape)
        &&& shape_ok(self.p1.shape)
        &&& cols_in_range(self.t1)
        &&& cols_in_range(self.p1)
        &&& -1 <= self.t1.y <= BOARD_HEIGHT
        &&& -2 <= self.p1.y <= 2 * BOARD_HEIGHT + 2
        &&& -3 <= self.t1.x <= 9
    }

    /// True when the piece, displaced by `offset` (default none), overlaps a
    /// wall, the floor, or an occupied cell; the field is read, never changed.
    pub fn check_collision(&self, tetromino: Tetromino, offset: Option<(i32, i32)>) -> (r: bool)
        requires
            grid_wf(grid_view(self.board@)),
        ensures
            r == collides(grid_view(self.board@), tetromino, off_x(offset), off_y(offset)),
    {
        let (ox, oy): (i32, i32) = match offset {
            None => (0, 0),
            Some(o) => o,
        };
        let ghost gv = grid_view(self.board@);
        let mut y: usize = 0;
        while y < 4
        invariant
            grid_wf(grid_view(self.board@)),
            gv == grid_view(self.board@),
            ox as int == off_x(offset),
            oy as int == off_y(offset),
            0 <= y <= 4,
            forall|lx: int, ly: int|
                #[trigger] occ(tetromino.shape, lx, ly) && ly < y ==> !cell_blocked(
                    gv,
                    tetromino.x + lx + ox,
                    tetromino.y + ly + oy,
                ),
        decreases 4 - y,
        {
            let mut x: usize = 0;
            while x < 4
            invariant
                grid_wf(grid_view(self.board@)),
                gv == grid_view(self.board@),
                ox as int == off_x(offset),
                oy as int == off_y(offset),
                0 <= y < 4,
                0 <= x <= 4,
                forall|lx: int, ly: int|
                    #[trigger] occ(tetromino.shape, lx, ly) && ly < y ==> !cell_blocked(
                        gv,
                        tetromino.x + lx + ox,
                        tetromino.y + ly + oy,
                    ),
                forall|lx: int|
                    #[trigger] occ(tetromino.shape, lx, y as int) && lx < x ==> !cell_blocked(
                        gv,
                        tetromino.x + lx + ox,
                        tetromino.y + y + oy,
                    ),
            decreases 4 - x,
            {
                if tetromino.shape[y][x] {
                    let cx: i64 = tetromino.x as i64 + x as i64 + ox as i64;
                    let cy: i64 = tetromino.y as i64 + y as i64 + oy as i64;
                    if cx < 0 || cx >= BOARD_WIDTH as i64 || cy >= BOARD_HEIGHT as i64 {
                        assert(occ(tetromino.shape, x as int, y as int));
                        return true;
                    }
                    if cy >= 0 {
                        assert(grid_view(self.board@)[cy as int] == self.board@[cy as int]@);
                        let cell: (u8, u8, u8) = self.board[cy as usize][cx as usize];
                        assert(cell == grid_view(self.board@)[cy as int][cx as int]);
                        if !cell_eq(cell, BOARD_COLOR) {
                            assert(occ(tetromino.shape, x as int, y as int));
                            return true;
                        }
                    }
                }
                x = x + 1;
            }
            y = y + 1;
        }
        false
    }

    /// Removes every full row, shifts the rows above each down, and inserts as
    /// many empty rows at the top; the row count stays `BOARD_HEIGHT`.
    pub fn clear_lines(&mut self)
        requires
            grid_wf(grid_view(old(self).board@)),
        ensures
            grid_view(final(self).board@) == cleared_view(grid_view(old(self).board@)),
            grid_wf(grid_view(final(self).board@)),
            *final(self) == (Board { board: final(self).board, ..*old(self) }),
    {
        let ghost g0 = grid_view(self.board@);
        let ghost orig = *self;
        let ghost n: int = self.board@.len() as int;
        let mut kept: Vec<Vec<(u8, u8, u8)>> = Vec::new();
        let mut scanned: usize = 0;
        while self.board.len() > 0
            invariant
                *self == (Board { board: self.board, ..orig }),
                scanned + self.board@.len() == n,
                n == g0.len() == BOARD_HEIGHT,
                forall|i: int|
                    0 <= i < self.board@.len() ==> (#[trigger] self.board@[i])@ == g0[scanned + i],
                grid_view(kept@) =~= non_full_rows(g0.take(scanned as int)),
            decreases self.board@.len(),
        {
            let row = self.board.remove(0);
            let ghost prefix = g0.take(scanned as int);
            assert(row@ == g0[scanned as int]);
            assert(g0.take(scanned + 1).drop_last() =~= prefix);
            assert(g0.take(scanned + 1).last() == g0[scanned as int]);
            if !row_full(&row) {
                kept.push(row);
            }
            assert(grid_view(kept@) =~= non_full_rows(g0.take(scanned + 1)));
            scanned = scanned + 1;
        }
        assert(g0.take(n) =~= g0);
        proof {
            lemma_non_full_rows_len(g0);
        }
        let mut fresh: Vec<Vec<(u8, u8, u8)>> = Vec::new();
        let gaps: usize = BOARD_HEIGHT - kept.len();
        while fresh.len() < gaps
            invariant
                gaps == BOARD_HEIGHT - non_full_rows(g0).len(),
                grid_view(kept@) =~= non_full_rows(g0),
                fresh@.len() <= gaps,
                forall|i: int| 0 <= i < fresh@.len() ==> (#[trigger] fresh@[i])@ =~= empty_row_view(),
            decreases gaps - fresh@.len(),
        {
            fresh.push(crate::global::empty_row());
        }
        let ghost keptv = kept@;
        let ghost freshv = fresh@;
        let ghost gapsi = gaps as int;
        fresh.append(&mut kept);
        self.board = fresh;
        proof {
            lemma_cleared_wf(g0);
            let cv = cleared_view(g0);
            let gvf = grid_view(self.board@);
            assert(self.board@ == freshv + keptv);
            assert(keptv.len() == non_full_rows(g0).len());
            assert forall|i: int| 0 <= i < cv.len() implies gvf[i] == cv[i] by {
                if i < gapsi {
                    assert(self.board@[i] == freshv[i]);
                    assert(freshv[i]@ =~= empty_row_view());
                    assert(cv[i] == empty_row_view());
                } else {
                    assert(self.board@[i] == keptv[i - gapsi]);
                    assert(grid_view(keptv)[i - gapsi] == non_full_rows(g0)[i - gapsi]);
                    assert(cv[i] == non_full_rows(g0)[i - gapsi]);
                }
            }
            assert(gvf =~= cv);
        }
        assert(*self == (Board { board: self.board, ..*old(self) }));
    }

    /// Moves the next piece to the spawn coordinate as the new active piece
    /// and draws a fresh next piece; an exhausted bag is first refilled with a
    /// new shuffle of all seven kinds.
    pub fn refill_bag(&mut self)
        ensures
            final(self).t1 == (Tetromino {
                x: DEFAULT_TETROMINO_X,
                y: DEFAULT_TETROMINO_Y,
                ..old(self).t2
            }),
            neutral_piece(final(self).t2),
            final(self).t2.x == NEXT_TETROMINO_X,
            final(self).t2.y == NEXT_TETROMINO_Y,
            bag_refilled(old(self).bag@, final(self).bag@, final(self).t2.kind),
            *final(self) == (Board {
                t1: final(self).t1,
                t2: final(self).t2,
                bag: final(self).bag,
                ..*old(self)
            }),
    {
        if self.bag.len() == 0 {
            let mut fresh_bag: Vec<PieceKind> = Vec::new();
            fresh_bag.push(PieceKind::I);
            fresh_bag.push(PieceKind::J);
            fresh_bag.push(PieceKind::L);
            fresh_bag.push(PieceKind::O);
            fresh_bag.push(PieceKind::S);
            fresh_bag.push(PieceKind::T);
            fresh_bag.push(PieceKind::Z);
            proof {
                assert(fresh_bag@ =~= all_kinds());
            }
            shuffle_kinds(&mut fresh_bag);
            self.bag = fresh_bag;
        }
        self.t1 = self.t2;
        self.t1.x = DEFAULT_TETROMINO_X;
        self.t1.y = DEFAULT_TETROMINO_Y;
        let ghost shuffled = self.bag@;
        let drawn: PieceKind = self.bag.pop().unwrap();
        self.t2 = Tetromino::new(drawn, NEXT_TETROMINO_X, NEXT_TETROMINO_Y);
        proof {
            if old(self).bag@.len() == 0 {
                assert(self.bag@.push(drawn) =~= shuffled);
            }
        }
    }

    /// Writes the active piece's visible cells into the field, clears full
    /// rows, and advances the piece pipeline.
    pub fn place_tetromino(&mut self)
        requires
            place_pre(*old(self)),
        ensures
            final(self).wf(),
            lock_advance(*old(self), old(self).t1, *final(self)),
    {
        let ghost g0 = grid_view(self.board@);
        let ghost orig = *self;
        let t: Tetromino = self.t1;
        let mut y: usize = 0;
        while y < 4
            invariant
                *self == (Board { board: self.board, ..orig }),
                t == orig.t1,
                place_pre(orig),
                g0 == grid_view(orig.board@),
                0 <= y <= 4,
                grid_view(self.board@) =~~= locked_partial(g0, t, y as int, 0),
            decreases 4 - y,
        {
            let mut x: usize = 0;
            while x < 4
                invariant
                    *self == (Board { board: self.board, ..orig }),
                    t == orig.t1,
                    place_pre(orig),
                    g0 == grid_view(orig.board@),
                    0 <= y < 4,
                    0 <= x <= 4,
                    grid_view(self.board@) =~~= locked_partial(g0, t, y as int, x as int),
                decreases 4 - x,
            {
                let ghost gprev = grid_view(self.board@);
                let ghost bprev = self.board@;
                if self.t1.shape[y][x] {
                    assert(occ(t.shape, x as int, y as int));
                    let cy: i64 = t.y as i64 + y as i64;
                    if 0 <= cy && cy < BOARD_HEIGHT as i64 {
                        let cx: i64 = t.x as i64 + x as i64;
                        assert(0 <= cx < BOARD_WIDTH);
                        proof {
                            assert(grid_view(self.board@) == locked_partial(
                                g0,
                                t,
                                y as int,
                                x as int,
                            ));
                            assert(grid_view(self.board@).len() == g0.len());
                            assert(self.board@.len() == grid_view(self.board@).len());
                            assert(g0.len() == BOARD_HEIGHT);
                            assert(grid_view(self.board@)[cy as int] == self.board@[cy as int]@);
                            assert(grid_view(self.board@)[cy as int].len() == g0[cy as int].len());
                            assert(g0[cy as int].len() == BOARD_WIDTH);
                        }
                        self.board[cy as usize][cx as usize] = t.color;
                    }
                }
                proof {
                    let uy = y as int;
                    let ux = x as int;
                    let gnow = grid_view(self.board@);
                    let gnext = locked_partial(g0, t, uy, ux + 1);
                    let wrote = occ(t.shape, ux, uy) && 0 <= t.y + uy < BOARD_HEIGHT;
                    if wrote {
                        assert(self.board@ == bprev.update(t.y + uy, self.board@[t.y + uy]));
                        assert(self.board@[t.y + uy]@ == bprev[t.y + uy]@.update(t.x + ux, t.color));
                    } else {
                        assert(self.board@ == bprev);
                    }
                    assert(gnow.len() == gnext.len());
                    assert forall|cy2: int| 0 <= cy2 < gnow.len() implies gnow[cy2] =~= gnext[cy2] by {
                        assert(gnow[cy2] == self.board@[cy2]@);
                        assert(gprev[cy2] == bprev[cy2]@);
                        assert(gprev[cy2] == locked_partial(g0, t, uy, ux)[cy2]);
                        assert(gnow[cy2].len() == gnext[cy2].len()) by {
                            if wrote && cy2 == t.y + uy {
                                assert(gnow[cy2].len() == gprev[cy2].len());
                            }
                        }
                        assert forall|cx2: int|
                            0 <= cx2 < gnext[cy2].len() implies gnow[cy2][cx2] == gnext[cy2][cx2] by {
                            if occ(t.shape, ux, uy) && cx2 == t.x + ux && cy2 == t.y + uy {
                                assert(covered_before(t, cx2, cy2, uy, ux + 1));
                                assert(gnow[cy2][cx2] == t.color);
                            } else {
                                assert(gnow[cy2][cx2] == gprev[cy2][cx2]);
                                assert(covered_before(t, cx2, cy2, uy, ux + 1) == covered_before(
                                    t,
                                    cx2,
                                    cy2,
                                    uy,
                                    ux,
                                )) by {
                                    if covered_before(t, cx2, cy2, uy, ux + 1) {
                                        let (lx, ly): (int, int) = choose|lx: int, ly: int|
                                            #[trigger] occ(t.shape, lx, ly) && (ly < uy || (ly == uy
                                                && lx < ux + 1)) && t.x + lx == cx2 && t.y + ly
                                                == cy2;
                                        assert(!(lx == ux && ly == uy));
                                        assert(covered_before(t, cx2, cy2, uy, ux));
                                    }
                                }
                            }
                        }
                    }
                    assert(gnow =~= gnext);
                }
                x = x + 1;
            }
            proof {
                let gnow = grid_view(self.board@);
                let gnext = locked_partial(g0, t, y as int + 1, 0);
                assert forall|cy2: int, cx2: int|
                    0 <= cy2 < gnext.len() && 0 <= cx2 < gnext[cy2].len() implies gnow[cy2][cx2]
                    == gnext[cy2][cx2] by {
                    assert(covered_before(t, cx2, cy2, y as int, 4) == covered_before(
                        t,
                        cx2,
                        cy2,
                        y as int + 1,
                        0,
                    )) by {
                        if covered_before(t, cx2, cy2, y as int, 4) {
                            let (lx, ly): (int, int) = choose|lx: int, ly: int|
                                #[trigger] occ(t.shape, lx, ly) && (ly < y as int || (ly == y as int
                                    && lx < 4)) && t.x + lx == cx2 && t.y + ly == cy2;
                            assert(covered_before(t, cx2, cy2, y as int + 1, 0));
                        }
                        if covered_before(t, cx2, cy2, y as int + 1, 0) {
                            let (lx, ly): (int, int) = choose|lx: int, ly: int|
                                #[trigger] occ(t.shape, lx, ly) && (ly < y as int + 1 || (ly == y
                                    as int + 1 && lx < 0)) && t.x + lx == cx2 && t.y + ly == cy2;
                            assert(covered_before(t, cx2, cy2, y as int, 4));
                        }
                    }
                }
                assert(gnow =~~= gnext);
            }
            y = y + 1;
        }
        proof {
            assert(grid_view(self.board@) == locked_view(g0, t));
            assert(grid_wf(grid_view(self.board@)));
        }
        self.clear_lines();
        self.refill_bag();
        proof {
            lemma_neutral_shape_ok(self.t2);
            assert(cols_in_range(self.t1)) by {
                assert(forall|lx: int, ly: int|
                    #[trigger] occ(self.t1.shape, lx, ly) ==> 0 <= self.t1.x + lx < BOARD_WIDTH);
            }
            if old(self).bag@.len() == 0 {
                lemma_kinds_multiset_distinct(self.bag@.push(self.t2.kind));
            } else {
                lemma_push_no_duplicates(old(self).bag@, old(self).t2.kind);
                assert(self.bag@.push(self.t2.kind) =~= old(self).bag@);
            }
        }
    }

    /// A fresh single-player game: an empty field, the timers at zero, the
    /// delays at their fixed rates, a placeholder active piece at the spawn
    /// coordinate, and a first next piece drawn from a full shuffled bag.
    pub fn new() -> (b: Board)
        ensures
            b.wf(),
            grid_wf(grid_view(b.board@)),
            forall|cy: int, cx: int|
                0 <= cy < BOARD_HEIGHT && 0 <= cx < BOARD_WIDTH ==> (#[trigger] grid_view(
                    b.board@,
                )[cy][cx]) == BOARD_COLOR,
            b.t1.kind == PieceKind::I && neutral_piece(b.t1),
            b.t1.x == DEFAULT_TETROMINO_X && b.t1.y == DEFAULT_TETROMINO_Y,
            b.p1 == b.t1,
            neutral_piece(b.t2),
            b.t2.x == NEXT_TETROMINO_X && b.t2.y == NEXT_TETROMINO_Y,
            bag_refilled(Seq::empty(), b.bag@, b.t2.kind),
            b.direction == (0i32, 0i32),
            b.horizontal_delay == 110 && b.drop_delay == 20 && b.gravity_delay == 1000,
            b.last_horizontal == 0 && b.last_drop == 0 && b.last_gravity == 0,
    {
        let placeholder: Tetromino = Tetromino::new(
            PieceKind::I,
            DEFAULT_TETROMINO_X,
            DEFAULT_TETROMINO_Y,
        );
        let mut board = Board {
            t1: placeholder,
            t2: placeholder,
            p1: placeholder,
            bag: Vec::new(),
            board: crate::global::new_board(),
            direction: (0, 0),
            horizontal_delay: 110,
            drop_delay: 20,
            gravity_delay: 1000,
            last_horizontal: 0,
            last_drop: 0,
            last_gravity: 0,
        };
        board.refill_bag();
        proof {
            lemma_neutral_shape_ok(placeholder);
            lemma_neutral_shape_ok(board.t2);
            lemma_kinds_multiset_distinct(board.bag@.push(board.t2.kind));
        }
        board
    }

    /// Recomputes the phantom piece: a copy of the active piece advanced row
    /// by row while it stands free, probed at most `BOARD_HEIGHT + 1` times,
    /// then backed off one row.
    pub fn update_phantom(&mut self)
        requires
            old(self).wf(),
        ensures
            final(self).wf(),
            final(self).p1 == phantom_of(grid_view(old(self).board@), old(self).t1),
            *final(self) == (Board { p1: final(self).p1, ..*old(self) }),
    {
        let ghost gv = grid_view(self.board@);
        let ghost t0 = self.t1;
        let ghost orig = *self;
        let ghost fullfuel = (BOARD_HEIGHT + 1) as nat;
        self.p1 = self.t1;
        let mut i: usize = 0;
        while i < BOARD_HEIGHT + 1
            invariant
                *self == (Board { p1: self.p1, ..orig }),
                orig.wf(),
                gv == grid_view(orig.board@),
                t0 == orig.t1,
                0 <= i <= BOARD_HEIGHT + 1,
                0 <= drop_steps(gv, t0, 0, i as nat) <= i,
                self.p1 == (Tetromino { y: (t0.y + drop_steps(gv, t0, 0, i as nat)) as i32, ..t0 }),
            decreases BOARD_HEIGHT + 1 - i,
        {
            let ghost d = drop_steps(gv, t0, 0, i as nat);
            proof {
                lemma_drop_steps_bounds(gv, t0, 0, i as nat);
                lemma_collides_moved(gv, t0, 0, d);
                assert(self.p1 == moved(t0, 0, d));
                lemma_drop_steps_unfold_back(gv, t0, 0, i as nat);
            }
            if !self.check_collision(self.p1, None) {
                self.p1.y = self.p1.y + 1;
            }
            i = i + 1;
        }
        self.p1.y = self.p1.y - 1;
        proof {
            lemma_drop_steps_bounds(gv, t0, 0, fullfuel);
            assert(self.p1 == phantom_of(gv, t0));
        }
    }

    /// Snaps the active piece to the phantom piece's resting place and locks
    /// it there at once, bypassing the fall timers.
    pub fn drop_tetromino(&mut self)
        requires
            old(self).wf(),
        ensures
            final(self).wf(),
            lock_advance(
                (Board { t1: old(self).p1, ..*old(self) }),
                old(self).p1,
                *final(self),
            ),
    {
        self.t1 = self.p1;
        self.place_tetromino();
    }

    /// The i-th kick displacement.
    pub fn kick(i: usize) -> (k: i32)
        requires
            i < 5,
        ensures
            k as int == kick_offset(i as int),
    {
        if i == 0 {
            0
        } else if i == 1 {
            -1
        } else if i == 2 {
            1
        } else if i == 3 {
            -2
        } else {
            2
        }
    }

    /// Attempts a quarter turn of the active piece: the turned piece is tried
    /// at the five kick displacements in priority order and the first free one
    /// is kept; where all five collide, the piece is restored unchanged.
    pub fn rotate_tetromino(&mut self)
        requires
            old(self).wf(),
        ensures
            final(self).wf(),
            rotate_outcome(grid_view(old(self).board@), old(self).t1, final(self).t1),
            *final(self) == (Board { t1: final(self).t1, ..*old(self) }),
    {
        let ghost gv = grid_view(self.board@);
        let ghost orig = *self;
        let old_t: Tetromino = self.t1;
        self.t1.rotate();
        let ghost rp = self.t1;
        proof {
            lemma_rotation_preserves_shape_ok(rp.shape, old_t.shape);
        }
        let mut i: usize = 0;
        while i < 5
            invariant
                orig == *old(self),
                *self == (Board { t1: self.t1, ..orig }),
                orig.wf(),
                gv == grid_view(orig.board@),
                old_t == orig.t1,
                self.t1 == (Tetromino { x: self.t1.x, ..rp }),
                is_rotation_of(rp.shape, old_t.shape),
                shape_ok(rp.shape),
                rp == (Tetromino { shape: rp.shape, ..old_t }),
                0 <= i <= 5,
                forall|j: int| 0 <= j < i ==> collides(gv, #[trigger] kicked(rp, j), 0, 0),
            decreases 5 - i,
        {
            let k: i32 = Self::kick(i);
            self.t1.x = old_t.x + k;
            proof {
                assert(self.t1 == kicked(rp, i as int));
            }
            if !self.check_collision(self.t1, None) {
                proof {
                    assert forall|r: [[bool; 4]; 4]|
                        #[trigger] is_rotation_of(r, old_t.shape) implies ({
                        let rp2 = Tetromino { shape: r, ..old_t };
                        if exists|n: int| 0 <= n < 5 && !collides(gv, #[trigger] kicked(rp2, n), 0, 0) {
                            exists|n: int|
                                0 <= n < 5 && !collides(gv, #[trigger] kicked(rp2, n), 0, 0)
                                    && self.t1 == kicked(rp2, n) && (forall|j: int|
                                    0 <= j < n ==> collides(gv, kicked(rp2, j), 0, 0))
                        } else {
                            self.t1 == old_t
                        }
                    }) by {
                        lemma_rotation_unique(r, rp.shape, old_t.shape);
                        let rp2 = Tetromino { shape: r, ..old_t };
                        assert(rp2 == rp);
                        assert(0 <= (i as int) < 5 && !collides(gv, kicked(rp, i as int), 0, 0)
                            && self.t1 == kicked(rp, i as int));
                    }
                    // the accepted spot stands free, so the piece is inside the walls
                    assert forall|lx: int, ly: int|
                        #[trigger] occ(self.t1.shape, lx, ly) implies 0 <= self.t1.x + lx
                        < BOARD_WIDTH by {
                        assert(!cell_blocked(gv, self.t1.x + lx, self.t1.y + ly));
                    }
                    let (wx, wy): (int, int) = choose|wx: int, wy: int|
                        #[trigger] occ(self.t1.shape, wx, wy) && wy >= 1;
                    assert(0 <= self.t1.x + wx < BOARD_WIDTH);
                }
                return;
            }
            i = i + 1;
        }
        self.t1 = old_t;
        proof {
            assert forall|r: [[bool; 4]; 4]|
                #[trigger] is_rotation_of(r, old_t.shape) implies ({
                let rp2 = Tetromino { shape: r, ..old_t };
                if exists|n: int| 0 <= n < 5 && !collides(gv, #[trigger] kicked(rp2, n), 0, 0) {
                    exists|n: int|
                        0 <= n < 5 && !collides(gv, #[trigger] kicked(rp2, n), 0, 0) && self.t1
                            == kicked(rp2, n) && (forall|j: int|
                            0 <= j < n ==> collides(gv, kicked(rp2, j), 0, 0))
                } else {
                    self.t1 == old_t
                }
            }) by {
                lemma_rotation_unique(r, rp.shape, old_t.shape);
                let rp2 = Tetromino { shape: r, ..old_t };
                assert(rp2 == rp);
                assert(forall|n: int| 0 <= n < 5 ==> collides(gv, #[trigger] kicked(rp, n), 0, 0));
            }
        }
    }

    /// Displaces the active piece by (dx, dy) and reverts the move where the
    /// displaced piece collides.
    pub fn try_shift(&mut self, dx: i32, dy: i32)
        requires
            old(self).wf(),
            -1 <= dx <= 1,
            0 <= dy <= 1,
        ensures
            final(self).wf(),
            final(self).t1 == try_move(
                grid_view(old(self).board@),
                old(self).t1,
                dx as int,
                dy as int,
            ),
            *final(self) == (Board { t1: final(self).t1, ..*old(self) }),
    {
        let ghost gv = grid_view(self.board@);
        let before: Tetromino = self.t1;
        self.t1.x = self.t1.x + dx;
        self.t1.y = self.t1.y + dy;
        let collide: bool = self.check_collision(self.t1, None);
        proof {
            assert(self.t1 == moved(before, dx as int, dy as int));
            lemma_collides_moved(gv, before, dx as int, dy as int);
        }
        if collide {
            self.t1 = before;
        } else {
            proof {
                assert forall|lx: int, ly: int|
                    #[trigger] occ(self.t1.shape, lx, ly) implies 0 <= self.t1.x + lx
                    < BOARD_WIDTH by {
                    assert(!cell_blocked(gv, self.t1.x + lx, self.t1.y + ly));
                }
                let (wx, wy): (int, int) = choose|wx: int, wy: int|
                    #[trigger] occ(self.t1.shape, wx, wy) && wy >= 1;
                assert(!cell_blocked(gv, self.t1.x + wx, self.t1.y + wy));
                assert(0 <= self.t1.x + wx < BOARD_WIDTH);
                if dy == 1 {
                    assert(self.t1.y + wy < BOARD_HEIGHT);
                }
            }
        }
    }

    /// Reads one tick's inputs: fires the rate-limited horizontal and downward
    /// intents, resolves an edge-triggered rotation or hard drop, and applies
    /// the horizontal then the vertical step to the active piece, reverting
    /// each step that collides.
    #[verifier::rlimit(50)]
    pub fn input(&mut self, inp: InputState)
        requires
            old(self).wf(),
        ensures
            final(self).wf(),
            input_step(*old(self), inp, *final(self)),
    {
        let ghost pre = *self;
        let time: u64 = inp.time;
        let mut dx: i32 = 0;
        let mut dy: i32 = 0;

        if time >= self.last_horizontal && time - self.last_horizontal >= self.horizontal_delay {
            if inp.left {
                dx = -1;
                self.last_horizontal = time;
            }
            if inp.right {
                dx = 1;
                self.last_horizontal = time;
            }
        }
        if time >= self.last_drop && time - self.last_drop >= self.drop_delay {
            if inp.soft_drop {
                dy = 1;
                self.last_drop = time;
            }
        }
        assert(dx as int == intent_x(pre, inp));

        if inp.rotate {
            self.rotate_tetromino();
        }
        if inp.hard_drop {
            self.drop_tetromino();
        }

        if time >= self.last_gravity && time - self.last_gravity >= self.gravity_delay {
            dy = 1;
            self.last_gravity = time;
        }
        assert(dy as int == intent_y(pre, inp));
        self.direction = (dx, dy);

        self.try_shift(dx, 0);
        self.try_shift(0, dy);
    }

    /// The end-of-tick check: a piece that cannot fall one more row locks and
    /// advances the pipeline, but only when this tick carried a genuine
    /// downward intent.
    pub fn game_loop(&mut self)
        requires
            old(self).wf(),
        ensures
            final(self).wf(),
            game_step(*old(self), *final(self)),
    {
        if self.check_collision(self.t1, Some((0, 1))) {
            if self.direction.1 == 1 {
                self.place_tetromino();
            }
        }
    }

    /// One whole tick: read the inputs and move or lock the active piece,
    /// recompute the phantom piece, then lock the piece where a downward
    /// intent ran it into the floor or the pile.
    pub fn run(&mut self, inp: InputState)
        requires
            old(self).wf(),
        ensures
            final(self).wf(),
            exists|b1: Board, b2: Board|
                #[trigger] input_step(*old(self), inp, b1) && #[trigger] phantom_step(b1, b2)
                    && game_step(b2, *final(self)),
    {
        self.input(inp);
        let ghost b1 = *self;
        self.update_phantom();
        let ghost b2 = *self;
        self.game_loop();
        proof {
            assert(input_step(*old(self), inp, b1) && phantom_step(b1, b2) && game_step(
                b2,
                *self,
            ));
        }
    }
}

} // verus!
