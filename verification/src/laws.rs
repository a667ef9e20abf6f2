use vstd::prelude::*;

use crate::board::{
    bag_refilled, cell_blocked, cleared_view, collides, drop_steps, full_row, grid_wf, kicked,
    lemma_collides_moved_off, lemma_drop_steps_bounds, lemma_drop_steps_capped,
    lemma_drop_steps_found, lemma_kinds_multiset_distinct, moved, non_full_rows, phantom_of,
    rotate_outcome,
};
use crate::global::{BOARD_HEIGHT, BOARD_WIDTH};
use crate::tetromino::{all_kinds, is_rotation_of, occ, shape_ok, PieceKind, Tetromino};

verus! {

/// A piece with an occupied cell beyond a side wall or below the floor always
/// collides, whatever the field holds.
pub proof fn lemma_collision_out_of_bounds(
    gv: Seq<Seq<(u8, u8, u8)>>,
    t: Tetromino,
    ox: int,
    oy: int,
    lx: int,
    ly: int,
)
    requires
        occ(t.shape, lx, ly),
        t.x + lx + ox < 0 || t.x + lx + ox >= BOARD_WIDTH || t.y + ly + oy >= BOARD_HEIGHT,
    ensures
        collides(gv, t, ox, oy),
{
    assert(cell_blocked(gv, t.x + lx + ox, t.y + ly + oy));
}

/// A bag refilled from empty holds, together with the kind drawn by the
/// refill, each of the seven kinds exactly once.
pub proof fn lemma_bag_refill_complete(bag: Seq<PieceKind>, drawn: PieceKind)
    requires
        bag_refilled(Seq::empty(), bag, drawn),
    ensures
        bag.push(drawn).len() == 7,
        bag.push(drawn).no_duplicates(),
        forall|k: PieceKind| bag.push(drawn).contains(k),
{
    broadcast use vstd::seq_lib::group_to_multiset_ensures;

    let s = bag.push(drawn);
    lemma_kinds_multiset_distinct(s);
    assert forall|k: PieceKind| s.contains(k) by {
        assert(all_kinds().contains(k)) by {
            match k {
                PieceKind::I => assert(all_kinds()[0] == k),
                PieceKind::J => assert(all_kinds()[1] == k),
                PieceKind::L => assert(all_kinds()[2] == k),
                PieceKind::O => assert(all_kinds()[3] == k),
                PieceKind::S => assert(all_kinds()[4] == k),
                PieceKind::T => assert(all_kinds()[5] == k),
                PieceKind::Z => assert(all_kinds()[6] == k),
            }
        }
        assert(s.to_multiset().count(k) > 0);
    }
}

/// A field whose rows are all short of full keeps every row through the clear.
pub proof fn lemma_non_full_rows_all(gv: Seq<Seq<(u8, u8, u8)>>)
    requires
        forall|y: int| 0 <= y < gv.len() ==> !full_row(#[trigger] gv[y]),
    ensures
        non_full_rows(gv) == gv,
    decreases gv.len(),
{
    if gv.len() > 0 {
        assert forall|y: int| 0 <= y < gv.drop_last().len() implies !full_row(
            #[trigger] gv.drop_last()[y],
        ) by {
            assert(gv.drop_last()[y] == gv[y]);
        }
        lemma_non_full_rows_all(gv.drop_last());
        assert(!full_row(gv[gv.len() - 1]));
        assert(non_full_rows(gv) =~= gv);
    }
}

/// With exactly one full row, only that row leaves the field.
pub proof fn lemma_non_full_rows_single(gv: Seq<Seq<(u8, u8, u8)>>, f: int)
    requires
        0 <= f < gv.len(),
        full_row(gv[f]),
        forall|y: int| 0 <= y < gv.len() && y != f ==> !full_row(#[trigger] gv[y]),
    ensures
        non_full_rows(gv) == gv.remove(f),
    decreases gv.len(),
{
    if f == gv.len() - 1 {
        assert forall|y: int| 0 <= y < gv.drop_last().len() implies !full_row(
            #[trigger] gv.drop_last()[y],
        ) by {
            assert(gv.drop_last()[y] == gv[y]);
        }
        lemma_non_full_rows_all(gv.drop_last());
        assert(non_full_rows(gv) == gv.drop_last());
        assert(gv.remove(f) =~= gv.drop_last());
    } else {
        assert forall|y: int|
            0 <= y < gv.drop_last().len() && y != f implies !full_row(
            #[trigger] gv.drop_last()[y],
        ) by {
            assert(gv.drop_last()[y] == gv[y]);
        }
        assert(gv.drop_last()[f] == gv[f]);
        lemma_non_full_rows_single(gv.drop_last(), f);
        assert(!full_row(gv[gv.len() - 1]));
        assert(non_full_rows(gv) == gv.drop_last().remove(f).push(gv.last()));
        assert(gv.remove(f) =~= gv.drop_last().remove(f).push(gv.last()));
    }
}

/// Clearing a field with exactly one full row removes only that row, shifts
/// the rows above it down by one, inserts one empty row at the top, and keeps
/// the row count at `BOARD_HEIGHT`.
pub proof fn lemma_clear_single_row(gv: Seq<Seq<(u8, u8, u8)>>, f: int)
    requires
        grid_wf(gv),
        0 <= f < gv.len(),
        full_row(gv[f]),
        forall|y: int| 0 <= y < gv.len() && y != f ==> !full_row(#[trigger] gv[y]),
    ensures
        cleared_view(gv).len() == BOARD_HEIGHT,
        cleared_view(gv) == seq![crate::board::empty_row_view()] + gv.remove(f),
{
    lemma_non_full_rows_single(gv, f);
    assert(cleared_view(gv) =~= seq![crate::board::empty_row_view()] + gv.remove(f));
}

/// From a legal position the phantom piece never stands above the active
/// piece, its own place stands free, and one more row down it collides: it
/// rests exactly on the lowest legal row. A piece whose position is already
/// illegal (only a freshly spawned piece on a full field can be) is left out.
pub proof fn lemma_phantom_rests(gv: Seq<Seq<(u8, u8, u8)>>, t: Tetromino)
    requires
        grid_wf(gv),
        shape_ok(t.shape),
        -1 <= t.y <= BOARD_HEIGHT,
        !collides(gv, t, 0, 0),
    ensures
        phantom_of(gv, t).y >= t.y,
        !collides(gv, phantom_of(gv, t), 0, 0),
        collides(gv, phantom_of(gv, t), 0, 1),
{
    let fuel = (BOARD_HEIGHT + 1) as nat;
    let d = drop_steps(gv, t, 0, fuel);
    let (wx, wy): (int, int) = choose|wx: int, wy: int| #[trigger] occ(t.shape, wx, wy) && wy >= 1;
    // the witness cell is on the visible field, else the piece would collide now
    assert(!cell_blocked(gv, t.x + wx, t.y + wy));
    assert(t.y + wy < BOARD_HEIGHT);
    let j0 = BOARD_HEIGHT - t.y - wy;
    assert(1 <= j0 <= BOARD_HEIGHT);
    assert(collides(gv, t, 0, j0)) by {
        assert(cell_blocked(gv, t.x + wx, t.y + wy + j0));
    }
    lemma_drop_steps_capped(gv, t, 0, fuel, j0);
    lemma_drop_steps_bounds(gv, t, 0, fuel);
    lemma_drop_steps_found(gv, t, 0, fuel);
    assert(d < fuel);
    assert(collides(gv, t, 0, d));
    assert(d >= 1);
    let p = phantom_of(gv, t);
    assert(p == moved(t, 0, d - 1));
    lemma_collides_moved_off(gv, t, 0, d - 1, 0, 0);
    lemma_collides_moved_off(gv, t, 0, d - 1, 0, 1);
}

/// A rotation that stands free without any kick applies no column shift, and a
/// rotation that collides at all five kicks leaves the piece exactly as it was.
pub proof fn lemma_rotation_kick_discipline(
    gv: Seq<Seq<(u8, u8, u8)>>,
    pre: Tetromino,
    post: Tetromino,
    r: [[bool; 4]; 4],
)
    requires
        rotate_outcome(gv, pre, post),
        is_rotation_of(r, pre.shape),
    ensures
        !collides(gv, (Tetromino { shape: r, ..pre }), 0, 0) ==> post == (Tetromino {
            shape: r,
            ..pre
        }),
        (forall|i: int|
            0 <= i < 5 ==> collides(
                gv,
                #[trigger] kicked((Tetromino { shape: r, ..pre }), i),
                0,
                0,
            )) ==> post == pre,
{
    let rp = Tetromino { shape: r, ..pre };
    assert(kicked(rp, 0) == rp);
    if !collides(gv, rp, 0, 0) {
        assert(!collides(gv, kicked(rp, 0), 0, 0));
        let i = choose|i: int|
            0 <= i < 5 && !collides(gv, #[trigger] kicked(rp, i), 0, 0) && post == kicked(rp, i)
                && (forall|j: int| 0 <= j < i ==> collides(gv, kicked(rp, j), 0, 0));
        assert(i == 0);
    }
}

} // verus!
