use vstd::prelude::*;
use macroquad::rand::ChooseRandom;

use crate::tetromino::PieceKind;

verus! {

/// Relies on quad_rand's `ChooseRandom::shuffle` for slices (macroquad
/// re-exports quad_rand as `macroquad::rand`): one Fisher-Yates pass that only
/// swaps elements in place, so whatever order comes out, the result holds
/// exactly the elements the input held.
#[verifier::external_body]
pub(crate) fn shuffle_kinds(v: &mut Vec<PieceKind>)
    ensures
        final(v)@.len() == old(v)@.len(),
        final(v)@.to_multiset() == old(v)@.to_multiset(),
{
    v.as_mut_slice().shuffle();
}

/// Relies on quad_rand's `gen_range` for usize (macroquad re-exports quad_rand
/// as `macroquad::rand`): it scales a 32-bit random value into [low, high),
/// through f64 arithmetic that is exact for the small ranges admitted here.
#[verifier::external_body]
pub(crate) fn random_index(low: usize, high: usize) -> (r: usize)
    requires
        low < high,
        high <= 1000,
    ensures
        low <= r < high,
{
    macroquad::rand::gen_range(low, high)
}

} // verus!
