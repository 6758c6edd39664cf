//! The source of random numbers that the search draws from.

use rand::rngs::StdRng;
use rand::seq::SliceRandom;
use rand::Rng;
use vstd::prelude::*;
use crate::types::Move;

verus! {

/// `rand::rngs::StdRng`, the seedable generator. Nothing is known of what
/// it holds.
#[verifier::external_type_specification]
#[verifier::external_body]
pub struct ExStdRng(rand::rngs::StdRng);

/// `rand::Rng::gen_range` on the range `0..n`: some index below `n`. The
/// outside function panics on an empty range, so `n` is positive.
#[verifier::external_body]
pub(crate) fn draw_index(rng: &mut StdRng, n: usize) -> (i: usize)
    requires
        n > 0,
    ensures
        i < n,
{
    rng.gen_range(0..n)
}

/// `rand::seq::SliceRandom::choose` on a slice of moves: one of the moves,
/// or nothing where the slice is empty.
#[verifier::external_body]
pub(crate) fn choose_move(moves: &Vec<Move>, rng: &mut StdRng) -> (m: Option<Move>)
    ensures
        m is Some <==> moves@.len() > 0,
        m is Some ==> moves@.contains(m->0),
{
    moves.choose(rng).copied()
}

} // verus!
