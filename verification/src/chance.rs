//! What is left to chance: the random choices that the players make, drawn
//! from the generator of the `rand` crate.

use crate::board::Move;
use rand::rngs::ThreadRng;
use rand::seq::{IteratorRandom, SliceRandom};
use vstd::prelude::*;

verus! {

/// The random number generator of a thread. Nothing of it shows but by the
/// functions below.
#[verifier::external_type_specification]
#[verifier::external_body]
pub struct ExThreadRng(ThreadRng);

/// `thread_rng` of `rand`: the generator of the current thread. Nothing is
/// claimed of it.
#[verifier::external_body]
pub(crate) fn thread_generator() -> ThreadRng {
    rand::thread_rng()
}

/// `IteratorRandom::choose` of `rand` on the numbers below `len`: one of
/// them, left to chance, or `None` if and only if there is none.
#[verifier::external_body]
pub(crate) fn choose_index(generator: &mut ThreadRng, len: usize) -> (r: Option<usize>)
    ensures
        match r {
            Some(i) => i < len,
            None => len == 0,
        },
{
    (0..len).choose(generator)
}

/// `SliceRandom::shuffle` of `rand`: the same moves, each as often as
/// before, in an order left to chance.
#[verifier::external_body]
pub(crate) fn shuffle_moves(generator: &mut ThreadRng, moves: &mut Vec<Move>)
    ensures
        final(moves)@.to_multiset() == old(moves)@.to_multiset(),
{
    moves.shuffle(generator);
}

} // verus!
