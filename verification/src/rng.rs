//! The random number generator of the game and the few draws the game makes
//! from it.

use rand::seq::IteratorRandom;
use rand::Rng;
use rand::RngCore;
use rand_chacha::ChaCha8Rng;
use std::ops::Range;
use vstd::prelude::*;

verus! {

/// The game's generator, `rand_chacha::ChaCha8Rng`, carried through the
/// library as an opaque value.
#[verifier::external_type_specification]
#[verifier::external_body]
pub struct ExChaCha8Rng(ChaCha8Rng);

/// A uniform draw from `0..bound`, made with `rand::Rng::random_range`.
/// The contract claims only that the result lies in the range, which is what
/// `random_range` guarantees (it panics on an empty range, hence the
/// requirement).
#[verifier::external_body]
pub(crate) fn random_below(rng: &mut ChaCha8Rng, bound: usize) -> (r: usize)
    requires
        bound > 0,
    ensures
        r < bound,
{
    rng.random_range(0..bound)
}

/// The next 32 random bits of the generator (`rand::RngCore::next_u32`).
/// Any `u32` can come back, so nothing is claimed of it.
#[verifier::external_body]
pub(crate) fn next_u32(rng: &mut ChaCha8Rng) -> u32 {
    rng.next_u32()
}

/// One element of a range, chosen by `rand::seq::IteratorRandom::choose`.
/// On an exact-size iterator such as a range, `choose` returns `None`
/// exactly when the range is empty and otherwise one of its elements.
#[verifier::external_body]
pub(crate) fn choose_in_range(rng: &mut ChaCha8Rng, range: Range<usize>) -> (r: Option<usize>)
    ensures
        r is None <==> range.end <= range.start,
        r matches Some(x) ==> range.start <= x < range.end,
{
    range.choose(rng)
}

} // verus!
