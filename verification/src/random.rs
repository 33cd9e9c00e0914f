//! Random choices, drawn from a generator of the `rand` crate that the caller
//! brings along.

use rand::rngs::StdRng;
use rand::seq::SliceRandom;
use rand::Rng;
use vstd::prelude::*;

verus! {

/// The standard generator of `rand`. Its state is of no concern here: a
/// generator is handed on to the calls that draw from it.
#[verifier::external_type_specification]
#[verifier::external_body]
pub struct ExStdRng(StdRng);

/// `Rng::gen_range` of `rand`, from zero: a position below `bound`, which
/// must not be zero. Which one is a matter of chance.
#[verifier::external_body]
pub(crate) fn position_below(rng: &mut StdRng, bound: usize) -> (position: usize)
    requires
        bound > 0,
    ensures
        position < bound,
{
    rng.gen_range(0, bound)
}

/// `SliceRandom::shuffle` of `rand`: puts the items into a random order by
/// exchanging them, so that afterwards each item occurs as often as before.
#[verifier::external_body]
pub(crate) fn shuffle(items: &mut Vec<u32>, rng: &mut StdRng)
    ensures
        final(items)@.to_multiset() == old(items)@.to_multiset(),
{
    items.shuffle(rng)
}

} // verus!
