//! The random draws that the engine makes, each behind a stated contract.

use rand::rngs::SmallRng;
use rand::seq::IteratorRandom;
use rand::Rng;
use vstd::prelude::*;

verus! {

/// `rand::rngs::SmallRng`, a source of pseudo-random numbers whose state
/// stays hidden from the proofs.
#[verifier::external_type_specification]
#[verifier::external_body]
pub struct ExSmallRng(SmallRng);

/// `rand::Rng::gen_range` on a half-open range of `usize`: the draw lies in
/// the range. The call panics on an empty range, which the precondition
/// leaves out. Nothing is claimed about which value comes back.
#[verifier::external_body]
pub(crate) fn gen_range(rng: &mut SmallRng, low: usize, high: usize) -> (draw: usize)
    requires
        low < high,
    ensures
        low <= draw < high,
{
    rng.gen_range(low..high)
}

/// `rand::seq::IteratorRandom::choose` on the items of `candidates`: nothing
/// comes back iff there is no candidate, and what comes back is one of them.
/// Nothing is claimed about which one.
#[verifier::external_body]
pub(crate) fn pick_one(rng: &mut SmallRng, candidates: &Vec<usize>) -> (pick: Option<usize>)
    ensures
        pick is None <==> candidates@.len() == 0,
        pick is Some ==> candidates@.contains(pick->Some_0),
{
    candidates.iter().copied().choose(rng)
}

} // verus!
