//! The random choices of the solver, drawn from the thread-local generator
//! of the `rand` crate.

use vstd::prelude::*;
use rand::rngs::ThreadRng;
use rand::seq::SliceRandom;
use rand::Rng;

verus! {

/// `rand::rngs::ThreadRng`, a handle to the thread-local generator. Nothing
/// is known of what it holds.
#[verifier::external_type_specification]
#[verifier::external_body]
pub struct ExThreadRng(rand::rngs::ThreadRng);

/// Calls `rand::thread_rng`, which hands out a handle to the generator of
/// the current thread. Nothing is claimed of the handle.
#[verifier::external_body]
pub(crate) fn thread_rng() -> (rng: ThreadRng) {
    rand::thread_rng()
}

/// Calls `Rng::gen` for a `u32`, which takes the next 32 bits of the
/// generator. Any value may come back, so nothing is claimed of it.
#[verifier::external_body]
pub(crate) fn noise(rng: &mut ThreadRng) -> (bits: u32) {
    rng.gen::<u32>()
}

/// Calls `SliceRandom::choose` on `items`: `None` if there are no items,
/// else one of the items. Which one is not known.
#[verifier::external_body]
pub(crate) fn pick(rng: &mut ThreadRng, items: &Vec<usize>) -> (chosen: Option<usize>)
    ensures
        items@.len() == 0 ==> chosen is None,
        items@.len() > 0 ==> chosen is Some && items@.contains(chosen->0),
{
    items.choose(rng).copied()
}

} // verus!
