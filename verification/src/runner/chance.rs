use vstd::prelude::*;
use rand::Rng;

verus! {

/// A number below `n`, drawn by `rand::Rng::gen_range` from the generator
/// of the calling thread (`rand::thread_rng`).
///
/// Trusted: `gen_range(0, n)` returns a value of the half-open range from 0
/// to `n`, and refuses an empty range, which `requires` leaves out. Which
/// value comes back is left open. The generator is seeded by the system
/// and gives up where the system has no entropy to offer.
#[verifier::external_body]
pub(crate) fn pick_below(n: usize) -> (r: usize)
    requires
        n > 0,
    ensures
        r < n,
{
    rand::thread_rng().gen_range(0, n)
}

/// Reorders `order` by `rand::Rng::shuffle` with the generator of the
/// calling thread (`rand::thread_rng`).
///
/// Trusted: `shuffle` only swaps items of the slice, so the same numbers
/// are there afterwards, each as often as before. In which order is left
/// open.
#[verifier::external_body]
pub(crate) fn shuffle(order: &mut Vec<usize>)
    ensures
        final(order)@.to_multiset() == old(order)@.to_multiset(),
{
    rand::thread_rng().shuffle(order);
}

} // verus!
