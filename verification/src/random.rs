use rand::rngs::StdRng;
use rand::seq::SliceRandom;
use rand::SeedableRng;
use vstd::prelude::*;

verus! {

/// The standard generator of the `rand` crate. Nothing is known of its state.
#[verifier::external_type_specification]
#[verifier::external_body]
pub struct ExStdRng(StdRng);

/// A generator seeded from the system's entropy.
///
/// Trusted: `StdRng::from_entropy` of `rand`. Nothing is claimed of the generator.
#[verifier::external_body]
pub(crate) fn entropy_rng() -> StdRng {
    StdRng::from_entropy()
}

/// A generator seeded with `seed`.
///
/// Trusted: `StdRng::seed_from_u64` of `rand`. Nothing is claimed of the generator.
#[verifier::external_body]
pub(crate) fn seeded_rng(seed: u64) -> StdRng {
    StdRng::seed_from_u64(seed)
}

/// Reorders `items` in place by draws from `rng`.
///
/// Trusted: `SliceRandom::shuffle` of `rand`, which only swaps items of the slice. So the
/// result holds the same items as often as before; which order comes out is not stated.
#[verifier::external_body]
pub(crate) fn shuffle_with<T>(items: &mut Vec<T>, rng: &mut StdRng)
    ensures
        final(items)@.to_multiset() == old(items)@.to_multiset(),
{
    items.shuffle(rng);
}

/// Reorders `items` in place by draws from the calling thread's generator.
///
/// Trusted: `SliceRandom::shuffle` of `rand` with the generator that `rand::thread_rng`
/// hands out. The result holds the same items as often as before; which order comes out is
/// not stated.
#[verifier::external_body]
pub(crate) fn shuffle<T>(items: &mut Vec<T>)
    ensures
        final(items)@.to_multiset() == old(items)@.to_multiset(),
{
    items.shuffle(&mut rand::thread_rng());
}

} // verus!
