use crate::pipeline::Node;
use crate::random::entropy_rng;
use crate::random::seeded_rng;
use crate::random::shuffle_with;
use rand::rngs::StdRng;
use std::marker::PhantomData;
use vstd::prelude::*;

verus! {

/// A stage that hands back its batch in a random order. It holds a generator of its own,
/// seeded once when the stage is made.
#[verifier::reject_recursive_types(T)]
pub struct Shuffle<T> {
    rng: StdRng,
    seed: Ghost<Option<u64>>,
    _phantom: PhantomData<T>,
}

impl<T> Default for Shuffle<T> {
    /// A shuffler whose generator is seeded from the system's entropy.
    fn default() -> (shuffler: Self)
        ensures
            shuffler.seed() is None,
    {
        Self { rng: entropy_rng(), seed: Ghost(None), _phantom: PhantomData }
    }
}

impl<T> Shuffle<T> {
    /// The seed that the generator was made from, where the caller gave one.
    pub closed spec fn seed(&self) -> Option<u64> {
        self.seed@
    }

    /// A shuffler whose generator is seeded with `seed`.
    pub fn with_seed(seed: u64) -> (shuffler: Self)
        ensures
            shuffler.seed() == Some(seed),
    {
        Self { rng: seeded_rng(seed), seed: Ghost(Some(seed)), _phantom: PhantomData }
    }
}

impl<T> Node<Vec<T>> for Shuffle<T> {
    type Output = Vec<T>;

    open spec fn inv(&self) -> bool {
        true
    }

    open spec fn accepts(&self, input: Vec<T>) -> bool {
        true
    }

    /// The output is a rearrangement of the input: the same items, each as often. Which
    /// one it is depends on the generator's draws.
    open spec fn produces(&self, input: Vec<T>, post: Self, output: Vec<T>) -> bool {
        post.seed() == self.seed() && output@.to_multiset() == input@.to_multiset()
    }

    open spec fn resets_to(&self, post: Self) -> bool {
        post.seed() == self.seed()
    }

    open spec fn remaining(&self, before: usize) -> usize {
        before
    }

    open spec fn epoch_size(&self, before: usize) -> usize {
        before
    }

    fn process(&mut self, input: Vec<T>) -> (output: Vec<T>) {
        let mut input = input;
        shuffle_with(&mut input, &mut self.rng);
        input
    }

    fn reset(&mut self) {
    }

    fn data_remaining(&self, before: usize) -> (after: usize) {
        before
    }
}

} // verus!
