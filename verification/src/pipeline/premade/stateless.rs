use crate::pipeline::Node;
use std::marker::PhantomData;
use vstd::prelude::*;

verus! {

/// A plain function as a stage of its own type: no state, counts pass through.
#[verifier::reject_recursive_types(I)]
#[verifier::reject_recursive_types(O)]
pub struct Stateless<I, O, F: Fn(I) -> O> {
    _phantom: PhantomData<(I, O)>,
    function: F,
}

impl<I, O, F: Fn(I) -> O> Stateless<I, O, F> {
    /// The function that does the work.
    pub closed spec fn function(&self) -> F {
        self.function
    }

    pub fn new(function: F) -> (stage: Self)
        ensures
            stage.function() == function,
    {
        Stateless { _phantom: PhantomData, function }
    }
}

impl<I, O, F: Fn(I) -> O> Node<I> for Stateless<I, O, F> {
    type Output = O;

    open spec fn inv(&self) -> bool {
        true
    }

    open spec fn accepts(&self, input: I) -> bool {
        self.function().requires((input,))
    }

    open spec fn produces(&self, input: I, post: Self, output: O) -> bool {
        post.function() == self.function() && self.function().ensures((input,), output)
    }

    open spec fn resets_to(&self, post: Self) -> bool {
        post.function() == self.function()
    }

    open spec fn remaining(&self, before: usize) -> usize {
        before
    }

    open spec fn epoch_size(&self, before: usize) -> usize {
        before
    }

    fn process(&mut self, input: I) -> (output: O) {
        (self.function)(input)
    }

    fn reset(&mut self) {
    }

    fn data_remaining(&self, before: usize) -> (after: usize) {
        before
    }
}

} // verus!
