use crate::pipeline::Node;
use std::marker::PhantomData;
use vstd::prelude::*;

verus! {

/// The count of a stage that changes no cardinality: what came in.
pub fn identity_remaining(before: usize) -> (after: usize)
    ensures
        after == before,
{
    before
}

/// Stands in the place of a counting function where counts pass through unchanged.
pub struct PassThrough;

/// `counter` is a function in the mathematical sense: it takes every count and answers
/// each with one value only.
pub open spec fn counts<R: Fn(usize) -> usize>(counter: R) -> bool {
    &&& forall|before: usize| #[trigger] counter.requires((before,))
    &&& forall|before: usize, a: usize, b: usize|
        #[trigger] counter.ensures((before,), a) && #[trigger] counter.ensures((before,), b) ==> a
            == b
}

/// What `counter` answers to `before`.
pub open spec fn counted<R: Fn(usize) -> usize>(counter: R, before: usize) -> usize {
    choose|after: usize| counter.ensures((before,), after)
}

/// A function with a state of its own, as a stage. The function reads the state and hands
/// back, beside its result, the state to go on with.
#[verifier::reject_recursive_types(I)]
#[verifier::reject_recursive_types(O)]
#[verifier::reject_recursive_types(S)]
#[verifier::reject_recursive_types(F)]
#[verifier::reject_recursive_types(R)]
pub struct Stateful<I, O, S, F, R> {
    _phantom: PhantomData<(I, O)>,
    function: F,
    state: S,
    remaining: R,
}

impl<I, O, S, F, R> Stateful<I, O, S, F, R> {
    /// The function that does the work.
    pub closed spec fn function(&self) -> F {
        self.function
    }

    /// The state that the next call will read.
    pub closed spec fn state(&self) -> S {
        self.state
    }

    /// The function that answers `data_remaining`.
    pub closed spec fn counter(&self) -> R {
        self.remaining
    }

    /// The same stage with `remaining_fn` to answer `data_remaining`.
    pub fn remaining<N: Fn(usize) -> usize>(self, remaining_fn: N) -> (stage: Stateful<
        I,
        O,
        S,
        F,
        N,
    >)
        ensures
            stage.function() == self.function(),
            stage.state() == self.state(),
            stage.counter() == remaining_fn,
    {
        Stateful {
            _phantom: PhantomData,
            function: self.function,
            state: self.state,
            remaining: remaining_fn,
        }
    }
}

impl Clone for PassThrough {
    fn clone(&self) -> Self {
        PassThrough
    }
}

impl<I, O, S: Clone, F: Clone, R: Clone> Clone for Stateful<I, O, S, F, R> {
    /// A stage with copies of the functions and of the state.
    fn clone(&self) -> (copy: Self)
        ensures
            cloned(self.function(), copy.function()),
            cloned(self.state(), copy.state()),
            cloned(self.counter(), copy.counter()),
    {
        Self {
            _phantom: PhantomData,
            function: self.function.clone(),
            state: self.state.clone(),
            remaining: self.remaining.clone(),
        }
    }
}

impl<I, O, S, F: Fn(I, &S) -> (O, S)> Stateful<I, O, S, F, PassThrough> {
    /// A stage that starts in `state`, works by `function` and passes counts through.
    pub fn new(state: S, function: F) -> (stage: Self)
        ensures
            stage.function() == function,
            stage.state() == state,
    {
        Stateful { _phantom: PhantomData, function, state, remaining: PassThrough }
    }
}

impl<I, O, S, F: Fn(I, &S) -> (O, S)> Node<I> for Stateful<I, O, S, F, PassThrough> {
    type Output = O;

    open spec fn inv(&self) -> bool {
        true
    }

    open spec fn accepts(&self, input: I) -> bool {
        self.function().requires((input, &self.state()))
    }

    open spec fn produces(&self, input: I, post: Self, output: O) -> bool {
        &&& post.function() == self.function()
        &&& self.function().ensures((input, &self.state()), (output, post.state()))
    }

    open spec fn resets_to(&self, post: Self) -> bool {
        post.function() == self.function() && post.state() == self.state()
    }

    open spec fn remaining(&self, before: usize) -> usize {
        before
    }

    open spec fn epoch_size(&self, before: usize) -> usize {
        before
    }

    fn process(&mut self, input: I) -> (output: O) {
        let (output, next) = (self.function)(input, &self.state);
        self.state = next;
        output
    }

    fn reset(&mut self) {
    }

    fn data_remaining(&self, before: usize) -> (after: usize) {
        identity_remaining(before)
    }
}

impl<I, O, S, F: Fn(I, &S) -> (O, S), R: Fn(usize) -> usize> Node<I> for Stateful<I, O, S, F, R> {
    type Output = O;

    open spec fn inv(&self) -> bool {
        counts(self.counter())
    }

    open spec fn accepts(&self, input: I) -> bool {
        self.function().requires((input, &self.state()))
    }

    open spec fn produces(&self, input: I, post: Self, output: O) -> bool {
        &&& post.function() == self.function()
        &&& post.counter() == self.counter()
        &&& self.function().ensures((input, &self.state()), (output, post.state()))
    }

    open spec fn resets_to(&self, post: Self) -> bool {
        &&& post.function() == self.function()
        &&& post.counter() == self.counter()
        &&& post.state() == self.state()
    }

    open spec fn remaining(&self, before: usize) -> usize {
        counted(self.counter(), before)
    }

    open spec fn epoch_size(&self, before: usize) -> usize {
        counted(self.counter(), before)
    }

    fn process(&mut self, input: I) -> (output: O) {
        let (output, next) = (self.function)(input, &self.state);
        self.state = next;
        output
    }

    fn reset(&mut self) {
    }

    fn data_remaining(&self, before: usize) -> (after: usize)
        ensures
            self.counter().ensures((before,), after),
    {
        (self.remaining)(before)
    }
}

} // verus!
