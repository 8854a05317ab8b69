use crate::pipeline::Node;
use vstd::prelude::*;

verus! {

/// One of two stages with the same input and output: what lets stages of different types
/// stand in one collection, such as the sources of a selector. It behaves as the stage it
/// holds, and no call changes which of the two that is.
pub enum Either<A, B> {
    Left(A),
    Right(B),
}

impl<I, O, A: Node<I, Output = O>, B: Node<I, Output = O>> Node<I> for Either<A, B> {
    type Output = O;

    open spec fn inv(&self) -> bool {
        match self {
            Either::Left(a) => a.inv(),
            Either::Right(b) => b.inv(),
        }
    }

    open spec fn accepts(&self, input: I) -> bool {
        match self {
            Either::Left(a) => a.accepts(input),
            Either::Right(b) => b.accepts(input),
        }
    }

    open spec fn produces(&self, input: I, post: Self, output: O) -> bool {
        match (self, post) {
            (Either::Left(a), Either::Left(after)) => a.produces(input, after, output),
            (Either::Right(b), Either::Right(after)) => b.produces(input, after, output),
            _ => false,
        }
    }

    open spec fn resets_to(&self, post: Self) -> bool {
        match (self, post) {
            (Either::Left(a), Either::Left(after)) => a.resets_to(after),
            (Either::Right(b), Either::Right(after)) => b.resets_to(after),
            _ => false,
        }
    }

    open spec fn remaining(&self, before: usize) -> usize {
        match self {
            Either::Left(a) => a.remaining(before),
            Either::Right(b) => b.remaining(before),
        }
    }

    open spec fn epoch_size(&self, before: usize) -> usize {
        match self {
            Either::Left(a) => a.epoch_size(before),
            Either::Right(b) => b.epoch_size(before),
        }
    }

    fn process(&mut self, input: I) -> (output: O) {
        match self {
            Either::Left(a) => a.process(input),
            Either::Right(b) => b.process(input),
        }
    }

    fn reset(&mut self) {
        match self {
            Either::Left(a) => a.reset(),
            Either::Right(b) => b.reset(),
        }
    }

    fn data_remaining(&self, before: usize) -> (after: usize) {
        match self {
            Either::Left(a) => a.data_remaining(before),
            Either::Right(b) => b.data_remaining(before),
        }
    }
}

} // verus!
