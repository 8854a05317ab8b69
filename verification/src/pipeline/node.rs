use super::connectors::Duplicator;
use super::connectors::Pair;
use vstd::prelude::*;

verus! {

/// A stage: the unit of computation that every pipeline is built from.
///
/// A stage is described by relations over its states rather than by functions, so that
/// stages that draw random numbers fit the same contract as pure ones. For a source,
/// `Input` is a vector of unit placeholders whose length is the number of items asked for.
pub trait Node<Input>: Sized {
    type Output;

    /// The stage's own state is well formed. Every state is, unless a stage says otherwise.
    open spec fn inv(&self) -> bool {
        true
    }

    /// `process` may be given `input` in this state. It may be given any, unless a stage
    /// says otherwise.
    open spec fn accepts(&self, input: Input) -> bool {
        true
    }

    /// One call of `process` on `input` may leave the state `post` and hand back `output`.
    /// Nothing is known of either, unless a stage says so.
    open spec fn produces(&self, input: Input, post: Self, output: Self::Output) -> bool {
        true
    }

    /// One call of `reset` may leave the state `post`. Nothing is known of it, unless a
    /// stage says so.
    open spec fn resets_to(&self, post: Self) -> bool {
        true
    }

    /// How many items this stage can still yield when the stage before it has `before`
    /// ready: as many, unless a stage says otherwise.
    open spec fn remaining(&self, before: usize) -> usize {
        before
    }

    /// How many items this stage yields over a whole epoch when the stage before it yields
    /// `before`: as many, unless a stage says otherwise. Neither `process` nor `reset`
    /// changes it.
    open spec fn epoch_size(&self, before: usize) -> usize {
        before
    }

    /// Process one unit of work.
    fn process(&mut self, input: Input) -> (output: Self::Output)
        requires
            old(self).inv(),
            old(self).accepts(input),
        ensures
            final(self).inv(),
            old(self).produces(input, *final(self), output),
            forall|before: usize| #[trigger]
                final(self).epoch_size(before) == old(self).epoch_size(before),
    ;

    /// Start a new epoch. Afterwards the stage has a whole epoch ahead of it again.
    fn reset(&mut self)
        requires
            old(self).inv(),
        ensures
            final(self).inv(),
            old(self).resets_to(*final(self)),
            forall|before: usize| #[trigger]
                final(self).epoch_size(before) == old(self).epoch_size(before),
            forall|before: usize| #[trigger]
                final(self).remaining(before) == final(self).epoch_size(before),
    ;

    /// The number of items left in this epoch.
    fn data_remaining(&self, before: usize) -> (after: usize)
        requires
            self.inv(),
        ensures
            after == self.remaining(before),
    ;
}

/// Every function of one argument is a stage that keeps no state and passes counts through.
impl<I, O, F: Fn(I) -> O> Node<I> for F {
    type Output = O;

    open spec fn inv(&self) -> bool {
        true
    }

    open spec fn accepts(&self, input: I) -> bool {
        self.requires((input,))
    }

    open spec fn produces(&self, input: I, post: Self, output: O) -> bool {
        self.ensures((input,), output) && post == *self
    }

    open spec fn resets_to(&self, post: Self) -> bool {
        post == *self
    }

    open spec fn remaining(&self, before: usize) -> usize {
        before
    }

    open spec fn epoch_size(&self, before: usize) -> usize {
        before
    }

    fn process(&mut self, input: I) -> (output: O) {
        (*self)(input)
    }

    fn reset(&mut self) {
    }

    fn data_remaining(&self, before: usize) -> (after: usize) {
        before
    }
}

/// Sequential composition: `a.chain(b)` feeds what `a` produces into `b`.
pub trait ExtendNode<Input, Output, E: Node<Input, Output = Output>> {
    fn chain<O, N: Node<Output, Output = O>>(self, node: N) -> (E, N);
}

impl<Input, Output, E: Node<Input, Output = Output>> ExtendNode<Input, Output, E> for E {
    fn chain<O, N: Node<Output, Output = O>>(self, node: N) -> (chained: (E, N))
        ensures
            chained == (self, node),
    {
        (self, node)
    }
}

/// Fan-out: `a.split(b, c)` hands a copy of what `a` produces to each of `b` and `c` and
/// pairs up their results.
pub trait ExtendNodeSplit<Input, Output: Clone, E: Node<Input, Output = Output>> {
    fn split<O1, O2, E1: Node<Output, Output = O1>, E2: Node<Output, Output = O2>>(
        self,
        node1: E1,
        node2: E2,
    ) -> (E, Duplicator<Output>, Pair<Output, Output, E1, E2>);
}

impl<Input, Output: Clone, E: Node<Input, Output = Output>> ExtendNodeSplit<Input, Output, E> for E {
    fn split<O1, O2, E1: Node<Output, Output = O1>, E2: Node<Output, Output = O2>>(
        self,
        node1: E1,
        node2: E2,
    ) -> (branched: (E, Duplicator<Output>, Pair<Output, Output, E1, E2>))
        ensures
            branched.0 == self,
            branched.2.first() == node1,
            branched.2.second() == node2,
    {
        (self, Duplicator::default(), Pair::new(node1, node2))
    }
}

/// `a.pair(b, c)`, for an `a` that produces a tuple, runs `b` on the first half and `c` on
/// the second.
pub trait ExtendNodePair<Input, Out1, Out2, E: Node<Input, Output = (Out1, Out2)>> {
    fn pair<F1, F2, N1: Node<Out1, Output = F1>, N2: Node<Out2, Output = F2>>(
        self,
        node1: N1,
        node2: N2,
    ) -> (E, Pair<Out1, Out2, N1, N2>);
}

impl<Input, Out1, Out2, E: Node<Input, Output = (Out1, Out2)>> ExtendNodePair<
    Input,
    Out1,
    Out2,
    E,
> for E {
    fn pair<F1, F2, N1: Node<Out1, Output = F1>, N2: Node<Out2, Output = F2>>(
        self,
        node1: N1,
        node2: N2,
    ) -> (paired: (E, Pair<Out1, Out2, N1, N2>))
        ensures
            paired.0 == self,
            paired.1.first() == node1,
            paired.1.second() == node2,
    {
        (self, Pair::new(node1, node2))
    }
}

} // verus!
