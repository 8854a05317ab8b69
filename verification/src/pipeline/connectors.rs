use super::node::Node;
use std::marker::PhantomData;
use vstd::prelude::*;

verus! {

/// A stage that takes a value and hands back a copy of it beside the value itself.
#[verifier::reject_recursive_types(T)]
pub struct Duplicator<T: Clone> {
    _phantom: PhantomData<T>,
}

impl<T: Clone> Default for Duplicator<T> {
    fn default() -> Self {
        Duplicator { _phantom: PhantomData }
    }
}

impl<T: Clone> Node<T> for Duplicator<T> {
    type Output = (T, T);

    open spec fn inv(&self) -> bool {
        true
    }

    open spec fn accepts(&self, input: T) -> bool {
        true
    }

    open spec fn produces(&self, input: T, post: Self, output: (T, T)) -> bool {
        cloned(input, output.0) && output.1 == input
    }

    open spec fn resets_to(&self, post: Self) -> bool {
        true
    }

    open spec fn remaining(&self, before: usize) -> usize {
        before
    }

    open spec fn epoch_size(&self, before: usize) -> usize {
        before
    }

    fn process(&mut self, input: T) -> (output: (T, T)) {
        (input.clone(), input)
    }

    fn reset(&mut self) {
    }

    fn data_remaining(&self, before: usize) -> (after: usize) {
        before
    }
}

/// Two stages side by side, each working on its own half of a tuple.
#[verifier::reject_recursive_types(I0)]
#[verifier::reject_recursive_types(I1)]
pub struct Pair<I0, I1, N1: Node<I0>, N2: Node<I1>> {
    node1: N1,
    node2: N2,
    _phantom: PhantomData<(I0, I1)>,
}

impl<I1, O1, N1: Node<I1, Output = O1>, I2, O2, N2: Node<I2, Output = O2>> Pair<I1, I2, N1, N2> {
    /// The stage that runs on the first half.
    pub closed spec fn first(&self) -> N1 {
        self.node1
    }

    /// The stage that runs on the second half.
    pub closed spec fn second(&self) -> N2 {
        self.node2
    }

    pub fn new(node1: N1, node2: N2) -> (pair: Self)
        ensures
            pair.first() == node1,
            pair.second() == node2,
    {
        Pair { node1, node2, _phantom: PhantomData }
    }
}

impl<I1, I2, N1: Node<I1>, N2: Node<I2>> Node<(I1, I2)> for Pair<I1, I2, N1, N2> {
    type Output = (N1::Output, N2::Output);

    open spec fn inv(&self) -> bool {
        self.first().inv() && self.second().inv()
    }

    open spec fn accepts(&self, input: (I1, I2)) -> bool {
        self.first().accepts(input.0) && self.second().accepts(input.1)
    }

    open spec fn produces(&self, input: (I1, I2), post: Self, output: Self::Output) -> bool {
        &&& self.first().produces(input.0, post.first(), output.0)
        &&& self.second().produces(input.1, post.second(), output.1)
    }

    open spec fn resets_to(&self, post: Self) -> bool {
        self.first().resets_to(post.first()) && self.second().resets_to(post.second())
    }

    /// The weaker branch caps the count, so that no unequal tuple is ever asked for.
    open spec fn remaining(&self, before: usize) -> usize {
        if self.first().remaining(before) <= self.second().remaining(before) {
            self.first().remaining(before)
        } else {
            self.second().remaining(before)
        }
    }

    open spec fn epoch_size(&self, before: usize) -> usize {
        if self.first().epoch_size(before) <= self.second().epoch_size(before) {
            self.first().epoch_size(before)
        } else {
            self.second().epoch_size(before)
        }
    }

    fn process(&mut self, input: (I1, I2)) -> (output: Self::Output) {
        let (a, b) = input;
        let x = self.node1.process(a);
        let y = self.node2.process(b);
        (x, y)
    }

    fn reset(&mut self) {
        self.node1.reset();
        self.node2.reset();
    }

    fn data_remaining(&self, before: usize) -> (after: usize) {
        let a = self.node1.data_remaining(before);
        let b = self.node2.data_remaining(before);
        if a <= b {
            a
        } else {
            b
        }
    }
}

/// A chain of two stages is a stage: the first feeds the second.
impl<Input, M1: Node<Input>, M2: Node<M1::Output>> Node<Input> for (M1, M2) {
    type Output = M2::Output;

    open spec fn inv(&self) -> bool {
        self.0.inv() && self.1.inv()
    }

    open spec fn accepts(&self, input: Input) -> bool {
        &&& self.0.accepts(input)
        &&& forall|after0: M1, x1: M1::Output| #[trigger]
            self.0.produces(input, after0, x1) && after0.inv() ==> self.1.accepts(x1)
    }

    open spec fn produces(&self, input: Input, post: Self, output: Self::Output) -> bool {
        exists|x1: M1::Output| #[trigger]
            self.0.produces(input, post.0, x1) && self.1.produces(x1, post.1, output)
    }

    open spec fn resets_to(&self, post: Self) -> bool {
        self.0.resets_to(post.0) && self.1.resets_to(post.1)
    }

    open spec fn remaining(&self, before: usize) -> usize {
        self.1.remaining(self.0.remaining(before))
    }

    open spec fn epoch_size(&self, before: usize) -> usize {
        self.1.epoch_size(self.0.epoch_size(before))
    }

    fn process(&mut self, input: Input) -> (output: Self::Output) {
        let x = self.0.process(input);
        self.1.process(x)
    }

    fn reset(&mut self) {
        self.0.reset();
        self.1.reset();
    }

    fn data_remaining(&self, before: usize) -> (after: usize) {
        let before = self.0.data_remaining(before);
        self.1.data_remaining(before)
    }
}

} // verus!
