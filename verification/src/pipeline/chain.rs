use super::node::Node;
use vstd::prelude::*;

verus! {

/// A chain of three stages.
impl<Input, M1: Node<Input>, M2: Node<M1::Output>, M3: Node<M2::Output>> Node<Input> for (M1, M2, M3) {
    type Output = M3::Output;

    open spec fn inv(&self) -> bool {
        self.0.inv() && self.1.inv() && self.2.inv()
    }

    open spec fn accepts(&self, input: Input) -> bool {
        &&& self.0.accepts(input)
        &&& forall|after0: M1, x1: M1::Output| #[trigger]
            self.0.produces(input, after0, x1) && after0.inv() ==> {
                &&& self.1.accepts(x1)
                &&& forall|after1: M2, x2: M2::Output| #[trigger]
                        self.1.produces(x1, after1, x2) && after1.inv() ==> {
                            &&& self.2.accepts(x2)
                        }
            }
    }

    open spec fn produces(&self, input: Input, post: Self, output: Self::Output) -> bool {
        exists|x1: M1::Output, x2: M2::Output|
            {
                &&& #[trigger] self.0.produces(input, post.0, x1)
                &&& #[trigger] self.1.produces(x1, post.1, x2)
                &&& self.2.produces(x2, post.2, output)
            }
    }

    open spec fn resets_to(&self, post: Self) -> bool {
        &&& self.0.resets_to(post.0)
        &&& self.1.resets_to(post.1)
        &&& self.2.resets_to(post.2)
    }

    open spec fn remaining(&self, before: usize) -> usize {
        self.2.remaining(self.1.remaining(self.0.remaining(before)))
    }

    open spec fn epoch_size(&self, before: usize) -> usize {
        self.2.epoch_size(self.1.epoch_size(self.0.epoch_size(before)))
    }

    fn process(&mut self, input: Input) -> (output: Self::Output) {
        let x = self.0.process(input);
        let x = self.1.process(x);
        self.2.process(x)
    }

    fn reset(&mut self) {
        self.0.reset();
        self.1.reset();
        self.2.reset();
    }

    fn data_remaining(&self, before: usize) -> (after: usize) {
        let before = self.0.data_remaining(before);
        let before = self.1.data_remaining(before);
        self.2.data_remaining(before)
    }
}

/// A chain of four stages.
impl<Input, M1: Node<Input>, M2: Node<M1::Output>, M3: Node<M2::Output>, M4: Node<M3::Output>> Node<Input> for (M1, M2, M3, M4) {
    type Output = M4::Output;

    open spec fn inv(&self) -> bool {
        self.0.inv() && self.1.inv() && self.2.inv() && self.3.inv()
    }

    open spec fn accepts(&self, input: Input) -> bool {
        &&& self.0.accepts(input)
        &&& forall|after0: M1, x1: M1::Output| #[trigger]
            self.0.produces(input, after0, x1) && after0.inv() ==> {
                &&& self.1.accepts(x1)
                &&& forall|after1: M2, x2: M2::Output| #[trigger]
                        self.1.produces(x1, after1, x2) && after1.inv() ==> {
                            &&& self.2.accepts(x2)
                            &&& forall|after2: M3, x3: M3::Output| #[trigger]
                                    self.2.produces(x2, after2, x3) && after2.inv() ==> {
                                        &&& self.3.accepts(x3)
                                    }
                        }
            }
    }

    open spec fn produces(&self, input: Input, post: Self, output: Self::Output) -> bool {
        exists|x1: M1::Output, x2: M2::Output, x3: M3::Output|
            {
                &&& #[trigger] self.0.produces(input, post.0, x1)
                &&& #[trigger] self.1.produces(x1, post.1, x2)
                &&& #[trigger] self.2.produces(x2, post.2, x3)
                &&& self.3.produces(x3, post.3, output)
            }
    }

    open spec fn resets_to(&self, post: Self) -> bool {
        &&& self.0.resets_to(post.0)
        &&& self.1.resets_to(post.1)
        &&& self.2.resets_to(post.2)
        &&& self.3.resets_to(post.3)
    }

    open spec fn remaining(&self, before: usize) -> usize {
        self.3.remaining(self.2.remaining(self.1.remaining(self.0.remaining(before))))
    }

    open spec fn epoch_size(&self, before: usize) -> usize {
        self.3.epoch_size(self.2.epoch_size(self.1.epoch_size(self.0.epoch_size(before))))
    }

    fn process(&mut self, input: Input) -> (output: Self::Output) {
        let x = self.0.process(input);
        let x = self.1.process(x);
        let x = self.2.process(x);
        self.3.process(x)
    }

    fn reset(&mut self) {
        self.0.reset();
        self.1.reset();
        self.2.reset();
        self.3.reset();
    }

    fn data_remaining(&self, before: usize) -> (after: usize) {
        let before = self.0.data_remaining(before);
        let before = self.1.data_remaining(before);
        let before = self.2.data_remaining(before);
        self.3.data_remaining(before)
    }
}

/// A chain of five stages.
impl<Input, M1: Node<Input>, M2: Node<M1::Output>, M3: Node<M2::Output>, M4: Node<M3::Output>, M5: Node<M4::Output>> Node<Input> for (M1, M2, M3, M4, M5) {
    type Output = M5::Output;

    open spec fn inv(&self) -> bool {
        self.0.inv() && self.1.inv() && self.2.inv() && self.3.inv() && self.4.inv()
    }

    open spec fn accepts(&self, input: Input) -> bool {
        &&& self.0.accepts(input)
        &&& forall|after0: M1, x1: M1::Output| #[trigger]
            self.0.produces(input, after0, x1) && after0.inv() ==> {
                &&& self.1.accepts(x1)
                &&& forall|after1: M2, x2: M2::Output| #[trigger]
                        self.1.produces(x1, after1, x2) && after1.inv() ==> {
                            &&& self.2.accepts(x2)
                            &&& forall|after2: M3, x3: M3::Output| #[trigger]
                                    self.2.produces(x2, after2, x3) && after2.inv() ==> {
                                        &&& self.3.accepts(x3)
                                        &&& forall|after3: M4, x4: M4::Output| #[trigger]
                                                self.3.produces(x3, after3, x4) && after3.inv() ==> {
                                                    &&& self.4.accepts(x4)
                                                }
                                    }
                        }
            }
    }

    open spec fn produces(&self, input: Input, post: Self, output: Self::Output) -> bool {
        exists|x1: M1::Output, x2: M2::Output, x3: M3::Output, x4: M4::Output|
            {
                &&& #[trigger] self.0.produces(input, post.0, x1)
                &&& #[trigger] self.1.produces(x1, post.1, x2)
                &&& #[trigger] self.2.produces(x2, post.2, x3)
                &&& #[trigger] self.3.produces(x3, post.3, x4)
                &&& self.4.produces(x4, post.4, output)
            }
    }

    open spec fn resets_to(&self, post: Self) -> bool {
        &&& self.0.resets_to(post.0)
        &&& self.1.resets_to(post.1)
        &&& self.2.resets_to(post.2)
        &&& self.3.resets_to(post.3)
        &&& self.4.resets_to(post.4)
    }

    open spec fn remaining(&self, before: usize) -> usize {
        self.4.remaining(self.3.remaining(self.2.remaining(self.1.remaining(self.0.remaining(before)))))
    }

    open spec fn epoch_size(&self, before: usize) -> usize {
        self.4.epoch_size(self.3.epoch_size(self.2.epoch_size(self.1.epoch_size(self.0.epoch_size(before)))))
    }

    fn process(&mut self, input: Input) -> (output: Self::Output) {
        let x = self.0.process(input);
        let x = self.1.process(x);
        let x = self.2.process(x);
        let x = self.3.process(x);
        self.4.process(x)
    }

    fn reset(&mut self) {
        self.0.reset();
        self.1.reset();
        self.2.reset();
        self.3.reset();
        self.4.reset();
    }

    fn data_remaining(&self, before: usize) -> (after: usize) {
        let before = self.0.data_remaining(before);
        let before = self.1.data_remaining(before);
        let before = self.2.data_remaining(before);
        let before = self.3.data_remaining(before);
        self.4.data_remaining(before)
    }
}

/// A chain of six stages.
impl<Input, M1: Node<Input>, M2: Node<M1::Output>, M3: Node<M2::Output>, M4: Node<M3::Output>, M5: Node<M4::Output>, M6: Node<M5::Output>> Node<Input> for (M1, M2, M3, M4, M5, M6) {
    type Output = M6::Output;

    open spec fn inv(&self) -> bool {
        self.0.inv() && self.1.inv() && self.2.inv() && self.3.inv() && self.4.inv() && self.5.inv()
    }

    open spec fn accepts(&self, input: Input) -> bool {
        &&& self.0.accepts(input)
        &&& forall|after0: M1, x1: M1::Output| #[trigger]
            self.0.produces(input, after0, x1) && after0.inv() ==> {
                &&& self.1.accepts(x1)
                &&& forall|after1: M2, x2: M2::Output| #[trigger]
                        self.1.produces(x1, after1, x2) && after1.inv() ==> {
                            &&& self.2.accepts(x2)
                            &&& forall|after2: M3, x3: M3::Output| #[trigger]
                                    self.2.produces(x2, after2, x3) && after2.inv() ==> {
                                        &&& self.3.accepts(x3)
                                        &&& forall|after3: M4, x4: M4::Output| #[trigger]
                                                self.3.produces(x3, after3, x4) && after3.inv() ==> {
                                                    &&& self.4.accepts(x4)
                                                    &&& forall|after4: M5, x5: M5::Output| #[trigger]
                                                            self.4.produces(x4, after4, x5) && after4.inv() ==> {
                                                                &&& self.5.accepts(x5)
                                                            }
                                                }
                                    }
                        }
            }
    }

    open spec fn produces(&self, input: Input, post: Self, output: Self::Output) -> bool {
        exists|x1: M1::Output, x2: M2::Output, x3: M3::Output, x4: M4::Output, x5: M5::Output|
            {
                &&& #[trigger] self.0.produces(input, post.0, x1)
                &&& #[trigger] self.1.produces(x1, post.1, x2)
                &&& #[trigger] self.2.produces(x2, post.2, x3)
                &&& #[trigger] self.3.produces(x3, post.3, x4)
                &&& #[trigger] self.4.produces(x4, post.4, x5)
                &&& self.5.produces(x5, post.5, output)
            }
    }

    open spec fn resets_to(&self, post: Self) -> bool {
        &&& self.0.resets_to(post.0)
        &&& self.1.resets_to(post.1)
        &&& self.2.resets_to(post.2)
        &&& self.3.resets_to(post.3)
        &&& self.4.resets_to(post.4)
        &&& self.5.resets_to(post.5)
    }

    open spec fn remaining(&self, before: usize) -> usize {
        self.5.remaining(self.4.remaining(self.3.remaining(self.2.remaining(self.1.remaining(self.0.remaining(before))))))
    }

    open spec fn epoch_size(&self, before: usize) -> usize {
        self.5.epoch_size(self.4.epoch_size(self.3.epoch_size(self.2.epoch_size(self.1.epoch_size(self.0.epoch_size(before))))))
    }

    fn process(&mut self, input: Input) -> (output: Self::Output) {
        let x = self.0.process(input);
        let x = self.1.process(x);
        let x = self.2.process(x);
        let x = self.3.process(x);
        let x = self.4.process(x);
        self.5.process(x)
    }

    fn reset(&mut self) {
        self.0.reset();
        self.1.reset();
        self.2.reset();
        self.3.reset();
        self.4.reset();
        self.5.reset();
    }

    fn data_remaining(&self, before: usize) -> (after: usize) {
        let before = self.0.data_remaining(before);
        let before = self.1.data_remaining(before);
        let before = self.2.data_remaining(before);
        let before = self.3.data_remaining(before);
        let before = self.4.data_remaining(before);
        self.5.data_remaining(before)
    }
}
} // verus!
