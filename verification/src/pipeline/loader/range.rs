use crate::pipeline::Node;
use crate::random::shuffle;
use vstd::prelude::*;

verus! {

/// The numbers from 0 up to, not including, `max`, in ascending order.
pub open spec fn range_to(max: nat) -> Seq<usize> {
    Seq::new(max, |i: int| i as usize)
}

/// A source that hands out the numbers below a bound, each once in an epoch, in an order
/// that every new epoch draws afresh.
pub struct CreateRange {
    nums_to_make: Vec<usize>,
    current_progress: usize,
}

impl CreateRange {
    /// The numbers, in the order in which this epoch hands them out.
    pub closed spec fn numbers(&self) -> Seq<usize> {
        self.nums_to_make@
    }

    /// How many numbers this epoch has handed out.
    pub closed spec fn progress(&self) -> usize {
        self.current_progress
    }

    /// A source of the numbers below `max`, in ascending order until the first reset.
    pub fn new(max: usize) -> (source: Self)
        ensures
            source.numbers() == range_to(max as nat),
            source.progress() == 0,
            source.inv(),
    {
        let mut nums_to_make: Vec<usize> = Vec::new();
        let mut i: usize = 0;
        while i < max
            invariant
                i <= max,
                nums_to_make@ == range_to(i as nat),
            decreases max - i,
        {
            nums_to_make.push(i);
            i += 1;
            assert(nums_to_make@ =~= range_to(i as nat));
        }
        CreateRange { nums_to_make, current_progress: 0 }
    }
}

impl Node<Vec<()>> for CreateRange {
    type Output = Vec<usize>;

    open spec fn inv(&self) -> bool {
        self.progress() <= self.numbers().len() <= usize::MAX
    }

    open spec fn accepts(&self, input: Vec<()>) -> bool {
        true
    }

    /// The next numbers are handed out, as many as there are placeholders in `input` or as
    /// are left, whichever is less.
    open spec fn produces(&self, input: Vec<()>, post: Self, output: Vec<usize>) -> bool {
        let end = if input.len() <= self.numbers().len() - self.progress() {
            self.progress() + input.len()
        } else {
            self.numbers().len() as int
        };
        &&& post.numbers() == self.numbers()
        &&& post.progress() == end
        &&& output@ == self.numbers().subrange(self.progress() as int, end)
    }

    /// The cursor goes back to the start and the numbers are reordered.
    open spec fn resets_to(&self, post: Self) -> bool {
        &&& post.progress() == 0
        &&& post.numbers().to_multiset() == self.numbers().to_multiset()
    }

    open spec fn remaining(&self, before: usize) -> usize {
        if self.progress() <= self.numbers().len() {
            (self.numbers().len() - self.progress()) as usize
        } else {
            0
        }
    }

    open spec fn epoch_size(&self, before: usize) -> usize {
        self.numbers().len() as usize
    }

    fn process(&mut self, input: Vec<()>) -> (output: Vec<usize>) {
        let left = self.nums_to_make.len() - self.current_progress;
        let end = if input.len() <= left {
            self.current_progress + input.len()
        } else {
            self.nums_to_make.len()
        };
        let mut output: Vec<usize> = Vec::new();
        let mut i = self.current_progress;
        while i < end
            invariant
                self.current_progress <= i <= end <= self.nums_to_make.len(),
                output@ == self.nums_to_make@.subrange(self.current_progress as int, i as int),
            decreases end - i,
        {
            output.push(self.nums_to_make[i]);
            i += 1;
            assert(output@ =~= self.nums_to_make@.subrange(
                self.current_progress as int,
                i as int,
            ));
        }
        self.current_progress = end;
        output
    }

    fn reset(&mut self) {
        shuffle(&mut self.nums_to_make);
        proof {
            self.nums_to_make@.to_multiset_ensures();
            old(self).nums_to_make@.to_multiset_ensures();
        }
        self.current_progress = 0;
    }

    fn data_remaining(&self, before: usize) -> (after: usize) {
        if self.current_progress <= self.nums_to_make.len() {
            self.nums_to_make.len() - self.current_progress
        } else {
            0
        }
    }
}

} // verus!
