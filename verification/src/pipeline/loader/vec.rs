use crate::pipeline::Node;
use crate::random::shuffle;
use vstd::prelude::*;

verus! {

/// A source that hands out the items of a vector, a copy of each, from first to last.
pub struct VecLoader<T> {
    elements: Vec<T>,
    shuffle: bool,
    current_progress: usize,
}

impl<T> VecLoader<T> {
    /// The items, in the order in which this epoch hands them out.
    pub closed spec fn elements(&self) -> Seq<T> {
        self.elements@
    }

    /// Whether every new epoch reorders the items.
    pub closed spec fn shuffles(&self) -> bool {
        self.shuffle
    }

    /// How many items this epoch has handed out.
    pub closed spec fn progress(&self) -> usize {
        self.current_progress
    }

    /// A source over `elements` that keeps their order. It is well formed: its cursor
    /// stands at the start of a vector of a length that the machine can hold.
    pub fn new(elements: Vec<T>) -> (loader: Self)
        ensures
            loader.elements() == elements@,
            !loader.shuffles(),
            loader.progress() == 0,
            loader.elements().len() <= usize::MAX,
    {
        assert(elements.len() <= usize::MAX);
        Self { elements, shuffle: false, current_progress: 0 }
    }

    /// The same source, reordering its items at every new epoch if `shuffle` is set.
    pub fn shuffle(self, shuffle: bool) -> (loader: Self)
        ensures
            loader.elements() == self.elements(),
            loader.shuffles() == shuffle,
            loader.progress() == self.progress(),
    {
        let mut loader = self;
        loader.shuffle = shuffle;
        loader
    }
}

/// `copies` holds a copy of each item of `items`, in order.
pub open spec fn copies_of<T: Clone>(items: Seq<T>, copies: Seq<T>) -> bool {
    &&& copies.len() == items.len()
    &&& forall|i: int| 0 <= i < items.len() ==> cloned(#[trigger] items[i], copies[i])
}

impl<T: Clone> Node<Vec<()>> for VecLoader<T> {
    type Output = Vec<T>;

    open spec fn inv(&self) -> bool {
        self.progress() <= self.elements().len() <= usize::MAX
    }

    open spec fn accepts(&self, input: Vec<()>) -> bool {
        true
    }

    /// The next items are handed out, as many as there are placeholders in `input` or as
    /// are left, whichever is less.
    open spec fn produces(&self, input: Vec<()>, post: Self, output: Vec<T>) -> bool {
        let end = if input.len() <= self.elements().len() - self.progress() {
            self.progress() + input.len()
        } else {
            self.elements().len() as int
        };
        &&& post.elements() == self.elements()
        &&& post.shuffles() == self.shuffles()
        &&& post.progress() == end
        &&& copies_of(self.elements().subrange(self.progress() as int, end), output@)
    }

    /// The cursor goes back to the start, and the items are reordered if the source
    /// shuffles.
    open spec fn resets_to(&self, post: Self) -> bool {
        &&& post.shuffles() == self.shuffles()
        &&& post.progress() == 0
        &&& if self.shuffles() {
            post.elements().to_multiset() == self.elements().to_multiset()
        } else {
            post.elements() == self.elements()
        }
    }

    open spec fn remaining(&self, before: usize) -> usize {
        if self.progress() <= self.elements().len() {
            (self.elements().len() - self.progress()) as usize
        } else {
            0
        }
    }

    open spec fn epoch_size(&self, before: usize) -> usize {
        self.elements().len() as usize
    }

    fn process(&mut self, input: Vec<()>) -> (output: Vec<T>) {
        let left = self.elements.len() - self.current_progress;
        let end = if input.len() <= left {
            self.current_progress + input.len()
        } else {
            self.elements.len()
        };
        let mut output: Vec<T> = Vec::new();
        let mut i = self.current_progress;
        while i < end
            invariant
                self.current_progress <= i <= end <= self.elements.len(),
                copies_of(self.elements@.subrange(self.current_progress as int, i as int), output@),
            decreases end - i,
        {
            let copy = self.elements[i].clone();
            output.push(copy);
            i += 1;
        }
        self.current_progress = end;
        output
    }

    fn reset(&mut self) {
        if self.shuffle {
            shuffle(&mut self.elements);
            proof {
                self.elements@.to_multiset_ensures();
                old(self).elements@.to_multiset_ensures();
            }
        }
        self.current_progress = 0;
    }

    fn data_remaining(&self, before: usize) -> (after: usize) {
        if self.current_progress <= self.elements.len() {
            self.elements.len() - self.current_progress
        } else {
            0
        }
    }
}

} // verus!
