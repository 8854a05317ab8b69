use vstd::prelude::*;

mod node;
pub use node::ExtendNode;
pub use node::ExtendNodePair;
pub use node::ExtendNodeSplit;
pub use node::Node;
mod chain;
mod connectors;
pub use connectors::Duplicator;
pub use connectors::Pair;
pub mod loader;
pub use loader::CreateRange;
pub use loader::FileLoader;
pub use loader::KeyedLoader;
pub use loader::RandomLoader;
pub use loader::VecLoader;
pub mod premade;
pub use premade::group;
pub use premade::identity_remaining;
pub use premade::ArrayBatch;
pub use premade::BalancedSelector;
pub use premade::Batch;
pub use premade::Either;
pub use premade::ExtendNodeMap;
pub use premade::Filter;
pub use premade::FilterMap;
pub use premade::MapNode;
pub use premade::MapReduce;
pub use premade::Order;
pub use premade::PassThrough;
pub use premade::Shuffle;
pub use premade::Sort;
pub use premade::Stateful;
pub use premade::Stateless;

verus! {

/// The empty pipeline: a stage that hands its input back untouched. Chains start here.
pub struct Pipeline;

impl<I> Node<I> for Pipeline {
    type Output = I;

    open spec fn inv(&self) -> bool {
        true
    }

    open spec fn accepts(&self, input: I) -> bool {
        true
    }

    open spec fn produces(&self, input: I, post: Self, output: I) -> bool {
        output == input
    }

    open spec fn resets_to(&self, post: Self) -> bool {
        true
    }

    open spec fn remaining(&self, before: usize) -> usize {
        before
    }

    open spec fn epoch_size(&self, before: usize) -> usize {
        before
    }

    fn process(&mut self, input: I) -> (output: I) {
        input
    }

    fn reset(&mut self) {
    }

    fn data_remaining(&self, before: usize) -> (after: usize) {
        before
    }
}

} // verus!
