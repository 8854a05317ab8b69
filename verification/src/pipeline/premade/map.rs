use crate::pipeline::Node;
use std::marker::PhantomData;
use vstd::prelude::*;

verus! {

/// `node` takes the items of `items` one after the other, whatever state each call leaves.
pub open spec fn accepts_each<I, N: Node<I>>(node: N, items: Seq<I>) -> bool
    decreases items.len(),
{
    items.len() == 0 || {
        &&& node.accepts(items[0])
        &&& forall|post: N, out: N::Output| #[trigger]
            node.produces(items[0], post, out) && post.inv() ==> accepts_each(
                post,
                items.drop_first(),
            )
    }
}

/// Running `node` over `items` from first to last may leave it in `post` with `outs` as
/// the results, one for each item and in the items' order.
pub open spec fn maps_to<I, N: Node<I>>(
    node: N,
    items: Seq<I>,
    post: N,
    outs: Seq<N::Output>,
) -> bool
    decreases items.len(),
{
    if items.len() == 0 {
        post == node && outs.len() == 0
    } else {
        &&& outs.len() == items.len()
        &&& exists|mid: N|
            #![trigger mid.produces(items.last(), post, outs.last())]
            maps_to(node, items.drop_last(), mid, outs.drop_last()) && mid.produces(
                items.last(),
                post,
                outs.last(),
            )
    }
}

/// Lifting keeps the arity: running a stage over `m` items gives `m` results.
pub proof fn lemma_map_keeps_arity<I, N: Node<I>>(
    node: N,
    items: Seq<I>,
    post: N,
    outs: Seq<N::Output>,
)
    requires
        maps_to(node, items, post, outs),
    ensures
        outs.len() == items.len(),
{
}

/// A stage that applies another stage to every item of a sequence, in order.
#[verifier::reject_recursive_types(I)]
pub struct MapNode<I, N: Node<I>> {
    _phantom: PhantomData<I>,
    node: N,
}

impl<I, O, E: Node<I, Output = O>> MapNode<I, E> {
    /// The stage that is applied to each item.
    pub closed spec fn inner(&self) -> E {
        self.node
    }

    pub fn new(node: E) -> (map: Self)
        ensures
            map.inner() == node,
    {
        MapNode { _phantom: PhantomData, node }
    }
}

impl<I, O, N: Node<I, Output = O>> Node<Vec<I>> for MapNode<I, N> {
    type Output = Vec<O>;

    open spec fn inv(&self) -> bool {
        self.inner().inv()
    }

    open spec fn accepts(&self, input: Vec<I>) -> bool {
        accepts_each(self.inner(), input@)
    }

    open spec fn produces(&self, input: Vec<I>, post: Self, output: Vec<O>) -> bool {
        &&& output.len() == input.len()
        &&& maps_to(self.inner(), input@, post.inner(), output@)
    }

    open spec fn resets_to(&self, post: Self) -> bool {
        self.inner().resets_to(post.inner())
    }

    open spec fn remaining(&self, before: usize) -> usize {
        before
    }

    open spec fn epoch_size(&self, before: usize) -> usize {
        before
    }

    fn process(&mut self, input: Vec<I>) -> (output: Vec<O>) {
        let ghost items = input@;
        let ghost start = self.node;
        let mut output: Vec<O> = Vec::new();
        assert(items.skip(0) =~= items);
        for item in it: input.into_iter()
            invariant
                it.seq() == items,
                self.node.inv(),
                output.len() == it.index(),
                accepts_each(self.node, items.skip(it.index() as int)),
                maps_to(start, items.take(it.index() as int), self.node, output@),
        {
            let ghost i = it.index() as int;
            let ghost mid = self.node;
            let ghost done = output@;
            assert(items.skip(i)[0] == item);
            let out = self.node.process(item);
            output.push(out);
            proof {
                assert(items.skip(i).drop_first() =~= items.skip(i + 1));
                assert(items.take(i + 1).drop_last() =~= items.take(i));
                assert(output@.drop_last() =~= done);
                assert(items.take(i + 1).last() == item);
                assert(maps_to(start, items.take(i + 1).drop_last(), mid, output@.drop_last()));
                assert(mid.produces(items.take(i + 1).last(), self.node, output@.last()));
            }
        }
        assert(items.take(items.len() as int) =~= items);
        output
    }

    fn reset(&mut self) {
        self.node.reset();
    }

    fn data_remaining(&self, before: usize) -> (after: usize) {
        before
    }
}

/// The values of the `Some` entries of `results`, in order.
pub open spec fn somes<O>(results: Seq<Option<O>>) -> Seq<O>
    decreases results.len(),
{
    if results.len() == 0 {
        Seq::empty()
    } else {
        match results.last() {
            Some(value) => somes(results.drop_last()).push(value),
            None => somes(results.drop_last()),
        }
    }
}

/// Every value of `somes(results)` is the value of an entry of `results`.
pub proof fn lemma_somes_come_from<O>(results: Seq<Option<O>>)
    ensures
        forall|i: int|
            0 <= i < somes(results).len() ==> exists|k: int|
                0 <= k < results.len() && #[trigger] results[k] == Some(
                    #[trigger] somes(results)[i],
                ),
    decreases results.len(),
{
    if results.len() > 0 {
        let front = results.drop_last();
        lemma_somes_come_from(front);
        assert forall|i: int| 0 <= i < somes(results).len() implies exists|k: int|
            0 <= k < results.len() && #[trigger] results[k] == Some(
                #[trigger] somes(results)[i],
            ) by {
            if i < somes(front).len() {
                let k = choose|k: int|
                    0 <= k < front.len() && #[trigger] front[k] == Some(somes(front)[i]);
                assert(results[k] == front[k]);
                assert(somes(results)[i] == somes(front)[i]);
            } else {
                assert(results[results.len() - 1] == Some(somes(results)[i]));
            }
        }
    }
}

/// The items of `items` whose entry in `keeps` is true, in order.
pub open spec fn kept<I>(items: Seq<I>, keeps: Seq<bool>) -> Seq<I>
    decreases items.len(),
{
    if items.len() == 0 || keeps.len() != items.len() {
        Seq::empty()
    } else if keeps.last() {
        kept(items.drop_last(), keeps.drop_last()).push(items.last())
    } else {
        kept(items.drop_last(), keeps.drop_last())
    }
}

/// A stage that applies another stage to every item of a sequence and keeps the results
/// that are `Some`, in order.
#[verifier::reject_recursive_types(I)]
pub struct FilterMap<I, N: Node<I>> {
    _phantom: PhantomData<I>,
    node: N,
}

impl<I, O, E: Node<I, Output = Option<O>>> FilterMap<I, E> {
    /// The stage that is applied to each item.
    pub closed spec fn inner(&self) -> E {
        self.node
    }

    pub fn new(node: E) -> (filter_map: Self)
        ensures
            filter_map.inner() == node,
    {
        FilterMap { _phantom: PhantomData, node }
    }
}

impl<I, O, N: Node<I, Output = Option<O>>> Node<Vec<I>> for FilterMap<I, N> {
    type Output = Vec<O>;

    open spec fn inv(&self) -> bool {
        self.inner().inv()
    }

    open spec fn accepts(&self, input: Vec<I>) -> bool {
        accepts_each(self.inner(), input@)
    }

    open spec fn produces(&self, input: Vec<I>, post: Self, output: Vec<O>) -> bool {
        exists|results: Seq<Option<O>>|
            #![trigger maps_to(self.inner(), input@, post.inner(), results)]
            maps_to(self.inner(), input@, post.inner(), results) && output@ == somes(results)
    }

    open spec fn resets_to(&self, post: Self) -> bool {
        self.inner().resets_to(post.inner())
    }

    open spec fn remaining(&self, before: usize) -> usize {
        before
    }

    open spec fn epoch_size(&self, before: usize) -> usize {
        before
    }

    fn process(&mut self, input: Vec<I>) -> (output: Vec<O>) {
        let ghost items = input@;
        let ghost start = self.node;
        let ghost mut results: Seq<Option<O>> = Seq::empty();
        let mut output: Vec<O> = Vec::new();
        assert(items.skip(0) =~= items);
        for item in it: input.into_iter()
            invariant
                it.seq() == items,
                self.node.inv(),
                results.len() == it.index(),
                accepts_each(self.node, items.skip(it.index() as int)),
                maps_to(start, items.take(it.index() as int), self.node, results),
                output@ == somes(results),
        {
            let ghost i = it.index() as int;
            let ghost mid = self.node;
            let ghost done = results;
            assert(items.skip(i)[0] == item);
            let out = self.node.process(item);
            proof {
                results = results.push(out);
                assert(items.skip(i).drop_first() =~= items.skip(i + 1));
                assert(items.take(i + 1).drop_last() =~= items.take(i));
                assert(results.drop_last() =~= done);
                assert(items.take(i + 1).last() == item);
                assert(maps_to(start, items.take(i + 1).drop_last(), mid, results.drop_last()));
                assert(mid.produces(items.take(i + 1).last(), self.node, results.last()));
            }
            match out {
                Some(value) => {
                    output.push(value);
                },
                None => {},
            }
        }
        assert(items.take(items.len() as int) =~= items);
        output
    }

    fn reset(&mut self) {
        self.node.reset();
    }

    fn data_remaining(&self, before: usize) -> (after: usize) {
        before
    }
}

/// A stage that keeps the items of a sequence for which a function answers true, in order.
#[verifier::reject_recursive_types(I)]
pub struct Filter<I, F: Fn(&I) -> bool> {
    _phantom: PhantomData<I>,
    function: F,
}

impl<I, F: Fn(&I) -> bool> Filter<I, F> {
    /// The function that decides which items stay.
    pub closed spec fn test(&self) -> F {
        self.function
    }

    pub fn new(function: F) -> (filter: Self)
        ensures
            filter.test() == function,
    {
        Filter { _phantom: PhantomData, function }
    }
}

impl<I, F: Fn(&I) -> bool> Node<Vec<I>> for Filter<I, F> {
    type Output = Vec<I>;

    open spec fn inv(&self) -> bool {
        true
    }

    open spec fn accepts(&self, input: Vec<I>) -> bool {
        forall|i: int| 0 <= i < input.len() ==> self.test().requires((&#[trigger] input[i],))
    }

    open spec fn produces(&self, input: Vec<I>, post: Self, output: Vec<I>) -> bool {
        &&& post.test() == self.test()
        &&& exists|keeps: Seq<bool>|
            {
                &&& keeps.len() == input.len()
                &&& forall|i: int|
                    0 <= i < input.len() ==> self.test().ensures((&input[i],), #[trigger] keeps[i])
                &&& output@ == #[trigger] kept(input@, keeps)
            }
    }

    open spec fn resets_to(&self, post: Self) -> bool {
        post.test() == self.test()
    }

    open spec fn remaining(&self, before: usize) -> usize {
        before
    }

    open spec fn epoch_size(&self, before: usize) -> usize {
        before
    }

    fn process(&mut self, input: Vec<I>) -> (output: Vec<I>) {
        let ghost items = input@;
        let ghost mut keeps: Seq<bool> = Seq::empty();
        let mut output: Vec<I> = Vec::new();
        for item in it: input.into_iter()
            invariant
                it.seq() == items,
                *self == *old(self),
                forall|i: int| 0 <= i < items.len() ==> self.function.requires((&#[trigger] items[i],)),
                keeps.len() == it.index(),
                forall|i: int|
                    0 <= i < keeps.len() ==> self.function.ensures((&items[i],), #[trigger] keeps[i]),
                output@ == kept(items.take(it.index() as int), keeps),
        {
            let ghost i = it.index() as int;
            let ghost done = keeps;
            assert(items[i] == item);
            let keep = (self.function)(&item);
            proof {
                keeps = keeps.push(keep);
                assert(items.take(i + 1).drop_last() =~= items.take(i));
                assert(keeps.drop_last() =~= done);
                assert(items.take(i + 1).last() == item);
            }
            if keep {
                output.push(item);
            }
        }
        assert(items.take(items.len() as int) =~= items);
        output
    }

    fn reset(&mut self) {
    }

    fn data_remaining(&self, before: usize) -> (after: usize) {
        before
    }
}

/// Element-wise continuations for a stage that produces a sequence.
pub trait ExtendNodeMap<Input, Output, E: Node<Input, Output = Vec<Output>>> {
    /// Run `node` on every item.
    fn map<O, N: Node<Output, Output = O>>(self, node: N) -> (E, MapNode<Output, N>);

    /// Run `node` on every item and keep the results that are `Some`.
    fn filter_map<O, N: Node<Output, Output = Option<O>>>(self, node: N) -> (
        E,
        FilterMap<Output, N>,
    );

    /// Keep the items for which `function` answers true.
    fn filter<F: Fn(&Output) -> bool>(self, function: F) -> (E, Filter<Output, F>);
}

impl<Input, Output, E: Node<Input, Output = Vec<Output>>> ExtendNodeMap<Input, Output, E> for E {
    fn map<O, N: Node<Output, Output = O>>(self, node: N) -> (mapped: (E, MapNode<Output, N>))
        ensures
            mapped.0 == self,
            mapped.1.inner() == node,
    {
        (self, MapNode::new(node))
    }

    fn filter_map<O, N: Node<Output, Output = Option<O>>>(self, node: N) -> (mapped: (
        E,
        FilterMap<Output, N>,
    ))
        ensures
            mapped.0 == self,
            mapped.1.inner() == node,
    {
        (self, FilterMap::new(node))
    }

    fn filter<F: Fn(&Output) -> bool>(self, function: F) -> (filtered: (E, Filter<Output, F>))
        ensures
            filtered.0 == self,
            filtered.1.test() == function,
    {
        (self, Filter::new(function))
    }
}

} // verus!
