use super::mapreduce::joined;
use super::mapreduce::lemma_joined_push;
use crate::pipeline::Node;
use std::marker::PhantomData;
use vstd::prelude::*;

verus! {

/// `n` as a machine count: itself where it fits, else the largest count there is.
pub open spec fn clip(n: nat) -> usize {
    if n > usize::MAX {
        usize::MAX
    } else {
        n as usize
    }
}

/// The part of a request for `requested` items that goes to a source with `remaining`
/// items left, where all sources together have `total` left: the floor of the exact
/// proportion.
pub open spec fn share(requested: nat, remaining: nat, total: nat) -> nat {
    if total == 0 {
        0
    } else {
        requested * remaining / total
    }
}

/// How many of the `requested` items have been handed out before the turn of the source
/// with index `index`. Each source gets its share, or what is left if that is less.
pub open spec fn handed_out(requested: nat, counts: Seq<usize>, total: nat, index: nat) -> nat
    decreases index,
{
    if index == 0 {
        0
    } else {
        let before = handed_out(requested, counts, total, (index - 1) as nat);
        let due = share(requested, counts[index - 1] as nat, total);
        if due <= requested - before {
            before + due
        } else {
            requested
        }
    }
}

/// The sum of `counts`.
pub open spec fn sum(counts: Seq<usize>) -> nat
    decreases counts.len(),
{
    if counts.len() == 0 {
        0
    } else {
        sum(counts.drop_last()) + counts.last() as nat
    }
}

/// What each of `nodes` has left when asked with `before`.
pub open spec fn remaining_counts<I, N: Node<I>>(nodes: Seq<N>, before: usize) -> Seq<usize> {
    nodes.map_values(|n: N| n.remaining(before))
}

/// What each of `nodes` yields over a whole epoch when asked with `before`.
pub open spec fn epoch_counts<I, N: Node<I>>(nodes: Seq<N>, before: usize) -> Seq<usize> {
    nodes.map_values(|n: N| n.epoch_size(before))
}

/// No more is handed out than was asked for, and the count never goes down.
pub proof fn lemma_handed_out_bounds(requested: nat, counts: Seq<usize>, total: nat, index: nat)
    ensures
        handed_out(requested, counts, total, index) <= requested,
        handed_out(requested, counts, total, index) <= handed_out(
            requested,
            counts,
            total,
            index + 1,
        ),
    decreases index,
{
    if index > 0 {
        lemma_handed_out_bounds(requested, counts, total, (index - 1) as nat);
    }
}

/// A stage that draws on several sources of one type, in proportion to what each has left,
/// so that a small source runs out at the same relative rate as a large one. Sources of
/// different types go in as `Either`.
#[verifier::reject_recursive_types(I)]
#[verifier::reject_recursive_types(O)]
pub struct BalancedSelector<I, O, N: Node<Vec<I>, Output = Vec<O>>> {
    nodes: Vec<N>,
    _phantom: PhantomData<(I, O)>,
}

impl<I, O, N: Node<Vec<I>, Output = Vec<O>>> Default for BalancedSelector<I, O, N> {
    /// A selector without sources.
    fn default() -> (selector: Self)
        ensures
            selector.sources().len() == 0,
    {
        BalancedSelector { nodes: Vec::new(), _phantom: PhantomData }
    }
}

impl<I, O, N: Node<Vec<I>, Output = Vec<O>>> BalancedSelector<I, O, N> {
    /// The sources, in the order in which they were added.
    pub closed spec fn sources(&self) -> Seq<N> {
        self.nodes@
    }

    /// The selector with `node` as one more source, after the others.
    pub fn add_node(self, node: N) -> (selector: Self)
        ensures
            selector.sources() == self.sources().push(node),
    {
        let mut selector = self;
        selector.nodes.push(node);
        selector
    }

    /// Where the part of source `index` begins in a request of `requested` items.
    pub open spec fn part_start(&self, requested: nat, index: nat) -> nat {
        let counts = remaining_counts(self.sources(), usize::MAX);
        handed_out(requested, counts, sum(counts), index)
    }

    /// What one call does with source `index`: nothing, where no input is left for it;
    /// else the source processes its part of the input and `piece` is what it hands back.
    pub open spec fn serves(&self, input: Seq<I>, index: int, post: N, piece: Vec<O>) -> bool {
        let start = self.part_start(input.len(), index as nat);
        let end = self.part_start(input.len(), (index + 1) as nat);
        if start == input.len() {
            post == self.sources()[index] && piece@.len() == 0
        } else {
            exists|part: Vec<I>|
                part@ == input.subrange(start as int, end as int)
                    && #[trigger] self.sources()[index].produces(part, post, piece)
        }
    }

    /// Source `index` takes the part of `input` that falls to it, if any does.
    pub open spec fn can_serve(&self, input: Seq<I>, index: int) -> bool {
        let start = self.part_start(input.len(), index as nat);
        let end = self.part_start(input.len(), (index + 1) as nat);
        start < input.len() ==> forall|part: Vec<I>|
            part@ == input.subrange(start as int, end as int)
                ==> #[trigger] self.sources()[index].accepts(part)
    }
}

/// A sum is at least each of its terms and at most as many times the largest count as it
/// has terms.
pub proof fn lemma_sum_bounds(counts: Seq<usize>)
    ensures
        sum(counts) <= counts.len() * usize::MAX,
        forall|i: int| 0 <= i < counts.len() ==> #[trigger] counts[i] <= sum(counts),
    decreases counts.len(),
{
    if counts.len() > 0 {
        let front = counts.drop_last();
        lemma_sum_bounds(front);
        assert(front.len() * usize::MAX + usize::MAX == counts.len() * usize::MAX)
            by (nonlinear_arith)
            requires
                front.len() + 1 == counts.len(),
        ;
        assert forall|i: int| 0 <= i < counts.len() implies #[trigger] counts[i] <= sum(counts) by {
            if i < front.len() {
                assert(front[i] == counts[i]);
            }
        }
    }
}

/// The sum of `counts`, which always fits a double word.
fn wide_sum(counts: &Vec<usize>) -> (total: u128)
    ensures
        total == sum(counts@),
{
    let mut total: u128 = 0;
    let mut i: usize = 0;
    assert(counts@.take(0) =~= Seq::<usize>::empty());
    while i < counts.len()
        invariant
            i <= counts.len(),
            total == sum(counts@.take(i as int)),
        decreases counts.len() - i,
    {
        proof {
            lemma_sum_bounds(counts@.take(i as int));
            assert(i * usize::MAX + usize::MAX <= u128::MAX) by (nonlinear_arith)
                requires
                    i < usize::MAX,
                    usize::MAX <= u64::MAX,
            ;
            assert(counts@.take(i + 1).drop_last() =~= counts@.take(i as int));
        }
        total = total + counts[i] as u128;
        i += 1;
    }
    assert(counts@.take(counts.len() as int) =~= counts@);
    total
}

/// The sum of `counts` as a machine count.
fn clipped_sum(counts: &Vec<usize>) -> (total: usize)
    ensures
        total == clip(sum(counts@)),
{
    let wide = wide_sum(counts);
    if wide > usize::MAX as u128 {
        usize::MAX
    } else {
        wide as usize
    }
}

/// The part of a request that goes to one source.
fn share_of(requested: usize, remaining: usize, total: u128) -> (part: usize)
    requires
        remaining <= total,
    ensures
        part == share(requested as nat, remaining as nat, total as nat),
        part <= requested,
{
    if total == 0 {
        0
    } else {
        assert(requested * remaining <= u128::MAX) by (nonlinear_arith)
            requires
                requested <= u64::MAX,
                remaining <= u64::MAX,
        ;
        let product = requested as u128 * remaining as u128;
        assert(product / total <= requested) by (nonlinear_arith)
            requires
                product == requested * remaining,
                0 <= remaining <= total,
                total > 0,
                requested >= 0,
        ;
        (product / total) as usize
    }
}

impl<I, O, N: Node<Vec<I>, Output = Vec<O>>> BalancedSelector<I, O, N> {
    /// What each source has left.
    fn counts(&self, before: usize) -> (counts: Vec<usize>)
        requires
            forall|i: int| 0 <= i < self.sources().len() ==> (#[trigger] self.sources()[i]).inv(),
        ensures
            counts@ == remaining_counts(self.sources(), before),
    {
        let mut counts: Vec<usize> = Vec::new();
        let mut i: usize = 0;
        assert(self.sources() == self.nodes@);
        while i < self.nodes.len()
            invariant
                i <= self.nodes.len(),
                forall|j: int| 0 <= j < self.nodes@.len() ==> (#[trigger] self.nodes@[j]).inv(),
                counts@ == remaining_counts(self.nodes@.take(i as int), before),
            decreases self.nodes.len() - i,
        {
            let count = self.nodes[i].data_remaining(before);
            counts.push(count);
            i += 1;
            assert(counts@ =~= remaining_counts(self.nodes@.take(i as int), before));
        }
        assert(self.nodes@.take(self.nodes.len() as int) =~= self.nodes@);
        counts
    }
}

impl<I, O, N: Node<Vec<I>, Output = Vec<O>>> Node<Vec<I>> for BalancedSelector<I, O, N> {
    type Output = Vec<O>;

    open spec fn inv(&self) -> bool {
        forall|i: int| 0 <= i < self.sources().len() ==> (#[trigger] self.sources()[i]).inv()
    }

    open spec fn accepts(&self, input: Vec<I>) -> bool {
        forall|i: int| 0 <= i < self.sources().len() ==> #[trigger] self.can_serve(input@, i)
    }

    /// Every source is served in turn, and the output is what the sources handed back, in
    /// the order of the sources.
    open spec fn produces(&self, input: Vec<I>, post: Self, output: Vec<O>) -> bool {
        &&& post.sources().len() == self.sources().len()
        &&& exists|pieces: Seq<Vec<O>>|
            {
                &&& pieces.len() == self.sources().len()
                &&& forall|i: int|
                    0 <= i < self.sources().len() ==> #[trigger] self.serves(
                        input@,
                        i,
                        post.sources()[i],
                        pieces[i],
                    )
                &&& output@ == #[trigger] joined(pieces)
            }
    }

    open spec fn resets_to(&self, post: Self) -> bool {
        &&& post.sources().len() == self.sources().len()
        &&& forall|i: int|
            0 <= i < self.sources().len() ==> (#[trigger] self.sources()[i]).resets_to(
                post.sources()[i],
            )
    }

    /// The sum of what the sources have left, as far as a machine count can hold it.
    open spec fn remaining(&self, before: usize) -> usize {
        clip(sum(remaining_counts(self.sources(), before)))
    }

    open spec fn epoch_size(&self, before: usize) -> usize {
        clip(sum(epoch_counts(self.sources(), before)))
    }

    fn process(&mut self, input: Vec<I>) -> (output: Vec<O>) {
        let ghost whole = input@;
        let ghost start = *self;
        let requested = input.len();
        let counts = self.counts(usize::MAX);
        let total = wide_sum(&counts);
        let ghost mut pieces: Seq<Vec<O>> = Seq::empty();
        let mut output: Vec<O> = Vec::new();
        let mut rest = input;
        let mut index: usize = 0;
        let ghost mut used: nat = 0;
        proof {
            lemma_sum_bounds(counts@);
            assert(rest@ =~= whole.skip(0));
            assert(joined(pieces) =~= Seq::<O>::empty());
        }
        while index < self.nodes.len()
            invariant
                index <= self.nodes.len(),
                self.nodes.len() == start.nodes.len(),
                counts@ == remaining_counts(start.nodes@, usize::MAX),
                total == sum(counts@),
                forall|i: int| 0 <= i < counts@.len() ==> #[trigger] counts@[i] <= sum(counts@),
                requested == whole.len(),
                used == start.part_start(requested as nat, index as nat),
                used <= requested,
                rest@ == whole.skip(used as int),
                forall|i: int| 0 <= i < self.nodes@.len() ==> (#[trigger] self.nodes@[i]).inv(),
                forall|i: int| index <= i < self.nodes@.len() ==> self.nodes@[i] == start.nodes@[i],
                forall|i: int| 0 <= i < start.nodes@.len() ==> #[trigger] start.can_serve(whole, i),
                pieces.len() == index,
                forall|i: int|
                    0 <= i < index ==> #[trigger] start.serves(
                        whole,
                        i,
                        self.nodes@[i],
                        pieces[i],
                    ),
                forall|i: int, before: usize|
                    0 <= i < self.nodes@.len() ==> (#[trigger] self.nodes@[i].epoch_size(before))
                        == start.nodes@[i].epoch_size(before),
                output@ == joined(pieces),
            decreases self.nodes.len() - index,
        {
            let ghost next = start.part_start(requested as nat, (index + 1) as nat);
            let ghost done = pieces;
            let ghost nodes_before = self.nodes@;
            proof {
                lemma_handed_out_bounds(requested as nat, counts@, total as nat, index as nat);
                assert(start.can_serve(whole, index as int));
            }
            if rest.len() == 0 {
                let empty: Vec<O> = Vec::new();
                proof {
                    lemma_joined_push(pieces, empty);
                    pieces = pieces.push(empty);
                    assert(next == used);
                }
            } else {
                let due = share_of(requested, counts[index], total);
                let take = if due <= rest.len() {
                    due
                } else {
                    rest.len()
                };
                let tail = rest.split_off(take);
                assert(used + take == next);
                assert(rest@ =~= whole.subrange(used as int, next as int));
                assert(tail@ =~= whole.skip(next as int));
                let mut produced = self.nodes[index].process(rest);
                proof {
                    lemma_joined_push(pieces, produced);
                    pieces = pieces.push(produced);
                }
                output.append(&mut produced);
                rest = tail;
            }
            proof {
                used = next;
                assert forall|i: int| 0 <= i < index + 1 implies #[trigger] start.serves(
                    whole,
                    i,
                    self.nodes@[i],
                    pieces[i],
                ) by {
                    if i < index {
                        assert(self.nodes@[i] == nodes_before[i]);
                        assert(pieces[i] == done[i]);
                        assert(start.serves(whole, i, nodes_before[i], done[i]));
                    }
                }
            }
            index += 1;
        }
        proof {
            assert forall|before: usize| #[trigger]
                self.epoch_size(before) == start.epoch_size(before) by {
                assert(epoch_counts(self.nodes@, before) =~= epoch_counts(start.nodes@, before));
            }
        }
        output
    }

    fn reset(&mut self) {
        let ghost start = *self;
        let mut index: usize = 0;
        assert(self.sources() == self.nodes@);
        while index < self.nodes.len()
            invariant
                index <= self.nodes.len(),
                self.nodes.len() == start.nodes.len(),
                forall|i: int| 0 <= i < self.nodes@.len() ==> (#[trigger] self.nodes@[i]).inv(),
                forall|i: int| index <= i < self.nodes@.len() ==> self.nodes@[i] == start.nodes@[i],
                forall|i: int|
                    0 <= i < index ==> (#[trigger] start.nodes@[i]).resets_to(self.nodes@[i]),
                forall|i: int, before: usize|
                    0 <= i < self.nodes@.len() ==> (#[trigger] self.nodes@[i].epoch_size(before))
                        == start.nodes@[i].epoch_size(before),
                forall|i: int, before: usize|
                    0 <= i < index ==> (#[trigger] self.nodes@[i].remaining(before))
                        == self.nodes@[i].epoch_size(before),
            decreases self.nodes.len() - index,
        {
            self.nodes[index].reset();
            index += 1;
        }
        proof {
            assert forall|before: usize| #[trigger]
                self.epoch_size(before) == start.epoch_size(before) by {
                assert(epoch_counts(self.nodes@, before) =~= epoch_counts(start.nodes@, before));
            }
            assert forall|before: usize| #[trigger]
                self.remaining(before) == self.epoch_size(before) by {
                assert(remaining_counts(self.nodes@, before) =~= epoch_counts(self.nodes@, before));
            }
        }
    }

    fn data_remaining(&self, before: usize) -> (after: usize) {
        let counts = self.counts(before);
        clipped_sum(&counts)
    }
}

} // verus!
