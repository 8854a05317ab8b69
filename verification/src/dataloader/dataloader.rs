use crate::pipeline::premade::clip;
use crate::pipeline::Node;
use crate::random::shuffle;
use std::collections::VecDeque;
use vstd::prelude::*;

verus! {

/// One load of `count` items may take the stage from `pre` to `post` and bring `items`:
/// what the stage produced for `count` placeholders, in some order.
pub open spec fn loads<T, N: Node<Vec<()>, Output = Vec<T>>>(
    pre: N,
    count: usize,
    post: N,
    items: Seq<T>,
) -> bool {
    exists|units: Vec<()>, raw: Vec<T>|
        {
            &&& units.len() == count
            &&& #[trigger] pre.produces(units, post, raw)
            &&& items.to_multiset() == raw@.to_multiset()
        }
}

/// The number of items that one load asks `stage` for, where the loader loads in blocks of
/// `block`: a block, or what the stage has left if that is less.
pub open spec fn load_size<T, N: Node<Vec<()>, Output = Vec<T>>>(stage: N, block: usize) -> usize {
    if block <= stage.remaining(0) {
        block
    } else {
        stage.remaining(0)
    }
}

/// Every state of `trail` but the last had items left, and a load from it, in blocks of
/// `block`, led to the next state and brought nothing.
pub open spec fn loads_in_vain<T, N: Node<Vec<()>, Output = Vec<T>>>(
    trail: Seq<N>,
    block: usize,
) -> bool {
    forall|i: int|
        0 <= i < trail.len() - 1 ==> (#[trigger] trail[i]).remaining(0) > 0 && loads(
            trail[i],
            load_size::<T, N>(trail[i], block),
            trail[i + 1],
            Seq::<T>::empty(),
        )
}

/// A load from `stage`, in blocks of `block`, loses and invents nothing: what it brings is
/// what the stage's count goes down by.
pub open spec fn conserves<T, N: Node<Vec<()>, Output = Vec<T>>>(stage: N, block: usize) -> bool {
    forall|units: Vec<()>, post: N, raw: Vec<T>|
        units.len() == load_size::<T, N>(stage, block) && post.inv() && #[trigger] stage.produces(
            units,
            post,
            raw,
        ) ==> raw.len() + post.remaining(0) == stage.remaining(0)
}

/// The states in `family` can be driven by loads in blocks of `block` for ever: each is
/// well formed and takes the request of a load, each load and each reset leads to a state
/// of the family again, and a load that brings nothing from a state with items left brings
/// the count down.
pub open spec fn sustains<T, N: Node<Vec<()>, Output = Vec<T>>>(
    family: spec_fn(N) -> bool,
    block: usize,
) -> bool {
    &&& forall|s: N| #[trigger] family(s) ==> s.inv()
    &&& forall|s: N, units: Vec<()>|
        family(s) && units.len() == load_size::<T, N>(s, block) ==> #[trigger] s.accepts(units)
    &&& forall|s: N, units: Vec<()>, post: N, raw: Vec<T>|
        family(s) && units.len() == load_size::<T, N>(s, block) && post.inv() && #[trigger] s.produces(
            units,
            post,
            raw,
        ) ==> family(post) && (raw.len() == 0 && s.remaining(0) > 0 ==> post.remaining(0)
            < s.remaining(0))
    &&& forall|s: N, post: N| family(s) && post.inv() && #[trigger] s.resets_to(post) ==> family(post)
}

/// Runs one load: asks `stage` for `count` items and shuffles what comes back.
pub fn load_block<T, N: Node<Vec<()>, Output = Vec<T>>>(stage: &mut N, count: usize) -> (items: Vec<
    T,
>)
    requires
        old(stage).inv(),
        forall|units: Vec<()>| units.len() == count ==> #[trigger] old(stage).accepts(units),
    ensures
        final(stage).inv(),
        loads(*old(stage), count, *final(stage), items@),
        forall|before: usize| #[trigger]
            final(stage).epoch_size(before) == old(stage).epoch_size(before),
{
    let mut units: Vec<()> = Vec::new();
    let mut i: usize = 0;
    while i < count
        invariant
            i <= count,
            units.len() == i,
        decreases count - i,
    {
        units.push(());
        i += 1;
    }
    let mut items = stage.process(units);
    let ghost raw = items;
    shuffle(&mut items);
    assert(old(stage).produces(units, *stage, raw));
    items
}

/// What a pull does next. The steps of a pull come in one order: take back a load that is
/// due, end the epoch, start a load, hand out an item.
pub enum Step<T, N> {
    /// Wait for the load in flight and bring back, with `finish_load`, the pipeline and
    /// what the load brought.
    Reclaim,
    /// Run a load of so many items on this pipeline, which the loader has handed out.
    Load(N, usize),
    /// Hand this item to the caller.
    Deliver(T),
    /// Tell the caller that the epoch is over. The pipeline has been reset.
    EndOfEpoch,
}

/// The prefetching loader: it owns a pipeline and a queue of items that the pipeline has
/// produced, and hands the items out one by one, epoch after epoch.
///
/// The pipeline has one owner at any time. While a load is in flight the loader does not
/// hold it: `start_load` hands it out and `finish_load` takes it back.
#[verifier::reject_recursive_types(T)]
pub struct Dataloader<T, N: Node<Vec<()>, Output = Vec<T>>> {
    pipeline: Option<N>,
    buffer: VecDeque<T>,
    load_block_size: usize,
    buffer_size: usize,
    epoch_total: Ghost<usize>,
    delivered: Ghost<nat>,
}

impl<T, N: Node<Vec<()>, Output = Vec<T>>> Dataloader<T, N> {
    /// No load is in flight: the loader holds the pipeline.
    pub closed spec fn is_idle(&self) -> bool {
        self.pipeline is Some
    }

    /// The pipeline, while the loader holds it.
    pub closed spec fn stage(&self) -> N
        recommends
            self.is_idle(),
    {
        self.pipeline->0
    }

    /// The ready-queue: items produced and not yet handed out, oldest first.
    pub closed spec fn queue(&self) -> Seq<T> {
        self.buffer@
    }

    /// The number of items asked for in one load.
    pub closed spec fn block(&self) -> usize {
        self.load_block_size
    }

    /// The depth of the ready-queue below which the loader loads more.
    pub closed spec fn depth(&self) -> usize {
        self.buffer_size
    }

    /// The size of an epoch of the pipeline.
    pub closed spec fn epoch_total(&self) -> usize {
        self.epoch_total@
    }

    /// The number of items handed out in this epoch.
    pub closed spec fn delivered(&self) -> nat {
        self.delivered@
    }

    /// The loader's own state is well formed.
    pub open spec fn wf(&self) -> bool {
        &&& self.block() > 0
        &&& self.depth() > 0
        &&& self.is_idle() ==> self.stage().inv() && self.stage().epoch_size(0)
            == self.epoch_total()
    }

    /// A pull on this loader comes to an end: its pipeline is one of a family of states
    /// that loads in the loader's blocks sustain.
    pub open spec fn drivable(&self) -> bool {
        exists|family: spec_fn(N) -> bool| #[trigger]
            family(self.stage()) && sustains::<T, N>(family, self.block())
    }

    /// Nothing has got lost in this epoch: what was handed out, what waits in the queue and
    /// what the pipeline has left make up the epoch.
    pub open spec fn balanced(&self) -> bool {
        self.delivered() + self.queue().len() + self.stage().remaining(0) == self.epoch_total()
    }

    /// A load from the pipeline's present state loses and invents nothing: what it brings
    /// is what the pipeline's count goes down by.
    pub open spec fn conserving(&self) -> bool {
        conserves::<T, N>(self.stage(), self.block())
    }

    /// The number of items that the next load asks the pipeline for: a block, or what the
    /// pipeline has left if that is less.
    pub open spec fn load_size(&self) -> usize {
        load_size::<T, N>(self.stage(), self.block())
    }

    /// What `len` reports: what the pipeline has left and what waits in the queue.
    pub open spec fn len_spec(&self) -> nat {
        (self.stage().remaining(0) + self.queue().len()) as nat
    }

    /// A loader on `pipeline`, which is reset first, with 1000 for both tunables.
    pub fn new(pipeline: N) -> (loader: Self)
        requires
            pipeline.inv(),
        ensures
            loader.wf(),
            loader.is_idle(),
            pipeline.resets_to(loader.stage()),
            loader.queue().len() == 0,
            loader.block() == 1000,
            loader.depth() == 1000,
            loader.delivered() == 0,
            loader.epoch_total() == pipeline.epoch_size(0),
            loader.stage().remaining(0) == loader.epoch_total(),
            loader.balanced(),
    {
        let mut pipeline = pipeline;
        pipeline.reset();
        let ghost total = pipeline.epoch_size(0);
        Dataloader {
            pipeline: Some(pipeline),
            buffer: VecDeque::new(),
            load_block_size: 1000,
            buffer_size: 1000,
            epoch_total: Ghost(total),
            delivered: Ghost(0),
        }
    }

    /// The same loader with `load_block_size` items asked for in one load.
    pub fn load_block_size(self, load_block_size: usize) -> (loader: Self)
        requires
            load_block_size > 0,
        ensures
            self.wf() ==> loader.wf(),
            loader.block() == load_block_size,
            loader.depth() == self.depth(),
            loader.is_idle() == self.is_idle(),
            loader.is_idle() ==> loader.stage() == self.stage(),
            loader.queue() == self.queue(),
            loader.epoch_total() == self.epoch_total(),
            loader.delivered() == self.delivered(),
    {
        Dataloader {
            pipeline: self.pipeline,
            buffer: self.buffer,
            load_block_size,
            buffer_size: self.buffer_size,
            epoch_total: self.epoch_total,
            delivered: self.delivered,
        }
    }

    /// The same loader with `buffer_size` as the depth that it keeps the queue at.
    pub fn buffer_size(self, buffer_size: usize) -> (loader: Self)
        requires
            buffer_size > 0,
        ensures
            self.wf() ==> loader.wf(),
            loader.block() == self.block(),
            loader.depth() == buffer_size,
            loader.is_idle() == self.is_idle(),
            loader.is_idle() ==> loader.stage() == self.stage(),
            loader.queue() == self.queue(),
            loader.epoch_total() == self.epoch_total(),
            loader.delivered() == self.delivered(),
    {
        Dataloader {
            pipeline: self.pipeline,
            buffer: self.buffer,
            load_block_size: self.load_block_size,
            buffer_size,
            epoch_total: self.epoch_total,
            delivered: self.delivered,
        }
    }

    /// The two tunables and the epoch's size are the same in `other`.
    pub open spec fn same_setup(&self, other: &Self) -> bool {
        &&& other.block() == self.block()
        &&& other.depth() == self.depth()
        &&& other.epoch_total() == self.epoch_total()
    }

    /// Whether a load is due: none is in flight, the queue is below its depth, and the
    /// pipeline has items left.
    pub open spec fn load_due(&self) -> bool {
        self.is_idle() && self.queue().len() < self.depth() && self.stage().remaining(0) > 0
    }

    /// Whether the epoch is over: no load is in flight, the queue is empty and the pipeline
    /// has nothing left.
    pub open spec fn at_epoch_end(&self) -> bool {
        self.is_idle() && self.queue().len() == 0 && self.stage().remaining(0) == 0
    }

    /// What one pull leaves and hands back. Where the queue is empty and the pipeline has
    /// items left, the loader loads until a load brings items or the pipeline has nothing
    /// left; the states that the loads in vain went through make up a trail.
    pub open spec fn pulled(&self, post: &Self, item: Option<T>) -> bool {
        if self.queue().len() > 0 {
            &&& item == Some(self.queue()[0])
            &&& post.delivered() == self.delivered() + 1
            &&& if self.load_due() {
                exists|got: Seq<T>|
                    #![trigger loads(self.stage(), self.load_size(), post.stage(), got)]
                    loads(self.stage(), self.load_size(), post.stage(), got) && post.queue() == (
                    self.queue() + got).drop_first()
            } else {
                post.stage() == self.stage() && post.queue() == self.queue().drop_first()
            }
        } else if self.stage().remaining(0) == 0 {
            &&& item is None
            &&& self.stage().resets_to(post.stage())
        } else {
            &&& item is Some ==> post.delivered() == self.delivered() + 1
            &&& exists|trail: Seq<N>|
                {
                    &&& trail.len() >= 1
                    &&& trail[0] == self.stage()
                    &&& #[trigger] loads_in_vain(trail, self.block())
                    &&& match item {
                        Some(first) => exists|got: Seq<T>|
                            #![trigger loads(
                                trail.last(),
                                load_size::<T, N>(trail.last(), self.block()),
                                post.stage(),
                                got,
                            )]
                            {
                                &&& loads(
                                    trail.last(),
                                    load_size::<T, N>(trail.last(), self.block()),
                                    post.stage(),
                                    got,
                                )
                                &&& got.len() > 0
                                &&& first == got[0]
                                &&& post.queue() == got.drop_first()
                            },
                        None => {
                            &&& trail.len() >= 2
                            &&& trail.last().remaining(0) == 0
                            &&& trail.last().resets_to(post.stage())
                        },
                    }
                }
            &&& self.conserving() ==> exists|got: Seq<T>|
                #![trigger loads(self.stage(), self.load_size(), post.stage(), got)]
                {
                    &&& loads(self.stage(), self.load_size(), post.stage(), got)
                    &&& got.len() > 0
                    &&& item == Some(got[0])
                    &&& post.queue() == got.drop_first()
                }
        }
    }

    /// One pull may take the loader from this state to `post` and hand back `item`: all
    /// that `next` promises of a pull, as one relation.
    pub open spec fn pulls(&self, post: &Self, item: Option<T>) -> bool {
        &&& self.wf() && self.is_idle()
        &&& post.wf() && post.is_idle()
        &&& self.same_setup(post)
        &&& self.pulled(post, item)
        &&& item is None ==> {
            &&& post.queue().len() == 0
            &&& post.delivered() == 0
            &&& post.stage().remaining(0) == post.epoch_total()
            &&& post.balanced()
        }
        &&& self.balanced() && self.conserving() ==> match item {
            Some(_) => post.balanced(),
            None => self.delivered() == self.epoch_total(),
        }
    }

    /// Whether the load in flight is to be taken back now: there is one, and it has
    /// finished or the queue has run empty.
    pub open spec fn reclaim_is_due(&self, finished: bool) -> bool {
        !self.is_idle() && (finished || self.queue().len() == 0)
    }

    /// Takes the next step of a pull, given whether the load in flight, if there is one,
    /// has finished. The caller does what the step says and, unless the step ends the
    /// pull with an item or with the end of the epoch, asks for the next step.
    pub fn step(&mut self, finished: bool) -> (step: Step<T, N>)
        requires
            old(self).wf(),
        ensures
            final(self).wf(),
            old(self).same_setup(final(self)),
            match step {
                Step::Reclaim => {
                    &&& old(self).reclaim_is_due(finished)
                    &&& *final(self) == *old(self)
                },
                Step::EndOfEpoch => {
                    &&& !old(self).reclaim_is_due(finished)
                    &&& old(self).at_epoch_end()
                    &&& final(self).is_idle()
                    &&& old(self).stage().resets_to(final(self).stage())
                    &&& final(self).stage().remaining(0) == final(self).epoch_total()
                    &&& final(self).queue() == old(self).queue()
                    &&& final(self).delivered() == 0
                },
                Step::Load(stage, count) => {
                    &&& !old(self).reclaim_is_due(finished)
                    &&& !old(self).at_epoch_end()
                    &&& old(self).load_due()
                    &&& stage == old(self).stage()
                    &&& count == old(self).load_size()
                    &&& !final(self).is_idle()
                    &&& final(self).queue() == old(self).queue()
                    &&& final(self).delivered() == old(self).delivered()
                },
                Step::Deliver(first) => {
                    &&& !old(self).reclaim_is_due(finished)
                    &&& !old(self).at_epoch_end()
                    &&& !old(self).load_due()
                    &&& old(self).queue().len() > 0
                    &&& first == old(self).queue()[0]
                    &&& final(self).queue() == old(self).queue().drop_first()
                    &&& final(self).delivered() == old(self).delivered() + 1
                    &&& final(self).is_idle() == old(self).is_idle()
                    &&& old(self).is_idle() ==> final(self).stage() == old(self).stage()
                },
            },
    {
        if self.reclaim_due(finished) {
            return Step::Reclaim;
        }
        if self.exhausted() {
            self.end_epoch();
            return Step::EndOfEpoch;
        }
        match self.start_load() {
            Some((stage, count)) => {
                return Step::Load(stage, count);
            },
            None => {},
        }
        match self.pop() {
            Some(first) => Step::Deliver(first),
            None => vstd::pervasive::unreached(),
        }
    }

    /// Whether the load in flight is to be taken back now: there is one, and it has
    /// finished or the queue has run empty, so that the pull must wait for it.
    pub fn reclaim_due(&self, finished: bool) -> (due: bool)
        ensures
            due == self.reclaim_is_due(finished),
    {
        self.pipeline.is_none() && (finished || self.buffer.len() == 0)
    }

    /// Starts a load if one is due. The pipeline and the number of items to ask it for are
    /// handed out: a block, or what the pipeline has left if that is less. The loader does
    /// not hold the pipeline until `finish_load` brings it back.
    pub fn start_load(&mut self) -> (lent: Option<(N, usize)>)
        requires
            old(self).wf(),
        ensures
            final(self).wf(),
            old(self).same_setup(final(self)),
            final(self).queue() == old(self).queue(),
            final(self).delivered() == old(self).delivered(),
            lent is Some <==> old(self).load_due(),
            match lent {
                Some((stage, count)) => {
                    &&& stage == old(self).stage()
                    &&& count == old(self).load_size()
                    &&& !final(self).is_idle()
                },
                None => {
                    &&& final(self).is_idle() == old(self).is_idle()
                    &&& old(self).is_idle() ==> final(self).stage() == old(self).stage()
                },
            },
    {
        if self.pipeline.is_none() || self.buffer.len() >= self.buffer_size {
            return None;
        }
        let stage = self.pipeline.take().unwrap();
        let left = stage.data_remaining(0);
        if left == 0 {
            self.pipeline = Some(stage);
            return None;
        }
        let count = if self.load_block_size <= left {
            self.load_block_size
        } else {
            left
        };
        Some((stage, count))
    }

    /// Takes the pipeline back after a load, with the items that the load brought. They go
    /// to the back of the queue in the order given.
    pub fn finish_load(&mut self, pipeline: N, items: Vec<T>)
        requires
            old(self).wf(),
            !old(self).is_idle(),
            pipeline.inv(),
            pipeline.epoch_size(0) == old(self).epoch_total(),
        ensures
            final(self).wf(),
            final(self).is_idle(),
            old(self).same_setup(final(self)),
            final(self).stage() == pipeline,
            final(self).queue() == old(self).queue() + items@,
            final(self).delivered() == old(self).delivered(),
    {
        self.pipeline = Some(pipeline);
        let ghost brought = items@;
        let ghost before = self.buffer@;
        assert(before + brought.take(0) =~= before);
        for item in it: items.into_iter()
            invariant
                it.seq() == brought,
                self.buffer@ == before + brought.take(it.index() as int),
                self.pipeline == Some(pipeline),
                self.load_block_size == old(self).load_block_size,
                self.buffer_size == old(self).buffer_size,
                self.epoch_total == old(self).epoch_total,
                self.delivered == old(self).delivered,
        {
            self.buffer.push_back(item);
            assert(self.buffer@ =~= before + brought.take(it.index() + 1));
        }
        assert(brought.take(brought.len() as int) =~= brought);
    }

    /// Whether the epoch is over.
    pub fn exhausted(&self) -> (over: bool)
        requires
            self.wf(),
        ensures
            over == self.at_epoch_end(),
    {
        match &self.pipeline {
            Some(stage) => self.buffer.len() == 0 && stage.data_remaining(0) == 0,
            None => false,
        }
    }

    /// Ends the epoch: resets the pipeline, which has a whole epoch ahead of it again.
    pub fn end_epoch(&mut self)
        requires
            old(self).wf(),
            old(self).is_idle(),
        ensures
            final(self).wf(),
            final(self).is_idle(),
            old(self).same_setup(final(self)),
            old(self).stage().resets_to(final(self).stage()),
            final(self).stage().remaining(0) == final(self).epoch_total(),
            final(self).queue() == old(self).queue(),
            final(self).delivered() == 0,
    {
        let mut stage = self.pipeline.take().unwrap();
        stage.reset();
        self.pipeline = Some(stage);
        self.delivered = Ghost(0);
    }

    /// Takes the oldest item from the queue, if there is one.
    pub fn pop(&mut self) -> (item: Option<T>)
        requires
            old(self).wf(),
        ensures
            final(self).wf(),
            old(self).same_setup(final(self)),
            final(self).is_idle() == old(self).is_idle(),
            old(self).is_idle() ==> final(self).stage() == old(self).stage(),
            match item {
                Some(first) => {
                    &&& old(self).queue().len() > 0
                    &&& first == old(self).queue()[0]
                    &&& final(self).queue() == old(self).queue().drop_first()
                    &&& final(self).delivered() == old(self).delivered() + 1
                },
                None => {
                    &&& old(self).queue().len() == 0
                    &&& final(self).queue() == old(self).queue()
                    &&& final(self).delivered() == old(self).delivered()
                },
            },
    {
        let item = self.buffer.pop_front();
        if item.is_some() {
            self.delivered = Ghost((self.delivered@ + 1) as nat);
            assert(self.buffer@ =~= old(self).buffer@.drop_first());
        }
        item
    }

    /// What is left of the epoch: what the pipeline can still yield and what waits in the
    /// queue, as far as a machine count can hold the sum.
    pub fn len(&self) -> (left: usize)
        requires
            self.wf(),
            self.is_idle(),
        ensures
            left == clip(self.len_spec()),
    {
        let pipeline_data = match &self.pipeline {
            Some(stage) => stage.data_remaining(0),
            None => 0,
        };
        let queued = self.buffer.len();
        if pipeline_data > usize::MAX - queued {
            usize::MAX
        } else {
            pipeline_data + queued
        }
    }

    /// Whether nothing is left of the epoch.
    pub fn is_empty(&self) -> (empty: bool)
        requires
            self.wf(),
            self.is_idle(),
        ensures
            empty == (self.len_spec() == 0),
    {
        self.len() == 0
    }

    /// This loader as one whose pulls report what is left.
    pub fn iter_len(&mut self) -> (iter: LenIterDataloader<'_, T, N>)
        ensures
            iter.loader() == *old(self),
    {
        LenIterDataloader { dataloader: self }
    }

    /// Pulls the next item. `None` marks the end of an epoch: the pipeline has been reset
    /// and the next pull opens a new epoch of the same size.
    ///
    /// Loads run in the calling context: a load that is due is made before the item is
    /// handed out, and where the queue is empty the loader loads until items come or the
    /// pipeline has nothing left.
    pub fn next(&mut self) -> (item: Option<T>)
        requires
            old(self).wf(),
            old(self).is_idle(),
            old(self).drivable(),
        ensures
            final(self).wf(),
            final(self).is_idle(),
            final(self).drivable(),
            forall|family: spec_fn(N) -> bool|
                sustains::<T, N>(family, old(self).block()) && #[trigger] family(old(self).stage())
                    ==> family(final(self).stage()),
            old(self).pulls(final(self), item),
    {
        let ghost family = choose|family: spec_fn(N) -> bool| #[trigger]
            family(self.stage()) && sustains::<T, N>(family, self.block());
        let ghost mut loaded = false;
        let ghost mut got: Seq<T> = Seq::empty();
        let ghost mut trail: Seq<N> = seq![self.stage()];
        loop
            invariant
                trail.len() >= 1,
                trail[0] == old(self).stage(),
                trail.last() == self.stage(),
                loads_in_vain(trail, old(self).block()),
                loaded <==> trail.len() >= 2,
                self.wf(),
                self.is_idle(),
                family(self.stage()),
                sustains::<T, N>(family, self.block()),
                forall|other: spec_fn(N) -> bool|
                    sustains::<T, N>(other, old(self).block()) && #[trigger] other(
                        old(self).stage(),
                    ) ==> other(self.stage()),
                old(self).wf(),
                old(self).is_idle(),
                old(self).same_setup(self),
                self.delivered() == old(self).delivered(),
                !loaded ==> self.stage() == old(self).stage() && self.queue() == old(self).queue(),
                loaded ==> {
                    &&& old(self).queue().len() == 0
                    &&& old(self).stage().remaining(0) > 0
                    &&& self.queue().len() == 0
                    &&& !old(self).conserving()
                },
            decreases self.stage().remaining(0),
        {
            let ghost before = *self;
            let ghost mut fresh = false;
            match self.start_load() {
                Some((stage, count)) => {
                    let mut stage = stage;
                    let items = load_block(&mut stage, count);
                    proof {
                        let (units, raw) = choose|units: Vec<()>, raw: Vec<T>|
                            {
                                &&& units.len() == count
                                &&& #[trigger] before.stage().produces(units, stage, raw)
                                &&& items@.to_multiset() == raw@.to_multiset()
                            };
                        assert(family(stage));
                        assert(raw.len() == 0 ==> stage.remaining(0) < before.stage().remaining(0));
                        assert forall|other: spec_fn(N) -> bool|
                            sustains::<T, N>(other, old(self).block()) && #[trigger] other(
                                old(self).stage(),
                            ) implies other(stage) by {
                            assert(other(before.stage()));
                            assert(before.stage().produces(units, stage, raw));
                        }
                        raw@.to_multiset_ensures();
                        items@.to_multiset_ensures();
                        assert(items.len() == raw.len());
                        if !loaded && old(self).conserving() {
                            assert(raw.len() + stage.remaining(0) == before.stage().remaining(0));
                        }
                        got = items@;
                        fresh = true;
                    }
                    self.finish_load(stage, items);
                },
                None => {},
            }
            match self.pop() {
                Some(first) => {
                    proof {
                        if fresh && old(self).queue().len() == 0 {
                            assert(loads(
                                trail.last(),
                                load_size::<T, N>(trail.last(), old(self).block()),
                                self.stage(),
                                got,
                            ));
                            assert(before.queue() + got =~= got);
                            assert(got[0] == first);
                        }
                        if fresh && !loaded {
                            assert(loads(old(self).stage(), old(self).load_size(), self.stage(), got));
                            assert((old(self).queue() + got)[0] == first);
                            if old(self).queue().len() == 0 {
                                assert(old(self).queue() + got =~= got);
                            }
                        }
                        assert(family(self.stage()));
                    }
                    return Some(first);
                },
                None => {},
            }
            proof {
                if fresh {
                    assert(got =~= Seq::<T>::empty());
                    let longer = trail.push(self.stage());
                    assert forall|i: int| 0 <= i < longer.len() - 1 implies (
                    #[trigger] longer[i]).remaining(0) > 0 && loads(
                        longer[i],
                        load_size::<T, N>(longer[i], old(self).block()),
                        longer[i + 1],
                        Seq::<T>::empty(),
                    ) by {
                        if i < trail.len() - 1 {
                            assert(longer[i] == trail[i]);
                            assert(longer[i + 1] == trail[i + 1]);
                        }
                    }
                    trail = longer;
                    loaded = true;
                }
            }
            if self.exhausted() {
                let ghost spent = self.stage();
                self.end_epoch();
                proof {
                    assert(family(self.stage()));
                    assert forall|other: spec_fn(N) -> bool|
                        sustains::<T, N>(other, old(self).block()) && #[trigger] other(
                            old(self).stage(),
                        ) implies other(self.stage()) by {
                        assert(other(spent));
                        assert(spent.resets_to(self.stage()));
                    }
                    if old(self).queue().len() == 0 && old(self).stage().remaining(0) > 0 {
                        assert(loaded);
                        assert(trail.len() >= 2);
                        assert(spent == trail.last());
                        assert(loads_in_vain(trail, old(self).block()));
                        assert(trail.last().resets_to(self.stage()));
                        assert(!old(self).conserving());
                    }
                }
                return None;
            }
            proof {
                assert(fresh);
            }
        }
    }
}

/// A loader seen through its pulls: each item comes with what is left after it.
#[verifier::reject_recursive_types(T)]
pub struct LenIterDataloader<'a, T, N: Node<Vec<()>, Output = Vec<T>>> {
    dataloader: &'a mut Dataloader<T, N>,
}

impl<'a, T, N: Node<Vec<()>, Output = Vec<T>>> LenIterDataloader<'a, T, N> {
    /// The loader as it stands.
    pub closed spec fn loader(&self) -> Dataloader<T, N> {
        *self.dataloader
    }

    /// Pulls the next item and reports, beside it, what is left of the epoch after it.
    pub fn next(&mut self) -> (pair: Option<(T, usize)>)
        requires
            old(self).loader().wf(),
            old(self).loader().is_idle(),
            old(self).loader().drivable(),
        ensures
            final(self).loader().wf(),
            final(self).loader().is_idle(),
            final(self).loader().drivable(),
            match pair {
                Some((item, left)) => {
                    &&& old(self).loader().pulled(&final(self).loader(), Some(item))
                    &&& left == clip(final(self).loader().len_spec())
                },
                None => old(self).loader().pulled(&final(self).loader(), None),
            },
    {
        match self.dataloader.next() {
            Some(item) => {
                let left = self.dataloader.len();
                Some((item, left))
            },
            None => None,
        }
    }
}

} // verus!
