use super::dataloader::conserves;
use super::dataloader::load_size;
use super::dataloader::sustains;
use super::dataloader::Dataloader;
use crate::pipeline::CreateRange;
use crate::pipeline::Node;
use crate::pipeline::VecLoader;
use vstd::prelude::*;

verus! {

/// A vector source can be driven by loads in blocks of any size but 0: it takes every
/// request, and a load from a source with items left hands some of them out.
pub proof fn lemma_vec_loader_sustains<T: Clone>(block: usize)
    requires
        block > 0,
    ensures
        sustains::<T, VecLoader<T>>(|s: VecLoader<T>| s.inv(), block),
{
    let family = |s: VecLoader<T>| s.inv();
    assert forall|s: VecLoader<T>, units: Vec<()>, post: VecLoader<T>, raw: Vec<T>|
        family(s) && units.len() == load_size::<T, VecLoader<T>>(s, block) && post.inv()
            && #[trigger] s.produces(units, post, raw) implies family(post) && (raw.len() == 0
        && s.remaining(0) > 0 ==> post.remaining(0) < s.remaining(0)) by {
    }
    assert forall|s: VecLoader<T>, units: Vec<()>|
        family(s) && units.len() == load_size::<T, VecLoader<T>>(
            s,
            block,
        ) implies #[trigger] s.accepts(units) by {
    }
    assert forall|s: VecLoader<T>, post: VecLoader<T>|
        family(s) && post.inv() && #[trigger] s.resets_to(post) implies family(post) by {
    }
}

/// A load of any size from a vector source brings what the source's count goes down by.
pub proof fn lemma_vec_loader_conserves<T: Clone>(source: VecLoader<T>, block: usize)
    requires
        source.inv(),
    ensures
        conserves::<T, VecLoader<T>>(source, block),
{
    assert forall|units: Vec<()>, post: VecLoader<T>, raw: Vec<T>|
        units.len() == load_size::<T, VecLoader<T>>(source, block) && post.inv()
            && #[trigger] source.produces(units, post, raw) implies raw.len() + post.remaining(0)
        == source.remaining(0) by {
    }
}

/// A range source can be driven by loads in blocks of any size but 0.
pub proof fn lemma_create_range_sustains(block: usize)
    requires
        block > 0,
    ensures
        sustains::<usize, CreateRange>(|s: CreateRange| s.inv(), block),
{
    let family = |s: CreateRange| s.inv();
    assert forall|s: CreateRange, units: Vec<()>, post: CreateRange, raw: Vec<usize>|
        family(s) && units.len() == load_size::<usize, CreateRange>(s, block) && post.inv()
            && #[trigger] s.produces(units, post, raw) implies family(post) && (raw.len() == 0
        && s.remaining(0) > 0 ==> post.remaining(0) < s.remaining(0)) by {
    }
    assert forall|s: CreateRange, units: Vec<()>|
        family(s) && units.len() == load_size::<usize, CreateRange>(
            s,
            block,
        ) implies #[trigger] s.accepts(units) by {
    }
    assert forall|s: CreateRange, post: CreateRange|
        family(s) && post.inv() && #[trigger] s.resets_to(post) implies family(post) by {
    }
}

/// A load of any size from a range source brings what the source's count goes down by.
pub proof fn lemma_create_range_conserves(source: CreateRange, block: usize)
    requires
        source.inv(),
    ensures
        conserves::<usize, CreateRange>(source, block),
{
    assert forall|units: Vec<()>, post: CreateRange, raw: Vec<usize>|
        units.len() == load_size::<usize, CreateRange>(source, block) && post.inv()
            && #[trigger] source.produces(units, post, raw) implies raw.len() + post.remaining(0)
        == source.remaining(0) by {
    }
}

/// A run of pulls: every state of `run` but the last is taken by one pull to the next, and
/// `items` holds what the pulls handed back.
pub open spec fn run_of_pulls<T, N: Node<Vec<()>, Output = Vec<T>>>(
    run: Seq<Dataloader<T, N>>,
    items: Seq<Option<T>>,
) -> bool {
    &&& run.len() == items.len() + 1
    &&& forall|i: int| 0 <= i < items.len() ==> (#[trigger] run[i]).pulls(&run[i + 1], items[i])
}

/// The pulls of one epoch: every pull but the last hands back an item, and the last marks
/// the end of the epoch.
pub open spec fn one_epoch<T>(items: Seq<Option<T>>) -> bool {
    &&& items.len() >= 1
    &&& items.last() is None
    &&& forall|i: int| 0 <= i < items.len() - 1 ==> (#[trigger] items[i]) is Some
}

/// Every load of the run loses and invents nothing.
pub open spec fn conserving_run<T, N: Node<Vec<()>, Output = Vec<T>>>(
    run: Seq<Dataloader<T, N>>,
) -> bool {
    forall|i: int| 0 <= i < run.len() - 1 ==> (#[trigger] run[i]).conserving()
}

/// After so many pulls of an epoch that began in balance, so many items have been handed
/// out, the balance holds, and the epoch's size is as it was.
proof fn lemma_balance_is_kept<T, N: Node<Vec<()>, Output = Vec<T>>>(
    run: Seq<Dataloader<T, N>>,
    items: Seq<Option<T>>,
    upto: int,
)
    requires
        run_of_pulls(run, items),
        one_epoch(items),
        conserving_run(run),
        run[0].balanced(),
        run[0].delivered() == 0,
        0 <= upto < items.len(),
    ensures
        run[upto].balanced(),
        run[upto].delivered() == upto,
        run[upto].epoch_total() == run[0].epoch_total(),
    decreases upto,
{
    if upto > 0 {
        lemma_balance_is_kept(run, items, upto - 1);
        assert(run[upto - 1].pulls(&run[upto], items[upto - 1]));
        assert(items[upto - 1] is Some);
        assert(run[upto - 1].conserving());
    }
}

/// Over one whole epoch the loader hands out as many items as `len` said at the epoch's
/// start, the size of the epoch, provided every load loses and invents nothing. At the epoch's end the loader stands at the start of an epoch of the same
/// size, with the whole of it ahead.
pub proof fn lemma_epoch_hands_out_its_total<T, N: Node<Vec<()>, Output = Vec<T>>>(
    run: Seq<Dataloader<T, N>>,
    items: Seq<Option<T>>,
)
    requires
        run_of_pulls(run, items),
        one_epoch(items),
        conserving_run(run),
        run[0].balanced(),
        run[0].delivered() == 0,
    ensures
        items.len() - 1 == run[0].len_spec(),
        run[0].len_spec() == run[0].epoch_total(),
        run.last().balanced(),
        run.last().delivered() == 0,
        run.last().queue().len() == 0,
        run.last().epoch_total() == run[0].epoch_total(),
        run.last().len_spec() == run[0].len_spec(),
{
    let last = items.len() - 1;
    lemma_balance_is_kept(run, items, last);
    assert(run[last].pulls(&run[last + 1], items[last]));
    assert(run[last].conserving());
    assert(run.last() == run[last + 1]);
}

/// The epoch that follows an epoch hands out as many items as that one did, provided
/// every load of the two loses and invents nothing.
pub proof fn lemma_next_epoch_is_as_long<T, N: Node<Vec<()>, Output = Vec<T>>>(
    first: Seq<Dataloader<T, N>>,
    first_items: Seq<Option<T>>,
    second: Seq<Dataloader<T, N>>,
    second_items: Seq<Option<T>>,
)
    requires
        run_of_pulls(first, first_items),
        one_epoch(first_items),
        conserving_run(first),
        first[0].balanced(),
        first[0].delivered() == 0,
        run_of_pulls(second, second_items),
        one_epoch(second_items),
        conserving_run(second),
        second[0] == first.last(),
    ensures
        second_items.len() == first_items.len(),
{
    lemma_epoch_hands_out_its_total(first, first_items);
    lemma_epoch_hands_out_its_total(second, second_items);
}

} // verus!
