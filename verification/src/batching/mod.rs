use crate::pipeline::loader::range_to;
use crate::pipeline::premade::kept;
use crate::random::shuffle;
use vstd::prelude::*;
use vstd::std_specs::cmp::PartialEqSpec;

verus! {

/// The length of the longest of `lists`, 0 where there is none.
pub open spec fn longest<T>(lists: Seq<Vec<T>>) -> nat
    decreases lists.len(),
{
    if lists.len() == 0 {
        0
    } else if lists.last().len() > longest(lists.drop_last()) {
        lists.last().len() as nat
    } else {
        longest(lists.drop_last())
    }
}

/// No list is longer than the longest.
pub proof fn lemma_longest_bounds<T>(lists: Seq<Vec<T>>)
    ensures
        forall|i: int| 0 <= i < lists.len() ==> (#[trigger] lists[i]).len() <= longest(lists),
    decreases lists.len(),
{
    if lists.len() > 0 {
        lemma_longest_bounds(lists.drop_last());
        assert forall|i: int| 0 <= i < lists.len() implies (#[trigger] lists[i]).len() <= longest(
            lists,
        ) by {
            if i < lists.len() - 1 {
                assert(lists.drop_last()[i] == lists[i]);
            }
        }
    }
}

/// Builds the pad mask of a batch: a mask of the batch's shape that is true exactly where
/// an item equals `pad_value`.
pub fn pad_mask<T: std::cmp::PartialEq>(batch: &[Vec<T>], pad_value: T) -> (mask: Vec<Vec<bool>>)
    ensures
        mask.len() == batch.len(),
        forall|i: int| 0 <= i < batch.len() ==> (#[trigger] mask[i]).len() == batch[i].len(),
        T::obeys_eq_spec() ==> forall|i: int, j: int|
            0 <= i < batch.len() && 0 <= j < batch[i].len() ==> #[trigger] mask[i][j]
                == batch[i][j].eq_spec(&pad_value),
{
    let mut mask: Vec<Vec<bool>> = Vec::new();
    let mut i: usize = 0;
    while i < batch.len()
        invariant
            i <= batch.len(),
            mask.len() == i,
            forall|k: int| 0 <= k < i ==> (#[trigger] mask[k]).len() == batch[k].len(),
            T::obeys_eq_spec() ==> forall|k: int, j: int|
                0 <= k < i && 0 <= j < batch[k].len() ==> #[trigger] mask[k][j]
                    == batch[k][j].eq_spec(&pad_value),
        decreases batch.len() - i,
    {
        let seq = &batch[i];
        let mut row: Vec<bool> = Vec::new();
        let mut j: usize = 0;
        while j < seq.len()
            invariant
                j <= seq.len(),
                row.len() == j,
                T::obeys_eq_spec() ==> forall|k: int|
                    0 <= k < j ==> #[trigger] row[k] == seq[k].eq_spec(&pad_value),
            decreases seq.len() - j,
        {
            row.push(seq[j] == pad_value);
            j += 1;
        }
        mask.push(row);
        i += 1;
    }
    mask
}

/// Pads every sequence of the batch with copies of `pad_value` to the length of the longest.
pub fn pad_batch<T: std::clone::Clone>(batch: &mut Vec<Vec<T>>, pad_value: T)
    ensures
        final(batch).len() == old(batch).len(),
        forall|i: int|
            0 <= i < old(batch).len() ==> {
                &&& (#[trigger] final(batch)[i]).len() == longest(old(batch)@)
                &&& final(batch)[i]@.take(old(batch)[i].len() as int) == old(batch)[i]@
                &&& forall|j: int|
                    old(batch)[i].len() <= j < longest(old(batch)@) ==> cloned(
                        pad_value,
                        #[trigger] final(batch)[i][j],
                    )
            },
{
    // Get longest example
    let mut longest_len: usize = 0;
    let mut i: usize = 0;
    assert(batch@.take(0) =~= Seq::<Vec<T>>::empty());
    while i < batch.len()
        invariant
            i <= batch.len(),
            longest_len == longest(batch@.take(i as int)),
        decreases batch.len() - i,
    {
        assert(batch@.take(i + 1).drop_last() =~= batch@.take(i as int));
        if batch[i].len() > longest_len {
            longest_len = batch[i].len();
        }
        i += 1;
    }
    assert(batch@.take(batch.len() as int) =~= batch@);
    proof {
        lemma_longest_bounds(batch@);
    }
    // Pad all sequences to be longest
    let mut i: usize = 0;
    while i < batch.len()
        invariant
            i <= batch.len(),
            batch.len() == old(batch).len(),
            longest_len == longest(old(batch)@),
            forall|k: int| 0 <= k < old(batch).len() ==> (#[trigger] old(batch)[k]).len()
                <= longest_len,
            forall|k: int| i <= k < batch.len() ==> batch[k] == old(batch)[k],
            forall|k: int|
                0 <= k < i ==> {
                    &&& (#[trigger] batch[k]).len() == longest_len
                    &&& batch[k]@.take(old(batch)[k].len() as int) == old(batch)[k]@
                    &&& forall|j: int|
                        old(batch)[k].len() <= j < longest_len ==> cloned(
                            pad_value,
                            #[trigger] batch[k][j],
                        )
                },
        decreases batch.len() - i,
    {
        let ghost start = batch[i as int]@;
        assert(start.take(start.len() as int) =~= start);
        while batch[i].len() < longest_len
            invariant
                i < batch.len(),
                batch.len() == old(batch).len(),
                start == old(batch)[i as int]@,
                start.len() <= batch[i as int].len() <= longest_len,
                batch[i as int]@.take(start.len() as int) == start,
                forall|j: int|
                    start.len() <= j < batch[i as int].len() ==> cloned(
                        pad_value,
                        #[trigger] batch[i as int][j],
                    ),
                forall|k: int| i < k < batch.len() ==> batch[k] == old(batch)[k],
                forall|k: int|
                    0 <= k < i ==> {
                        &&& (#[trigger] batch[k]).len() == longest_len
                        &&& batch[k]@.take(old(batch)[k].len() as int) == old(batch)[k]@
                        &&& forall|j: int|
                            old(batch)[k].len() <= j < longest_len ==> cloned(
                                pad_value,
                                #[trigger] batch[k][j],
                            )
                    },
            decreases longest_len - batch[i as int].len(),
        {
            let ghost before = batch@;
            let pad = pad_value.clone();
            batch[i].push(pad);
            assert(batch[i as int]@.take(start.len() as int) =~= before[i as int]@.take(
                start.len() as int,
            ));
            assert forall|k: int| 0 <= k < i implies {
                &&& (#[trigger] batch[k]).len() == longest_len
                &&& batch[k]@.take(old(batch)[k].len() as int) == old(batch)[k]@
                &&& forall|j: int|
                    old(batch)[k].len() <= j < longest_len ==> cloned(
                        pad_value,
                        #[trigger] batch[k][j],
                    )
            } by {
                assert(batch[k] == before[k]);
            }
        }
        i += 1;
    }
}

/// `length` lies within the bounds, each of which binds only where it is given.
pub open spec fn within(length: usize, min_length: Option<usize>, max_length: Option<usize>) -> bool {
    &&& min_length matches Some(least) ==> least <= length
    &&& max_length matches Some(most) ==> length <= most
}

/// The record at `index` stays: in every list its element's length lies within the bounds.
pub open spec fn stays(
    lengths: Seq<Vec<usize>>,
    index: int,
    min_length: Option<usize>,
    max_length: Option<usize>,
) -> bool {
    forall|x: int| 0 <= x < lengths.len() ==> within(#[trigger] lengths[x][index], min_length, max_length)
}

/// For each of `count` records, whether it stays.
pub open spec fn stay_mask(
    lengths: Seq<Vec<usize>>,
    count: nat,
    min_length: Option<usize>,
    max_length: Option<usize>,
) -> Seq<bool> {
    Seq::new(count, |i: int| stays(lengths, i, min_length, max_length))
}

/// All of `lists` hold `count` items.
pub open spec fn all_of_length<T>(lists: Seq<Vec<T>>, count: nat) -> bool {
    forall|x: int| 0 <= x < lists.len() ==> (#[trigger] lists[x]).len() == count
}

/// The number of records in `lists`: the length of the first list, 0 where there is none.
pub open spec fn records<T>(lists: Seq<Vec<T>>) -> nat {
    if lists.len() == 0 {
        0
    } else {
        lists[0].len() as nat
    }
}

/// Whether the record at `index` stays.
fn record_stays(
    lengths: &Vec<Vec<usize>>,
    index: usize,
    min_length: Option<usize>,
    max_length: Option<usize>,
) -> (stay: bool)
    requires
        forall|x: int| 0 <= x < lengths.len() ==> index < (#[trigger] lengths[x]).len(),
    ensures
        stay == stays(lengths@, index as int, min_length, max_length),
{
    let mut x: usize = 0;
    while x < lengths.len()
        invariant
            x <= lengths.len(),
            forall|y: int| 0 <= y < lengths.len() ==> index < (#[trigger] lengths[y]).len(),
            forall|y: int|
                0 <= y < x ==> within(#[trigger] lengths[y][index as int], min_length, max_length),
        decreases lengths.len() - x,
    {
        let length = lengths[x][index];
        let long = match max_length {
            Some(most) => length > most,
            None => false,
        };
        let short = match min_length {
            Some(least) => length < least,
            None => false,
        };
        if long || short {
            return false;
        }
        x += 1;
    }
    true
}

/// Removes, from all lists at once, every record that holds an element whose length lies
/// outside the bounds. `lengths` gives the length of each element of each list.
pub fn filter_by_length<T>(
    lists: &mut Vec<Vec<T>>,
    lengths: &Vec<Vec<usize>>,
    min_length: Option<usize>,
    max_length: Option<usize>,
)
    requires
        lengths.len() == old(lists).len(),
        all_of_length(old(lists)@, records(old(lists)@)),
        all_of_length(lengths@, records(old(lists)@)),
    ensures
        final(lists).len() == old(lists).len(),
        forall|x: int|
            0 <= x < old(lists).len() ==> (#[trigger] final(lists)[x])@ == kept(
                old(lists)[x]@,
                stay_mask(lengths@, records(old(lists)@), min_length, max_length),
            ),
{
    if lists.len() == 0 {
        return ;
    }
    let count = lists[0].len();
    let ghost full = stay_mask(lengths@, count as nat, min_length, max_length);
    let mut mask: Vec<bool> = Vec::new();
    let mut i: usize = 0;
    while i < count
        invariant
            i <= count,
            all_of_length(lengths@, count as nat),
            full == stay_mask(lengths@, count as nat, min_length, max_length),
            mask@ == full.take(i as int),
        decreases count - i,
    {
        let stay = record_stays(lengths, i, min_length, max_length);
        assert(full[i as int] == stay);
        mask.push(stay);
        i += 1;
        assert(mask@ =~= full.take(i as int));
    }
    assert(full.take(count as int) =~= full);
    let mut x: usize = 0;
    while x < lists.len()
        invariant
            x <= lists.len(),
            lists.len() == old(lists).len(),
            mask@ == full,
            full.len() == count,
            all_of_length(old(lists)@, count as nat),
            forall|y: int| x <= y < lists.len() ==> lists[y] == old(lists)[y],
            forall|y: int| 0 <= y < x ==> (#[trigger] lists[y])@ == kept(old(lists)[y]@, full),
        decreases lists.len() - x,
    {
        let ghost before = lists@;
        let mut taken: Vec<T> = Vec::new();
        std::mem::swap(&mut lists[x], &mut taken);
        let ghost items = taken@;
        assert(items == old(lists)[x as int]@);
        let mut stayed: Vec<T> = Vec::new();
        let mut k: usize = 0;
        for item in it: taken.into_iter()
            invariant
                it.seq() == items,
                k == it.index(),
                items.len() == count,
                mask@ == full,
                full.len() == count,
                stayed@ == kept(items.take(it.index() as int), full.take(it.index() as int)),
        {
            let ghost i = it.index() as int;
            assert(items.take(i + 1).drop_last() =~= items.take(i));
            assert(full.take(i + 1).drop_last() =~= full.take(i));
            if mask[k] {
                stayed.push(item);
            }
            k += 1;
        }
        assert(items.take(count as int) =~= items);
        assert(full.take(count as int) =~= full);
        lists.set(x, stayed);
        x += 1;
    }
}

/// `after` holds, in every list, copies of the items of `before` picked by `picks`: the
/// item at a position is a copy of the one that stood at the position's pick, and the
/// picks are the same for all lists.
pub open spec fn rearranged<T: Clone>(before: Seq<Vec<T>>, after: Seq<Vec<T>>, picks: Seq<usize>) -> bool {
    &&& after.len() == before.len()
    &&& forall|x: int|
        0 <= x < before.len() ==> {
            &&& (#[trigger] after[x]).len() == picks.len()
            &&& forall|i: int|
                0 <= i < picks.len() ==> {
                    &&& picks[i] < before[x].len()
                    &&& cloned(before[x][picks[i] as int], #[trigger] after[x][i])
                }
        }
}

/// Rebuilds every list from copies of its items, picked by `picks`.
pub fn rearrange<T: Clone>(lists: &mut Vec<Vec<T>>, picks: &Vec<usize>)
    requires
        forall|x: int, i: int|
            0 <= x < old(lists).len() && 0 <= i < picks.len() ==> #[trigger] picks[i] < (
            #[trigger] old(lists)[x]).len(),
    ensures
        rearranged(old(lists)@, final(lists)@, picks@),
{
    let mut x: usize = 0;
    while x < lists.len()
        invariant
            x <= lists.len(),
            lists.len() == old(lists).len(),
            forall|y: int, i: int|
                0 <= y < old(lists).len() && 0 <= i < picks.len() ==> #[trigger] picks[i] < (
                #[trigger] old(lists)[y]).len(),
            forall|y: int| x <= y < lists.len() ==> lists[y] == old(lists)[y],
            forall|y: int|
                0 <= y < x ==> {
                    &&& (#[trigger] lists[y]).len() == picks.len()
                    &&& forall|i: int|
                        0 <= i < picks.len() ==> cloned(
                            old(lists)[y][picks[i] as int],
                            #[trigger] lists[y][i],
                        )
                },
        decreases lists.len() - x,
    {
        let mut rebuilt: Vec<T> = Vec::new();
        let mut i: usize = 0;
        while i < picks.len()
            invariant
                i <= picks.len(),
                x < lists.len(),
                lists[x as int] == old(lists)[x as int],
                lists.len() == old(lists).len(),
                forall|k: int| 0 <= k < picks.len() ==> #[trigger] picks[k] < old(lists)[x as int].len(),
                rebuilt.len() == i,
                forall|k: int|
                    0 <= k < i ==> cloned(
                        old(lists)[x as int][picks[k] as int],
                        #[trigger] rebuilt[k],
                    ),
            decreases picks.len() - i,
        {
            let copy = lists[x][picks[i]].clone();
            rebuilt.push(copy);
            i += 1;
        }
        lists.set(x, rebuilt);
        x += 1;
    }
}

/// Shuffles several lists of one length in the same way: one random order of the records
/// is drawn and every list is rebuilt in it, so that what stood together stays together.
pub fn shuffle_lists<T: std::clone::Clone>(lists: &mut Vec<Vec<T>>)
    requires
        all_of_length(old(lists)@, records(old(lists)@)),
    ensures
        exists|order: Seq<usize>|
            {
                &&& order.to_multiset() == range_to(records(old(lists)@)).to_multiset()
                &&& #[trigger] rearranged(old(lists)@, final(lists)@, order)
            },
{
    let count = if lists.len() == 0 {
        0
    } else {
        lists[0].len()
    };
    let mut order: Vec<usize> = Vec::new();
    let mut i: usize = 0;
    while i < count
        invariant
            i <= count,
            order@ == range_to(i as nat),
        decreases count - i,
    {
        order.push(i);
        i += 1;
        assert(order@ =~= range_to(i as nat));
    }
    let ghost sorted = order@;
    shuffle(&mut order);
    proof {
        order@.to_multiset_ensures();
        sorted.to_multiset_ensures();
        assert forall|k: int| 0 <= k < order.len() implies #[trigger] order[k] < count by {
            assert(order@.contains(order[k]));
            assert(order@.to_multiset().count(order[k]) > 0);
            assert(sorted.to_multiset().count(order[k]) > 0);
            assert(sorted.contains(order[k]));
        }
    }
    rearrange(lists, &order);
}

/// The elements' lengths, each with its position.
pub open spec fn keyed(lengths: Seq<usize>) -> Seq<(usize, usize)> {
    Seq::new(lengths.len(), |i: int| (lengths[i], i as usize))
}

/// `pairs` ascend: by their first parts, and by their second parts where those are equal.
pub open spec fn ascending(pairs: Seq<(usize, usize)>) -> bool {
    forall|i: int, j: int|
        0 <= i < j < pairs.len() ==> (#[trigger] pairs[i]).0 < (#[trigger] pairs[j]).0 || (pairs[i].0
            == pairs[j].0 && pairs[i].1 <= pairs[j].1)
}

/// The positions in `pairs`, in their order or, if the longest come first, from last to
/// first.
pub open spec fn picks_of(pairs: Seq<(usize, usize)>, longest_first: Option<bool>) -> Seq<usize> {
    if longest_first == Some(true) {
        pairs.reverse().map_values(|p: (usize, usize)| p.1)
    } else {
        pairs.map_values(|p: (usize, usize)| p.1)
    }
}

/// Sorts pairs of numbers in place into ascending order.
///
/// Trusted: `sort_unstable` on slices of the standard library, with the order that the
/// standard library documents for tuples of integers: by the first part, then by the second.
#[verifier::external_body]
pub(crate) fn sort_pairs(pairs: &mut Vec<(usize, usize)>)
    ensures
        final(pairs)@.to_multiset() == old(pairs)@.to_multiset(),
        ascending(final(pairs)@),
{
    pairs.sort_unstable();
}

/// A rearrangement of the keyed lengths holds every position once, each with its length.
pub proof fn lemma_order_is_keyed(lengths: Seq<usize>, order: Seq<(usize, usize)>)
    requires
        lengths.len() <= usize::MAX,
        order.to_multiset() == keyed(lengths).to_multiset(),
    ensures
        order.len() == lengths.len(),
        forall|i: int|
            0 <= i < order.len() ==> (#[trigger] order[i]).1 < lengths.len() && order[i].0
                == lengths[order[i].1 as int],
{
    order.to_multiset_ensures();
    keyed(lengths).to_multiset_ensures();
    assert forall|i: int| 0 <= i < order.len() implies (#[trigger] order[i]).1 < lengths.len()
        && order[i].0 == lengths[order[i].1 as int] by {
        assert(order.contains(order[i]));
        assert(order.to_multiset().count(order[i]) > 0);
        assert(keyed(lengths).to_multiset().count(order[i]) > 0);
        assert(keyed(lengths).contains(order[i]));
        let k = choose|k: int| 0 <= k < keyed(lengths).len() && keyed(lengths)[k] == order[i];
        assert(order[i] == (lengths[k], k as usize));
    }
}

/// Records in ascending order of their keyed lengths stand in ascending order of length:
/// no record stands before a shorter one.
pub proof fn lemma_sorted_lengths_ascend(lengths: Seq<usize>, order: Seq<(usize, usize)>)
    requires
        lengths.len() <= usize::MAX,
        order.to_multiset() == keyed(lengths).to_multiset(),
        ascending(order),
    ensures
        forall|i: int, j: int|
            0 <= i < j < order.len() ==> lengths[(#[trigger] order[i]).1 as int] <= lengths[(
            #[trigger] order[j]).1 as int],
{
    lemma_order_is_keyed(lengths, order);
}

/// Sorts several lists of one length by the lengths of the elements of the first list:
/// shortest first or, if `longest_first` is set, longest first. Every list is rebuilt in
/// the same order, so that what stood together stays together. `lengths` gives the length
/// of each element of the first list. Records of one length keep their order, which is
/// turned round with the rest where the longest come first.
pub fn sort_lists_by_length<T: std::clone::Clone>(
    lists: &mut Vec<Vec<T>>,
    lengths: &Vec<usize>,
    longest_first: Option<bool>,
)
    requires
        all_of_length(old(lists)@, lengths.len() as nat),
    ensures
        exists|order: Seq<(usize, usize)>|
            {
                &&& order.to_multiset() == keyed(lengths@).to_multiset()
                &&& ascending(order)
                &&& #[trigger] rearranged(
                    old(lists)@,
                    final(lists)@,
                    picks_of(order, longest_first),
                )
            },
{
    let count = lengths.len();
    let mut pairs: Vec<(usize, usize)> = Vec::new();
    let mut i: usize = 0;
    while i < count
        invariant
            i <= count,
            count == lengths.len(),
            pairs@ == keyed(lengths@).take(i as int),
        decreases count - i,
    {
        pairs.push((lengths[i], i));
        i += 1;
        assert(pairs@ =~= keyed(lengths@).take(i as int));
    }
    assert(keyed(lengths@).take(count as int) =~= keyed(lengths@));
    sort_pairs(&mut pairs);
    let ghost order = pairs@;
    proof {
        lemma_order_is_keyed(lengths@, order);
    }
    let reversed = match longest_first {
        Some(flag) => flag,
        None => false,
    };
    let mut picks: Vec<usize> = Vec::new();
    let mut i: usize = 0;
    while i < count
        invariant
            i <= count,
            count == pairs.len(),
            pairs@ == order,
            reversed == (longest_first == Some(true)),
            picks@ == picks_of(order, longest_first).take(i as int),
        decreases count - i,
    {
        let pick = if reversed {
            pairs[count - 1 - i].1
        } else {
            pairs[i].1
        };
        picks.push(pick);
        i += 1;
        assert(picks@ =~= picks_of(order, longest_first).take(i as int));
    }
    assert(picks_of(order, longest_first).take(count as int) =~= picks_of(order, longest_first));
    rearrange(lists, &picks);
}

} // verus!
