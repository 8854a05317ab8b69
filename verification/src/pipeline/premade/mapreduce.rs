use super::keys::key_order;
use super::keys::key_order_of;
use super::keys::keys_are_ordered;
use super::sort::Order;
use crate::pipeline::Node;
use std::marker::PhantomData;
use vstd::prelude::*;

verus! {

/// `groups`, which are in ascending order of their keys, with `value` added under `key`:
/// at the end of the group with that key, or as a new group in the key's place.
pub open spec fn insert_pair<K: Ord, V>(groups: Seq<(K, Seq<V>)>, key: K, value: V) -> Seq<
    (K, Seq<V>),
>
    decreases groups.len(),
{
    if groups.len() == 0 {
        seq![(key, seq![value])]
    } else {
        match key_order_of(key, groups[0].0) {
            Order::Less => seq![(key, seq![value])] + groups,
            Order::Equal => seq![(groups[0].0, groups[0].1.push(value))] + groups.drop_first(),
            Order::Greater => seq![groups[0]] + insert_pair(groups.drop_first(), key, value),
        }
    }
}

/// The values of `pairs` grouped by key: the groups stand in ascending order of their keys,
/// and the values of a group in the order in which they came.
pub open spec fn grouped<K: Ord, V>(pairs: Seq<(K, V)>) -> Seq<(K, Seq<V>)>
    decreases pairs.len(),
{
    if pairs.len() == 0 {
        Seq::empty()
    } else {
        insert_pair(grouped(pairs.drop_last()), pairs.last().0, pairs.last().1)
    }
}

/// Each group with its values as a sequence.
pub open spec fn group_views<K, V>(groups: Seq<(K, Vec<V>)>) -> Seq<(K, Seq<V>)> {
    groups.map_values(|g: (K, Vec<V>)| (g.0, g.1@))
}

/// The items of the vectors in `parts`, one vector after the other.
pub open spec fn joined<T>(parts: Seq<Vec<T>>) -> Seq<T> {
    parts.map_values(|p: Vec<T>| p@).flatten()
}

/// Adds `value` under `key` to `groups`, which are in ascending order of their keys.
fn insert_into_groups<K: Ord, V>(groups: &mut Vec<(K, Vec<V>)>, key: K, value: V)
    ensures
        keys_are_ordered::<K>() ==> group_views(final(groups)@) == insert_pair(
            group_views(old(groups)@),
            key,
            value,
        ),
{
    let ghost before = group_views(groups@);
    let mut j: usize = 0;
    assert(before.skip(0) =~= before);
    assert(before.take(0) + insert_pair(before, key, value) =~= insert_pair(before, key, value));
    while j < groups.len()
        invariant
            j <= groups.len(),
            group_views(groups@) == before,
            before == group_views(old(groups)@),
            keys_are_ordered::<K>() ==> insert_pair(before, key, value) == before.take(j as int)
                + insert_pair(before.skip(j as int), key, value),
        ensures
            j <= groups.len(),
            keys_are_ordered::<K>() ==> j == groups.len() || key_order_of(
                key,
                before[j as int].0,
            ) == Order::Less,
        decreases groups.len() - j,
    {
        let ghost rest = before.skip(j as int);
        assert(rest[0] == before[j as int]);
        assert(before[j as int] == (groups@[j as int].0, groups@[j as int].1@));
        assert(rest.drop_first() =~= before.skip(j + 1));
        match key_order(&key, &groups[j].0) {
            Order::Less => {
                break ;
            },
            Order::Equal => {
                let (found, mut values) = groups.remove(j);
                values.push(value);
                groups.insert(j, (found, values));
                proof {
                    if keys_are_ordered::<K>() {
                        assert(insert_pair(rest, key, value) == seq![
                            (rest[0].0, rest[0].1.push(value)),
                        ] + rest.drop_first());
                        assert(group_views(groups@) =~= before.take(j as int) + (seq![
                            (rest[0].0, rest[0].1.push(value)),
                        ] + rest.drop_first()));
                    }
                }
                return ;
            },
            Order::Greater => {
                proof {
                    if keys_are_ordered::<K>() {
                        assert(before.take(j as int) + (seq![rest[0]] + insert_pair(
                            rest.drop_first(),
                            key,
                            value,
                        )) =~= before.take(j + 1) + insert_pair(before.skip(j + 1), key, value));
                    }
                }
                j += 1;
            },
        }
    }
    let mut values: Vec<V> = Vec::new();
    values.push(value);
    groups.insert(j, (key, values));
    proof {
        if keys_are_ordered::<K>() {
            let rest = before.skip(j as int);
            if j == before.len() {
                assert(rest =~= Seq::<(K, Seq<V>)>::empty());
            } else {
                assert(rest[0] == before[j as int]);
            }
            assert(insert_pair(rest, key, value) =~= seq![(key, seq![value])] + rest);
            assert(group_views(groups@) =~= before.take(j as int) + (seq![(key, seq![value])]
                + rest));
        }
    }
}

/// Groups the values of `v` by key, in ascending order of the keys. Keys are compared,
/// never hashed.
pub fn group<A: Ord, B>(v: Vec<(A, B)>) -> (groups: Vec<(A, Vec<B>)>)
    ensures
        keys_are_ordered::<A>() ==> group_views(groups@) == grouped(v@),
{
    let ghost pairs = v@;
    let mut groups: Vec<(A, Vec<B>)> = Vec::new();
    assert(group_views(groups@) =~= Seq::<(A, Seq<B>)>::empty());
    for pair in it: v.into_iter()
        invariant
            it.seq() == pairs,
            keys_are_ordered::<A>() ==> group_views(groups@) == grouped(
                pairs.take(it.index() as int),
            ),
    {
        let ghost i = it.index() as int;
        assert(pairs.take(i + 1).drop_last() =~= pairs.take(i));
        assert(pairs.take(i + 1).last() == pair);
        let (key, value) = pair;
        insert_into_groups(&mut groups, key, value);
    }
    assert(pairs.take(pairs.len() as int) =~= pairs);
    groups
}

/// Adding one more vector at the end adds its items at the end.
pub proof fn lemma_joined_push<T>(parts: Seq<Vec<T>>, part: Vec<T>)
    ensures
        joined(parts.push(part)) == joined(parts) + part@,
{
    let views = parts.map_values(|p: Vec<T>| p@);
    assert(parts.push(part).map_values(|p: Vec<T>| p@) =~= views.push(part@));
    views.lemma_flatten_push(part@);
}

/// `emitted` holds, for each item of `input` in turn, pairs that `map` may give for it.
pub open spec fn emits<I, K, V, M: Fn(I) -> Vec<(K, V)>>(
    map: M,
    input: Seq<I>,
    emitted: Seq<Vec<(K, V)>>,
) -> bool {
    &&& emitted.len() == input.len()
    &&& forall|i: int| 0 <= i < input.len() ==> map.ensures((input[i],), #[trigger] emitted[i])
}

/// `outs` is what `reduce` may give for `group`.
pub open spec fn reduces_group<K, V, O, R: Fn((K, Vec<V>)) -> Vec<O>>(
    reduce: R,
    group: (K, Seq<V>),
    outs: Vec<O>,
) -> bool {
    exists|values: Vec<V>|
        values@ == group.1 && #[trigger] reduce.ensures(((group.0, values),), outs)
}

/// `reduced` holds, for each group of `groups` in turn, outputs that `reduce` may give for it.
pub open spec fn reduces<K, V, O, R: Fn((K, Vec<V>)) -> Vec<O>>(
    reduce: R,
    groups: Seq<(K, Seq<V>)>,
    reduced: Seq<Vec<O>>,
) -> bool {
    &&& reduced.len() == groups.len()
    &&& forall|j: int|
        0 <= j < groups.len() ==> #[trigger] reduces_group(reduce, groups[j], reduced[j])
}

/// The group-reduce stage: a mapping function turns every item into (key, value) pairs, the
/// values are grouped by key, and a reduction function turns every group into outputs. The
/// outputs come in ascending order of the groups' keys, whatever order the items came in.
#[verifier::reject_recursive_types(I)]
#[verifier::reject_recursive_types(K)]
#[verifier::reject_recursive_types(V)]
#[verifier::reject_recursive_types(O)]
pub struct MapReduce<I, K, V, O, M: Fn(I) -> Vec<(K, V)>, R: Fn((K, Vec<V>)) -> Vec<O>> {
    map: M,
    reduce: R,
    _phantom: PhantomData<(I, K, V, O)>,
}

impl<I, K, V, O, M: Fn(I) -> Vec<(K, V)> + Clone, R: Fn((K, Vec<V>)) -> Vec<O> + Clone> Clone for MapReduce<
    I,
    K,
    V,
    O,
    M,
    R,
> {
    /// A stage with copies of the two functions.
    fn clone(&self) -> Self {
        Self { map: self.map.clone(), reduce: self.reduce.clone(), _phantom: PhantomData }
    }
}

impl<I, K: Ord, V, O, M: Fn(I) -> Vec<(K, V)>, R: Fn((K, Vec<V>)) -> Vec<O>> MapReduce<
    I,
    K,
    V,
    O,
    M,
    R,
> {
    /// The mapping function.
    pub closed spec fn mapper(&self) -> M {
        self.map
    }

    /// The reduction function.
    pub closed spec fn reducer(&self) -> R {
        self.reduce
    }

    pub fn new(map: M, reduce: R) -> (stage: Self)
        ensures
            stage.mapper() == map,
            stage.reducer() == reduce,
    {
        Self { map, reduce, _phantom: PhantomData }
    }
}

impl<I, K: Ord, V, O, M: Fn(I) -> Vec<(K, V)>, R: Fn((K, Vec<V>)) -> Vec<O>> Node<
    Vec<I>,
> for MapReduce<I, K, V, O, M, R> {
    type Output = Vec<O>;

    open spec fn inv(&self) -> bool {
        true
    }

    open spec fn accepts(&self, input: Vec<I>) -> bool {
        &&& forall|i: int| 0 <= i < input.len() ==> self.mapper().requires((#[trigger] input[i],))
        &&& forall|group: (K, Vec<V>)| #[trigger] self.reducer().requires((group,))
    }

    open spec fn produces(&self, input: Vec<I>, post: Self, output: Vec<O>) -> bool {
        &&& post.mapper() == self.mapper()
        &&& post.reducer() == self.reducer()
        &&& keys_are_ordered::<K>() ==> exists|emitted: Seq<Vec<(K, V)>>, reduced: Seq<Vec<O>>|
            {
                &&& #[trigger] emits(self.mapper(), input@, emitted)
                &&& #[trigger] reduces(self.reducer(), grouped(joined(emitted)), reduced)
                &&& output@ == joined(reduced)
            }
    }

    open spec fn resets_to(&self, post: Self) -> bool {
        post.mapper() == self.mapper() && post.reducer() == self.reducer()
    }

    open spec fn remaining(&self, before: usize) -> usize {
        before
    }

    open spec fn epoch_size(&self, before: usize) -> usize {
        before
    }

    fn process(&mut self, input: Vec<I>) -> (output: Vec<O>) {
        let ghost items = input@;
        let ghost mut emitted: Seq<Vec<(K, V)>> = Seq::empty();
        let mut pairs: Vec<(K, V)> = Vec::new();
        assert(joined(emitted) =~= Seq::<(K, V)>::empty());
        assert(self.reducer() == self.reduce);
        assert(forall|g: (K, Vec<V>)| #[trigger] self.reduce.requires((g,)));
        for item in it: input.into_iter()
            invariant
                it.seq() == items,
                *self == *old(self),
                forall|i: int| 0 <= i < items.len() ==> self.map.requires((#[trigger] items[i],)),
                forall|g: (K, Vec<V>)| #[trigger] self.reduce.requires((g,)),
                emits(self.map, items.take(it.index() as int), emitted),
                pairs@ == joined(emitted),
        {
            let ghost i = it.index() as int;
            assert(items[i] == item);
            let mut found = (self.map)(item);
            proof {
                lemma_joined_push(emitted, found);
                emitted = emitted.push(found);
                assert(items.take(i + 1)[i] == item);
            }
            pairs.append(&mut found);
        }
        assert(items.take(items.len() as int) =~= items);
        let groups = group(pairs);
        let ghost all = group_views(groups@);
        let ghost mut reduced: Seq<Vec<O>> = Seq::empty();
        let mut output: Vec<O> = Vec::new();
        assert(joined(reduced) =~= Seq::<O>::empty());
        for entry in it: groups.into_iter()
            invariant
                it.seq() == groups@,
                all == group_views(groups@),
                *self == *old(self),
                forall|g: (K, Vec<V>)| #[trigger] self.reduce.requires((g,)),
                emits(self.map, items, emitted),
                keys_are_ordered::<K>() ==> all == grouped(joined(emitted)),
                reduces(self.reduce, all.take(it.index() as int), reduced),
                output@ == joined(reduced),
        {
            let ghost j = it.index() as int;
            let ghost done = reduced;
            let ghost entry_values = entry.1;
            let ghost entry_key = entry.0;
            assert(all[j] == (entry.0, entry.1@));
            let mut outs = (self.reduce)(entry);
            proof {
                lemma_joined_push(reduced, outs);
                reduced = reduced.push(outs);
                let upto = all.take(j + 1);
                assert forall|x: int| 0 <= x < upto.len() implies #[trigger] reduces_group(
                    self.reduce,
                    upto[x],
                    reduced[x],
                ) by {
                    if x < j {
                        assert(reduces_group(self.reduce, all.take(j)[x], done[x]));
                    } else {
                        assert(self.reduce.ensures(((upto[x].0, entry_values),), reduced[x]));
                    }
                }
                assert(all.len() == groups@.len());
                assert(done.len() == all.take(j).len());
                assert(reduced.len() == upto.len());
                assert(reduces(self.reduce, upto, reduced));
            }
            output.append(&mut outs);
        }
        assert(all.take(all.len() as int) =~= all);
        output
    }

    fn reset(&mut self) {
    }

    fn data_remaining(&self, before: usize) -> (after: usize) {
        before
    }
}

} // verus!
