use super::keys::key_order_of;
use super::keys::keys_are_strict;
use super::mapreduce::grouped;
use super::mapreduce::insert_pair;
use super::sort::Order;
use vstd::prelude::*;

verus! {

/// The values of the pairs of `pairs` that have the key `key`, in the order in which they
/// came.
pub open spec fn values_of<K, V>(pairs: Seq<(K, V)>, key: K) -> Seq<V>
    decreases pairs.len(),
{
    if pairs.len() == 0 {
        Seq::empty()
    } else if pairs.last().0 == key {
        values_of(pairs.drop_last(), key).push(pairs.last().1)
    } else {
        values_of(pairs.drop_last(), key)
    }
}

/// The keys of `groups` ascend strictly.
pub open spec fn keys_ascend<K: Ord, V>(groups: Seq<(K, Seq<V>)>) -> bool {
    forall|i: int, j: int|
        0 <= i < j < groups.len() ==> key_order_of(
            (#[trigger] groups[i]).0,
            (#[trigger] groups[j]).0,
        ) == Order::Less
}

/// `groups` has a group for the key `key`.
pub open spec fn has_key<K, V>(groups: Seq<(K, Seq<V>)>, key: K) -> bool {
    exists|i: int| 0 <= i < groups.len() && (#[trigger] groups[i]).0 == key
}

/// `groups` are the groups of `pairs`: their keys ascend strictly, so that no key stands
/// twice; there is a group for every key of a pair and for no other; and a group holds
/// the values of the pairs with its key, all of them, in the order in which they came.
pub open spec fn groups_of<K: Ord, V>(groups: Seq<(K, Seq<V>)>, pairs: Seq<(K, V)>) -> bool {
    &&& keys_ascend(groups)
    &&& forall|i: int|
        0 <= i < groups.len() ==> (#[trigger] groups[i]).1 == values_of(pairs, groups[i].0)
            && groups[i].1.len() > 0
    &&& forall|j: int| 0 <= j < pairs.len() ==> has_key(groups, (#[trigger] pairs[j]).0)
}

/// The place of `key` among keys that ascend: every key before it is less, every key from
/// it on is greater.
pub open spec fn splits_at<K: Ord, V>(groups: Seq<(K, Seq<V>)>, key: K, place: int) -> bool {
    &&& 0 <= place <= groups.len()
    &&& forall|i: int|
        0 <= i < place ==> key_order_of(key, (#[trigger] groups[i]).0) == Order::Greater
    &&& forall|i: int|
        place <= i < groups.len() ==> key_order_of(key, (#[trigger] groups[i]).0) == Order::Less
}

/// The group at `at` is the one for `key`.
pub open spec fn key_at<K, V>(groups: Seq<(K, Seq<V>)>, key: K, at: int) -> bool {
    0 <= at < groups.len() && groups[at].0 == key
}

/// Adding a pair to groups whose keys ascend either adds its value to the group of its
/// key or puts a new group in the key's place.
proof fn lemma_insert_shape<K: Ord, V>(groups: Seq<(K, Seq<V>)>, key: K, value: V)
    requires
        keys_are_strict::<K>(),
        keys_ascend(groups),
    ensures
        ({
            let added = insert_pair(groups, key, value);
            ||| exists|at: int|
                #[trigger] key_at(groups, key, at) && added == groups.update(
                    at,
                    (key, groups[at].1.push(value)),
                )
            ||| exists|place: int|
                #[trigger] splits_at(groups, key, place) && added == groups.take(place) + seq![
                    (key, seq![value]),
                ] + groups.skip(place)
        }),
    decreases groups.len(),
{
    let added = insert_pair(groups, key, value);
    let fresh = (key, seq![value]);
    if groups.len() == 0 {
        assert(splits_at(groups, key, 0));
        assert(added =~= groups.take(0) + seq![fresh] + groups.skip(0));
    } else {
        let head = groups[0];
        let rest = groups.drop_first();
        let order = key_order_of(key, head.0);
        assert(order == Order::Equal <==> key == head.0);
        match order {
            Order::Less => {
                assert forall|i: int| 0 <= i < groups.len() implies key_order_of(
                    key,
                    (#[trigger] groups[i]).0,
                ) == Order::Less by {
                    if i > 0 {
                        assert(key_order_of(groups[0].0, groups[i].0) == Order::Less);
                    }
                }
                assert(splits_at(groups, key, 0));
                assert(added =~= groups.take(0) + seq![fresh] + groups.skip(0));
            },
            Order::Equal => {
                assert(key_at(groups, key, 0));
                assert(added =~= groups.update(0, (key, groups[0].1.push(value))));
            },
            Order::Greater => {
                assert forall|i: int, j: int| 0 <= i < j < rest.len() implies key_order_of(
                    (#[trigger] rest[i]).0,
                    (#[trigger] rest[j]).0,
                ) == Order::Less by {
                    assert(rest[i] == groups[i + 1] && rest[j] == groups[j + 1]);
                }
                lemma_insert_shape(rest, key, value);
                let inner = insert_pair(rest, key, value);
                assert(added == seq![head] + inner);
                if exists|at: int|
                    #[trigger] key_at(rest, key, at) && inner == rest.update(
                        at,
                        (key, rest[at].1.push(value)),
                    ) {
                    let at = choose|at: int|
                        #[trigger] key_at(rest, key, at) && inner == rest.update(
                            at,
                            (key, rest[at].1.push(value)),
                        );
                    assert(rest[at] == groups[at + 1]);
                    assert(key_at(groups, key, at + 1));
                    assert(added =~= groups.update(at + 1, (key, groups[at + 1].1.push(value))));
                } else {
                    let place = choose|place: int|
                        #[trigger] splits_at(rest, key, place) && inner == rest.take(place) + seq![
                            fresh,
                        ] + rest.skip(place);
                    assert forall|i: int| 0 <= i < place + 1 implies key_order_of(
                        key,
                        (#[trigger] groups[i]).0,
                    ) == Order::Greater by {
                        if i > 0 {
                            assert(groups[i] == rest[i - 1]);
                        }
                    }
                    assert forall|i: int| place + 1 <= i < groups.len() implies key_order_of(
                        key,
                        (#[trigger] groups[i]).0,
                    ) == Order::Less by {
                        assert(groups[i] == rest[i - 1]);
                    }
                    assert(splits_at(groups, key, place + 1));
                    assert(added =~= groups.take(place + 1) + seq![fresh] + groups.skip(place + 1));
                }
            },
        }
    }
}

/// Pairs whose keys all have a group hold no value for a key that has no group.
proof fn lemma_no_group_no_values<K: Ord, V>(
    groups: Seq<(K, Seq<V>)>,
    pairs: Seq<(K, V)>,
    key: K,
)
    requires
        forall|j: int| 0 <= j < pairs.len() ==> has_key(groups, (#[trigger] pairs[j]).0),
        !has_key(groups, key),
    ensures
        values_of(pairs, key) == Seq::<V>::empty(),
    decreases pairs.len(),
{
    if pairs.len() > 0 {
        let front = pairs.drop_last();
        assert forall|j: int| 0 <= j < front.len() implies has_key(groups, (#[trigger] front[j]).0) by {
            assert(front[j] == pairs[j]);
        }
        lemma_no_group_no_values(groups, front, key);
        assert(has_key(groups, pairs[pairs.len() - 1].0));
    }
}

/// Groups of some pairs, with one more pair added, are the groups of the pairs and the one.
proof fn lemma_insert_keeps_groups<K: Ord, V>(
    groups: Seq<(K, Seq<V>)>,
    pairs: Seq<(K, V)>,
    key: K,
    value: V,
)
    requires
        keys_are_strict::<K>(),
        groups_of(groups, pairs),
    ensures
        groups_of(insert_pair(groups, key, value), pairs.push((key, value))),
{
    let added = insert_pair(groups, key, value);
    let more = pairs.push((key, value));
    assert(more.drop_last() =~= pairs);
    lemma_insert_shape(groups, key, value);
    assert forall|a: K, b: K| key_order_of(a, b) == Order::Less implies a != b by {
        assert(key_order_of(a, b) == Order::Equal <==> a == b);
    }
    assert forall|a: K, b: K| key_order_of(a, b) == Order::Greater implies a != b by {
        assert(key_order_of(a, b) == Order::Equal <==> a == b);
    }
    if exists|at: int|
        #[trigger] key_at(groups, key, at) && added == groups.update(
            at,
            (key, groups[at].1.push(value)),
        ) {
        let at = choose|at: int|
            #[trigger] key_at(groups, key, at) && added == groups.update(
                at,
                (key, groups[at].1.push(value)),
            );
        assert forall|i: int, j: int| 0 <= i < j < added.len() implies key_order_of(
            (#[trigger] added[i]).0,
            (#[trigger] added[j]).0,
        ) == Order::Less by {
            assert(added[i].0 == groups[i].0 && added[j].0 == groups[j].0);
        }
        assert forall|i: int| 0 <= i < added.len() implies (#[trigger] added[i]).1 == values_of(
            more,
            added[i].0,
        ) && added[i].1.len() > 0 by {
            if i != at {
                assert(added[i] == groups[i]);
                if i < at {
                    assert(key_order_of(groups[i].0, groups[at].0) == Order::Less);
                } else {
                    assert(key_order_of(groups[at].0, groups[i].0) == Order::Less);
                }
            }
        }
        assert forall|j: int| 0 <= j < more.len() implies has_key(added, (#[trigger] more[j]).0) by {
            if j < pairs.len() {
                assert(more[j] == pairs[j]);
                let i = choose|i: int| 0 <= i < groups.len() && (#[trigger] groups[i]).0 == pairs[j].0;
                assert(added[i].0 == groups[i].0);
            } else {
                assert(added[at].0 == key);
            }
        }
    } else {
        let place = choose|place: int|
            #[trigger] splits_at(groups, key, place) && added == groups.take(place) + seq![
                (key, seq![value]),
            ] + groups.skip(place);
        assert(!has_key(groups, key)) by {
            if has_key(groups, key) {
                let i = choose|i: int| 0 <= i < groups.len() && (#[trigger] groups[i]).0 == key;
                assert(key_order_of(key, groups[i].0) != Order::Equal);
            }
        }
        lemma_no_group_no_values(groups, pairs, key);
        assert(added.len() == groups.len() + 1);
        assert(added[place] == (key, seq![value]));
        assert forall|i: int| 0 <= i < added.len() && i != place implies (#[trigger] added[i]) == groups[if i
            < place {
            i
        } else {
            i - 1
        }] by {
        }
        assert forall|i: int, j: int| 0 <= i < j < added.len() implies key_order_of(
            (#[trigger] added[i]).0,
            (#[trigger] added[j]).0,
        ) == Order::Less by {
            if i == place {
                assert(added[j] == groups[j - 1]);
                assert(key_order_of(key, groups[j - 1].0) == Order::Less);
            } else if j == place {
                assert(added[i] == groups[i]);
                assert(key_order_of(key, groups[i].0) == Order::Greater);
                assert(key_order_of(groups[i].0, key) == Order::Less <==> key_order_of(
                    key,
                    groups[i].0,
                ) == Order::Greater);
            } else {
                let x = if i < place {
                    i
                } else {
                    i - 1
                };
                let y = if j < place {
                    j
                } else {
                    j - 1
                };
                assert(added[i] == groups[x] && added[j] == groups[y]);
            }
        }
        assert forall|i: int| 0 <= i < added.len() implies (#[trigger] added[i]).1 == values_of(
            more,
            added[i].0,
        ) && added[i].1.len() > 0 by {
            if i == place {
                assert(values_of(more, key) =~= seq![value]);
            } else {
                let x = if i < place {
                    i
                } else {
                    i - 1
                };
                assert(added[i] == groups[x]);
                assert(key_order_of(key, groups[x].0) != Order::Equal);
            }
        }
        assert forall|j: int| 0 <= j < more.len() implies has_key(added, (#[trigger] more[j]).0) by {
            if j < pairs.len() {
                assert(more[j] == pairs[j]);
                let i = choose|i: int| 0 <= i < groups.len() && (#[trigger] groups[i]).0 == pairs[j].0;
                let x = if i < place {
                    i
                } else {
                    i + 1
                };
                assert(added[x] == groups[i]);
            } else {
                assert(added[place].0 == key);
            }
        }
    }
}

/// Grouping gives the groups of the pairs: the keys ascend strictly, every key of a pair
/// has one group and no other key has one, and a group holds the values of its key, all of
/// them, in the order in which they came.
pub proof fn lemma_grouped_are_groups<K: Ord, V>(pairs: Seq<(K, V)>)
    requires
        keys_are_strict::<K>(),
    ensures
        groups_of(grouped(pairs), pairs),
    decreases pairs.len(),
{
    if pairs.len() > 0 {
        let front = pairs.drop_last();
        lemma_grouped_are_groups(front);
        lemma_insert_keeps_groups(grouped(front), front, pairs.last().0, pairs.last().1);
        assert(front.push((pairs.last().0, pairs.last().1)) =~= pairs);
    }
}

} // verus!
