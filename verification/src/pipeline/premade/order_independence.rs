use super::keys::key_order_of;
use super::keys::keys_are_strict;
use super::mapreduce::grouped;
use super::mapreduce::insert_pair;
use super::sort::Order;
use vstd::prelude::*;
use vstd::seq_lib::lemma_multiset_commutative;

verus! {

/// Two runs of groups agree: they hold the same keys in the same order, and under every
/// key the same values, each as often.
pub open spec fn groups_agree<K, V>(a: Seq<(K, Seq<V>)>, b: Seq<(K, Seq<V>)>) -> bool {
    &&& a.len() == b.len()
    &&& forall|i: int|
        0 <= i < a.len() ==> (#[trigger] a[i]).0 == b[i].0 && a[i].1.to_multiset()
            == b[i].1.to_multiset()
}

/// Adding one pair to groups that agree gives groups that agree.
proof fn lemma_insert_agrees<K: Ord, V>(a: Seq<(K, Seq<V>)>, b: Seq<(K, Seq<V>)>, key: K, value: V)
    requires
        groups_agree(a, b),
    ensures
        groups_agree(insert_pair(a, key, value), insert_pair(b, key, value)),
    decreases a.len(),
{
    if a.len() > 0 {
        assert(a[0].0 == b[0].0);
        match key_order_of(key, a[0].0) {
            Order::Less => {},
            Order::Equal => {
                a[0].1.to_multiset_ensures();
                b[0].1.to_multiset_ensures();
                let x = insert_pair(a, key, value);
                let y = insert_pair(b, key, value);
                assert forall|i: int| 0 <= i < x.len() implies (#[trigger] x[i]).0 == y[i].0
                    && x[i].1.to_multiset() == y[i].1.to_multiset() by {
                    if i > 0 {
                        assert(x[i] == a[i]);
                        assert(y[i] == b[i]);
                    }
                }
            },
            Order::Greater => {
                assert forall|i: int| 0 <= i < a.drop_first().len() implies (
                #[trigger] a.drop_first()[i]).0 == b.drop_first()[i].0
                    && a.drop_first()[i].1.to_multiset() == b.drop_first()[i].1.to_multiset() by {
                    assert(a.drop_first()[i] == a[i + 1]);
                    assert(b.drop_first()[i] == b[i + 1]);
                }
                lemma_insert_agrees(a.drop_first(), b.drop_first(), key, value);
                let x = insert_pair(a, key, value);
                let y = insert_pair(b, key, value);
                let xs = insert_pair(a.drop_first(), key, value);
                let ys = insert_pair(b.drop_first(), key, value);
                assert forall|i: int| 0 <= i < x.len() implies (#[trigger] x[i]).0 == y[i].0
                    && x[i].1.to_multiset() == y[i].1.to_multiset() by {
                    if i > 0 {
                        assert(x[i] == xs[i - 1]);
                        assert(y[i] == ys[i - 1]);
                    }
                }
            },
        }
    }
}

/// The order in which two pairs are added makes no difference to the groups, but for the
/// order of two values under one key.
proof fn lemma_insert_commutes<K: Ord, V>(g: Seq<(K, Seq<V>)>, k1: K, v1: V, k2: K, v2: V)
    requires
        keys_are_strict::<K>(),
    ensures
        groups_agree(
            insert_pair(insert_pair(g, k1, v1), k2, v2),
            insert_pair(insert_pair(g, k2, v2), k1, v1),
        ),
    decreases g.len(),
{
    let first = insert_pair(g, k1, v1);
    let second = insert_pair(g, k2, v2);
    let x = insert_pair(first, k2, v2);
    let y = insert_pair(second, k1, v1);
    let o12 = key_order_of(k1, k2);
    let o21 = key_order_of(k2, k1);
    assert(o12 == Order::Equal <==> k1 == k2);
    assert(o21 == Order::Equal <==> k2 == k1);
    assert(o12 == Order::Less <==> o21 == Order::Greater);
    assert(o21 == Order::Less <==> o12 == Order::Greater);
    if g.len() == 0 {
        assert(first =~= seq![(k1, seq![v1])]);
        assert(second =~= seq![(k2, seq![v2])]);
        if k1 == k2 {
            assert(x =~= seq![(k1, seq![v1].push(v2))]);
            assert(y =~= seq![(k2, seq![v2].push(v1))]);
            lemma_two_values_commute(Seq::empty(), v1, v2);
        } else if o12 == Order::Less {
            assert(first.drop_first() =~= Seq::<(K, Seq<V>)>::empty());
            assert(insert_pair(first.drop_first(), k2, v2) =~= seq![(k2, seq![v2])]);
            assert(x =~= seq![(k1, seq![v1]), (k2, seq![v2])]);
            assert(y =~= seq![(k1, seq![v1]), (k2, seq![v2])]);
        } else {
            assert(second.drop_first() =~= Seq::<(K, Seq<V>)>::empty());
            assert(insert_pair(second.drop_first(), k1, v1) =~= seq![(k1, seq![v1])]);
            assert(x =~= seq![(k2, seq![v2]), (k1, seq![v1])]);
            assert(y =~= seq![(k2, seq![v2]), (k1, seq![v1])]);
        }
    } else {
        let h = g[0];
        let rest = g.drop_first();
        let o1 = key_order_of(k1, h.0);
        let o2 = key_order_of(k2, h.0);
        assert(o1 == Order::Equal <==> k1 == h.0);
        assert(o2 == Order::Equal <==> k2 == h.0);
        assert(key_order_of(h.0, k1) == Order::Less <==> o1 == Order::Greater);
        assert(key_order_of(h.0, k2) == Order::Less <==> o2 == Order::Greater);
        assert(key_order_of(h.0, k1) == Order::Greater <==> o1 == Order::Less);
        assert(key_order_of(h.0, k2) == Order::Greater <==> o2 == Order::Less);
        if o1 == Order::Greater && o2 == Order::Greater {
            lemma_insert_commutes(rest, k1, v1, k2, v2);
            let xs = insert_pair(insert_pair(rest, k1, v1), k2, v2);
            let ys = insert_pair(insert_pair(rest, k2, v2), k1, v1);
            assert(first =~= seq![h] + insert_pair(rest, k1, v1));
            assert(second =~= seq![h] + insert_pair(rest, k2, v2));
            assert(first.drop_first() =~= insert_pair(rest, k1, v1));
            assert(second.drop_first() =~= insert_pair(rest, k2, v2));
            assert(x =~= seq![h] + xs);
            assert(y =~= seq![h] + ys);
            assert forall|i: int| 0 <= i < x.len() implies (#[trigger] x[i]).0 == y[i].0
                && x[i].1.to_multiset() == y[i].1.to_multiset() by {
                if i > 0 {
                    assert(x[i] == xs[i - 1]);
                    assert(y[i] == ys[i - 1]);
                }
            }
        } else if o1 == Order::Equal && o2 == Order::Equal {
            assert(first =~= seq![(h.0, h.1.push(v1))] + rest);
            assert(second =~= seq![(h.0, h.1.push(v2))] + rest);
            assert(first.drop_first() =~= rest);
            assert(second.drop_first() =~= rest);
            assert(x =~= seq![(h.0, h.1.push(v1).push(v2))] + rest);
            assert(y =~= seq![(h.0, h.1.push(v2).push(v1))] + rest);
            lemma_two_values_commute(h.1, v1, v2);
        } else if o1 == Order::Equal {
            // the first key is the head's, the second is not
            assert(first =~= seq![(h.0, h.1.push(v1))] + rest);
            assert(first.drop_first() =~= rest);
            if o2 == Order::Less {
                assert(second =~= seq![(k2, seq![v2])] + g);
                assert(second.drop_first() =~= g);
                assert(x =~= seq![(k2, seq![v2])] + first);
                assert(y =~= seq![(k2, seq![v2])] + first);
            } else {
                assert(second =~= seq![h] + insert_pair(rest, k2, v2));
                assert(second.drop_first() =~= insert_pair(rest, k2, v2));
                assert(x =~= seq![(h.0, h.1.push(v1))] + insert_pair(rest, k2, v2));
                assert(y =~= seq![(h.0, h.1.push(v1))] + insert_pair(rest, k2, v2));
            }
        } else if o2 == Order::Equal {
            assert(second =~= seq![(h.0, h.1.push(v2))] + rest);
            assert(second.drop_first() =~= rest);
            if o1 == Order::Less {
                assert(first =~= seq![(k1, seq![v1])] + g);
                assert(first.drop_first() =~= g);
                assert(x =~= seq![(k1, seq![v1])] + second);
                assert(y =~= seq![(k1, seq![v1])] + second);
            } else {
                assert(first =~= seq![h] + insert_pair(rest, k1, v1));
                assert(first.drop_first() =~= insert_pair(rest, k1, v1));
                assert(x =~= seq![(h.0, h.1.push(v2))] + insert_pair(rest, k1, v1));
                assert(y =~= seq![(h.0, h.1.push(v2))] + insert_pair(rest, k1, v1));
            }
        } else if o1 == Order::Less && o2 == Order::Less {
            assert(first =~= seq![(k1, seq![v1])] + g);
            assert(second =~= seq![(k2, seq![v2])] + g);
            assert(first.drop_first() =~= g);
            assert(second.drop_first() =~= g);
            if k1 == k2 {
                assert(x =~= seq![(k1, seq![v1].push(v2))] + g);
                assert(y =~= seq![(k2, seq![v2].push(v1))] + g);
                lemma_two_values_commute(Seq::empty(), v1, v2);
            } else if o12 == Order::Less {
                assert(x =~= seq![(k1, seq![v1])] + second);
                assert(y =~= seq![(k1, seq![v1])] + second);
            } else {
                assert(x =~= seq![(k2, seq![v2])] + first);
                assert(y =~= seq![(k2, seq![v2])] + first);
            }
        } else if o1 == Order::Less {
            // the first key stands before the head, the second after it
            assert(key_order_of(k1, k2) == Order::Less);
            assert(first =~= seq![(k1, seq![v1])] + g);
            assert(first.drop_first() =~= g);
            assert(second =~= seq![h] + insert_pair(rest, k2, v2));
            assert(x =~= seq![(k1, seq![v1])] + second);
            assert(y =~= seq![(k1, seq![v1])] + second);
        } else {
            // the second key stands before the head, the first after it
            assert(key_order_of(k2, k1) == Order::Less);
            assert(second =~= seq![(k2, seq![v2])] + g);
            assert(second.drop_first() =~= g);
            assert(first =~= seq![h] + insert_pair(rest, k1, v1));
            assert(x =~= seq![(k2, seq![v2])] + first);
            assert(y =~= seq![(k2, seq![v2])] + first);
        }
    }
}

/// Two values added in either order give the same values, each as often.
proof fn lemma_two_values_commute<V>(values: Seq<V>, v1: V, v2: V)
    ensures
        values.push(v1).push(v2).to_multiset() == values.push(v2).push(v1).to_multiset(),
{
    values.to_multiset_ensures();
    values.push(v1).to_multiset_ensures();
    values.push(v2).to_multiset_ensures();
    assert(values.to_multiset().insert(v1).insert(v2) =~= values.to_multiset().insert(v2).insert(
        v1,
    ));
}

/// A pair put in anywhere among the pairs gives the groups that it gives when added last,
/// but for the order of values under one key.
proof fn lemma_grouped_insert<K: Ord, V>(pairs: Seq<(K, V)>, at: int, pair: (K, V))
    requires
        keys_are_strict::<K>(),
        0 <= at <= pairs.len(),
    ensures
        groups_agree(grouped(pairs.insert(at, pair)), insert_pair(grouped(pairs), pair.0, pair.1)),
    decreases pairs.len() - at,
{
    if at == pairs.len() {
        assert(pairs.insert(at, pair) =~= pairs.push(pair));
        assert(pairs.push(pair).drop_last() =~= pairs);
    } else {
        let last = pairs.last();
        let front = pairs.drop_last();
        let wide = pairs.insert(at, pair);
        assert(wide.drop_last() =~= front.insert(at, pair));
        assert(wide.last() == last);
        lemma_grouped_insert(front, at, pair);
        // grouped(wide) = insert(grouped(front.insert(at, pair)), last)
        lemma_insert_agrees(
            grouped(front.insert(at, pair)),
            insert_pair(grouped(front), pair.0, pair.1),
            last.0,
            last.1,
        );
        lemma_insert_commutes(grouped(front), pair.0, pair.1, last.0, last.1);
        lemma_agree_is_transitive(
            grouped(wide),
            insert_pair(insert_pair(grouped(front), pair.0, pair.1), last.0, last.1),
            insert_pair(grouped(pairs), pair.0, pair.1),
        );
    }
}

/// Agreement passes on.
proof fn lemma_agree_is_transitive<K, V>(
    a: Seq<(K, Seq<V>)>,
    b: Seq<(K, Seq<V>)>,
    c: Seq<(K, Seq<V>)>,
)
    requires
        groups_agree(a, b),
        groups_agree(b, c),
    ensures
        groups_agree(a, c),
{
    assert forall|i: int| 0 <= i < a.len() implies (#[trigger] a[i]).0 == c[i].0
        && a[i].1.to_multiset() == c[i].1.to_multiset() by {
        assert(a[i].0 == b[i].0);
        assert(b[i].0 == c[i].0);
    }
}

/// Grouping does not depend on the order in which the pairs come: two rearrangements of
/// the same pairs give the same keys in the same order, with the same values under each
/// key, each as often. Only the order of the values under a key follows the pairs.
pub proof fn lemma_grouping_is_order_independent<K: Ord, V>(a: Seq<(K, V)>, b: Seq<(K, V)>)
    requires
        keys_are_strict::<K>(),
        a.to_multiset() == b.to_multiset(),
    ensures
        groups_agree(grouped(a), grouped(b)),
    decreases a.len(),
{
    a.to_multiset_ensures();
    b.to_multiset_ensures();
    if a.len() == 0 {
        assert(b.len() == 0);
    } else {
        let pair = a.last();
        let front = a.drop_last();
        assert(a.contains(pair));
        assert(a.to_multiset().count(pair) > 0);
        assert(b.to_multiset().count(pair) > 0);
        assert(b.contains(pair));
        let at = choose|at: int| 0 <= at < b.len() && b[at] == pair;
        let others = b.remove(at);
        assert(others.insert(at, pair) =~= b);
        assert(a.remove(a.len() - 1) =~= front);
        assert(front.to_multiset() =~= a.to_multiset().remove(pair));
        assert(others.to_multiset() =~= b.to_multiset().remove(pair));
        lemma_grouping_is_order_independent(front, others);
        lemma_insert_agrees(grouped(front), grouped(others), pair.0, pair.1);
        lemma_grouped_insert(others, at, pair);
        let middle = insert_pair(grouped(others), pair.0, pair.1);
        assert(groups_agree(grouped(b), middle));
        assert forall|i: int| 0 <= i < middle.len() implies (#[trigger] middle[i]).0 == grouped(
            b,
        )[i].0 && middle[i].1.to_multiset() == grouped(b)[i].1.to_multiset() by {
            assert(grouped(b)[i].0 == middle[i].0);
        }
        lemma_agree_is_transitive(grouped(a), middle, grouped(b));
    }
}

/// What the function `map` emits for the items of `input`, one item after the other.
pub open spec fn flat_pairs<I, P>(map: spec_fn(I) -> Seq<P>, input: Seq<I>) -> Seq<P> {
    input.map_values(map).flatten()
}

/// What the reduction function `reduce` gives for `groups`, one group after the other.
pub open spec fn reduced<K, V, O>(
    reduce: spec_fn(K, Seq<V>) -> Seq<O>,
    groups: Seq<(K, Seq<V>)>,
) -> Seq<O> {
    groups.map_values(|g: (K, Seq<V>)| reduce(g.0, g.1)).flatten()
}

/// What group-reduce gives for `input` where the two functions are functions in the
/// mathematical sense.
pub open spec fn group_reduce<I, K: Ord, V, O>(
    map: spec_fn(I) -> Seq<(K, V)>,
    reduce: spec_fn(K, Seq<V>) -> Seq<O>,
    input: Seq<I>,
) -> Seq<O> {
    reduced(reduce, grouped(flat_pairs(map, input)))
}

/// `reduce` does not look at the order of the values of a group.
pub open spec fn ignores_order<K, V, O>(reduce: spec_fn(K, Seq<V>) -> Seq<O>) -> bool {
    forall|key: K, a: Seq<V>, b: Seq<V>|
        a.to_multiset() == b.to_multiset() ==> #[trigger] reduce(key, a) == #[trigger] reduce(key, b)
}

/// What is emitted for the items with one more item put in anywhere is, each as often,
/// what is emitted for the items and what is emitted for the one.
proof fn lemma_flat_pairs_insert<I, P>(
    map: spec_fn(I) -> Seq<P>,
    input: Seq<I>,
    at: int,
    item: I,
)
    requires
        0 <= at <= input.len(),
    ensures
        flat_pairs(map, input.insert(at, item)).to_multiset() == flat_pairs(
            map,
            input,
        ).to_multiset().add(map(item).to_multiset()),
{
    let before = input.take(at);
    let after = input.skip(at);
    let wide = input.insert(at, item);
    assert(input =~= before + after);
    assert(wide =~= before + seq![item] + after);
    let mb = before.map_values(map);
    let ma = after.map_values(map);
    assert(input.map_values(map) =~= mb + ma);
    assert(wide.map_values(map) =~= mb + seq![map(item)] + ma);
    vstd::seq_lib::lemma_flatten_concat(mb, ma);
    vstd::seq_lib::lemma_flatten_concat(mb + seq![map(item)], ma);
    vstd::seq_lib::lemma_flatten_concat(mb, seq![map(item)]);
    seq![map(item)].lemma_flatten_one_element();
    lemma_multiset_commutative(mb.flatten(), ma.flatten());
    lemma_multiset_commutative(mb.flatten() + map(item), ma.flatten());
    lemma_multiset_commutative(mb.flatten(), map(item));
    assert(flat_pairs(map, wide) =~= mb.flatten() + map(item) + ma.flatten());
    assert(flat_pairs(map, input) =~= mb.flatten() + ma.flatten());
    assert(mb.flatten().to_multiset().add(map(item).to_multiset()).add(ma.flatten().to_multiset())
        =~= mb.flatten().to_multiset().add(ma.flatten().to_multiset()).add(
        map(item).to_multiset(),
    ));
}

/// Rearranged items emit the same, rearranged.
pub proof fn lemma_flat_pairs_rearranged<I, P>(
    map: spec_fn(I) -> Seq<P>,
    a: Seq<I>,
    b: Seq<I>,
)
    requires
        a.to_multiset() == b.to_multiset(),
    ensures
        flat_pairs(map, a).to_multiset() == flat_pairs(map, b).to_multiset(),
    decreases a.len(),
{
    a.to_multiset_ensures();
    b.to_multiset_ensures();
    if a.len() == 0 {
        assert(b.len() == 0);
        assert(a =~= b);
    } else {
        let item = a.last();
        let front = a.drop_last();
        assert(a.contains(item));
        assert(a.to_multiset().count(item) > 0);
        assert(b.to_multiset().count(item) > 0);
        assert(b.contains(item));
        let at = choose|at: int| 0 <= at < b.len() && b[at] == item;
        let others = b.remove(at);
        assert(others.insert(at, item) =~= b);
        assert(front.insert(front.len() as int, item) =~= a);
        assert(a.remove(a.len() - 1) =~= front);
        assert(front.to_multiset() =~= a.to_multiset().remove(item));
        assert(others.to_multiset() =~= b.to_multiset().remove(item));
        lemma_flat_pairs_rearranged(map, front, others);
        lemma_flat_pairs_insert(map, front, front.len() as int, item);
        lemma_flat_pairs_insert(map, others, at, item);
    }
}

/// Rearranged items are, each put through `f`, rearranged results.
pub proof fn lemma_mapped_rearranged<A, B>(f: spec_fn(A) -> B, a: Seq<A>, b: Seq<A>)
    requires
        a.to_multiset() == b.to_multiset(),
    ensures
        a.map_values(f).to_multiset() == b.map_values(f).to_multiset(),
    decreases a.len(),
{
    a.to_multiset_ensures();
    b.to_multiset_ensures();
    if a.len() == 0 {
        assert(b.len() == 0);
        assert(a.map_values(f) =~= b.map_values(f));
    } else {
        let last = a.last();
        let front = a.drop_last();
        assert(a.contains(last));
        assert(a.to_multiset().count(last) > 0);
        assert(b.to_multiset().count(last) > 0);
        assert(b.contains(last));
        let at = choose|at: int| 0 <= at < b.len() && b[at] == last;
        let others = b.remove(at);
        assert(a.remove(a.len() - 1) =~= front);
        assert(front.to_multiset() =~= a.to_multiset().remove(last));
        assert(others.to_multiset() =~= b.to_multiset().remove(last));
        lemma_mapped_rearranged(f, front, others);
        front.map_values(f).to_multiset_ensures();
        b.map_values(f).to_multiset_ensures();
        assert(a.map_values(f) =~= front.map_values(f).push(f(last)));
        assert(others.map_values(f) =~= b.map_values(f).remove(at));
        assert(b.map_values(f)[at] == f(last));
        assert(b.map_values(f).to_multiset() =~= others.map_values(f).to_multiset().insert(f(last)));
    }
}

/// Group-reduce is deterministic in the items and not in their order: for two
/// rearrangements of the same items it gives the same output, item for item, provided the
/// keys stand in a strict total order and the reduction does not look at the order of a
/// group's values.
pub proof fn lemma_group_reduce_is_order_independent<I, K: Ord, V, O>(
    map: spec_fn(I) -> Seq<(K, V)>,
    reduce: spec_fn(K, Seq<V>) -> Seq<O>,
    a: Seq<I>,
    b: Seq<I>,
)
    requires
        keys_are_strict::<K>(),
        ignores_order(reduce),
        a.to_multiset() == b.to_multiset(),
    ensures
        group_reduce(map, reduce, a) == group_reduce(map, reduce, b),
{
    lemma_flat_pairs_rearranged(map, a, b);
    let ga = grouped(flat_pairs(map, a));
    let gb = grouped(flat_pairs(map, b));
    lemma_grouping_is_order_independent(flat_pairs(map, a), flat_pairs(map, b));
    let f = |g: (K, Seq<V>)| reduce(g.0, g.1);
    assert forall|i: int| 0 <= i < ga.len() implies ga.map_values(f)[i] == gb.map_values(f)[i] by {
        assert(ga[i].0 == gb[i].0);
        assert(ga[i].1.to_multiset() == gb[i].1.to_multiset());
    }
    assert(ga.map_values(f) =~= gb.map_values(f));
}

} // verus!
