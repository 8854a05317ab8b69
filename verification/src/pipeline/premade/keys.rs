use super::sort::order_for;
use super::sort::Order;
use vstd::prelude::*;
use vstd::std_specs::cmp::OrdSpec;

verus! {

/// The order of keys is the one that their type's comparison is specified to give.
pub open spec fn keys_are_ordered<K: Ord>() -> bool {
    K::obeys_cmp_spec()
}

/// How key `a` stands to key `b`.
pub open spec fn key_order_of<K: Ord>(a: K, b: K) -> Order {
    order_for(a.cmp_spec(&b))
}

/// Compares two keys.
pub(crate) fn key_order<K: Ord>(a: &K, b: &K) -> (order: Order)
    ensures
        keys_are_ordered::<K>() ==> order == key_order_of(*a, *b),
{
    Order::of(a.cmp(b))
}

/// The keys stand in a strict total order: two keys tie only if they are the same key, a
/// pair turned round gets the opposite answer, and the order is transitive.
pub open spec fn keys_are_strict<K: Ord>() -> bool {
    &&& forall|a: K, b: K| (#[trigger] key_order_of(a, b) == Order::Equal) <==> a == b
    &&& forall|a: K, b: K|
        (#[trigger] key_order_of(a, b) == Order::Less) <==> key_order_of(b, a) == Order::Greater
    &&& forall|a: K, b: K, c: K|
        #![trigger key_order_of(a, b), key_order_of(b, c)]
        key_order_of(a, b) == Order::Less && key_order_of(b, c) == Order::Less ==> key_order_of(a, c)
            == Order::Less
}

} // verus!
