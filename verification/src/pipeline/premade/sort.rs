use crate::pipeline::Node;
use std::cmp::Ordering;
use std::marker::PhantomData;
use vstd::prelude::*;

verus! {

/// How one item stands to another in an order.
#[derive(Clone, Copy, Debug, PartialEq, Eq, Structural)]
pub enum Order {
    Less,
    Equal,
    Greater,
}

/// The `Order` that says what `ordering` says.
pub open spec fn order_for(ordering: Ordering) -> Order {
    match ordering {
        Ordering::Less => Order::Less,
        Ordering::Equal => Order::Equal,
        Ordering::Greater => Order::Greater,
    }
}

impl Order {
    /// The answer of a standard comparison, as an `Order`.
    pub fn of(ordering: Ordering) -> (order: Order)
        ensures
            order == order_for(ordering),
    {
        match ordering {
            Ordering::Less => Order::Less,
            Ordering::Equal => Order::Equal,
            Ordering::Greater => Order::Greater,
        }
    }

    /// This answer as one of a standard comparison.
    pub fn ordering(self) -> (ordering: Ordering)
        ensures
            order_for(ordering) == self,
    {
        match self {
            Order::Less => Ordering::Less,
            Order::Equal => Ordering::Equal,
            Order::Greater => Ordering::Greater,
        }
    }
}

/// What `compare` answers for `a` against `b`.
pub open spec fn order_of<T, F: Fn(&T, &T) -> Order>(compare: F, a: T, b: T) -> Order {
    choose|order: Order| compare.ensures((&a, &b), order)
}

/// `compare` is a total order on `T` in which items may tie: it takes every two items,
/// answers each pair with one value only, answers a pair turned round with the opposite,
/// and is transitive.
pub open spec fn is_total_order<T, F: Fn(&T, &T) -> Order>(compare: F) -> bool {
    &&& forall|a: T, b: T| #[trigger] compare.requires((&a, &b))
    &&& forall|a: T, b: T, order: Order| #[trigger]
        compare.ensures((&a, &b), order) ==> order == order_of(compare, a, b)
    &&& forall|a: T, b: T|
        (#[trigger] order_of(compare, a, b) == Order::Less) <==> order_of(compare, b, a)
            == Order::Greater
    &&& forall|a: T, b: T, c: T|
        #![trigger order_of(compare, a, b), order_of(compare, b, c)]
        order_of(compare, a, b) != Order::Greater && order_of(compare, b, c) != Order::Greater
            ==> order_of(compare, a, c) != Order::Greater
}

/// No item of `items` stands before one that `compare` puts ahead of it.
pub open spec fn is_sorted<T, F: Fn(&T, &T) -> Order>(compare: F, items: Seq<T>) -> bool {
    forall|i: int, j: int|
        0 <= i < j < items.len() ==> order_of(compare, #[trigger] items[i], #[trigger] items[j])
            != Order::Greater
}

/// The items of `items` that tie with `pivot`, in their order.
pub open spec fn ties_with<T, F: Fn(&T, &T) -> Order>(compare: F, items: Seq<T>, pivot: T) -> Seq<
    T,
> {
    items.filter(|item: T| order_of(compare, pivot, item) == Order::Equal)
}

/// `sorted` is `items` in the order of `compare`, with items that tie left in the order in
/// which they came.
pub open spec fn stably_sorted<T, F: Fn(&T, &T) -> Order>(
    compare: F,
    items: Seq<T>,
    sorted: Seq<T>,
) -> bool {
    &&& sorted.to_multiset() == items.to_multiset()
    &&& is_sorted(compare, sorted)
    &&& forall|pivot: T| #[trigger]
        ties_with(compare, sorted, pivot) == ties_with(compare, items, pivot)
}

/// One call of `compare`, answered as a standard comparison.
fn compare_with<T, F: Fn(&T, &T) -> Order>(compare: &F, a: &T, b: &T) -> (ordering: Ordering)
    requires
        compare.requires((a, b)),
    ensures
        compare.ensures((a, b), order_for(ordering)),
{
    compare(a, b).ordering()
}

/// Sorts `items` in place by `compare`, without moving items that tie past each other.
///
/// Trusted: `sort_by` on slices of the standard library, a stable sort. It may panic where
/// the comparison is no total order, so a total order is asked for.
#[verifier::external_body]
fn sort_by_order<T, F: Fn(&T, &T) -> Order>(items: &mut Vec<T>, compare: &F)
    requires
        is_total_order::<T, F>(*compare),
    ensures
        stably_sorted(*compare, old(items)@, final(items)@),
{
    items.sort_by(|a, b| compare_with(compare, a, b));
}

/// A stage that sorts each batch by a comparison that the caller supplies.
#[verifier::reject_recursive_types(T)]
pub struct Sort<T, F: Fn(&T, &T) -> Order> {
    _phantom: PhantomData<T>,
    sort_fn: F,
}

impl<T, F: Fn(&T, &T) -> Order> Sort<T, F> {
    /// The comparison that the stage sorts by.
    pub closed spec fn comparison(&self) -> F {
        self.sort_fn
    }

    pub fn new(sort_fn: F) -> (sort: Self)
        ensures
            sort.comparison() == sort_fn,
    {
        Sort { _phantom: PhantomData, sort_fn }
    }
}

impl<T, F: Clone + Fn(&T, &T) -> Order> Clone for Sort<T, F> {
    /// A stage with a copy of the comparison.
    fn clone(&self) -> (copy: Self)
        ensures
            cloned(self.comparison(), copy.comparison()),
    {
        Self { _phantom: PhantomData, sort_fn: self.sort_fn.clone() }
    }
}

impl<T, F: Fn(&T, &T) -> Order> Node<Vec<T>> for Sort<T, F> {
    type Output = Vec<T>;

    open spec fn inv(&self) -> bool {
        is_total_order::<T, F>(self.comparison())
    }

    open spec fn accepts(&self, input: Vec<T>) -> bool {
        true
    }

    open spec fn produces(&self, input: Vec<T>, post: Self, output: Vec<T>) -> bool {
        &&& post.comparison() == self.comparison()
        &&& stably_sorted(self.comparison(), input@, output@)
    }

    open spec fn resets_to(&self, post: Self) -> bool {
        post.comparison() == self.comparison()
    }

    open spec fn remaining(&self, before: usize) -> usize {
        before
    }

    open spec fn epoch_size(&self, before: usize) -> usize {
        before
    }

    fn process(&mut self, input: Vec<T>) -> (output: Vec<T>) {
        let mut input = input;
        sort_by_order(&mut input, &self.sort_fn);
        input
    }

    fn reset(&mut self) {
    }

    fn data_remaining(&self, before: usize) -> (after: usize) {
        before
    }
}

} // verus!
