use crate::pipeline::Node;
use std::marker::PhantomData;
use vstd::prelude::*;

verus! {

/// `s` cut into consecutive chunks of `size` items; a shorter chunk ends the result when
/// `size` does not divide the length.
pub open spec fn chunks<T>(s: Seq<T>, size: nat) -> Seq<Seq<T>>
    decreases s.len(),
{
    if s.len() == 0 || size == 0 {
        Seq::empty()
    } else if s.len() <= size {
        seq![s]
    } else {
        seq![s.take(size as int)] + chunks(s.skip(size as int), size)
    }
}

/// `s` cut into consecutive chunks of exactly `size` items; what is left over at the end,
/// fewer than `size` items, is dropped.
pub open spec fn whole_chunks<T>(s: Seq<T>, size: nat) -> Seq<Seq<T>>
    decreases s.len(),
{
    if size == 0 || s.len() < size {
        Seq::empty()
    } else {
        seq![s.take(size as int)] + whole_chunks(s.skip(size as int), size)
    }
}

/// The views of the vectors in `batches`, in order.
pub open spec fn batch_views<T>(batches: Seq<Vec<T>>) -> Seq<Seq<T>> {
    batches.map_values(|b: Vec<T>| b@)
}

/// The views of the arrays in `batches`, in order.
pub open spec fn array_views<const B: usize, T>(batches: Seq<[T; B]>) -> Seq<Seq<T>> {
    batches.map_values(|b: [T; B]| b@)
}

/// Cutting `m` items into chunks of `size` gives `ceil(m / size)` chunks. All but the last
/// hold `size` items; the last holds `m mod size`, or `size` where that is zero.
pub proof fn lemma_chunks_arity<T>(s: Seq<T>, size: nat)
    requires
        size > 0,
    ensures
        chunks(s, size).len() == (s.len() + size - 1) / (size as int),
        forall|i: int| 0 <= i < chunks(s, size).len() - 1 ==> (#[trigger] chunks(s, size)[i]).len()
            == size,
        s.len() > 0 ==> chunks(s, size).last().len() == if s.len() % size == 0 {
            size
        } else {
            s.len() % size
        },
    decreases s.len(),
{
    let n = s.len() as int;
    let b = size as int;
    if s.len() == 0 {
        assert((0 + b - 1) / b == 0) by (nonlinear_arith)
            requires
                b > 0,
        ;
    } else if s.len() <= size {
        assert((n + b - 1) / b == 1) by (nonlinear_arith)
            requires
                0 < n <= b,
        ;
        assert(n % b == if n == b {
            0
        } else {
            n
        }) by (nonlinear_arith)
            requires
                0 < n <= b,
        ;
    } else {
        let rest = s.skip(b);
        lemma_chunks_arity(rest, size);
        let tail = chunks(rest, size);
        let all = chunks(s, size);
        assert(all == seq![s.take(b)] + tail);
        assert(rest.len() == n - b);
        assert((n + b - 1) / b == (n - b + b - 1) / b + 1) by (nonlinear_arith)
            requires
                b > 0,
                n > b,
        ;
        assert((n - b) % b == n % b) by (nonlinear_arith)
            requires
                b > 0,
                n > b,
        ;
        assert(tail.len() >= 1) by (nonlinear_arith)
            requires
                tail.len() == (n - b + b - 1) / b,
                b > 0,
                n > b,
        ;
        assert forall|i: int| 0 <= i < all.len() - 1 implies (#[trigger] all[i]).len() == size by {
            if i > 0 {
                assert(all[i] == tail[i - 1]);
            }
        }
        assert(all.last() == tail.last());
    }
}

/// Cutting `m` items into whole chunks of `size` gives `floor(m / size)` chunks of `size`
/// items each: the `m mod size` items at the end are in none of them.
pub proof fn lemma_whole_chunks_arity<T>(s: Seq<T>, size: nat)
    requires
        size > 0,
    ensures
        whole_chunks(s, size).len() == s.len() / size,
        forall|i: int| 0 <= i < whole_chunks(s, size).len() ==> (#[trigger] whole_chunks(
            s,
            size,
        )[i]).len() == size,
        whole_chunks(s, size).flatten() == s.take(s.len() - s.len() % size),
    decreases s.len(),
{
    let n = s.len() as int;
    let b = size as int;
    if s.len() < size {
        assert(n / b == 0 && n % b == n) by (nonlinear_arith)
            requires
                0 <= n < b,
        ;
        assert(s.take(0) =~= Seq::<T>::empty());
        assert(Seq::<Seq<T>>::empty().flatten() =~= Seq::<T>::empty());
    } else {
        let rest = s.skip(b);
        lemma_whole_chunks_arity(rest, size);
        let tail = whole_chunks(rest, size);
        let all = whole_chunks(s, size);
        assert(all == seq![s.take(b)] + tail);
        assert(n / b == (n - b) / b + 1 && (n - b) % b == n % b) by (nonlinear_arith)
            requires
                b > 0,
                n >= b,
        ;
        assert forall|i: int| 0 <= i < all.len() implies (#[trigger] all[i]).len() == size by {
            if i > 0 {
                assert(all[i] == tail[i - 1]);
            }
        }
        assert(all.drop_first() =~= tail);
        assert(all.flatten() == s.take(b) + tail.flatten());
        let r = n % b;
        assert(0 <= r < b && n - r >= b) by (nonlinear_arith)
            requires
                b > 0,
                n >= b,
                r == n % b,
        ;
        assert(rest.len() - rest.len() % size == n - b - r);
        assert(s.take(b) + rest.take(n - b - r) =~= s.take(n - r));
    }
}

/// A stage that groups a flat sequence into batches of at most `batch_size` items.
#[verifier::reject_recursive_types(T)]
pub struct Batch<T> {
    _phantom: PhantomData<T>,
    batch_size: usize,
}

impl<T> Batch<T> {
    /// The number of items in a full batch.
    pub closed spec fn size(&self) -> usize {
        self.batch_size
    }

    pub fn new(batch_size: usize) -> (batch: Self)
        ensures
            batch.size() == batch_size,
    {
        Batch { _phantom: PhantomData, batch_size }
    }
}

impl<T> Node<Vec<T>> for Batch<T> {
    type Output = Vec<Vec<T>>;

    open spec fn inv(&self) -> bool {
        self.size() > 0
    }

    open spec fn accepts(&self, input: Vec<T>) -> bool {
        true
    }

    open spec fn produces(&self, input: Vec<T>, post: Self, output: Vec<Vec<T>>) -> bool {
        &&& post == *self
        &&& batch_views(output@) == chunks(input@, self.size() as nat)
    }

    open spec fn resets_to(&self, post: Self) -> bool {
        post == *self
    }

    /// A short batch at the end is not counted before the items for a full one are there.
    open spec fn remaining(&self, before: usize) -> usize {
        (before / self.size()) as usize
    }

    open spec fn epoch_size(&self, before: usize) -> usize {
        (before / self.size()) as usize
    }

    fn process(&mut self, input: Vec<T>) -> (output: Vec<Vec<T>>) {
        let ghost whole = input@;
        let ghost size = self.batch_size as nat;
        let mut batches: Vec<Vec<T>> = Vec::new();
        let mut rest = input;
        assert(batch_views(batches@) =~= Seq::<Seq<T>>::empty());
        while rest.len() > 0
            invariant
                size == self.batch_size,
                size > 0,
                batch_views(batches@) + chunks(rest@, size) == chunks(whole, size),
            decreases rest.len(),
        {
            let ghost before = batches@;
            let ghost pending = rest@;
            let take = if self.batch_size <= rest.len() {
                self.batch_size
            } else {
                rest.len()
            };
            let tail = rest.split_off(take);
            proof {
                assert(rest@ == pending.take(take as int));
                assert(tail@ == pending.skip(take as int));
                if pending.len() <= size {
                    assert(rest@ =~= pending);
                    assert(chunks(tail@, size) =~= Seq::<Seq<T>>::empty());
                }
                assert(chunks(pending, size) =~= seq![rest@] + chunks(tail@, size));
            }
            batches.push(rest);
            rest = tail;
            assert(batch_views(batches@) =~= batch_views(before) + seq![pending.take(take as int)]);
        }
        assert(chunks(rest@, size) =~= Seq::<Seq<T>>::empty());
        batches
    }

    fn reset(&mut self) {
    }

    fn data_remaining(&self, before: usize) -> (after: usize) {
        before / self.batch_size
    }
}

/// Turns a vector of exactly `B` items into an array of them, in the same order.
///
/// Trusted: this is `Vec`'s `TryInto<[T; B]>` of the standard library, which succeeds
/// exactly when the vector holds `B` items and then moves them over unchanged.
#[verifier::external_body]
fn into_array<const B: usize, T>(items: Vec<T>) -> (array: [T; B])
    requires
        items.len() == B,
    ensures
        array@ == items@,
{
    let converted: Result<[T; B], Vec<T>> = items.try_into();
    converted.ok().unwrap()
}

/// A stage that groups a flat sequence into arrays of exactly `B` items. Items at the end
/// that do not fill an array are dropped.
#[verifier::reject_recursive_types(T)]
pub struct ArrayBatch<const B: usize, T> {
    _phantom: PhantomData<T>,
}

impl<const B: usize, T> Default for ArrayBatch<B, T> {
    fn default() -> Self {
        Self { _phantom: PhantomData }
    }
}

impl<const B: usize, T> Node<Vec<T>> for ArrayBatch<B, T> {
    type Output = Vec<[T; B]>;

    open spec fn inv(&self) -> bool {
        B > 0
    }

    open spec fn accepts(&self, input: Vec<T>) -> bool {
        true
    }

    open spec fn produces(&self, input: Vec<T>, post: Self, output: Vec<[T; B]>) -> bool {
        array_views(output@) == whole_chunks(input@, B as nat)
    }

    open spec fn resets_to(&self, post: Self) -> bool {
        true
    }

    open spec fn remaining(&self, before: usize) -> usize {
        (before / B) as usize
    }

    open spec fn epoch_size(&self, before: usize) -> usize {
        (before / B) as usize
    }

    fn process(&mut self, input: Vec<T>) -> (output: Vec<[T; B]>) {
        let ghost whole = input@;
        let mut batches: Vec<[T; B]> = Vec::new();
        let mut rest = input;
        assert(array_views(batches@) =~= Seq::<Seq<T>>::empty());
        while rest.len() >= B
            invariant
                B > 0,
                array_views(batches@) + whole_chunks(rest@, B as nat) == whole_chunks(
                    whole,
                    B as nat,
                ),
            decreases rest.len(),
        {
            let ghost before = batches@;
            let ghost pending = rest@;
            let tail = rest.split_off(B);
            assert(whole_chunks(pending, B as nat) =~= seq![rest@] + whole_chunks(tail@, B as nat));
            let full = into_array::<B, T>(rest);
            batches.push(full);
            rest = tail;
            assert(array_views(batches@) =~= array_views(before) + seq![pending.take(B as int)]);
        }
        assert(whole_chunks(rest@, B as nat) =~= Seq::<Seq<T>>::empty());
        batches
    }

    fn reset(&mut self) {
    }

    fn data_remaining(&self, before: usize) -> (after: usize) {
        before / B
    }
}

} // verus!
