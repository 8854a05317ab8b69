use super::dataloader::conserves;
use super::dataloader::load_size;
use super::dataloader::sustains;
use crate::pipeline::premade::batch_views;
use crate::pipeline::premade::chunks;
use crate::pipeline::premade::lemma_chunks_arity;
use crate::pipeline::premade::maps_to;
use crate::pipeline::premade::MapNode;
use crate::pipeline::Batch;
use crate::pipeline::CreateRange;
use crate::pipeline::Node;
use crate::pipeline::Shuffle;
use crate::pipeline::VecLoader;
use vstd::prelude::*;

verus! {

/// The states in `family` keep counts: each is well formed, takes every input, hands back
/// as many items as it is given and counts as left what the stage before it does; and each
/// call and each reset leads to a state of the family.
pub open spec fn keeps_counts<X, T, B: Node<Vec<X>, Output = Vec<T>>>(
    family: spec_fn(B) -> bool,
) -> bool {
    &&& forall|b: B| #[trigger] family(b) ==> b.inv()
    &&& forall|b: B, before: usize| family(b) ==> #[trigger] b.remaining(before) == before
    &&& forall|b: B, input: Vec<X>| family(b) ==> #[trigger] b.accepts(input)
    &&& forall|b: B, input: Vec<X>, post: B, output: Vec<T>|
        family(b) && post.inv() && #[trigger] b.produces(input, post, output) ==> family(post)
            && output.len() == input.len()
    &&& forall|b: B, post: B| family(b) && post.inv() && #[trigger] b.resets_to(post) ==> family(post)
}

/// The states in `family` are those of a source that takes every request: each is well
/// formed and takes requests of any length, each call and each reset leads to a state of
/// the family, and a request for an item or more from a state with items left brings an
/// item or more.
pub open spec fn takes_requests<X, A: Node<Vec<()>, Output = Vec<X>>>(
    family: spec_fn(A) -> bool,
) -> bool {
    &&& forall|a: A| #[trigger] family(a) ==> a.inv()
    &&& forall|a: A, units: Vec<()>| family(a) ==> #[trigger] a.accepts(units)
    &&& forall|a: A, units: Vec<()>, post: A, output: Vec<X>|
        family(a) && post.inv() && #[trigger] a.produces(units, post, output) ==> family(post) && (
        units.len() > 0 && a.remaining(0) > 0 ==> output.len() > 0)
    &&& forall|a: A, post: A| family(a) && post.inv() && #[trigger] a.resets_to(post) ==> family(post)
}

/// A chain of a stage that loads sustain and a stage that keeps counts is sustained by the
/// same loads.
pub proof fn lemma_chain_sustains<
    X,
    T,
    A: Node<Vec<()>, Output = Vec<X>>,
    B: Node<Vec<X>, Output = Vec<T>>,
>(first: spec_fn(A) -> bool, second: spec_fn(B) -> bool, block: usize)
    requires
        sustains::<X, A>(first, block),
        keeps_counts::<X, T, B>(second),
    ensures
        sustains::<T, (A, B)>(|s: (A, B)| first(s.0) && second(s.1), block),
{
    let family = |s: (A, B)| first(s.0) && second(s.1);
    assert forall|s: (A, B)| #[trigger] family(s) implies s.inv() by {
        assert(first(s.0) && second(s.1));
    }
    assert forall|s: (A, B), units: Vec<()>|
        family(s) && units.len() == load_size::<T, (A, B)>(s, block) implies #[trigger] s.accepts(
        units,
    ) by {
        assert(first(s.0) && second(s.1));
        assert(s.1.remaining(s.0.remaining(0)) == s.0.remaining(0));
        assert(s.0.accepts(units));
    }
    assert forall|s: (A, B), units: Vec<()>, post: (A, B), raw: Vec<T>|
        family(s) && units.len() == load_size::<T, (A, B)>(s, block) && post.inv()
            && #[trigger] s.produces(units, post, raw) implies family(post) && (raw.len() == 0
        && s.remaining(0) > 0 ==> post.remaining(0) < s.remaining(0)) by {
        assert(first(s.0) && second(s.1));
        assert(s.1.remaining(s.0.remaining(0)) == s.0.remaining(0));
        let mid = choose|mid: Vec<X>| #[trigger]
            s.0.produces(units, post.0, mid) && s.1.produces(mid, post.1, raw);
        assert(first(post.0));
        assert(second(post.1) && raw.len() == mid.len());
        assert(post.1.remaining(post.0.remaining(0)) == post.0.remaining(0));
    }
    assert forall|s: (A, B), post: (A, B)|
        family(s) && post.inv() && #[trigger] s.resets_to(post) implies family(post) by {
        assert(first(s.0) && second(s.1));
        assert(s.0.resets_to(post.0) && s.1.resets_to(post.1));
    }
}

/// A chain of a stage whose loads conserve and a stage that keeps counts conserves.
pub proof fn lemma_chain_conserves<
    X,
    T,
    A: Node<Vec<()>, Output = Vec<X>>,
    B: Node<Vec<X>, Output = Vec<T>>,
>(stage: (A, B), second: spec_fn(B) -> bool, block: usize)
    requires
        conserves::<X, A>(stage.0, block),
        keeps_counts::<X, T, B>(second),
        second(stage.1),
    ensures
        conserves::<T, (A, B)>(stage, block),
{
    assert(stage.1.remaining(stage.0.remaining(0)) == stage.0.remaining(0));
    assert forall|units: Vec<()>, post: (A, B), raw: Vec<T>|
        units.len() == load_size::<T, (A, B)>(stage, block) && post.inv() && #[trigger] stage.produces(
            units,
            post,
            raw,
        ) implies raw.len() + post.remaining(0) == stage.remaining(0) by {
        let mid = choose|mid: Vec<X>| #[trigger]
            stage.0.produces(units, post.0, mid) && stage.1.produces(mid, post.1, raw);
        assert(second(post.1) && raw.len() == mid.len());
        assert(post.1.remaining(post.0.remaining(0)) == post.0.remaining(0));
    }
}

/// A chain of a source that takes every request and a stage that keeps counts takes every
/// request.
pub proof fn lemma_chain_takes_requests<
    X,
    T,
    A: Node<Vec<()>, Output = Vec<X>>,
    B: Node<Vec<X>, Output = Vec<T>>,
>(first: spec_fn(A) -> bool, second: spec_fn(B) -> bool)
    requires
        takes_requests::<X, A>(first),
        keeps_counts::<X, T, B>(second),
    ensures
        takes_requests::<T, (A, B)>(|s: (A, B)| first(s.0) && second(s.1)),
{
    let family = |s: (A, B)| first(s.0) && second(s.1);
    assert forall|s: (A, B)| #[trigger] family(s) implies s.inv() by {
        assert(first(s.0) && second(s.1));
    }
    assert forall|s: (A, B), units: Vec<()>| family(s) implies #[trigger] s.accepts(units) by {
        assert(first(s.0) && second(s.1));
        assert(s.0.accepts(units));
    }
    assert forall|s: (A, B), units: Vec<()>, post: (A, B), raw: Vec<T>|
        family(s) && post.inv() && #[trigger] s.produces(units, post, raw) implies family(post) && (
        units.len() > 0 && s.remaining(0) > 0 ==> raw.len() > 0) by {
        assert(first(s.0) && second(s.1));
        assert(s.1.remaining(s.0.remaining(0)) == s.0.remaining(0));
        let mid = choose|mid: Vec<X>| #[trigger]
            s.0.produces(units, post.0, mid) && s.1.produces(mid, post.1, raw);
        assert(first(post.0));
        assert(second(post.1) && raw.len() == mid.len());
    }
    assert forall|s: (A, B), post: (A, B)|
        family(s) && post.inv() && #[trigger] s.resets_to(post) implies family(post) by {
        assert(first(s.0) && second(s.1));
        assert(s.0.resets_to(post.0) && s.1.resets_to(post.1));
    }
}

/// A source that takes every request, followed by a batcher, is sustained by loads in
/// blocks of any size but 0: a load from a chain that counts a batch as left brings one.
pub proof fn lemma_batched_source_sustains<X, A: Node<Vec<()>, Output = Vec<X>>>(
    source: spec_fn(A) -> bool,
    block: usize,
)
    requires
        takes_requests::<X, A>(source),
        block > 0,
    ensures
        sustains::<Vec<X>, (A, Batch<X>)>(|s: (A, Batch<X>)| source(s.0) && s.1.inv(), block),
{
    let family = |s: (A, Batch<X>)| source(s.0) && s.1.inv();
    assert forall|s: (A, Batch<X>)| #[trigger] family(s) implies s.inv() by {
        assert(source(s.0));
    }
    assert forall|s: (A, Batch<X>), units: Vec<()>|
        family(s) && units.len() == load_size::<Vec<X>, (A, Batch<X>)>(
            s,
            block,
        ) implies #[trigger] s.accepts(units) by {
        assert(source(s.0));
        assert(s.0.accepts(units));
    }
    assert forall|s: (A, Batch<X>), units: Vec<()>, post: (A, Batch<X>), raw: Vec<Vec<X>>|
        family(s) && units.len() == load_size::<Vec<X>, (A, Batch<X>)>(s, block) && post.inv()
            && #[trigger] s.produces(units, post, raw) implies family(post) && (raw.len() == 0
        && s.remaining(0) > 0 ==> post.remaining(0) < s.remaining(0)) by {
        assert(source(s.0));
        let mid = choose|mid: Vec<X>| #[trigger]
            s.0.produces(units, post.0, mid) && s.1.produces(mid, post.1, raw);
        assert(source(post.0));
        if s.remaining(0) > 0 {
            assert(s.0.remaining(0) > 0) by {
                if s.0.remaining(0) == 0 {
                    assert(0int / (s.1.size() as int) == 0);
                }
            }
            assert(units.len() > 0);
            assert(mid.len() > 0);
            lemma_chunks_arity(mid@, s.1.size() as nat);
            assert(batch_views(raw@).len() == raw.len());
            assert((mid.len() + s.1.size() - 1) / (s.1.size() as int) >= 1) by (nonlinear_arith)
                requires
                    mid.len() > 0,
                    s.1.size() > 0,
            ;
        }
    }
    assert forall|s: (A, Batch<X>), post: (A, Batch<X>)|
        family(s) && post.inv() && #[trigger] s.resets_to(post) implies family(post) by {
        assert(source(s.0));
        assert(s.0.resets_to(post.0));
    }
}

/// A vector source takes every request.
pub proof fn lemma_vec_loader_takes_requests<T: Clone>()
    ensures
        takes_requests::<T, VecLoader<T>>(|s: VecLoader<T>| s.inv()),
{
    let family = |s: VecLoader<T>| s.inv();
    assert forall|a: VecLoader<T>, units: Vec<()>, post: VecLoader<T>, output: Vec<T>|
        family(a) && post.inv() && #[trigger] a.produces(units, post, output) implies family(post)
        && (units.len() > 0 && a.remaining(0) > 0 ==> output.len() > 0) by {
    }
}

/// A range source takes every request.
pub proof fn lemma_create_range_takes_requests()
    ensures
        takes_requests::<usize, CreateRange>(|s: CreateRange| s.inv()),
{
    let family = |s: CreateRange| s.inv();
    assert forall|a: CreateRange, units: Vec<()>, post: CreateRange, output: Vec<usize>|
        family(a) && post.inv() && #[trigger] a.produces(units, post, output) implies family(post)
        && (units.len() > 0 && a.remaining(0) > 0 ==> output.len() > 0) by {
    }
}

/// A function applied to every item leaves the function as it was.
pub proof fn lemma_lifted_function_stays<X, O, F: Fn(X) -> O>(
    function: F,
    items: Seq<X>,
    post: F,
    outs: Seq<O>,
)
    requires
        maps_to(function, items, post, outs),
    ensures
        post == function,
    decreases items.len(),
{
    if items.len() > 0 {
        let mid = choose|mid: F|
            #![trigger mid.produces(items.last(), post, outs.last())]
            maps_to(function, items.drop_last(), mid, outs.drop_last()) && mid.produces(
                items.last(),
                post,
                outs.last(),
            );
        lemma_lifted_function_stays(function, items.drop_last(), mid, outs.drop_last());
    }
}

/// A function that takes every item, lifted to sequences, keeps counts.
pub proof fn lemma_lifted_function_keeps_counts<X, O, F: Fn(X) -> O>()
    ensures
        keeps_counts::<X, O, MapNode<X, F>>(
            |m: MapNode<X, F>| forall|x: X| #[trigger] m.inner().requires((x,)),
        ),
{
    let family = |m: MapNode<X, F>| forall|x: X| #[trigger] m.inner().requires((x,));
    assert forall|b: MapNode<X, F>, input: Vec<X>| family(b) implies #[trigger] b.accepts(input) by {
        lemma_function_accepts_each(b.inner(), input@);
    }
    assert forall|b: MapNode<X, F>, input: Vec<X>, post: MapNode<X, F>, output: Vec<O>|
        family(b) && post.inv() && #[trigger] b.produces(input, post, output) implies family(post)
        && output.len() == input.len() by {
        lemma_lifted_function_stays(b.inner(), input@, post.inner(), output@);
    }
    assert forall|b: MapNode<X, F>, post: MapNode<X, F>|
        family(b) && post.inv() && #[trigger] b.resets_to(post) implies family(post) by {
    }
}

/// A stage that rearranges what it is given keeps counts.
pub proof fn lemma_shuffle_keeps_counts<T>()
    ensures
        keeps_counts::<T, T, Shuffle<T>>(|s: Shuffle<T>| true),
{
    let family = |s: Shuffle<T>| true;
    assert forall|b: Shuffle<T>, input: Vec<T>, post: Shuffle<T>, output: Vec<T>|
        family(b) && post.inv() && #[trigger] b.produces(input, post, output) implies family(post)
        && output.len() == input.len() by {
        input@.to_multiset_ensures();
        output@.to_multiset_ensures();
    }
}

/// A function that takes every item takes the items of every sequence.
proof fn lemma_function_accepts_each<X, O, F: Fn(X) -> O>(function: F, items: Seq<X>)
    requires
        forall|x: X| #[trigger] function.requires((x,)),
    ensures
        crate::pipeline::premade::accepts_each(function, items),
    decreases items.len(),
{
    if items.len() > 0 {
        lemma_function_accepts_each(function, items.drop_first());
    }
}

} // verus!
