use dataflow::pipeline::BalancedSelector;
use dataflow::pipeline::CreateRange;
use dataflow::pipeline::Duplicator;
use dataflow::pipeline::Either;
use dataflow::pipeline::ExtendNode;
use dataflow::pipeline::ExtendNodeMap;
use dataflow::pipeline::ExtendNodePair;
use dataflow::pipeline::Filter;
use dataflow::pipeline::FilterMap;
use dataflow::pipeline::MapNode;
use dataflow::pipeline::MapReduce;
use dataflow::pipeline::Node;
use dataflow::pipeline::Order;
use dataflow::pipeline::Pair;
use dataflow::pipeline::Pipeline;
use dataflow::pipeline::Shuffle;
use dataflow::pipeline::Sort;
use dataflow::pipeline::Stateful;
use dataflow::pipeline::Stateless;
use dataflow::pipeline::VecLoader;

fn units(count: usize) -> Vec<()> {
    vec![(); count]
}

#[test]
fn map_keeps_arity_and_order() {
    let mut map = MapNode::new(|i: i32| i * 2);
    assert_eq!(map.process(vec![3, 1, 2]), vec![6, 2, 4]);
    assert_eq!(map.process(Vec::new()), Vec::<i32>::new());
    assert_eq!(Node::<Vec<i32>>::data_remaining(&map, 5), 5);
}

#[test]
fn filter_map_and_filter_keep_order() {
    let mut halves = FilterMap::new(|i: i32| if i % 2 == 0 { Some(i / 2) } else { None });
    assert_eq!(halves.process(vec![4, 3, 8, 1, 2]), vec![2, 4, 1]);
    let mut small = Filter::new(|i: &i32| *i < 3);
    assert_eq!(small.process(vec![4, 1, 8, 2, 0]), vec![1, 2, 0]);
    let mut chained = Pipeline.filter(|i: &i32| *i > 0).filter_map(|i: i32| i.checked_sub(1));
    assert_eq!(chained.process(vec![0, 1, 2]), vec![0, 1]);
}

#[test]
fn chain_of_three_runs_in_order() {
    let mut pipeline = (|i: i32| i + 1, |i: i32| i * 10, |i: i32| i.to_string());
    assert_eq!(pipeline.process(4), "50".to_string());
    assert_eq!(Node::<i32>::data_remaining(&pipeline, 7), 7);
    let mut six = (
        |i: i32| i + 1,
        |i: i32| i + 1,
        |i: i32| i + 1,
        |i: i32| i + 1,
        |i: i32| i + 1,
        |i: i32| i * 2,
    );
    assert_eq!(six.process(0), 10);
}

#[test]
fn duplicator_and_pair() {
    let mut duplicator = Duplicator::default();
    assert_eq!(duplicator.process(7), (7, 7));
    let mut pair = Pair::new(|i: i32| i + 1, dataflow::pipeline::Batch::new(3));
    assert_eq!(pair.process((1, vec![1, 2, 3, 4])), (2, vec![vec![1, 2, 3], vec![4]]));
    let mut paired = (|i: i32| (i, i)).pair(|i: i32| i + 1, |i: i32| i - 1);
    assert_eq!(paired.process(5), (6, 4));
}

#[test]
fn pair_counts_by_its_weaker_branch() {
    // Pair's count is the lesser of its branches' counts.
    let three = dataflow::pipeline::Batch::<i32>::new(3);
    let two = dataflow::pipeline::Batch::<i32>::new(2);
    let pair = Pair::<Vec<i32>, Vec<i32>, _, _>::new(three, two);
    assert_eq!(pair.data_remaining(12), 4);
    let three = dataflow::pipeline::Batch::<i32>::new(3);
    let two = dataflow::pipeline::Batch::<i32>::new(2);
    let pair = Pair::<Vec<i32>, Vec<i32>, _, _>::new(two, three);
    assert_eq!(pair.data_remaining(12), 4);
}

#[test]
fn sort_is_stable() {
    let mut sort = Sort::new(|a: &(i32, char), b: &(i32, char)| Order::of(a.0.cmp(&b.0)));
    let sorted = sort.process(vec![(2, 'a'), (1, 'b'), (2, 'c'), (0, 'd'), (1, 'e')]);
    assert_eq!(sorted, vec![(0, 'd'), (1, 'b'), (1, 'e'), (2, 'a'), (2, 'c')]);
    assert_eq!(Order::Less.ordering(), std::cmp::Ordering::Less);
    assert_eq!(Order::of(std::cmp::Ordering::Greater), Order::Greater);
    assert_eq!(Order::of(Order::Equal.ordering()), Order::Equal);
}

#[test]
fn shuffle_rearranges() {
    let input: Vec<u32> = (0..200).collect();
    let mut shuffle = Shuffle::default();
    let mut out = shuffle.process(input.clone());
    assert_ne!(out, input);
    out.sort_unstable();
    assert_eq!(out, input);
    let mut seeded = Shuffle::with_seed(7);
    let mut again = Shuffle::with_seed(7);
    assert_eq!(seeded.process(input.clone()), again.process(input.clone()));
}

#[test]
fn group_reduce_does_not_depend_on_input_order() {
    let count = |input: Vec<&'static str>| {
        let mut stage = MapReduce::new(
            |word: &'static str| vec![(word.len(), 1usize)],
            |(length, ones): (usize, Vec<usize>)| vec![(length, ones.len())],
        );
        stage.process(input)
    };
    let one = count(vec!["bb", "a", "ccc", "dd", "e", "ff"]);
    let other = count(vec!["ff", "e", "dd", "ccc", "a", "bb"]);
    assert_eq!(one, vec![(1, 2), (2, 3), (3, 1)]);
    assert_eq!(one, other);
}

#[test]
fn group_puts_keys_in_order_and_values_in_arrival_order() {
    let groups = dataflow::pipeline::group(vec![(2, 'a'), (1, 'b'), (2, 'c'), (0, 'd')]);
    assert_eq!(groups, vec![(0, vec!['d']), (1, vec!['b']), (2, vec!['a', 'c'])]);
}

#[test]
fn selector_splits_in_proportion_to_what_is_left() {
    // Two sources with 3 and 1 items left: of 4 items asked, 3 go to the first, 1 to the second.
    let first = VecLoader::new(vec![1, 2, 3]);
    let second = VecLoader::new(vec![10]);
    let mut selector = BalancedSelector::default().add_node(first).add_node(second);
    assert_eq!(selector.data_remaining(0), 4);
    assert_eq!(selector.process(units(4)), vec![1, 2, 3, 10]);
    assert_eq!(selector.data_remaining(0), 0);
    selector.reset();
    assert_eq!(selector.data_remaining(0), 4);
    // Of 2 items asked, floor(2 * 3 / 4) = 1 goes to the first, floor(2 * 1 / 4) = 0 to the second.
    assert_eq!(selector.process(units(2)), vec![1]);
    assert_eq!(selector.data_remaining(0), 3);
}

#[test]
fn selector_merges_sources_of_two_types() {
    // A vector of 3 numbers and a range of 1: of 4 items asked, 3 come from the vector.
    let listed: Either<VecLoader<usize>, CreateRange> = Either::Left(VecLoader::new(vec![7, 8, 9]));
    let counted: Either<VecLoader<usize>, CreateRange> = Either::Right(CreateRange::new(1));
    let mut selector = BalancedSelector::default().add_node(listed).add_node(counted);
    assert_eq!(selector.data_remaining(0), 4);
    assert_eq!(selector.process(units(4)), vec![7, 8, 9, 0]);
    assert_eq!(selector.data_remaining(0), 0);
    selector.reset();
    assert_eq!(selector.data_remaining(0), 4);
}

#[test]
fn either_behaves_as_the_stage_it_holds() {
    let mut left: Either<VecLoader<usize>, CreateRange> = Either::Left(VecLoader::new(vec![5, 6]));
    let mut right: Either<VecLoader<usize>, CreateRange> = Either::Right(CreateRange::new(3));
    assert_eq!(left.data_remaining(0), 2);
    assert_eq!(right.data_remaining(0), 3);
    assert_eq!(left.process(units(1)), vec![5]);
    assert_eq!(right.process(units(2)), vec![0, 1]);
    assert_eq!(left.data_remaining(0), 1);
    assert_eq!(right.data_remaining(0), 1);
    left.reset();
    right.reset();
    assert_eq!(left.process(units(2)), vec![5, 6]);
    let mut numbers = right.process(units(3));
    numbers.sort_unstable();
    assert_eq!(numbers, vec![0, 1, 2]);
}

#[test]
fn selector_without_anything_left_hands_out_nothing() {
    let mut selector = BalancedSelector::default()
        .add_node(VecLoader::new(Vec::<i32>::new()))
        .add_node(VecLoader::new(Vec::<i32>::new()));
    assert_eq!(selector.process(units(5)), Vec::<i32>::new());
    let mut empty: BalancedSelector<(), i32, VecLoader<i32>> = BalancedSelector::default();
    assert_eq!(empty.process(units(5)), Vec::<i32>::new());
    assert_eq!(empty.data_remaining(3), 0);
}

#[test]
fn stateful_threads_its_state() {
    let mut running = Stateful::new(0, |i: i32, total: &i32| (total + i, total + i));
    assert_eq!(running.process(3), 3);
    assert_eq!(running.process(4), 7);
    assert_eq!(Node::<i32>::data_remaining(&running, 9), 9);
    let halved = running.remaining(|before: usize| before / 2);
    assert_eq!(Node::<i32>::data_remaining(&halved, 9), 4);
    assert_eq!(dataflow::pipeline::identity_remaining(9), 9);
}

#[test]
fn stateless_and_the_empty_pipeline() {
    let mut double = Stateless::new(|i: i32| i * 2);
    assert_eq!(double.process(4), 8);
    assert_eq!(Pipeline.process(4), 4);
    let mut chained = Pipeline.chain(|i: i32| i + 1);
    assert_eq!(chained.process(4), 5);
}

#[test]
fn vec_loader_hands_out_its_items_once_an_epoch() {
    let mut loader = VecLoader::new(vec!['a', 'b', 'c']);
    assert_eq!(loader.data_remaining(0), 3);
    assert_eq!(loader.process(units(2)), vec!['a', 'b']);
    assert_eq!(loader.process(units(2)), vec!['c']);
    assert_eq!(loader.process(units(2)), Vec::<char>::new());
    assert_eq!(loader.data_remaining(0), 0);
    loader.reset();
    assert_eq!(loader.data_remaining(0), 3);
    assert_eq!(loader.process(units(5)), vec!['a', 'b', 'c']);
    let mut shuffled = VecLoader::new((0..100).collect::<Vec<u32>>()).shuffle(true);
    shuffled.reset();
    let mut out = shuffled.process(units(100));
    assert_ne!(out, (0..100).collect::<Vec<u32>>());
    out.sort_unstable();
    assert_eq!(out, (0..100).collect::<Vec<u32>>());
}

#[test]
fn create_range_counts_down() {
    let mut range = CreateRange::new(5);
    assert_eq!(range.process(units(2)), vec![0, 1]);
    assert_eq!(range.data_remaining(0), 3);
    assert_eq!(range.process(units(9)), vec![2, 3, 4]);
    range.reset();
    let mut all = range.process(units(5));
    all.sort_unstable();
    assert_eq!(all, vec![0, 1, 2, 3, 4]);
}
