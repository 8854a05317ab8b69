use dataflow::dataloader::Dataloader;
use dataflow::pipeline::Batch;
use dataflow::pipeline::CreateRange;
use dataflow::pipeline::ExtendNode;
use dataflow::pipeline::ExtendNodeMap;

#[test]
fn test_dataloader() {
    // Write a dataloader test
    let pipeline = CreateRange::new(10_000)
        .map(|i: usize| i * 10)
        .chain(Batch::new(10));
    let mut loader = Dataloader::new(pipeline);
    assert_eq!(loader.len(), 1000);

    // Run for 5_000 steps and collect results. A load asks for a block or for what the
    // pipeline counts as left, whichever is less, so later batches need not be full.
    let mut data = Vec::with_capacity(10_000);
    while let Some(example) = loader.next() {
        data.extend(example.into_iter());
        if data.len() >= 5_000 {
            break;
        }
    }

    // Check the examples, 5_000 should be retrieved, but for the last batch's overhang
    assert!(data.len() >= 5_000 && data.len() < 5_010);

    // Run for the rest of the data and store it
    while let Some(example) = loader.next() {
        data.extend(example.into_iter());
    }
    assert_eq!(loader.len(), 1000); // Make sure the loader reset

    // Sort read data
    data.sort_unstable();

    // Compare data: the pipeline counts whole batches only, so it counts nothing as left
    // once fewer than ten numbers are, and those 9 are not loaded.
    assert_eq!(data.len(), 9_991);
    assert!(data.windows(2).all(|pair| pair[0] < pair[1]));
    assert!(data.iter().all(|value| value % 10 == 0 && *value < 100_000));
}

#[test]
fn a_source_alone_hands_out_every_number() {
    let pipeline = CreateRange::new(10_000);
    let mut loader = Dataloader::new(pipeline);
    assert_eq!(loader.len(), 10_000);
    let mut data = Vec::with_capacity(10_000);
    while let Some(number) = loader.next() {
        data.push(number * 10);
    }
    assert_eq!(loader.len(), 10_000);
    data.sort_unstable();
    assert_eq!(data, (0..10_000).map(|i| i * 10).collect::<Vec<usize>>())
}

#[test]
fn a_lifted_chain_hands_out_every_number_in_each_epoch() {
    let pipeline = CreateRange::new(2_500).map(|i: usize| i * 10);
    let mut loader = Dataloader::new(pipeline).load_block_size(300).buffer_size(700);
    for _ in 0..2 {
        assert_eq!(loader.len(), 2_500);
        let mut data = Vec::new();
        while let Some(number) = loader.next() {
            data.push(number);
        }
        data.sort_unstable();
        assert_eq!(data, (0..2_500).map(|i| i * 10).collect::<Vec<usize>>());
    }
}

#[test]
fn every_epoch_delivers_what_len_reported() {
    let pipeline = dataflow::pipeline::VecLoader::new((0..25).collect::<Vec<u32>>()).shuffle(true);
    let mut loader = Dataloader::new(pipeline).load_block_size(4).buffer_size(6);
    for _ in 0..3 {
        let total = loader.len();
        assert_eq!(total, 25);
        let mut seen = Vec::new();
        let mut pulls = 0;
        while let Some(item) = loader.next() {
            pulls += 1;
            assert_eq!(loader.len(), total - pulls);
            seen.push(item);
        }
        assert_eq!(pulls, total);
        seen.sort_unstable();
        assert_eq!(seen, (0..25).collect::<Vec<u32>>());
        assert!(!loader.is_empty());
    }
}

#[test]
fn a_loader_without_data_ends_every_epoch_at_once() {
    let mut loader = Dataloader::new(dataflow::pipeline::VecLoader::new(Vec::<u32>::new()));
    assert!(loader.is_empty());
    assert_eq!(loader.next(), None);
    assert_eq!(loader.next(), None);
}

#[test]
fn items_leave_in_the_order_of_their_blocks() {
    let pipeline = dataflow::pipeline::VecLoader::new((0..12).collect::<Vec<u32>>());
    let mut loader = Dataloader::new(pipeline).load_block_size(4).buffer_size(1);
    let mut seen = Vec::new();
    while let Some(item) = loader.next() {
        seen.push(item);
    }
    for (block, items) in seen.chunks(4).enumerate() {
        let mut items = items.to_vec();
        items.sort_unstable();
        let start = block as u32 * 4;
        assert_eq!(items, (start..start + 4).collect::<Vec<u32>>());
    }
}

#[test]
fn the_steps_of_a_pull() {
    let pipeline = dataflow::pipeline::VecLoader::new(vec![1, 2, 3]);
    let mut loader = Dataloader::new(pipeline).load_block_size(2).buffer_size(2);
    assert!(!loader.exhausted());
    assert!(!loader.reclaim_due(true));
    let (mut stage, count) = loader.start_load().unwrap();
    assert_eq!(count, 2);
    assert!(loader.start_load().is_none());
    assert!(loader.reclaim_due(false));
    let mut items = dataflow::dataloader::load_block(&mut stage, count);
    items.sort_unstable();
    assert_eq!(items, vec![1, 2]);
    loader.finish_load(stage, items);
    assert!(!loader.reclaim_due(true));
    assert_eq!(loader.len(), 3);
    assert_eq!(loader.pop(), Some(1));
    assert_eq!(loader.pop(), Some(2));
    assert_eq!(loader.pop(), None);
    assert!(!loader.exhausted());
    // One item is left, so the load asks for one, not for a block of two.
    let (mut stage, count) = loader.start_load().unwrap();
    assert_eq!(count, 1);
    let items = dataflow::dataloader::load_block(&mut stage, count);
    assert_eq!(items, vec![3]);
    loader.finish_load(stage, items);
    assert_eq!(loader.pop(), Some(3));
    assert!(loader.exhausted());
    loader.end_epoch();
    assert_eq!(loader.len(), 3);
}

#[test]
fn pulls_that_report_what_is_left() {
    let pipeline = dataflow::pipeline::VecLoader::new(vec![7, 8]);
    let mut loader = Dataloader::new(pipeline).load_block_size(1);
    let mut pulls = loader.iter_len();
    assert_eq!(pulls.next(), Some((7, 1)));
    assert_eq!(pulls.next(), Some((8, 0)));
    assert_eq!(pulls.next(), None);
}

#[test]
fn the_steps_of_a_pull_come_in_one_order() {
    let pipeline = dataflow::pipeline::VecLoader::new(vec![1, 2, 3]);
    let mut loader = Dataloader::new(pipeline).load_block_size(2).buffer_size(1);
    // A load is due first.
    let (mut stage, count) = match loader.step(false) {
        dataflow::dataloader::Step::Load(stage, count) => (stage, count),
        _ => panic!("a load was due"),
    };
    assert_eq!(count, 2);
    // The queue is empty, so the pull waits for the load whether it has finished or not.
    assert!(matches!(loader.step(false), dataflow::dataloader::Step::Reclaim));
    assert!(matches!(loader.step(true), dataflow::dataloader::Step::Reclaim));
    let mut items = dataflow::dataloader::load_block(&mut stage, count);
    items.sort_unstable();
    loader.finish_load(stage, items);
    // The queue has reached its depth, so an item goes out.
    assert!(matches!(loader.step(false), dataflow::dataloader::Step::Deliver(1)));
    assert!(matches!(loader.step(false), dataflow::dataloader::Step::Deliver(2)));
    let (mut stage, count) = match loader.step(false) {
        dataflow::dataloader::Step::Load(stage, count) => (stage, count),
        _ => panic!("a load was due"),
    };
    assert_eq!(count, 1);
    let items = dataflow::dataloader::load_block(&mut stage, count);
    loader.finish_load(stage, items);
    assert!(matches!(loader.step(false), dataflow::dataloader::Step::Deliver(3)));
    assert!(matches!(loader.step(false), dataflow::dataloader::Step::EndOfEpoch));
    assert_eq!(loader.len(), 3);
}
