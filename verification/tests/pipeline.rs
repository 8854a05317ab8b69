use dataflow::pipeline::ArrayBatch;
use dataflow::pipeline::Batch;
use dataflow::pipeline::ExtendNode;
use dataflow::pipeline::ExtendNodeMap;
use dataflow::pipeline::ExtendNodeSplit;
use dataflow::pipeline::MapReduce;
use dataflow::pipeline::Node;

// Helper functions
fn add_ten(nums: Vec<i32>) -> Vec<i32> {
    nums.into_iter().map(|n| n + 10).collect()
}
fn convert_to_int(inp: Vec<String>) -> Vec<i32> {
    inp.into_iter().map(|i| i.parse::<i32>().unwrap()).collect()
}
fn greet(inp: Vec<String>) -> Vec<String> {
    inp.into_iter().map(|i| format!("Hello {}", i)).collect()
}
fn concat_strings(inp: Vec<(String, String)>) -> Vec<String> {
    inp.into_iter().map(|(a, b)| format!("{}{}", a, b)).collect()
}

struct PipelineHolder<N> {
    pub pipeline: Option<N>,
}

fn run_pipeline<I, N: Node<I>>(pipeline_holder: &mut PipelineHolder<N>, input: I) -> N::Output {
    let mut pipeline = pipeline_holder.pipeline.take().unwrap();
    let output = pipeline.process(input);
    pipeline_holder.pipeline = Some(pipeline);
    output
}

#[test]
fn test_single_pipeline() {
    let mut pipeline = add_ten.map(|i: i32| i.to_string()).chain(greet);

    let inputs = vec![12, 3443, 123, 98543];
    assert_eq!(
        Node::process(&mut pipeline, inputs),
        vec![
            "Hello 22".to_string(),
            "Hello 3453".to_string(),
            "Hello 133".to_string(),
            "Hello 98553".to_string()
        ]
    )
}

#[test]
fn test_pair_pipeline() {
    let pipeline = add_ten
        .map(|i: i32| i.to_string())
        .split(
            greet,
            convert_to_int.chain(add_ten).map(|i: i32| i.to_string()),
        )
        .chain(|(a, b): (Vec<String>, Vec<String>)| {
            a.into_iter()
                .zip(b.into_iter())
                .collect::<Vec<(String, String)>>()
        })
        .chain(concat_strings)
        .chain(greet);
    let inputs = vec![12, 3443, 123, 98543];
    let mut holder = PipelineHolder {
        pipeline: Some(pipeline),
    };
    let outputs = run_pipeline(&mut holder, inputs);

    println!(
        "Examples left: {}",
        Node::data_remaining(&holder.pipeline.unwrap(), 0)
    );
    assert_eq!(
        outputs,
        vec![
            "Hello Hello 2232".to_string(),
            "Hello Hello 34533463".to_string(),
            "Hello Hello 133143".to_string(),
            "Hello Hello 9855398563".to_string()
        ]
    );
}

#[test]
fn test_map_reduce_pipeline() {
    let mut pipeline = MapReduce::new(
        // Count even and odd numbers
        |mut num: i32| {
            num += 10;
            vec![(num % 2 == 0, num)]
        },
        |(is_even, nums)| {
            vec![format!(
                "{}: {nums:?}",
                if is_even { "Even" } else { "Odd" }
            )]
        },
    );

    let inputs = vec![12, 3443, 124, 98543];
    assert_eq!(
        Node::process(&mut pipeline, inputs),
        vec!["Odd: [3453, 98553]", "Even: [22, 134]",]
    )
}

#[test]
fn batch_cuts_into_chunks_with_a_short_tail() {
    let mut batch = Batch::new(3);
    let out = batch.process(vec![1, 2, 3, 4, 5, 6, 7]);
    assert_eq!(out, vec![vec![1, 2, 3], vec![4, 5, 6], vec![7]]);
    assert_eq!(Node::<Vec<i32>>::data_remaining(&batch, 7), 2);
}

#[test]
fn batch_of_a_multiple_has_no_short_tail() {
    let mut batch = Batch::new(2);
    let out = batch.process(vec![1, 2, 3, 4]);
    assert_eq!(out, vec![vec![1, 2], vec![3, 4]]);
    let none: Vec<Vec<i32>> = Vec::new();
    assert_eq!(batch.process(Vec::new()), none);
}

#[test]
fn array_batch_drops_what_does_not_fill_an_array() {
    let mut batch = ArrayBatch::<3, i32>::default();
    let out = batch.process(vec![1, 2, 3, 4, 5, 6, 7, 8]);
    assert_eq!(out, vec![[1, 2, 3], [4, 5, 6]]);
    assert_eq!(Node::<Vec<i32>>::data_remaining(&batch, 8), 2);
    let none: Vec<[i32; 3]> = Vec::new();
    assert_eq!(batch.process(vec![1, 2]), none);
}
