// BATCHING TESTS
use dataflow::batching;

fn lengths_of<T>(lists: &[Vec<Vec<T>>]) -> Vec<Vec<usize>> {
    lists
        .iter()
        .map(|list| list.iter().map(|item| item.len()).collect())
        .collect()
}

#[test]
fn pad_mask_test() {
    let batch = vec![vec!["d", "hello", "how"], vec!["hi", "yo", "PAD"]];
    let expected_mask = vec![vec![false, false, false], vec![false, false, true]];
    let pad_mask = batching::pad_mask(&batch, "PAD");
    assert_eq!(expected_mask, pad_mask);
}

#[test]
fn pad_batch_test() {
    let mut seqs = vec![vec![1, 2, 3, 1], vec![1, 4, 6, 2, 3, 5, 67]];
    let expected_padded_batch = vec![vec![1, 2, 3, 1, 0, 0, 0], vec![1, 4, 6, 2, 3, 5, 67]];
    batching::pad_batch(&mut seqs, 0);
    assert_eq!(seqs, expected_padded_batch);
}

#[test]
fn filter_by_length_test() {
    let mut seqs = vec![
        vec![vec![1, 2, 3, 1], vec![1, 4, 6, 2, 3, 5, 67], vec![1, 2, 3]],
        vec![vec![1, 1], vec![1, 67], vec![1, 2, 3]],
    ];
    let expected_seqs = vec![
        vec![vec![1, 2, 3, 1], vec![1, 2, 3]],
        vec![vec![1, 1], vec![1, 2, 3]],
    ];
    let lengths = lengths_of(&seqs);
    batching::filter_by_length(&mut seqs, &lengths, None, Some(6));
    assert_eq!(seqs, expected_seqs);
}

#[test]
fn shuffle_lists_test() {
    let mut seqs = vec![
        vec![vec![1, 2, 3, 1], vec![1, 4, 6, 2, 3, 5, 67], vec![1, 2, 3]],
        vec![vec![1, 1], vec![1, 67], vec![1, 2, 3]],
    ];
    let orig_seqs = seqs.clone();
    for _ in 0..10 {
        batching::shuffle_lists(&mut seqs);
        if seqs != orig_seqs {
            break;
        }
    }
    assert_ne!(seqs, orig_seqs);
}

#[test]
fn sort_lists_by_length_test() {
    let mut seqs = vec![
        vec![
            "hello".to_string(),
            "how are you".to_string(),
            "yo".to_string(),
        ],
        vec!["hey".to_string(), "wow".to_string(), "who".to_string()],
    ];
    let sorted_seqs = vec![
        vec![
            "yo".to_string(),
            "hello".to_string(),
            "how are you".to_string(),
        ],
        vec!["who".to_string(), "hey".to_string(), "wow".to_string()],
    ];
    let reverse_sorted_seqs = vec![
        vec![
            "how are you".to_string(),
            "hello".to_string(),
            "yo".to_string(),
        ],
        vec!["wow".to_string(), "hey".to_string(), "who".to_string()],
    ];
    let lengths: Vec<usize> = seqs[0].iter().map(|s| s.len()).collect();
    batching::sort_lists_by_length(&mut seqs, &lengths, Some(false));
    assert_eq!(seqs, sorted_seqs);
    let lengths: Vec<usize> = seqs[0].iter().map(|s| s.len()).collect();
    batching::sort_lists_by_length(&mut seqs, &lengths, Some(true));
    assert_eq!(seqs, reverse_sorted_seqs);
}

#[test]
fn shuffle_lists_keeps_records_together() {
    let mut seqs = vec![vec![1, 2, 3, 4, 5], vec![10, 20, 30, 40, 50]];
    batching::shuffle_lists(&mut seqs);
    let mut firsts = seqs[0].clone();
    firsts.sort_unstable();
    assert_eq!(firsts, vec![1, 2, 3, 4, 5]);
    for i in 0..5 {
        assert_eq!(seqs[1][i], seqs[0][i] * 10);
    }
}

#[test]
fn sort_lists_by_length_keeps_ties_in_order() {
    let mut seqs = vec![
        vec!["bb", "a", "cc", "d", "eee"],
        vec!["1", "2", "3", "4", "5"],
    ];
    let lengths: Vec<usize> = seqs[0].iter().map(|s| s.len()).collect();
    batching::sort_lists_by_length(&mut seqs, &lengths, None);
    assert_eq!(seqs[0], vec!["a", "d", "bb", "cc", "eee"]);
    assert_eq!(seqs[1], vec!["2", "4", "1", "3", "5"]);
}

#[test]
fn filter_by_length_with_a_lower_bound() {
    let mut seqs = vec![vec![vec![1], vec![1, 2], vec![1, 2, 3]]];
    let lengths = lengths_of(&seqs);
    batching::filter_by_length(&mut seqs, &lengths, Some(2), None);
    assert_eq!(seqs, vec![vec![vec![1, 2], vec![1, 2, 3]]]);
    let mut none: Vec<Vec<Vec<i32>>> = Vec::new();
    batching::filter_by_length(&mut none, &Vec::new(), Some(2), Some(3));
    assert!(none.is_empty());
}

#[test]
fn pad_mask_of_an_empty_batch_is_empty() {
    let batch: Vec<Vec<i32>> = Vec::new();
    assert!(batching::pad_mask(&batch, 0).is_empty());
}

#[test]
fn rearrange_rebuilds_every_list_by_the_same_picks() {
    let mut lists = vec![vec!['a', 'b', 'c'], vec!['x', 'y', 'z']];
    batching::rearrange(&mut lists, &vec![2, 0, 0, 1]);
    assert_eq!(lists, vec![vec!['c', 'a', 'a', 'b'], vec!['z', 'x', 'x', 'y']]);
    batching::rearrange(&mut lists, &Vec::new());
    assert_eq!(lists, vec![Vec::<char>::new(), Vec::new()]);
}
