use dataflow::pipeline::loader::count_examples;
use dataflow::pipeline::loader::load_text_segments;
use dataflow::pipeline::loader::read_examples;
use dataflow::pipeline::loader::sorted_numbers;
use dataflow::pipeline::loader::shuffled_order;
use dataflow::pipeline::loader::split_text;
use dataflow::pipeline::FileLoader;
use dataflow::pipeline::KeyedLoader;
use dataflow::pipeline::Node;
use dataflow::pipelines::RandomLoader;

fn lines(text: &[&str]) -> Vec<String> {
    text.iter().map(|line| line.to_string()).collect()
}

fn read_lines(path: String) -> Vec<String> {
    match path.as_str() {
        "a" => lines(&["one", "two", "three"]),
        "b" => lines(&["four", "five"]),
        "c" => lines(&["x|y", "z|w|", "v"]),
        _ => Vec::new(),
    }
}

fn read_bytes(path: String) -> Vec<u8> {
    path.into_bytes()
}

#[test]
fn split_text_cuts_at_every_match() {
    assert_eq!(split_text("a--b----c", "--"), vec!["a", "b", "", "c"]);
    assert_eq!(split_text("aaa", "aa"), vec!["", "a"]);
    assert_eq!(split_text("abc", "x"), vec!["abc"]);
    assert_eq!(split_text("", "x"), vec![""]);
    assert_eq!(split_text("ab", ""), vec!["", "a", "b", ""]);
    assert_eq!(split_text("xab", "x"), vec!["", "ab"]);
    for (text, pattern) in [("a--b----c", "--"), ("aaa", "aa"), ("ab", ""), ("", ""), ("abcabc", "bc")] {
        let expected: Vec<String> = text.split(pattern).map(|piece| piece.to_string()).collect();
        assert_eq!(split_text(text, pattern), expected);
    }
}

#[test]
fn count_examples_counts_lines_or_delimiters() {
    assert_eq!(count_examples(&lines(&["a", "b", "c"]), "\n"), Some(3));
    assert_eq!(count_examples(&lines(&[]), "\n"), Some(0));
    assert_eq!(count_examples(&lines(&["a|b", "c", "d|e|f"]), "|"), Some(4));
    assert_eq!(count_examples(&lines(&[]), "|"), Some(1));
}

#[test]
fn load_text_segments_picks_the_wanted_segments() {
    let mut number = 0;
    // A segment that goes on in the next line is put together with a line break.
    let found = load_text_segments(&lines(&["a|b|c", "d|e"]), &[1, 2], &mut number, "|");
    assert_eq!(found, vec!["b".to_string(), "c\nd".to_string()]);
    assert_eq!(number, 3);
    // A line without the delimiter is gathered for the segment under way.
    let mut number = 0;
    let found = load_text_segments(&lines(&["a", "b|c|d"]), &[0, 1], &mut number, "|");
    assert_eq!(found, vec!["a\nb".to_string(), "c".to_string()]);
    assert_eq!(number, 2);
    // Numbers that lie before the first segment of the lines match nothing.
    let mut number = 5;
    let found = load_text_segments(&lines(&["a|b|c"]), &[0], &mut number, "|");
    assert_eq!(found, Vec::<String>::new());
    assert_eq!(number, 8);
    // Lines that hold no delimiter end no segment.
    let mut number = 0;
    let found = load_text_segments(&lines(&["one", "two"]), &[0, 1], &mut number, "\n");
    assert_eq!(found, Vec::<String>::new());
    assert_eq!(number, 0);
}

#[test]
fn file_loader_reads_every_file_once_an_epoch() {
    let files = vec!["a".to_string(), "b".to_string(), "c".to_string()];
    let mut loader = FileLoader::in_order(files, read_bytes);
    assert_eq!(loader.data_remaining(0), 3);
    assert_eq!(
        loader.process(vec![(); 2]),
        vec![("a".to_string(), b"a".to_vec()), ("b".to_string(), b"b".to_vec())]
    );
    assert_eq!(loader.process(vec![(); 2]), vec![("c".to_string(), b"c".to_vec())]);
    assert_eq!(loader.data_remaining(0), 0);
    loader.reset();
    assert_eq!(loader.data_remaining(0), 3);
    let mut names: Vec<String> = loader.process(vec![(); 9]).into_iter().map(|(path, _)| path).collect();
    names.sort();
    assert_eq!(names, vec!["a", "b", "c"]);
    let shuffled = FileLoader::new((0..50).map(|i| i.to_string()).collect(), read_bytes);
    assert_eq!(shuffled.data_remaining(7), 50);
}

#[test]
fn random_loader_counts_and_gathers() {
    let mut reader = read_lines;
    let mut loader = RandomLoader::new(vec!["a".to_string(), "b".to_string()]);
    loader.reset_with(&mut reader);
    assert_eq!(loader.data_remaining(0), 5);
    assert_eq!(loader.process_with(&mut reader, Vec::new()), Vec::<String>::new());
    assert_eq!(loader.data_remaining(0), 5);
    let mut bounded = RandomLoader::new(vec!["a".to_string(), "b".to_string()])
        .min_index(1)
        .max_index(4);
    bounded.reset_with(&mut reader);
    assert_eq!(bounded.data_remaining(0), 3);
    assert_eq!(bounded.wanted_indexes(9), vec![1, 2, 3]);
    let mut split = RandomLoader::new(vec!["c".to_string()]).with_delimeter("|".to_string());
    split.reset_with(&mut reader);
    assert_eq!(split.data_remaining(0), 4);
    assert_eq!(split.process_with(&mut reader, vec![(); 2]), vec!["x", "y\nz"]);
    assert_eq!(split.data_remaining(0), 2);
    split.begin_epoch(&[2, 3]);
    assert_eq!(split.data_remaining(0), 5);
}

#[test]
fn keyed_loader_locates_examples() {
    let mut loader = KeyedLoader::new(vec!["a".to_string(), "b".to_string()], "\n", vec![0, 0]);
    assert_eq!(loader.locate(0), None);
    loader.reset_with(&mut read_lines);
    assert_eq!(loader.locate(0), Some((0, 0)));
    assert_eq!(loader.locate(2), Some((0, 2)));
    assert_eq!(loader.locate(3), Some((1, 0)));
    assert_eq!(loader.locate(4), Some((1, 1)));
    assert_eq!(loader.locate(5), None);
    assert_eq!(loader.data_remaining(9), 9);
    assert_eq!(loader.process_with(&mut read_lines, vec![4, 0, 3]), vec!["one", "four", "five"]);
    assert_eq!(loader.process_with(&mut read_lines, vec![2, 9]), vec!["three"]);
    assert_eq!(loader.process_with(&mut read_lines, vec![]), Vec::<String>::new());
    let pieces = KeyedLoader::new(vec!["c".to_string(), "a".to_string()], "|", vec![4, 1]);
    assert_eq!(pieces.process_with(&mut read_lines, vec![1, 4, 3]), vec!["yz", "v", "onetwothree"]);
}

#[test]
fn shuffled_order_holds_every_number_once() {
    let order = shuffled_order(3, 250_003);
    assert_eq!(order.len(), 250_000);
    assert_ne!(order, (3..250_003).collect::<Vec<usize>>());
    // The numbers are shuffled within blocks of 100000, and the blocks among themselves.
    let blocks: Vec<usize> = order.iter().map(|number| (number - 3) / 100_000).collect();
    let changes = blocks.windows(2).filter(|pair| pair[0] != pair[1]).count();
    assert_eq!(changes, 2);
    let mut sorted = order;
    sorted.sort_unstable();
    assert_eq!(sorted, (3..250_003).collect::<Vec<usize>>());
    assert!(shuffled_order(5, 5).is_empty());
    assert!(shuffled_order(7, 5).is_empty());
}

#[test]
fn read_examples_puts_lines_together() {
    assert_eq!(read_examples(lines(&["a", "b"]), "\n"), vec!["a", "b"]);
    assert_eq!(read_examples(lines(&["x|y", "z|w|", "v"]), "|"), vec!["x", "yz", "w", "v"]);
    assert_eq!(read_examples(lines(&[]), "|"), vec![""]);
    assert_eq!(
        read_examples(lines(&["x|y", "z|w|", "v"]), "|").len(),
        count_examples(&lines(&["x|y", "z|w|", "v"]), "|").unwrap()
    );
}

#[test]
fn shuffling_loader_hands_out_every_example_once_an_epoch() {
    let mut reader = read_lines;
    let mut loader = dataflow::pipeline::RandomLoader::new(vec!["a".to_string(), "b".to_string()]);
    assert_eq!(loader.data_remaining(0), 0);
    for _ in 0..2 {
        loader.reset_with(&mut reader);
        assert_eq!(loader.data_remaining(0), 5);
        let mut seen = loader.process_with(&mut reader, vec![(); 3]);
        assert_eq!(seen.len(), 3);
        assert_eq!(loader.data_remaining(0), 2);
        seen.extend(loader.process_with(&mut reader, vec![(); 3]));
        assert_eq!(loader.data_remaining(0), 0);
        assert!(loader.process_with(&mut reader, vec![(); 3]).is_empty());
        seen.sort();
        assert_eq!(seen, vec!["five", "four", "one", "three", "two"]);
    }
    let mut bounded = dataflow::pipeline::RandomLoader::new(vec!["a".to_string(), "b".to_string()])
        .min_index(1)
        .max_index(4);
    bounded.reset_with(&mut reader);
    let mut seen = bounded.process_with(&mut reader, vec![(); 9]);
    seen.sort();
    assert_eq!(seen, vec!["four", "three", "two"]);
    let mut split =
        dataflow::pipeline::RandomLoader::new(vec!["c".to_string()]).with_delimeter("|".to_string());
    split.reset_with(&mut reader);
    let mut seen = split.process_with(&mut reader, vec![(); 9]);
    seen.sort();
    assert_eq!(seen, vec!["v", "w", "x", "yz"]);
    let mut numbers = {
        split.reset_with(&mut reader);
        split.examples_to_load(3)
    };
    assert!(numbers.windows(2).all(|pair| pair[0] < pair[1]));
    numbers.retain(|number| *number < 4);
    assert_eq!(numbers.len(), 3);
}

#[test]
fn sorted_numbers_ascend() {
    assert_eq!(sorted_numbers(&vec![3, 1, 2, 1]), vec![1, 1, 2, 3]);
    assert_eq!(sorted_numbers(&Vec::new()), Vec::<usize>::new());
}
