use dataflow::pipeline::Node;
use dataflow::vocab::BPEVocab;
use dataflow::vocab::BasicVocab;
use dataflow::vocab::Vocab;
use dataflow::vocab::WordPieceVocab;

/// A byte-pair vocabulary file with a token for every place of the table. `known` gives the
/// tokens that the tests look up, each with its index in the vocabulary, which holds four
/// marker tokens before the table's.
fn bpe_json(known: &[(&str, usize)]) -> String {
    let mut entries: Vec<String> = Vec::with_capacity(50265);
    for place in 0..50265usize {
        let token = match known.iter().find(|(_, index)| *index == place + 4) {
            Some((token, _)) => token.to_string(),
            None => format!("tok{}", place),
        };
        entries.push(format!("{:?}: {}", token, place));
    }
    format!("{{{}}}", entries.join(", "))
}

/// A word-piece vocabulary file, one token on a line. `known` gives the tokens that the
/// tests look up, each with its index in the vocabulary.
fn wordpiece_lines(known: &[(&str, usize)]) -> String {
    let mut lines: Vec<String> = Vec::with_capacity(30000);
    for line in 0..30000usize {
        match known.iter().find(|(_, index)| *index == line + 4) {
            Some((token, _)) => lines.push(token.to_string()),
            None => lines.push(format!("w{}", line)),
        }
    }
    lines.join("\n")
}

fn load_bpe() -> BPEVocab {
    BPEVocab::from_json(&bpe_json(&[
        ("Hello", 23858),
        (",", 37861),
        (" ", 4),
        ("how", 4786),
        ("are", 290),
        ("you", 3258),
        ("?", 22092),
    ]))
    .unwrap()
}

fn load_wordpiece() -> WordPieceVocab {
    WordPieceVocab::from_lines(&wordpiece_lines(&[
        ("hello", 7596),
        (",", 1014),
        ("how", 2133),
        ("are", 2028),
        ("you", 2021),
        ("?", 1033),
    ]))
}

#[test]
fn creating_vocab() {
    let _wordpiece_vocab = load_wordpiece();
    let _bpe_vocab = load_bpe();
}

#[test]
fn indexes_from_tokens_bpe() {
    let bpe_vocab = load_bpe();
    let tokens = ["Hello", ",", " ", "how", " ", "are", " ", "you", "?"];
    let mut tokens_vec: Vec<String> = Vec::new();
    for token in tokens.iter() {
        tokens_vec.push(String::from(*token));
    }
    let indexes = bpe_vocab.indexes_from_tokens(&tokens_vec);
    assert_eq!(
        indexes.unwrap(),
        vec![23858, 37861, 4, 4786, 4, 290, 4, 3258, 22092]
    );
}

#[test]
fn indexes_from_tokens_wordpiece() {
    let wordpiece_vocab = load_wordpiece();
    let tokens = ["hello", ",", "how", "are", "you", "?"];
    let mut tokens_vec: Vec<String> = Vec::new();
    for token in tokens.iter() {
        tokens_vec.push(String::from(*token));
    }
    let indexes = wordpiece_vocab.indexes_from_tokens(&tokens_vec);
    assert_eq!(indexes.unwrap(), vec![7596, 1014, 2133, 2028, 2021, 1033]);
}

#[test]
fn tokens_from_indexes_bpe() {
    let bpe_vocab = load_bpe();
    let tokens = ["Hello", ",", " ", "how", " ", "are", " ", "you", "?"];
    let mut tokens_vec: Vec<String> = Vec::new();
    for token in tokens.iter() {
        tokens_vec.push(String::from(*token));
    }
    let tokens = bpe_vocab.tokens_from_indexes(&[23858, 37861, 4, 4786, 4, 290, 4, 3258, 22092]);
    assert_eq!(tokens.unwrap(), tokens_vec);
}

#[test]
fn tokens_from_indexes_wordpiece() {
    let wordpiece_vocab = load_wordpiece();
    let tokens = ["hello", ",", "how", "are", "you", "?"];
    let mut tokens_vec: Vec<String> = Vec::new();
    for token in tokens.iter() {
        tokens_vec.push(String::from(*token));
    }
    let tokens = wordpiece_vocab.tokens_from_indexes(&[7596, 1014, 2133, 2028, 2021, 1033]);
    assert_eq!(tokens.unwrap(), tokens_vec);
}

#[test]
fn batch_indexes_from_tokens() {
    let bpe_vocab = load_bpe();
    let tokens = ["Hello", ",", " ", "how", " ", "are", " ", "you", "?"];
    let mut tokens_vec: Vec<Vec<String>> = vec![Vec::new()];
    for token in tokens.iter() {
        tokens_vec[0].push(String::from(*token));
    }
    let indexes = bpe_vocab.batch_indexes_from_tokens(&tokens_vec);
    assert_eq!(
        indexes.unwrap()[0],
        vec![23858, 37861, 4, 4786, 4, 290, 4, 3258, 22092]
    );
}

#[test]
fn batch_tokens_from_indexes() {
    let bpe_vocab = load_bpe();
    let tokens = ["Hello", ",", " ", "how", " ", "are", " ", "you", "?"];
    let mut tokens_vec: Vec<String> = Vec::new();
    for token in tokens.iter() {
        tokens_vec.push(String::from(*token));
    }
    let tokens =
        bpe_vocab.batch_tokens_from_indexes(&[vec![23858, 37861, 4, 4786, 4, 290, 4, 3258, 22092]]);
    assert_eq!(tokens.unwrap()[0], tokens_vec);
}

#[test]
fn basic_vocab_begins_with_the_markers() {
    let mut vocab = BasicVocab::new();
    assert_eq!(vocab.len(), 4);
    assert_eq!(
        vocab.tokens_from_indexes(&[0, 1, 2, 3]).unwrap(),
        vec!["[PAD]", "[SOS]", "[EOS]", "[SEP]"]
    );
    assert_eq!(
        (vocab.pad_token(), vocab.sos_token(), vocab.eos_token(), vocab.sep_token()),
        (0, 1, 2, 3)
    );
    vocab.add_token("word".to_string());
    assert_eq!(vocab.indexes_from_tokens(&["word".to_string()]).unwrap(), vec![4]);
    assert_eq!(vocab.len(), 5);
}

#[test]
fn lookups_fail_on_what_a_vocabulary_does_not_hold() {
    let vocab = BasicVocab::new();
    assert!(vocab.tokens_from_indexes(&[0, 4]).is_err());
    assert!(vocab.indexes_from_tokens(&["[PAD]".to_string(), "nope".to_string()]).is_err());
    assert!(vocab.batch_tokens_from_indexes(&[vec![0], vec![9]]).is_err());
    assert!(vocab.batch_indexes_from_tokens(&[vec![], vec!["nope".to_string()]]).is_err());
    assert_eq!(vocab.tokens_from_indexes(&[]).unwrap(), Vec::<String>::new());
}

#[test]
fn a_token_added_again_is_looked_up_at_its_new_index() {
    let mut vocab = BasicVocab::new();
    vocab.add_tokens(vec!["a".to_string(), "b".to_string(), "a".to_string()]);
    assert_eq!(vocab.indexes_from_tokens(&["a".to_string()]).unwrap(), vec![6]);
    assert_eq!(vocab.tokens_from_indexes(&[4, 6]).unwrap(), vec!["a", "a"]);
}

#[test]
fn byte_pair_vocabulary_from_json() {
    // Tokens are put in the order of their numbers; the characters '/' and 'Ġ' are taken
    // out of the text first, and a token that is empty after that counts for nothing.
    let vocab = BPEVocab::from_json("{\"b/\": 1, \"Ġa\": 0, \"Ġ\": 2, \"c\": 7}").unwrap();
    assert_eq!(vocab.len(), 7);
    assert!(!vocab.is_empty());
    assert_eq!(vocab.tokens_from_indexes(&[4, 5, 6]).unwrap(), vec!["a", "b", "c"]);
    assert!(BPEVocab::from_json("[1, 2]").is_none());
    assert!(BPEVocab::from_json("{\"a\": \"x\"}").is_none());
    assert!(BPEVocab::from_json("{\"a\": 50265}").is_none());
    assert!(BPEVocab::from_json("{\"a\": 50264}").is_some());
}

#[test]
fn removing_a_token_moves_the_later_ones_up() {
    let mut vocab = BasicVocab::new();
    vocab.add_tokens(vec!["a".to_string(), "b".to_string(), "c".to_string()]);
    vocab._remove_token("a");
    assert_eq!(vocab.len(), 6);
    assert_eq!(vocab.tokens_from_indexes(&[3, 4, 5]).unwrap(), vec!["[SEP]", "b", "c"]);
    assert_eq!(
        vocab.indexes_from_tokens(&["b".to_string(), "c".to_string(), "[PAD]".to_string()]).unwrap(),
        vec![4, 5, 0]
    );
    assert!(vocab.indexes_from_tokens(&["a".to_string()]).is_err());
    let (gone, missing) = ("c".to_string(), "zzz".to_string());
    vocab._remove_tokens(vec![&gone, &missing]);
    assert_eq!(vocab.len(), 5);
    assert_eq!(vocab.tokens_from_indexes(&[4]).unwrap(), vec!["b"]);
}

#[test]
fn vocabularies_are_stages() {
    let mut vocab = BasicVocab::new();
    vocab.add_tokens(vec!["a".to_string(), "b".to_string()]);
    assert_eq!(vocab.process(vec!["b".to_string(), "a".to_string()]), vec![5, 4]);
    assert_eq!(vocab.process(vec![5usize, 0]), vec!["b", "[PAD]"]);
    assert_eq!(vocab.process(vec![vec!["a".to_string()], vec![]]), vec![vec![4], vec![]]);
    assert_eq!(vocab.process(vec![vec![4usize], vec![0, 1]]), vec![vec!["a"], vec!["[PAD]", "[SOS]"]]);
    let mut lines = WordPieceVocab::from_lines("x\ny");
    assert_eq!(lines.process(vec!["y".to_string()]), vec![5]);
    assert_eq!(lines.process(vec![4usize]), vec!["x"]);
}
