// TOKENIZATION TESTS
use dataflow::pipeline::Node;
use dataflow::tokenization::split_keep;
use dataflow::tokenization::AlphabetTokenizer;
use dataflow::tokenization::SentenceTokenizer;
use dataflow::tokenization::Tokenizer;
use dataflow::tokenization::WhitespaceTokenizer;

#[test]
fn tokenize_alphabet() {
    let letters: Vec<String> = vec!["h", "e", "l", "l", "o"].iter().map(|t| (*t).to_string()).collect();
    let tokenizer = AlphabetTokenizer::load();
    assert_eq!(tokenizer.tokenize("hello"), letters);
}

#[test]
fn tokenize_spaces() {
    let tokens: Vec<String> = vec!["hello", "how", "are", "you"].iter().map(|t| (*t).to_string()).collect();
    let tokenizer = WhitespaceTokenizer::load();
    assert_eq!(tokenizer.tokenize("hello how are you"), tokens);
}

#[test]
fn tokenize_sentences() {
    let tokens: Vec<String> = vec!["hello, how are you?", "good, how are you?"].iter().map(|t| (*t).to_string()).collect();
    let tokenizer = SentenceTokenizer::load();
    assert_eq!(tokenizer.tokenize("hello, how are you? good, how are you?"), tokens);
}

#[test]
fn untokenize_alphabet() {
    let sentence = "hello, how are you?";
    let tokenizer = AlphabetTokenizer::load();
    let tokens = tokenizer.tokenize(sentence);
    assert_eq!(tokenizer.untokenize(tokens), sentence.to_string());
}

#[test]
fn untokenize_spaces() {
    let sentence = "hello, how are you?";
    let tokenizer = WhitespaceTokenizer::load();
    let tokens = tokenizer.tokenize(sentence);
    assert_eq!(tokenizer.untokenize(tokens), sentence.to_string());
}

#[test]
fn untokenize_sentences() {
    let sentence = "hello how are you? good, how are you?";
    let tokenizer = WhitespaceTokenizer::load();
    let tokens = tokenizer.tokenize(sentence);
    assert_eq!(tokenizer.untokenize(tokens), sentence.to_string());
}

#[test]
fn split_keep_leaves_a_single_trailing_character_out() {
    assert_eq!(split_keep("a.b"), vec!["a.".to_string()]);
    assert_eq!(split_keep("a..bc"), vec!["a.".to_string(), ".bc".to_string()]);
    assert_eq!(split_keep(""), Vec::<String>::new());
    assert_eq!(split_keep(".a!"), vec![".a!".to_string()]);
}

#[test]
fn sentences_without_stops_are_cut_by_the_pattern() {
    // The pattern's unescaped dot matches every character but a line break, so every
    // piece between two matches is empty.
    let tokenizer = SentenceTokenizer::new(false);
    assert_eq!(tokenizer.tokenize("ab"), vec!["".to_string(), "".to_string(), "".to_string()]);
    assert_eq!(tokenizer.tokenize("a\nb"), vec!["".to_string(), "".to_string(), "".to_string()]);
    assert_eq!(tokenizer.tokenize(""), vec!["".to_string()]);
}

#[test]
fn batch_forms_of_the_tokenizers() {
    let alphabet = AlphabetTokenizer::load();
    assert_eq!(
        alphabet.batch_tokenize(vec!["ab".to_string()]),
        vec![vec!["".to_string(), "a".to_string(), "b".to_string(), "".to_string()]]
    );
    let spaces = WhitespaceTokenizer::load();
    assert_eq!(
        spaces.batch_tokenize(vec!["a b".to_string()]),
        vec![vec!["a".to_string(), " ".to_string(), "b".to_string()]]
    );
    assert_eq!(
        spaces.batch_untokenize(vec![vec!["a".to_string(), "b".to_string()], vec![]]),
        vec!["a b".to_string(), "".to_string()]
    );
    let sentences = SentenceTokenizer::load();
    assert_eq!(
        sentences.batch_tokenize(vec!["Hi there!  You too.".to_string()]),
        vec![vec!["Hi there!".to_string(), "You too.".to_string()]]
    );
    assert_eq!(
        sentences.untokenize(vec!["Hi there!".to_string(), "You too.".to_string()]),
        "Hi there! You too.".to_string()
    );
}

#[test]
fn trimming_takes_unicode_white_space_off_both_ends() {
    assert_eq!(dataflow::text::trim(" \t\u{3000}a b\u{a0}\n"), "a b".to_string());
    assert_eq!(dataflow::text::trim(" \t "), "".to_string());
    assert_eq!(dataflow::text::trim("\u{200b}a"), "\u{200b}a".trim().to_string());
    for code in 0u32..0x3100 {
        if let Some(c) = char::from_u32(code) {
            assert_eq!(dataflow::text::is_white(c), c.is_whitespace());
        }
    }
}

#[test]
fn splitting_and_joining_texts() {
    assert_eq!(dataflow::text::split("a,,b,", ','), vec!["a", "", "b", ""]);
    assert_eq!(dataflow::text::split("", ','), vec![""]);
    let parts = vec!["a".to_string(), "".to_string(), "b".to_string()];
    assert_eq!(dataflow::text::join(&parts, ", "), "a, , b".to_string());
    assert_eq!(dataflow::text::join(&[], ", "), "".to_string());
}

/// A byte-pair vocabulary and its merges for the words of the tests.
fn bpe_parts() -> (String, String) {
    let tokens = [
        "h", "e", "l", "o", ",", " ", "w", "a", "r", "y", "u", "?", "he", "ll", "hell", "hello",
        "ho", "how", "ar", "are", "yo", "you",
    ];
    let entries: Vec<String> = tokens
        .iter()
        .enumerate()
        .map(|(place, token)| format!("{:?}: {}", token, place))
        .collect();
    let vocab = format!("{{{}}}", entries.join(", "));
    let merges = "#version: 0.2\nh e\nl l\nhe ll\nhell o\nh o\nho w\na r\nar e\ny o\nyo u\nq z\n";
    (vocab, merges.to_string())
}

fn load_bpe() -> dataflow::tokenization::BPETokenizer {
    let (vocab, merges) = bpe_parts();
    dataflow::tokenization::BPETokenizer::from_parts(&vocab, &merges).unwrap()
}

fn load_wordpiece() -> dataflow::tokenization::WordpieceTokenizer {
    let vocab = "[UNK]\nhello\n,\nhow\nare\nyou\n?\nto\n##ken";
    dataflow::tokenization::WordpieceTokenizer::from_vocab(vocab).unwrap()
}

#[test]
fn tokenize_bpe() {
    let tokens: Vec<String> = vec!["hello", ",", " ", "how", " ", "are", " ", "you"].iter().map(|str| str.to_string()).collect();
    let tokenizer = load_bpe();
    assert_eq!(tokenizer.batch_tokenize(vec!["hello, how are you".to_string()]).unwrap(), vec![tokens.clone()]);
    assert_eq!(tokenizer.tokenize("hello, how are you").unwrap(), tokens);
}

#[test]
fn tokenize_wordpiece() {
    let tokens: Vec<String> = vec!["hello", ",", "how", "are", "you"].iter().map(|str| str.to_string()).collect();
    let tokenizer = load_wordpiece();
    assert_eq!(tokenizer.batch_tokenize(vec!["hello, how are you".to_string()]).unwrap(), vec![tokens.clone()]);
    assert_eq!(tokenizer.tokenize("hello, how are you").unwrap(), tokens);
}

#[test]
fn untokenize_bpe() {
    let sentence = "hello, how are you?";
    let tokenizer = load_bpe();
    let tokens = tokenizer.tokenize(sentence).unwrap();
    assert_eq!(tokenizer.untokenize(tokens), sentence.to_string());
}

#[test]
fn untokenize_wordpiece() {
    let sentence = "hello, how are you?";
    let tokenizer = load_wordpiece();
    let tokens = tokenizer.tokenize(sentence).unwrap();
    assert_eq!(tokenizer.untokenize(tokens), sentence.to_string());
}

#[test]
fn word_pieces_are_put_together_without_their_marks() {
    let tokenizer = load_wordpiece();
    assert_eq!(tokenizer.tokenize("token").unwrap(), vec!["to", "##ken"]);
    let tokens: Vec<String> = ["[PAD]", "to", "##ken", "!", "you", "[EOS]", "'"]
        .iter()
        .map(|token| token.to_string())
        .collect();
    assert_eq!(tokenizer.untokenize(tokens.clone()), " token! you'".to_string());
    assert_eq!(
        tokenizer.batch_untokenize(vec![tokens, vec!["you".to_string(), "are".to_string()]]),
        vec![" token! you'".to_string(), "you are".to_string()]
    );
}

#[test]
fn merges_are_read_for_the_tokens_that_the_vocabulary_holds() {
    let (numbered, known) = dataflow::tokenization::number_tokens(vec![
        "a".to_string(),
        "b".to_string(),
        "ab".to_string(),
        "a".to_string(),
        "c".to_string(),
    ]);
    let numbers: Vec<u32> = numbered.iter().map(|(_, number)| *number).collect();
    assert_eq!(numbers, vec![0, 1, 2, 3, 3]);
    let merges = dataflow::tokenization::read_merges("a b\nb c\nĠa ##b\na#b c\nab\n\na b c", &known);
    assert_eq!(
        merges,
        vec![
            ("a".to_string(), "b".to_string()),
            ("a".to_string(), "b".to_string()),
            ("a".to_string(), "b".to_string())
        ]
    );
    assert!(dataflow::tokenization::BPETokenizer::from_parts("not json", "").is_none());
}

#[test]
fn tokenizers_are_stages() {
    let mut alphabet = AlphabetTokenizer::load();
    assert_eq!(alphabet.process("ab"), vec!["a", "b"]);
    assert_eq!(alphabet.process("ab".to_string()), vec!["a", "b"]);
    assert_eq!(alphabet.process(vec!["a".to_string()]), vec![vec!["", "a", ""]]);
    let mut spaces = WhitespaceTokenizer::load();
    assert_eq!(spaces.process("a b"), vec!["a", "b"]);
    assert_eq!(spaces.process("a b".to_string()), vec!["a", "b"]);
    assert_eq!(spaces.process(vec!["ab".to_string()]), vec![vec!["a", "b"]]);
}

#[test]
fn tokenizers_are_built_from_every_valid_vocabulary() {
    assert!(dataflow::tokenization::WordpieceTokenizer::from_vocab("").is_some());
    assert!(dataflow::tokenization::WordpieceTokenizer::from_vocab("a\na\n\n##b").is_some());
    assert!(dataflow::tokenization::BPETokenizer::from_parts("{}", "").is_some());
    // A merge that names a token outside the vocabulary is left out before the build.
    assert!(dataflow::tokenization::BPETokenizer::from_parts("{\"a\": 0, \"b\": 1}", "a b\nb a").is_some());
    assert!(dataflow::tokenization::BPETokenizer::from_parts("{\"a\": 0, \"b\": 1, \"ab\": 2}", "a b").is_some());
    assert!(dataflow::tokenization::BPETokenizer::from_parts("{\"a\": 50265}", "").is_none());
    assert!(dataflow::tokenization::BPETokenizer::from_parts("{\"a\": -1}", "").is_none());
    assert!(dataflow::tokenization::BPETokenizer::from_parts("{\"a\": 0", "").is_none());
}
