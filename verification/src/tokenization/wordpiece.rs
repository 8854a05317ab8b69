use super::hf::encode;
use super::hf::encode_batch;
use super::hf::wordpiece_tokenizer;
use super::hf::HfTokenizer;
use crate::pipeline::loader::occurrences;
use crate::pipeline::loader::split_by;
use crate::pipeline::loader::split_text;
use crate::text::join;
use crate::text::joined_with;
use crate::text::same_text;
use crate::text::split;
use crate::text::split_on;
use crate::text::texts;
use vstd::prelude::*;

verus! {

/// `token` is a mark that stands close to the word before it.
pub open spec fn is_closing_mark(token: Seq<char>) -> bool {
    ||| token == seq!['.']
    ||| token == seq!['?']
    ||| token == seq!['!']
    ||| token == seq![',']
    ||| token == seq!['\'']
    ||| token == seq!['"']
}

/// `token` is one of the markers that are left out of a text.
pub open spec fn is_left_out(token: Seq<char>) -> bool {
    token == seq!['[', 'P', 'A', 'D', ']'] || token == seq!['[', 'E', 'O', 'S', ']']
}

/// `token` without the sign `##` that marks the continuation of a word.
pub open spec fn without_marks(token: Seq<char>) -> Seq<char> {
    joined_with(split_by(token, seq!['#', '#']), Seq::empty())
}

/// `text` with the token `token` put to it, where `first` says whether the token is the
/// first of all. A marker is left out. A continuation of a word, a closing mark and the
/// first token follow without a space, the continuation sign taken out; every other token
/// follows after a space.
pub open spec fn with_token(text: Seq<char>, token: Seq<char>, first: bool) -> Seq<char> {
    if is_left_out(token) {
        text
    } else if occurrences(token, seq!['#', '#']) > 0 || is_closing_mark(token) || first {
        text + without_marks(token)
    } else {
        text + seq![' '] + token
    }
}

/// The text that the tokens make up.
pub open spec fn untokenized(tokens: Seq<Seq<char>>) -> Seq<char>
    decreases tokens.len(),
{
    if tokens.len() == 0 {
        Seq::empty()
    } else {
        with_token(untokenized(tokens.drop_last()), tokens.last(), tokens.len() == 1)
    }
}

/// Whether `token` is a mark that stands close to the word before it.
fn closing_mark(token: &str) -> (is: bool)
    ensures
        is == is_closing_mark(token@),
{
    proof {
        reveal_strlit(".");
        reveal_strlit("?");
        reveal_strlit("!");
        reveal_strlit(",");
        reveal_strlit("'");
        reveal_strlit("\"");
        assert("."@ =~= seq!['.']);
        assert("?"@ =~= seq!['?']);
        assert("!"@ =~= seq!['!']);
        assert(","@ =~= seq![',']);
        assert("'"@ =~= seq!['\'']);
        assert("\""@ =~= seq!['"']);
    }
    same_text(token, ".") || same_text(token, "?") || same_text(token, "!") || same_text(token, ",")
        || same_text(token, "'") || same_text(token, "\"")
}

/// Puts tokens together into a text.
pub fn untokenize_pieces(tokens: &[String]) -> (text: String)
    ensures
        text@ == untokenized(texts(tokens@)),
{
    proof {
        reveal_strlit("[PAD]");
        reveal_strlit("[EOS]");
        reveal_strlit("##");
        reveal_strlit("");
        reveal_strlit(" ");
        assert("[PAD]"@ =~= seq!['[', 'P', 'A', 'D', ']']);
        assert("[EOS]"@ =~= seq!['[', 'E', 'O', 'S', ']']);
        assert("##"@ =~= seq!['#', '#']);
        assert(""@ =~= Seq::<char>::empty());
        assert(" "@ =~= seq![' ']);
    }
    let ghost all = texts(tokens@);
    let mut untokenized_string = String::new();
    let mut i: usize = 0;
    assert(all.take(0) =~= Seq::<Seq<char>>::empty());
    while i < tokens.len()
        invariant
            i <= tokens.len(),
            all == texts(tokens@),
            "[PAD]"@ == seq!['[', 'P', 'A', 'D', ']'],
            "[EOS]"@ == seq!['[', 'E', 'O', 'S', ']'],
            "##"@ == seq!['#', '#'],
            ""@ == Seq::<char>::empty(),
            " "@ == seq![' '],
            untokenized_string@ == untokenized(all.take(i as int)),
        decreases tokens.len() - i,
    {
        let token = tokens[i].as_str();
        assert(all.take(i + 1).drop_last() =~= all.take(i as int));
        assert(all.take(i + 1).last() == token@);
        if !same_text(token, "[PAD]") && !same_text(token, "[EOS]") {
            let pieces = split_text(token, "##");
            if pieces.len() > 1 || closing_mark(token) || i == 0 {
                let bare = join(pieces.as_slice(), "");
                untokenized_string.append(bare.as_str());
            } else {
                untokenized_string.append(" ");
                untokenized_string.append(token);
            }
        }
        i += 1;
    }
    assert(all.take(tokens.len() as int) =~= all);
    untokenized_string
}

/// The tokens of a word-piece vocabulary given as a text, one token on a line: every line
/// with its number, which begins again at 0 after the greatest number of 32 bits.
pub open spec fn numbered(lines: Seq<Seq<char>>) -> Seq<(Seq<char>, u32)> {
    Seq::new(lines.len(), |i: int| (lines[i], (i % 0x1_0000_0000) as u32))
}

/// A tokenizer that cuts words into the pieces of a vocabulary.
pub struct WordpieceTokenizer {
    hf_tokenizer: HfTokenizer,
    vocab: Ghost<Seq<(Seq<char>, u32)>>,
}

impl WordpieceTokenizer {
    /// The tokens that the tokenizer was built with, each with its number.
    pub closed spec fn vocab(&self) -> Seq<(Seq<char>, u32)> {
        self.vocab@
    }

    /// Every line of `text` with its number.
    pub fn numbered_lines(text: &str) -> (vocab: Vec<(String, u32)>)
        ensures
            vocab@.map_values(|entry: (String, u32)| (entry.0@, entry.1)) == numbered(
                split_on(text@, '\n'),
            ),
    {
        let lines = split(text, '\n');
        let ghost all = texts(lines@);
        let mut vocab: Vec<(String, u32)> = Vec::new();
        let mut number: u32 = 0;
        for line in it: lines.into_iter()
            invariant
                all == texts(it.seq()),
                number == it.index() % 0x1_0000_0000,
                vocab@.map_values(|entry: (String, u32)| (entry.0@, entry.1)) == numbered(
                    all.take(it.index() as int),
                ),
        {
            let ghost done = vocab@.map_values(|entry: (String, u32)| (entry.0@, entry.1));
            let ghost i = it.index() as int;
            assert(all[i] == line@);
            vocab.push((line, number));
            number = if number == u32::MAX {
                0
            } else {
                number + 1
            };
            assert(vocab@.map_values(|entry: (String, u32)| (entry.0@, entry.1)) =~= done.push(
                (all[i], (i % 0x1_0000_0000) as u32),
            ));
            assert(numbered(all.take(i + 1)) =~= done.push((all[i], (i % 0x1_0000_0000) as u32)));
        }
        assert(all.take(all.len() as int) =~= all);
        vocab
    }

    /// The tokenizer for the vocabulary in `vocab`, a text with one token on a line. A
    /// token's number is the number of its line. There is always one.
    pub fn from_vocab(vocab: &str) -> (loaded: Option<Self>)
        ensures
            loaded matches Some(tokenizer) && tokenizer.vocab() == numbered(
                split_on(vocab@, '\n'),
            ),
    {
        let lines = Self::numbered_lines(vocab);
        let ghost given = lines@.map_values(|entry: (String, u32)| (entry.0@, entry.1));
        match wordpiece_tokenizer(lines) {
            Some(hf_tokenizer) => Some(WordpieceTokenizer { hf_tokenizer, vocab: Ghost(given) }),
            None => None,
        }
    }

    /// Tokenize a single string. `None` where the tokenizer fails.
    pub fn tokenize(&self, string: &str) -> (tokens: Option<Vec<String>>) {
        encode(&self.hf_tokenizer, string)
    }

    /// Tokenize a batch of strings. `None` where the tokenizer fails.
    pub fn batch_tokenize(&self, strings: Vec<String>) -> (batch: Option<Vec<Vec<String>>>)
        ensures
            batch matches Some(found) ==> found.len() == strings.len(),
    {
        encode_batch(&self.hf_tokenizer, strings)
    }

    /// Untokenize a single string
    pub fn untokenize(&self, tokens: Vec<String>) -> (text: String)
        ensures
            text@ == untokenized(texts(tokens@)),
    {
        untokenize_pieces(tokens.as_slice())
    }

    /// Untokenize a batch of strings
    pub fn batch_untokenize(&self, tokens: Vec<Vec<String>>) -> (batch: Vec<String>)
        ensures
            batch.len() == tokens.len(),
            forall|i: int|
                0 <= i < tokens.len() ==> (#[trigger] batch[i])@ == untokenized(texts(tokens[i]@)),
    {
        let mut untokenized_strings: Vec<String> = Vec::new();
        let mut i: usize = 0;
        while i < tokens.len()
            invariant
                i <= tokens.len(),
                untokenized_strings.len() == i,
                forall|k: int|
                    0 <= k < i ==> (#[trigger] untokenized_strings[k])@ == untokenized(
                        texts(tokens[k]@),
                    ),
            decreases tokens.len() - i,
        {
            untokenized_strings.push(untokenize_pieces(tokens[i].as_slice()));
            i += 1;
        }
        untokenized_strings
    }
}

} // verus!
