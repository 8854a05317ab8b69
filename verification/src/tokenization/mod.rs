use crate::text::texts;
use vstd::prelude::*;

mod alphabet;
mod bpe;
pub use bpe::lemma_merges_are_known;
pub use bpe::lemma_numbered_stand;
pub use bpe::lemma_token_is_held;
pub use bpe::merge_of;
pub use bpe::merges_of;
pub use bpe::number_tokens;
pub use bpe::numbered_tokens;
pub use bpe::numbers_of;
pub use bpe::pair_texts;
pub use bpe::read_merges;
pub use bpe::BPETokenizer;
pub use alphabet::AlphabetTokenizer;
mod nodes;
pub use nodes::cuts_batch;
mod sentence;
pub use sentence::cut_sentences;
pub use sentence::is_stop;
pub use sentence::kept_sentences;
pub use sentence::regex_pieces;
pub use sentence::scan_sentences;
pub use sentence::split_keep;
pub use sentence::stop_pattern;
pub use sentence::trim_each;
pub use sentence::trimmed_each;
pub use sentence::SentenceTokenizer;
mod hf;
pub use hf::holds_token;
pub use hf::merges_fit;
mod whitespace;
mod wordpiece;
pub use wordpiece::is_closing_mark;
pub use wordpiece::is_left_out;
pub use wordpiece::numbered;
pub use wordpiece::untokenize_pieces;
pub use wordpiece::untokenized;
pub use wordpiece::with_token;
pub use wordpiece::without_marks;
pub use wordpiece::WordpieceTokenizer;
pub use whitespace::WhitespaceTokenizer;

verus! {

/// A tokenizer: it cuts a text into tokens and puts tokens together into a text.
///
/// What a tokenizer does is given by relations, which say no more of a tokenizer than is
/// known of it.
pub trait Tokenizer: Sized {
    /// `tokenize` may cut `text` into `tokens`. Nothing is known of the tokens, unless a
    /// tokenizer says so.
    open spec fn cuts(&self, text: Seq<char>, tokens: Seq<Seq<char>>) -> bool {
        true
    }

    /// `batch_tokenize` may cut the text `text` of a batch into `tokens`. Nothing is known
    /// of the tokens, unless a tokenizer says so.
    open spec fn cuts_in_batch(&self, text: Seq<char>, tokens: Seq<Seq<char>>) -> bool {
        true
    }

    /// `untokenize` may put `tokens` together into `text`. Nothing is known of the text,
    /// unless a tokenizer says so.
    open spec fn joins(&self, tokens: Seq<Seq<char>>, text: Seq<char>) -> bool {
        true
    }

    /// Load the tokenizer
    fn load() -> Self;

    /// Tokenize a single string
    fn tokenize(&self, string: &str) -> (tokens: Vec<String>)
        ensures
            self.cuts(string@, texts(tokens@)),
    ;

    /// Tokenize a batch of strings
    fn batch_tokenize(&self, strings: Vec<String>) -> (batch: Vec<Vec<String>>)
        ensures
            batch.len() == strings.len(),
            forall|i: int|
                0 <= i < strings.len() ==> self.cuts_in_batch(
                    strings[i]@,
                    texts((#[trigger] batch[i])@),
                ),
    ;

    /// Untokenize a single string
    fn untokenize(&self, tokens: Vec<String>) -> (text: String)
        ensures
            self.joins(texts(tokens@), text@),
    ;

    /// Untokenize a batch of strings
    fn batch_untokenize(&self, tokens: Vec<Vec<String>>) -> (batch: Vec<String>)
        ensures
            batch.len() == tokens.len(),
            forall|i: int|
                0 <= i < tokens.len() ==> self.joins(texts(tokens[i]@), (#[trigger] batch[i])@),
    ;
}

} // verus!
