use super::AlphabetTokenizer;
use super::Tokenizer;
use super::WhitespaceTokenizer;
use crate::pipeline::Node;
use crate::text::texts;
use vstd::prelude::*;

verus! {

/// `batch` holds, for each text of `strings` in turn, tokens into which `tokenizer` may
/// cut it in a batch.
pub open spec fn cuts_batch<T: Tokenizer>(
    tokenizer: T,
    strings: Seq<String>,
    batch: Seq<Vec<String>>,
) -> bool {
    &&& batch.len() == strings.len()
    &&& forall|i: int|
        0 <= i < strings.len() ==> tokenizer.cuts_in_batch(
            strings[i]@,
            texts((#[trigger] batch[i])@),
        )
}

/// The alphabet tokenizer as a stage that cuts one text.
impl Node<String> for AlphabetTokenizer {
    type Output = Vec<String>;

    open spec fn produces(&self, input: String, post: Self, output: Vec<String>) -> bool {
        self.cuts(input@, texts(output@))
    }

    fn process(&mut self, input: String) -> (output: Vec<String>) {
        self.tokenize(input.as_str())
    }

    fn reset(&mut self) {
    }

    fn data_remaining(&self, before: usize) -> (after: usize) {
        before
    }
}

/// The alphabet tokenizer as a stage that cuts one borrowed text.
impl<'a> Node<&'a str> for AlphabetTokenizer {
    type Output = Vec<String>;

    open spec fn produces(&self, input: &'a str, post: Self, output: Vec<String>) -> bool {
        self.cuts(input@, texts(output@))
    }

    fn process(&mut self, input: &'a str) -> (output: Vec<String>) {
        self.tokenize(input)
    }

    fn reset(&mut self) {
    }

    fn data_remaining(&self, before: usize) -> (after: usize) {
        before
    }
}

/// The alphabet tokenizer as a stage that cuts a batch of texts.
impl Node<Vec<String>> for AlphabetTokenizer {
    type Output = Vec<Vec<String>>;

    open spec fn produces(&self, input: Vec<String>, post: Self, output: Vec<Vec<String>>) -> bool {
        cuts_batch(*self, input@, output@)
    }

    fn process(&mut self, input: Vec<String>) -> (output: Vec<Vec<String>>) {
        self.batch_tokenize(input)
    }

    fn reset(&mut self) {
    }

    fn data_remaining(&self, before: usize) -> (after: usize) {
        before
    }
}

/// The whitespace tokenizer as a stage that cuts one text.
impl Node<String> for WhitespaceTokenizer {
    type Output = Vec<String>;

    open spec fn produces(&self, input: String, post: Self, output: Vec<String>) -> bool {
        self.cuts(input@, texts(output@))
    }

    fn process(&mut self, input: String) -> (output: Vec<String>) {
        self.tokenize(input.as_str())
    }

    fn reset(&mut self) {
    }

    fn data_remaining(&self, before: usize) -> (after: usize) {
        before
    }
}

/// The whitespace tokenizer as a stage that cuts one borrowed text.
impl<'a> Node<&'a str> for WhitespaceTokenizer {
    type Output = Vec<String>;

    open spec fn produces(&self, input: &'a str, post: Self, output: Vec<String>) -> bool {
        self.cuts(input@, texts(output@))
    }

    fn process(&mut self, input: &'a str) -> (output: Vec<String>) {
        self.tokenize(input)
    }

    fn reset(&mut self) {
    }

    fn data_remaining(&self, before: usize) -> (after: usize) {
        before
    }
}

/// The whitespace tokenizer as a stage that cuts a batch of texts.
impl Node<Vec<String>> for WhitespaceTokenizer {
    type Output = Vec<Vec<String>>;

    open spec fn produces(&self, input: Vec<String>, post: Self, output: Vec<Vec<String>>) -> bool {
        cuts_batch(*self, input@, output@)
    }

    fn process(&mut self, input: Vec<String>) -> (output: Vec<Vec<String>>) {
        self.batch_tokenize(input)
    }

    fn reset(&mut self) {
    }

    fn data_remaining(&self, before: usize) -> (after: usize) {
        before
    }
}

} // verus!
