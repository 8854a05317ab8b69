use super::Tokenizer;
use crate::text::join;
use crate::text::joined_with;
use crate::text::letters;
use crate::text::letters_of;
use crate::text::split;
use crate::text::split_on;
use crate::text::texts;
use vstd::prelude::*;

verus! {

/// A tokenizer whose tokens are the words between the spaces of the text.
#[derive(Debug, Clone, Copy)]
pub struct WhitespaceTokenizer {}

impl Tokenizer for WhitespaceTokenizer {
    /// The tokens are the pieces between the spaces.
    open spec fn cuts(&self, text: Seq<char>, tokens: Seq<Seq<char>>) -> bool {
        tokens == split_on(text, ' ')
    }

    /// In a batch the tokens are the characters of a text, each as a text of its own.
    open spec fn cuts_in_batch(&self, text: Seq<char>, tokens: Seq<Seq<char>>) -> bool {
        tokens == letters_of(text)
    }

    /// The text is the tokens one after the other, with a space between every two.
    open spec fn joins(&self, tokens: Seq<Seq<char>>, text: Seq<char>) -> bool {
        text == joined_with(tokens, seq![' '])
    }

    fn load() -> Self {
        WhitespaceTokenizer {  }
    }

    fn tokenize(&self, string: &str) -> (tokens: Vec<String>) {
        split(string, ' ')
    }

    fn batch_tokenize(&self, strings: Vec<String>) -> (batch: Vec<Vec<String>>) {
        let mut batch: Vec<Vec<String>> = Vec::new();
        let mut i: usize = 0;
        while i < strings.len()
            invariant
                i <= strings.len(),
                batch.len() == i,
                forall|k: int|
                    0 <= k < i ==> self.cuts_in_batch(strings[k]@, texts((#[trigger] batch[k])@)),
            decreases strings.len() - i,
        {
            batch.push(letters(strings[i].as_str()));
            i += 1;
        }
        batch
    }

    fn untokenize(&self, tokens: Vec<String>) -> (text: String) {
        let text = join(tokens.as_slice(), " ");
        proof {
            reveal_strlit(" ");
            assert(" "@ =~= seq![' ']);
        }
        text
    }

    fn batch_untokenize(&self, tokens: Vec<Vec<String>>) -> (batch: Vec<String>) {
        let mut batch: Vec<String> = Vec::new();
        let mut i: usize = 0;
        proof {
            reveal_strlit(" ");
            assert(" "@ =~= seq![' ']);
        }
        while i < tokens.len()
            invariant
                i <= tokens.len(),
                batch.len() == i,
                " "@ == seq![' '],
                forall|k: int|
                    0 <= k < i ==> self.joins(texts(tokens[k]@), (#[trigger] batch[k])@),
            decreases tokens.len() - i,
        {
            batch.push(join(tokens[i].as_slice(), " "));
            i += 1;
        }
        batch
    }
}

} // verus!
