use super::Tokenizer;
use crate::text::join;
use crate::text::joined_with;
use crate::text::letters;
use crate::text::letters_of;
use crate::text::texts;
use vstd::prelude::*;

verus! {

/// A tokenizer whose tokens are the single characters of the text.
#[derive(Debug, Clone, Copy)]
pub struct AlphabetTokenizer {}

impl Tokenizer for AlphabetTokenizer {
    /// The tokens are the characters of the text, each as a text of its own.
    open spec fn cuts(&self, text: Seq<char>, tokens: Seq<Seq<char>>) -> bool {
        tokens == letters_of(text)
    }

    /// In a batch the characters of a text stand between two empty tokens.
    open spec fn cuts_in_batch(&self, text: Seq<char>, tokens: Seq<Seq<char>>) -> bool {
        tokens == seq![Seq::<char>::empty()] + letters_of(text) + seq![Seq::<char>::empty()]
    }

    /// The text is the tokens one after the other.
    open spec fn joins(&self, tokens: Seq<Seq<char>>, text: Seq<char>) -> bool {
        text == joined_with(tokens, Seq::empty())
    }

    fn load() -> Self {
        AlphabetTokenizer {  }
    }

    fn tokenize(&self, string: &str) -> (tokens: Vec<String>) {
        letters(string)
    }

    fn batch_tokenize(&self, strings: Vec<String>) -> (batch: Vec<Vec<String>>) {
        let mut batch: Vec<Vec<String>> = Vec::new();
        let mut i: usize = 0;
        while i < strings.len()
            invariant
                i <= strings.len(),
                batch.len() == i,
                forall|k: int|
                    0 <= k < i ==> self.cuts_in_batch(strings[k]@, texts((#[trigger] batch[k])@)),
            decreases strings.len() - i,
        {
            let mut tokens: Vec<String> = Vec::new();
            tokens.push(String::new());
            let mut inner = letters(strings[i].as_str());
            let ghost middle = texts(inner@);
            tokens.append(&mut inner);
            tokens.push(String::new());
            assert(texts(tokens@) =~= seq![Seq::<char>::empty()] + middle + seq![
                Seq::<char>::empty(),
            ]);
            batch.push(tokens);
            i += 1;
        }
        batch
    }

    fn untokenize(&self, tokens: Vec<String>) -> (text: String) {
        let text = join(tokens.as_slice(), "");
        proof {
            reveal_strlit("");
            assert(""@ =~= Seq::<char>::empty());
        }
        text
    }

    fn batch_untokenize(&self, tokens: Vec<Vec<String>>) -> (batch: Vec<String>) {
        let mut batch: Vec<String> = Vec::new();
        let mut i: usize = 0;
        proof {
            reveal_strlit("");
            assert(""@ =~= Seq::<char>::empty());
        }
        while i < tokens.len()
            invariant
                i <= tokens.len(),
                batch.len() == i,
                ""@ == Seq::<char>::empty(),
                forall|k: int|
                    0 <= k < i ==> self.joins(texts(tokens[k]@), (#[trigger] batch[k])@),
            decreases tokens.len() - i,
        {
            batch.push(join(tokens[i].as_slice(), ""));
            i += 1;
        }
        batch
    }
}

} // verus!
