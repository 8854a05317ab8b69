use super::markers;
use super::BasicVocab;
use super::TokenNotFoundError;
use super::Vocab;
use crate::text::split;
use crate::text::split_on;
use vstd::prelude::*;

verus! {

/// The vocabulary of a word-piece tokenizer: one token on every line of a text.
pub struct WordPieceVocab {
    vocab: BasicVocab,
}

impl WordPieceVocab {
    /// The vocabulary that does the work.
    pub closed spec fn inner(&self) -> BasicVocab {
        self.vocab
    }

    /// The vocabulary of the lines of `text`, in their order, after the marker tokens.
    pub fn from_lines(text: &str) -> (loaded: Self)
        ensures
            loaded.wf(),
            loaded.tokens() == markers() + split_on(text@, '\n'),
    {
        let tokens = split(text, '\n');
        let mut vocab = BasicVocab::new();
        vocab.add_tokens(tokens);
        WordPieceVocab { vocab }
    }
}

impl Vocab for WordPieceVocab {
    open spec fn tokens(&self) -> Seq<Seq<char>> {
        self.inner().tokens()
    }

    open spec fn index(&self) -> Map<Seq<char>, usize> {
        self.inner().index()
    }

    open spec fn wf(&self) -> bool {
        self.inner().wf()
    }

    fn len(&self) -> (count: usize) {
        self.vocab.len()
    }

    fn tokens_from_indexes(&self, indexes: &[usize]) -> (found: Result<
        Vec<String>,
        TokenNotFoundError,
    >) {
        self.vocab.tokens_from_indexes(indexes)
    }

    fn batch_tokens_from_indexes(&self, indexes: &[Vec<usize>]) -> (found: Result<
        Vec<Vec<String>>,
        TokenNotFoundError,
    >) {
        self.vocab.batch_tokens_from_indexes(indexes)
    }

    fn indexes_from_tokens(&self, tokens: &[String]) -> (found: Result<
        Vec<usize>,
        TokenNotFoundError,
    >) {
        self.vocab.indexes_from_tokens(tokens)
    }

    fn batch_indexes_from_tokens(&self, tokens: &[Vec<String>]) -> (found: Result<
        Vec<Vec<usize>>,
        TokenNotFoundError,
    >) {
        self.vocab.batch_indexes_from_tokens(tokens)
    }
}

} // verus!
