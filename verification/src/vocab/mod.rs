use crate::text::texts;
use vstd::prelude::*;

mod basic;
pub use basic::index_of;
pub use basic::lemma_index_of;
pub use basic::lemma_index_of_distinct;
pub use basic::BasicVocab;
pub(crate) mod bpe;
pub use bpe::entry_texts;
pub use bpe::filled;
pub use bpe::all_in_table;
pub use bpe::in_table;
pub use bpe::json_object;
pub use bpe::lemma_listed_in_table;
pub use bpe::lists;
pub use bpe::placed;
pub use bpe::read_texts;
pub use bpe::ordered_tokens;
pub use bpe::remove_chars;
pub use bpe::table_of;
pub use bpe::without;
pub use bpe::BPEVocab;
pub use bpe::BPE_TABLE_SIZE;
mod nodes;
pub use nodes::batch_indexed;
pub use nodes::batch_indexes_are;
pub use nodes::batch_known;
pub use nodes::batch_tokens_are;
mod wordpiece;
pub use wordpiece::WordPieceVocab;

verus! {

/// A token or an index that a vocabulary does not hold was looked up.
#[derive(Debug)]
pub struct TokenNotFoundError;

/// Every index of `indexes` stands for a token of `tokens`.
pub open spec fn all_indexed(tokens: Seq<Seq<char>>, indexes: Seq<usize>) -> bool {
    forall|i: int| 0 <= i < indexes.len() ==> #[trigger] indexes[i] < tokens.len()
}

/// The tokens that `indexes` stand for.
pub open spec fn tokens_at(tokens: Seq<Seq<char>>, indexes: Seq<usize>) -> Seq<Seq<char>> {
    indexes.map_values(|index: usize| tokens[index as int])
}

/// Every word of `words` has an index in `index`.
pub open spec fn all_known(index: Map<Seq<char>, usize>, words: Seq<Seq<char>>) -> bool {
    forall|i: int| 0 <= i < words.len() ==> index.contains_key(#[trigger] words[i])
}

/// The indexes of `words`.
pub open spec fn indexes_at(index: Map<Seq<char>, usize>, words: Seq<Seq<char>>) -> Seq<usize> {
    words.map_values(|word: Seq<char>| index[word])
}

/// The four marker tokens that every vocabulary begins with.
pub open spec fn markers() -> Seq<Seq<char>> {
    seq!["[PAD]"@, "[SOS]"@, "[EOS]"@, "[SEP]"@]
}

/// A trait every vocab object must implement
pub trait Vocab: Sized {
    /// The tokens, each at its index.
    spec fn tokens(&self) -> Seq<Seq<char>>;

    /// The index of each token.
    spec fn index(&self) -> Map<Seq<char>, usize>;

    /// The vocabulary's own state is well formed.
    spec fn wf(&self) -> bool;

    fn len(&self) -> (count: usize)
        requires
            self.wf(),
        ensures
            count == self.tokens().len(),
    ;

    fn is_empty(&self) -> (empty: bool)
        requires
            self.wf(),
        ensures
            empty == (self.tokens().len() == 0),
    {
        self.len() == 0
    }

    /// The tokens at `indexes`. The lookup fails where an index stands for no token.
    fn tokens_from_indexes(&self, indexes: &[usize]) -> (found: Result<
        Vec<String>,
        TokenNotFoundError,
    >)
        requires
            self.wf(),
        ensures
            found is Ok <==> all_indexed(self.tokens(), indexes@),
            found matches Ok(tokens) ==> texts(tokens@) == tokens_at(self.tokens(), indexes@),
    ;

    /// The tokens at the indexes of every sentence. Fails where any of the lookups fails.
    fn batch_tokens_from_indexes(&self, indexes: &[Vec<usize>]) -> (found: Result<
        Vec<Vec<String>>,
        TokenNotFoundError,
    >)
        requires
            self.wf(),
        ensures
            found is Ok <==> forall|i: int|
                0 <= i < indexes.len() ==> all_indexed(self.tokens(), (#[trigger] indexes[i])@),
            found matches Ok(tokens) ==> {
                &&& tokens.len() == indexes.len()
                &&& forall|i: int|
                    0 <= i < indexes.len() ==> texts((#[trigger] tokens[i])@) == tokens_at(
                        self.tokens(),
                        indexes[i]@,
                    )
            },
    ;

    /// The indexes of `tokens`. The lookup fails where the vocabulary does not hold one of
    /// the tokens.
    fn indexes_from_tokens(&self, tokens: &[String]) -> (found: Result<
        Vec<usize>,
        TokenNotFoundError,
    >)
        requires
            self.wf(),
        ensures
            found is Ok <==> all_known(self.index(), texts(tokens@)),
            found matches Ok(indexes) ==> indexes@ == indexes_at(self.index(), texts(tokens@)),
    ;

    /// The indexes of the tokens of every sentence. Fails where any of the lookups fails.
    fn batch_indexes_from_tokens(&self, tokens: &[Vec<String>]) -> (found: Result<
        Vec<Vec<usize>>,
        TokenNotFoundError,
    >)
        requires
            self.wf(),
        ensures
            found is Ok <==> forall|i: int|
                0 <= i < tokens.len() ==> all_known(self.index(), texts((#[trigger] tokens[i])@)),
            found matches Ok(indexes) ==> {
                &&& indexes.len() == tokens.len()
                &&& forall|i: int|
                    0 <= i < tokens.len() ==> (#[trigger] indexes[i])@ == indexes_at(
                        self.index(),
                        texts(tokens[i]@),
                    )
            },
    ;
}

} // verus!
