use super::all_indexed;
use super::all_known;
use super::indexes_at;
use super::tokens_at;
use super::BPEVocab;
use super::BasicVocab;
use super::Vocab;
use super::WordPieceVocab;
use crate::pipeline::Node;
use crate::text::texts;
use vstd::pervasive::unreached;
use vstd::prelude::*;

verus! {

/// Every sentence of `batch` holds only tokens that `index` knows.
pub open spec fn batch_known(index: Map<Seq<char>, usize>, batch: Seq<Vec<String>>) -> bool {
    forall|i: int| 0 <= i < batch.len() ==> all_known(index, texts((#[trigger] batch[i])@))
}

/// Every sentence of `batch` holds only indexes that stand for a token of `tokens`.
pub open spec fn batch_indexed(tokens: Seq<Seq<char>>, batch: Seq<Vec<usize>>) -> bool {
    forall|i: int| 0 <= i < batch.len() ==> all_indexed(tokens, (#[trigger] batch[i])@)
}

/// `found` holds the indexes of the tokens of every sentence of `batch`.
pub open spec fn batch_indexes_are(
    index: Map<Seq<char>, usize>,
    batch: Seq<Vec<String>>,
    found: Seq<Vec<usize>>,
) -> bool {
    &&& found.len() == batch.len()
    &&& forall|i: int|
        0 <= i < batch.len() ==> (#[trigger] found[i])@ == indexes_at(index, texts(batch[i]@))
}

/// `found` holds the tokens at the indexes of every sentence of `batch`.
pub open spec fn batch_tokens_are(
    tokens: Seq<Seq<char>>,
    batch: Seq<Vec<usize>>,
    found: Seq<Vec<String>>,
) -> bool {
    &&& found.len() == batch.len()
    &&& forall|i: int|
        0 <= i < batch.len() ==> texts((#[trigger] found[i])@) == tokens_at(tokens, batch[i]@)
}

/// A vocabulary as a stage that turns sentences of tokens into sentences of indexes. It takes only tokens that it holds.
impl Node<Vec<Vec<String>>> for BasicVocab {
    type Output = Vec<Vec<usize>>;

    open spec fn inv(&self) -> bool {
        self.wf()
    }

    open spec fn accepts(&self, input: Vec<Vec<String>>) -> bool {
        batch_known(self.index(), input@)
    }

    open spec fn produces(&self, input: Vec<Vec<String>>, post: Self, output: Vec<Vec<usize>>) -> bool {
        post == *self && batch_indexes_are(self.index(), input@, output@)
    }

    open spec fn resets_to(&self, post: Self) -> bool {
        post == *self
    }

    fn process(&mut self, input: Vec<Vec<String>>) -> (output: Vec<Vec<usize>>) {
        match self.batch_indexes_from_tokens(input.as_slice()) {
            Ok(found) => found,
            Err(_) => unreached(),
        }
    }

    fn reset(&mut self) {
    }

    fn data_remaining(&self, before: usize) -> (after: usize) {
        before
    }
}

/// A vocabulary as a stage that turns tokens into indexes. It takes only tokens that it holds.
impl Node<Vec<String>> for BasicVocab {
    type Output = Vec<usize>;

    open spec fn inv(&self) -> bool {
        self.wf()
    }

    open spec fn accepts(&self, input: Vec<String>) -> bool {
        all_known(self.index(), texts(input@))
    }

    open spec fn produces(&self, input: Vec<String>, post: Self, output: Vec<usize>) -> bool {
        post == *self && output@ == indexes_at(self.index(), texts(input@))
    }

    open spec fn resets_to(&self, post: Self) -> bool {
        post == *self
    }

    fn process(&mut self, input: Vec<String>) -> (output: Vec<usize>) {
        match self.indexes_from_tokens(input.as_slice()) {
            Ok(found) => found,
            Err(_) => unreached(),
        }
    }

    fn reset(&mut self) {
    }

    fn data_remaining(&self, before: usize) -> (after: usize) {
        before
    }
}

/// A vocabulary as a stage that turns sentences of indexes into sentences of tokens. It takes only indexes that stand for a token.
impl Node<Vec<Vec<usize>>> for BasicVocab {
    type Output = Vec<Vec<String>>;

    open spec fn inv(&self) -> bool {
        self.wf()
    }

    open spec fn accepts(&self, input: Vec<Vec<usize>>) -> bool {
        batch_indexed(self.tokens(), input@)
    }

    open spec fn produces(&self, input: Vec<Vec<usize>>, post: Self, output: Vec<Vec<String>>) -> bool {
        post == *self && batch_tokens_are(self.tokens(), input@, output@)
    }

    open spec fn resets_to(&self, post: Self) -> bool {
        post == *self
    }

    fn process(&mut self, input: Vec<Vec<usize>>) -> (output: Vec<Vec<String>>) {
        match self.batch_tokens_from_indexes(input.as_slice()) {
            Ok(found) => found,
            Err(_) => unreached(),
        }
    }

    fn reset(&mut self) {
    }

    fn data_remaining(&self, before: usize) -> (after: usize) {
        before
    }
}

/// A vocabulary as a stage that turns indexes into tokens. It takes only indexes that stand for a token.
impl Node<Vec<usize>> for BasicVocab {
    type Output = Vec<String>;

    open spec fn inv(&self) -> bool {
        self.wf()
    }

    open spec fn accepts(&self, input: Vec<usize>) -> bool {
        all_indexed(self.tokens(), input@)
    }

    open spec fn produces(&self, input: Vec<usize>, post: Self, output: Vec<String>) -> bool {
        post == *self && texts(output@) == tokens_at(self.tokens(), input@)
    }

    open spec fn resets_to(&self, post: Self) -> bool {
        post == *self
    }

    fn process(&mut self, input: Vec<usize>) -> (output: Vec<String>) {
        match self.tokens_from_indexes(input.as_slice()) {
            Ok(found) => found,
            Err(_) => unreached(),
        }
    }

    fn reset(&mut self) {
    }

    fn data_remaining(&self, before: usize) -> (after: usize) {
        before
    }
}

/// A byte-pair vocabulary as a stage that turns sentences of tokens into sentences of indexes. It takes only tokens that it holds.
impl Node<Vec<Vec<String>>> for BPEVocab {
    type Output = Vec<Vec<usize>>;

    open spec fn inv(&self) -> bool {
        Vocab::wf(self)
    }

    open spec fn accepts(&self, input: Vec<Vec<String>>) -> bool {
        batch_known(Vocab::index(self), input@)
    }

    open spec fn produces(&self, input: Vec<Vec<String>>, post: Self, output: Vec<Vec<usize>>) -> bool {
        post == *self && batch_indexes_are(Vocab::index(self), input@, output@)
    }

    open spec fn resets_to(&self, post: Self) -> bool {
        post == *self
    }

    fn process(&mut self, input: Vec<Vec<String>>) -> (output: Vec<Vec<usize>>) {
        match self.batch_indexes_from_tokens(input.as_slice()) {
            Ok(found) => found,
            Err(_) => unreached(),
        }
    }

    fn reset(&mut self) {
    }

    fn data_remaining(&self, before: usize) -> (after: usize) {
        before
    }
}

/// A byte-pair vocabulary as a stage that turns tokens into indexes. It takes only tokens that it holds.
impl Node<Vec<String>> for BPEVocab {
    type Output = Vec<usize>;

    open spec fn inv(&self) -> bool {
        Vocab::wf(self)
    }

    open spec fn accepts(&self, input: Vec<String>) -> bool {
        all_known(Vocab::index(self), texts(input@))
    }

    open spec fn produces(&self, input: Vec<String>, post: Self, output: Vec<usize>) -> bool {
        post == *self && output@ == indexes_at(Vocab::index(self), texts(input@))
    }

    open spec fn resets_to(&self, post: Self) -> bool {
        post == *self
    }

    fn process(&mut self, input: Vec<String>) -> (output: Vec<usize>) {
        match self.indexes_from_tokens(input.as_slice()) {
            Ok(found) => found,
            Err(_) => unreached(),
        }
    }

    fn reset(&mut self) {
    }

    fn data_remaining(&self, before: usize) -> (after: usize) {
        before
    }
}

/// A byte-pair vocabulary as a stage that turns sentences of indexes into sentences of tokens. It takes only indexes that stand for a token.
impl Node<Vec<Vec<usize>>> for BPEVocab {
    type Output = Vec<Vec<String>>;

    open spec fn inv(&self) -> bool {
        Vocab::wf(self)
    }

    open spec fn accepts(&self, input: Vec<Vec<usize>>) -> bool {
        batch_indexed(Vocab::tokens(self), input@)
    }

    open spec fn produces(&self, input: Vec<Vec<usize>>, post: Self, output: Vec<Vec<String>>) -> bool {
        post == *self && batch_tokens_are(Vocab::tokens(self), input@, output@)
    }

    open spec fn resets_to(&self, post: Self) -> bool {
        post == *self
    }

    fn process(&mut self, input: Vec<Vec<usize>>) -> (output: Vec<Vec<String>>) {
        match self.batch_tokens_from_indexes(input.as_slice()) {
            Ok(found) => found,
            Err(_) => unreached(),
        }
    }

    fn reset(&mut self) {
    }

    fn data_remaining(&self, before: usize) -> (after: usize) {
        before
    }
}

/// A byte-pair vocabulary as a stage that turns indexes into tokens. It takes only indexes that stand for a token.
impl Node<Vec<usize>> for BPEVocab {
    type Output = Vec<String>;

    open spec fn inv(&self) -> bool {
        Vocab::wf(self)
    }

    open spec fn accepts(&self, input: Vec<usize>) -> bool {
        all_indexed(Vocab::tokens(self), input@)
    }

    open spec fn produces(&self, input: Vec<usize>, post: Self, output: Vec<String>) -> bool {
        post == *self && texts(output@) == tokens_at(Vocab::tokens(self), input@)
    }

    open spec fn resets_to(&self, post: Self) -> bool {
        post == *self
    }

    fn process(&mut self, input: Vec<usize>) -> (output: Vec<String>) {
        match self.tokens_from_indexes(input.as_slice()) {
            Ok(found) => found,
            Err(_) => unreached(),
        }
    }

    fn reset(&mut self) {
    }

    fn data_remaining(&self, before: usize) -> (after: usize) {
        before
    }
}

/// A word-piece vocabulary as a stage that turns sentences of tokens into sentences of indexes. It takes only tokens that it holds.
impl Node<Vec<Vec<String>>> for WordPieceVocab {
    type Output = Vec<Vec<usize>>;

    open spec fn inv(&self) -> bool {
        Vocab::wf(self)
    }

    open spec fn accepts(&self, input: Vec<Vec<String>>) -> bool {
        batch_known(Vocab::index(self), input@)
    }

    open spec fn produces(&self, input: Vec<Vec<String>>, post: Self, output: Vec<Vec<usize>>) -> bool {
        post == *self && batch_indexes_are(Vocab::index(self), input@, output@)
    }

    open spec fn resets_to(&self, post: Self) -> bool {
        post == *self
    }

    fn process(&mut self, input: Vec<Vec<String>>) -> (output: Vec<Vec<usize>>) {
        match self.batch_indexes_from_tokens(input.as_slice()) {
            Ok(found) => found,
            Err(_) => unreached(),
        }
    }

    fn reset(&mut self) {
    }

    fn data_remaining(&self, before: usize) -> (after: usize) {
        before
    }
}

/// A word-piece vocabulary as a stage that turns tokens into indexes. It takes only tokens that it holds.
impl Node<Vec<String>> for WordPieceVocab {
    type Output = Vec<usize>;

    open spec fn inv(&self) -> bool {
        Vocab::wf(self)
    }

    open spec fn accepts(&self, input: Vec<String>) -> bool {
        all_known(Vocab::index(self), texts(input@))
    }

    open spec fn produces(&self, input: Vec<String>, post: Self, output: Vec<usize>) -> bool {
        post == *self && output@ == indexes_at(Vocab::index(self), texts(input@))
    }

    open spec fn resets_to(&self, post: Self) -> bool {
        post == *self
    }

    fn process(&mut self, input: Vec<String>) -> (output: Vec<usize>) {
        match self.indexes_from_tokens(input.as_slice()) {
            Ok(found) => found,
            Err(_) => unreached(),
        }
    }

    fn reset(&mut self) {
    }

    fn data_remaining(&self, before: usize) -> (after: usize) {
        before
    }
}

/// A word-piece vocabulary as a stage that turns sentences of indexes into sentences of tokens. It takes only indexes that stand for a token.
impl Node<Vec<Vec<usize>>> for WordPieceVocab {
    type Output = Vec<Vec<String>>;

    open spec fn inv(&self) -> bool {
        Vocab::wf(self)
    }

    open spec fn accepts(&self, input: Vec<Vec<usize>>) -> bool {
        batch_indexed(Vocab::tokens(self), input@)
    }

    open spec fn produces(&self, input: Vec<Vec<usize>>, post: Self, output: Vec<Vec<String>>) -> bool {
        post == *self && batch_tokens_are(Vocab::tokens(self), input@, output@)
    }

    open spec fn resets_to(&self, post: Self) -> bool {
        post == *self
    }

    fn process(&mut self, input: Vec<Vec<usize>>) -> (output: Vec<Vec<String>>) {
        match self.batch_tokens_from_indexes(input.as_slice()) {
            Ok(found) => found,
            Err(_) => unreached(),
        }
    }

    fn reset(&mut self) {
    }

    fn data_remaining(&self, before: usize) -> (after: usize) {
        before
    }
}

/// A word-piece vocabulary as a stage that turns indexes into tokens. It takes only indexes that stand for a token.
impl Node<Vec<usize>> for WordPieceVocab {
    type Output = Vec<String>;

    open spec fn inv(&self) -> bool {
        Vocab::wf(self)
    }

    open spec fn accepts(&self, input: Vec<usize>) -> bool {
        all_indexed(Vocab::tokens(self), input@)
    }

    open spec fn produces(&self, input: Vec<usize>, post: Self, output: Vec<String>) -> bool {
        post == *self && texts(output@) == tokens_at(Vocab::tokens(self), input@)
    }

    open spec fn resets_to(&self, post: Self) -> bool {
        post == *self
    }

    fn process(&mut self, input: Vec<usize>) -> (output: Vec<String>) {
        match self.tokens_from_indexes(input.as_slice()) {
            Ok(found) => found,
            Err(_) => unreached(),
        }
    }

    fn reset(&mut self) {
    }

    fn data_remaining(&self, before: usize) -> (after: usize) {
        before
    }
}

} // verus!
