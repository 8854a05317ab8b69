use super::all_indexed;
use super::all_known;
use super::indexes_at;
use super::tokens_at;
use super::TokenNotFoundError;
use crate::text::texts;
use vstd::hash_map::StringHashMap;
use vstd::prelude::*;

verus! {

/// The index of each token of `tokens`: its position, and the last of them where a token
/// stands more than once.
pub open spec fn index_of(tokens: Seq<Seq<char>>) -> Map<Seq<char>, usize>
    decreases tokens.len(),
{
    if tokens.len() == 0 {
        Map::empty()
    } else {
        index_of(tokens.drop_last()).insert(tokens.last(), (tokens.len() - 1) as usize)
    }
}

/// Every token has an index, and the index of a token is a place where it stands.
pub proof fn lemma_index_of(tokens: Seq<Seq<char>>)
    requires
        tokens.len() <= usize::MAX,
    ensures
        forall|i: int| 0 <= i < tokens.len() ==> index_of(tokens).contains_key(#[trigger] tokens[i]),
        forall|token: Seq<char>| #[trigger]
            index_of(tokens).contains_key(token) ==> index_of(tokens)[token] < tokens.len()
                && tokens[index_of(tokens)[token] as int] == token,
    decreases tokens.len(),
{
    if tokens.len() > 0 {
        let front = tokens.drop_last();
        lemma_index_of(front);
        assert forall|i: int| 0 <= i < tokens.len() implies index_of(tokens).contains_key(
            #[trigger] tokens[i],
        ) by {
            if i < front.len() {
                assert(front[i] == tokens[i]);
            }
        }
        assert forall|token: Seq<char>| #[trigger]
            index_of(tokens).contains_key(token) implies index_of(tokens)[token] < tokens.len()
            && tokens[index_of(tokens)[token] as int] == token by {
            if token != tokens.last() {
                assert(index_of(front).contains_key(token));
                assert(front[index_of(front)[token] as int] == tokens[index_of(front)[token] as int]);
            }
        }
    }
}

/// Where no token stands twice, every token's index is its place, and the tokens with an
/// index are the tokens that stand somewhere.
pub proof fn lemma_index_of_distinct(tokens: Seq<Seq<char>>)
    requires
        tokens.len() <= usize::MAX,
        tokens.no_duplicates(),
    ensures
        forall|i: int| 0 <= i < tokens.len() ==> index_of(tokens)[#[trigger] tokens[i]] == i,
        forall|token: Seq<char>| #[trigger]
            index_of(tokens).contains_key(token) <==> tokens.contains(token),
    decreases tokens.len(),
{
    if tokens.len() > 0 {
        let front = tokens.drop_last();
        lemma_index_of_distinct(front);
        assert forall|i: int| 0 <= i < tokens.len() implies index_of(tokens)[#[trigger] tokens[i]]
            == i by {
            if i < front.len() {
                assert(front[i] == tokens[i]);
                assert(tokens[i] != tokens.last());
            }
        }
        assert forall|token: Seq<char>| #[trigger]
            index_of(tokens).contains_key(token) <==> tokens.contains(token) by {
            if token == tokens.last() {
                assert(tokens[tokens.len() - 1] == token);
            } else {
                assert(index_of(front).contains_key(token) <==> front.contains(token));
                assert(index_of(tokens).contains_key(token) <==> index_of(front).contains_key(
                    token,
                ));
                if front.contains(token) {
                    let i = choose|i: int| 0 <= i < front.len() && front[i] == token;
                    assert(tokens[i] == token);
                }
                if tokens.contains(token) {
                    let i = choose|i: int| 0 <= i < tokens.len() && tokens[i] == token;
                    assert(front[i] == token);
                }
            }
        }
    }
}

/// A vocabulary: tokens with their indexes, looked up in both directions. The four marker
/// tokens for padding, start, end and separation come first.
pub struct BasicVocab {
    num_tokens: usize,
    token2index: StringHashMap<usize>,
    index2token: Vec<String>,
    pad_token: usize,
    sos_token: usize,
    eos_token: usize,
    sep_token: usize,
}

impl BasicVocab {
    /// The tokens, each at its index.
    pub closed spec fn tokens(&self) -> Seq<Seq<char>> {
        texts(self.index2token@)
    }

    /// The index of each token.
    pub closed spec fn index(&self) -> Map<Seq<char>, usize> {
        self.token2index@
    }

    /// The number of tokens.
    pub closed spec fn count(&self) -> usize {
        self.num_tokens
    }

    /// The indexes kept for the four markers are the same in `other`.
    pub open spec fn same_markers(&self, other: &Self) -> bool {
        &&& other.pad_index() == self.pad_index()
        &&& other.sos_index() == self.sos_index()
        &&& other.eos_index() == self.eos_index()
        &&& other.sep_index() == self.sep_index()
    }

    /// The two directions of lookup agree.
    pub open spec fn wf(&self) -> bool {
        &&& self.count() == self.tokens().len()
        &&& self.index() == index_of(self.tokens())
    }

    /// Make a new vocab, holding the four marker tokens.
    pub fn new() -> (voc: Self)
        ensures
            voc.wf(),
            voc.tokens() == seq!["[PAD]"@, "[SOS]"@, "[EOS]"@, "[SEP]"@],
            voc.pad_index() == 0,
            voc.sos_index() == 1,
            voc.eos_index() == 2,
            voc.sep_index() == 3,
    {
        let mut voc = BasicVocab {
            num_tokens: 0,
            token2index: StringHashMap::new(),
            index2token: Vec::new(),
            pad_token: 0,
            sos_token: 1,
            eos_token: 2,
            sep_token: 3,
        };
        assert(voc.tokens() =~= Seq::<Seq<char>>::empty());
        let mut markers: Vec<String> = Vec::new();
        markers.push("[PAD]".to_owned());
        markers.push("[SOS]".to_owned());
        markers.push("[EOS]".to_owned());
        markers.push("[SEP]".to_owned());
        voc.add_tokens(markers);
        assert(voc.tokens() =~= seq!["[PAD]"@, "[SOS]"@, "[EOS]"@, "[SEP]"@]);
        voc
    }

    /// The index of the padding marker.
    pub fn pad_token(&self) -> (index: usize)
        ensures
            index == self.pad_index(),
    {
        self.pad_token
    }

    /// The index of the start marker.
    pub fn sos_token(&self) -> (index: usize)
        ensures
            index == self.sos_index(),
    {
        self.sos_token
    }

    /// The index of the end marker.
    pub fn eos_token(&self) -> (index: usize)
        ensures
            index == self.eos_index(),
    {
        self.eos_token
    }

    /// The index of the separation marker.
    pub fn sep_token(&self) -> (index: usize)
        ensures
            index == self.sep_index(),
    {
        self.sep_token
    }

    /// The index kept for the padding marker.
    pub closed spec fn pad_index(&self) -> usize {
        self.pad_token
    }

    /// The index kept for the start marker.
    pub closed spec fn sos_index(&self) -> usize {
        self.sos_token
    }

    /// The index kept for the end marker.
    pub closed spec fn eos_index(&self) -> usize {
        self.eos_token
    }

    /// The index kept for the separation marker.
    pub closed spec fn sep_index(&self) -> usize {
        self.sep_token
    }

    /// Returns num_tokens
    pub fn len(&self) -> (count: usize)
        requires
            self.wf(),
        ensures
            count == self.tokens().len(),
    {
        self.num_tokens
    }

    /// Add token to vocab, at the next index. A token that the vocabulary holds already
    /// is from now on looked up at the new index.
    pub fn add_token(&mut self, token: String)
        requires
            old(self).wf(),
        ensures
            final(self).wf(),
            final(self).tokens() == old(self).tokens().push(token@),
            old(self).same_markers(final(self)),
    {
        assert(self.num_tokens == self.index2token@.len());
        self.token2index.insert(token.clone(), self.num_tokens);
        self.index2token.push(token);
        assert(self.index2token.len() == self.num_tokens + 1);
        self.num_tokens += 1;
        proof {
            assert(self.tokens() =~= old(self).tokens().push(token@));
            assert(self.tokens().drop_last() =~= old(self).tokens());
        }
    }

    /// Add a vec of tokens to vocab, in their order.
    pub fn add_tokens(&mut self, tokens: Vec<String>)
        requires
            old(self).wf(),
        ensures
            final(self).wf(),
            final(self).tokens() == old(self).tokens() + texts(tokens@),
            old(self).same_markers(final(self)),
    {
        let ghost added = texts(tokens@);
        let ghost all = tokens@;
        assert(old(self).tokens() + added.take(0) =~= old(self).tokens());
        for token in it: tokens.into_iter()
            invariant
                it.seq() == all,
                added == texts(all),
                self.wf(),
                old(self).same_markers(self),
                self.tokens() == old(self).tokens() + added.take(it.index() as int),
        {
            let ghost i = it.index() as int;
            assert(added[i] == token@);
            self.add_token(token);
            assert(self.tokens() =~= old(self).tokens() + added.take(i + 1));
        }
        assert(added.take(added.len() as int) =~= added);
    }

    /// Remove token from vocab. The tokens after it move up by one index.
    pub fn _remove_token(&mut self, token: &str)
        requires
            old(self).wf(),
            old(self).tokens().no_duplicates(),
            old(self).index().contains_key(token@),
        ensures
            final(self).wf(),
            final(self).tokens().no_duplicates(),
            final(self).tokens() == old(self).tokens().remove(old(self).index()[token@] as int),
            old(self).same_markers(final(self)),
    {
        let ghost before = self.tokens();
        proof {
            lemma_index_of(before);
            lemma_index_of_distinct(before);
        }
        let place = match self.token2index.get(token) {
            Some(place) => *place,
            None => 0,
        };
        assert(before[place as int] == token@);
        // Loop through all higher token2index mappings and decrement
        let mut i: usize = place + 1;
        while i < self.index2token.len()
            invariant
                place < i <= self.index2token.len(),
                self.index2token == old(self).index2token,
                self.num_tokens == old(self).num_tokens,
                old(self).same_markers(self),
                before == texts(self.index2token@),
                before.no_duplicates(),
                before.len() == self.num_tokens,
                forall|j: int| 0 <= j < before.len() ==> self.token2index@.contains_key(
                    #[trigger] before[j],
                ),
                forall|t: Seq<char>| #[trigger]
                    self.token2index@.contains_key(t) ==> before.contains(t),
                forall|j: int|
                    0 <= j < before.len() ==> self.token2index@[#[trigger] before[j]] == if place < j
                        < i {
                        j - 1
                    } else {
                        j
                    },
            decreases self.index2token.len() - i,
        {
            let ghost table = self.token2index@;
            assert(before[i as int] == self.index2token[i as int]@);
            let moved = self.index2token[i].clone();
            self.token2index.insert(moved, i - 1);
            proof {
                assert forall|j: int| 0 <= j < before.len() implies self.token2index@[
                #[trigger] before[j]] == if place < j < i + 1 {
                    j - 1
                } else {
                    j
                } by {
                    if j != i {
                        assert(before[j] != before[i as int]);
                    }
                }
                assert forall|t: Seq<char>| #[trigger]
                    self.token2index@.contains_key(t) implies before.contains(t) by {
                    if t != before[i as int] {
                        assert(table.contains_key(t));
                    }
                }
            }
            i += 1;
        }
        let removed = self.index2token.remove(place);
        self.token2index.remove(token);
        self.num_tokens -= 1;
        proof {
            let after = self.tokens();
            assert(after =~= before.remove(place as int));
            assert forall|a: int, b: int|
                0 <= a < after.len() && 0 <= b < after.len() && a != b implies after[a] != after[b] by {
                let x = if a < place {
                    a
                } else {
                    a + 1
                };
                let y = if b < place {
                    b
                } else {
                    b + 1
                };
                assert(after[a] == before[x] && after[b] == before[y]);
            }
            lemma_index_of_distinct(after);
            assert forall|t: Seq<char>| self.token2index@.contains_key(t) <==> index_of(
                after,
            ).contains_key(t) by {
                if self.token2index@.contains_key(t) {
                    assert(before.contains(t));
                    let j = choose|j: int| 0 <= j < before.len() && before[j] == t;
                    assert(j != place);
                    let x = if j < place {
                        j
                    } else {
                        j - 1
                    };
                    assert(after[x] == t);
                }
                if after.contains(t) {
                    let x = choose|x: int| 0 <= x < after.len() && after[x] == t;
                    let j = if x < place {
                        x
                    } else {
                        x + 1
                    };
                    assert(before[j] == t);
                    assert(t != token@);
                }
            }
            assert forall|t: Seq<char>| index_of(after).contains_key(t) implies #[trigger] self.token2index@[t]
                == index_of(after)[t] by {
                let x = choose|x: int| 0 <= x < after.len() && after[x] == t;
                let j = if x < place {
                    x
                } else {
                    x + 1
                };
                assert(before[j] == t);
                assert(index_of(after)[after[x]] == x);
            }
            assert(self.token2index@ =~= index_of(after));
        }
    }

    /// Remove a vec of tokens from vocab: each of them that the vocabulary holds.
    pub fn _remove_tokens(&mut self, tokens: Vec<&String>)
        requires
            old(self).wf(),
            old(self).tokens().no_duplicates(),
        ensures
            final(self).wf(),
            final(self).tokens().no_duplicates(),
            old(self).same_markers(final(self)),
            forall|i: int|
                0 <= i < tokens.len() ==> !final(self).index().contains_key((#[trigger] tokens[i])@),
            forall|t: Seq<char>| #[trigger]
                final(self).index().contains_key(t) ==> old(self).index().contains_key(t),
    {
        let mut i: usize = 0;
        while i < tokens.len()
            invariant
                i <= tokens.len(),
                self.wf(),
                self.tokens().no_duplicates(),
                old(self).same_markers(self),
                forall|k: int| 0 <= k < i ==> !self.index().contains_key((#[trigger] tokens[k])@),
                forall|t: Seq<char>| #[trigger]
                    self.index().contains_key(t) ==> old(self).index().contains_key(t),
            decreases tokens.len() - i,
        {
            let ghost before = *self;
            proof {
                lemma_index_of_distinct(before.tokens());
            }
            if self.token2index.contains_key(tokens[i].as_str()) {
                self._remove_token(tokens[i].as_str());
                proof {
                    lemma_index_of_distinct(self.tokens());
                    let place = before.index()[tokens[i as int]@] as int;
                    lemma_index_of(before.tokens());
                    assert forall|t: Seq<char>| #[trigger]
                        self.index().contains_key(t) implies before.index().contains_key(t) && t
                        != tokens[i as int]@ by {
                        let x = choose|x: int| 0 <= x < self.tokens().len() && self.tokens()[x] == t;
                        let j = if x < place {
                            x
                        } else {
                            x + 1
                        };
                        assert(before.tokens()[j] == t);
                        assert(before.tokens()[place] == tokens[i as int]@);
                    }
                }
            }
            i += 1;
        }
    }

    /// Get vec of tokens from vec of indexes. The lookup fails where an index stands for no
    /// token.
    pub fn tokens_from_indexes(&self, indexes: &[usize]) -> (found: Result<
        Vec<String>,
        TokenNotFoundError,
    >)
        requires
            self.wf(),
        ensures
            found is Ok <==> all_indexed(self.tokens(), indexes@),
            found matches Ok(tokens) ==> texts(tokens@) == tokens_at(self.tokens(), indexes@),
    {
        let mut tokens: Vec<String> = Vec::new();
        let mut i: usize = 0;
        while i < indexes.len()
            invariant
                i <= indexes.len(),
                self.wf(),
                all_indexed(self.tokens(), indexes@.take(i as int)),
                texts(tokens@) == tokens_at(self.tokens(), indexes@.take(i as int)),
            decreases indexes.len() - i,
        {
            let index = indexes[i];
            if index >= self.num_tokens {
                assert(!(indexes@[i as int] < self.tokens().len()));
                return Err(TokenNotFoundError);
            }
            assert(self.tokens()[index as int] == self.index2token[index as int]@);
            let ghost sofar = tokens@;
            tokens.push(self.index2token[index].clone());
            i += 1;
            proof {
                let upto = indexes@.take(i as int);
                assert(upto.drop_last() =~= indexes@.take(i - 1));
                assert(texts(tokens@) =~= texts(sofar).push(self.tokens()[index as int]));
                assert(tokens_at(self.tokens(), upto) =~= tokens_at(
                    self.tokens(),
                    upto.drop_last(),
                ).push(self.tokens()[index as int]));
            }
        }
        assert(indexes@.take(indexes.len() as int) =~= indexes@);
        Ok(tokens)
    }

    /// Batched version of tokens_from_indexes: fails where any of the lookups fails.
    pub fn batch_tokens_from_indexes(&self, indexes: &[Vec<usize>]) -> (found: Result<
        Vec<Vec<String>>,
        TokenNotFoundError,
    >)
        requires
            self.wf(),
        ensures
            found is Ok <==> forall|i: int|
                0 <= i < indexes.len() ==> all_indexed(self.tokens(), (#[trigger] indexes[i])@),
            found matches Ok(tokens) ==> {
                &&& tokens.len() == indexes.len()
                &&& forall|i: int|
                    0 <= i < indexes.len() ==> texts((#[trigger] tokens[i])@) == tokens_at(
                        self.tokens(),
                        indexes[i]@,
                    )
            },
    {
        let mut tokens: Vec<Vec<String>> = Vec::new();
        let mut i: usize = 0;
        while i < indexes.len()
            invariant
                i <= indexes.len(),
                self.wf(),
                tokens.len() == i,
                forall|k: int| 0 <= k < i ==> all_indexed(self.tokens(), (#[trigger] indexes[k])@),
                forall|k: int|
                    0 <= k < i ==> texts((#[trigger] tokens[k])@) == tokens_at(
                        self.tokens(),
                        indexes[k]@,
                    ),
            decreases indexes.len() - i,
        {
            match self.tokens_from_indexes(indexes[i].as_slice()) {
                Ok(sentence) => {
                    tokens.push(sentence);
                },
                Err(error) => {
                    return Err(error);
                },
            }
            i += 1;
        }
        Ok(tokens)
    }

    /// Get vec of indexes from vec of tokens. The lookup fails where the vocabulary does
    /// not hold one of the tokens.
    pub fn indexes_from_tokens(&self, tokens: &[String]) -> (found: Result<
        Vec<usize>,
        TokenNotFoundError,
    >)
        requires
            self.wf(),
        ensures
            found is Ok <==> all_known(self.index(), texts(tokens@)),
            found matches Ok(indexes) ==> indexes@ == indexes_at(self.index(), texts(tokens@)),
    {
        let ghost words = texts(tokens@);
        let mut indexes: Vec<usize> = Vec::new();
        let mut i: usize = 0;
        while i < tokens.len()
            invariant
                i <= tokens.len(),
                words == texts(tokens@),
                all_known(self.index(), words.take(i as int)),
                indexes@ == indexes_at(self.index(), words.take(i as int)),
            decreases tokens.len() - i,
        {
            assert(words[i as int] == tokens[i as int]@);
            match self.token2index.get(tokens[i].as_str()) {
                Some(index) => {
                    indexes.push(*index);
                },
                None => {
                    return Err(TokenNotFoundError);
                },
            }
            i += 1;
            proof {
                assert(words.take(i as int).drop_last() =~= words.take(i - 1));
                assert(indexes@ =~= indexes_at(self.index(), words.take(i as int)));
            }
        }
        assert(words.take(tokens.len() as int) =~= words);
        Ok(indexes)
    }

    /// Batched version of indexes_from_tokens: fails where any of the lookups fails.
    pub fn batch_indexes_from_tokens(&self, tokens: &[Vec<String>]) -> (found: Result<
        Vec<Vec<usize>>,
        TokenNotFoundError,
    >)
        requires
            self.wf(),
        ensures
            found is Ok <==> forall|i: int|
                0 <= i < tokens.len() ==> all_known(self.index(), texts((#[trigger] tokens[i])@)),
            found matches Ok(indexes) ==> {
                &&& indexes.len() == tokens.len()
                &&& forall|i: int|
                    0 <= i < tokens.len() ==> (#[trigger] indexes[i])@ == indexes_at(
                        self.index(),
                        texts(tokens[i]@),
                    )
            },
    {
        let mut indexes: Vec<Vec<usize>> = Vec::new();
        let mut i: usize = 0;
        while i < tokens.len()
            invariant
                i <= tokens.len(),
                self.wf(),
                indexes.len() == i,
                forall|k: int|
                    0 <= k < i ==> all_known(self.index(), texts((#[trigger] tokens[k])@)),
                forall|k: int|
                    0 <= k < i ==> (#[trigger] indexes[k])@ == indexes_at(
                        self.index(),
                        texts(tokens[k]@),
                    ),
            decreases tokens.len() - i,
        {
            match self.indexes_from_tokens(tokens[i].as_slice()) {
                Ok(sentence) => {
                    indexes.push(sentence);
                },
                Err(error) => {
                    return Err(error);
                },
            }
            i += 1;
        }
        Ok(indexes)
    }
}

} // verus!
