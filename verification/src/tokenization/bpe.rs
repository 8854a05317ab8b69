use super::hf::bpe_tokenizer;
use super::hf::holds_token;
use super::hf::merges_fit;
use super::hf::encode;
use super::hf::encode_batch;
use super::hf::HfTokenizer;
use crate::pipeline::loader::split_by;
use crate::pipeline::loader::split_text;
use crate::pipeline::premade::lemma_somes_come_from;
use crate::pipeline::premade::somes;
use crate::text::has_char;
use crate::text::join;
use crate::text::joined_with;
use crate::text::split;
use crate::text::split_on;
use crate::text::texts;
use crate::vocab::bpe::json_entries;
use crate::vocab::all_in_table;
use crate::vocab::entry_texts;
use crate::vocab::filled;
use crate::vocab::json_object;
use crate::vocab::lemma_listed_in_table;
use crate::vocab::lists;
use crate::vocab::ordered_tokens;
use crate::vocab::placed;
use crate::vocab::read_texts;
use crate::vocab::table_of;
use crate::vocab::in_table;
use crate::vocab::BPE_TABLE_SIZE;
use crate::vocab::remove_chars;
use crate::vocab::without;
use crate::vocab::BPEVocab;
use vstd::hash_map::StringHashMap;
use vstd::prelude::*;

verus! {

/// The texts of the pairs of `pairs` as pairs of texts.
pub open spec fn pair_texts(pairs: Seq<(String, String)>) -> Seq<(Seq<char>, Seq<char>)> {
    pairs.map_values(|pair: (String, String)| (pair.0@, pair.1@))
}

/// The numbers of the tokens of `tokens`: each token's number is the number of different
/// tokens before it, where it stands last.
pub open spec fn numbers_of(tokens: Seq<Seq<char>>) -> Map<Seq<char>, u32>
    decreases tokens.len(),
{
    if tokens.len() == 0 {
        Map::empty()
    } else {
        let before = numbers_of(tokens.drop_last());
        before.insert(tokens.last(), (before.len() % 0x1_0000_0000) as u32)
    }
}

/// Every token of `tokens` with the number that it got when it was put in.
pub open spec fn numbered_tokens(tokens: Seq<Seq<char>>) -> Seq<(Seq<char>, u32)> {
    Seq::new(
        tokens.len(),
        |i: int| (tokens[i], (numbers_of(tokens.take(i)).len() % 0x1_0000_0000) as u32),
    )
}

/// The merge that a line of a merges file stands for, if it stands for one. The
/// characters `Ġ` and the sign `##` are taken out of the line first. The line names a
/// merge if it then holds a space and no `#`, and the vocabulary `known` holds what
/// stands before the first space, what stands between the first and the second, and the
/// two put together.
pub open spec fn merge_of(line: Seq<char>, known: Set<Seq<char>>) -> Option<(Seq<char>, Seq<char>)> {
    let bare = joined_with(split_by(without(line, '\u{120}', '\n'), seq!['#', '#']), Seq::empty());
    let parts = split_on(bare, ' ');
    if bare.contains(' ') && !bare.contains('#') && parts.len() >= 2 && known.contains(parts[0])
        && known.contains(parts[1]) && known.contains(parts[0] + parts[1]) {
        Some((parts[0], parts[1]))
    } else {
        None
    }
}

/// The merges that the lines of a merges file stand for, in order.
pub open spec fn merges_of(lines: Seq<Seq<char>>, known: Set<Seq<char>>) -> Seq<
    (Seq<char>, Seq<char>),
> {
    somes(lines.map_values(|line: Seq<char>| merge_of(line, known)))
}

/// Gives every token of `tokens` its number, and keeps the numbers for looking up.
pub fn number_tokens(tokens: Vec<String>) -> (numbered: (Vec<(String, u32)>, StringHashMap<u32>))
    ensures
        numbered.0@.map_values(|entry: (String, u32)| (entry.0@, entry.1)) == numbered_tokens(
            texts(tokens@),
        ),
        numbered.1@ == numbers_of(texts(tokens@)),
{
    let ghost all = texts(tokens@);
    let mut token2index: StringHashMap<u32> = StringHashMap::new();
    let mut pairs: Vec<(String, u32)> = Vec::new();
    assert(all.take(0) =~= Seq::<Seq<char>>::empty());
    for token in it: tokens.into_iter()
        invariant
            all == texts(it.seq()),
            token2index@ == numbers_of(all.take(it.index() as int)),
            pairs@.map_values(|entry: (String, u32)| (entry.0@, entry.1)) == numbered_tokens(
                all.take(it.index() as int),
            ),
    {
        let ghost i = it.index() as int;
        let ghost done = pairs@.map_values(|entry: (String, u32)| (entry.0@, entry.1));
        assert(all[i] == token@);
        assert(all.take(i + 1).drop_last() =~= all.take(i));
        let number = (token2index.len() as u64 % 0x1_0000_0000) as u32;
        token2index.insert(token.clone(), number);
        pairs.push((token, number));
        proof {
            let upto = all.take(i + 1);
            assert(pairs@.map_values(|entry: (String, u32)| (entry.0@, entry.1)) =~= done.push(
                (all[i], number),
            ));
            assert forall|k: int| 0 <= k < upto.len() implies #[trigger] numbered_tokens(upto)[k]
                == done.push((all[i], number))[k] by {
                assert(upto.take(k) =~= all.take(k));
                if k < i {
                    assert(all.take(i).take(k) =~= all.take(k));
                    assert(numbered_tokens(all.take(i))[k] == done[k]);
                }
            }
            assert(numbered_tokens(upto) =~= done.push((all[i], number)));
        }
    }
    assert(all.take(all.len() as int) =~= all);
    (pairs, token2index)
}

/// The merges that the lines of `text` stand for, as far as `vocab` holds their tokens.
pub fn read_merges(text: &str, vocab: &StringHashMap<u32>) -> (merges: Vec<(String, String)>)
    ensures
        pair_texts(merges@) == merges_of(split_on(text@, '\n'), vocab@.dom()),
{
    proof {
        reveal_strlit("##");
        reveal_strlit("");
        assert("##"@ =~= seq!['#', '#']);
        assert(""@ =~= Seq::<char>::empty());
    }
    let lines = split(text, '\n');
    let ghost all = texts(lines@);
    let ghost known = vocab@.dom();
    let ghost found = all.map_values(|line: Seq<char>| merge_of(line, known));
    let mut merges: Vec<(String, String)> = Vec::new();
    let mut i: usize = 0;
    assert(found.take(0) =~= Seq::<Option<(Seq<char>, Seq<char>)>>::empty());
    assert(pair_texts(merges@) =~= somes(found.take(0)));
    while i < lines.len()
        invariant
            i <= lines.len(),
            all == texts(lines@),
            known == vocab@.dom(),
            found == all.map_values(|line: Seq<char>| merge_of(line, known)),
            "##"@ == seq!['#', '#'],
            ""@ == Seq::<char>::empty(),
            pair_texts(merges@) == somes(found.take(i as int)),
        decreases lines.len() - i,
    {
        let ghost done = pair_texts(merges@);
        assert(found.take(i + 1).drop_last() =~= found.take(i as int));
        assert(found.take(i + 1).last() == merge_of(lines[i as int]@, known));
        let line = remove_chars(lines[i].as_str(), '\u{120}', '\n');
        let line = join(split_text(line.as_str(), "##").as_slice(), "");
        // Filter out junk
        if has_char(line.as_str(), ' ') && !has_char(line.as_str(), '#') {
            let parts = split(line.as_str(), ' ');
            if parts.len() >= 2 {
                let mut both = parts[0].clone();
                both.append(parts[1].as_str());
                // Make sure vocab contains both tokens and combined token
                if vocab.contains_key(parts[0].as_str()) && vocab.contains_key(parts[1].as_str())
                    && vocab.contains_key(both.as_str()) {
                    merges.push((parts[0].clone(), parts[1].clone()));
                    assert(pair_texts(merges@) =~= done.push((parts[0]@, parts[1]@)));
                }
            }
        }
        i += 1;
    }
    assert(found.take(lines.len() as int) =~= found);
    merges
}

/// A token that has a number is held by the numbered tokens.
pub proof fn lemma_token_is_held(
    tokens: Seq<Seq<char>>,
    numbered: Seq<(String, u32)>,
    token: Seq<char>,
)
    requires
        numbered.map_values(|entry: (String, u32)| (entry.0@, entry.1)) == numbered_tokens(tokens),
        numbers_of(tokens).contains_key(token),
    ensures
        holds_token(numbered, token),
{
    lemma_numbered_stand(tokens, token);
    let j = choose|j: int| 0 <= j < tokens.len() && tokens[j] == token;
    let views = numbered.map_values(|entry: (String, u32)| (entry.0@, entry.1));
    assert(views.len() == tokens.len());
    assert(views[j].0 == tokens[j]);
    assert(numbered[j].0@ == token);
}

/// A token that has a number stands among the tokens.
pub proof fn lemma_numbered_stand(tokens: Seq<Seq<char>>, token: Seq<char>)
    requires
        numbers_of(tokens).contains_key(token),
    ensures
        tokens.contains(token),
    decreases tokens.len(),
{
    if tokens.len() > 0 {
        if token == tokens.last() {
            assert(tokens[tokens.len() - 1] == token);
        } else {
            lemma_numbered_stand(tokens.drop_last(), token);
            let j = choose|j: int| 0 <= j < tokens.drop_last().len() && tokens.drop_last()[j] == token;
            assert(tokens[j] == token);
        }
    }
}

/// The merges read with a vocabulary name only tokens that the vocabulary holds.
pub proof fn lemma_merges_are_known(lines: Seq<Seq<char>>, known: Set<Seq<char>>)
    ensures
        forall|i: int|
            0 <= i < merges_of(lines, known).len() ==> {
                &&& known.contains((#[trigger] merges_of(lines, known)[i]).0)
                &&& known.contains(merges_of(lines, known)[i].1)
                &&& known.contains(merges_of(lines, known)[i].0 + merges_of(lines, known)[i].1)
            },
{
    let found = lines.map_values(|line: Seq<char>| merge_of(line, known));
    lemma_somes_come_from(found);
    assert forall|i: int| 0 <= i < merges_of(lines, known).len() implies {
        &&& known.contains((#[trigger] merges_of(lines, known)[i]).0)
        &&& known.contains(merges_of(lines, known)[i].1)
        &&& known.contains(merges_of(lines, known)[i].0 + merges_of(lines, known)[i].1)
    } by {
        let k = choose|k: int|
            0 <= k < found.len() && #[trigger] found[k] == Some(somes(found)[i]);
        assert(found[k] == merge_of(lines[k], known));
    }
}

/// A tokenizer that cuts words into the pairs of a byte-pair vocabulary.
pub struct BPETokenizer {
    hf_tokenizer: HfTokenizer,
    vocab: Ghost<Seq<(Seq<char>, u32)>>,
    merges: Ghost<Seq<(Seq<char>, Seq<char>)>>,
}

impl BPETokenizer {
    /// The tokens that the tokenizer was built with, each with its number.
    pub closed spec fn vocab(&self) -> Seq<(Seq<char>, u32)> {
        self.vocab@
    }

    /// The merges that the tokenizer was built with, in their order of rank.
    pub closed spec fn merges(&self) -> Seq<(Seq<char>, Seq<char>)> {
        self.merges@
    }

    /// The tokenizer for the vocabulary that the JSON object in `vocab` describes and the
    /// merges that the lines of `merges` stand for. The characters `/` and `Ġ` are taken
    /// out of the vocabulary's text first; the tokens are put in the order of their
    /// numbers and numbered anew. `None` where the vocabulary is no valid one: where the
    /// text is no JSON object, or a value is no number below the size of the table.
    pub fn from_parts(vocab: &str, merges: &str) -> (loaded: Option<Self>)
        ensures
            match json_object(without(vocab@, '/', '\u{120}')) {
                Some(object) => {
                    &&& loaded is Some <==> all_in_table(object)
                    &&& loaded matches Some(tokenizer) ==> exists|
                        entries: Seq<(Seq<char>, Option<u64>)>,
                    |
                        {
                            let tokens = filled(table_of(placed(entries), BPE_TABLE_SIZE as nat));
                            &&& #[trigger] lists(entries, object)
                            &&& tokenizer.vocab() == numbered_tokens(tokens)
                            &&& tokenizer.merges() == merges_of(
                                split_on(merges@, '\n'),
                                numbers_of(tokens).dom(),
                            )
                        }
                },
                None => loaded is None,
            },
    {
        let cleaned = remove_chars(vocab, '/', '\u{120}');
        let read = match json_entries(cleaned.as_str()) {
            Some(read) => read,
            None => {
                return None;
            },
        };
        let ghost listed = read_texts(read@);
        let ghost object = json_object(cleaned@)->0;
        let ghost given = read@;
        proof {
            lemma_listed_in_table(listed, object);
            assert forall|i: int| 0 <= i < given.len() implies (#[trigger] listed[i]).1
                == given[i].1 by {
            }
        }
        let entries = match BPEVocab::checked_entries(read) {
            Some(entries) => entries,
            None => {
                proof {
                    if all_in_table(object) {
                        assert forall|i: int| 0 <= i < given.len() implies in_table(
                            (#[trigger] given[i]).1,
                        ) by {
                            assert(in_table(listed[i].1));
                        }
                    }
                }
                return None;
            },
        };
        proof {
            assert forall|i: int| 0 <= i < listed.len() implies in_table(
                (#[trigger] listed[i]).1,
            ) by {
                assert(in_table(given[i].1));
            }
            assert(entry_texts(entries@) =~= placed(listed));
        }
        // Build vocab
        let ghost tokens = filled(table_of(placed(listed), BPE_TABLE_SIZE as nat));
        let (token2index, known) = number_tokens(ordered_tokens(entries));
        // Create tokenizer
        let found = read_merges(merges, &known);
        let ghost numbered = token2index@.map_values(|entry: (String, u32)| (entry.0@, entry.1));
        let ghost ranked = pair_texts(found@);
        proof {
            lemma_merges_are_known(split_on(merges@, '\n'), known@.dom());
            assert forall|i: int| 0 <= i < found.len() implies {
                &&& holds_token(token2index@, (#[trigger] found[i]).0@)
                &&& holds_token(token2index@, found[i].1@)
                &&& holds_token(token2index@, found[i].0@ + found[i].1@)
            } by {
                let pair = ranked[i];
                assert(pair == (found[i].0@, found[i].1@));
                lemma_token_is_held(tokens, token2index@, pair.0);
                lemma_token_is_held(tokens, token2index@, pair.1);
                lemma_token_is_held(tokens, token2index@, pair.0 + pair.1);
            }
        }
        match bpe_tokenizer(token2index, found, "[UNK]".to_owned()) {
            Some(hf_tokenizer) => Some(
                BPETokenizer { hf_tokenizer, vocab: Ghost(numbered), merges: Ghost(ranked) },
            ),
            None => None,
        }
    }

    /// Tokenize a single string. `None` where the tokenizer fails.
    pub fn tokenize(&self, string: &str) -> (tokens: Option<Vec<String>>) {
        encode(&self.hf_tokenizer, string)
    }

    /// Tokenize a batch of strings. `None` where the tokenizer fails.
    pub fn batch_tokenize(&self, strings: Vec<String>) -> (batch: Option<Vec<Vec<String>>>)
        ensures
            batch matches Some(found) ==> found.len() == strings.len(),
    {
        encode_batch(&self.hf_tokenizer, strings)
    }

    /// Untokenize a single string: the tokens one after the other.
    pub fn untokenize(&self, tokens: Vec<String>) -> (text: String)
        ensures
            text@ == joined_with(texts(tokens@), Seq::empty()),
    {
        proof {
            reveal_strlit("");
            assert(""@ =~= Seq::<char>::empty());
        }
        join(tokens.as_slice(), "")
    }

    /// Untokenize a batch of strings
    pub fn batch_untokenize(&self, tokens: Vec<Vec<String>>) -> (batch: Vec<String>)
        ensures
            batch.len() == tokens.len(),
            forall|i: int|
                0 <= i < tokens.len() ==> (#[trigger] batch[i])@ == joined_with(
                    texts(tokens[i]@),
                    Seq::empty(),
                ),
    {
        proof {
            reveal_strlit("");
            assert(""@ =~= Seq::<char>::empty());
        }
        let mut batch: Vec<String> = Vec::new();
        let mut i: usize = 0;
        while i < tokens.len()
            invariant
                i <= tokens.len(),
                batch.len() == i,
                ""@ == Seq::<char>::empty(),
                forall|k: int|
                    0 <= k < i ==> (#[trigger] batch[k])@ == joined_with(
                        texts(tokens[k]@),
                        Seq::empty(),
                    ),
            decreases tokens.len() - i,
        {
            batch.push(join(tokens[i].as_slice(), ""));
            i += 1;
        }
        batch
    }
}

} // verus!
