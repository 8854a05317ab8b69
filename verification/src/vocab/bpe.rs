use super::markers;
use super::BasicVocab;
use super::TokenNotFoundError;
use super::Vocab;
use crate::text::chars_of;
use crate::text::string_of;
use serde_json::Value;
use std::collections::HashMap;
use vstd::prelude::*;

verus! {

/// The number of places in the table by which a byte-pair vocabulary is put in order.
pub const BPE_TABLE_SIZE: usize = 50265;

/// `s` without the characters `a` and `b`.
pub open spec fn without(s: Seq<char>, a: char, b: char) -> Seq<char>
    decreases s.len(),
{
    if s.len() == 0 {
        s
    } else if s.last() == a || s.last() == b {
        without(s.drop_last(), a, b)
    } else {
        without(s.drop_last(), a, b).push(s.last())
    }
}

/// A table of `size` places, all empty at first, into which the tokens of `entries` have
/// been put one after the other, each at its number. A later entry takes the place of an
/// earlier one with the same number; an entry whose number is beyond the table is left out.
pub open spec fn table_of(entries: Seq<(Seq<char>, usize)>, size: nat) -> Seq<Seq<char>>
    decreases entries.len(),
{
    if entries.len() == 0 {
        Seq::new(size, |i: int| Seq::<char>::empty())
    } else {
        let table = table_of(entries.drop_last(), size);
        let (token, place) = entries.last();
        if place < size {
            table.update(place as int, token)
        } else {
            table
        }
    }
}

/// The texts of `table` that are not empty, in order.
pub open spec fn filled(table: Seq<Seq<char>>) -> Seq<Seq<char>>
    decreases table.len(),
{
    if table.len() == 0 {
        table
    } else if table.last().len() == 0 {
        filled(table.drop_last())
    } else {
        filled(table.drop_last()).push(table.last())
    }
}

/// `value` is a number and names a place of the table.
pub open spec fn in_table(value: Option<u64>) -> bool {
    value matches Some(place) && place < BPE_TABLE_SIZE
}

/// The tokens and places of `entries`, the tokens as texts.
pub open spec fn entry_texts(entries: Seq<(String, usize)>) -> Seq<(Seq<char>, usize)> {
    entries.map_values(|e: (String, usize)| (e.0@, e.1))
}

/// The JSON object that a text denotes: its keys, each with its value where that is an
/// unsigned integer. `None` where the text is no JSON object.
pub uninterp spec fn json_object(text: Seq<char>) -> Option<Map<Seq<char>, Option<u64>>>;

/// The keys and values of `read`, the keys as texts.
pub open spec fn read_texts(read: Seq<(String, Option<u64>)>) -> Seq<(Seq<char>, Option<u64>)> {
    read.map_values(|e: (String, Option<u64>)| (e.0@, e.1))
}

/// `entries` lists `object`: they hold every key of the object once, each with its value,
/// in some order.
pub open spec fn lists(
    entries: Seq<(Seq<char>, Option<u64>)>,
    object: Map<Seq<char>, Option<u64>>,
) -> bool {
    &&& forall|i: int, j: int|
        0 <= i < j < entries.len() ==> (#[trigger] entries[i]).0 != (#[trigger] entries[j]).0
    &&& forall|i: int|
        0 <= i < entries.len() ==> object.contains_key((#[trigger] entries[i]).0)
            && object[entries[i].0] == entries[i].1
    &&& forall|key: Seq<char>| #[trigger]
        object.contains_key(key) ==> exists|i: int|
            0 <= i < entries.len() && (#[trigger] entries[i]).0 == key
}

/// The keys of `entries` with the places that their values name.
pub open spec fn placed(entries: Seq<(Seq<char>, Option<u64>)>) -> Seq<(Seq<char>, usize)> {
    entries.map_values(
        |e: (Seq<char>, Option<u64>)|
            (
                e.0,
                match e.1 {
                    Some(place) => place as usize,
                    None => 0usize,
                },
            ),
    )
}

/// Every value of `object` is a number and names a place of the table.
pub open spec fn all_in_table(object: Map<Seq<char>, Option<u64>>) -> bool {
    forall|key: Seq<char>| object.contains_key(key) ==> in_table(#[trigger] object[key])
}

/// Reads a JSON object whose values are numbers: the keys, each with its value where that
/// is an unsigned integer. `None` where the text is no JSON object.
///
/// Trusted: `serde_json::from_str` into a hash map and `Value::as_u64` of `serde_json`.
/// What object a text denotes depends on the text alone; it is named, not spelled out.
/// The pairs list the object: a map holds every key once. They come in the order in which
/// the hash map is walked, of which nothing is stated.
#[verifier::external_body]
pub(crate) fn json_entries(text: &str) -> (read: Option<Vec<(String, Option<u64>)>>)
    ensures
        match read {
            Some(found) => json_object(text@) matches Some(object) && lists(
                read_texts(found@),
                object,
            ),
            None => json_object(text@) is None,
        },
{
    let parsed: Result<HashMap<String, Value>, serde_json::Error> = serde_json::from_str(text);
    match parsed {
        Ok(object) => Some(object.into_iter().map(|(key, value)| (key, value.as_u64())).collect()),
        Err(_) => None,
    }
}

/// Entries that list an object have all their values in the table exactly if the object
/// has.
pub proof fn lemma_listed_in_table(
    entries: Seq<(Seq<char>, Option<u64>)>,
    object: Map<Seq<char>, Option<u64>>,
)
    requires
        lists(entries, object),
    ensures
        all_in_table(object) <==> forall|i: int|
            0 <= i < entries.len() ==> in_table((#[trigger] entries[i]).1),
{
    if all_in_table(object) {
        assert forall|i: int| 0 <= i < entries.len() implies in_table((#[trigger] entries[i]).1) by {
            assert(object.contains_key(entries[i].0));
            assert(in_table(object[entries[i].0]));
        }
    }
    if forall|i: int| 0 <= i < entries.len() ==> in_table((#[trigger] entries[i]).1) {
        assert forall|key: Seq<char>| object.contains_key(key) implies in_table(
            #[trigger] object[key],
        ) by {
            let i = choose|i: int| 0 <= i < entries.len() && (#[trigger] entries[i]).0 == key;
            assert(in_table(entries[i].1));
        }
    }
}

/// `text` without the characters `a` and `b`.
pub fn remove_chars(text: &str, a: char, b: char) -> (rest: String)
    ensures
        rest@ == without(text@, a, b),
{
    let chars = chars_of(text);
    let mut out: Vec<char> = Vec::new();
    let mut i: usize = 0;
    assert(chars@.take(0) =~= Seq::<char>::empty());
    while i < chars.len()
        invariant
            i <= chars.len(),
            out@ == without(chars@.take(i as int), a, b),
        decreases chars.len() - i,
    {
        assert(chars@.take(i + 1).drop_last() =~= chars@.take(i as int));
        let c = chars[i];
        if !(c == a || c == b) {
            out.push(c);
        }
        i += 1;
    }
    assert(chars@.take(chars.len() as int) =~= chars@);
    string_of(out.as_slice())
}

/// The tokens of `entries` in the order of their numbers: the table's texts that are not
/// empty.
pub fn ordered_tokens(entries: Vec<(String, usize)>) -> (tokens: Vec<String>)
    requires
        forall|i: int| 0 <= i < entries.len() ==> (#[trigger] entries[i]).1 < BPE_TABLE_SIZE,
    ensures
        crate::text::texts(tokens@) == filled(table_of(entry_texts(entries@), BPE_TABLE_SIZE as nat)),
{
    let ghost all = entry_texts(entries@);
    let ghost given = entries@;
    // Build sorted vector of tokens from the entries
    let mut token_vec: Vec<String> = Vec::new();
    let mut i: usize = 0;
    while i < BPE_TABLE_SIZE
        invariant
            i <= BPE_TABLE_SIZE,
            token_vec.len() == i,
            forall|k: int| 0 <= k < i ==> (#[trigger] token_vec[k])@ == Seq::<char>::empty(),
        decreases BPE_TABLE_SIZE - i,
    {
        token_vec.push(String::new());
        i += 1;
    }
    assert(all.take(0) =~= Seq::<(Seq<char>, usize)>::empty());
    assert(crate::text::texts(token_vec@) =~= table_of(all.take(0), BPE_TABLE_SIZE as nat));
    for entry in it: entries.into_iter()
        invariant
            it.seq() == given,
            all == entry_texts(given),
            forall|k: int| 0 <= k < given.len() ==> (#[trigger] given[k]).1 < BPE_TABLE_SIZE,
            token_vec.len() == BPE_TABLE_SIZE,
            crate::text::texts(token_vec@) == table_of(
                all.take(it.index() as int),
                BPE_TABLE_SIZE as nat,
            ),
    {
        let ghost k = it.index() as int;
        let ghost table = crate::text::texts(token_vec@);
        assert(all.take(k + 1).drop_last() =~= all.take(k));
        assert(all.take(k + 1).last() == (entry.0@, entry.1));
        let (token, place) = entry;
        token_vec.set(place, token);
        assert(crate::text::texts(token_vec@) =~= table.update(place as int, token@));
    }
    assert(all.take(all.len() as int) =~= all);
    // Keep the places that hold a token
    let ghost table = crate::text::texts(token_vec@);
    let mut tokens: Vec<String> = Vec::new();
    assert(table.take(0) =~= Seq::<Seq<char>>::empty());
    assert(crate::text::texts(tokens@) =~= filled(table.take(0)));
    for token in it: token_vec.into_iter()
        invariant
            table == crate::text::texts(it.seq()),
            crate::text::texts(tokens@) == filled(table.take(it.index() as int)),
    {
        let ghost k = it.index() as int;
        let ghost done = crate::text::texts(tokens@);
        assert(table.take(k + 1).drop_last() =~= table.take(k));
        assert(table.take(k + 1).last() == token@);
        if !token.as_str().is_empty() {
            tokens.push(token);
            assert(crate::text::texts(tokens@) =~= done.push(table[k]));
        }
    }
    assert(table.take(table.len() as int) =~= table);
    tokens
}

/// The vocabulary of a byte-pair tokenizer.
pub struct BPEVocab {
    vocab: BasicVocab,
}

impl BPEVocab {
    /// The vocabulary that does the work.
    pub closed spec fn inner(&self) -> BasicVocab {
        self.vocab
    }

    /// The vocabulary of the tokens of `entries`, in the order of their numbers, after the
    /// marker tokens. An entry with an empty token counts for nothing.
    pub fn from_entries(entries: Vec<(String, usize)>) -> (loaded: Self)
        requires
            forall|i: int| 0 <= i < entries.len() ==> (#[trigger] entries[i]).1 < BPE_TABLE_SIZE,
        ensures
            loaded.wf(),
            loaded.tokens() == markers() + filled(
                table_of(entry_texts(entries@), BPE_TABLE_SIZE as nat),
            ),
    {
        let tokens = ordered_tokens(entries);
        let mut vocab = BasicVocab::new();
        vocab.add_tokens(tokens);
        BPEVocab { vocab }
    }

    /// Turns what was read of a JSON object into entries of the table. `None` where a
    /// value is no number or a number beyond the table.
    pub fn checked_entries(read: Vec<(String, Option<u64>)>) -> (entries: Option<
        Vec<(String, usize)>,
    >)
        ensures
            entries is Some <==> forall|i: int|
                0 <= i < read.len() ==> in_table((#[trigger] read[i]).1),
            entries matches Some(found) ==> {
                &&& found.len() == read.len()
                &&& forall|i: int|
                    0 <= i < read.len() ==> (#[trigger] found[i]).0 == read[i].0 && Some(
                        found[i].1 as u64,
                    ) == read[i].1 && found[i].1 < BPE_TABLE_SIZE
            },
    {
        let ghost given = read@;
        let mut entries: Vec<(String, usize)> = Vec::new();
        for pair in it: read.into_iter()
            invariant
                it.seq() == given,
                entries.len() == it.index(),
                forall|i: int|
                    0 <= i < it.index() ==> in_table((#[trigger] given[i]).1),
                forall|i: int|
                    0 <= i < it.index() ==> (#[trigger] entries[i]).0 == given[i].0 && Some(
                        entries[i].1 as u64,
                    ) == given[i].1 && entries[i].1 < BPE_TABLE_SIZE,
        {
            let (token, value) = pair;
            match value {
                Some(place) => {
                    if place >= BPE_TABLE_SIZE as u64 {
                        assert(!in_table(given[it.index() as int].1));
                        return None;
                    }
                    entries.push((token, place as usize));
                },
                None => {
                    assert(!in_table(given[it.index() as int].1));
                    return None;
                },
            }
        }
        Some(entries)
    }

    /// The vocabulary that the JSON object in `text` describes: its keys are the tokens,
    /// its values their numbers. The characters `/` and `Ġ` are taken out of the text
    /// first. `None` where the text is no such object: where it is no JSON object, or a
    /// value is no number below the size of the table. Where two keys have one number,
    /// either may take the place.
    pub fn from_json(text: &str) -> (loaded: Option<Self>)
        ensures
            match json_object(without(text@, '/', '\u{120}')) {
                Some(object) => {
                    &&& loaded is Some <==> all_in_table(object)
                    &&& loaded matches Some(vocab) ==> vocab.wf() && exists|
                        entries: Seq<(Seq<char>, Option<u64>)>,
                    |
                        #[trigger] lists(entries, object) && vocab.tokens() == markers() + filled(
                            table_of(placed(entries), BPE_TABLE_SIZE as nat),
                        )
                },
                None => loaded is None,
            },
    {
        let cleaned = remove_chars(text, '/', '\u{120}');
        match json_entries(cleaned.as_str()) {
            Some(read) => {
                let ghost listed = read_texts(read@);
                let ghost object = json_object(cleaned@)->0;
                let ghost given = read@;
                proof {
                    lemma_listed_in_table(listed, object);
                    assert forall|i: int| 0 <= i < given.len() implies (#[trigger] listed[i]).1
                        == given[i].1 by {
                    }
                }
                match Self::checked_entries(read) {
                    Some(entries) => {
                        proof {
                            assert forall|i: int| 0 <= i < listed.len() implies in_table(
                                (#[trigger] listed[i]).1,
                            ) by {
                                assert(in_table(given[i].1));
                            }
                            assert(entry_texts(entries@) =~= placed(listed));
                        }
                        let vocab = Self::from_entries(entries);
                        assert(lists(listed, object) && vocab.tokens() == markers() + filled(
                            table_of(placed(listed), BPE_TABLE_SIZE as nat),
                        ));
                        Some(vocab)
                    },
                    None => {
                        proof {
                            if all_in_table(object) {
                                assert forall|i: int| 0 <= i < given.len() implies in_table(
                                    (#[trigger] given[i]).1,
                                ) by {
                                    assert(in_table(listed[i].1));
                                }
                            }
                        }
                        None
                    },
                }
            },
            None => None,
        }
    }
}

impl Vocab for BPEVocab {
    open spec fn tokens(&self) -> Seq<Seq<char>> {
        self.inner().tokens()
    }

    open spec fn index(&self) -> Map<Seq<char>, usize> {
        self.inner().index()
    }

    open spec fn wf(&self) -> bool {
        self.inner().wf()
    }

    fn len(&self) -> (count: usize) {
        self.vocab.len()
    }

    fn tokens_from_indexes(&self, indexes: &[usize]) -> (found: Result<
        Vec<String>,
        TokenNotFoundError,
    >) {
        self.vocab.tokens_from_indexes(indexes)
    }

    fn batch_tokens_from_indexes(&self, indexes: &[Vec<usize>]) -> (found: Result<
        Vec<Vec<String>>,
        TokenNotFoundError,
    >) {
        self.vocab.batch_tokens_from_indexes(indexes)
    }

    fn indexes_from_tokens(&self, tokens: &[String]) -> (found: Result<
        Vec<usize>,
        TokenNotFoundError,
    >) {
        self.vocab.indexes_from_tokens(tokens)
    }

    fn batch_indexes_from_tokens(&self, tokens: &[Vec<String>]) -> (found: Result<
        Vec<Vec<usize>>,
        TokenNotFoundError,
    >) {
        self.vocab.batch_indexes_from_tokens(tokens)
    }
}

} // verus!
