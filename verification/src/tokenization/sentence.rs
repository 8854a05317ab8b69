use super::Tokenizer;
use crate::text::join;
use crate::text::joined_with;
use crate::text::chars_of;
use crate::text::string_between;
use crate::text::texts;
use crate::text::trim;
use crate::text::trimmed;
use regex::Regex;
use vstd::prelude::*;

verus! {

/// The pieces into which a regular expression cuts a text: the parts of the text that no
/// match of the expression covers, in order. `None` where the pattern is no valid
/// expression.
pub uninterp spec fn regex_pieces(pattern: Seq<char>, text: Seq<char>) -> Option<Seq<Seq<char>>>;

/// Cuts `text` at every match of the regular expression `pattern`.
///
/// Trusted: `Regex::new` and `Regex::split` of the `regex` crate. What they give depends
/// on the pattern and the text alone; it is named, not spelled out.
#[verifier::external_body]
fn split_by_pattern(pattern: &str, text: &str) -> (pieces: Option<Vec<String>>)
    ensures
        match pieces {
            Some(found) => regex_pieces(pattern@, text@) == Some(texts(found@)),
            None => regex_pieces(pattern@, text@) is None,
        },
{
    match Regex::new(pattern) {
        Ok(regex) => Some(regex.split(text).map(|piece| piece.to_string()).collect()),
        Err(_) => None,
    }
}

/// `c` ends a sentence.
pub open spec fn is_stop(c: char) -> bool {
    c == '!' || c == '.' || c == '?' || c == ';'
}

/// The sentences found in the first `upto` characters of `s`, and where the text after the
/// last of them begins. A sentence ends with a stop and holds at least one character
/// before it.
pub open spec fn scan_sentences(s: Seq<char>, upto: nat) -> (Seq<Seq<char>>, nat)
    decreases upto,
{
    if upto == 0 {
        (Seq::empty(), 0)
    } else {
        let (found, last) = scan_sentences(s, (upto - 1) as nat);
        let i = (upto - 1) as nat;
        if is_stop(s[i as int]) && i > last {
            (found.push(s.subrange(last as int, upto as int)), upto)
        } else {
            (found, last)
        }
    }
}

/// `s` cut after every stop, the stops kept. What follows the last sentence is a piece too
/// if it holds more than one character.
pub open spec fn kept_sentences(s: Seq<char>) -> Seq<Seq<char>> {
    let (found, last) = scan_sentences(s, s.len());
    if last + 1 < s.len() {
        found.push(s.skip(last as int))
    } else {
        found
    }
}

/// Every text of `pieces` without the white space at its ends.
pub open spec fn trimmed_each(pieces: Seq<Seq<char>>) -> Seq<Seq<char>> {
    pieces.map_values(|piece: Seq<char>| trimmed(piece))
}

/// The sentences begin no later than the text ends.
proof fn lemma_scan_bounds(s: Seq<char>, upto: nat)
    ensures
        scan_sentences(s, upto).1 <= upto,
    decreases upto,
{
    if upto > 0 {
        lemma_scan_bounds(s, (upto - 1) as nat);
    }
}

/// Cuts `text` after every stop and keeps the stops.
pub fn split_keep(text: &str) -> (result: Vec<String>)
    ensures
        texts(result@) == kept_sentences(text@),
{
    let chars = chars_of(text);
    let mut result: Vec<String> = Vec::new();
    let mut last_match: usize = 0;
    let mut i: usize = 0;
    assert(texts(result@) =~= Seq::<Seq<char>>::empty());
    while i < chars.len()
        invariant
            i <= chars.len(),
            last_match <= i,
            chars@ == text@,
            (texts(result@), last_match as nat) == scan_sentences(text@, i as nat),
        decreases chars.len() - i,
    {
        let c = chars[i];
        let ghost found = texts(result@);
        if (c == '!' || c == '.' || c == '?' || c == ';') && i > last_match {
            // If we have more than one letter that came before, add it to the results
            result.push(string_between(&chars, last_match, i + 1));
            last_match = i + 1;
            assert(texts(result@) =~= found.push(result@.last()@));
        }
        i += 1;
    }
    if last_match < chars.len() && last_match + 1 < chars.len() {
        let ghost found = texts(result@);
        result.push(string_between(&chars, last_match, chars.len()));
        assert(texts(result@) =~= found.push(text@.skip(last_match as int)));
    }
    result
}

/// Trims every string of `pieces`.
pub fn trim_each(pieces: Vec<String>) -> (trimmed: Vec<String>)
    ensures
        texts(trimmed@) == trimmed_each(texts(pieces@)),
{
    let mut out: Vec<String> = Vec::new();
    let mut i: usize = 0;
    while i < pieces.len()
        invariant
            i <= pieces.len(),
            texts(out@) == trimmed_each(texts(pieces@).take(i as int)),
        decreases pieces.len() - i,
    {
        let ghost done = texts(out@);
        let ghost piece = pieces[i as int]@;
        out.push(trim(pieces[i].as_str()));
        i += 1;
        assert(texts(out@) =~= done.push(trimmed(piece)));
        assert(texts(pieces@).take(i as int) =~= texts(pieces@).take(i - 1).push(piece));
        assert(trimmed_each(texts(pieces@).take(i - 1).push(piece)) =~= trimmed_each(
            texts(pieces@).take(i - 1),
        ).push(trimmed(piece)));
    }
    assert(texts(pieces@).take(pieces.len() as int) =~= texts(pieces@));
    out
}

/// The pattern by which sentences are cut where the stops are not kept.
pub open spec fn stop_pattern() -> Seq<char> {
    "!|.|\\?|;"@
}

/// The tokens of `text` where the stops are not kept: the trimmed pieces into which the
/// stop pattern cuts the text.
pub open spec fn cut_sentences(text: Seq<char>) -> Seq<Seq<char>> {
    match regex_pieces(stop_pattern(), text) {
        Some(pieces) => trimmed_each(pieces),
        None => Seq::empty(),
    }
}

/// A tokenizer whose tokens are the sentences of the text.
#[derive(Debug, Clone, Copy)]
pub struct SentenceTokenizer {
    keep_punctuation: bool,
}

impl SentenceTokenizer {
    /// Whether the stops stay with their sentences.
    pub closed spec fn keeps_punctuation(&self) -> bool {
        self.keep_punctuation
    }

    pub fn new(keep_punctuation: bool) -> (tokenizer: Self)
        ensures
            tokenizer.keeps_punctuation() == keep_punctuation,
    {
        SentenceTokenizer { keep_punctuation }
    }

    /// The sentences of `text`, trimmed.
    pub open spec fn sentences(&self, text: Seq<char>) -> Seq<Seq<char>> {
        if self.keeps_punctuation() {
            trimmed_each(kept_sentences(text))
        } else {
            cut_sentences(text)
        }
    }

    /// Cuts one text into its sentences.
    fn cut(&self, string: &str) -> (tokens: Vec<String>)
        ensures
            texts(tokens@) == self.sentences(string@),
    {
        if self.keep_punctuation {
            trim_each(split_keep(string))
        } else {
            match split_by_pattern("!|.|\\?|;", string) {
                Some(pieces) => trim_each(pieces),
                None => Vec::new(),
            }
        }
    }
}

impl Tokenizer for SentenceTokenizer {
    open spec fn cuts(&self, text: Seq<char>, tokens: Seq<Seq<char>>) -> bool {
        tokens == self.sentences(text)
    }

    open spec fn cuts_in_batch(&self, text: Seq<char>, tokens: Seq<Seq<char>>) -> bool {
        tokens == self.sentences(text)
    }

    /// The text is the sentences one after the other, with a space between every two.
    open spec fn joins(&self, tokens: Seq<Seq<char>>, text: Seq<char>) -> bool {
        text == joined_with(tokens, seq![' '])
    }

    /// A tokenizer that keeps the stops.
    fn load() -> (tokenizer: Self)
        ensures
            tokenizer.keeps_punctuation(),
    {
        SentenceTokenizer { keep_punctuation: true }
    }

    fn tokenize(&self, string: &str) -> (tokens: Vec<String>) {
        self.cut(string)
    }

    fn batch_tokenize(&self, strings: Vec<String>) -> (batch: Vec<Vec<String>>) {
        let mut batch: Vec<Vec<String>> = Vec::new();
        let mut i: usize = 0;
        while i < strings.len()
            invariant
                i <= strings.len(),
                batch.len() == i,
                forall|k: int|
                    0 <= k < i ==> self.cuts_in_batch(strings[k]@, texts((#[trigger] batch[k])@)),
            decreases strings.len() - i,
        {
            batch.push(self.cut(strings[i].as_str()));
            i += 1;
        }
        batch
    }

    fn untokenize(&self, tokens: Vec<String>) -> (text: String) {
        let text = join(tokens.as_slice(), " ");
        proof {
            reveal_strlit(" ");
            assert(" "@ =~= seq![' ']);
        }
        text
    }

    fn batch_untokenize(&self, tokens: Vec<Vec<String>>) -> (batch: Vec<String>) {
        let mut batch: Vec<String> = Vec::new();
        let mut i: usize = 0;
        proof {
            reveal_strlit(" ");
            assert(" "@ =~= seq![' ']);
        }
        while i < tokens.len()
            invariant
                i <= tokens.len(),
                batch.len() == i,
                " "@ == seq![' '],
                forall|k: int|
                    0 <= k < i ==> self.joins(texts(tokens[k]@), (#[trigger] batch[k])@),
            decreases tokens.len() - i,
        {
            batch.push(join(tokens[i].as_slice(), " "));
            i += 1;
        }
        batch
    }
}

} // verus!
