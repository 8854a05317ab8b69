use crate::text::chars_of;
use crate::text::letters;
use crate::text::letters_of;
use crate::text::is_line_break;
use crate::text::string_between;
use crate::text::texts;
use vstd::prelude::*;

verus! {

/// `pattern` stands in `text` at the position `at`.
pub open spec fn matches_at(text: Seq<char>, pattern: Seq<char>, at: int) -> bool {
    &&& 0 <= at
    &&& at + pattern.len() <= text.len()
    &&& text.subrange(at, at + pattern.len()) == pattern
}

/// The pieces of `text` from `start` on, cut at every place where `pattern` stands, for a
/// search that has come to `from`. The search goes from left to right, and a place that a
/// match covers starts no other match.
pub open spec fn split_from(text: Seq<char>, pattern: Seq<char>, start: int, from: int) -> Seq<
    Seq<char>,
>
    decreases text.len() - from,
{
    if pattern.len() == 0 || from < 0 || from + pattern.len() > text.len() {
        seq![text.subrange(start, text.len() as int)]
    } else if matches_at(text, pattern, from) {
        seq![text.subrange(start, from)] + split_from(
            text,
            pattern,
            from + pattern.len(),
            from + pattern.len(),
        )
    } else {
        split_from(text, pattern, start, from + 1)
    }
}

/// `text` cut at every place where `pattern` stands. An empty pattern stands between every
/// two characters and at both ends.
pub open spec fn split_by(text: Seq<char>, pattern: Seq<char>) -> Seq<Seq<char>> {
    if pattern.len() == 0 {
        seq![Seq::<char>::empty()] + letters_of(text) + seq![Seq::<char>::empty()]
    } else {
        split_from(text, pattern, 0, 0)
    }
}

/// How often `pattern` stands in `text`: one less than the pieces that it cuts the text into.
pub open spec fn occurrences(text: Seq<char>, pattern: Seq<char>) -> nat {
    (split_by(text, pattern).len() - 1) as nat
}

/// A text is cut into at least one piece, and into no more pieces than it has characters
/// and two.
pub proof fn lemma_split_from_len(text: Seq<char>, pattern: Seq<char>, start: int, from: int)
    requires
        0 <= from,
    ensures
        1 <= split_from(text, pattern, start, from).len(),
        from <= text.len() ==> split_from(text, pattern, start, from).len() <= text.len() - from + 1,
    decreases text.len() - from,
{
    if pattern.len() == 0 || from + pattern.len() > text.len() {
    } else if matches_at(text, pattern, from) {
        lemma_split_from_len(text, pattern, from + pattern.len(), from + pattern.len());
    } else {
        lemma_split_from_len(text, pattern, start, from + 1);
    }
}

/// Whether `pattern` stands in `text` at `at`.
fn stands_at(text: &Vec<char>, pattern: &Vec<char>, at: usize) -> (found: bool)
    requires
        at + pattern.len() <= text.len(),
    ensures
        found == matches_at(text@, pattern@, at as int),
{
    let mut k: usize = 0;
    while k < pattern.len()
        invariant
            k <= pattern.len(),
            at + pattern.len() <= text.len(),
            forall|j: int| 0 <= j < k ==> text@[at + j] == pattern@[j],
        decreases pattern.len() - k,
    {
        if text[at + k] != pattern[k] {
            assert(text@.subrange(at as int, at + pattern.len())[k as int] != pattern@[k as int]);
            return false;
        }
        k += 1;
    }
    assert(text@.subrange(at as int, at + pattern.len()) =~= pattern@);
    true
}

/// Cuts `text` at every place where `pattern` stands.
pub fn split_text(text: &str, pattern: &str) -> (pieces: Vec<String>)
    ensures
        texts(pieces@) == split_by(text@, pattern@),
        pieces.len() >= 1,
{
    let chars = chars_of(text);
    let wanted = chars_of(pattern);
    let mut pieces: Vec<String> = Vec::new();
    if wanted.len() == 0 {
        pieces.push(String::new());
        let mut inner = letters(text);
        let ghost middle = texts(inner@);
        pieces.append(&mut inner);
        pieces.push(String::new());
        assert(texts(pieces@) =~= seq![Seq::<char>::empty()] + middle + seq![Seq::<char>::empty()]);
        return pieces;
    }
    let mut start: usize = 0;
    let mut from: usize = 0;
    assert(texts(pieces@) + split_from(chars@, wanted@, 0, 0) =~= split_from(chars@, wanted@, 0, 0));
    while from <= chars.len() && wanted.len() <= chars.len() - from
        invariant
            start <= from,
            from <= chars.len() + wanted.len(),
            wanted.len() > 0,
            chars@ == text@,
            wanted@ == pattern@,
            start <= chars.len(),
            texts(pieces@) + split_from(chars@, wanted@, start as int, from as int) == split_by(
                text@,
                pattern@,
            ),
        decreases chars.len() + wanted.len() - from,
    {
        let ghost done = texts(pieces@);
        if stands_at(&chars, &wanted, from) {
            pieces.push(string_between(&chars, start, from));
            from = from + wanted.len();
            assert(texts(pieces@) =~= done.push(chars@.subrange(start as int, from - wanted.len())));
            start = from;
        } else {
            from += 1;
        }
    }
    let ghost done = texts(pieces@);
    pieces.push(string_between(&chars, start, chars.len()));
    assert(texts(pieces@) =~= done.push(chars@.subrange(start as int, chars.len() as int)));
    pieces
}

/// The number of examples in the lines of one file: the number of lines where the examples
/// are divided by line breaks; else one more than the delimiters in all lines, since the
/// delimiters divide the examples.
pub open spec fn examples_in(lines: Seq<Seq<char>>, delimiter: Seq<char>) -> nat
    decreases lines.len(),
{
    if delimiter == seq!['\n'] {
        lines.len()
    } else if lines.len() == 0 {
        1
    } else {
        examples_in(lines.drop_last(), delimiter) + occurrences(lines.last(), delimiter)
    }
}

/// Counts the examples in the lines of one file. `None` where the count is beyond what a
/// machine word holds.
pub fn count_examples(lines: &[String], delimiter: &str) -> (count: Option<usize>)
    ensures
        match count {
            Some(found) => found == examples_in(texts(lines@), delimiter@),
            None => examples_in(texts(lines@), delimiter@) > usize::MAX,
        },
{
    if is_line_break(delimiter) {
        return Some(lines.len());
    }
    let ghost all = texts(lines@);
    let mut count: usize = 1;
    let mut i: usize = 0;
    assert(all.take(0) =~= Seq::<Seq<char>>::empty());
    while i < lines.len()
        invariant
            i <= lines.len(),
            all == texts(lines@),
            delimiter@ != seq!['\n'],
            count == examples_in(all.take(i as int), delimiter@),
        decreases lines.len() - i,
    {
        assert(all.take(i + 1).drop_last() =~= all.take(i as int));
        assert(all.take(i + 1).last() == lines[i as int]@);
        let pieces = split_text(lines[i].as_str(), delimiter);
        let found = pieces.len() - 1;
        if found > usize::MAX - count {
            proof {
                lemma_examples_grow(all, delimiter@, i + 1);
            }
            return None;
        }
        count = count + found;
        i += 1;
    }
    assert(all.take(lines.len() as int) =~= all);
    Some(count)
}

/// The count of examples never goes down as lines are added.
pub proof fn lemma_examples_grow(lines: Seq<Seq<char>>, delimiter: Seq<char>, upto: int)
    requires
        0 <= upto <= lines.len(),
        delimiter != seq!['\n'],
    ensures
        examples_in(lines.take(upto), delimiter) <= examples_in(lines, delimiter),
    decreases lines.len() - upto,
{
    if upto < lines.len() {
        lemma_examples_grow(lines, delimiter, upto + 1);
        assert(lines.take(upto + 1).drop_last() =~= lines.take(upto));
    } else {
        assert(lines.take(upto) =~= lines);
    }
}

} // verus!
