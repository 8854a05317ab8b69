use super::segments::count_examples;
use super::segments::examples_in;
use super::segments::split_by;
use super::segments::split_text;
use crate::batching::sort_pairs;
use crate::pipeline::premade::clip;
use crate::pipeline::premade::flat_pairs;
use crate::pipeline::premade::lemma_flat_pairs_rearranged;
use crate::pipeline::premade::lemma_mapped_rearranged;
use crate::pipeline::premade::maps_to;
use crate::pipeline::Node;
use crate::pipelines::reads_any;
use crate::pipelines::span;
use crate::random::shuffle;
use crate::text::is_line_break;
use crate::text::texts;
use vstd::prelude::*;
use vstd::seq_lib::lemma_multiset_commutative;

verus! {

/// The number of examples that are shuffled among themselves.
pub const BLOCK_SIZE: usize = 100_000;

/// No number of `numbers` stands before a lesser one.
pub open spec fn ascend(numbers: Seq<usize>) -> bool {
    forall|i: int, j: int| 0 <= i < j < numbers.len() ==> #[trigger] numbers[i] <= #[trigger] numbers[j]
}

/// Where the block that begins at `start` ends, among the numbers below `to`.
pub open spec fn block_end(start: usize, to: usize) -> int {
    if to - start <= BLOCK_SIZE {
        to as int
    } else {
        start + BLOCK_SIZE
    }
}

/// The numbers of the block that begins at `start`, among the numbers below `to`.
pub open spec fn block_of(start: usize, to: usize) -> Seq<usize> {
    span(start as int, block_end(start, to))
}

/// Where the blocks begin that the numbers from `from` up to `to` fall into.
pub open spec fn block_starts(from: usize, to: usize) -> Seq<usize>
    decreases to - from,
{
    if from >= to {
        Seq::empty()
    } else if to - from <= BLOCK_SIZE {
        seq![from]
    } else {
        seq![from] + block_starts((from + BLOCK_SIZE) as usize, to)
    }
}

/// The blocks, one after the other in ascending order, are the numbers from `from` up to
/// `to`.
pub proof fn lemma_blocks_cover(from: usize, to: usize)
    ensures
        flat_pairs(|start: usize| block_of(start, to), block_starts(from, to)) == span(
            from as int,
            to as int,
        ),
    decreases to - from,
{
    let f = |start: usize| block_of(start, to);
    let starts = block_starts(from, to);
    if from >= to {
        assert(starts.map_values(f) =~= Seq::<Seq<usize>>::empty());
        assert(span(from as int, to as int) =~= Seq::<usize>::empty());
    } else if to - from <= BLOCK_SIZE {
        assert(starts.map_values(f) =~= seq![block_of(from, to)]);
        seq![block_of(from, to)].lemma_flatten_one_element();
    } else {
        let next = (from + BLOCK_SIZE) as usize;
        lemma_blocks_cover(next, to);
        let rest = block_starts(next, to);
        assert(starts.map_values(f) =~= seq![block_of(from, to)] + rest.map_values(f));
        vstd::seq_lib::lemma_flatten_concat(seq![block_of(from, to)], rest.map_values(f));
        seq![block_of(from, to)].lemma_flatten_one_element();
        assert(block_of(from, to) + span(next as int, to as int) =~= span(from as int, to as int));
    }
}

/// The numbers from `from` up to, not including, `to`, in a random order: shuffled block by
/// block, and the blocks among themselves.
pub fn shuffled_order(from: usize, to: usize) -> (order: Vec<usize>)
    ensures
        order@.to_multiset() == span(from as int, to as int).to_multiset(),
{
    let ghost f = |start: usize| block_of(start, to);
    // Get starting block indexes
    let mut block_indexes: Vec<usize> = Vec::new();
    let mut start = from;
    while start < to
        invariant
            from <= start || from >= to,
            block_indexes@ + block_starts(start, to) == block_starts(from, to),
        decreases to - start,
    {
        let ghost done = block_indexes@;
        block_indexes.push(start);
        if to - start <= BLOCK_SIZE {
            assert(block_indexes@ + block_starts(to, to) =~= done + block_starts(start, to));
            start = to;
        } else {
            assert(block_indexes@ + block_starts((start + BLOCK_SIZE) as usize, to) =~= done
                + block_starts(start, to));
            start = start + BLOCK_SIZE;
        }
    }
    assert(block_indexes@ =~= block_starts(from, to));
    let ghost sorted = block_indexes@;
    shuffle(&mut block_indexes);
    proof {
        lemma_flat_pairs_rearranged(f, block_indexes@, sorted);
        lemma_blocks_cover(from, to);
        block_indexes@.to_multiset_ensures();
        sorted.to_multiset_ensures();
        assert forall|k: int| 0 <= k < block_indexes.len() implies from <= #[trigger] block_indexes[k]
            < to by {
            assert(block_indexes@.contains(block_indexes[k]));
            assert(block_indexes@.to_multiset().count(block_indexes[k]) > 0);
            assert(sorted.to_multiset().count(block_indexes[k]) > 0);
            assert(sorted.contains(block_indexes[k]));
            lemma_starts_in_range(from, to);
        }
    }
    // Fill in blocks
    let mut order: Vec<usize> = Vec::new();
    let mut at: usize = 0;
    proof {
        assert(block_indexes@.take(0).map_values(f) =~= Seq::<Seq<usize>>::empty());
        assert(flat_pairs(f, block_indexes@.take(0)) =~= Seq::<usize>::empty());
    }
    while at < block_indexes.len()
        invariant
            at <= block_indexes.len(),
            f == (|start: usize| block_of(start, to)),
            forall|k: int| 0 <= k < block_indexes.len() ==> from <= #[trigger] block_indexes[k] < to,
            order@.to_multiset() == flat_pairs(f, block_indexes@.take(at as int)).to_multiset(),
        decreases block_indexes.len() - at,
    {
        let begin = block_indexes[at];
        let end = if to - begin <= BLOCK_SIZE {
            to
        } else {
            begin + BLOCK_SIZE
        };
        let mut indexes: Vec<usize> = Vec::new();
        let mut i = begin;
        assert(indexes@ =~= span(begin as int, begin as int));
        while i < end
            invariant
                begin <= i <= end,
                indexes@ == span(begin as int, i as int),
            decreases end - i,
        {
            indexes.push(i);
            i += 1;
            assert(indexes@ =~= span(begin as int, i as int));
        }
        let ghost block = indexes@;
        shuffle(&mut indexes);
        proof {
            let sofar = block_indexes@.take(at as int);
            let upto = block_indexes@.take(at + 1);
            assert(upto =~= sofar.push(begin));
            assert(upto.map_values(f) =~= sofar.map_values(f).push(block));
            sofar.map_values(f).lemma_flatten_push(block);
            assert(flat_pairs(f, upto) =~= flat_pairs(f, sofar) + block);
            lemma_multiset_commutative(flat_pairs(f, sofar), block);
            lemma_multiset_commutative(order@, indexes@);
        }
        order.append(&mut indexes);
        at += 1;
    }
    assert(block_indexes@.take(block_indexes.len() as int) =~= block_indexes@);
    order
}

/// Every block begins within the numbers that it divides.
proof fn lemma_starts_in_range(from: usize, to: usize)
    ensures
        forall|k: int|
            0 <= k < block_starts(from, to).len() ==> from <= #[trigger] block_starts(from, to)[k]
                < to,
    decreases to - from,
{
    if from < to && to - from > BLOCK_SIZE {
        let next = (from + BLOCK_SIZE) as usize;
        lemma_starts_in_range(next, to);
        assert forall|k: int| 0 <= k < block_starts(from, to).len() implies from
            <= #[trigger] block_starts(from, to)[k] < to by {
            if k > 0 {
                assert(block_starts(from, to)[k] == block_starts(next, to)[k - 1]);
            }
        }
    }
}

/// The examples that the lines of a file hold with a delimiter that is no line break, and
/// the text of the example under way. A delimiter ends an example; an example goes on over
/// the end of a line, and the line break counts for nothing.
pub open spec fn examples_scan(lines: Seq<Seq<char>>, delimiter: Seq<char>) -> (
    Seq<Seq<char>>,
    Seq<char>,
)
    decreases lines.len(),
{
    if lines.len() == 0 {
        (Seq::empty(), Seq::empty())
    } else {
        let (done, pending) = examples_scan(lines.drop_last(), delimiter);
        let pieces = split_by(lines.last(), delimiter);
        if pieces.len() <= 1 {
            (done, pending + lines.last())
        } else {
            (
                done.push(pending + pieces[0]) + pieces.subrange(1, pieces.len() - 1),
                pieces.last(),
            )
        }
    }
}

/// The examples that the lines of a file hold: the lines where the examples are divided by
/// line breaks; else what stands between the delimiters, lines put together.
pub open spec fn examples_of(lines: Seq<Seq<char>>, delimiter: Seq<char>) -> Seq<Seq<char>> {
    if delimiter == seq!['\n'] {
        lines
    } else {
        let (done, pending) = examples_scan(lines, delimiter);
        done.push(pending)
    }
}

/// The examples are as many as the count of examples says.
pub proof fn lemma_examples_counted(lines: Seq<Seq<char>>, delimiter: Seq<char>)
    ensures
        examples_of(lines, delimiter).len() == examples_in(lines, delimiter),
    decreases lines.len(),
{
    if delimiter != seq!['\n'] {
        lemma_scan_counted(lines, delimiter);
    }
}

/// The examples that a scan has ended are as many as the delimiters that it has met.
proof fn lemma_scan_counted(lines: Seq<Seq<char>>, delimiter: Seq<char>)
    requires
        delimiter != seq!['\n'],
    ensures
        examples_scan(lines, delimiter).0.len() + 1 == examples_in(lines, delimiter),
    decreases lines.len(),
{
    if lines.len() > 0 {
        lemma_scan_counted(lines.drop_last(), delimiter);
        super::segments::lemma_split_from_len(lines.last(), delimiter, 0, 0);
    }
}

/// The examples that the lines of a file hold.
pub fn read_examples(lines: Vec<String>, delimiter: &str) -> (examples: Vec<String>)
    ensures
        texts(examples@) == examples_of(texts(lines@), delimiter@),
{
    if is_line_break(delimiter) {
        return lines;
    }
    let ghost all = texts(lines@);
    let mut examples: Vec<String> = Vec::new();
    let mut intermediate = String::new();
    let mut at: usize = 0;
    assert(all.take(0) =~= Seq::<Seq<char>>::empty());
    assert(texts(examples@) =~= Seq::<Seq<char>>::empty());
    while at < lines.len()
        invariant
            at <= lines.len(),
            all == texts(lines@),
            (texts(examples@), intermediate@) == examples_scan(all.take(at as int), delimiter@),
        decreases lines.len() - at,
    {
        let ghost done = texts(examples@);
        let ghost pending = intermediate@;
        assert(all.take(at + 1).drop_last() =~= all.take(at as int));
        assert(all.take(at + 1).last() == lines[at as int]@);
        let mut pieces = split_text(lines[at].as_str(), delimiter);
        let ghost parts = texts(pieces@);
        if pieces.len() <= 1 {
            intermediate.append(lines[at].as_str());
        } else {
            let last = pieces.pop().unwrap();
            let ghost middle = texts(pieces@);
            assert(middle =~= parts.drop_last());
            intermediate.append(pieces[0].as_str());
            examples.push(intermediate);
            let mut j: usize = 1;
            assert(texts(examples@) =~= done.push(pending + parts[0]) + parts.subrange(1, 1));
            while j < pieces.len()
                invariant
                    1 <= j <= pieces.len(),
                    middle == texts(pieces@),
                    middle == parts.drop_last(),
                    parts.len() == pieces.len() + 1,
                    texts(examples@) == done.push(pending + parts[0]) + parts.subrange(1, j as int),
                decreases pieces.len() - j,
            {
                let ghost sofar = texts(examples@);
                assert(middle[j as int] == parts[j as int]);
                examples.push(pieces[j].clone());
                assert(texts(examples@) =~= sofar.push(parts[j as int]));
                j += 1;
                assert(parts.subrange(1, j as int) =~= parts.subrange(1, j - 1).push(
                    parts[j - 1],
                ));
            }
            intermediate = last;
        }
        at += 1;
    }
    assert(all.take(lines.len() as int) =~= all);
    let ghost done = texts(examples@);
    examples.push(intermediate);
    assert(texts(examples@) =~= done.push(examples@.last()@));
    examples
}

/// The examples picked from the first `upto` of `examples`, and how many of the wanted
/// numbers have been met. The examples are numbered from `first` on; an example is picked
/// if its number is the next of `wanted`.
pub open spec fn picked_examples(
    examples: Seq<Seq<char>>,
    wanted: Seq<usize>,
    first: int,
    met: int,
    upto: int,
) -> (Seq<Seq<char>>, int)
    decreases upto,
{
    if upto <= 0 {
        (Seq::empty(), met)
    } else {
        let (found, next) = picked_examples(examples, wanted, first, met, upto - 1);
        if 0 <= next < wanted.len() && first + upto - 1 == wanted[next] {
            (found.push(examples[upto - 1]), next + 1)
        } else {
            (found, next)
        }
    }
}

/// The number of examples in each of the files in `read`, which holds the lines of each
/// file, as far as a machine word can hold it.
pub open spec fn counts_in(read: Seq<Vec<String>>, delimiter: Seq<char>) -> Seq<usize> {
    read.map_values(|lines: Vec<String>| clip(examples_in(texts(lines@), delimiter)))
}

/// The number of examples in all the files in `read`, as far as a machine word can hold it.
pub open spec fn total_in(read: Seq<Vec<String>>, delimiter: Seq<char>) -> usize {
    clip(crate::pipeline::premade::sum(counts_in(read, delimiter)))
}

/// The first parts of `pairs`, in order.
pub open spec fn firsts(pairs: Seq<(usize, usize)>) -> Seq<usize> {
    pairs.map_values(|pair: (usize, usize)| pair.0)
}

/// The examples picked from files that hold `contents`, one file after the other, and how
/// many examples and wanted numbers have gone by. The examples are numbered through all
/// files.
pub open spec fn picked_from_files(contents: Seq<Seq<Seq<char>>>, wanted: Seq<usize>) -> (
    Seq<Seq<char>>,
    int,
    int,
)
    decreases contents.len(),
{
    if contents.len() == 0 {
        (Seq::empty(), 0, 0)
    } else {
        let (found, first, met) = picked_from_files(contents.drop_last(), wanted);
        let examples = contents.last();
        let (more, next) = picked_examples(examples, wanted, first, met, examples.len() as int);
        (found + more, first + examples.len(), next)
    }
}

/// The examples of the files in `read`, which holds the lines of each file.
pub open spec fn file_examples(read: Seq<Vec<String>>, delimiter: Seq<char>) -> Seq<
    Seq<Seq<char>>,
> {
    read.map_values(|lines: Vec<String>| examples_of(texts(lines@), delimiter))
}

/// No more wanted numbers are met than there are.
proof fn lemma_picked_bounds(
    examples: Seq<Seq<char>>,
    wanted: Seq<usize>,
    first: int,
    met: int,
    upto: int,
)
    requires
        0 <= met <= wanted.len(),
    ensures
        met <= picked_examples(examples, wanted, first, met, upto).1 <= wanted.len(),
        picked_examples(examples, wanted, first, met, upto).0.len() == picked_examples(
            examples,
            wanted,
            first,
            met,
            upto,
        ).1 - met,
    decreases upto,
{
    if upto > 0 {
        lemma_picked_bounds(examples, wanted, first, met, upto - 1);
    }
}

/// Picks from `examples`, which are numbered from `first` on, those whose numbers are the
/// next of `wanted`, of which `met` have been met.
fn pick_examples(
    examples: Vec<String>,
    wanted: &Vec<usize>,
    first: u128,
    met: &mut usize,
    loaded: &mut Vec<String>,
)
    requires
        *old(met) <= wanted.len(),
        first + examples.len() <= u128::MAX,
    ensures
        ({
            let (more, next) = picked_examples(
                texts(examples@),
                wanted@,
                first as int,
                *old(met) as int,
                examples.len() as int,
            );
            texts(final(loaded)@) == texts(old(loaded)@) + more && *final(met) == next
        }),
        *final(met) <= wanted.len(),
{
    let ghost all = texts(examples@);
    let ghost before = texts(loaded@);
    let ghost start = *met as int;
    let count = examples.len();
    let mut number: u128 = first;
    assert(before + Seq::<Seq<char>>::empty() =~= before);
    for example in it: examples.into_iter()
        invariant
            all == texts(it.seq()),
            count == it.seq().len(),
            number == first + it.index(),
            first + count <= u128::MAX,
            *met <= wanted.len(),
            start <= wanted.len(),
            ({
                let (more, next) = picked_examples(
                    all,
                    wanted@,
                    first as int,
                    start,
                    it.index() as int,
                );
                texts(loaded@) == before + more && *met == next
            }),
    {
        let ghost i = it.index() as int;
        let ghost sofar = texts(loaded@);
        assert(all[i] == example@);
        if *met < wanted.len() && number == wanted[*met] as u128 {
            loaded.push(example);
            *met += 1;
            assert(texts(loaded@) =~= sofar.push(all[i]));
            proof {
                let (more, next) = picked_examples(all, wanted@, first as int, start, i);
                assert(before + more.push(all[i]) =~= (before + more).push(all[i]));
            }
        }
        number += 1;
    }
}

/// `numbers` in ascending order.
pub fn sorted_numbers(numbers: &Vec<usize>) -> (sorted: Vec<usize>)
    ensures
        sorted@.to_multiset() == numbers@.to_multiset(),
        ascend(sorted@),
{
    let mut pairs: Vec<(usize, usize)> = Vec::new();
    let mut i: usize = 0;
    assert(firsts(pairs@) =~= numbers@.take(0));
    while i < numbers.len()
        invariant
            i <= numbers.len(),
            firsts(pairs@) == numbers@.take(i as int),
        decreases numbers.len() - i,
    {
        let ghost done = firsts(pairs@);
        pairs.push((numbers[i], 0));
        i += 1;
        assert(firsts(pairs@) =~= done.push(numbers@[i - 1]));
        assert(numbers@.take(i as int) =~= done.push(numbers@[i - 1]));
    }
    assert(numbers@.take(numbers.len() as int) =~= numbers@);
    let ghost unsorted = pairs@;
    sort_pairs(&mut pairs);
    proof {
        let first = |pair: (usize, usize)| pair.0;
        lemma_mapped_rearranged(first, pairs@, unsorted);
        assert(firsts(pairs@) =~= pairs@.map_values(first));
        assert(firsts(unsorted) =~= unsorted.map_values(first));
    }
    let mut sorted: Vec<usize> = Vec::new();
    let mut k: usize = 0;
    while k < pairs.len()
        invariant
            k <= pairs.len(),
            sorted@ == firsts(pairs@).take(k as int),
        decreases pairs.len() - k,
    {
        sorted.push(pairs[k].0);
        k += 1;
        assert(sorted@ =~= firsts(pairs@).take(k as int));
    }
    assert(firsts(pairs@).take(pairs.len() as int) =~= firsts(pairs@));
    proof {
        assert forall|a: int, b: int| 0 <= a < b < sorted.len() implies #[trigger] sorted[a]
            <= #[trigger] sorted[b] by {
            assert(pairs@[a].0 <= pairs@[b].0);
        }
    }
    sorted
}

/// Reads `files` one after the other, as far as needed, and picks from their examples,
/// which are numbered through all files, those whose numbers `wanted` names. The numbers
/// are met in their order in `wanted`, so they are all found only if they ascend.
pub fn load_examples<R: Node<String, Output = Vec<String>>>(
    reader: &mut R,
    files: &Vec<String>,
    wanted: &Vec<usize>,
    delimiter: &str,
) -> (loaded: Vec<String>)
    requires
        old(reader).inv(),
        reads_any::<R>(),
    ensures
        final(reader).inv(),
        loaded.len() <= wanted.len(),
        exists|read: Seq<Vec<String>>|
            {
                &&& read.len() <= files.len()
                &&& #[trigger] maps_to(
                    *old(reader),
                    files@.take(read.len() as int),
                    *final(reader),
                    read,
                )
                &&& texts(loaded@) == picked_from_files(file_examples(read, delimiter@), wanted@).0
                &&& read.len() < files.len() ==> loaded.len() == wanted.len()
            },
{
    let ghost before = *reader;
    let ghost mut read: Seq<Vec<String>> = Seq::empty();
    // Run through each example in each file
    let mut current_index: u128 = 0;
    let mut current_example: usize = 0;
    let mut loaded: Vec<String> = Vec::new();
    let mut at: usize = 0;
    proof {
        assert(files@.take(0) =~= Seq::<String>::empty());
        assert(file_examples(read, delimiter@) =~= Seq::<Seq<Seq<char>>>::empty());
        assert(texts(loaded@) =~= Seq::<Seq<char>>::empty());
    }
    while at < files.len() && current_example < wanted.len()
        invariant
            at <= files.len(),
            before == *old(reader),
            reader.inv(),
            reads_any::<R>(),
            read.len() == at,
            current_example <= wanted.len(),
            current_index <= at * usize::MAX,
            maps_to(before, files@.take(at as int), *reader, read),
            (texts(loaded@), current_index as int, current_example as int) == picked_from_files(
                file_examples(read, delimiter@),
                wanted@,
            ),
            loaded.len() == current_example,
        decreases files.len() - at,
    {
        let ghost mid = *reader;
        let ghost done = read;
        let lines = reader.process(files[at].clone());
        let examples = read_examples(lines, delimiter);
        let count = examples.len();
        proof {
            assert(at * usize::MAX + usize::MAX == (at + 1) * usize::MAX) by (nonlinear_arith);
            assert((at + 1) * usize::MAX <= usize::MAX * usize::MAX) by (nonlinear_arith)
                requires
                    at < usize::MAX,
            ;
            assert(usize::MAX * usize::MAX <= u128::MAX) by (nonlinear_arith)
                requires
                    usize::MAX <= u64::MAX,
            ;
            lemma_picked_bounds(
                texts(examples@),
                wanted@,
                current_index as int,
                current_example as int,
                count as int,
            );
        }
        pick_examples(examples, wanted, current_index, &mut current_example, &mut loaded);
        current_index = current_index + count as u128;
        proof {
            assert(texts(loaded@).len() == loaded.len());
            read = read.push(lines);
            assert(files@.take(at + 1).drop_last() =~= files@.take(at as int));
            assert(files@.take(at + 1).last() == files@[at as int]);
            assert(read.drop_last() =~= done);
            assert(maps_to(before, files@.take(at + 1).drop_last(), mid, read.drop_last()));
            assert(mid.produces(files@.take(at + 1).last(), *reader, read.last()));
            assert(file_examples(read, delimiter@).drop_last() =~= file_examples(done, delimiter@));
            assert(file_examples(read, delimiter@).last() == examples_of(texts(lines@), delimiter@));
        }
        at += 1;
    }
    loaded
}

/// Given files, randomly load examples separated by a delimiter: every epoch hands out
/// the examples between a least and a greatest number in an order of its own.
pub struct RandomLoader {
    files: Vec<String>,  // The files to load from
    delimeter: String,  // The delimiter to split examples by
    load_order: Vec<usize>,  // The numbers of the examples of an epoch, shuffled on reset
    currently_loaded_index: usize,  // How many numbers of the load order have been asked for
    max_index: usize,  // The max index to load
    min_index: usize,  // The min index to load
}

impl RandomLoader {
    /// The files to load from.
    pub closed spec fn files(&self) -> Seq<String> {
        self.files@
    }

    /// The delimiter that divides the examples.
    pub closed spec fn delimiter(&self) -> Seq<char> {
        self.delimeter@
    }

    /// The numbers of the examples of this epoch, in the order in which they are loaded.
    pub closed spec fn order(&self) -> Seq<usize> {
        self.load_order@
    }

    /// How many numbers of the order have been asked for.
    pub closed spec fn progress(&self) -> usize {
        self.currently_loaded_index
    }

    /// The number below which the examples are loaded.
    pub closed spec fn most(&self) -> usize {
        self.max_index
    }

    /// The number from which the examples are loaded.
    pub closed spec fn least(&self) -> usize {
        self.min_index
    }

    /// The cursor lies within the order.
    pub open spec fn wf(&self) -> bool {
        self.progress() <= self.order().len() <= usize::MAX
    }

    /// Everything but the cursor and the order is the same in `other`.
    pub open spec fn same_setup(&self, other: &Self) -> bool {
        &&& other.files() == self.files()
        &&& other.delimiter() == self.delimiter()
        &&& other.least() == self.least()
        &&& other.most() == self.most()
    }

    /// A loader of the lines of `files`. It has no epoch before its first reset.
    pub fn new(files: Vec<String>) -> (loader: Self)
        ensures
            loader.files() == files@,
            loader.delimiter() == seq!['\n'],
            loader.order().len() == 0,
            loader.progress() == 0,
            loader.least() == 0,
            loader.most() == usize::MAX,
            loader.wf(),
    {
        let delimeter = "\n".to_owned();
        proof {
            reveal_strlit("\n");
            assert(delimeter@ =~= seq!['\n']);
        }
        RandomLoader {
            files,
            delimeter,
            load_order: Vec::new(),
            currently_loaded_index: 0,
            min_index: 0,
            max_index: usize::MAX,
        }
    }

    /// The same loader with `delimeter` to divide the examples.
    pub fn with_delimeter(self, delimeter: String) -> (loader: Self)
        ensures
            loader.delimiter() == delimeter@,
            loader.files() == self.files(),
            loader.order() == self.order(),
            loader.progress() == self.progress(),
            loader.least() == self.least(),
            loader.most() == self.most(),
    {
        RandomLoader {
            files: self.files,
            delimeter,
            load_order: self.load_order,
            currently_loaded_index: self.currently_loaded_index,
            max_index: self.max_index,
            min_index: self.min_index,
        }
    }

    /// The same loader, loading the examples below `max_index` only.
    pub fn max_index(self, max_index: usize) -> (loader: Self)
        ensures
            loader.most() == max_index,
            loader.delimiter() == self.delimiter(),
            loader.files() == self.files(),
            loader.order() == self.order(),
            loader.progress() == self.progress(),
            loader.least() == self.least(),
    {
        RandomLoader {
            files: self.files,
            delimeter: self.delimeter,
            load_order: self.load_order,
            currently_loaded_index: self.currently_loaded_index,
            max_index,
            min_index: self.min_index,
        }
    }

    /// The same loader, loading the examples from `min_index` on only.
    pub fn min_index(self, min_index: usize) -> (loader: Self)
        ensures
            loader.least() == min_index,
            loader.delimiter() == self.delimiter(),
            loader.files() == self.files(),
            loader.order() == self.order(),
            loader.progress() == self.progress(),
            loader.most() == self.most(),
    {
        RandomLoader {
            files: self.files,
            delimeter: self.delimeter,
            load_order: self.load_order,
            currently_loaded_index: self.currently_loaded_index,
            max_index: self.max_index,
            min_index,
        }
    }

    /// Begins an epoch over `total_examples` examples: draws a new order for the numbers
    /// from the least number up to the total or the greatest number, whichever is less,
    /// and puts the cursor at its start.
    pub fn begin_epoch(&mut self, total_examples: usize)
        ensures
            final(self).wf(),
            old(self).same_setup(final(self)),
            final(self).progress() == 0,
            final(self).order().to_multiset() == span(
                old(self).least() as int,
                if total_examples <= old(self).most() {
                    total_examples as int
                } else {
                    old(self).most() as int
                },
            ).to_multiset(),
    {
        let to = if total_examples <= self.max_index {
            total_examples
        } else {
            self.max_index
        };
        self.load_order = shuffled_order(self.min_index, to);
        self.currently_loaded_index = 0;
        assert(self.load_order.len() <= usize::MAX);
    }

    /// Begins an epoch: counts the examples of the files, which `reader` reads, and draws
    /// a new order for them.
    pub fn reset_with<R: Node<String, Output = Vec<String>>>(&mut self, reader: &mut R)
        requires
            old(reader).inv(),
            reads_any::<R>(),
        ensures
            final(reader).inv(),
            final(self).wf(),
            old(self).same_setup(final(self)),
            final(self).progress() == 0,
            exists|read: Seq<Vec<String>>|
                {
                    &&& read.len() <= old(self).files().len()
                    &&& #[trigger] maps_to(
                        *old(reader),
                        old(self).files().take(read.len() as int),
                        *final(reader),
                        read,
                    )
                    &&& read.len() < old(self).files().len() ==> total_in(
                        read,
                        old(self).delimiter(),
                    ) >= old(self).most()
                    &&& final(self).order().to_multiset() == span(
                        old(self).least() as int,
                        if total_in(read, old(self).delimiter()) <= old(self).most() {
                            total_in(read, old(self).delimiter()) as int
                        } else {
                            old(self).most() as int
                        },
                    ).to_multiset()
                },
    {
        let ghost before = *reader;
        let ghost mut read: Seq<Vec<String>> = Seq::empty();
        // Count the total number of examples
        let mut total_examples: usize = 0;
        let mut at: usize = 0;
        proof {
            assert(self.files@.take(0) =~= Seq::<String>::empty());
            assert(counts_in(read, self.delimeter@) =~= Seq::<usize>::empty());
        }
        while at < self.files.len() && total_examples < self.max_index
            invariant
                at <= self.files.len(),
                *self == *old(self),
                before == *old(reader),
                reader.inv(),
                reads_any::<R>(),
                read.len() == at,
                maps_to(before, self.files@.take(at as int), *reader, read),
                total_examples == total_in(read, self.delimeter@),
            decreases self.files.len() - at,
        {
            let ghost mid = *reader;
            let ghost done = read;
            let lines = reader.process(self.files[at].clone());
            let count = match count_examples(lines.as_slice(), self.delimeter.as_str()) {
                Some(found) => found,
                None => usize::MAX,
            };
            total_examples = if count <= usize::MAX - total_examples {
                total_examples + count
            } else {
                usize::MAX
            };
            proof {
                read = read.push(lines);
                assert(self.files@.take(at + 1).drop_last() =~= self.files@.take(at as int));
                assert(self.files@.take(at + 1).last() == self.files@[at as int]);
                assert(read.drop_last() =~= done);
                assert(maps_to(before, self.files@.take(at + 1).drop_last(), mid, read.drop_last()));
                assert(mid.produces(self.files@.take(at + 1).last(), *reader, read.last()));
                assert(counts_in(read, self.delimeter@).drop_last() =~= counts_in(
                    done,
                    self.delimeter@,
                ));
                assert(counts_in(read, self.delimeter@).last() == count);
            }
            at += 1;
        }
        self.begin_epoch(total_examples);
    }

    /// The number of examples left in the epoch.
    pub fn data_remaining(&self, _before: usize) -> (left: usize)
        requires
            self.wf(),
        ensures
            left == self.order().len() - self.progress(),
    {
        self.load_order.len() - self.currently_loaded_index
    }

    /// The numbers of the examples that a request for `count` examples asks for: the next
    /// `count` of the order, or what is left of it.
    pub open spec fn asked(&self, count: nat) -> Seq<usize> {
        self.order().subrange(
            self.progress() as int,
            if count <= self.order().len() - self.progress() {
                self.progress() + count
            } else {
                self.order().len() as int
            },
        )
    }

    /// The numbers of the examples that a request for `count` examples asks for, in
    /// ascending order.
    pub fn examples_to_load(&self, count: usize) -> (numbers: Vec<usize>)
        requires
            self.wf(),
        ensures
            numbers@.to_multiset() == self.asked(count as nat).to_multiset(),
            ascend(numbers@),
    {
        let left = self.load_order.len() - self.currently_loaded_index;
        let end = if count <= left {
            self.currently_loaded_index + count
        } else {
            self.load_order.len()
        };
        let mut numbers: Vec<usize> = Vec::new();
        let mut i = self.currently_loaded_index;
        assert(numbers@ =~= self.load_order@.subrange(i as int, i as int));
        while i < end
            invariant
                self.currently_loaded_index <= i <= end <= self.load_order.len(),
                numbers@ == self.load_order@.subrange(self.currently_loaded_index as int, i as int),
            decreases end - i,
        {
            numbers.push(self.load_order[i]);
            i += 1;
            assert(numbers@ =~= self.load_order@.subrange(
                self.currently_loaded_index as int,
                i as int,
            ));
        }
        sorted_numbers(&numbers)
    }

    /// Loads the next examples, as many as there are placeholders in `input` at most, from
    /// the files, which `reader` reads, and hands them out in a random order. The files
    /// are read one after the other until every example asked for has been found. The
    /// cursor goes on by the number of examples that were found.
    pub fn process_with<R: Node<String, Output = Vec<String>>>(
        &mut self,
        reader: &mut R,
        input: Vec<()>,
    ) -> (loaded: Vec<String>)
        requires
            old(self).wf(),
            old(reader).inv(),
            reads_any::<R>(),
        ensures
            final(reader).inv(),
            final(self).wf(),
            old(self).same_setup(final(self)),
            final(self).order() == old(self).order(),
            final(self).progress() == old(self).progress() + loaded.len(),
            loaded.len() <= input.len(),
            exists|read: Seq<Vec<String>>, numbers: Seq<usize>|
                {
                    &&& read.len() <= old(self).files().len()
                    &&& #[trigger] maps_to(
                        *old(reader),
                        old(self).files().take(read.len() as int),
                        *final(reader),
                        read,
                    )
                    &&& numbers.to_multiset() == old(self).asked(input.len() as nat).to_multiset()
                    &&& #[trigger] ascend(numbers)
                    &&& texts(loaded@).to_multiset() == picked_from_files(
                        file_examples(read, old(self).delimiter()),
                        numbers,
                    ).0.to_multiset()
                    &&& read.len() < old(self).files().len() ==> loaded.len() == numbers.len()
                },
    {
        // Load next input.len() examples in order, then shuffle them
        let examples_to_load = self.examples_to_load(input.len());
        proof {
            examples_to_load@.to_multiset_ensures();
            self.asked(input.len() as nat).to_multiset_ensures();
        }
        let ghost before = *reader;
        let mut loaded = load_examples(
            reader,
            &self.files,
            &examples_to_load,
            self.delimeter.as_str(),
        );
        self.currently_loaded_index += loaded.len();
        let ghost found = loaded@;
        shuffle(&mut loaded);
        proof {
            found.to_multiset_ensures();
            loaded@.to_multiset_ensures();
            crate::text::lemma_texts_rearranged(loaded@, found);
            let read = choose|read: Seq<Vec<String>>|
                {
                    &&& read.len() <= self.files.len()
                    &&& #[trigger] maps_to(before, self.files@.take(read.len() as int), *reader, read)
                    &&& texts(found) == picked_from_files(
                        file_examples(read, self.delimeter@),
                        examples_to_load@,
                    ).0
                    &&& read.len() < self.files.len() ==> found.len() == examples_to_load.len()
                };
            assert(maps_to(*old(reader), old(self).files().take(read.len() as int), *reader, read));
            assert(ascend(examples_to_load@));
        }
        loaded
    }
}

} // verus!
