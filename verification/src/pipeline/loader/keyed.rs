use crate::pipelines::reads_any;
use super::random::ascend;
use super::random::file_examples;
use super::random::load_examples;
use super::random::picked_from_files;
use super::random::sorted_numbers;
use super::segments::count_examples;
use super::segments::examples_in;
use crate::pipeline::premade::clip;
use crate::pipeline::premade::maps_to;
use crate::pipeline::Node;
use crate::text::texts;
use vstd::prelude::*;

verus! {

/// The number of examples in the first `upto` files.
pub open spec fn examples_before(sizes: Seq<usize>, upto: int) -> nat
    decreases upto,
{
    if upto <= 0 {
        0
    } else {
        examples_before(sizes, upto - 1) + sizes[upto - 1] as nat
    }
}

/// A loader that finds examples by their numbers, which run through all its files.
pub struct KeyedLoader {
    files: Vec<String>,
    file_sizes: Vec<usize>,
    delimeter: String,
}

impl KeyedLoader {
    /// The files to load from.
    pub closed spec fn files(&self) -> Seq<String> {
        self.files@
    }

    /// The number of examples in each file.
    pub closed spec fn sizes(&self) -> Seq<usize> {
        self.file_sizes@
    }

    /// The delimiter that divides the examples.
    pub closed spec fn delimiter(&self) -> Seq<char> {
        self.delimeter@
    }

    /// A loader over `files`, which hold `file_sizes` examples divided by `delimeter`.
    pub fn new(files: Vec<String>, delimeter: &str, file_sizes: Vec<usize>) -> (loader: Self)
        ensures
            loader.files() == files@,
            loader.sizes() == file_sizes@,
            loader.delimiter() == delimeter@,
    {
        KeyedLoader { files, file_sizes, delimeter: delimeter.to_owned() }
    }

    /// Counts the examples of every file again. `reader` reads the files.
    pub fn reset_with<R: Node<String, Output = Vec<String>>>(&mut self, reader: &mut R)
        requires
            old(reader).inv(),
            reads_any::<R>(),
        ensures
            final(reader).inv(),
            final(self).files() == old(self).files(),
            final(self).delimiter() == old(self).delimiter(),
            exists|read: Seq<Vec<String>>|
                {
                    &&& #[trigger] maps_to(*old(reader), old(self).files(), *final(reader), read)
                    &&& final(self).sizes() == Seq::new(
                        read.len(),
                        |k: int| clip(examples_in(texts(read[k]@), old(self).delimiter())),
                    )
                },
    {
        let ghost before = *reader;
        let ghost mut read: Seq<Vec<String>> = Seq::empty();
        let mut counts: Vec<usize> = Vec::new();
        let mut at: usize = 0;
        assert(self.files@.take(0) =~= Seq::<String>::empty());
        while at < self.files.len()
            invariant
                at <= self.files.len(),
                *self == *old(self),
                before == *old(reader),
                reader.inv(),
                reads_any::<R>(),
                read.len() == at,
                maps_to(before, self.files@.take(at as int), *reader, read),
                counts@ == Seq::new(
                    read.len(),
                    |k: int| clip(examples_in(texts(read[k]@), self.delimeter@)),
                ),
            decreases self.files.len() - at,
        {
            let ghost mid = *reader;
            let ghost done = read;
            let lines = reader.process(self.files[at].clone());
            let count = match count_examples(lines.as_slice(), self.delimeter.as_str()) {
                Some(found) => found,
                None => usize::MAX,
            };
            counts.push(count);
            proof {
                read = read.push(lines);
                assert(self.files@.take(at + 1).drop_last() =~= self.files@.take(at as int));
                assert(self.files@.take(at + 1).last() == self.files@[at as int]);
                assert(read.drop_last() =~= done);
                assert(maps_to(before, self.files@.take(at + 1).drop_last(), mid, read.drop_last()));
                assert(mid.produces(self.files@.take(at + 1).last(), *reader, read.last()));
                assert(counts@ =~= Seq::new(
                    read.len(),
                    |k: int| clip(examples_in(texts(read[k]@), self.delimeter@)),
                ));
            }
            at += 1;
        }
        assert(self.files@.take(self.files.len() as int) =~= self.files@);
        self.file_sizes = counts;
    }

    /// Where the example with the number `key` is: the index of its file and its number
    /// within the file. `None` where the files hold no such example.
    pub fn locate(&self, key: usize) -> (place: Option<(usize, usize)>)
        ensures
            match place {
                Some((file, offset)) => {
                    &&& file < self.sizes().len()
                    &&& offset < self.sizes()[file as int]
                    &&& examples_before(self.sizes(), file as int) + offset == key
                },
                None => examples_before(self.sizes(), self.sizes().len() as int) <= key,
            },
    {
        let mut before: usize = 0;
        let mut file: usize = 0;
        while file < self.file_sizes.len()
            invariant
                file <= self.file_sizes.len(),
                before == examples_before(self.file_sizes@, file as int),
                before <= key,
            decreases self.file_sizes.len() - file,
        {
            let size = self.file_sizes[file];
            if key - before < size {
                return Some((file, key - before));
            }
            before = before + size;
            file += 1;
        }
        None
    }

    /// Loads the examples whose numbers `input` names, in ascending order of their numbers.
    /// The examples are numbered through all files, which `reader` reads one after the
    /// other as far as needed. A number that no example has brings nothing.
    pub fn process_with<R: Node<String, Output = Vec<String>>>(
        &self,
        reader: &mut R,
        input: Vec<usize>,
    ) -> (loaded: Vec<String>)
        requires
            old(reader).inv(),
            reads_any::<R>(),
        ensures
            final(reader).inv(),
            loaded.len() <= input.len(),
            exists|read: Seq<Vec<String>>, numbers: Seq<usize>|
                {
                    &&& read.len() <= self.files().len()
                    &&& #[trigger] maps_to(
                        *old(reader),
                        self.files().take(read.len() as int),
                        *final(reader),
                        read,
                    )
                    &&& numbers.to_multiset() == input@.to_multiset()
                    &&& #[trigger] ascend(numbers)
                    &&& texts(loaded@) == picked_from_files(
                        file_examples(read, self.delimiter()),
                        numbers,
                    ).0
                    &&& read.len() < self.files().len() ==> loaded.len() == input.len()
                },
    {
        // Sort inputs
        let sorted_inputs = sorted_numbers(&input);
        proof {
            sorted_inputs@.to_multiset_ensures();
            input@.to_multiset_ensures();
        }
        let ghost before = *reader;
        let loaded = load_examples(reader, &self.files, &sorted_inputs, self.delimeter.as_str());
        proof {
            let read = choose|read: Seq<Vec<String>>|
                {
                    &&& read.len() <= self.files.len()
                    &&& #[trigger] maps_to(before, self.files@.take(read.len() as int), *reader, read)
                    &&& texts(loaded@) == picked_from_files(
                        file_examples(read, self.delimeter@),
                        sorted_inputs@,
                    ).0
                    &&& read.len() < self.files.len() ==> loaded.len() == sorted_inputs.len()
                };
            assert(maps_to(*old(reader), self.files().take(read.len() as int), *reader, read));
            assert(ascend(sorted_inputs@));
        }
        loaded
    }

    /// The number of examples left: what the stage before has left, since the loader hands
    /// out what it is asked for.
    pub fn data_remaining(&self, before: usize) -> (after: usize)
        ensures
            after == before,
    {
        before
    }
}

} // verus!
