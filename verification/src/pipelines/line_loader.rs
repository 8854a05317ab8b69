use crate::pipeline::loader::after_lines;
use crate::pipeline::loader::count_examples;
use crate::pipeline::loader::examples_in;
use crate::pipeline::loader::load_text_segments;
use crate::pipeline::loader::Reading;
use crate::pipeline::premade::clip;
use crate::pipeline::premade::maps_to;
use crate::pipeline::Node;
use crate::text::texts;
use vstd::prelude::*;

verus! {

/// The numbers from `from` up to, not including, `to`, in ascending order.
pub open spec fn span(from: int, to: int) -> Seq<usize> {
    Seq::new((if to >= from {
        to - from
    } else {
        0
    }) as nat, |i: int| (from + i) as usize)
}

/// The segments picked from the files whose lines are `contents`, one file after the
/// other, and the number of the segment at which the reading of the last file ended. The
/// segments are numbered through all files; `wanted` names those to pick.
pub open spec fn picked(
    contents: Seq<Seq<Seq<char>>>,
    wanted: Seq<usize>,
    delimiter: Seq<char>,
) -> (Seq<Seq<char>>, usize)
    decreases contents.len(),
{
    if contents.len() == 0 {
        (Seq::empty(), 0)
    } else {
        let (found, number) = picked(contents.drop_last(), wanted, delimiter);
        let start = Reading { segments: Seq::empty(), current: Seq::empty(), index: number as int };
        let end = after_lines(start, contents.last(), 0, wanted, delimiter);
        (found + end.segments, clip((if end.index < 0 {
            0
        } else {
            end.index
        }) as nat))
    }
}

/// The lines of the files in `read`, as texts.
pub open spec fn line_texts(read: Seq<Vec<String>>) -> Seq<Seq<Seq<char>>> {
    read.map_values(|lines: Vec<String>| texts(lines@))
}

/// `reader` takes every path in every well-formed state.
pub open spec fn reads_any<R: Node<String, Output = Vec<String>>>() -> bool {
    forall|reader: R, path: String| reader.inv() ==> #[trigger] reader.accepts(path)
}

/// Reads `files` one after the other, as far as needed, and picks from them the segments
/// that `wanted` names, `limit` of them at most.
pub fn gather<R: Node<String, Output = Vec<String>>>(
    reader: &mut R,
    files: &Vec<String>,
    wanted: &Vec<usize>,
    delimiter: &str,
    limit: usize,
) -> (loaded: Vec<String>)
    requires
        old(reader).inv(),
        reads_any::<R>(),
        wanted.len() > 0,
    ensures
        final(reader).inv(),
        loaded.len() <= limit,
        exists|read: Seq<Vec<String>>|
            {
                &&& read.len() <= files.len()
                &&& #[trigger] maps_to(
                    *old(reader),
                    files@.take(read.len() as int),
                    *final(reader),
                    read,
                )
                &&& read.len() < files.len() ==> picked(line_texts(read), wanted@, delimiter@).0.len()
                    >= limit
                &&& forall|k: int|
                    0 <= k < read.len() ==> picked(
                        #[trigger] line_texts(read.take(k)),
                        wanted@,
                        delimiter@,
                    ).0.len() < limit
                &&& texts(loaded@) == {
                    let all = picked(line_texts(read), wanted@, delimiter@).0;
                    if all.len() <= limit {
                        all
                    } else {
                        all.take(limit as int)
                    }
                }
            },
{
    let ghost before = *reader;
    let ghost mut read: Seq<Vec<String>> = Seq::empty();
    let mut current_index: usize = 0;
    let mut loaded: Vec<String> = Vec::new();
    let mut at: usize = 0;
    proof {
        assert(files@.take(0) =~= Seq::<String>::empty());
        assert(line_texts(read) =~= Seq::<Seq<Seq<char>>>::empty());
        assert(texts(loaded@) =~= Seq::<Seq<char>>::empty());
    }
    while at < files.len() && loaded.len() < limit
        invariant
            at <= files.len(),
            before == *old(reader),
            reader.inv(),
            reads_any::<R>(),
            wanted.len() > 0,
            read.len() == at,
            maps_to(before, files@.take(at as int), *reader, read),
            (texts(loaded@), current_index) == picked(line_texts(read), wanted@, delimiter@),
            forall|k: int|
                0 <= k < at ==> picked(#[trigger] line_texts(read.take(k)), wanted@, delimiter@).0.len()
                    < limit,
        decreases files.len() - at,
    {
        let ghost mid = *reader;
        let ghost done = read;
        let ghost sofar = texts(loaded@);
        let file = files[at].clone();
        let lines = reader.process(file);
        let mut found = load_text_segments(
            lines.as_slice(),
            wanted.as_slice(),
            &mut current_index,
            delimiter,
        );
        let ghost fresh = texts(found@);
        loaded.append(&mut found);
        proof {
            read = read.push(lines);
            assert(files@.take(at + 1).drop_last() =~= files@.take(at as int));
            assert(files@.take(at + 1).last() == files@[at as int]);
            assert(read.drop_last() =~= done);
            assert(maps_to(before, files@.take(at + 1).drop_last(), mid, read.drop_last()));
            assert(mid.produces(files@.take(at + 1).last(), *reader, read.last()));
            assert(line_texts(read).drop_last() =~= line_texts(done));
            assert(line_texts(read).last() == texts(lines@));
            assert(texts(loaded@) =~= sofar + fresh);
            assert forall|k: int| 0 <= k < at + 1 implies picked(
                #[trigger] line_texts(read.take(k)),
                wanted@,
                delimiter@,
            ).0.len() < limit by {
                if k < at {
                    assert(read.take(k) =~= done.take(k));
                } else {
                    assert(read.take(k) =~= done);
                }
            }
        }
        at += 1;
    }
    let ghost all = texts(loaded@);
    loaded.truncate(limit);
    proof {
        assert(read.take(read.len() as int) =~= read);
        if all.len() <= limit {
            assert(texts(loaded@) =~= all);
        } else {
            assert(texts(loaded@) =~= all.take(limit as int));
        }
    }
    loaded
}

/// Given files, load segments separated by a delimiter, in their order, between a least
/// and a greatest number. The segments may go over several lines.
pub struct RandomLoader {
    files: Vec<String>,  // The files to load from
    delimeter: String,  // The delimiter to split examples by
    total_examples: usize,
    currently_loaded_index: usize,  // The number of the next example to load
    max_index: usize,  // The max index to load
    min_index: usize,  // The min index to load
}

impl RandomLoader {
    /// The files to load from.
    pub closed spec fn files(&self) -> Seq<String> {
        self.files@
    }

    /// The delimiter that divides the examples.
    pub closed spec fn delimiter(&self) -> Seq<char> {
        self.delimeter@
    }

    /// The number of examples of an epoch.
    pub closed spec fn total(&self) -> usize {
        self.total_examples
    }

    /// The number of the next example to load.
    pub closed spec fn progress(&self) -> usize {
        self.currently_loaded_index
    }

    /// The number below which the examples are loaded.
    pub closed spec fn most(&self) -> usize {
        self.max_index
    }

    /// The number from which the examples are loaded.
    pub closed spec fn least(&self) -> usize {
        self.min_index
    }

    /// The cursor lies within the epoch.
    pub open spec fn wf(&self) -> bool {
        self.least() <= self.progress() <= self.least() + self.total()
    }

    /// A loader of the lines of `files`. It has no epoch before its first reset.
    pub fn new(files: Vec<String>) -> (loader: Self)
        ensures
            loader.files() == files@,
            loader.delimiter() == seq!['\n'],
            loader.total() == 0,
            loader.progress() == 0,
            loader.least() == 0,
            loader.most() == usize::MAX,
            loader.wf(),
    {
        let delimeter = "\n".to_owned();
        proof {
            reveal_strlit("\n");
            assert(delimeter@ =~= seq!['\n']);
        }
        RandomLoader {
            files,
            delimeter,
            total_examples: 0,
            currently_loaded_index: 0,
            min_index: 0,
            max_index: usize::MAX,
        }
    }

    /// The same loader with `delimeter` to divide the examples.
    pub fn with_delimeter(self, delimeter: String) -> (loader: Self)
        ensures
            loader.delimiter() == delimeter@,
            loader.files() == self.files(),
            loader.total() == self.total(),
            loader.progress() == self.progress(),
            loader.least() == self.least(),
            loader.most() == self.most(),
    {
        RandomLoader {
            files: self.files,
            delimeter,
            total_examples: self.total_examples,
            currently_loaded_index: self.currently_loaded_index,
            max_index: self.max_index,
            min_index: self.min_index,
        }
    }

    /// The same loader, loading the examples below `max_index` only.
    pub fn max_index(self, max_index: usize) -> (loader: Self)
        ensures
            loader.most() == max_index,
            loader.delimiter() == self.delimiter(),
            loader.files() == self.files(),
            loader.total() == self.total(),
            loader.progress() == self.progress(),
            loader.least() == self.least(),
    {
        RandomLoader {
            files: self.files,
            delimeter: self.delimeter,
            total_examples: self.total_examples,
            currently_loaded_index: self.currently_loaded_index,
            max_index,
            min_index: self.min_index,
        }
    }

    /// The same loader, loading the examples from `min_index` on only.
    pub fn min_index(self, min_index: usize) -> (loader: Self)
        ensures
            loader.least() == min_index,
            loader.delimiter() == self.delimiter(),
            loader.files() == self.files(),
            loader.total() == self.total(),
            loader.progress() == self.progress(),
            loader.most() == self.most(),
    {
        RandomLoader {
            files: self.files,
            delimeter: self.delimeter,
            total_examples: self.total_examples,
            currently_loaded_index: self.currently_loaded_index,
            max_index: self.max_index,
            min_index,
        }
    }

    /// The numbers of the examples that a request for `count` examples asks for: the next
    /// `count`, as far as they lie below the greatest number.
    pub open spec fn wanted(&self, count: nat) -> Seq<usize> {
        span(
            self.progress() as int,
            if self.progress() + count <= self.most() {
                self.progress() + count
            } else {
                self.most() as int
            },
        )
    }

    /// The numbers of the examples that a request for `count` examples asks for.
    pub fn wanted_indexes(&self, count: usize) -> (indexes: Vec<usize>)
        ensures
            indexes@ == self.wanted(count as nat),
    {
        let end = if count <= usize::MAX - self.currently_loaded_index
            && self.currently_loaded_index + count <= self.max_index {
            self.currently_loaded_index + count
        } else {
            self.max_index
        };
        let start = self.currently_loaded_index;
        let stop = if end < start {
            start
        } else {
            end
        };
        let mut indexes: Vec<usize> = Vec::new();
        let mut i = start;
        assert(indexes@ =~= span(start as int, start as int));
        while i < stop
            invariant
                start <= i <= stop,
                indexes@ == span(start as int, i as int),
            decreases stop - i,
        {
            indexes.push(i);
            i += 1;
            assert(indexes@ =~= span(start as int, i as int));
        }
        assert(indexes@ =~= self.wanted(count as nat));
        indexes
    }

    /// Loads the next examples, as many as there are placeholders in `input` at most, from
    /// the files, which `reader` reads.
    pub fn process_with<R: Node<String, Output = Vec<String>>>(
        &mut self,
        reader: &mut R,
        input: Vec<()>,
    ) -> (loaded: Vec<String>)
        requires
            old(reader).inv(),
            reads_any::<R>(),
        ensures
            final(reader).inv(),
            loaded.len() <= input.len(),
            final(self).progress() == clip((old(self).progress() + loaded.len()) as nat),
            final(self).files() == old(self).files(),
            final(self).delimiter() == old(self).delimiter(),
            final(self).total() == old(self).total(),
            final(self).least() == old(self).least(),
            final(self).most() == old(self).most(),
            old(self).wanted(input.len() as nat).len() == 0 ==> loaded.len() == 0 && *final(reader)
                == *old(reader),
            old(self).wanted(input.len() as nat).len() > 0 ==> exists|read: Seq<Vec<String>>|
                {
                    &&& read.len() <= old(self).files().len()
                    &&& #[trigger] maps_to(
                        *old(reader),
                        old(self).files().take(read.len() as int),
                        *final(reader),
                        read,
                    )
                    &&& read.len() < old(self).files().len() ==> picked(
                        line_texts(read),
                        old(self).wanted(input.len() as nat),
                        old(self).delimiter(),
                    ).0.len() >= input.len()
                    &&& texts(loaded@) == {
                        let all = picked(
                            line_texts(read),
                            old(self).wanted(input.len() as nat),
                            old(self).delimiter(),
                        ).0;
                        if all.len() <= input.len() {
                            all
                        } else {
                            all.take(input.len() as int)
                        }
                    }
                },
    {
        let wanted = self.wanted_indexes(input.len());
        if wanted.len() == 0 {
            return Vec::new();
        }
        let ghost before = *reader;
        let loaded = gather(reader, &self.files, &wanted, self.delimeter.as_str(), input.len());
        proof {
            let limit = input.len();
            let read = choose|read: Seq<Vec<String>>|
                {
                    &&& read.len() <= self.files.len()
                    &&& #[trigger] maps_to(before, self.files@.take(read.len() as int), *reader, read)
                    &&& read.len() < self.files.len() ==> picked(
                        line_texts(read),
                        wanted@,
                        self.delimeter@,
                    ).0.len() >= limit
                    &&& forall|k: int|
                        0 <= k < read.len() ==> picked(
                            #[trigger] line_texts(read.take(k)),
                            wanted@,
                            self.delimeter@,
                        ).0.len() < limit
                    &&& texts(loaded@) == {
                        let all = picked(line_texts(read), wanted@, self.delimeter@).0;
                        if all.len() <= limit {
                            all
                        } else {
                            all.take(limit as int)
                        }
                    }
                };
            assert(maps_to(*old(reader), old(self).files().take(read.len() as int), *reader, read));
        }
        if loaded.len() <= usize::MAX - self.currently_loaded_index {
            self.currently_loaded_index += loaded.len();
        } else {
            self.currently_loaded_index = usize::MAX;
        }
        loaded
    }

    /// The number of examples of an epoch over files that hold `counts` examples: their
    /// sum, counted file by file until it has reached the greatest number, and no more
    /// than lie between the least and the greatest number.
    pub open spec fn epoch_of(counts: Seq<usize>, least: usize, most: usize) -> usize {
        let sum = Self::counted(counts, most);
        let room = if most >= least {
            (most - least) as usize
        } else {
            0
        };
        if sum <= room {
            sum
        } else {
            room
        }
    }

    /// The sum of `counts`, counted until it has reached `most`, as far as a machine word
    /// can hold it.
    pub open spec fn counted(counts: Seq<usize>, most: usize) -> usize
        decreases counts.len(),
    {
        if counts.len() == 0 {
            0
        } else {
            let before = Self::counted(counts.drop_last(), most);
            if before >= most {
                before
            } else {
                clip((before + counts.last()) as nat)
            }
        }
    }

    /// Begins an epoch over files that hold `counts` examples, one count for each file:
    /// counts the total number of examples and puts the cursor at the least number.
    pub fn begin_epoch(&mut self, counts: &[usize])
        ensures
            final(self).wf(),
            final(self).total() == Self::epoch_of(counts@, old(self).least(), old(self).most()),
            final(self).progress() == old(self).least(),
            final(self).files() == old(self).files(),
            final(self).delimiter() == old(self).delimiter(),
            final(self).least() == old(self).least(),
            final(self).most() == old(self).most(),
    {
        let mut total: usize = 0;
        let mut i: usize = 0;
        assert(counts@.take(0) =~= Seq::<usize>::empty());
        while i < counts.len() && total < self.max_index
            invariant
                i <= counts.len(),
                *self == *old(self),
                total == Self::counted(counts@.take(i as int), self.max_index),
            decreases counts.len() - i,
        {
            assert(counts@.take(i + 1).drop_last() =~= counts@.take(i as int));
            total = if counts[i] <= usize::MAX - total {
                total + counts[i]
            } else {
                usize::MAX
            };
            i += 1;
        }
        proof {
            Self::lemma_counted_stops(counts@, self.max_index, i as int);
        }
        let room = if self.max_index >= self.min_index {
            self.max_index - self.min_index
        } else {
            0
        };
        self.total_examples = if total <= room {
            total
        } else {
            room
        };
        self.currently_loaded_index = self.min_index;
    }

    /// Once the count has reached the greatest number, further files change nothing.
    pub proof fn lemma_counted_stops(counts: Seq<usize>, most: usize, upto: int)
        requires
            0 <= upto <= counts.len(),
            upto == counts.len() || Self::counted(counts.take(upto), most) >= most,
        ensures
            Self::counted(counts, most) == Self::counted(counts.take(upto), most),
        decreases counts.len() - upto,
    {
        if upto == counts.len() {
            assert(counts.take(upto) =~= counts);
        } else {
            assert(counts.take(upto + 1).drop_last() =~= counts.take(upto));
            Self::lemma_counted_stops(counts, most, upto + 1);
        }
    }

    /// Begins an epoch: counts the examples of the files, which `reader` reads, and puts
    /// the cursor at the least number.
    pub fn reset_with<R: Node<String, Output = Vec<String>>>(&mut self, reader: &mut R)
        requires
            old(reader).inv(),
            reads_any::<R>(),
        ensures
            final(reader).inv(),
            final(self).wf(),
            final(self).progress() == old(self).least(),
            final(self).files() == old(self).files(),
            final(self).delimiter() == old(self).delimiter(),
            final(self).least() == old(self).least(),
            final(self).most() == old(self).most(),
            exists|read: Seq<Vec<String>>|
                {
                    &&& #[trigger] maps_to(*old(reader), old(self).files(), *final(reader), read)
                    &&& final(self).total() == Self::epoch_of(
                        Seq::new(
                            read.len(),
                            |k: int| clip(examples_in(texts(read[k]@), old(self).delimiter())),
                        ),
                        old(self).least(),
                        old(self).most(),
                    )
                },
    {
        let ghost before = *reader;
        let ghost mut read: Seq<Vec<String>> = Seq::empty();
        let mut counts: Vec<usize> = Vec::new();
        let mut at: usize = 0;
        assert(self.files@.take(0) =~= Seq::<String>::empty());
        while at < self.files.len()
            invariant
                at <= self.files.len(),
                *self == *old(self),
                before == *old(reader),
                reader.inv(),
                reads_any::<R>(),
                read.len() == at,
                maps_to(before, self.files@.take(at as int), *reader, read),
                counts@ == Seq::new(
                    read.len(),
                    |k: int| clip(examples_in(texts(read[k]@), self.delimeter@)),
                ),
            decreases self.files.len() - at,
        {
            let ghost mid = *reader;
            let ghost done = read;
            let lines = reader.process(self.files[at].clone());
            let count = match count_examples(lines.as_slice(), self.delimeter.as_str()) {
                Some(found) => found,
                None => usize::MAX,
            };
            counts.push(count);
            proof {
                read = read.push(lines);
                assert(self.files@.take(at + 1).drop_last() =~= self.files@.take(at as int));
                assert(self.files@.take(at + 1).last() == self.files@[at as int]);
                assert(read.drop_last() =~= done);
                assert(maps_to(before, self.files@.take(at + 1).drop_last(), mid, read.drop_last()));
                assert(mid.produces(self.files@.take(at + 1).last(), *reader, read.last()));
                assert(counts@ =~= Seq::new(
                    read.len(),
                    |k: int| clip(examples_in(texts(read[k]@), self.delimeter@)),
                ));
            }
            at += 1;
        }
        assert(self.files@.take(self.files.len() as int) =~= self.files@);
        self.begin_epoch(counts.as_slice());
    }

    /// The number of examples left in the epoch.
    pub fn data_remaining(&self, _before: usize) -> (left: usize)
        requires
            self.wf(),
        ensures
            left == self.total() - (self.progress() - self.least()),
    {
        self.total_examples - (self.currently_loaded_index - self.min_index)
    }
}

} // verus!
