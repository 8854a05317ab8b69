use crate::pipeline::premade::accepts_each;
use crate::pipeline::premade::maps_to;
use crate::pipeline::Node;
use crate::random::shuffle;
use vstd::prelude::*;

verus! {

/// `loaded` holds each of `paths` beside what was read from it, in order.
pub open spec fn paired<D>(paths: Seq<String>, contents: Seq<D>, loaded: Seq<(String, D)>) -> bool {
    &&& loaded.len() == paths.len()
    &&& contents.len() == paths.len()
    &&& forall|i: int| 0 <= i < paths.len() ==> #[trigger] loaded[i] == (paths[i], contents[i])
}

/// A source that hands out whole files, each file once in an epoch, in an order that every
/// new epoch draws afresh. What a file holds it learns from `reader`, a stage that turns a
/// path into the file's content.
pub struct FileLoader<R: Node<String, Output = Vec<u8>>> {
    files: Vec<String>,
    currently_loaded_index: usize,
    reader: R,
}

impl<R: Node<String, Output = Vec<u8>>> FileLoader<R> {
    /// The paths, in the order in which this epoch hands the files out.
    pub closed spec fn files(&self) -> Seq<String> {
        self.files@
    }

    /// How many files this epoch has handed out.
    pub closed spec fn progress(&self) -> usize {
        self.currently_loaded_index
    }

    /// The stage that reads a file.
    pub closed spec fn reader(&self) -> R {
        self.reader
    }

    /// A source over `files`, in a random order.
    pub fn new(files: Vec<String>, reader: R) -> (loader: Self)
        ensures
            loader.files().to_multiset() == files@.to_multiset(),
            loader.progress() == 0,
            loader.reader() == reader,
    {
        let mut files = files;
        shuffle(&mut files);
        FileLoader { files, currently_loaded_index: 0, reader }
    }

    /// A source over `files`, in the order given until the first reset.
    pub fn in_order(files: Vec<String>, reader: R) -> (loader: Self)
        ensures
            loader.files() == files@,
            loader.progress() == 0,
            loader.reader() == reader,
    {
        FileLoader { files, currently_loaded_index: 0, reader }
    }

    /// Where the files of a request for `count` files end.
    pub open spec fn end_of(&self, count: nat) -> int {
        if count <= self.files().len() - self.progress() {
            self.progress() + count
        } else {
            self.files().len() as int
        }
    }
}

impl<R: Node<String, Output = Vec<u8>>> Node<Vec<()>> for FileLoader<R> {
    type Output = Vec<(String, Vec<u8>)>;

    open spec fn inv(&self) -> bool {
        self.progress() <= self.files().len() <= usize::MAX && self.reader().inv()
    }

    open spec fn accepts(&self, input: Vec<()>) -> bool {
        accepts_each(
            self.reader(),
            self.files().subrange(self.progress() as int, self.end_of(input.len() as nat)),
        )
    }

    /// The next files are read, as many as there are placeholders in `input` or as are
    /// left, whichever is less, and handed out with their paths.
    open spec fn produces(&self, input: Vec<()>, post: Self, output: Self::Output) -> bool {
        let end = self.end_of(input.len() as nat);
        let paths = self.files().subrange(self.progress() as int, end);
        &&& post.files() == self.files()
        &&& post.progress() == end
        &&& exists|contents: Seq<Vec<u8>>|
            #![trigger maps_to(self.reader(), paths, post.reader(), contents)]
            maps_to(self.reader(), paths, post.reader(), contents) && paired(
                paths,
                contents,
                output@,
            )
    }

    /// The cursor goes back to the start and the files are reordered.
    open spec fn resets_to(&self, post: Self) -> bool {
        &&& post.progress() == 0
        &&& post.files().to_multiset() == self.files().to_multiset()
        &&& self.reader().resets_to(post.reader())
    }

    open spec fn remaining(&self, before: usize) -> usize {
        if self.progress() <= self.files().len() {
            (self.files().len() - self.progress()) as usize
        } else {
            0
        }
    }

    open spec fn epoch_size(&self, before: usize) -> usize {
        self.files().len() as usize
    }

    fn process(&mut self, input: Vec<()>) -> (output: Self::Output) {
        let left = self.files.len() - self.currently_loaded_index;
        let end = if input.len() <= left {
            self.currently_loaded_index + input.len()
        } else {
            self.files.len()
        };
        let start = self.currently_loaded_index;
        let ghost before = self.reader;
        let ghost paths = self.files@.subrange(start as int, end as int);
        let ghost mut contents: Seq<Vec<u8>> = Seq::empty();
        let mut read_data: Vec<(String, Vec<u8>)> = Vec::new();
        let mut i = start;
        assert(paths.skip(0) =~= paths);
        assert(paths.take(0) =~= Seq::<String>::empty());
        while i < end
            invariant
                start <= i <= end <= self.files.len(),
                before == old(self).reader,
                self.files == old(self).files,
                self.currently_loaded_index == start,
                paths == self.files@.subrange(start as int, end as int),
                self.reader.inv(),
                contents.len() == i - start,
                read_data.len() == i - start,
                accepts_each(self.reader, paths.skip(i - start)),
                maps_to(before, paths.take(i - start), self.reader, contents),
                forall|k: int|
                    0 <= k < i - start ==> #[trigger] read_data[k] == (paths[k], contents[k]),
            decreases end - i,
        {
            let ghost k = i - start;
            let ghost mid = self.reader;
            let ghost done = contents;
            let file = self.files[i].clone();
            assert(paths.skip(k)[0] == file);
            let data = self.reader.process(file.clone());
            proof {
                contents = contents.push(data);
                assert(paths.skip(k).drop_first() =~= paths.skip(k + 1));
                assert(paths.take(k + 1).drop_last() =~= paths.take(k));
                assert(contents.drop_last() =~= done);
                assert(paths.take(k + 1).last() == file);
                assert(maps_to(before, paths.take(k + 1).drop_last(), mid, contents.drop_last()));
                assert(mid.produces(paths.take(k + 1).last(), self.reader, contents.last()));
            }
            read_data.push((file, data));
            i += 1;
        }
        assert(paths.take(end - start) =~= paths);
        self.currently_loaded_index = end;
        proof {
            assert(end == old(self).end_of(input.len() as nat));
            assert(paths == old(self).files().subrange(old(self).progress() as int, end as int));
            assert(paired(paths, contents, read_data@));
            assert(maps_to(old(self).reader(), paths, self.reader(), contents));
        }
        read_data
    }

    fn reset(&mut self) {
        shuffle(&mut self.files);
        proof {
            self.files@.to_multiset_ensures();
            old(self).files@.to_multiset_ensures();
        }
        self.currently_loaded_index = 0;
        self.reader.reset();
    }

    fn data_remaining(&self, before: usize) -> (after: usize) {
        if self.currently_loaded_index <= self.files.len() {
            self.files.len() - self.currently_loaded_index
        } else {
            0
        }
    }
}

} // verus!
