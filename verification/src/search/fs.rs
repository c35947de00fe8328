//! The file system as the search sees it.

use crate::error::Error;
use crate::path::{path_views, DirPath, Part};
use vstd::prelude::*;
use vstd::string::StringExecFns;

verus! {

/// What the search needs of a file system.
///
/// An implementation that answers like a fixed tree, the same question
/// always getting the same answer, says so in `is_fixed` and describes the
/// tree in `listing` and `is_directory`. What the search finds in such a
/// file system is stated exactly. Of any other implementation nothing is
/// assumed.
pub trait FileSystem {
    /// Whether the file system answers as `listing` and `is_directory` say.
    open spec fn is_fixed(&self) -> bool {
        false
    }

    /// The directories directly below `dir`, in the order in which they are
    /// listed; `None` where `dir` cannot be listed.
    open spec fn listing(&self, dir: Seq<Part>) -> Option<Seq<Seq<Part>>> {
        None
    }

    /// Whether the path leads to a directory.
    open spec fn is_directory(&self, path: Seq<Part>) -> bool {
        false
    }

    /// Lists the directories directly below `dir`. An entry that is no
    /// directory, or that cannot be read, is left out.
    fn read_dir(&self, dir: &DirPath) -> (r: Result<Vec<DirPath>, Error>)
        ensures
            self.is_fixed() ==> match self.listing(dir@) {
                Some(children) => r is Ok && path_views(r->Ok_0@) == children,
                None => r is Err,
            },
    ;

    /// Whether the path leads to a directory.
    fn is_dir(&self, path: &DirPath) -> (r: bool)
        ensures
            self.is_fixed() ==> r == self.is_directory(path@),
    ;
}

/// The entries of a mock file system, as the specifications see them.
pub type Entries = Seq<(Seq<Part>, Seq<Seq<Part>>)>;

/// The children recorded for a directory; the entry made last counts.
pub open spec fn lookup(entries: Entries, dir: Seq<Part>) -> Option<Seq<Seq<Part>>>
    decreases entries.len(),
{
    if entries.len() == 0 {
        None
    } else if entries.last().0 == dir {
        Some(entries.last().1)
    } else {
        lookup(entries.drop_last(), dir)
    }
}

/// A file system held in memory: directories with their children.
#[derive(Debug)]
pub struct MockFileSystem {
    entries: Vec<(DirPath, Vec<DirPath>)>,
}

impl View for MockFileSystem {
    type V = Entries;

    closed spec fn view(&self) -> Entries {
        Seq::new(
            self.entries.len() as nat,
            |i: int| (self.entries[i].0@, path_views(self.entries[i].1@)),
        )
    }
}

/// A copy of a list of paths.
pub fn clone_paths(paths: &Vec<DirPath>) -> (r: Vec<DirPath>)
    ensures
        path_views(r@) == path_views(paths@),
{
    let mut out: Vec<DirPath> = Vec::new();
    let mut i: usize = 0;
    while i < paths.len()
        invariant
            i <= paths.len(),
            out.len() == i,
            forall|k: int| 0 <= k < i ==> (#[trigger] out@[k])@ == paths@[k]@,
        decreases paths.len() - i,
    {
        out.push(paths[i].clone());
        i += 1;
    }
    assert(path_views(out@) =~= path_views(paths@));
    out
}

impl MockFileSystem {
    /// A file system without directories.
    pub fn new() -> (r: Self)
        ensures
            r@ == Seq::<(Seq<Part>, Seq<Seq<Part>>)>::empty(),
    {
        let r = MockFileSystem { entries: Vec::new() };
        assert(r@ =~= Seq::<(Seq<Part>, Seq<Seq<Part>>)>::empty());
        r
    }

    /// Records `children` as what `dir` holds, in place of what was recorded
    /// for it before.
    pub fn insert(&mut self, dir: DirPath, children: Vec<DirPath>)
        ensures
            final(self)@ == old(self)@.push((dir@, path_views(children@))),
            forall|other: Seq<Part>|
                lookup(final(self)@, other) == if other == dir@ {
                    Some(path_views(children@))
                } else {
                    lookup(old(self)@, other)
                },
    {
        self.entries.push((dir, children));
        assert(self@ =~= old(self)@.push((dir@, path_views(children@))));
        assert(self@.drop_last() =~= old(self)@);
    }

    /// The index of the entry that counts for `dir`, if there is one.
    fn find(&self, dir: &DirPath) -> (r: Option<usize>)
        ensures
            match r {
                Some(i) => i < self.entries.len() && lookup(self@, dir@) == Some(
                    path_views(self.entries[i as int].1@),
                ),
                None => lookup(self@, dir@) is None,
            },
    {
        let mut i: usize = self.entries.len();
        assert(self@.take(i as int) =~= self@);
        while i > 0
            invariant
                i <= self.entries.len(),
                lookup(self@, dir@) == lookup(self@.take(i as int), dir@),
            decreases i,
        {
            assert(self@.take(i as int).drop_last() =~= self@.take(i - 1));
            if self.entries[i - 1].0.same(dir) {
                return Some(i - 1);
            }
            i -= 1;
        }
        None
    }
}

impl FileSystem for MockFileSystem {
    open spec fn is_fixed(&self) -> bool {
        true
    }

    open spec fn listing(&self, dir: Seq<Part>) -> Option<Seq<Seq<Part>>> {
        lookup(self@, dir)
    }

    open spec fn is_directory(&self, path: Seq<Part>) -> bool {
        lookup(self@, path) is Some
    }

    fn read_dir(&self, dir: &DirPath) -> (r: Result<Vec<DirPath>, Error>) {
        match self.find(dir) {
            Some(i) => Ok(clone_paths(&self.entries[i].1)),
            None => Err(Error::Io(String::from_str("no such file in mock filesystem"))),
        }
    }

    fn is_dir(&self, path: &DirPath) -> (r: bool) {
        self.find(path).is_some()
    }
}

impl<T: FileSystem> FileSystem for &T {
    open spec fn is_fixed(&self) -> bool {
        (**self).is_fixed()
    }

    open spec fn listing(&self, dir: Seq<Part>) -> Option<Seq<Seq<Part>>> {
        (**self).listing(dir)
    }

    open spec fn is_directory(&self, path: Seq<Part>) -> bool {
        (**self).is_directory(path)
    }

    fn read_dir(&self, dir: &DirPath) -> (r: Result<Vec<DirPath>, Error>) {
        (**self).read_dir(dir)
    }

    fn is_dir(&self, path: &DirPath) -> (r: bool) {
        (**self).is_dir(path)
    }
}

} // verus!
