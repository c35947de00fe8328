//! What the interactive search needs of a file system.

use crate::path::{path_views, DirPath, Part};
use crate::search::fs::{lookup, FileSystem, MockFileSystem};
use vstd::prelude::*;

verus! {

/// A source of directories.
///
/// An implementation that answers like a fixed tree, the same question
/// always getting the same answer, says so in `is_fixed` and describes the
/// tree in `children` and `holds`. Of any other implementation nothing is
/// assumed.
pub trait SearchEngine {
    /// Whether the engine answers as `children` and `holds` say.
    open spec fn is_fixed(&self) -> bool {
        false
    }

    /// The directories directly below `dir`, in the order in which they are
    /// listed; none where `dir` cannot be listed.
    open spec fn children(&self, dir: Seq<Part>) -> Seq<Seq<Part>> {
        Seq::empty()
    }

    /// Whether the path leads to a directory.
    open spec fn holds(&self, path: Seq<Part>) -> bool {
        false
    }

    /// Lists the directories directly below `dir`; none where it cannot be
    /// listed.
    fn read_dir(&self, dir: &DirPath) -> (r: Vec<DirPath>)
        ensures
            self.is_fixed() ==> path_views(r@) == self.children(dir@),
    ;

    /// Whether the path leads to a directory.
    fn is_dir(&self, path: &DirPath) -> (r: bool)
        ensures
            self.is_fixed() ==> r == self.holds(path@),
    ;
}

impl SearchEngine for MockFileSystem {
    open spec fn is_fixed(&self) -> bool {
        true
    }

    open spec fn children(&self, dir: Seq<Part>) -> Seq<Seq<Part>> {
        match lookup(self@, dir) {
            Some(children) => children,
            None => Seq::empty(),
        }
    }

    open spec fn holds(&self, path: Seq<Part>) -> bool {
        lookup(self@, path) is Some
    }

    fn read_dir(&self, dir: &DirPath) -> (r: Vec<DirPath>) {
        match FileSystem::read_dir(self, dir) {
            Ok(children) => children,
            Err(_) => {
                let none: Vec<DirPath> = Vec::new();
                assert(path_views(none@) =~= Seq::<Seq<Part>>::empty());
                none
            },
        }
    }

    fn is_dir(&self, path: &DirPath) -> (r: bool) {
        FileSystem::is_dir(self, path)
    }
}

impl<T: SearchEngine> SearchEngine for &T {
    open spec fn is_fixed(&self) -> bool {
        (**self).is_fixed()
    }

    open spec fn children(&self, dir: Seq<Part>) -> Seq<Seq<Part>> {
        (**self).children(dir)
    }

    open spec fn holds(&self, path: Seq<Part>) -> bool {
        (**self).holds(path)
    }

    fn read_dir(&self, dir: &DirPath) -> (r: Vec<DirPath>) {
        (**self).read_dir(dir)
    }

    fn is_dir(&self, path: &DirPath) -> (r: bool) {
        (**self).is_dir(path)
    }
}

} // verus!
