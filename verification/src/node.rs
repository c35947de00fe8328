//! Slices of a path that are matched by patterns, glued to the match before
//! them or loose, and the nodes of a search with them.

use crate::error::Error;
use crate::path::{file_name, path_views, DirPath, Part};
use crate::search::fs::FileSystem;
use crate::search::listed;
use vstd::prelude::*;
use vstd::string::StringExecFns;

verus! {

#[verifier::external_type_specification]
#[verifier::external_body]
pub struct ExRegex(regex::Regex);

/// Whether the regular expression that a pattern stands for finds a match
/// anywhere in a text, as the crate `regex` decides it.
pub uninterp spec fn pattern_match(pattern: Seq<char>, text: Seq<char>) -> bool;

/// Calls `regex::Regex::new`, which refuses a pattern that is not valid or
/// would make too big an expression. Nothing is claimed of when it does.
#[verifier::external_body]
fn compile(pattern: &str) -> (r: Option<regex::Regex>) {
    regex::Regex::new(pattern).ok()
}

/// Calls `regex::Regex::is_match` on the expression of the pattern, which
/// tells whether the expression matches anywhere in the text. The contract
/// only names the outcome, for the text of the pattern.
#[verifier::external_body]
fn is_match(pattern: &Pattern, text: &str) -> (r: bool)
    ensures
        r == pattern_match(pattern@, text@),
{
    pattern.expression.is_match(text)
}

/// A regular expression: its text, and the expression compiled from it.
/// Only `new` makes one, so every pattern is a regular expression.
#[derive(Debug)]
pub struct Pattern {
    text: String,
    expression: regex::Regex,
}

impl View for Pattern {
    type V = Seq<char>;

    /// The text of the pattern.
    closed spec fn view(&self) -> Seq<char> {
        self.text@
    }
}

impl Pattern {
    /// Reads a regular expression. A text that is none is refused.
    pub fn new(text: &str) -> (r: Result<Pattern, Error>)
        ensures
            r matches Ok(pattern) ==> pattern@ == text@,
            r matches Err(error) ==> (error matches Error::InvalidSlice(refused) && refused@
                == text@),
    {
        match compile(text) {
            Some(expression) => Ok(Pattern { text: String::from_str(text), expression }),
            None => Err(Error::InvalidSlice(String::from_str(text))),
        }
    }

    /// The text of the pattern.
    pub fn as_str(&self) -> (r: &str)
        ensures
            r@ == self@,
    {
        self.text.as_str()
    }

    /// Whether the pattern matches anywhere in the text.
    pub fn accepts(&self, text: &str) -> (r: bool)
        ensures
            r == pattern_match(self@, text@),
    {
        is_match(self, text)
    }
}

/// A slice of a path: a pattern for one component.
#[derive(Debug)]
pub enum PathSlice {
    /// A slice that must be matched right after the previous one.
    Glued(Pattern),
    /// A slice that can be matched a number of components after the previous
    /// one.
    Loose(Pattern),
}

/// A slice as the specifications see it.
pub enum SliceView {
    Glued(Seq<char>),
    Loose(Seq<char>),
}

impl View for PathSlice {
    type V = SliceView;

    open spec fn view(&self) -> SliceView {
        match self {
            PathSlice::Glued(pattern) => SliceView::Glued(pattern@),
            PathSlice::Loose(pattern) => SliceView::Loose(pattern@),
        }
    }
}

impl SliceView {
    /// The pattern of the slice.
    pub open spec fn pattern(self) -> Seq<char> {
        match self {
            SliceView::Glued(pattern) => pattern,
            SliceView::Loose(pattern) => pattern,
        }
    }

    /// Whether the slice matches a component.
    pub open spec fn accepts(self, component: Seq<char>) -> bool {
        pattern_match(self.pattern(), component)
    }
}

/// The views of a list of slices.
pub open spec fn slice_views(slices: Seq<PathSlice>) -> Seq<SliceView> {
    Seq::new(slices.len(), |i: int| slices[i]@)
}

/// The slices of a search with the index of the slice matched last.
pub struct SlicesView {
    pub last_match: Option<int>,
    pub slices: Seq<SliceView>,
}

/// A result of matching a component against the slices left.
pub enum MatchView {
    FullMatch,
    Continue(SlicesView),
}

/// The slices of a search, with the index of the slice that was matched
/// last. Allows to recover from a premature match of a glued slice.
#[derive(Copy, Clone, Debug)]
pub struct PathSlices<'a> {
    last_match: Option<usize>,
    slices: &'a [PathSlice],
}

/// A result of matching a component against the slices left.
pub enum MatchResult<'a> {
    /// Every slice is matched.
    FullMatch,
    /// The search goes on with the given slices.
    Continue(PathSlices<'a>),
}

impl<'a> View for PathSlices<'a> {
    type V = SlicesView;

    closed spec fn view(&self) -> SlicesView {
        SlicesView {
            last_match: match self.last_match {
                Some(index) => Some(index as int),
                None => None,
            },
            slices: slice_views(self.slices@),
        }
    }
}

impl<'a> View for MatchResult<'a> {
    type V = MatchView;

    open spec fn view(&self) -> MatchView {
        match self {
            MatchResult::FullMatch => MatchView::FullMatch,
            MatchResult::Continue(slices) => MatchView::Continue(slices@),
        }
    }
}

/// The index of the slice that is to match next.
pub open spec fn next_index(last_match: Option<int>) -> int {
    match last_match {
        Some(index) => index + 1,
        None => 0,
    }
}

/// Where the search stands after a glued slice at `index` failed: right
/// after the slice before the nearest loose slice below `index`, so that
/// this loose slice is tried again; at the beginning where there is none.
pub open spec fn fallback(slices: Seq<SliceView>, index: int) -> Option<int>
    decreases index,
{
    if index <= 0 {
        None
    } else if slices[index - 1] is Loose {
        if index - 1 == 0 {
            None
        } else {
            Some(index - 2)
        }
    } else {
        fallback(slices, index - 1)
    }
}

/// What follows from matching a component against the slice that is next.
/// After the last slice everything matches. A match of the last slice is a
/// full match, a match of another slice moves the search on by one. A loose
/// slice that does not match is tried again on the next component; a glued
/// slice that does not match sends the search back.
pub open spec fn matched(state: SlicesView, component: Seq<char>) -> MatchView {
    let index = next_index(state.last_match);
    if index >= state.slices.len() {
        MatchView::FullMatch
    } else if state.slices[index].accepts(component) {
        if index >= state.slices.len() - 1 {
            MatchView::FullMatch
        } else {
            MatchView::Continue(SlicesView { last_match: Some(index), slices: state.slices })
        }
    } else {
        match state.slices[index] {
            SliceView::Loose(_) => MatchView::Continue(state),
            SliceView::Glued(_) => MatchView::Continue(
                SlicesView { last_match: fallback(state.slices, index), slices: state.slices },
            ),
        }
    }
}

impl<'a> PathSlices<'a> {
    #[verifier::type_invariant]
    spec fn well_formed(self) -> bool {
        self.last_match matches Some(index) ==> index < self.slices@.len()
    }

    /// The slices with none of them matched yet.
    pub fn new(slices: &'a [PathSlice]) -> (r: Self)
        ensures
            r@ == (SlicesView { last_match: None, slices: slice_views(slices@) }),
    {
        PathSlices { last_match: None, slices }
    }

    /// The index of the slice matched last, if any was.
    pub fn last_match(&self) -> (r: Option<usize>)
        ensures
            match r {
                Some(index) => self@.last_match == Some(index as int) && index
                    < self@.slices.len(),
                None => self@.last_match is None,
            },
    {
        proof {
            use_type_invariant(self);
        }
        self.last_match
    }

    /// The index at which the search stands after a glued slice failed.
    fn fall_back(&self, index: usize) -> (r: Option<usize>)
        requires
            index <= self.slices@.len(),
        ensures
            match r {
                Some(back) => fallback(slice_views(self.slices@), index as int) == Some(
                    back as int,
                ) && back < index,
                None => fallback(slice_views(self.slices@), index as int) is None,
            },
    {
        let mut i: usize = index;
        while i > 0
            invariant
                i <= index <= self.slices@.len(),
                fallback(slice_views(self.slices@), index as int) == fallback(
                    slice_views(self.slices@),
                    i as int,
                ),
            decreases i,
        {
            match &self.slices[i - 1] {
                PathSlice::Loose(_) => {
                    if i - 1 == 0 {
                        return None;
                    } else {
                        return Some(i - 2);
                    }
                },
                PathSlice::Glued(_) => {},
            }
            i -= 1;
        }
        None
    }

    /// Matches a component against the slice that is next.
    pub fn try_match(&self, comp: &str) -> (r: MatchResult<'a>)
        ensures
            r@ == matched(self@, comp@),
    {
        proof {
            use_type_invariant(self);
        }
        let count = self.slices.len();
        let ix: usize = match self.last_match {
            Some(last_match) => last_match + 1,
            None => 0,
        };
        if ix >= count {
            return MatchResult::FullMatch;
        }
        let slice = &self.slices[ix];
        let pattern = match slice {
            PathSlice::Loose(pattern) => pattern,
            PathSlice::Glued(pattern) => pattern,
        };
        if pattern.accepts(comp) {
            if ix >= count - 1 {
                MatchResult::FullMatch
            } else {
                MatchResult::Continue(PathSlices { last_match: Some(ix), slices: self.slices })
            }
        } else {
            match slice {
                PathSlice::Loose(_) => MatchResult::Continue(*self),
                PathSlice::Glued(_) => {
                    let last_match = self.fall_back(ix);
                    MatchResult::Continue(PathSlices { last_match, slices: self.slices })
                },
            }
        }
    }
}

/// A directory of a search and the slices left to match.
#[derive(Debug)]
pub struct EntryNode<'a>(pub DirPath, pub PathSlices<'a>);

/// A result of digging one level further down the file tree.
pub enum DigResult<'a> {
    /// The path is fully matched.
    FullMatch,
    /// The search ends on this path.
    DeadEnd,
    /// The search goes on with the children of the directory.
    Continue(Vec<EntryNode<'a>>),
}

/// A result of digging, as the specifications see it.
pub enum DigView {
    FullMatch,
    DeadEnd,
    Continue(Seq<(Seq<Part>, SlicesView)>),
}

/// The views of a list of nodes.
pub open spec fn node_views(nodes: Seq<EntryNode<'_>>) -> Seq<(Seq<Part>, SlicesView)> {
    Seq::new(nodes.len(), |i: int| (nodes[i].0@, nodes[i].1@))
}

impl<'a> View for DigResult<'a> {
    type V = DigView;

    open spec fn view(&self) -> DigView {
        match self {
            DigResult::FullMatch => DigView::FullMatch,
            DigResult::DeadEnd => DigView::DeadEnd,
            DigResult::Continue(nodes) => DigView::Continue(node_views(nodes@)),
        }
    }
}

/// What digging comes to in a file system that answers like a fixed tree. A
/// directory without a name is a dead end. Else its name is matched against
/// the slices, and unless that is a full match the search goes on with
/// every child of the directory.
pub open spec fn dug<F: FileSystem>(file_system: &F, path: Seq<Part>, slices: SlicesView) -> DigView {
    match file_name(path) {
        None => DigView::DeadEnd,
        Some(name) => match matched(slices, name) {
            MatchView::FullMatch => DigView::FullMatch,
            MatchView::Continue(left) => {
                let children = listed(file_system, path);
                DigView::Continue(Seq::new(children.len(), |i: int| (children[i], left)))
            },
        },
    }
}

impl<'a> EntryNode<'a> {
    /// Digs one level further down the file tree.
    pub fn dig_deeper<F: FileSystem>(&self, file_system: &F) -> (r: DigResult<'a>)
        ensures
            file_name(self.0@) is None ==> r is DeadEnd,
            file_name(self.0@) matches Some(name) ==> (r is FullMatch <==> matched(self.1@, name)
                is FullMatch),
            file_system.is_fixed() ==> r@ == dug(file_system, self.0@, self.1@),
    {
        let comp = match self.0.file_name() {
            Some(comp) => comp,
            None => {
                return DigResult::DeadEnd;
            },
        };
        match self.1.try_match(comp.as_str()) {
            MatchResult::FullMatch => DigResult::FullMatch,
            MatchResult::Continue(slices) => DigResult::Continue(
                self.prepare_children(slices, file_system),
            ),
        }
    }

    /// The nodes for the children of the directory, each with the slices
    /// left.
    fn prepare_children<F: FileSystem>(&self, slices_left: PathSlices<'a>, file_system: &F) -> (r:
        Vec<EntryNode<'a>>)
        ensures
            file_system.is_fixed() ==> node_views(r@) == Seq::new(
                listed(file_system, self.0@).len(),
                |i: int| (listed(file_system, self.0@)[i], slices_left@),
            ),
    {
        let children = match file_system.read_dir(&self.0) {
            Ok(children) => children,
            Err(_) => Vec::new(),
        };
        assert(file_system.is_fixed() ==> path_views(children@) =~= listed(file_system, self.0@));
        let mut out: Vec<EntryNode<'a>> = Vec::new();
        let mut i: usize = 0;
        while i < children.len()
            invariant
                i <= children.len(),
                out.len() == i,
                forall|k: int|
                    0 <= k < i ==> (#[trigger] out@[k]).0@ == children@[k]@ && out@[k].1@
                        == slices_left@,
            decreases children.len() - i,
        {
            out.push(EntryNode(children[i].clone(), slices_left));
            i += 1;
        }
        assert(file_system.is_fixed() ==> node_views(out@) =~= Seq::new(
            listed(file_system, self.0@).len(),
            |i: int| (listed(file_system, self.0@)[i], slices_left@),
        ));
        out
    }
}

} // verus!
