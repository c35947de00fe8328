//! Paths as lists of components.

use crate::text::{
    from_chars, lemma_split_first_piece, rows, same_text, split, split_chars, to_chars,
};
use vstd::prelude::*;
use vstd::string::StringExecFns;

verus! {

/// One component of a path, as the specifications see it.
pub enum Part {
    /// A drive or another marker that stands before the root.
    Prefix(Seq<char>),
    /// The root directory.
    RootDir,
    /// The current directory, `.`.
    CurDir,
    /// The parent directory, `..`.
    ParentDir,
    /// A name.
    Normal(Seq<char>),
}

/// One component of a path.
#[derive(Debug, PartialEq, Eq)]
pub enum Component {
    /// A drive or another marker that stands before the root.
    Prefix(String),
    /// The root directory.
    RootDir,
    /// The current directory, `.`.
    CurDir,
    /// The parent directory, `..`.
    ParentDir,
    /// A name.
    Normal(String),
}

/// A path: its components, the outermost first. Two paths are the same where
/// their components are.
#[derive(Debug, PartialEq, Eq)]
pub struct DirPath {
    pub components: Vec<Component>,
}

impl View for Component {
    type V = Part;

    open spec fn view(&self) -> Part {
        match self {
            Component::Prefix(text) => Part::Prefix(text@),
            Component::RootDir => Part::RootDir,
            Component::CurDir => Part::CurDir,
            Component::ParentDir => Part::ParentDir,
            Component::Normal(name) => Part::Normal(name@),
        }
    }
}

impl View for DirPath {
    type V = Seq<Part>;

    open spec fn view(&self) -> Seq<Part> {
        Seq::new(self.components.len() as nat, |i: int| self.components[i]@)
    }
}

/// The views of a list of paths.
pub open spec fn path_views(paths: Seq<DirPath>) -> Seq<Seq<Part>> {
    Seq::new(paths.len(), |i: int| paths[i]@)
}

/// The text of the current directory.
pub open spec fn dot() -> Seq<char> {
    seq!['.']
}

/// The text of the parent directory.
pub open spec fn dot_dot() -> Seq<char> {
    seq!['.', '.']
}

/// The component that one piece between two separators stands for. Empty
/// pieces stand for nothing, and `.` only counts where the path begins
/// with it.
pub open spec fn part_of(piece: Seq<char>, first: bool) -> Option<Part> {
    if piece.len() == 0 {
        None
    } else if piece == dot() {
        if first {
            Some(Part::CurDir)
        } else {
            None
        }
    } else if piece == dot_dot() {
        Some(Part::ParentDir)
    } else {
        Some(Part::Normal(piece))
    }
}

/// The components that the pieces of a path stand for.
pub open spec fn parts_of(pieces: Seq<Seq<char>>) -> Seq<Part>
    decreases pieces.len(),
{
    if pieces.len() == 0 {
        Seq::empty()
    } else {
        let before = parts_of(pieces.drop_last());
        match part_of(pieces.last(), pieces.len() == 1) {
            Some(part) => before.push(part),
            None => before,
        }
    }
}

/// The components of a path written with `/` between them. A path that
/// begins with `/` begins with the root; repeated and trailing separators
/// count for nothing, nor does a `.` after the beginning.
pub open spec fn parts(text: Seq<char>) -> Seq<Part> {
    let named = parts_of(split(text, '/'));
    if text.len() > 0 && text[0] == '/' {
        seq![Part::RootDir] + named
    } else {
        named
    }
}

/// Pieces that begin with a piece that is not empty stand for at least one
/// component.
pub proof fn lemma_parts_of_first(pieces: Seq<Seq<char>>)
    requires
        pieces.len() >= 1,
        pieces[0].len() > 0,
    ensures
        parts_of(pieces).len() >= 1,
    decreases pieces.len(),
{
    if pieces.len() > 1 {
        assert(pieces.drop_last()[0] == pieces[0]);
        lemma_parts_of_first(pieces.drop_last());
    } else {
        assert(pieces.drop_last().len() == 0);
        assert(pieces.last() == pieces[0]);
    }
}

/// A path that is written with at least one character has at least one
/// component.
pub proof fn lemma_parts_nonempty(text: Seq<char>)
    requires
        text.len() > 0,
    ensures
        parts(text).len() > 0,
{
    if text[0] != '/' {
        lemma_split_first_piece(text, '/');
        lemma_parts_of_first(split(text, '/'));
    }
}

/// The text of one component.
pub open spec fn part_text(part: Part) -> Seq<char> {
    match part {
        Part::Prefix(text) => text,
        Part::RootDir => seq!['/'],
        Part::CurDir => dot(),
        Part::ParentDir => dot_dot(),
        Part::Normal(name) => name,
    }
}

/// A path written out: its components with `/` between them, and no `/`
/// after a component that ends in one.
pub open spec fn text_of(path: Seq<Part>) -> Seq<char>
    decreases path.len(),
{
    if path.len() == 0 {
        Seq::empty()
    } else {
        let before = text_of(path.drop_last());
        if before.len() == 0 || before.last() == '/' {
            before + part_text(path.last())
        } else {
            before.push('/') + part_text(path.last())
        }
    }
}

/// The last component of a path, where it is a name.
pub open spec fn file_name(path: Seq<Part>) -> Option<Seq<char>> {
    if path.len() > 0 && path.last() is Normal {
        Some(path.last()->Normal_0)
    } else {
        None
    }
}

/// The name of a path; empty where it has none.
pub open spec fn name_of(path: Seq<Part>) -> Seq<char> {
    match file_name(path) {
        Some(name) => name,
        None => Seq::empty(),
    }
}

impl Clone for Component {
    fn clone(&self) -> (r: Self)
        ensures
            r == *self,
    {
        match self {
            Component::Prefix(text) => Component::Prefix(text.clone()),
            Component::RootDir => Component::RootDir,
            Component::CurDir => Component::CurDir,
            Component::ParentDir => Component::ParentDir,
            Component::Normal(name) => Component::Normal(name.clone()),
        }
    }
}

impl Clone for DirPath {
    fn clone(&self) -> (r: Self)
        ensures
            r@ == self@,
    {
        let mut out: Vec<Component> = Vec::new();
        let mut i: usize = 0;
        while i < self.components.len()
            invariant
                i <= self.components.len(),
                out@ == self.components@.take(i as int),
            decreases self.components.len() - i,
        {
            out.push(self.components[i].clone());
            assert(out@ =~= self.components@.take(i + 1));
            i += 1;
        }
        assert(self.components@.take(self.components.len() as int) =~= self.components@);
        let r = DirPath { components: out };
        assert(r@ =~= self@);
        r
    }
}

impl Component {
    /// The text of the component.
    pub fn text(&self) -> (r: String)
        ensures
            r@ == part_text(self@),
    {
        proof {
            reveal_strlit("/");
            reveal_strlit(".");
            reveal_strlit("..");
        }
        match self {
            Component::Prefix(text) => text.clone(),
            Component::RootDir => {
                assert("/"@ =~= seq!['/']);
                String::from_str("/")
            },
            Component::CurDir => {
                assert("."@ =~= dot());
                String::from_str(".")
            },
            Component::ParentDir => {
                assert(".."@ =~= dot_dot());
                String::from_str("..")
            },
            Component::Normal(name) => name.clone(),
        }
    }

    /// Whether two components are the same.
    pub fn same(&self, other: &Component) -> (r: bool)
        ensures
            r == (self@ == other@),
    {
        match (self, other) {
            (Component::Prefix(a), Component::Prefix(b)) => same_text(a.as_str(), b.as_str()),
            (Component::RootDir, Component::RootDir) => true,
            (Component::CurDir, Component::CurDir) => true,
            (Component::ParentDir, Component::ParentDir) => true,
            (Component::Normal(a), Component::Normal(b)) => same_text(a.as_str(), b.as_str()),
            _ => false,
        }
    }
}

fn is_dot(piece: &Vec<char>) -> (r: bool)
    ensures
        r == (piece@ == dot()),
{
    let r = piece.len() == 1 && piece[0] == '.';
    assert(r ==> piece@ =~= dot());
    r
}

fn is_dot_dot(piece: &Vec<char>) -> (r: bool)
    ensures
        r == (piece@ == dot_dot()),
{
    let r = piece.len() == 2 && piece[0] == '.' && piece[1] == '.';
    assert(r ==> piece@ =~= dot_dot());
    r
}

impl DirPath {
    /// The path without components.
    pub fn new() -> (r: Self)
        ensures
            r@ == Seq::<Part>::empty(),
    {
        let r = DirPath { components: Vec::new() };
        assert(r@ =~= Seq::<Part>::empty());
        r
    }

    /// Reads a path written with `/` between its components.
    pub fn parse(text: &str) -> (r: Self)
        ensures
            r@ == parts(text@),
    {
        let chars = to_chars(text);
        let pieces = split_chars(&chars, '/');
        let mut out = DirPath::new();
        if chars.len() > 0 && chars[0] == '/' {
            out.push(Component::RootDir);
        }
        let ghost start = out@;
        let ghost texts = split(text@, '/');
        let mut i: usize = 0;
        assert(texts.take(0) =~= Seq::<Seq<char>>::empty());
        assert(out@ =~= start + parts_of(texts.take(0)));
        while i < pieces.len()
            invariant
                i <= pieces.len(),
                rows(pieces@) == texts,
                out@ == start + parts_of(texts.take(i as int)),
            decreases pieces.len() - i,
        {
            assert(texts.take(i + 1).drop_last() =~= texts.take(i as int));
            assert(texts.take(i + 1).last() == pieces@[i as int]@);
            let piece = &pieces[i];
            if piece.len() == 0 {
            } else if is_dot(piece) {
                if i == 0 {
                    out.push(Component::CurDir);
                }
            } else if is_dot_dot(piece) {
                out.push(Component::ParentDir);
            } else {
                out.push(Component::Normal(from_chars(piece)));
            }
            assert(out@ =~= start + parts_of(texts.take(i + 1)));
            i += 1;
        }
        assert(texts.take(pieces.len() as int) =~= texts);
        out
    }

    /// The number of components.
    pub fn len(&self) -> (r: usize)
        ensures
            r == self@.len(),
    {
        self.components.len()
    }

    /// Adds a component at the end.
    pub fn push(&mut self, component: Component)
        ensures
            final(self)@ == old(self)@.push(component@),
    {
        self.components.push(component);
        assert(self@ =~= old(self)@.push(component@));
    }

    /// The path of the entry `name` in this directory.
    pub fn join(&self, name: &str) -> (r: Self)
        ensures
            r@ == self@.push(Part::Normal(name@)),
    {
        let mut out = self.clone();
        out.push(Component::Normal(String::from_str(name)));
        out
    }

    /// The last component, where it is a name.
    pub fn file_name(&self) -> (r: Option<String>)
        ensures
            match file_name(self@) {
                Some(name) => r is Some && r->Some_0@ == name,
                None => r is None,
            },
    {
        let n = self.components.len();
        if n == 0 {
            return None;
        }
        match &self.components[n - 1] {
            Component::Normal(name) => Some(name.clone()),
            _ => None,
        }
    }

    /// Whether two paths have the same components.
    pub fn same(&self, other: &DirPath) -> (r: bool)
        ensures
            r == (self@ == other@),
    {
        if self.components.len() != other.components.len() {
            return false;
        }
        let mut i: usize = 0;
        while i < self.components.len()
            invariant
                i <= self.components.len(),
                self.components.len() == other.components.len(),
                forall|k: int| 0 <= k < i ==> self@[k] == other@[k],
            decreases self.components.len() - i,
        {
            if !self.components[i].same(&other.components[i]) {
                assert(self@[i as int] != other@[i as int]);
                return false;
            }
            i += 1;
        }
        assert(self@ =~= other@);
        true
    }

    /// Whether the path begins with all components of `other`.
    pub fn starts_with(&self, other: &DirPath) -> (r: bool)
        ensures
            r == other@.is_prefix_of(self@),
    {
        if other.components.len() > self.components.len() {
            return false;
        }
        let mut i: usize = 0;
        while i < other.components.len()
            invariant
                i <= other.components.len() <= self.components.len(),
                forall|k: int| 0 <= k < i ==> self@[k] == other@[k],
            decreases other.components.len() - i,
        {
            if !self.components[i].same(&other.components[i]) {
                assert(self@[i as int] != other@[i as int]);
                return false;
            }
            i += 1;
        }
        assert(other@ =~= self@.subrange(0, other@.len() as int));
        true
    }

    /// The path written out with `/` between its components.
    pub fn display(&self) -> (r: String)
        ensures
            r@ == text_of(self@),
    {
        let mut out: Vec<char> = Vec::new();
        let mut i: usize = 0;
        assert(self@.take(0) =~= Seq::<Part>::empty());
        while i < self.components.len()
            invariant
                i <= self.components.len(),
                out@ == text_of(self@.take(i as int)),
            decreases self.components.len() - i,
        {
            assert(self@.take(i + 1).drop_last() =~= self@.take(i as int));
            assert(self@.take(i + 1).last() == self.components@[i as int]@);
            if out.len() > 0 && out[out.len() - 1] != '/' {
                out.push('/');
            }
            let text = self.components[i].text();
            let chars = to_chars(text.as_str());
            let ghost before = out@;
            let mut k: usize = 0;
            while k < chars.len()
                invariant
                    k <= chars.len(),
                    out@ == before + chars@.take(k as int),
                decreases chars.len() - k,
            {
                out.push(chars[k]);
                assert(out@ =~= before + chars@.take(k + 1));
                k += 1;
            }
            assert(chars@.take(chars.len() as int) =~= chars@);
            i += 1;
        }
        assert(self@.take(self.components.len() as int) =~= self@);
        from_chars(&out)
    }
}

} // verus!
