//! One slice of a sequence: a literal or the wildcard.

use crate::error::Error;
use crate::query::MatchStrength;
use crate::text::{
    all_dots, fold, folded_chars, from_chars, is_subsequence, lemma_subsequence_embeds,
    occurs_in_order, only_dots, same_chars, subsequence_of, to_chars,
};
use vstd::prelude::*;

verus! {

/// A character that a slice may hold: an ASCII letter or digit, `-`, `_` or
/// `.`.
pub open spec fn is_slice_char(c: char) -> bool {
    ||| c == '-'
    ||| c == '_'
    ||| c == '.'
    ||| 'a' <= c <= 'z'
    ||| 'A' <= c <= 'Z'
    ||| '0' <= c <= '9'
}

/// A text that can be read as a slice: the wildcard `-`, or a text that is
/// not empty, holds only slice characters and is not made of dots alone.
pub open spec fn is_slice_text(pattern: Seq<char>) -> bool {
    pattern.len() > 0 && !only_dots(pattern) && forall|i: int|
        0 <= i < pattern.len() ==> is_slice_char(#[trigger] pattern[i])
}

/// The slice that a valid text stands for: `None` for the wildcard.
pub open spec fn slice_of(pattern: Seq<char>) -> Option<Seq<char>> {
    if pattern == seq!['-'] {
        None
    } else {
        Some(fold(pattern))
    }
}

/// The strength with which a slice matches a component, if it matches. The
/// wildcard matches every component, with a strength of its own. A literal
/// and the component are compared without regard to ASCII case.
pub open spec fn slice_match(slice: Option<Seq<char>>, component: Seq<char>) -> Option<
    MatchStrength,
> {
    match slice {
        None => Some(MatchStrength::Wildcard),
        Some(literal) => {
            let l = fold(literal);
            let c = fold(component);
            if l.len() == 0 || c.len() == 0 {
                None
            } else if l == c {
                Some(MatchStrength::Complete)
            } else if is_subsequence(l, c) {
                Some(MatchStrength::Partial)
            } else {
                None
            }
        },
    }
}

/// A literal matches a component completely exactly where the two are the
/// same without regard to ASCII case.
pub proof fn lemma_complete_iff_same(literal: Seq<char>, component: Seq<char>)
    requires
        literal.len() > 0,
    ensures
        slice_match(Some(literal), component) == Some(MatchStrength::Complete) <==> fold(literal)
            == fold(component),
{
}

/// Where a literal matches a component, its characters are found in the
/// component at positions in rising order, both without regard to ASCII
/// case.
pub proof fn lemma_match_in_order(literal: Seq<char>, component: Seq<char>)
    requires
        slice_match(Some(literal), component) is Some,
    ensures
        occurs_in_order(fold(literal), fold(component)),
{
    let l = fold(literal);
    let c = fold(component);
    if l == c {
        let at = Seq::new(l.len(), |i: int| i);
        assert(crate::text::is_embedding(at, l, c));
    } else {
        lemma_subsequence_embeds(l, c);
    }
}

/// One unit of the user's input, meant to match one component of a path.
#[derive(Debug)]
pub enum Slice {
    /// Matches a component by its characters, without regard to ASCII case.
    Literal(String),
    /// Matches every component.
    Wildcard,
}

/// Whether a component matches a slice.
#[derive(Clone, Copy, Debug, PartialEq, Eq, Structural)]
pub enum SliceMatch {
    /// It does, with the given strength.
    Yes(MatchStrength),
    /// It does not.
    No,
}

impl View for Slice {
    type V = Option<Seq<char>>;

    /// The literal's text, or `None` for the wildcard.
    open spec fn view(&self) -> Option<Seq<char>> {
        match self {
            Slice::Literal(literal) => Some(literal@),
            Slice::Wildcard => None,
        }
    }
}

impl View for SliceMatch {
    type V = Option<MatchStrength>;

    open spec fn view(&self) -> Option<MatchStrength> {
        match self {
            SliceMatch::Yes(strength) => Some(*strength),
            SliceMatch::No => None,
        }
    }
}

impl Clone for Slice {
    fn clone(&self) -> (r: Self)
        ensures
            r == *self,
    {
        match self {
            Slice::Literal(literal) => Slice::Literal(literal.clone()),
            Slice::Wildcard => Slice::Wildcard,
        }
    }
}

fn is_slice_letter(c: char) -> (r: bool)
    ensures
        r == is_slice_char(c),
{
    c == '-' || c == '_' || c == '.' || ('a' <= c && c <= 'z') || ('A' <= c && c <= 'Z') || ('0'
        <= c && c <= '9')
}

fn only_slice_chars(chars: &Vec<char>) -> (r: bool)
    ensures
        r == forall|i: int| 0 <= i < chars.len() ==> is_slice_char(#[trigger] chars@[i]),
{
    let mut i: usize = 0;
    while i < chars.len()
        invariant
            i <= chars.len(),
            forall|k: int| 0 <= k < i ==> is_slice_char(#[trigger] chars@[k]),
        decreases chars.len() - i,
    {
        if !is_slice_letter(chars[i]) {
            return false;
        }
        i += 1;
    }
    true
}

impl Slice {
    /// Reads a slice. `-` is the wildcard; any other text becomes a literal
    /// in ASCII lowercase, unless it is empty, holds a character that is no
    /// slice character, or is made of dots alone.
    pub fn from_string(pattern: String) -> (r: Result<Self, Error>)
        ensures
            is_slice_text(pattern@) ==> r is Ok && r->Ok_0@ == slice_of(pattern@),
            !is_slice_text(pattern@) ==> r == Err::<Self, Error>(Error::InvalidSlice(pattern)),
    {
        let chars = to_chars(pattern.as_str());
        if chars.len() == 1 && chars[0] == '-' {
            assert(pattern@ =~= seq!['-']);
            return Ok(Slice::Wildcard);
        }
        if chars.len() == 0 || !only_slice_chars(&chars) || all_dots(&chars) {
            return Err(Error::InvalidSlice(pattern));
        }
        let folded = folded_chars(pattern.as_str());
        Ok(Slice::Literal(from_chars(&folded)))
    }

    /// Matches a component against the slice.
    pub fn match_component(&self, component: &str) -> (r: SliceMatch)
        ensures
            r@ == slice_match(self@, component@),
    {
        match self {
            Slice::Wildcard => SliceMatch::Yes(MatchStrength::Wildcard),
            Slice::Literal(literal) => {
                let l = folded_chars(literal.as_str());
                let c = folded_chars(component);
                if l.len() == 0 || c.len() == 0 {
                    SliceMatch::No
                } else if same_chars(&l, &c) {
                    SliceMatch::Yes(MatchStrength::Complete)
                } else if subsequence_of(&l, &c) {
                    SliceMatch::Yes(MatchStrength::Partial)
                } else {
                    SliceMatch::No
                }
            },
        }
    }
}

} // verus!
