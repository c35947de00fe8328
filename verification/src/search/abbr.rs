//! Abbreviations measured by edit distance.

use crate::error::Error;
use crate::text::{
    all_dots, fold, folded_chars, from_chars, is_subsequence, lemma_subsequence_embeds,
    occurs_in_order, only_dots, same_chars, subsequence_of, to_chars,
};
use std::cmp::Ordering;
use vstd::prelude::*;
use vstd::std_specs::cmp::PartialOrdSpecImpl;

verus! {

/// The characters that the regular expression class `\s` accepts: those with
/// the Unicode property `White_Space`.
pub open spec fn is_space(c: char) -> bool {
    ||| '\u{9}' <= c <= '\u{d}'
    ||| c == ' '
    ||| c == '\u{85}'
    ||| c == '\u{a0}'
    ||| c == '\u{1680}'
    ||| '\u{2000}' <= c <= '\u{200a}'
    ||| c == '\u{2028}'
    ||| c == '\u{2029}'
    ||| c == '\u{202f}'
    ||| c == '\u{205f}'
    ||| c == '\u{3000}'
}

/// A character that no abbreviation may hold: a path separator or a space.
pub open spec fn is_forbidden(c: char) -> bool {
    c == '/' || c == '\\' || is_space(c)
}

/// The text of the wildcard.
pub open spec fn wildcard_text() -> Seq<char> {
    seq!['-']
}

/// A text that can be read as an abbreviation: the wildcard, or a text that
/// is not empty, holds no forbidden character and is not made of dots alone.
pub open spec fn is_abbr_text(pattern: Seq<char>) -> bool {
    pattern == wildcard_text() || (pattern.len() > 0 && !only_dots(pattern) && forall|i: int|
        0 <= i < pattern.len() ==> !is_forbidden(#[trigger] pattern[i]))
}

/// The least of three numbers.
pub open spec fn least(x: nat, y: nat, z: nat) -> nat {
    if x <= y && x <= z {
        x
    } else if y <= z {
        y
    } else {
        z
    }
}

/// The edit distance of two strings: the fewest insertions, deletions and
/// substitutions of single characters that turn one into the other.
pub open spec fn edit_distance(a: Seq<char>, b: Seq<char>) -> nat
    decreases a.len() + b.len(),
{
    if a.len() == 0 {
        b.len()
    } else if b.len() == 0 {
        a.len()
    } else {
        let substituted = if a[0] == b[0] {
            0nat
        } else {
            1nat
        };
        least(
            edit_distance(a.drop_first(), b.drop_first()) + substituted,
            edit_distance(a.drop_first(), b) + 1,
            edit_distance(a, b.drop_first()) + 1,
        )
    }
}

/// Calls `strsim::levenshtein`, which counts the fewest insertions,
/// deletions and substitutions of characters that turn one string into the
/// other.
#[verifier::external_body]
fn measure(a: &str, b: &str) -> (d: usize)
    ensures
        d == edit_distance(a@, b@),
{
    strsim::levenshtein(a, b)
}

/// The edit distance is at least the difference of the lengths.
pub proof fn lemma_distance_at_least(a: Seq<char>, b: Seq<char>)
    ensures
        edit_distance(a, b) + a.len() >= b.len(),
        edit_distance(a, b) + b.len() >= a.len(),
    decreases a.len() + b.len(),
{
    if a.len() > 0 && b.len() > 0 {
        lemma_distance_at_least(a.drop_first(), b.drop_first());
        lemma_distance_at_least(a.drop_first(), b);
        lemma_distance_at_least(a, b.drop_first());
    }
}

/// The edit distance between a text and a subsequence of it is what the
/// text has in excess: the characters that are not part of the subsequence
/// are inserted, and nothing else is needed.
pub proof fn lemma_distance_of_subsequence(p: Seq<char>, t: Seq<char>)
    requires
        is_subsequence(p, t),
    ensures
        p.len() <= t.len(),
        edit_distance(p, t) == t.len() - p.len(),
    decreases t.len(),
{
    lemma_distance_at_least(p, t);
    if p.len() > 0 {
        if p[0] == t[0] {
            lemma_distance_of_subsequence(p.drop_first(), t.drop_first());
        } else {
            lemma_distance_of_subsequence(p, t.drop_first());
        }
    }
}

/// One fragment of what the user typed.
#[derive(Debug)]
pub enum Abbr {
    /// Matches a component by its characters, without regard to ASCII case.
    Literal(String),
    /// Matches every component.
    Wildcard,
}

/// How well a component matches an abbreviation, the best first.
#[derive(Clone, Copy, Debug, PartialEq, Eq, Ord, Structural)]
pub enum Congruence {
    /// The component is the abbreviation.
    Complete,
    /// The abbreviation's characters occur in order in the component; the
    /// field is the edit distance between the two.
    Partial(usize),
    /// The abbreviation is the wildcard.
    Wildcard,
}

impl View for Abbr {
    type V = Option<Seq<char>>;

    /// The literal's text, or `None` for the wildcard.
    open spec fn view(&self) -> Option<Seq<char>> {
        match self {
            Abbr::Literal(literal) => Some(literal@),
            Abbr::Wildcard => None,
        }
    }
}

/// The abbreviation that a valid text stands for.
pub open spec fn abbr_of(pattern: Seq<char>) -> Option<Seq<char>> {
    if pattern == wildcard_text() {
        None
    } else {
        Some(fold(pattern))
    }
}

/// The strength with which a literal matches a component, if it matches.
/// Both are compared without regard to ASCII case.
pub open spec fn literal_congruence(literal: Seq<char>, component: Seq<char>) -> Option<
    Congruence,
> {
    let l = fold(literal);
    let c = fold(component);
    if l.len() == 0 || c.len() == 0 {
        None
    } else if l == c {
        Some(Congruence::Complete)
    } else if is_subsequence(l, c) {
        Some(Congruence::Partial(edit_distance(l, c) as usize))
    } else {
        None
    }
}

/// The strength with which an abbreviation matches a component, if it
/// matches.
pub open spec fn congruence(abbr: Option<Seq<char>>, component: Seq<char>) -> Option<Congruence> {
    match abbr {
        None => Some(Congruence::Wildcard),
        Some(literal) => literal_congruence(literal, component),
    }
}

fn is_space_char(c: char) -> (r: bool)
    ensures
        r == is_space(c),
{
    ('\u{9}' <= c && c <= '\u{d}') || c == ' ' || c == '\u{85}' || c == '\u{a0}' || c
        == '\u{1680}' || ('\u{2000}' <= c && c <= '\u{200a}') || c == '\u{2028}' || c
        == '\u{2029}' || c == '\u{202f}' || c == '\u{205f}' || c == '\u{3000}'
}

fn has_forbidden(chars: &Vec<char>) -> (r: bool)
    ensures
        r == exists|i: int| 0 <= i < chars.len() && is_forbidden(#[trigger] chars@[i]),
{
    let mut i: usize = 0;
    while i < chars.len()
        invariant
            i <= chars.len(),
            forall|k: int| 0 <= k < i ==> !is_forbidden(#[trigger] chars@[k]),
        decreases chars.len() - i,
    {
        let c = chars[i];
        if c == '/' || c == '\\' || is_space_char(c) {
            return true;
        }
        i += 1;
    }
    false
}

impl Clone for Abbr {
    fn clone(&self) -> (r: Self)
        ensures
            r == *self,
    {
        match self {
            Abbr::Literal(literal) => Abbr::Literal(literal.clone()),
            Abbr::Wildcard => Abbr::Wildcard,
        }
    }
}

impl Abbr {
    /// Reads an abbreviation. `-` is the wildcard; any other text becomes a
    /// literal in ASCII lowercase, unless it is empty, holds a path separator
    /// or a space, or is made of dots alone.
    pub fn from_string(pattern: String) -> (r: Result<Self, Error>)
        ensures
            is_abbr_text(pattern@) ==> r is Ok && r->Ok_0@ == abbr_of(pattern@),
            !is_abbr_text(pattern@) ==> r == Err::<Self, Error>(Error::InvalidAbbr(pattern)),
    {
        let chars = to_chars(pattern.as_str());
        if chars.len() == 1 && chars[0] == '-' {
            assert(pattern@ =~= wildcard_text());
            return Ok(Abbr::Wildcard);
        }
        if chars.len() == 0 || has_forbidden(&chars) || all_dots(&chars) {
            return Err(Error::InvalidAbbr(pattern));
        }
        let folded = folded_chars(pattern.as_str());
        Ok(Abbr::Literal(from_chars(&folded)))
    }

    /// Matches a component against the abbreviation.
    pub fn compare(&self, component: &str) -> (r: Option<Congruence>)
        ensures
            r == congruence(self@, component@),
            r == Some(Congruence::Complete) <==> (self@ matches Some(literal) && fold(
                literal,
            ).len() > 0 && fold(literal) == fold(component@)),
            r matches Some(Congruence::Partial(distance)) ==> (self@ matches Some(literal)
                && is_subsequence(fold(literal), fold(component@)) && distance
                == component@.len() - literal.len()),
    {
        match self {
            Abbr::Wildcard => Some(Congruence::Wildcard),
            Abbr::Literal(literal) => {
                let l = folded_chars(literal.as_str());
                let c = folded_chars(component);
                if l.len() == 0 || c.len() == 0 {
                    None
                } else if same_chars(&l, &c) {
                    Some(Congruence::Complete)
                } else if subsequence_of(&l, &c) {
                    proof {
                        lemma_distance_of_subsequence(l@, c@);
                    }
                    let left = from_chars(&l);
                    let right = from_chars(&c);
                    Some(Congruence::Partial(measure(left.as_str(), right.as_str())))
                } else {
                    None
                }
            },
        }
    }
}

impl Congruence {
    /// The place of a strength in the order: the tier first, then the
    /// distance within the tier of partial matches.
    pub open spec fn rank(self) -> (int, int) {
        match self {
            Congruence::Complete => (0, 0),
            Congruence::Partial(distance) => (1, distance as int),
            Congruence::Wildcard => (2, 0),
        }
    }

    /// The tier and the distance by which the strength is ranked.
    pub fn pair(&self) -> (r: (u8, usize))
        ensures
            (r.0 as int, r.1 as int) == self.rank(),
    {
        match self {
            Congruence::Complete => (0, 0),
            Congruence::Partial(distance) => (1, *distance),
            Congruence::Wildcard => (2, 0),
        }
    }

    /// `self` is a strictly better match than `other`.
    pub open spec fn precedes(self, other: Self) -> bool {
        let a = self.rank();
        let b = other.rank();
        a.0 < b.0 || (a.0 == b.0 && a.1 < b.1)
    }

    /// How `self` stands to `other` in the order.
    pub open spec fn relation(self, other: Self) -> Ordering {
        if self.precedes(other) {
            Ordering::Less
        } else if other.precedes(self) {
            Ordering::Greater
        } else {
            Ordering::Equal
        }
    }

    /// Compares two strengths; the better match is the lesser.
    pub fn relative_to(&self, other: &Self) -> (r: Ordering)
        ensures
            r == self.relation(*other),
    {
        match (self, other) {
            (Congruence::Complete, Congruence::Complete) => Ordering::Equal,
            (Congruence::Complete, _) => Ordering::Less,
            (Congruence::Wildcard, Congruence::Wildcard) => Ordering::Equal,
            (Congruence::Wildcard, _) => Ordering::Greater,
            (Congruence::Partial(_), Congruence::Wildcard) => Ordering::Less,
            (Congruence::Partial(a), Congruence::Partial(b)) => {
                if *a < *b {
                    Ordering::Less
                } else if *a > *b {
                    Ordering::Greater
                } else {
                    Ordering::Equal
                }
            },
            (Congruence::Partial(_), Congruence::Complete) => Ordering::Greater,
        }
    }
}

impl PartialOrdSpecImpl for Congruence {
    open spec fn obeys_partial_cmp_spec() -> bool {
        true
    }

    open spec fn partial_cmp_spec(&self, other: &Self) -> Option<Ordering> {
        Some(self.relation(*other))
    }
}

impl PartialOrd for Congruence {
    fn partial_cmp(&self, other: &Self) -> (r: Option<Ordering>) {
        Some(self.relative_to(other))
    }
}

/// A literal matches a component completely exactly where the two are the
/// same without regard to ASCII case.
pub proof fn lemma_complete_iff_same(literal: Seq<char>, component: Seq<char>)
    requires
        literal.len() > 0,
    ensures
        congruence(Some(literal), component) == Some(Congruence::Complete) <==> fold(literal)
            == fold(component),
{
}

/// Where a literal matches a component partially, its characters are found
/// in the component at positions in rising order, both without regard to
/// ASCII case, and the distance is the edit distance of the two: the number
/// of characters of the component that are not matched.
pub proof fn lemma_partial_in_order(literal: Seq<char>, component: Seq<char>, distance: usize)
    requires
        component.len() <= usize::MAX,
        congruence(Some(literal), component) == Some(Congruence::Partial(distance)),
    ensures
        occurs_in_order(fold(literal), fold(component)),
        distance == edit_distance(fold(literal), fold(component)),
        distance == component.len() - literal.len(),
{
    lemma_subsequence_embeds(fold(literal), fold(component));
    lemma_distance_of_subsequence(fold(literal), fold(component));
}

/// The wider a literal is spread in a component, the greater the distance:
/// of two components that a literal matches partially, the longer one
/// never has the smaller distance.
pub proof fn lemma_distance_grows_with_spread(
    literal: Seq<char>,
    near: Seq<char>,
    far: Seq<char>,
    near_distance: usize,
    far_distance: usize,
)
    requires
        congruence(Some(literal), near) == Some(Congruence::Partial(near_distance)),
        congruence(Some(literal), far) == Some(Congruence::Partial(far_distance)),
        near.len() <= far.len() <= usize::MAX,
    ensures
        near_distance <= far_distance,
        !Congruence::Partial(far_distance).precedes(Congruence::Partial(near_distance)),
{
    lemma_distance_of_subsequence(fold(literal), fold(near));
    lemma_distance_of_subsequence(fold(literal), fold(far));
}

/// A literal made by `from_string` holds no path separator and no space, is
/// not empty and is not made of dots alone.
pub proof fn lemma_literal_is_clean(pattern: Seq<char>)
    requires
        is_abbr_text(pattern),
        pattern != wildcard_text(),
    ensures
        abbr_of(pattern) matches Some(literal) && literal.len() > 0 && !only_dots(literal)
            && forall|i: int|
            0 <= i < literal.len() ==> literal[i] != '/' && literal[i] != '\\' && !is_space(
                #[trigger] literal[i],
            ),
{
    let literal = fold(pattern);
    assert forall|i: int| 0 <= i < literal.len() implies literal[i] != '/' && literal[i] != '\\'
        && !is_space(#[trigger] literal[i]) by {
        assert(!is_forbidden(pattern[i]));
    }
    if only_dots(literal) {
        assert forall|i: int| 0 <= i < pattern.len() implies pattern[i] == '.' by {
            assert(literal[i] == '.');
        }
    }
}

/// The order of strengths is total: of two strengths exactly one precedes
/// the other, unless they are the same.
pub proof fn lemma_order_total(a: Congruence, b: Congruence)
    ensures
        a.precedes(b) || b.precedes(a) || a == b,
        !(a.precedes(b) && b.precedes(a)),
        !a.precedes(a),
        a.relation(b) == Ordering::Equal <==> a == b,
{
}

/// The order of strengths is transitive.
pub proof fn lemma_order_transitive(a: Congruence, b: Congruence, c: Congruence)
    requires
        a.precedes(b),
        b.precedes(c),
    ensures
        a.precedes(c),
{
}

/// A complete match precedes every partial match, a partial match with a
/// smaller distance precedes one with a greater distance, and every one of
/// them precedes the wildcard.
pub proof fn lemma_order_tiers(d1: usize, d2: usize)
    ensures
        Congruence::Complete.precedes(Congruence::Partial(d1)),
        Congruence::Partial(d1).precedes(Congruence::Wildcard),
        Congruence::Complete.precedes(Congruence::Wildcard),
        d1 < d2 <==> Congruence::Partial(d1).precedes(Congruence::Partial(d2)),
{
}

} // verus!
