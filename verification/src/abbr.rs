//! Abbreviations measured by a coefficient that the caller supplies.

use crate::text::{
    fold, folded_chars, is_subsequence, lemma_subsequence_embeds, occurs_in_order, same_chars,
    same_text, starts_with, subsequence_of, to_lowercase,
};
use std::cmp::Ordering;
use vstd::prelude::*;
use vstd::std_specs::cmp::PartialOrdSpecImpl;

verus! {

/// A component of the user's query.
#[derive(Debug)]
pub enum Abbr {
    /// Matches every component.
    Wildcard,
    /// Matches a component by its characters, without regard to ASCII case.
    Literal(String),
}

/// The strength of the match between an abbreviation and a component, the
/// strongest first.
#[derive(Clone, Copy, Debug, PartialEq, Eq, Ord, Structural)]
pub enum Congruence {
    /// The abbreviation and the component are the same.
    Complete,
    /// The abbreviation is a prefix of the component.
    Prefix,
    /// The abbreviation's characters form a subsequence of the component's
    /// characters. The field is the coefficient of the pair; a smaller one
    /// is a better match.
    Subsequence(u32),
    /// The abbreviation is the wildcard.
    Wildcard,
}

impl View for Abbr {
    type V = Option<Seq<char>>;

    /// The literal's text, or `None` for the wildcard.
    open spec fn view(&self) -> Option<Seq<char>> {
        match self {
            Abbr::Literal(literal) => Some(literal@),
            Abbr::Wildcard => None,
        }
    }
}

/// How a literal stands to a component before any coefficient is asked for.
#[derive(Clone, Copy, Debug, PartialEq, Eq, Structural)]
pub enum Shape {
    /// One of the two is empty, or the literal's characters do not occur in
    /// order in the component.
    Apart,
    /// The two are the same.
    Same,
    /// The literal is a proper prefix of the component.
    Leading,
    /// The literal's characters occur in order in the component, and the
    /// literal is no prefix of it.
    Scattered,
}

/// The shape of a literal against a component, both folded to ASCII
/// lowercase.
pub open spec fn shape(literal: Seq<char>, component: Seq<char>) -> Shape {
    let l = fold(literal);
    let c = fold(component);
    if l.len() == 0 || c.len() == 0 {
        Shape::Apart
    } else if l == c {
        Shape::Same
    } else if l.is_prefix_of(c) {
        Shape::Leading
    } else if is_subsequence(l, c) {
        Shape::Scattered
    } else {
        Shape::Apart
    }
}

/// The strength of a match, given the shape of the pair and the coefficient
/// that was found for it. The coefficient counts only for a scattered pair.
pub open spec fn strength(shape: Shape, coefficient: Option<u32>) -> Option<Congruence> {
    match shape {
        Shape::Apart => None,
        Shape::Same => Some(Congruence::Complete),
        Shape::Leading => Some(Congruence::Prefix),
        Shape::Scattered => match coefficient {
            Some(value) => Some(Congruence::Subsequence(value)),
            None => None,
        },
    }
}

/// The metric may answer `r` for a pair of texts.
pub open spec fn gives<M: Fn(&str, &str) -> Option<u32>>(
    metric: &M,
    pattern: Seq<char>,
    text: Seq<char>,
    r: Option<u32>,
) -> bool {
    exists|p: &str, t: &str| p@ == pattern && t@ == text && #[trigger] metric.ensures((p, t), r)
}

/// The coefficient that a metric gives for a pair of texts.
pub open spec fn coefficient_of<M: Fn(&str, &str) -> Option<u32>>(
    metric: &M,
    pattern: Seq<char>,
    text: Seq<char>,
) -> Option<u32> {
    choose|r: Option<u32>| gives(metric, pattern, text, r)
}

/// The metric is a function of the two texts: the same pair always gets the
/// same coefficient.
pub open spec fn is_function<M: Fn(&str, &str) -> Option<u32>>(metric: &M) -> bool {
    forall|p: &str, t: &str, r: Option<u32>| #[trigger]
        metric.ensures((p, t), r) ==> r == coefficient_of(metric, p@, t@)
}

/// The strength with which an abbreviation matches a component under a
/// metric that is a function.
pub open spec fn congruence<M: Fn(&str, &str) -> Option<u32>>(
    abbr: Option<Seq<char>>,
    component: Seq<char>,
    metric: &M,
) -> Option<Congruence> {
    match abbr {
        None => Some(Congruence::Wildcard),
        Some(literal) => strength(
            shape(literal, component),
            coefficient_of(metric, fold(literal), fold(component)),
        ),
    }
}

/// What `compare` may return for an abbreviation and a component, when the
/// coefficients come from `metric`.
pub open spec fn is_congruence<M: Fn(&str, &str) -> Option<u32>>(
    abbr: Option<Seq<char>>,
    component: Seq<char>,
    metric: &M,
    r: Option<Congruence>,
) -> bool {
    match abbr {
        None => r == Some(Congruence::Wildcard),
        Some(literal) => match shape(literal, component) {
            Shape::Scattered => exists|p: &str, t: &str, coefficient: Option<u32>|
                p@ == fold(literal) && t@ == fold(component) && metric.ensures(
                    (p, t),
                    coefficient,
                ) && r == strength(Shape::Scattered, coefficient),
            other => r == strength(other, None),
        },
    }
}

impl Clone for Abbr {
    fn clone(&self) -> (r: Self)
        ensures
            r == *self,
    {
        match self {
            Abbr::Literal(literal) => Abbr::Literal(literal.clone()),
            Abbr::Wildcard => Abbr::Wildcard,
        }
    }
}

impl Congruence {
    /// The strength of a scattered match with the given coefficient; none
    /// where the coefficient is not defined.
    pub fn from_coefficient(coefficient: Option<u32>) -> (r: Option<Congruence>)
        ensures
            r == strength(Shape::Scattered, coefficient),
    {
        match coefficient {
            Some(value) => Some(Congruence::Subsequence(value)),
            None => None,
        }
    }

    /// The place of a strength in the order: the tier first, then the
    /// coefficient within the tier of subsequences.
    pub open spec fn rank(self) -> (int, int) {
        match self {
            Congruence::Complete => (0, 0),
            Congruence::Prefix => (1, 0),
            Congruence::Subsequence(coefficient) => (2, coefficient as int),
            Congruence::Wildcard => (3, 0),
        }
    }

    /// The tier and the coefficient by which the strength is ranked.
    pub fn pair(&self) -> (r: (u8, usize))
        ensures
            (r.0 as int, r.1 as int) == self.rank(),
    {
        match self {
            Congruence::Complete => (0, 0),
            Congruence::Prefix => (1, 0),
            Congruence::Subsequence(coefficient) => (2, *coefficient as usize),
            Congruence::Wildcard => (3, 0),
        }
    }

    /// `self` is a strictly better match than `other`.
    pub open spec fn precedes(self, other: Self) -> bool {
        let a = self.rank();
        let b = other.rank();
        a.0 < b.0 || (a.0 == b.0 && a.1 < b.1)
    }

    /// How `self` stands to `other` in the order.
    pub open spec fn relation(self, other: Self) -> Ordering {
        if self.precedes(other) {
            Ordering::Less
        } else if other.precedes(self) {
            Ordering::Greater
        } else {
            Ordering::Equal
        }
    }

    fn tier(&self) -> (r: u8)
        ensures
            r == self.rank().0,
    {
        match self {
            Congruence::Complete => 0,
            Congruence::Prefix => 1,
            Congruence::Subsequence(_) => 2,
            Congruence::Wildcard => 3,
        }
    }

    /// Compares two strengths; the better match is the lesser.
    pub fn relative_to(&self, other: &Self) -> (r: Ordering)
        ensures
            r == self.relation(*other),
    {
        match (self, other) {
            (Congruence::Subsequence(a), Congruence::Subsequence(b)) => {
                if *a < *b {
                    Ordering::Less
                } else if *a > *b {
                    Ordering::Greater
                } else {
                    Ordering::Equal
                }
            },
            _ => {
                let a = self.tier();
                let b = other.tier();
                if a < b {
                    Ordering::Less
                } else if a > b {
                    Ordering::Greater
                } else {
                    Ordering::Equal
                }
            },
        }
    }
}

impl PartialOrdSpecImpl for Congruence {
    open spec fn obeys_partial_cmp_spec() -> bool {
        true
    }

    open spec fn partial_cmp_spec(&self, other: &Self) -> Option<Ordering> {
        Some(self.relation(*other))
    }
}

impl PartialOrd for Congruence {
    fn partial_cmp(&self, other: &Self) -> (r: Option<Ordering>) {
        Some(self.relative_to(other))
    }
}

impl Abbr {
    /// The wildcard for `-`; for any other text a literal, in ASCII
    /// lowercase.
    pub fn new_sanitized(abbr: &str) -> (r: Self)
        ensures
            r@ == if abbr@ == seq!['-'] {
                None
            } else {
                Some(fold(abbr@))
            },
    {
        proof {
            reveal_strlit("-");
        }
        if same_text(abbr, "-") {
            assert("-"@ =~= seq!['-']);
            Abbr::Wildcard
        } else {
            assert("-"@ =~= seq!['-']);
            Abbr::Literal(to_lowercase(abbr))
        }
    }

    /// How the abbreviation stands to a component, as far as that can be
    /// told without a coefficient. `None` for the wildcard.
    pub fn shape_of(&self, component: &str) -> (r: Option<Shape>)
        ensures
            r == match self@ {
                None => None,
                Some(literal) => Some(shape(literal, component@)),
            },
    {
        match self {
            Abbr::Wildcard => None,
            Abbr::Literal(literal) => {
                let l = folded_chars(literal.as_str());
                let c = folded_chars(component);
                if l.len() == 0 || c.len() == 0 {
                    Some(Shape::Apart)
                } else if same_chars(&l, &c) {
                    Some(Shape::Same)
                } else if starts_with(&c, &l) {
                    Some(Shape::Leading)
                } else if subsequence_of(&l, &c) {
                    Some(Shape::Scattered)
                } else {
                    Some(Shape::Apart)
                }
            },
        }
    }

    /// Compares a component against the abbreviation. The wildcard matches
    /// every component. A literal matches completely, as a prefix, or as a
    /// subsequence; for a subsequence that is no prefix, `metric` is asked
    /// for the coefficient of the folded pair, literal first, and the match
    /// fails where it gives none.
    pub fn compare<M: Fn(&str, &str) -> Option<u32>>(&self, component: &str, metric: &M) -> (r:
        Option<Congruence>)
        requires
            forall|p: &str, t: &str| metric.requires((p, t)),
        ensures
            is_congruence(self@, component@, metric, r),
            is_function(metric) ==> r == congruence(self@, component@, metric),
            r == Some(Congruence::Complete) <==> (self@ matches Some(literal) && fold(
                literal,
            ).len() > 0 && fold(literal) == fold(component@)),
            r matches Some(Congruence::Subsequence(_)) ==> (self@ matches Some(literal)
                && is_subsequence(fold(literal), fold(component@))),
    {
        match self {
            Abbr::Wildcard => Some(Congruence::Wildcard),
            Abbr::Literal(literal) => {
                match self.shape_of(component) {
                    Some(Shape::Same) => Some(Congruence::Complete),
                    Some(Shape::Leading) => Some(Congruence::Prefix),
                    Some(Shape::Scattered) => {
                        let pattern = to_lowercase(literal.as_str());
                        let text = to_lowercase(component);
                        let coefficient = metric(pattern.as_str(), text.as_str());
                        Congruence::from_coefficient(coefficient)
                    },
                    _ => None,
                }
            },
        }
    }
}

/// A literal matches a component completely exactly where the two are the
/// same without regard to ASCII case, whatever the metric.
pub proof fn lemma_complete_iff_same<M: Fn(&str, &str) -> Option<u32>>(
    literal: Seq<char>,
    component: Seq<char>,
    metric: &M,
    r: Option<Congruence>,
)
    requires
        literal.len() > 0,
        is_congruence(Some(literal), component, metric, r),
    ensures
        r == Some(Congruence::Complete) <==> fold(literal) == fold(component),
{
}

/// Where a literal matches a component as a subsequence, its characters are
/// found in the component at positions in rising order, both without regard
/// to ASCII case, whatever the metric.
pub proof fn lemma_subsequence_in_order<M: Fn(&str, &str) -> Option<u32>>(
    literal: Seq<char>,
    component: Seq<char>,
    metric: &M,
    r: Option<Congruence>,
)
    requires
        is_congruence(Some(literal), component, metric, r),
        r matches Some(Congruence::Subsequence(_)),
    ensures
        occurs_in_order(fold(literal), fold(component)),
{
    lemma_subsequence_embeds(fold(literal), fold(component));
}

/// The order of strengths is total: of two strengths exactly one precedes
/// the other, unless they are the same.
pub proof fn lemma_order_total(a: Congruence, b: Congruence)
    ensures
        a.precedes(b) || b.precedes(a) || a == b,
        !(a.precedes(b) && b.precedes(a)),
        !a.precedes(a),
        a.relation(b) == Ordering::Equal <==> a == b,
{
}

/// The order of strengths is transitive.
pub proof fn lemma_order_transitive(a: Congruence, b: Congruence, c: Congruence)
    requires
        a.precedes(b),
        b.precedes(c),
    ensures
        a.precedes(c),
{
}

/// A complete match precedes a prefix, a prefix precedes every subsequence,
/// a subsequence with a smaller coefficient precedes one with a greater
/// coefficient, and every one of them precedes the wildcard.
pub proof fn lemma_order_tiers(d1: u32, d2: u32)
    ensures
        Congruence::Complete.precedes(Congruence::Prefix),
        Congruence::Prefix.precedes(Congruence::Subsequence(d1)),
        Congruence::Subsequence(d1).precedes(Congruence::Wildcard),
        d1 < d2 <==> Congruence::Subsequence(d1).precedes(Congruence::Subsequence(d2)),
{
}

} // verus!
