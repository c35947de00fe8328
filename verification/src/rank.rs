//! The order in which found directories are offered: by the strengths of
//! their matches, fragment by fragment, and among equals by name.

use crate::text::{fold, to_lowercase};
use std::cmp::Ordering;
use vstd::prelude::*;

verus! {

/// The order that `alphanumeric_sort::compare_str` gives to two names.
pub uninterp spec fn natural_order(a: Seq<char>, b: Seq<char>) -> Ordering;

/// Calls `alphanumeric_sort::compare_str`, which compares two strings so
/// that runs of digits count by their value. The contract only names the
/// outcome.
#[verifier::external_body]
fn compare_names(a: &str, b: &str) -> (r: Ordering)
    ensures
        r == natural_order(a@, b@),
{
    alphanumeric_sort::compare_str(a, b)
}

/// What a candidate is ranked by, as the specifications see it.
pub struct StandingView {
    /// One pair for each fragment, in the order of the fragments: the tier
    /// of the match, then its distance within the tier.
    pub strengths: Seq<(int, int)>,
    /// The name of the directory.
    pub name: Seq<char>,
}

/// What a candidate is ranked by.
#[derive(Debug)]
pub struct Standing {
    /// One pair for each fragment, in the order of the fragments: the tier
    /// of the match, then its distance within the tier.
    pub strengths: Vec<(u8, usize)>,
    /// The name of the directory.
    pub name: String,
}

/// The pairs of a list of strengths as integers.
pub open spec fn pairs(strengths: Seq<(u8, usize)>) -> Seq<(int, int)> {
    Seq::new(strengths.len(), |i: int| (strengths[i].0 as int, strengths[i].1 as int))
}

impl View for Standing {
    type V = StandingView;

    open spec fn view(&self) -> StandingView {
        StandingView { strengths: pairs(self.strengths@), name: self.name@ }
    }
}

/// The views of a list of standings.
pub open spec fn standings(items: Seq<Standing>) -> Seq<StandingView> {
    Seq::new(items.len(), |i: int| items[i]@)
}

/// One pair comes strictly before another: the lower tier first, then the
/// smaller distance.
pub open spec fn pair_precedes(a: (int, int), b: (int, int)) -> bool {
    a.0 < b.0 || (a.0 == b.0 && a.1 < b.1)
}

/// One list of strengths comes strictly before another: the first pair in
/// which they differ decides, and a list comes before its extensions.
pub open spec fn strengths_precede(a: Seq<(int, int)>, b: Seq<(int, int)>) -> bool
    decreases a.len(),
{
    if b.len() == 0 {
        false
    } else if a.len() == 0 {
        true
    } else if pair_precedes(a[0], b[0]) {
        true
    } else if pair_precedes(b[0], a[0]) {
        false
    } else {
        strengths_precede(a.drop_first(), b.drop_first())
    }
}

/// Candidate `a` is offered before candidate `b`: its strengths come first,
/// or, where names count, the strengths are the same and its name comes
/// first without regard to ASCII case.
pub open spec fn stands_before(a: StandingView, b: StandingView, by_name: bool) -> bool {
    strengths_precede(a.strengths, b.strengths) || (by_name && a.strengths == b.strengths
        && natural_order(fold(a.name), fold(b.name)) == Ordering::Less)
}

/// The place at which a new candidate enters a ranking: before the first
/// candidate that it is offered before, or at the end.
pub open spec fn slot(
    places: Seq<int>,
    items: Seq<StandingView>,
    x: StandingView,
    by_name: bool,
) -> int
    decreases places.len(),
{
    if places.len() == 0 {
        0
    } else if stands_before(x, items[places[0]], by_name) {
        0
    } else {
        1 + slot(places.drop_first(), items, x, by_name)
    }
}

/// The ranking of a list of candidates: their indices, the best first.
/// Candidates enter one by one in the order of the list, each at its slot,
/// so that of two equals the earlier stays first.
pub open spec fn ranking(items: Seq<StandingView>, by_name: bool) -> Seq<int>
    decreases items.len(),
{
    if items.len() == 0 {
        Seq::empty()
    } else {
        let rest = ranking(items.drop_last(), by_name);
        let n = items.len() - 1;
        rest.insert(slot(rest, items, items[n], by_name), n)
    }
}

/// The indices of a list as integers.
pub open spec fn indices(places: Seq<usize>) -> Seq<int> {
    Seq::new(places.len(), |i: int| places[i] as int)
}

/// Exactly one of three holds of two lists of strengths: the first comes
/// before the second, the second before the first, or they are the same.
pub proof fn lemma_strengths_total(a: Seq<(int, int)>, b: Seq<(int, int)>)
    ensures
        !(strengths_precede(a, b) && strengths_precede(b, a)),
        strengths_precede(a, b) || strengths_precede(b, a) || a == b,
        !strengths_precede(a, a),
    decreases a.len(),
{
    if a.len() > 0 && b.len() > 0 {
        lemma_strengths_total(a.drop_first(), b.drop_first());
        if !pair_precedes(a[0], b[0]) && !pair_precedes(b[0], a[0]) {
            assert(a[0] == b[0]);
            if a.drop_first() == b.drop_first() {
                assert(a =~= seq![a[0]] + a.drop_first());
                assert(b =~= seq![b[0]] + b.drop_first());
            }
        }
    } else if a.len() == 0 && b.len() == 0 {
        assert(a =~= b);
    }
    if a.len() > 0 {
        lemma_strengths_total(a.drop_first(), a.drop_first());
    }
}

/// Coming before, among lists of strengths, is transitive.
pub proof fn lemma_strengths_transitive(
    a: Seq<(int, int)>,
    b: Seq<(int, int)>,
    c: Seq<(int, int)>,
)
    requires
        strengths_precede(a, b),
        strengths_precede(b, c),
    ensures
        strengths_precede(a, c),
    decreases a.len(),
{
    if a.len() > 0 && b.len() > 0 && c.len() > 0 {
        if !pair_precedes(a[0], b[0]) && !pair_precedes(b[0], c[0]) {
            lemma_strengths_transitive(a.drop_first(), b.drop_first(), c.drop_first());
        }
    }
}

/// Whether one list of strengths comes strictly before another.
pub fn strengths_before(a: &Vec<(u8, usize)>, b: &Vec<(u8, usize)>) -> (r: bool)
    ensures
        r == strengths_precede(pairs(a@), pairs(b@)),
{
    let ghost x = pairs(a@);
    let ghost y = pairs(b@);
    let mut i: usize = 0;
    assert(x.skip(0) =~= x && y.skip(0) =~= y);
    while i < a.len() && i < b.len()
        invariant
            i <= a.len(),
            i <= b.len(),
            x == pairs(a@),
            y == pairs(b@),
            strengths_precede(x, y) == strengths_precede(x.skip(i as int), y.skip(i as int)),
        decreases a.len() - i,
    {
        let p = a[i];
        let q = b[i];
        assert(x.skip(i as int)[0] == (p.0 as int, p.1 as int));
        assert(y.skip(i as int)[0] == (q.0 as int, q.1 as int));
        assert(x.skip(i as int).drop_first() =~= x.skip(i + 1));
        assert(y.skip(i as int).drop_first() =~= y.skip(i + 1));
        if p.0 < q.0 || (p.0 == q.0 && p.1 < q.1) {
            return true;
        }
        if q.0 < p.0 || (q.0 == p.0 && q.1 < p.1) {
            return false;
        }
        i += 1;
    }
    assert(x.skip(i as int).len() == a.len() - i);
    assert(y.skip(i as int).len() == b.len() - i);
    i < b.len()
}

/// Whether candidate `a` is offered before candidate `b`.
pub fn offered_before(a: &Standing, b: &Standing, by_name: bool) -> (r: bool)
    ensures
        r == stands_before(a@, b@, by_name),
{
    proof {
        lemma_strengths_total(a@.strengths, b@.strengths);
    }
    if strengths_before(&a.strengths, &b.strengths) {
        true
    } else if !by_name || strengths_before(&b.strengths, &a.strengths) {
        false
    } else {
        let x = to_lowercase(a.name.as_str());
        let y = to_lowercase(b.name.as_str());
        match compare_names(x.as_str(), y.as_str()) {
            Ordering::Less => true,
            _ => false,
        }
    }
}

/// A slot lies within the ranking or right after it.
pub proof fn lemma_slot_in_range(
    places: Seq<int>,
    items: Seq<StandingView>,
    x: StandingView,
    by_name: bool,
)
    ensures
        0 <= slot(places, items, x, by_name) <= places.len(),
    decreases places.len(),
{
    if places.len() > 0 {
        lemma_slot_in_range(places.drop_first(), items, x, by_name);
    }
}

/// A slot depends only on the candidates that the ranking names.
proof fn lemma_slot_local(
    places: Seq<int>,
    items: Seq<StandingView>,
    other: Seq<StandingView>,
    x: StandingView,
    by_name: bool,
)
    requires
        forall|k: int|
            0 <= k < places.len() ==> 0 <= #[trigger] places[k] < items.len() && places[k]
                < other.len() && items[places[k]] == other[places[k]],
    ensures
        slot(places, items, x, by_name) == slot(places, other, x, by_name),
    decreases places.len(),
{
    if places.len() > 0 {
        assert forall|k: int| 0 <= k < places.drop_first().len() implies 0
            <= #[trigger] places.drop_first()[k] < items.len() && places.drop_first()[k]
            < other.len() && items[places.drop_first()[k]] == other[places.drop_first()[k]] by {
            assert(places.drop_first()[k] == places[k + 1]);
        }
        lemma_slot_local(places.drop_first(), items, other, x, by_name);
    }
}

/// Before its slot a new candidate is offered before nobody; at its slot, if
/// the slot is no end, it is offered before the candidate that stands there.
pub proof fn lemma_slot_divides(
    places: Seq<int>,
    items: Seq<StandingView>,
    x: StandingView,
    by_name: bool,
)
    ensures
        forall|k: int|
            0 <= k < slot(places, items, x, by_name) ==> !stands_before(
                x,
                items[#[trigger] places[k]],
                by_name,
            ),
        slot(places, items, x, by_name) < places.len() ==> stands_before(
            x,
            items[places[slot(places, items, x, by_name)]],
            by_name,
        ),
    decreases places.len(),
{
    if places.len() > 0 && !stands_before(x, items[places[0]], by_name) {
        lemma_slot_divides(places.drop_first(), items, x, by_name);
        lemma_slot_in_range(places.drop_first(), items, x, by_name);
        let rest = slot(places.drop_first(), items, x, by_name);
        assert forall|k: int| 0 <= k < 1 + rest implies !stands_before(
            x,
            items[#[trigger] places[k]],
            by_name,
        ) by {
            if k > 0 {
                assert(places.drop_first()[k - 1] == places[k]);
            }
        }
        if rest < places.drop_first().len() {
            assert(places.drop_first()[rest] == places[rest + 1]);
        }
    }
}

/// What comes before something that does not come before a third comes
/// before the third.
pub proof fn lemma_strengths_chain(a: Seq<(int, int)>, b: Seq<(int, int)>, c: Seq<(int, int)>)
    requires
        strengths_precede(a, b),
        !strengths_precede(c, b),
    ensures
        strengths_precede(a, c),
{
    lemma_strengths_total(b, c);
    if b != c {
        lemma_strengths_transitive(a, b, c);
    }
}

/// A ranking is in the order of the strengths: no candidate stands behind
/// one whose strengths come after its own.
pub open spec fn in_order(places: Seq<int>, items: Seq<StandingView>) -> bool {
    forall|i: int, j: int|
        0 <= i < j < places.len() ==> !strengths_precede(
            items[#[trigger] places[j]].strengths,
            items[#[trigger] places[i]].strengths,
        )
}

/// A ranking names every candidate once.
pub open spec fn is_permutation(places: Seq<int>, n: int) -> bool {
    &&& places.len() == n
    &&& forall|k: int| 0 <= k < n ==> 0 <= #[trigger] places[k] < n
    &&& forall|i: int, j: int| 0 <= i < j < n ==> #[trigger] places[i] != #[trigger] places[j]
}

/// Candidates with the same strengths keep the order in which they came.
pub open spec fn is_stable(places: Seq<int>, items: Seq<StandingView>) -> bool {
    forall|i: int, j: int|
        0 <= i < j < places.len() && items[#[trigger] places[i]].strengths
            == items[#[trigger] places[j]].strengths ==> places[i] < places[j]
}

/// Every ranking names every candidate once and is in the order of the
/// strengths, whether names count or not.
pub proof fn lemma_ranking_sorted(items: Seq<StandingView>, by_name: bool)
    ensures
        is_permutation(ranking(items, by_name), items.len() as int),
        in_order(ranking(items, by_name), items),
    decreases items.len(),
{
    if items.len() > 0 {
        let shorter = items.drop_last();
        let rest = ranking(shorter, by_name);
        let n = items.len() - 1;
        let x = items[n];
        let p = slot(rest, items, x, by_name);
        let all = rest.insert(p, n);
        lemma_ranking_sorted(shorter, by_name);
        lemma_slot_in_range(rest, items, x, by_name);
        lemma_slot_divides(rest, items, x, by_name);
        assert forall|k: int| 0 <= k < rest.len() implies items[#[trigger] rest[k]]
            == shorter[rest[k]] by {}
        assert forall|i: int, j: int| 0 <= i < j < all.len() implies !strengths_precede(
            items[#[trigger] all[j]].strengths,
            items[#[trigger] all[i]].strengths,
        ) by {
            let a = items[all[i]].strengths;
            let b = items[all[j]].strengths;
            if j == p {
                // all[i] is before the slot: x is not offered before it.
                assert(all[i] == rest[i]);
                assert(!stands_before(x, items[rest[i]], by_name));
            } else if i == p {
                // all[j] is at or behind the slot.
                assert(all[j] == rest[j - 1]);
                let at = items[rest[p]].strengths;
                assert(stands_before(x, items[rest[p]], by_name));
                lemma_strengths_total(x.strengths, at);
                if strengths_precede(b, a) {
                    if j - 1 > p {
                        assert(!strengths_precede(items[rest[j - 1]].strengths, at)) by {
                            assert(shorter[rest[j - 1]] == items[rest[j - 1]]);
                            assert(shorter[rest[p]] == items[rest[p]]);
                        }
                    }
                    if x.strengths == at {
                        lemma_strengths_total(b, at);
                    } else {
                        lemma_strengths_total(b, at);
                        if b != at {
                            lemma_strengths_transitive(b, a, at);
                        }
                    }
                }
            } else {
                let i0 = if i < p {
                    i
                } else {
                    i - 1
                };
                let j0 = if j < p {
                    j
                } else {
                    j - 1
                };
                assert(all[i] == rest[i0] && all[j] == rest[j0]);
                assert(shorter[rest[i0]] == items[rest[i0]]);
                assert(shorter[rest[j0]] == items[rest[j0]]);
            }
        }
        assert forall|i: int, j: int| 0 <= i < j < all.len() implies #[trigger] all[i]
            != #[trigger] all[j] by {
            let i0 = if i < p {
                i
            } else {
                i - 1
            };
            let j0 = if j < p {
                j
            } else {
                j - 1
            };
            if i != p && j != p {
                assert(all[i] == rest[i0] && all[j] == rest[j0]);
            } else if i == p {
                assert(all[j] == rest[j0]);
            } else {
                assert(all[i] == rest[i0]);
            }
        }
        assert forall|k: int| 0 <= k < all.len() implies 0 <= #[trigger] all[k] < items.len() by {
            if k < p {
                assert(all[k] == rest[k]);
            } else if k > p {
                assert(all[k] == rest[k - 1]);
            }
        }
    }
}

/// Where names do not count, candidates with the same strengths keep the
/// order in which they came.
pub proof fn lemma_ranking_stable(items: Seq<StandingView>)
    ensures
        is_stable(ranking(items, false), items),
    decreases items.len(),
{
    if items.len() > 0 {
        let shorter = items.drop_last();
        let rest = ranking(shorter, false);
        let n = items.len() - 1;
        let x = items[n];
        let p = slot(rest, items, x, false);
        let all = rest.insert(p, n);
        lemma_ranking_stable(shorter);
        lemma_ranking_sorted(shorter, false);
        lemma_slot_in_range(rest, items, x, false);
        lemma_slot_divides(rest, items, x, false);
        assert forall|i: int, j: int|
            0 <= i < j < all.len() && items[#[trigger] all[i]].strengths
                == items[#[trigger] all[j]].strengths implies all[i] < all[j] by {
            if i == p {
                // Everything behind the slot has strengths that come after those of x.
                assert(all[j] == rest[j - 1]);
                assert(shorter[rest[j - 1]] == items[rest[j - 1]]);
                assert(shorter[rest[p]] == items[rest[p]]);
                lemma_strengths_total(x.strengths, items[rest[p]].strengths);
                if j - 1 > p {
                    lemma_strengths_chain(
                        x.strengths,
                        items[rest[p]].strengths,
                        items[rest[j - 1]].strengths,
                    );
                }
                lemma_strengths_total(x.strengths, items[rest[j - 1]].strengths);
            } else if j == p {
                assert(all[i] == rest[i]);
            } else {
                let i0 = if i < p {
                    i
                } else {
                    i - 1
                };
                let j0 = if j < p {
                    j
                } else {
                    j - 1
                };
                assert(all[i] == rest[i0] && all[j] == rest[j0]);
                assert(shorter[rest[i0]] == items[rest[i0]]);
                assert(shorter[rest[j0]] == items[rest[j0]]);
            }
        }
    }
}

/// Ranks a list of candidates: the indices of the list, the best first.
pub fn rank(items: &Vec<Standing>, by_name: bool) -> (places: Vec<usize>)
    ensures
        indices(places@) == ranking(standings(items@), by_name),
        places.len() == items.len(),
        forall|k: int| 0 <= k < places.len() ==> #[trigger] places@[k] < items.len(),
        is_permutation(indices(places@), items.len() as int),
        in_order(indices(places@), standings(items@)),
        !by_name ==> is_stable(indices(places@), standings(items@)),
{
    let ghost all = standings(items@);
    let mut places: Vec<usize> = Vec::new();
    let mut n: usize = 0;
    assert(all.take(0) =~= Seq::<StandingView>::empty());
    assert(indices(places@) =~= ranking(all.take(0), by_name));
    while n < items.len()
        invariant
            n <= items.len(),
            all == standings(items@),
            places.len() == n,
            indices(places@) == ranking(all.take(n as int), by_name),
            forall|k: int| 0 <= k < places.len() ==> #[trigger] places@[k] < n,
        decreases items.len() - n,
    {
        let ghost rest = indices(places@);
        let ghost x = all[n as int];
        let mut p: usize = 0;
        assert(rest.skip(0) =~= rest);
        while p < places.len() && !offered_before(&items[n], &items[places[p]], by_name)
            invariant
                p <= places.len(),
                n < items.len(),
                places.len() == n,
                all == standings(items@),
                rest == indices(places@),
                x == all[n as int],
                forall|k: int| 0 <= k < places.len() ==> #[trigger] places@[k] < n,
                slot(rest, all, x, by_name) == p + slot(rest.skip(p as int), all, x, by_name),
            decreases places.len() - p,
        {
            assert(rest.skip(p as int)[0] == places@[p as int]);
            assert(rest.skip(p as int).drop_first() =~= rest.skip(p + 1));
            p += 1;
        }
        proof {
            if p < places.len() {
                assert(rest.skip(p as int)[0] == places@[p as int]);
            }
            assert(slot(rest, all, x, by_name) == p);
            let prefix = all.take(n + 1);
            assert(prefix.drop_last() =~= all.take(n as int));
            assert(prefix.last() == x);
            assert forall|k: int| 0 <= k < rest.len() implies 0 <= #[trigger] rest[k]
                < all.len() && rest[k] < prefix.len() && all[rest[k]] == prefix[rest[k]] by {
                assert(rest[k] == places@[k]);
            }
            lemma_slot_local(rest, all, prefix, x, by_name);
        }
        places.insert(p, n);
        assert(indices(places@) =~= rest.insert(p as int, n as int));
        n += 1;
    }
    assert(all.take(items.len() as int) =~= all);
    proof {
        lemma_ranking_sorted(all, by_name);
        if !by_name {
            lemma_ranking_stable(all);
        }
    }
    places
}

} // verus!
