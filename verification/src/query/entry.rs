//! A directory on the way of a search, with the strengths of the matches
//! that led to it.

use crate::path::DirPath;
use crate::search::abbr::{congruence, Abbr, Congruence};
use crate::rank::{indices, rank, ranking, Standing};
use crate::search::{matching, standings_of, to_pairs, Reached};
use vstd::prelude::*;

verus! {

/// A directory and the strength of the match of each abbreviation that led
/// to it, in the order of the abbreviations.
#[derive(Debug)]
pub struct Entry {
    pub path: DirPath,
    pub congruence: Vec<Congruence>,
}

/// What follows from matching an entry against an abbreviation.
#[derive(Debug)]
pub enum Flow {
    /// The entry matches; here it is with the new strength added.
    Continue(Entry),
    /// The entry does not match.
    DeadEnd,
}

impl View for Entry {
    type V = Reached;

    open spec fn view(&self) -> Reached {
        Reached { path: self.path@, strengths: self.congruence@ }
    }
}

impl View for Flow {
    type V = Option<Reached>;

    open spec fn view(&self) -> Option<Reached> {
        match self {
            Flow::Continue(entry) => Some(entry@),
            Flow::DeadEnd => None,
        }
    }
}

/// The views of a list of entries.
pub open spec fn entry_views(entries: Seq<Entry>) -> Seq<Reached> {
    Seq::new(entries.len(), |i: int| entries[i]@)
}

/// An entry after one more abbreviation: the same directory with the
/// strength of the new match added, where its name matches.
pub open spec fn advanced(entry: Reached, abbr: Option<Seq<char>>) -> Option<Reached> {
    match matching(entry.path, abbr) {
        Some(strength) => Some(
            Reached { path: entry.path, strengths: entry.strengths.push(strength) },
        ),
        None => None,
    }
}

/// Those of the entries that match one more abbreviation, each with the
/// strength of the new match added, in their order.
pub open spec fn advanced_all(entries: Seq<Reached>, abbr: Option<Seq<char>>) -> Seq<Reached>
    decreases entries.len(),
{
    if entries.len() == 0 {
        Seq::empty()
    } else {
        let before = advanced_all(entries.drop_last(), abbr);
        match advanced(entries.last(), abbr) {
            Some(entry) => before.push(entry),
            None => before,
        }
    }
}

/// The entries in the order of their ranking: by strengths, and among
/// entries with the same strengths by name, without regard to ASCII case.
pub open spec fn ranked_entries(entries: Seq<Reached>) -> Seq<Reached> {
    let places = ranking(standings_of(entries), true);
    Seq::new(entries.len(), |i: int| entries[places[i]])
}

/// The entries that match one more abbreviation, the best first.
pub open spec fn suggestions(entries: Seq<Reached>, abbr: Option<Seq<char>>) -> Seq<Reached> {
    ranked_entries(advanced_all(entries, abbr))
}

/// Matches every entry against one more abbreviation and ranks those that
/// match by their strengths and, among equals, by name.
pub fn suggest(entries: &Vec<Entry>, abbr: &Abbr) -> (r: Vec<Entry>)
    ensures
        entry_views(r@) == suggestions(entry_views(entries@), abbr@),
{
    let ghost all = entry_views(entries@);
    let mut matching: Vec<Entry> = Vec::new();
    let mut i: usize = 0;
    assert(all.take(0) =~= Seq::<Reached>::empty());
    assert(entry_views(matching@) =~= Seq::<Reached>::empty());
    while i < entries.len()
        invariant
            i <= entries.len(),
            all == entry_views(entries@),
            entry_views(matching@) == advanced_all(all.take(i as int), abbr@),
        decreases entries.len() - i,
    {
        assert(all.take(i + 1).drop_last() =~= all.take(i as int));
        assert(all.take(i + 1).last() == entries@[i as int]@);
        let ghost before = entry_views(matching@);
        match entries[i].advance(abbr) {
            Flow::Continue(entry) => {
                let ghost added = entry@;
                matching.push(entry);
                assert(entry_views(matching@) =~= before.push(added));
            },
            Flow::DeadEnd => {},
        }
        i += 1;
    }
    assert(all.take(entries.len() as int) =~= all);
    rank_entries(&matching)
}

/// Ranks entries by their strengths and, among entries with the same
/// strengths, by name.
pub fn rank_entries(entries: &Vec<Entry>) -> (r: Vec<Entry>)
    ensures
        entry_views(r@) == ranked_entries(entry_views(entries@)),
{
    let ghost all = entry_views(entries@);
    let mut standings: Vec<Standing> = Vec::new();
    let mut i: usize = 0;
    while i < entries.len()
        invariant
            i <= entries.len(),
            all == entry_views(entries@),
            standings.len() == i,
            forall|k: int| 0 <= k < i ==> (#[trigger] standings@[k])@ == standings_of(all)[k],
        decreases entries.len() - i,
    {
        let name = match entries[i].path.file_name() {
            Some(name) => name,
            None => String::new(),
        };
        standings.push(Standing { strengths: to_pairs(&entries[i].congruence), name });
        i += 1;
    }
    assert(crate::rank::standings(standings@) =~= standings_of(all));
    let places = rank(&standings, true);
    let mut out: Vec<Entry> = Vec::new();
    let mut k: usize = 0;
    while k < places.len()
        invariant
            k <= places.len(),
            places.len() == entries.len(),
            all == entry_views(entries@),
            out.len() == k,
            indices(places@) == ranking(standings_of(all), true),
            forall|j: int| 0 <= j < places.len() ==> #[trigger] places@[j] < entries.len(),
            forall|j: int| 0 <= j < k ==> (#[trigger] out@[j])@ == ranked_entries(all)[j],
        decreases places.len() - k,
    {
        assert(indices(places@)[k as int] == places@[k as int]);
        out.push(entries[places[k]].clone());
        k += 1;
    }
    assert(entry_views(out@) =~= ranked_entries(all));
    out
}

impl Clone for Entry {
    fn clone(&self) -> (r: Self)
        ensures
            r@ == self@,
    {
        let mut strengths: Vec<Congruence> = Vec::new();
        let mut i: usize = 0;
        while i < self.congruence.len()
            invariant
                i <= self.congruence.len(),
                strengths@ == self.congruence@.take(i as int),
            decreases self.congruence.len() - i,
        {
            strengths.push(self.congruence[i]);
            assert(strengths@ =~= self.congruence@.take(i + 1));
            i += 1;
        }
        assert(self.congruence@.take(self.congruence.len() as int) =~= self.congruence@);
        Entry { path: self.path.clone(), congruence: strengths }
    }
}

impl Entry {
    /// An entry for a directory and the strengths that led to it.
    pub fn new(path: DirPath, congruence: Vec<Congruence>) -> (r: Self)
        ensures
            r.path == path,
            r.congruence == congruence,
    {
        Entry { path, congruence }
    }

    /// Matches the name of the directory against one more abbreviation.
    pub fn advance(&self, abbr: &Abbr) -> (r: Flow)
        ensures
            r@ == advanced(self@, abbr@),
    {
        let component = match self.path.file_name() {
            Some(component) => component,
            None => {
                return Flow::DeadEnd;
            },
        };
        match abbr.compare(component.as_str()) {
            Some(strength) => {
                let mut entry = self.clone();
                entry.congruence.push(strength);
                Flow::Continue(entry)
            },
            None => Flow::DeadEnd,
        }
    }
}

} // verus!
