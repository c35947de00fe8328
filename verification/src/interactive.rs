//! The state behind the interactive search: where the user stands, what has
//! been typed, and what is offered for it.

use crate::error::Error;
use crate::path::{path_views, DirPath, Part};
use crate::query::entry::{entry_views, Entry};
use crate::rank::{indices, rank, ranking, Standing};
use crate::search::abbr::{abbr_of, is_abbr_text, Abbr, Congruence};
use crate::search::fs::clone_paths;
use crate::search::{filter_paths, filtered, finding_views, standings_of, to_pairs, Reached};
use crate::text::{from_chars, to_chars};
use vstd::prelude::*;

pub mod search;
pub mod ui;

verus! {

/// A location as the specifications see it.
pub struct LocationView {
    pub root: Seq<Part>,
    pub history: Seq<Seq<Part>>,
}

/// Where the user stands: the directory in which the search began, and the
/// directories entered since, the latest last.
#[derive(Debug)]
pub struct Location {
    root: DirPath,
    history: Vec<DirPath>,
}

impl View for Location {
    type V = LocationView;

    closed spec fn view(&self) -> LocationView {
        LocationView { root: self.root@, history: path_views(self.history@) }
    }
}

impl LocationView {
    /// The directory in which the user stands.
    pub open spec fn path(self) -> Seq<Part> {
        if self.history.len() > 0 {
            self.history.last()
        } else {
            self.root
        }
    }

    /// The last two components of what leads from the root to the
    /// directory in which the user stands, or of that directory itself
    /// where the root does not lead to it.
    pub open spec fn suffix(self) -> Seq<Part> {
        let location = self.path();
        let relative = if self.root.is_prefix_of(location) {
            location.skip(self.root.len() as int)
        } else {
            location
        };
        if relative.len() > 2 {
            relative.skip(relative.len() - 2)
        } else {
            relative
        }
    }
}

impl Clone for Location {
    fn clone(&self) -> (r: Self)
        ensures
            r@ == self@,
    {
        Location { root: self.root.clone(), history: clone_paths(&self.history) }
    }
}

impl Location {
    /// The location at the root, with nothing entered.
    pub fn new(root: DirPath) -> (r: Self)
        ensures
            r@ == (LocationView { root: root@, history: Seq::empty() }),
    {
        let r = Location { root, history: Vec::new() };
        assert(path_views(r.history@) =~= Seq::<Seq<Part>>::empty());
        r
    }

    /// The directory in which the user stands.
    pub fn get_path(&self) -> (r: DirPath)
        ensures
            r@ == self@.path(),
    {
        let n = self.history.len();
        if n > 0 {
            assert(path_views(self.history@).last() == self.history@[n - 1]@);
            self.history[n - 1].clone()
        } else {
            self.root.clone()
        }
    }

    /// The end of the path from the root to where the user stands, two
    /// components at most.
    pub fn get_suffix(&self) -> (r: DirPath)
        ensures
            r@ == self@.suffix(),
    {
        let location = self.get_path();
        let root_len = self.root.len();
        let begins = location.starts_with(&self.root);
        let from: usize = if begins {
            root_len
        } else {
            0
        };
        let ghost relative = location@.skip(from as int);
        assert(!begins ==> relative =~= location@);
        let left = location.len() - from;
        let start: usize = if left > 2 {
            location.len() - 2
        } else {
            from
        };
        let mut out = DirPath::new();
        let mut k: usize = start;
        let end = location.len();
        assert(out@ =~= location@.subrange(start as int, k as int));
        while k < end
            invariant
                start <= k <= end,
                end == location@.len(),
                out@ == location@.subrange(start as int, k as int),
            decreases end - k,
        {
            out.push(location.components[k].clone());
            assert(out@ =~= location@.subrange(start as int, k + 1));
            k += 1;
        }
        assert(left > 2 ==> out@ =~= relative.skip(relative.len() - 2));
        assert(left <= 2 ==> out@ =~= relative);
        out
    }

    /// Leaves the directory entered last. Says whether there was one.
    pub fn pop(&mut self) -> (r: bool)
        ensures
            r == (old(self)@.history.len() > 0),
            final(self)@.root == old(self)@.root,
            final(self)@.history == if r {
                old(self)@.history.drop_last()
            } else {
                old(self)@.history
            },
    {
        let r = self.history.pop().is_some();
        assert(path_views(self.history@) =~= if r {
            path_views(old(self).history@).drop_last()
        } else {
            path_views(old(self).history@)
        });
        r
    }

    /// Enters a directory.
    pub fn push(&mut self, new_location: DirPath)
        ensures
            final(self)@.root == old(self)@.root,
            final(self)@.history == old(self)@.history.push(new_location@),
    {
        self.history.push(new_location);
        assert(path_views(self.history@) =~= path_views(old(self).history@).push(new_location@));
    }
}

/// What has been typed for the current directory, with the abbreviation
/// that it stands for. What is held is always an abbreviation.
#[derive(Debug)]
pub struct Filter {
    input: Option<(String, Abbr)>,
}

impl View for Filter {
    type V = Option<Seq<char>>;

    /// The text typed so far, if any.
    closed spec fn view(&self) -> Option<Seq<char>> {
        match self.input {
            Some((text, _)) => Some(text@),
            None => None,
        }
    }
}

/// The paths of the candidates in the order of their ranking, by strengths
/// and then by name.
pub open spec fn ranked_by_name(level: Seq<Reached>) -> Seq<Seq<Part>> {
    let places = ranking(standings_of(level), true);
    Seq::new(level.len(), |i: int| level[places[i]].path)
}

/// The candidates among the children of a directory: with something typed,
/// those whose names match it, each with the strength of its match; with
/// nothing typed, all of them.
pub open spec fn candidates(input: Option<Seq<char>>, children: Seq<Seq<Part>>) -> Seq<Reached> {
    match input {
        Some(text) => {
            let found = filtered(children, abbr_of(text));
            Seq::new(
                found.len(),
                |i: int| Reached { path: found[i].0, strengths: seq![found[i].1] },
            )
        },
        None => Seq::new(
            children.len(),
            |i: int| Reached { path: children[i], strengths: Seq::empty() },
        ),
    }
}

/// The paths of the candidates, ranked by strengths and then by name.
fn rank_by_name(list: &Vec<Entry>) -> (r: Vec<DirPath>)
    ensures
        path_views(r@) == ranked_by_name(entry_views(list@)),
{
    let ghost all = entry_views(list@);
    let mut standings: Vec<Standing> = Vec::new();
    let mut i: usize = 0;
    while i < list.len()
        invariant
            i <= list.len(),
            all == entry_views(list@),
            standings.len() == i,
            forall|k: int| 0 <= k < i ==> (#[trigger] standings@[k])@ == standings_of(all)[k],
        decreases list.len() - i,
    {
        let name = match list[i].path.file_name() {
            Some(name) => name,
            None => String::new(),
        };
        standings.push(Standing { strengths: to_pairs(&list[i].congruence), name });
        i += 1;
    }
    assert(crate::rank::standings(standings@) =~= standings_of(all));
    let places = rank(&standings, true);
    let mut out: Vec<DirPath> = Vec::new();
    let mut k: usize = 0;
    while k < places.len()
        invariant
            k <= places.len(),
            places.len() == list.len(),
            all == entry_views(list@),
            out.len() == k,
            indices(places@) == ranking(standings_of(all), true),
            forall|j: int| 0 <= j < places.len() ==> #[trigger] places@[j] < list.len(),
            forall|j: int| 0 <= j < k ==> (#[trigger] out@[j])@ == ranked_by_name(all)[j],
        decreases places.len() - k,
    {
        assert(indices(places@)[k as int] == places@[k as int]);
        out.push(list[places[k]].path.clone());
        k += 1;
    }
    assert(path_views(out@) =~= ranked_by_name(all));
    out
}

impl Filter {
    #[verifier::type_invariant]
    spec fn well_formed(self) -> bool {
        self.input matches Some((text, abbr)) ==> is_abbr_text(text@) && abbr@ == abbr_of(text@)
    }

    /// A filter with nothing typed.
    pub fn new() -> (r: Self)
        ensures
            r@ is None,
    {
        Filter { input: None }
    }

    /// Adds a character to what has been typed. Where the text is no
    /// abbreviation with it, the character is refused and nothing changes.
    pub fn push(&mut self, c: char) -> (r: Result<(), Error>)
        ensures
            is_abbr_text(Self::extended(old(self)@, c)) ==> r is Ok && final(self)@ == Some(
                Self::extended(old(self)@, c),
            ),
            !is_abbr_text(Self::extended(old(self)@, c)) ==> final(self)@ == old(self)@ && (
            r matches Err(Error::InvalidAbbr(text)) && text@ == Self::extended(old(self)@, c)),
    {
        proof {
            use_type_invariant(&*self);
        }
        let mut chars = match &self.input {
            Some((text, _)) => to_chars(text.as_str()),
            None => Vec::new(),
        };
        chars.push(c);
        assert(chars@ =~= Self::extended(self@, c));
        let text = from_chars(&chars);
        match Abbr::from_string(text.clone()) {
            Ok(abbr) => {
                self.input = Some((text, abbr));
                Ok(())
            },
            Err(error) => Err(error),
        }
    }

    /// The text typed so far with one more character.
    pub open spec fn extended(typed: Option<Seq<char>>, c: char) -> Seq<char> {
        match typed {
            Some(text) => text.push(c),
            None => seq![c],
        }
    }

    /// The text typed so far without its last character; nothing where that
    /// leaves no abbreviation.
    pub open spec fn shortened(typed: Option<Seq<char>>) -> Option<Seq<char>> {
        match typed {
            Some(text) => if text.len() > 0 && is_abbr_text(text.drop_last()) {
                Some(text.drop_last())
            } else {
                None
            },
            None => None,
        }
    }

    /// Removes the last character of what has been typed. Where that leaves
    /// no abbreviation, nothing is held any more.
    pub fn pop(&mut self)
        ensures
            final(self)@ == Self::shortened(old(self)@),
    {
        let mut chars = match &self.input {
            Some((text, _)) => to_chars(text.as_str()),
            None => {
                return ;
            },
        };
        if chars.len() == 0 {
            self.input = None;
            return ;
        }
        chars.pop();
        assert(chars@ =~= old(self)@->Some_0.drop_last());
        let text = from_chars(&chars);
        match Abbr::from_string(text.clone()) {
            Ok(abbr) => {
                self.input = Some((text, abbr));
            },
            Err(_) => {
                self.input = None;
            },
        }
    }

    /// Takes what has been typed out of the filter.
    pub fn take(&mut self) -> (r: Option<String>)
        ensures
            final(self)@ is None,
            match old(self)@ {
                Some(text) => r is Some && r->Some_0@ == text,
                None => r is None,
            },
    {
        let taken = match &self.input {
            Some((text, _)) => Some(text.clone()),
            None => None,
        };
        self.input = None;
        taken
    }

    /// What has been typed.
    pub fn get_input(&self) -> (r: Option<&String>)
        ensures
            match self@ {
                Some(text) => r is Some && r->Some_0@ == text,
                None => r is None,
            },
    {
        match &self.input {
            Some((text, _)) => Some(text),
            None => None,
        }
    }

    /// The children that are offered, the best first. With something typed
    /// those are the children whose names match it, ranked by the strength
    /// of the match and then by name; with nothing typed all children, by
    /// name.
    pub fn filter(&self, children: &Vec<DirPath>) -> (r: Vec<DirPath>)
        ensures
            path_views(r@) == ranked_by_name(candidates(self@, path_views(children@))),
    {
        proof {
            use_type_invariant(self);
        }
        let mut list: Vec<Entry> = Vec::new();
        match &self.input {
            Some((_, abbr)) => {
                let found = filter_paths(children, abbr);
                let ghost all = finding_views(found@);
                let mut i: usize = 0;
                while i < found.len()
                    invariant
                        i <= found.len(),
                        all == finding_views(found@),
                        list.len() == i,
                        forall|k: int|
                            0 <= k < i ==> (#[trigger] list@[k])@ == (Reached {
                                path: all[k].0,
                                strengths: seq![all[k].1],
                            }),
                    decreases found.len() - i,
                {
                    let mut strengths: Vec<Congruence> = Vec::new();
                    strengths.push(found[i].congruence);
                    assert(strengths@ =~= seq![found@[i as int].congruence]);
                    list.push(Entry { path: found[i].path.clone(), congruence: strengths });
                    i += 1;
                }
                assert(entry_views(list@) =~= candidates(self@, path_views(children@)));
            },
            None => {
                let mut i: usize = 0;
                while i < children.len()
                    invariant
                        i <= children.len(),
                        list.len() == i,
                        forall|k: int|
                            0 <= k < i ==> (#[trigger] list@[k])@ == (Reached {
                                path: children@[k]@,
                                strengths: Seq::empty(),
                            }),
                    decreases children.len() - i,
                {
                    list.push(Entry { path: children[i].clone(), congruence: Vec::new() });
                    i += 1;
                }
                assert(entry_views(list@) =~= candidates(self@, path_views(children@)));
            },
        }
        rank_by_name(&list)
    }
}

/// Backspace: removes the last character of what has been typed, and
/// leaves the location as it is; with nothing typed, leaves the directory
/// entered last.
pub fn handle_backspace(location: &mut Location, filter: &mut Filter)
    ensures
        final(filter)@ == Filter::shortened(old(filter)@),
        final(location)@.root == old(location)@.root,
        final(location)@.history == if old(filter)@ is None && old(location)@.history.len() > 0 {
            old(location)@.history.drop_last()
        } else {
            old(location)@.history
        },
{
    if filter.get_input().is_some() {
        filter.pop();
    } else {
        let _ = location.pop();
    }
}

/// Slash: enters the selected directory, if one is selected, and drops what
/// has been typed.
pub fn handle_slash(location: &mut Location, filter: &mut Filter, selected: Option<DirPath>)
    ensures
        final(location)@.root == old(location)@.root,
        match selected {
            Some(path) => final(filter)@ is None && final(location)@.history == old(
                location,
            )@.history.push(path@),
            None => final(filter)@ == old(filter)@ && final(location)@.history == old(
                location,
            )@.history,
        },
{
    if let Some(path) = selected {
        filter.take();
        location.push(path);
    }
}

/// Any other character: adds it to what has been typed.
pub fn handle_char(filter: &mut Filter, c: char) -> (r: Result<(), Error>)
    ensures
        is_abbr_text(Filter::extended(old(filter)@, c)) ==> r is Ok && final(filter)@ == Some(
            Filter::extended(old(filter)@, c),
        ),
        !is_abbr_text(Filter::extended(old(filter)@, c)) ==> final(filter)@ == old(filter)@ && (
        r matches Err(Error::InvalidAbbr(text)) && text@ == Filter::extended(old(filter)@, c)),
{
    filter.push(c)
}

} // verus!
