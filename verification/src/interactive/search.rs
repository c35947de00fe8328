//! The search that follows the user's typing: one segment after another,
//! each confirmed with a slash.

use crate::error::Error;
use crate::path::{file_name, parts, DirPath};
use crate::query::entry::{entry_views, suggest, suggestions, Entry};
use crate::query::search_engine::SearchEngine;
use crate::search::abbr::{abbr_of, is_abbr_text, Abbr};
use crate::search::{clone_strengths, Reached};
use crate::text::{from_chars, to_chars};
use vstd::prelude::*;
use vstd::string::StringExecFns;

verus! {

/// A confirmed segment as the specifications see it.
pub struct SegmentView {
    pub abbr: Option<Seq<char>>,
    pub entries: Seq<Reached>,
}

/// A confirmed segment: its abbreviation and the entries that matched it,
/// the best first.
#[derive(Debug)]
pub struct Segment {
    pub abbr: Abbr,
    pub entries: Vec<Entry>,
}

/// The state of a search as the specifications see it.
pub struct SearchView {
    /// What has been typed of the current segment.
    pub input: Seq<char>,
    /// The confirmed segments, the first one first.
    pub segments: Seq<SegmentView>,
    /// The directories against which the current segment is matched.
    pub current_level: Seq<Reached>,
}

/// The state of a search.
pub struct Search<E: SearchEngine> {
    engine: E,
    input: String,
    findings: Vec<Segment>,
    current_level: Vec<Entry>,
}

impl View for Segment {
    type V = SegmentView;

    open spec fn view(&self) -> SegmentView {
        SegmentView { abbr: self.abbr@, entries: entry_views(self.entries@) }
    }
}

/// The views of a list of segments.
pub open spec fn segment_views(segments: Seq<Segment>) -> Seq<SegmentView> {
    Seq::new(segments.len(), |i: int| segments[i]@)
}

impl<E: SearchEngine> View for Search<E> {
    type V = SearchView;

    closed spec fn view(&self) -> SearchView {
        SearchView {
            input: self.input@,
            segments: segment_views(self.findings@),
            current_level: entry_views(self.current_level@),
        }
    }
}

/// The children of the given entries, in their order, each with the
/// strengths of its parent.
pub open spec fn below_entries<E: SearchEngine>(engine: &E, entries: Seq<Reached>) -> Seq<Reached>
    decreases entries.len(),
{
    if entries.len() == 0 {
        Seq::empty()
    } else {
        let children = engine.children(entries.last().path);
        below_entries(engine, entries.drop_last()) + Seq::new(
            children.len(),
            |i: int| Reached { path: children[i], strengths: entries.last().strengths },
        )
    }
}

/// The entry at which every search begins: the current directory.
pub open spec fn origin() -> Reached {
    Reached { path: parts(seq!['.']), strengths: Seq::empty() }
}

/// The text of an abbreviation.
pub open spec fn abbr_text(abbr: Option<Seq<char>>) -> Seq<char> {
    match abbr {
        Some(literal) => literal,
        None => seq!['-'],
    }
}

/// The query as it is shown: the confirmed segments, each followed by a
/// slash, and what has been typed of the current one.
pub open spec fn shown(segments: Seq<SegmentView>, last: Seq<char>) -> Seq<char>
    decreases segments.len(),
{
    if segments.len() == 0 {
        last
    } else {
        abbr_text(segments[0].abbr) + seq!['/'] + shown(segments.drop_first(), last)
    }
}

/// The names of the directories that the confirmed segments led to: for
/// each segment the name of its best entry, where it has one.
pub open spec fn confirmed(segments: Seq<SegmentView>) -> Seq<Seq<char>>
    decreases segments.len(),
{
    if segments.len() == 0 {
        Seq::empty()
    } else {
        let before = confirmed(segments.drop_last());
        let entries = segments.last().entries;
        if entries.len() > 0 && file_name(entries[0].path) is Some {
            before.push(file_name(entries[0].path)->Some_0)
        } else {
            before
        }
    }
}

/// Whether a character is refused: a slash after a text that is no
/// abbreviation, or a character with which the text is none.
pub open spec fn refused(state: SearchView, c: char) -> bool {
    if c == '/' {
        state.input.len() > 0 && !is_abbr_text(state.input)
    } else {
        !is_abbr_text(state.input.push(c))
    }
}

/// Whether a character confirms the current segment.
pub open spec fn confirms(state: SearchView, c: char) -> bool {
    c == '/' && state.input.len() > 0 && is_abbr_text(state.input)
}

/// What is typed of the current segment after a character.
pub open spec fn input_after(state: SearchView, c: char) -> Seq<char> {
    if refused(state, c) {
        state.input
    } else if c == '/' {
        Seq::empty()
    } else {
        state.input.push(c)
    }
}

/// The confirmed segments after a character.
pub open spec fn segments_after(state: SearchView, c: char) -> Seq<SegmentView> {
    if confirms(state, c) {
        state.segments.push(
            SegmentView {
                abbr: abbr_of(state.input),
                entries: suggestions(state.current_level, abbr_of(state.input)),
            },
        )
    } else {
        state.segments
    }
}

/// The directories against which the current segment is matched after a
/// character: after a confirming slash the children of the entries that
/// matched.
pub open spec fn level_after<E: SearchEngine>(engine: &E, state: SearchView, c: char) -> Seq<
    Reached,
> {
    if confirms(state, c) {
        below_entries(engine, suggestions(state.current_level, abbr_of(state.input)))
    } else {
        state.current_level
    }
}

/// What is offered after a character: after a slash the entries of the
/// segment confirmed last, else the entries that match what is typed.
pub open spec fn offered(state: SearchView, c: char) -> Seq<Reached> {
    if c == '/' {
        let segments = segments_after(state, c);
        if segments.len() > 0 {
            segments.last().entries
        } else {
            Seq::empty()
        }
    } else {
        suggestions(state.current_level, abbr_of(state.input.push(c)))
    }
}

/// The state after a backspace: the last character of the current segment
/// is gone, or, where nothing is typed, the segment confirmed last.
pub open spec fn input_after_delete(state: SearchView) -> Seq<char> {
    if state.input.len() > 0 {
        state.input.drop_last()
    } else {
        state.input
    }
}

/// The confirmed segments after a backspace.
pub open spec fn segments_after_delete(state: SearchView) -> Seq<SegmentView> {
    if state.input.len() == 0 && state.segments.len() > 0 {
        state.segments.drop_last()
    } else {
        state.segments
    }
}

/// The directories against which the current segment is matched after a
/// backspace: where a segment was dropped, the children of the entries of
/// the segment before it, or of the current directory.
pub open spec fn level_after_delete<E: SearchEngine>(engine: &E, state: SearchView) -> Seq<
    Reached,
> {
    if state.input.len() == 0 {
        let left = segments_after_delete(state);
        if left.len() > 0 {
            below_entries(engine, left.last().entries)
        } else {
            below_entries(engine, seq![origin()])
        }
    } else {
        state.current_level
    }
}

/// A copy of a list of entries.
fn clone_entries(entries: &Vec<Entry>) -> (r: Vec<Entry>)
    ensures
        entry_views(r@) == entry_views(entries@),
{
    let mut out: Vec<Entry> = Vec::new();
    let mut i: usize = 0;
    while i < entries.len()
        invariant
            i <= entries.len(),
            out.len() == i,
            forall|k: int| 0 <= k < i ==> (#[trigger] out@[k])@ == entries@[k]@,
        decreases entries.len() - i,
    {
        out.push(entries[i].clone());
        i += 1;
    }
    assert(entry_views(out@) =~= entry_views(entries@));
    out
}

/// The children of one entry, each with the strengths of the entry.
fn children_of<E: SearchEngine>(engine: &E, entry: &Entry) -> (r: Vec<Entry>)
    ensures
        engine.is_fixed() ==> entry_views(r@) == Seq::new(
            engine.children(entry.path@).len(),
            |j: int|
                Reached { path: engine.children(entry.path@)[j], strengths: entry.congruence@ },
        ),
{
    let children = engine.read_dir(&entry.path);
    let mut out: Vec<Entry> = Vec::new();
    let mut k: usize = 0;
    while k < children.len()
        invariant
            k <= children.len(),
            out.len() == k,
            forall|j: int|
                0 <= j < k ==> (#[trigger] out@[j])@ == (Reached {
                    path: children@[j]@,
                    strengths: entry.congruence@,
                }),
        decreases children.len() - k,
    {
        out.push(
            Entry { path: children[k].clone(), congruence: clone_strengths(&entry.congruence) },
        );
        k += 1;
    }
    assert(engine.is_fixed() ==> entry_views(out@) =~= Seq::new(
        engine.children(entry.path@).len(),
        |j: int| Reached { path: engine.children(entry.path@)[j], strengths: entry.congruence@ },
    ));
    out
}

/// The children of the given entries, each with the strengths of its
/// parent.
fn descend<E: SearchEngine>(engine: &E, entries: &Vec<Entry>) -> (r: Vec<Entry>)
    ensures
        engine.is_fixed() ==> entry_views(r@) == below_entries(engine, entry_views(entries@)),
{
    let ghost all = entry_views(entries@);
    let mut out: Vec<Entry> = Vec::new();
    let mut i: usize = 0;
    assert(all.take(0) =~= Seq::<Reached>::empty());
    assert(entry_views(out@) =~= Seq::<Reached>::empty());
    while i < entries.len()
        invariant
            i <= entries.len(),
            all == entry_views(entries@),
            engine.is_fixed() ==> entry_views(out@) == below_entries(engine, all.take(i as int)),
        decreases entries.len() - i,
    {
        assert(all.take(i + 1).drop_last() =~= all.take(i as int));
        assert(all.take(i + 1).last() == entries@[i as int]@);
        let ghost before = entry_views(out@);
        let mut children = children_of(engine, &entries[i]);
        let ghost added = entry_views(children@);
        out.append(&mut children);
        assert(entry_views(out@) =~= before + added);
        i += 1;
    }
    assert(all.take(entries.len() as int) =~= all);
    out
}

/// The text of an abbreviation, as it is shown.
fn text_of(abbr: &Abbr) -> (r: String)
    ensures
        r@ == abbr_text(abbr@),
{
    proof {
        reveal_strlit("-");
    }
    match abbr {
        Abbr::Literal(literal) => literal.clone(),
        Abbr::Wildcard => {
            assert("-"@ =~= seq!['-']);
            String::from_str("-")
        },
    }
}

/// The query as it is shown: the confirmed segments, each followed by a
/// slash, and what has been typed of the current one.
pub fn print_abbr(segments: &Vec<Segment>, last: &str) -> (r: String)
    ensures
        r@ == shown(segment_views(segments@), last@),
{
    let ghost all = segment_views(segments@);
    let mut out = String::from_str(last);
    let mut i: usize = segments.len();
    assert(all.skip(i as int) =~= Seq::<SegmentView>::empty());
    while i > 0
        invariant
            i <= segments.len(),
            all == segment_views(segments@),
            out@ == shown(all.skip(i as int), last@),
        decreases i,
    {
        i -= 1;
        assert(all.skip(i as int)[0] == segments@[i as int]@);
        assert(all.skip(i as int).drop_first() =~= all.skip(i + 1));
        let mut head = text_of(&segments[i].abbr);
        head.append("/");
        proof {
            reveal_strlit("/");
        }
        assert("/"@ =~= seq!['/']);
        head.append(out.as_str());
        out = head;
    }
    assert(all.skip(0) =~= all);
    out
}

/// The names of the directories that the confirmed segments led to.
fn location_of(segments: &Vec<Segment>) -> (r: Vec<String>)
    ensures
        crate::text::views(r@) == confirmed(segment_views(segments@)),
{
    let ghost all = segment_views(segments@);
    let mut out: Vec<String> = Vec::new();
    let mut i: usize = 0;
    assert(all.take(0) =~= Seq::<SegmentView>::empty());
    assert(crate::text::views(out@) =~= Seq::<Seq<char>>::empty());
    while i < segments.len()
        invariant
            i <= segments.len(),
            all == segment_views(segments@),
            crate::text::views(out@) == confirmed(all.take(i as int)),
        decreases segments.len() - i,
    {
        assert(all.take(i + 1).drop_last() =~= all.take(i as int));
        assert(all.take(i + 1).last() == segments@[i as int]@);
        let ghost before = crate::text::views(out@);
        if segments[i].entries.len() > 0 {
            assert(entry_views(segments@[i as int].entries@)[0] == segments@[i as int].entries@[0]@);
            if let Some(name) = segments[i].entries[0].path.file_name() {
                let ghost added = name@;
                out.push(name);
                assert(crate::text::views(out@) =~= before.push(added));
            }
        }
        i += 1;
    }
    assert(all.take(segments.len() as int) =~= all);
    out
}

impl<E: SearchEngine> Search<E> {
    /// The engine that lists the directories.
    pub closed spec fn engine(&self) -> &E {
        &self.engine
    }

    /// A search in the current directory with nothing typed.
    pub fn new(engine: E) -> (r: Self)
        ensures
            *r.engine() == engine,
            r@.input == Seq::<char>::empty(),
            r@.segments == Seq::<SegmentView>::empty(),
            engine.is_fixed() ==> r@.current_level == below_entries(&engine, seq![origin()]),
    {
        proof {
            reveal_strlit(".");
        }
        assert("."@ =~= seq!['.']);
        let mut start: Vec<Entry> = Vec::new();
        start.push(Entry::new(DirPath::parse("."), Vec::new()));
        assert(entry_views(start@) =~= seq![origin()]);
        let current_level = descend(&engine, &start);
        let r = Search { engine, input: String::new(), findings: Vec::new(), current_level };
        assert(segment_views(r.findings@) =~= Seq::<SegmentView>::empty());
        r
    }

    /// Takes one typed character. A slash confirms the current segment:
    /// the entries that match it are kept, and the next segment is matched
    /// against their children. Any other character is added to the current
    /// segment. A character with which the segment is no abbreviation is
    /// refused, and nothing changes.
    ///
    /// Returns the names of the directories that the confirmed segments led
    /// to, what is typed of the current segment, and the entries that are
    /// offered, the best first.
    pub fn consume_char(&mut self, c: char) -> (r: Result<(Vec<String>, String, Vec<Entry>), Error>)
        ensures
            final(self).engine() == old(self).engine(),
            final(self)@.input == input_after(old(self)@, c),
            final(self)@.segments == segments_after(old(self)@, c),
            !confirms(old(self)@, c) ==> final(self)@.current_level == old(self)@.current_level,
            old(self).engine().is_fixed() ==> final(self)@.current_level == level_after(
                old(self).engine(),
                old(self)@,
                c,
            ),
            r is Err <==> refused(old(self)@, c),
            r matches Err(error) ==> (error matches Error::InvalidAbbr(text) && text@ == if c
                == '/' {
                old(self)@.input
            } else {
                old(self)@.input.push(c)
            }),
            r matches Ok((location, input, entries)) ==> crate::text::views(location@)
                == confirmed(final(self)@.segments) && input@ == final(self)@.input && entry_views(
                entries@,
            ) == offered(old(self)@, c),
    {
        let entries = if c == '/' {
            if self.input.as_str().unicode_len() > 0 {
                let abbr = match Abbr::from_string(self.input.clone()) {
                    Ok(abbr) => abbr,
                    Err(error) => {
                        return Err(error);
                    },
                };
                let matching = suggest(&self.current_level, &abbr);
                self.current_level = descend(&self.engine, &matching);
                self.input = String::new();
                let ghost before = segment_views(self.findings@);
                let ghost added = (SegmentView { abbr: abbr@, entries: entry_views(matching@) });
                self.findings.push(Segment { abbr, entries: matching });
                assert(segment_views(self.findings@) =~= before.push(added));
            }
            let n = self.findings.len();
            if n > 0 {
                assert(segment_views(self.findings@).last() == self.findings@[n - 1]@);
                clone_entries(&self.findings[n - 1].entries)
            } else {
                let none: Vec<Entry> = Vec::new();
                assert(entry_views(none@) =~= Seq::<Reached>::empty());
                none
            }
        } else {
            let mut chars = to_chars(self.input.as_str());
            chars.push(c);
            let text = from_chars(&chars);
            let abbr = match Abbr::from_string(text.clone()) {
                Ok(abbr) => abbr,
                Err(error) => {
                    return Err(error);
                },
            };
            self.input = text;
            suggest(&self.current_level, &abbr)
        };
        let location = location_of(&self.findings);
        Ok((location, self.input.clone(), entries))
    }

    /// The directory that the search has found: the best entry for what is
    /// typed of the current segment; none where nothing matches or what is
    /// typed is no abbreviation.
    pub fn get_path(&self) -> (r: Option<DirPath>)
        ensures
            match r {
                Some(path) => is_abbr_text(self@.input) && suggestions(
                    self@.current_level,
                    abbr_of(self@.input),
                ).len() > 0 && path@ == suggestions(
                    self@.current_level,
                    abbr_of(self@.input),
                )[0].path,
                None => !is_abbr_text(self@.input) || suggestions(
                    self@.current_level,
                    abbr_of(self@.input),
                ).len() == 0,
            },
    {
        let abbr = match Abbr::from_string(self.input.clone()) {
            Ok(abbr) => abbr,
            Err(_) => {
                return None;
            },
        };
        let entries = suggest(&self.current_level, &abbr);
        if entries.len() > 0 {
            assert(entry_views(entries@)[0] == entries@[0]@);
            Some(entries[0].path.clone())
        } else {
            assert(entry_views(entries@).len() == 0);
            None
        }
    }

    /// Backspace. Removes the last character of the current segment. Where
    /// nothing is typed, the segment confirmed last is dropped, and the
    /// current segment is matched against what that one was matched
    /// against. Returns the query as it is shown.
    pub fn delete(&mut self) -> (r: (String, Vec<Entry>))
        ensures
            final(self).engine() == old(self).engine(),
            final(self)@.input == input_after_delete(old(self)@),
            final(self)@.segments == segments_after_delete(old(self)@),
            old(self)@.input.len() > 0 ==> final(self)@.current_level == old(
                self,
            )@.current_level,
            old(self).engine().is_fixed() ==> final(self)@.current_level == level_after_delete(
                old(self).engine(),
                old(self)@,
            ),
            r.0@ == shown(final(self)@.segments, final(self)@.input),
            r.1.len() == 0,
    {
        proof {
            reveal_strlit(".");
        }
        let mut chars = to_chars(self.input.as_str());
        if chars.len() == 0 {
            let ghost before = segment_views(self.findings@);
            let dropped = self.findings.pop();
            assert(segment_views(self.findings@) =~= if dropped is Some {
                before.drop_last()
            } else {
                before
            });
            let n = self.findings.len();
            if n > 0 {
                assert(segment_views(self.findings@).last() == self.findings@[n - 1]@);
                self.current_level = descend(&self.engine, &self.findings[n - 1].entries);
            } else {
                assert("."@ =~= seq!['.']);
                let mut start: Vec<Entry> = Vec::new();
                start.push(Entry::new(DirPath::parse("."), Vec::new()));
                assert(entry_views(start@) =~= seq![origin()]);
                self.current_level = descend(&self.engine, &start);
            }
        } else {
            chars.pop();
            assert(chars@ =~= old(self)@.input.drop_last());
            self.input = from_chars(&chars);
        }
        let input = print_abbr(&self.findings, self.input.as_str());
        (input, Vec::new())
    }
}

} // verus!
