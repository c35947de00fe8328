//! The pages on which suggestions are shown, and the selection that moves
//! through them.

use crate::path::{file_name, DirPath, Part};
use unicode_width::UnicodeWidthStr;
use vstd::prelude::*;

verus! {

/// The number of columns that a text takes on the terminal, as the crate
/// `unicode_width` counts them.
pub uninterp spec fn columns(text: Seq<char>) -> usize;

/// Calls `unicode_width::UnicodeWidthStr::width` on the text, which gives
/// the displayed width of the text in columns. The contract only names that
/// number.
#[verifier::external_body]
fn display_width(text: &str) -> (r: usize)
    ensures
        r == columns(text@),
{
    text.width()
}

/// What separates two suggestions on a page.
pub open spec fn separator() -> Seq<char> {
    "  "@
}

/// The number of decimal digits of a number.
pub open spec fn digits(n: nat) -> nat
    decreases n,
{
    if n < 10 {
        1
    } else {
        1 + digits(n / 10)
    }
}

/// The columns that the number of a page takes when it is shown in
/// brackets.
pub open spec fn message_space(ix: nat) -> nat {
    digits(ix) + 2
}

/// The columns that are left for suggestions on a line of `space` columns
/// when the number of the page is shown, where `pages` pages exist.
pub open spec fn room(space: nat, pages: nat) -> nat {
    if space >= message_space(pages) {
        (space - message_space(pages)) as nat
    } else {
        0
    }
}

/// The columns that a suggestion takes with the separator before it.
pub open spec fn cost(name: Seq<char>) -> nat {
    (columns(separator()) + columns(name)) as nat
}

/// The pages while they are laid out.
pub struct Layout {
    /// For each page the index of its first suggestion.
    pub starts: Seq<int>,
    /// The columns taken on the last page.
    pub width: nat,
    /// The columns that the last page has.
    pub space: nat,
}

/// The pages for a list of names on lines of `space` columns. The names
/// are laid out in order; a name that does not fit on the page begins the
/// next one.
pub open spec fn laid_out(names: Seq<Seq<char>>, space: nat) -> Layout
    decreases names.len(),
{
    if names.len() == 0 {
        Layout { starts: seq![0int], width: 0, space: room(space, 1) }
    } else {
        let before = laid_out(names.drop_last(), space);
        let added = cost(names.last());
        if before.width + added > before.space {
            Layout {
                starts: before.starts.push(names.len() - 1),
                width: added,
                space: room(space, before.starts.len() + 1),
            }
        } else {
            Layout { starts: before.starts, width: before.width + added, space: before.space }
        }
    }
}

/// The page on which a suggestion stands: the first page that begins at or
/// before it and is followed by a page that begins after it; the last page
/// where there is none.
pub open spec fn page_of(starts: Seq<int>, selected: int, from: int) -> int
    decreases starts.len() - from,
{
    if from < 0 || from + 1 >= starts.len() {
        starts.len() - 1
    } else if starts[from] <= selected < starts[from + 1] {
        from
    } else {
        page_of(starts, selected, from + 1)
    }
}

/// A suggestion: a path and its name.
#[derive(Debug)]
pub struct Suggestion {
    pub path: DirPath,
    pub file_name: String,
}

/// A page: the index of its first suggestion.
#[derive(Copy, Clone, Debug)]
pub struct Page {
    pub start_ix: usize,
}

/// The pages as the specifications see them.
pub struct PagesView {
    pub starts: Seq<int>,
    /// The paths of the suggestions.
    pub paths: Seq<Seq<Part>>,
    /// The names of the suggestions.
    pub names: Seq<Seq<char>>,
    pub suggestion_ix: int,
    pub page_ix: int,
}

/// The suggestions on their pages, with one suggestion selected. There is
/// at least one suggestion, and the selected page is the one on which the
/// selected suggestion stands.
#[derive(Debug)]
pub struct Pages {
    pages: Vec<Page>,
    suggestions: Vec<Suggestion>,
    /// The index of the selected suggestion, and that of its page.
    selected: (usize, usize),
}

/// The starts of a list of pages.
pub open spec fn starts_of(pages: Seq<Page>) -> Seq<int> {
    Seq::new(pages.len(), |i: int| pages[i].start_ix as int)
}

/// The names of a list of suggestions.
pub open spec fn names_of(suggestions: Seq<Suggestion>) -> Seq<Seq<char>> {
    Seq::new(suggestions.len(), |i: int| suggestions[i].file_name@)
}

/// The paths of a list of suggestions.
pub open spec fn paths_of(suggestions: Seq<Suggestion>) -> Seq<Seq<Part>> {
    Seq::new(suggestions.len(), |i: int| suggestions[i].path@)
}

/// Those of the paths that have a name, in their order.
pub open spec fn named(paths: Seq<Seq<Part>>) -> Seq<Seq<Part>>
    decreases paths.len(),
{
    if paths.len() == 0 {
        Seq::empty()
    } else if file_name(paths.last()) is Some {
        named(paths.drop_last()).push(paths.last())
    } else {
        named(paths.drop_last())
    }
}

/// Pages are laid out well for `n` suggestions: there is a page, the first
/// page begins with the first suggestion, no page begins before the one
/// before it, and every page begins with a suggestion.
pub open spec fn well_laid(starts: Seq<int>, n: int) -> bool {
    &&& starts.len() > 0
    &&& starts[0] == 0
    &&& forall|i: int, j: int| 0 <= i <= j < starts.len() ==> starts[i] <= starts[j]
    &&& forall|i: int| 0 <= i < starts.len() ==> 0 <= #[trigger] starts[i] < n
}

/// The layout of at least one name is well laid.
pub proof fn lemma_laid_out_well(names: Seq<Seq<char>>, space: nat)
    ensures
        laid_out(names, space).starts.len() > 0,
        laid_out(names, space).starts[0] == 0,
        forall|i: int, j: int|
            0 <= i <= j < laid_out(names, space).starts.len() ==> laid_out(names, space).starts[i]
                <= laid_out(names, space).starts[j],
        forall|i: int|
            0 <= i < laid_out(names, space).starts.len() ==> 0 <= #[trigger] laid_out(
                names,
                space,
            ).starts[i] <= names.len(),
        forall|i: int|
            0 < i < laid_out(names, space).starts.len() ==> #[trigger] laid_out(
                names,
                space,
            ).starts[i] < names.len(),
    decreases names.len(),
{
    if names.len() > 0 {
        lemma_laid_out_well(names.drop_last(), space);
    }
}

/// The columns that the number of a page takes when it is shown in
/// brackets: two more than its digits.
pub fn page_ix_message_space(ix: usize) -> (r: usize)
    ensures
        r == message_space(ix as nat),
{
    let mut n_digits: usize = 1;
    let mut rest: usize = ix;
    while rest >= 10
        invariant
            1 <= n_digits,
            digits(ix as nat) == n_digits - 1 + digits(rest as nat),
            9 * n_digits + rest <= ix + 9,
        decreases rest,
    {
        rest = rest / 10;
        n_digits += 1;
    }
    n_digits + 2
}

impl View for Pages {
    type V = PagesView;

    closed spec fn view(&self) -> PagesView {
        PagesView {
            starts: starts_of(self.pages@),
            paths: paths_of(self.suggestions@),
            names: names_of(self.suggestions@),
            suggestion_ix: self.selected.0 as int,
            page_ix: self.selected.1 as int,
        }
    }
}

impl PagesView {
    /// What always holds of pages.
    pub open spec fn well_formed(self) -> bool {
        &&& self.names.len() == self.paths.len()
        &&& self.paths.len() > 0
        &&& well_laid(self.starts, self.paths.len() as int)
        &&& 0 <= self.suggestion_ix < self.paths.len()
        &&& self.page_ix == page_of(self.starts, self.suggestion_ix, 0)
    }

    /// The pages with another suggestion selected.
    pub open spec fn select(self, suggestion_ix: int) -> PagesView {
        PagesView {
            suggestion_ix,
            page_ix: page_of(self.starts, suggestion_ix, 0),
            ..self
        }
    }
}

/// The page of a suggestion lies among the pages, and where the pages are
/// well laid it begins at or before the suggestion.
pub proof fn lemma_page_of(starts: Seq<int>, selected: int, from: int)
    requires
        starts.len() > 0,
        0 <= from < starts.len(),
    ensures
        from <= page_of(starts, selected, from) < starts.len(),
    decreases starts.len() - from,
{
    if from + 1 < starts.len() && !(starts[from] <= selected < starts[from + 1]) {
        lemma_page_of(starts, selected, from + 1);
    }
}

impl Pages {
    #[verifier::type_invariant]
    spec fn holds(self) -> bool {
        &&& self.suggestions.len() > 0
        &&& well_laid(starts_of(self.pages@), self.suggestions.len() as int)
        &&& self.selected.0 < self.suggestions.len()
        &&& self.selected.1 == page_of(starts_of(self.pages@), self.selected.0 as int, 0)
    }

    /// The suggestions for the paths that have a name, in their order.
    pub fn prepare_suggestions(suggestions: Vec<DirPath>) -> (r: Vec<Suggestion>)
        ensures
            paths_of(r@) == named(crate::path::path_views(suggestions@)),
            forall|k: int|
                0 <= k < r.len() ==> file_name((#[trigger] r@[k]).path@) == Some(
                    r@[k].file_name@,
                ),
    {
        let ghost all = crate::path::path_views(suggestions@);
        let mut out: Vec<Suggestion> = Vec::new();
        let mut i: usize = 0;
        assert(all.take(0) =~= Seq::<Seq<Part>>::empty());
        assert(paths_of(out@) =~= Seq::<Seq<Part>>::empty());
        while i < suggestions.len()
            invariant
                i <= suggestions.len(),
                all == crate::path::path_views(suggestions@),
                paths_of(out@) == named(all.take(i as int)),
                forall|k: int|
                    0 <= k < out.len() ==> file_name((#[trigger] out@[k]).path@) == Some(
                        out@[k].file_name@,
                    ),
            decreases suggestions.len() - i,
        {
            assert(all.take(i + 1).drop_last() =~= all.take(i as int));
            assert(all.take(i + 1).last() == suggestions@[i as int]@);
            let ghost before = paths_of(out@);
            if let Some(name) = suggestions[i].file_name() {
                out.push(Suggestion { path: suggestions[i].clone(), file_name: name });
                assert(paths_of(out@) =~= before.push(suggestions@[i as int]@));
            }
            i += 1;
        }
        assert(all.take(suggestions.len() as int) =~= all);
        out
    }

    /// Lays the suggestions out on pages of `space` columns.
    pub fn build_pages(suggestions: &Vec<Suggestion>, space: usize) -> (r: Vec<Page>)
        ensures
            starts_of(r@) == laid_out(names_of(suggestions@), space as nat).starts,
    {
        let ghost names = names_of(suggestions@);
        let separator_width = display_width("  ");
        let mut page_width: u128 = 0;
        let mut pages: Vec<Page> = Vec::new();
        pages.push(Page { start_ix: 0 });
        let shown = page_ix_message_space(pages.len());
        let mut page_space: usize = if space >= shown {
            space - shown
        } else {
            0
        };
        let mut i: usize = 0;
        assert(names.take(0) =~= Seq::<Seq<char>>::empty());
        assert(starts_of(pages@) =~= seq![0int]);
        while i < suggestions.len()
            invariant
                i <= suggestions.len(),
                names == names_of(suggestions@),
                separator_width == columns(separator()),
                starts_of(pages@) == laid_out(names.take(i as int), space as nat).starts,
                page_width == laid_out(names.take(i as int), space as nat).width,
                page_space == laid_out(names.take(i as int), space as nat).space,
                page_width <= 3 * usize::MAX,
                pages.len() <= i + 1,
            decreases suggestions.len() - i,
        {
            assert(names.take(i + 1).drop_last() =~= names.take(i as int));
            assert(names.take(i + 1).last() == suggestions@[i as int].file_name@);
            let ghost before = starts_of(pages@);
            let name_width = display_width(suggestions[i].file_name.as_str());
            let delta_width: u128 = separator_width as u128 + name_width as u128;
            let new_width: u128 = page_width + delta_width;
            if new_width > page_space as u128 {
                pages.push(Page { start_ix: i });
                assert(starts_of(pages@) =~= before.push(i as int));
                page_width = delta_width;
                let shown = page_ix_message_space(pages.len());
                page_space = if space >= shown {
                    space - shown
                } else {
                    0
                };
            } else {
                page_width = new_width;
            }
            i += 1;
        }
        assert(names.take(suggestions.len() as int) =~= names);
        pages
    }

    /// The page on which a suggestion stands.
    pub fn find_selected_page(selected_ix: usize, pages: &Vec<Page>) -> (r: usize)
        requires
            pages.len() > 0,
        ensures
            r == page_of(starts_of(pages@), selected_ix as int, 0),
            r < pages.len(),
    {
        let ghost starts = starts_of(pages@);
        let mut i: usize = 0;
        while i + 1 < pages.len()
            invariant
                i < pages.len(),
                starts == starts_of(pages@),
                page_of(starts, selected_ix as int, 0) == page_of(
                    starts,
                    selected_ix as int,
                    i as int,
                ),
            decreases pages.len() - i,
        {
            assert(starts[i as int] == pages@[i as int].start_ix);
            assert(starts[i + 1] == pages@[i + 1].start_ix);
            if pages[i].start_ix <= selected_ix && selected_ix < pages[i + 1].start_ix {
                return i;
            }
            i += 1;
        }
        pages.len() - 1
    }

    /// The pages for the suggestions that have a name, on lines of `width`
    /// columns, with the first suggestion selected. `None` where no
    /// suggestion has a name.
    pub fn new(suggestions: Vec<DirPath>, width: usize) -> (r: Option<Self>)
        ensures
            match r {
                Some(pages) => pages@.well_formed() && pages@.paths == named(
                    crate::path::path_views(suggestions@),
                ) && pages@.starts == laid_out(pages@.names, width as nat).starts
                    && pages@.suggestion_ix == 0,
                None => named(crate::path::path_views(suggestions@)).len() == 0,
            },
    {
        let suggestions = Self::prepare_suggestions(suggestions);
        assert(paths_of(suggestions@).len() == suggestions.len());
        if suggestions.len() == 0 {
            return None;
        }
        let pages = Self::build_pages(&suggestions, width);
        proof {
            lemma_laid_out_well(names_of(suggestions@), width as nat);
            let starts = starts_of(pages@);
            assert forall|i: int| 0 <= i < starts.len() implies 0 <= #[trigger] starts[i]
                < suggestions.len() by {
                if i == 0 {
                } else {
                    assert(laid_out(names_of(suggestions@), width as nat).starts[i]
                        < names_of(suggestions@).len());
                }
            }
        }
        let page_ix = Self::find_selected_page(0, &pages);
        Some(Pages { pages, suggestions, selected: (0, page_ix) })
    }

    /// The number of suggestions.
    pub fn len(&self) -> (r: usize)
        ensures
            r == self@.paths.len(),
            self@.well_formed(),
    {
        proof {
            use_type_invariant(self);
        }
        self.suggestions.len()
    }

    /// The index of the selected suggestion and that of its page.
    pub fn selection(&self) -> (r: (usize, usize))
        ensures
            r.0 == self@.suggestion_ix,
            r.1 == self@.page_ix,
            self@.well_formed(),
            r.1 < self@.starts.len(),
    {
        proof {
            use_type_invariant(self);
            lemma_page_of(starts_of(self.pages@), self.selected.0 as int, 0);
            assert(starts_of(self.pages@).len() == self.pages.len());
        }
        self.selected
    }

    /// The suggestions of the selected page: the index of the first one,
    /// and the index after the last one.
    pub fn get_page_suggestions(&self) -> (r: (usize, usize))
        ensures
            self@.well_formed(),
            r.0 == self@.starts[self@.page_ix],
            r.1 == if self@.page_ix + 1 < self@.starts.len() {
                self@.starts[self@.page_ix + 1]
            } else {
                self@.paths.len() as int
            },
            r.0 <= r.1 <= self@.paths.len(),
    {
        proof {
            use_type_invariant(self);
            lemma_page_of(starts_of(self.pages@), self.selected.0 as int, 0);
            assert(starts_of(self.pages@).len() == self.pages.len());
        }
        let start = self.pages[self.selected.1].start_ix;
        assert(starts_of(self.pages@)[self.selected.1 as int] == start);
        if self.selected.1 + 1 < self.pages.len() {
            let end = self.pages[self.selected.1 + 1].start_ix;
            assert(starts_of(self.pages@)[self.selected.1 + 1] == end);
            (start, end)
        } else {
            (start, self.suggestions.len())
        }
    }

    /// The name of a suggestion.
    pub fn name(&self, ix: usize) -> (r: Option<&String>)
        ensures
            match r {
                Some(name) => ix < self@.names.len() && name@ == self@.names[ix as int],
                None => ix >= self@.names.len(),
            },
    {
        if ix < self.suggestions.len() {
            Some(&self.suggestions[ix].file_name)
        } else {
            None
        }
    }

    /// Selects a suggestion, and with it the page on which it stands.
    fn select(&mut self, suggestion_ix: usize)
        requires
            suggestion_ix < old(self)@.paths.len(),
        ensures
            final(self)@ == old(self)@.select(suggestion_ix as int),
            final(self)@.well_formed(),
    {
        proof {
            use_type_invariant(&*self);
        }
        let page_ix = Self::find_selected_page(suggestion_ix, &self.pages);
        self.selected = (suggestion_ix, page_ix);
    }

    /// Selects the next suggestion; after the last one, the first.
    pub fn next_suggestion(&mut self)
        ensures
            final(self)@ == old(self)@.select(
                if old(self)@.suggestion_ix + 1 < old(self)@.paths.len() {
                    old(self)@.suggestion_ix + 1
                } else {
                    0
                },
            ),
            final(self)@.well_formed(),
    {
        proof {
            use_type_invariant(&*self);
        }
        let next = if self.selected.0 + 1 < self.suggestions.len() {
            self.selected.0 + 1
        } else {
            0
        };
        self.select(next);
    }

    /// Selects the suggestion before the selected one; before the first
    /// one, the last.
    pub fn previous_suggestion(&mut self)
        ensures
            final(self)@ == old(self)@.select(
                if old(self)@.suggestion_ix > 0 {
                    old(self)@.suggestion_ix - 1
                } else {
                    old(self)@.paths.len() - 1
                },
            ),
            final(self)@.well_formed(),
    {
        proof {
            use_type_invariant(&*self);
        }
        let previous = if self.selected.0 > 0 {
            self.selected.0 - 1
        } else {
            self.suggestions.len() - 1
        };
        self.select(previous);
    }

    /// Selects the first suggestion of the next page; after the last page,
    /// of the first.
    pub fn next_page(&mut self)
        ensures
            final(self)@ == old(self)@.select(
                old(self)@.starts[if old(self)@.page_ix + 1 < old(self)@.starts.len() {
                    old(self)@.page_ix + 1
                } else {
                    0
                }],
            ),
            final(self)@.well_formed(),
    {
        proof {
            use_type_invariant(&*self);
            lemma_page_of(starts_of(self.pages@), self.selected.0 as int, 0);
            assert(starts_of(self.pages@).len() == self.pages.len());
        }
        let page = if self.selected.1 + 1 < self.pages.len() {
            self.selected.1 + 1
        } else {
            0
        };
        let start = self.pages[page].start_ix;
        assert(starts_of(self.pages@)[page as int] == start);
        self.select(start);
    }

    /// Selects the first suggestion of the page before the selected one;
    /// before the first page, of the last.
    pub fn previous_page(&mut self)
        ensures
            final(self)@ == old(self)@.select(
                old(self)@.starts[if old(self)@.page_ix > 0 {
                    old(self)@.page_ix - 1
                } else {
                    old(self)@.starts.len() - 1
                }],
            ),
            final(self)@.well_formed(),
    {
        proof {
            use_type_invariant(&*self);
            lemma_page_of(starts_of(self.pages@), self.selected.0 as int, 0);
            assert(starts_of(self.pages@).len() == self.pages.len());
        }
        let page = if self.selected.1 > 0 {
            self.selected.1 - 1
        } else {
            self.pages.len() - 1
        };
        let start = self.pages[page].start_ix;
        assert(starts_of(self.pages@)[page as int] == start);
        self.select(start);
    }

    /// The path of the selected suggestion.
    pub fn get_selected_suggestion(&self) -> (r: Option<DirPath>)
        ensures
            self@.well_formed(),
            r matches Some(path) && path@ == self@.paths[self@.suggestion_ix],
    {
        proof {
            use_type_invariant(self);
        }
        Some(self.suggestions[self.selected.0].path.clone())
    }
}

} // verus!
