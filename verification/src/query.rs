//! Resolving an argument to a directory.

use crate::abbr::{congruence, is_congruence, is_function, Abbr, Congruence};
use crate::error::{Error, ErrorView};
use crate::path::{
    file_name, lemma_parts_nonempty, name_of, part_text, parts, path_views, Component, DirPath,
    Part,
};
use crate::query::search_engine::SearchEngine;
use crate::rank::{
    indices, lemma_strengths_total, pairs, rank, ranking, strengths_before, Standing,
    StandingView,
};
use crate::text::{all_dots, decode, fold, only_dots, to_chars};
use vstd::prelude::*;
use vstd::string::StringExecFns;
use vstd::utf8::{decode_utf8, valid_utf8};

pub mod entry;
pub mod search_engine;
pub mod sequence;
pub mod slice;
pub mod walk;

verus! {

/// How well a component matches a slice, the best first.
#[derive(Clone, Copy, Debug, PartialEq, Eq, Structural)]
pub enum MatchStrength {
    /// The component is the slice.
    Complete,
    /// The slice's characters occur in order in the component.
    Partial,
    /// The slice is the wildcard. Every match of a literal is stronger.
    Wildcard,
    /// The component does not match; the search only passes through it.
    Naught,
}

/// The bounds of a search.
#[derive(Debug)]
pub struct SearchOpts {
    /// The greatest attempt at which a sequence may still wait for its first
    /// match; no bound where it is `None`.
    pub first_depth: Option<usize>,
    /// The greatest number of attempts that may pass after a match of a
    /// sequence before its next match; no bound where it is `None`.
    pub next_depth: Option<usize>,
    /// The directory in which the search starts.
    pub start_dir: String,
}

impl Default for SearchOpts {
    /// No bounds, and the current directory.
    fn default() -> (r: Self)
        ensures
            r.first_depth is None,
            r.next_depth is None,
            r.start_dir@ == "."@,
    {
        SearchOpts { first_depth: None, next_depth: None, start_dir: String::from_str(".") }
    }
}

/// The number of steps to the parent directory that a component made of
/// dots stands for: one less than the number of dots, for two dots or more.
pub open spec fn dots(component: Seq<char>) -> Option<usize> {
    if only_dots(component) && component.len() >= 2 {
        Some((component.len() - 1) as usize)
    } else {
        None
    }
}

/// Checks whether the component holds only dots, and returns the number of
/// parent directories that it stands for if it does: `...` stands for two,
/// `....` for three.
pub fn parse_dots(component: &str) -> (r: Option<usize>)
    ensures
        r == dots(component@),
{
    let chars = to_chars(component);
    if all_dots(&chars) && chars.len() >= 2 {
        Some(chars.len() - 1)
    } else {
        None
    }
}

/// Whether a component belongs to the literal beginning of an argument:
/// anything but a name, and a name made of two dots or more.
pub open spec fn is_literal(part: Part) -> bool {
    match part {
        Part::Normal(name) => dots(name) is Some,
        _ => true,
    }
}

/// What a literal component adds to the directory in which the search
/// starts: itself, or a step to the parent for each dot after the first.
pub open spec fn expansion(part: Part) -> Seq<Part> {
    match part {
        Part::Normal(name) => Seq::new(dots(name)->Some_0 as nat, |i: int| Part::ParentDir),
        other => seq![other],
    }
}

/// The directory that the literal beginning of an argument leads to.
pub open spec fn leading(path: Seq<Part>) -> Seq<Part>
    decreases path.len(),
{
    if path.len() == 0 || !is_literal(path[0]) {
        Seq::empty()
    } else {
        expansion(path[0]) + leading(path.drop_first())
    }
}

/// What follows the literal beginning of an argument: the first name that
/// is not made of dots, and everything after it.
pub open spec fn trailing(path: Seq<Part>) -> Seq<Part>
    decreases path.len(),
{
    if path.len() == 0 || !is_literal(path[0]) {
        path
    } else {
        trailing(path.drop_first())
    }
}

/// The directory in which the search starts, where the argument names one.
pub open spec fn start_of(path: Seq<Part>) -> Option<Seq<Part>> {
    if path.len() == 0 || !is_literal(path[0]) {
        None
    } else {
        Some(leading(path))
    }
}

/// The abbreviation that a name stands for: `None` for the wildcard.
pub open spec fn abbr_of(name: Seq<char>) -> Option<Seq<char>> {
    if name == seq!['-'] {
        None
    } else {
        Some(fold(name))
    }
}

/// The abbreviations that a list of components stands for. Only names can
/// be abbreviations; the first component that is none is refused.
pub open spec fn abbrs_of(path: Seq<Part>) -> Result<Seq<Option<Seq<char>>>, ErrorView>
    decreases path.len(),
{
    if path.len() == 0 {
        Ok(Seq::empty())
    } else {
        match path[0] {
            Part::Normal(name) => match abbrs_of(path.drop_first()) {
                Ok(rest) => Ok(seq![abbr_of(name)] + rest),
                Err(error) => Err(error),
            },
            other => Err(ErrorView::UnexpectedAbbrComponent(part_text(other))),
        }
    }
}

/// An argument taken apart: the directory in which the search starts, where
/// the argument names one, and the abbreviations.
pub open spec fn taken_apart(arg: Seq<u8>) -> Result<
    (Option<Seq<Part>>, Seq<Option<Seq<char>>>),
    ErrorView,
> {
    if arg.len() == 0 {
        Err(ErrorView::EmptyAbbr)
    } else if !valid_utf8(arg) {
        Err(ErrorView::NonUnicodeInput)
    } else {
        let path = parts(decode_utf8(arg));
        match abbrs_of(trailing(path)) {
            Ok(abbrs) => Ok((start_of(path), abbrs)),
            Err(error) => Err(error),
        }
    }
}

/// A path without names: made of the root, `.` and `..` alone.
pub open spec fn is_plain(path: Seq<Part>) -> bool {
    forall|i: int| 0 <= i < path.len() ==> !(#[trigger] path[i] is Normal)
}

/// A path without names is its own beginning, and nothing follows it.
pub proof fn lemma_plain_is_leading(path: Seq<Part>)
    requires
        is_plain(path),
    ensures
        leading(path) == path,
        trailing(path) == Seq::<Part>::empty(),
    decreases path.len(),
{
    if path.len() > 0 {
        assert(!(path[0] is Normal));
        assert forall|i: int| 0 <= i < path.drop_first().len() implies !(
        #[trigger] path.drop_first()[i] is Normal) by {
            assert(path.drop_first()[i] == path[i + 1]);
        }
        lemma_plain_is_leading(path.drop_first());
        assert(expansion(path[0]) + path.drop_first() =~= path);
    } else {
        assert(path =~= Seq::<Part>::empty());
    }
}

/// An argument that is a path without names comes back unchanged: it is the
/// directory in which the search starts, and there are no abbreviations.
pub proof fn lemma_plain_path_round_trip(arg: Seq<u8>)
    requires
        arg.len() > 0,
        valid_utf8(arg),
        is_plain(parts(decode_utf8(arg))),
    ensures
        taken_apart(arg) == Ok::<(Option<Seq<Part>>, Seq<Option<Seq<char>>>), ErrorView>(
            (Some(parts(decode_utf8(arg))), Seq::empty()),
        ),
{
    let path = parts(decode_utf8(arg));
    assert(decode_utf8(arg).len() > 0);
    lemma_parts_nonempty(decode_utf8(arg));
    lemma_plain_is_leading(path);
    assert(!(path[0] is Normal));
}

/// The views of a list of components.
pub open spec fn part_views(components: Seq<Component>) -> Seq<Part> {
    Seq::new(components.len(), |i: int| components[i]@)
}

/// The views of a list of abbreviations.
pub open spec fn abbr_views(abbrs: Seq<Abbr>) -> Seq<Option<Seq<char>>> {
    Seq::new(abbrs.len(), |i: int| abbrs[i]@)
}

/// Extracts the leading components of the argument that are no parts of
/// the abbreviation: the root, `.`, `..`, and names made of two dots or
/// more, which stand for as many steps to the parent as they have dots, less
/// one. They make up the directory in which the search starts. What follows
/// them is returned as it stands.
pub fn extract_prefix(arg: &[u8]) -> (r: Result<(Option<DirPath>, Vec<Component>), Error>)
    ensures
        arg@.len() == 0 ==> r matches Err(Error::EmptyAbbr),
        arg@.len() > 0 && !valid_utf8(arg@) ==> r matches Err(Error::NonUnicodeInput),
        arg@.len() > 0 && valid_utf8(arg@) ==> (r matches Ok((prefix, suffix)) && part_views(
            suffix@,
        ) == trailing(parts(decode_utf8(arg@))) && match start_of(parts(decode_utf8(arg@))) {
            Some(start) => (prefix matches Some(path) && path@ == start),
            None => prefix is None,
        }),
{
    if arg.len() == 0 {
        return Err(Error::EmptyAbbr);
    }
    let text = match decode(arg) {
        Some(text) => text,
        None => {
            return Err(Error::NonUnicodeInput);
        },
    };
    let path = DirPath::parse(text);
    let ghost all = path@;
    let mut prefix = DirPath::new();
    let mut i: usize = 0;
    assert(all.skip(0) =~= all);
    assert(prefix@ + leading(all.skip(0)) =~= leading(all));
    while i < path.components.len()
        invariant
            i <= path.components.len(),
            all == path@,
            prefix@ + leading(all.skip(i as int)) == leading(all),
            trailing(all.skip(i as int)) == trailing(all),
            i > 0 ==> all.len() > 0 && is_literal(all[0]),
        ensures
            i == path.components.len() || (i < path.components.len() && !is_literal(
                all[i as int],
            )),
        decreases path.components.len() - i,
    {
        assert(all.skip(i as int)[0] == path.components@[i as int]@);
        assert(all.skip(i as int).drop_first() =~= all.skip(i + 1));
        let ghost before = prefix@;
        match &path.components[i] {
            Component::Normal(name) => {
                match parse_dots(name.as_str()) {
                    Some(steps) => {
                        let mut k: usize = 0;
                        while k < steps
                            invariant
                                k <= steps,
                                prefix@ == before + Seq::new(k as nat, |j: int| Part::ParentDir),
                            decreases steps - k,
                        {
                            prefix.push(Component::ParentDir);
                            assert(prefix@ =~= before + Seq::new(
                                (k + 1) as nat,
                                |j: int| Part::ParentDir,
                            ));
                            k += 1;
                        }
                        assert(prefix@ == before + expansion(all[i as int]));
                    },
                    None => {
                        assert(!is_literal(all[i as int]));
                        break;
                    },
                }
            },
            Component::Prefix(text) => {
                prefix.push(Component::Prefix(text.clone()));
                assert(prefix@ =~= before + expansion(all[i as int]));
            },
            Component::RootDir => {
                prefix.push(Component::RootDir);
                assert(prefix@ =~= before + expansion(all[i as int]));
            },
            Component::CurDir => {
                prefix.push(Component::CurDir);
                assert(prefix@ =~= before + expansion(all[i as int]));
            },
            Component::ParentDir => {
                prefix.push(Component::ParentDir);
                assert(prefix@ =~= before + expansion(all[i as int]));
            },
        }
        assert(before + expansion(all[i as int]) + leading(all.skip(i + 1)) =~= before + (
        expansion(all[i as int]) + leading(all.skip(i + 1))));
        i += 1;
    }
    assert(all.skip(i as int).len() == 0 || all.skip(i as int)[0] == all[i as int]);
    assert(leading(all.skip(i as int)) =~= Seq::<Part>::empty());
    assert(prefix@ + Seq::<Part>::empty() =~= prefix@);
    let mut suffix: Vec<Component> = Vec::new();
    let mut k: usize = i;
    while k < path.components.len()
        invariant
            i <= k <= path.components.len(),
            all == path@,
            suffix.len() == k - i,
            forall|j: int| 0 <= j < k - i ==> (#[trigger] suffix@[j])@ == all[i + j],
        decreases path.components.len() - k,
    {
        suffix.push(path.components[k].clone());
        k += 1;
    }
    assert(part_views(suffix@) =~= all.skip(i as int));
    assert(trailing(all.skip(i as int)) == all.skip(i as int));
    if i == 0 {
        Ok((None, suffix))
    } else {
        Ok((Some(prefix), suffix))
    }
}

/// Converts each component into an abbreviation. A component that is no
/// name is refused.
pub fn parse_abbrs(components: &Vec<Component>) -> (r: Result<Vec<Abbr>, Error>)
    ensures
        match abbrs_of(part_views(components@)) {
            Ok(abbrs) => (r matches Ok(found) && abbr_views(found@) == abbrs),
            Err(error) => (r matches Err(found) && found@ == error),
        },
{
    let ghost all = part_views(components@);
    let mut out: Vec<Abbr> = Vec::new();
    let mut i: usize = 0;
    assert(all.skip(0) =~= all);
    assert(abbr_views(out@) =~= Seq::<Option<Seq<char>>>::empty());
    assert(abbrs_of(all) == match abbrs_of(all.skip(0)) {
        Ok(rest) => Ok::<Seq<Option<Seq<char>>>, ErrorView>(abbr_views(out@) + rest),
        Err(error) => Err(error),
    }) by {
        match abbrs_of(all) {
            Ok(rest) => {
                assert(abbr_views(out@) + rest =~= rest);
            },
            Err(_) => {},
        }
    }
    while i < components.len()
        invariant
            i <= components.len(),
            all == part_views(components@),
            abbrs_of(all) == match abbrs_of(all.skip(i as int)) {
                Ok(rest) => Ok::<Seq<Option<Seq<char>>>, ErrorView>(abbr_views(out@) + rest),
                Err(error) => Err(error),
            },
        decreases components.len() - i,
    {
        assert(all.skip(i as int)[0] == components@[i as int]@);
        assert(all.skip(i as int).drop_first() =~= all.skip(i + 1));
        let ghost before = abbr_views(out@);
        match &components[i] {
            Component::Normal(name) => {
                proof {
                    reveal_strlit("-");
                }
                let abbr = Abbr::new_sanitized(name.as_str());
                out.push(abbr);
                assert(abbr_views(out@) =~= before + seq![abbr_of(name@)]);
                proof {
                    match abbrs_of(all.skip(i + 1)) {
                        Ok(rest) => {
                            assert(before + (seq![abbr_of(name@)] + rest) =~= abbr_views(out@)
                                + rest);
                        },
                        Err(_) => {},
                    }
                }
            },
            other => {
                return Err(Error::UnexpectedAbbrComponent(other.text()));
            },
        }
        i += 1;
    }
    assert(abbr_views(out@) + Seq::<Option<Seq<char>>>::empty() =~= abbr_views(out@));
    Ok(out)
}

/// Parses the argument into the directory in which the search starts, where
/// the argument names one, and the abbreviations.
pub fn parse_arg(arg: &[u8]) -> (r: Result<(Option<DirPath>, Vec<Abbr>), Error>)
    ensures
        match taken_apart(arg@) {
            Ok((start, abbrs)) => (r matches Ok((prefix, found)) && abbr_views(found@) == abbrs
                && match start {
                Some(path) => (prefix matches Some(dir) && dir@ == path),
                None => prefix is None,
            }),
            Err(error) => (r matches Err(found) && found@ == error),
        },
{
    let (prefix, suffix) = match extract_prefix(arg) {
        Ok(pair) => pair,
        Err(error) => {
            return Err(error);
        },
    };
    let abbrs = match parse_abbrs(&suffix) {
        Ok(abbrs) => abbrs,
        Err(error) => {
            return Err(error);
        },
    };
    Ok((prefix, abbrs))
}

/// A path matching the abbreviations so far, with the strength of the match
/// of each of them, in their order.
#[derive(Debug)]
pub struct Finding {
    pub file_name: String,
    pub path: DirPath,
    pub congruence: Vec<Congruence>,
}

/// A finding as the specifications see it. The name is that of the path.
pub struct Found {
    pub path: Seq<Part>,
    pub strengths: Seq<Congruence>,
}

impl View for Finding {
    type V = Found;

    open spec fn view(&self) -> Found {
        Found { path: self.path@, strengths: self.congruence@ }
    }
}

/// The views of a list of findings.
pub open spec fn finding_views(findings: Seq<Finding>) -> Seq<Found> {
    Seq::new(findings.len(), |i: int| findings[i]@)
}

/// Those of the given directories whose names match the abbreviation, in
/// their order, each with the strengths so far and that of its own match.
pub open spec fn matches_among<M: Fn(&str, &str) -> Option<u32>>(
    children: Seq<Seq<Part>>,
    abbr: Option<Seq<char>>,
    so_far: Seq<Congruence>,
    metric: &M,
) -> Seq<Found>
    decreases children.len(),
{
    if children.len() == 0 {
        Seq::empty()
    } else {
        let before = matches_among(children.drop_last(), abbr, so_far, metric);
        match file_name(children.last()) {
            Some(name) => match congruence(abbr, name, metric) {
                Some(strength) => before.push(
                    Found { path: children.last(), strengths: so_far.push(strength) },
                ),
                None => before,
            },
            None => before,
        }
    }
}

/// The matching directories below the findings of one level, in the order
/// of the level.
pub open spec fn next_level<E: SearchEngine, M: Fn(&str, &str) -> Option<u32>>(
    engine: &E,
    level: Seq<Found>,
    abbr: Option<Seq<char>>,
    metric: &M,
) -> Seq<Found>
    decreases level.len(),
{
    if level.len() == 0 {
        Seq::empty()
    } else {
        next_level(engine, level.drop_last(), abbr, metric) + matches_among(
            engine.children(level.last().path),
            abbr,
            level.last().strengths,
            metric,
        )
    }
}

/// The directories that match a list of abbreviations, one level of the
/// tree below `start` for each abbreviation.
pub open spec fn level_at<E: SearchEngine, M: Fn(&str, &str) -> Option<u32>>(
    engine: &E,
    start: Seq<Part>,
    abbrs: Seq<Option<Seq<char>>>,
    metric: &M,
) -> Seq<Found>
    decreases abbrs.len(),
{
    if abbrs.len() == 0 {
        seq![Found { path: start, strengths: Seq::empty() }]
    } else {
        next_level(engine, level_at(engine, start, abbrs.drop_last(), metric), abbrs.last(), metric)
    }
}

/// A chain of directories for a list of abbreviations: one directory for
/// each abbreviation, the first one listed below `start` and each further
/// one below the one before, each with a name that its abbreviation matches.
pub open spec fn is_chain<E: SearchEngine, M: Fn(&str, &str) -> Option<u32>>(
    engine: &E,
    metric: &M,
    start: Seq<Part>,
    abbrs: Seq<Option<Seq<char>>>,
    chain: Seq<Seq<Part>>,
) -> bool {
    &&& chain.len() == abbrs.len()
    &&& forall|i: int|
        0 <= i < chain.len() ==> #[trigger] link_at(engine, metric, start, abbrs, chain, i)
}

/// Directory `i` of a chain is listed below the one before it, the first
/// one below `start`, and has a name that abbreviation `i` matches.
pub open spec fn link_at<E: SearchEngine, M: Fn(&str, &str) -> Option<u32>>(
    engine: &E,
    metric: &M,
    start: Seq<Part>,
    abbrs: Seq<Option<Seq<char>>>,
    chain: Seq<Seq<Part>>,
    i: int,
) -> bool {
    is_link(
        engine,
        metric,
        if i == 0 {
            start
        } else {
            chain[i - 1]
        },
        abbrs[i],
        chain[i],
    )
}

/// There is a chain of directories for the abbreviations.
pub open spec fn has_chain<E: SearchEngine, M: Fn(&str, &str) -> Option<u32>>(
    engine: &E,
    metric: &M,
    start: Seq<Part>,
    abbrs: Seq<Option<Seq<char>>>,
) -> bool {
    exists|chain: Seq<Seq<Part>>| is_chain(engine, metric, start, abbrs, chain)
}

/// The directory in which the search starts: the one that the argument
/// begins with, or the current directory.
pub open spec fn search_start(prefix: Option<Seq<Part>>, current_dir: Seq<Part>) -> Seq<Part> {
    match prefix {
        Some(start) => start,
        None => current_dir,
    }
}

/// `child` is listed below `parent` and has a name that the abbreviation
/// matches.
#[verifier::opaque]
pub open spec fn is_link<E: SearchEngine, M: Fn(&str, &str) -> Option<u32>>(
    engine: &E,
    metric: &M,
    parent: Seq<Part>,
    abbr: Option<Seq<char>>,
    child: Seq<Part>,
) -> bool {
    engine.children(parent).contains(child) && (file_name(child) matches Some(name) && congruence(
        abbr,
        name,
        metric,
    ) is Some)
}

/// Every match among the children of a directory is one of the children
/// and has a name that the abbreviation matches.
pub proof fn lemma_matches_are_children<M: Fn(&str, &str) -> Option<u32>>(
    children: Seq<Seq<Part>>,
    abbr: Option<Seq<char>>,
    so_far: Seq<Congruence>,
    metric: &M,
    k: int,
)
    requires
        0 <= k < matches_among(children, abbr, so_far, metric).len(),
    ensures
        children.contains(matches_among(children, abbr, so_far, metric)[k].path),
        (file_name(matches_among(children, abbr, so_far, metric)[k].path) matches Some(name)
            && congruence(abbr, name, metric) is Some),
    decreases children.len(),
{
    let before = matches_among(children.drop_last(), abbr, so_far, metric);
    if k < before.len() {
        lemma_matches_are_children(children.drop_last(), abbr, so_far, metric, k);
        let path = before[k].path;
        let at = choose|i: int| 0 <= i < children.drop_last().len() && children.drop_last()[i] == path;
        assert(children[at] == path);
    } else {
        assert(children[children.len() - 1] == children.last());
    }
}

/// Every directory of the next level stands below a directory of the level
/// and has a name that the abbreviation matches.
pub proof fn lemma_next_level_links<E: SearchEngine, M: Fn(&str, &str) -> Option<u32>>(
    engine: &E,
    level: Seq<Found>,
    abbr: Option<Seq<char>>,
    metric: &M,
    k: int,
) -> (j: int)
    requires
        0 <= k < next_level(engine, level, abbr, metric).len(),
    ensures
        0 <= j < level.len(),
        is_link(engine, metric, level[j].path, abbr, next_level(engine, level, abbr, metric)[k].path),
    decreases level.len(),
{
    reveal(is_link);
    let before = next_level(engine, level.drop_last(), abbr, metric);
    if k < before.len() {
        lemma_next_level_links(engine, level.drop_last(), abbr, metric, k)
    } else {
        lemma_matches_are_children(
            engine.children(level.last().path),
            abbr,
            level.last().strengths,
            metric,
            k - before.len(),
        );
        level.len() - 1
    }
}

/// Every directory that matches a list of abbreviations ends a chain for
/// them.
pub proof fn lemma_level_has_chain<E: SearchEngine, M: Fn(&str, &str) -> Option<u32>>(
    engine: &E,
    metric: &M,
    start: Seq<Part>,
    abbrs: Seq<Option<Seq<char>>>,
    k: int,
) -> (chain: Seq<Seq<Part>>)
    requires
        0 <= k < level_at(engine, start, abbrs, metric).len(),
    ensures
        is_chain(engine, metric, start, abbrs, chain),
        level_at(engine, start, abbrs, metric)[k].path == if abbrs.len() == 0 {
            start
        } else {
            chain.last()
        },
    decreases abbrs.len(),
{
    if abbrs.len() == 0 {
        Seq::empty()
    } else {
        let shorter = abbrs.drop_last();
        let level = level_at(engine, start, shorter, metric);
        let j = lemma_next_level_links(engine, level, abbrs.last(), metric, k);
        let before = lemma_level_has_chain(engine, metric, start, shorter, j);
        let chain = before.push(level_at(engine, start, abbrs, metric)[k].path);
        assert forall|i: int| 0 <= i < chain.len() implies #[trigger] link_at(
            engine,
            metric,
            start,
            abbrs,
            chain,
            i,
        ) by {
            if i < before.len() {
                assert(link_at(engine, metric, start, shorter, before, i));
                assert(chain[i] == before[i]);
                assert(shorter[i] == abbrs[i]);
                if i > 0 {
                    assert(chain[i - 1] == before[i - 1]);
                }
            } else {
                if i > 0 {
                    assert(chain[i - 1] == before.last());
                }
            }
        }
        chain
    }
}

/// Where no chain of directories matches the abbreviations, none is found:
/// a query for an argument that is no directory, in a file system that
/// answers like a fixed tree and with a metric that is a function, then
/// comes to `PathNotFound`.
pub proof fn lemma_no_chain_is_not_found<E: SearchEngine, M: Fn(&str, &str) -> Option<u32>>(
    arg: Seq<u8>,
    excluded: Option<Seq<Part>>,
    current_dir: Seq<Part>,
    engine: &E,
    metric: &M,
)
    requires
        arg.len() > 0,
        valid_utf8(arg),
        !engine.holds(parts(decode_utf8(arg))),
        taken_apart(arg) is Ok,
        taken_apart(arg)->Ok_0.1.len() > 0,
        !has_chain(
            engine,
            metric,
            search_start(taken_apart(arg)->Ok_0.0, current_dir),
            taken_apart(arg)->Ok_0.1,
        ),
    ensures
        outcome(arg, excluded, current_dir, engine, metric) == Err::<Seq<Part>, ErrorView>(
            ErrorView::PathNotFound,
        ),
{
    let (prefix, abbrs) = taken_apart(arg)->Ok_0;
    let start = match prefix {
        Some(start) => start,
        None => current_dir,
    };
    let level = level_at(engine, start, abbrs, metric);
    if level.len() > 0 {
        let chain = lemma_level_has_chain(engine, metric, start, abbrs, 0);
        assert(is_chain(engine, metric, start, abbrs, chain));
    }
}

/// The strengths of a finding as pairs of integers.
pub open spec fn strength_pairs(strengths: Seq<Congruence>) -> Seq<(int, int)> {
    Seq::new(strengths.len(), |i: int| strengths[i].rank())
}

/// What the findings are ranked by: their strengths and their names.
pub open spec fn standings_of(level: Seq<Found>) -> Seq<StandingView> {
    Seq::new(
        level.len(),
        |i: int|
            StandingView {
                strengths: strength_pairs(level[i].strengths),
                name: name_of(level[i].path),
            },
    )
}

/// The first finding of a ranking, from place `from` on, that is not the
/// excluded path.
pub open spec fn first_other(
    level: Seq<Found>,
    places: Seq<int>,
    excluded: Seq<Part>,
    from: int,
) -> Option<Seq<Part>>
    decreases places.len() - from,
{
    if from < 0 || from >= places.len() {
        None
    } else if level[places[from]].path != excluded {
        Some(level[places[from]].path)
    } else {
        first_other(level, places, excluded, from + 1)
    }
}

/// The finding that is chosen: the first of the ranking by strengths and
/// then by name. Where the two best have the same strengths and a path is
/// excluded, it is the first that is not the excluded path.
pub open spec fn chosen(level: Seq<Found>, excluded: Option<Seq<Part>>) -> Option<Seq<Part>> {
    let standings = standings_of(level);
    let places = ranking(standings, true);
    if level.len() == 0 {
        None
    } else if excluded is Some && level.len() >= 2 && standings[places[0]].strengths
        == standings[places[1]].strengths {
        first_other(level, places, excluded->Some_0, 0)
    } else {
        Some(level[places[0]].path)
    }
}

/// What a query comes to in a file system that answers like a fixed tree,
/// with a metric that is a function. An argument that is a directory is
/// that directory. Else the search starts in the directory that the
/// argument begins with, or in the current directory, and goes one level
/// down for each abbreviation.
pub open spec fn outcome<E: SearchEngine, M: Fn(&str, &str) -> Option<u32>>(
    arg: Seq<u8>,
    excluded: Option<Seq<Part>>,
    current_dir: Seq<Part>,
    engine: &E,
    metric: &M,
) -> Result<Seq<Part>, ErrorView> {
    if arg.len() == 0 {
        Err(ErrorView::EmptyAbbr)
    } else if !valid_utf8(arg) {
        Err(ErrorView::NonUnicodeInput)
    } else if engine.holds(parts(decode_utf8(arg))) {
        Ok(parts(decode_utf8(arg)))
    } else {
        match taken_apart(arg) {
            Err(error) => Err(error),
            Ok((prefix, abbrs)) => {
                let start = match prefix {
                    Some(path) => path,
                    None => current_dir,
                };
                if abbrs.len() == 0 {
                    Ok(start)
                } else {
                    match chosen(level_at(engine, start, abbrs, metric), excluded) {
                        Some(path) => Ok(path),
                        None => Err(ErrorView::PathNotFound),
                    }
                }
            },
        }
    }
}

/// A query in a file system that answers like a fixed tree, with a metric
/// that is a function, has one outcome: asked twice, it answers the same.
pub proof fn lemma_query_repeatable<E: SearchEngine, M: Fn(&str, &str) -> Option<u32>>(
    arg: Seq<u8>,
    excluded: Option<Seq<Part>>,
    current_dir: Seq<Part>,
    engine: &E,
    metric: &M,
    first: Result<DirPath, Error>,
    second: Result<DirPath, Error>,
)
    requires
        answers(arg, excluded, current_dir, engine, metric, first),
        answers(arg, excluded, current_dir, engine, metric, second),
    ensures
        first is Ok <==> second is Ok,
        first matches Ok(a) ==> second matches Ok(b) && a@ == b@,
        first matches Err(a) ==> second matches Err(b) && a@ == b@,
{
}

/// `r` is what a query returns in a file system that answers like a fixed
/// tree, with a metric that is a function.
pub open spec fn answers<E: SearchEngine, M: Fn(&str, &str) -> Option<u32>>(
    arg: Seq<u8>,
    excluded: Option<Seq<Part>>,
    current_dir: Seq<Part>,
    engine: &E,
    metric: &M,
    r: Result<DirPath, Error>,
) -> bool {
    match outcome(arg, excluded, current_dir, engine, metric) {
        Ok(path) => (r matches Ok(found) && found@ == path),
        Err(error) => (r matches Err(found) && found@ == error),
    }
}

/// The path has a name that the abbreviation matches, with a strength that
/// `compare` may give it under the metric.
pub open spec fn is_match_for<M: Fn(&str, &str) -> Option<u32>>(
    path: Seq<Part>,
    abbr: Option<Seq<char>>,
    metric: &M,
) -> bool {
    file_name(path) matches Some(name) && exists|strength: Congruence| #[trigger]
        is_congruence(abbr, name, metric, Some(strength))
}

/// What a query may return as found, whatever the engine answers: the
/// argument's own path, the directory in which the search starts where there
/// is no abbreviation, or a path whose name the last abbreviation matches.
pub open spec fn may_be_found<M: Fn(&str, &str) -> Option<u32>>(
    arg: Seq<u8>,
    current_dir: Seq<Part>,
    metric: &M,
    path: Seq<Part>,
) -> bool {
    path == parts(decode_utf8(arg)) || match taken_apart(arg) {
        Ok((prefix, abbrs)) => if abbrs.len() == 0 {
            path == match prefix {
                Some(start) => start,
                None => current_dir,
            }
        } else {
            is_match_for(path, abbrs.last(), metric)
        },
        Err(_) => false,
    }
}

/// A copy of a list of strengths.
fn clone_strengths(strengths: &Vec<Congruence>) -> (r: Vec<Congruence>)
    ensures
        r@ == strengths@,
{
    let mut out: Vec<Congruence> = Vec::new();
    let mut i: usize = 0;
    while i < strengths.len()
        invariant
            i <= strengths.len(),
            out@ == strengths@.take(i as int),
        decreases strengths.len() - i,
    {
        out.push(strengths[i]);
        assert(out@ =~= strengths@.take(i + 1));
        i += 1;
    }
    assert(strengths@.take(strengths.len() as int) =~= strengths@);
    out
}

/// The pairs by which a list of strengths is ranked.
fn to_pairs(strengths: &Vec<Congruence>) -> (r: Vec<(u8, usize)>)
    ensures
        pairs(r@) == strength_pairs(strengths@),
{
    let mut out: Vec<(u8, usize)> = Vec::new();
    let mut i: usize = 0;
    while i < strengths.len()
        invariant
            i <= strengths.len(),
            out.len() == i,
            forall|k: int|
                0 <= k < i ==> (out@[k].0 as int, out@[k].1 as int) == (
                #[trigger] strengths@[k]).rank(),
        decreases strengths.len() - i,
    {
        out.push(strengths[i].pair());
        i += 1;
    }
    assert(pairs(out@) =~= strength_pairs(strengths@));
    out
}

/// The children of a directory that match the abbreviation, in the order in
/// which the engine lists them. Each carries the strengths of its parent
/// and, after them, that of its own match.
pub fn get_matching_children<E: SearchEngine, M: Fn(&str, &str) -> Option<u32>>(
    path: &DirPath,
    abbr: &Abbr,
    parent_congruence: &Vec<Congruence>,
    engine: &E,
    metric: &M,
) -> (r: Vec<Finding>)
    requires
        forall|p: &str, t: &str| metric.requires((p, t)),
    ensures
        engine.is_fixed() && is_function(metric) ==> finding_views(r@) == matches_among(
            engine.children(path@),
            abbr@,
            parent_congruence@,
            metric,
        ),
        forall|k: int|
            0 <= k < r.len() ==> file_name((#[trigger] r@[k]).path@) == Some(r@[k].file_name@),
        forall|k: int| 0 <= k < r.len() ==> is_match_for((#[trigger] r@[k]).path@, abbr@, metric),
{
    let children = engine.read_dir(path);
    let ghost all = path_views(children@);
    let mut out: Vec<Finding> = Vec::new();
    let mut i: usize = 0;
    assert(all.take(0) =~= Seq::<Seq<Part>>::empty());
    assert(finding_views(out@) =~= Seq::<Found>::empty());
    while i < children.len()
        invariant
            i <= children.len(),
            all == path_views(children@),
            forall|p: &str, t: &str| metric.requires((p, t)),
            is_function(metric) ==> finding_views(out@) == matches_among(
                all.take(i as int),
                abbr@,
                parent_congruence@,
                metric,
            ),
            forall|k: int|
                0 <= k < out.len() ==> file_name((#[trigger] out@[k]).path@) == Some(
                    out@[k].file_name@,
                ),
            forall|k: int|
                0 <= k < out.len() ==> is_match_for((#[trigger] out@[k]).path@, abbr@, metric),
        decreases children.len() - i,
    {
        assert(all.take(i + 1).drop_last() =~= all.take(i as int));
        assert(all.take(i + 1).last() == children@[i as int]@);
        let ghost before = finding_views(out@);
        if let Some(name) = children[i].file_name() {
            if let Some(strength) = abbr.compare(name.as_str(), metric) {
                let mut strengths = clone_strengths(parent_congruence);
                strengths.push(strength);
                assert(is_congruence(abbr@, name@, metric, Some(strength)));
                assert(is_match_for(children@[i as int]@, abbr@, metric));
                out.push(
                    Finding { file_name: name, path: children[i].clone(), congruence: strengths },
                );
                assert(finding_views(out@) =~= before.push(
                    Found {
                        path: children@[i as int]@,
                        strengths: parent_congruence@.push(strength),
                    },
                ));
            }
        }
        i += 1;
    }
    assert(all.take(children.len() as int) =~= all);
    out
}

/// The first finding, in the order of the ranking, that is not the path
/// left out.
fn pick_other(level: &Vec<Finding>, places: &Vec<usize>, left_out: &DirPath) -> (r: Option<
    DirPath,
>)
    requires
        forall|j: int| 0 <= j < places.len() ==> #[trigger] places@[j] < level.len(),
    ensures
        match first_other(finding_views(level@), indices(places@), left_out@, 0) {
            Some(path) => (r matches Some(found) && found@ == path),
            None => r is None,
        },
        r matches Some(found) ==> exists|k: int|
            0 <= k < level.len() && found@ == (#[trigger] level@[k]).path@,
{
    let ghost found = finding_views(level@);
    let mut k: usize = 0;
    while k < places.len()
        invariant
            k <= places.len(),
            found == finding_views(level@),
            forall|j: int| 0 <= j < places.len() ==> #[trigger] places@[j] < level.len(),
            first_other(found, indices(places@), left_out@, 0) == first_other(
                found,
                indices(places@),
                left_out@,
                k as int,
            ),
        decreases places.len() - k,
    {
        assert(indices(places@)[k as int] == places@[k as int]);
        if !level[places[k]].path.same(left_out) {
            return Some(level[places[k]].path.clone());
        }
        k += 1;
    }
    None
}

/// Picks the finding that a query returns: the first of the ranking by
/// strengths and then by name. Where the two best have the same strengths
/// and a path is excluded, the first that is not the excluded path.
pub fn choose_finding(level: &Vec<Finding>, excluded: &Option<DirPath>) -> (r: Option<DirPath>)
    ensures
        match chosen(
            finding_views(level@),
            match excluded {
                Some(path) => Some(path@),
                None => None,
            },
        ) {
            Some(path) => (r matches Some(found) && found@ == path),
            None => r is None,
        },
        r matches Some(found) ==> exists|k: int|
            0 <= k < level.len() && found@ == (#[trigger] level@[k]).path@,
{
    let ghost found = finding_views(level@);
    let mut standings: Vec<Standing> = Vec::new();
    let mut i: usize = 0;
    while i < level.len()
        invariant
            i <= level.len(),
            found == finding_views(level@),
            standings.len() == i,
            forall|k: int| 0 <= k < i ==> (#[trigger] standings@[k])@ == standings_of(found)[k],
        decreases level.len() - i,
    {
        let name = match level[i].path.file_name() {
            Some(name) => name,
            None => String::new(),
        };
        standings.push(Standing { strengths: to_pairs(&level[i].congruence), name });
        i += 1;
    }
    assert(crate::rank::standings(standings@) =~= standings_of(found));
    let places = rank(&standings, true);
    if level.len() == 0 {
        return None;
    }
    assert(indices(places@)[0] == places@[0]);
    let first = places[0];
    let tied = match excluded {
        Some(_) => {
            if level.len() >= 2 {
                assert(indices(places@)[1] == places@[1]);
                let second = places[1];
                proof {
                    lemma_strengths_total(
                        standings@[first as int]@.strengths,
                        standings@[second as int]@.strengths,
                    );
                }
                !strengths_before(&standings[first].strengths, &standings[second].strengths)
                    && !strengths_before(
                    &standings[second].strengths,
                    &standings[first].strengths,
                )
            } else {
                false
            }
        },
        None => false,
    };
    match excluded {
        Some(left_out) if tied => pick_other(level, &places, left_out),
        _ => Some(level[first].path.clone()),
    }
}

/// Finds the directory that an argument stands for.
///
/// An argument that is a directory is returned as it stands. Else the
/// search starts in the directory that the argument begins with, or in
/// `current_dir` where it begins with none, and goes one level down for
/// each abbreviation. Of the directories that match all abbreviations the
/// one that ranks first is returned. `metric` is asked for the coefficient
/// of each scattered match.
pub fn query<E: SearchEngine, M: Fn(&str, &str) -> Option<u32>>(
    arg: &[u8],
    excluded: Option<DirPath>,
    current_dir: &DirPath,
    engine: &E,
    metric: &M,
) -> (r: Result<DirPath, Error>)
    requires
        forall|p: &str, t: &str| metric.requires((p, t)),
    ensures
        arg@.len() == 0 ==> r matches Err(Error::EmptyAbbr),
        arg@.len() > 0 && !valid_utf8(arg@) ==> r matches Err(Error::NonUnicodeInput),
        r matches Err(error) ==> error@ == ErrorView::PathNotFound || taken_apart(arg@) == Err::<
            (Option<Seq<Part>>, Seq<Option<Seq<char>>>),
            ErrorView,
        >(error@),
        r matches Ok(path) ==> may_be_found(arg@, current_dir@, metric, path@),
        engine.is_fixed() && is_function(metric) ==> answers(
            arg@,
            match excluded {
                Some(path) => Some(path@),
                None => None,
            },
            current_dir@,
            engine,
            metric,
            r,
        ),
{
    if arg.len() == 0 {
        return Err(Error::EmptyAbbr);
    }
    let text = match decode(arg) {
        Some(text) => text,
        None => {
            return Err(Error::NonUnicodeInput);
        },
    };
    let whole = DirPath::parse(text);
    if engine.is_dir(&whole) {
        return Ok(whole);
    }
    let (prefix, abbrs) = match parse_arg(arg) {
        Ok(pair) => pair,
        Err(error) => {
            return Err(error);
        },
    };
    let start = match prefix {
        Some(path) => path,
        None => current_dir.clone(),
    };
    if abbrs.len() == 0 {
        return Ok(start);
    }
    let ghost wanted = abbr_views(abbrs@);
    let ghost origin = start@;
    let mut level: Vec<Finding> = Vec::new();
    level.push(Finding { file_name: String::new(), path: start, congruence: Vec::new() });
    assert(wanted.take(0) =~= Seq::<Option<Seq<char>>>::empty());
    assert(finding_views(level@) =~= level_at(engine, origin, wanted.take(0), metric));
    let mut n: usize = 0;
    while n < abbrs.len()
        invariant
            n <= abbrs.len(),
            wanted == abbr_views(abbrs@),
            forall|p: &str, t: &str| metric.requires((p, t)),
            engine.is_fixed() && is_function(metric) ==> finding_views(level@) == level_at(
                engine,
                origin,
                wanted.take(n as int),
                metric,
            ),
            n > 0 ==> forall|k: int|
                0 <= k < level.len() ==> is_match_for(
                    (#[trigger] level@[k]).path@,
                    abbrs@[n - 1]@,
                    metric,
                ),
        decreases abbrs.len() - n,
    {
        assert(wanted.take(n + 1).drop_last() =~= wanted.take(n as int));
        assert(wanted.take(n + 1).last() == abbrs@[n as int]@);
        let ghost current = finding_views(level@);
        let mut next: Vec<Finding> = Vec::new();
        let mut i: usize = 0;
        assert(current.take(0) =~= Seq::<Found>::empty());
        assert(finding_views(next@) =~= Seq::<Found>::empty());
        while i < level.len()
            invariant
                i <= level.len(),
                n < abbrs.len(),
                current == finding_views(level@),
                forall|p: &str, t: &str| metric.requires((p, t)),
                engine.is_fixed() && is_function(metric) ==> finding_views(next@) == next_level(
                    engine,
                    current.take(i as int),
                    abbrs@[n as int]@,
                    metric,
                ),
                forall|k: int|
                    0 <= k < next.len() ==> is_match_for(
                        (#[trigger] next@[k]).path@,
                        abbrs@[n as int]@,
                        metric,
                    ),
            decreases level.len() - i,
        {
            assert(current.take(i + 1).drop_last() =~= current.take(i as int));
            assert(current.take(i + 1).last() == level@[i as int]@);
            let ghost before = finding_views(next@);
            let mut found = get_matching_children(
                &level[i].path,
                &abbrs[n],
                &level[i].congruence,
                engine,
                metric,
            );
            let ghost added = finding_views(found@);
            next.append(&mut found);
            assert(finding_views(next@) =~= before + added);
            i += 1;
        }
        assert(current.take(level.len() as int) =~= current);
        level = next;
        n += 1;
    }
    assert(wanted.take(abbrs.len() as int) =~= wanted);
    assert(wanted.last() == abbrs@[abbrs.len() - 1]@);
    match choose_finding(&level, &excluded) {
        Some(path) => Ok(path),
        None => Err(Error::PathNotFound),
    }
}

} // verus!
