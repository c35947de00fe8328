//! Search over a directory tree with one abbreviation per level.

use crate::path::{file_name, name_of, path_views, DirPath, Part};
use crate::rank::{indices, pairs, rank, ranking, Standing, StandingView};
use crate::search::abbr::{congruence, Abbr, Congruence};
use crate::search::fs::FileSystem;
use vstd::prelude::*;

pub mod abbr;
pub mod fs;

verus! {

/// A directory whose name matches an abbreviation.
#[derive(Debug)]
pub struct Finding {
    pub path: DirPath,
    pub congruence: Congruence,
}

/// A directory that the search has reached, as the specifications see it:
/// its path, and the strength of the match of each abbreviation so far.
pub struct Reached {
    pub path: Seq<Part>,
    pub strengths: Seq<Congruence>,
}

impl View for Finding {
    type V = (Seq<Part>, Congruence);

    open spec fn view(&self) -> (Seq<Part>, Congruence) {
        (self.path@, self.congruence)
    }
}

/// The views of a list of findings.
pub open spec fn finding_views(findings: Seq<Finding>) -> Seq<(Seq<Part>, Congruence)> {
    Seq::new(findings.len(), |i: int| findings[i]@)
}

/// The views of a list of abbreviations.
pub open spec fn abbr_views(abbrs: Seq<Abbr>) -> Seq<Option<Seq<char>>> {
    Seq::new(abbrs.len(), |i: int| abbrs[i]@)
}

/// What a file system lists below a directory; nothing where it cannot be
/// listed.
pub open spec fn listed<F: FileSystem>(file_system: &F, dir: Seq<Part>) -> Seq<Seq<Part>> {
    match file_system.listing(dir) {
        Some(children) => children,
        None => Seq::empty(),
    }
}

/// The directories directly below the given ones, in their order.
pub open spec fn children_of<F: FileSystem>(file_system: &F, dirs: Seq<Seq<Part>>) -> Seq<
    Seq<Part>,
>
    decreases dirs.len(),
{
    if dirs.len() == 0 {
        Seq::empty()
    } else {
        children_of(file_system, dirs.drop_last()) + listed(file_system, dirs.last())
    }
}

/// The strength with which the name of a directory matches an
/// abbreviation, if it has a name and matches.
pub open spec fn matching(path: Seq<Part>, abbr: Option<Seq<char>>) -> Option<Congruence> {
    match file_name(path) {
        Some(name) => congruence(abbr, name),
        None => None,
    }
}

/// Those of the paths whose names match the abbreviation, each with the
/// strength of its match, in their order.
pub open spec fn filtered(paths: Seq<Seq<Part>>, abbr: Option<Seq<char>>) -> Seq<
    (Seq<Part>, Congruence),
>
    decreases paths.len(),
{
    if paths.len() == 0 {
        Seq::empty()
    } else {
        let before = filtered(paths.drop_last(), abbr);
        match matching(paths.last(), abbr) {
            Some(strength) => before.push((paths.last(), strength)),
            None => before,
        }
    }
}

/// Everything that the filter keeps matches the abbreviation, with the
/// strength that stands beside it.
pub proof fn lemma_filtered_match(paths: Seq<Seq<Part>>, abbr: Option<Seq<char>>)
    ensures
        forall|k: int|
            0 <= k < filtered(paths, abbr).len() ==> matching(
                (#[trigger] filtered(paths, abbr)[k]).0,
                abbr,
            ) == Some(filtered(paths, abbr)[k].1),
    decreases paths.len(),
{
    if paths.len() > 0 {
        lemma_filtered_match(paths.drop_last(), abbr);
    }
}

/// The matching directories below one reached directory.
pub open spec fn below<F: FileSystem>(
    file_system: &F,
    from: Reached,
    abbr: Option<Seq<char>>,
) -> Seq<Reached> {
    let found = filtered(listed(file_system, from.path), abbr);
    Seq::new(
        found.len(),
        |i: int| Reached { path: found[i].0, strengths: from.strengths.push(found[i].1) },
    )
}

/// The matching directories below the directories of one level, in the
/// order of the level.
pub open spec fn next_level<F: FileSystem>(
    file_system: &F,
    level: Seq<Reached>,
    abbr: Option<Seq<char>>,
) -> Seq<Reached>
    decreases level.len(),
{
    if level.len() == 0 {
        Seq::empty()
    } else {
        next_level(file_system, level.drop_last(), abbr) + below(file_system, level.last(), abbr)
    }
}

/// The directories that match a list of abbreviations, one level of the
/// tree for each abbreviation. Without abbreviations that is the root.
pub open spec fn level_at<F: FileSystem>(
    file_system: &F,
    root: Seq<Part>,
    abbrs: Seq<Option<Seq<char>>>,
) -> Seq<Reached>
    decreases abbrs.len(),
{
    if abbrs.len() == 0 {
        seq![Reached { path: root, strengths: Seq::empty() }]
    } else {
        next_level(file_system, level_at(file_system, root, abbrs.drop_last()), abbrs.last())
    }
}

/// The strengths of a reached directory as pairs of integers.
pub open spec fn strength_pairs(strengths: Seq<Congruence>) -> Seq<(int, int)> {
    Seq::new(strengths.len(), |i: int| strengths[i].rank())
}

/// What the reached directories are ranked by: their strengths and their
/// names.
pub open spec fn standings_of(level: Seq<Reached>) -> Seq<StandingView> {
    Seq::new(
        level.len(),
        |i: int|
            StandingView {
                strengths: strength_pairs(level[i].strengths),
                name: name_of(level[i].path),
            },
    )
}

/// The paths of a level in the order of its ranking: by the strengths of
/// the matches, the first abbreviation first, and among directories with the
/// same strengths by name, without regard to ASCII case.
pub open spec fn ranked_paths(level: Seq<Reached>) -> Seq<Seq<Part>> {
    let places = ranking(standings_of(level), true);
    Seq::new(level.len(), |i: int| level[places[i]].path)
}

/// A search in a file system that answers like a fixed tree has one
/// outcome: searched twice, the same paths are found, in the same order.
pub proof fn lemma_search_repeatable<F: FileSystem>(
    file_system: &F,
    root: Seq<Part>,
    abbrs: Seq<Option<Seq<char>>>,
    first: Vec<DirPath>,
    second: Vec<DirPath>,
)
    requires
        abbrs.len() > 0,
        path_views(first@) == ranked_paths(level_at(file_system, root, abbrs)),
        path_views(second@) == ranked_paths(level_at(file_system, root, abbrs)),
    ensures
        path_views(first@) == path_views(second@),
        first.len() == second.len(),
{
    assert(path_views(first@).len() == first.len());
    assert(path_views(second@).len() == second.len());
}

/// The paths that a search returns are the directories of the last level,
/// each one once, in the order of the strengths of their matches: none
/// stands behind one whose strengths come after its own.
pub proof fn lemma_search_in_order(level: Seq<Reached>)
    ensures
        crate::rank::in_order(ranking(standings_of(level), true), standings_of(level)),
        crate::rank::is_permutation(ranking(standings_of(level), true), level.len() as int),
{
    crate::rank::lemma_ranking_sorted(standings_of(level), true);
}

/// A directory of a level while the search runs.
pub struct Step {
    pub path: DirPath,
    pub strengths: Vec<Congruence>,
}

impl View for Step {
    type V = Reached;

    open spec fn view(&self) -> Reached {
        Reached { path: self.path@, strengths: self.strengths@ }
    }
}

/// The views of a level.
pub open spec fn step_views(level: Seq<Step>) -> Seq<Reached> {
    Seq::new(level.len(), |i: int| level[i]@)
}

/// The directories directly below the given ones, in their order. A
/// directory that cannot be listed adds nothing.
pub fn get_children<F: FileSystem>(paths: &Vec<DirPath>, file_system: &F) -> (r: Vec<DirPath>)
    ensures
        file_system.is_fixed() ==> path_views(r@) == children_of(file_system, path_views(paths@)),
{
    let mut out: Vec<DirPath> = Vec::new();
    let ghost dirs = path_views(paths@);
    let mut i: usize = 0;
    assert(dirs.take(0) =~= Seq::<Seq<Part>>::empty());
    assert(path_views(out@) =~= Seq::<Seq<Part>>::empty());
    while i < paths.len()
        invariant
            i <= paths.len(),
            dirs == path_views(paths@),
            file_system.is_fixed() ==> path_views(out@) == children_of(
                file_system,
                dirs.take(i as int),
            ),
        decreases paths.len() - i,
    {
        assert(dirs.take(i + 1).drop_last() =~= dirs.take(i as int));
        assert(dirs.take(i + 1).last() == paths@[i as int]@);
        let ghost before = path_views(out@);
        match file_system.read_dir(&paths[i]) {
            Ok(mut children) => {
                let ghost added = path_views(children@);
                out.append(&mut children);
                assert(path_views(out@) =~= before + added);
            },
            Err(_) => {
                assert(before + Seq::<Seq<Part>>::empty() =~= before);
            },
        }
        i += 1;
    }
    assert(dirs.take(paths.len() as int) =~= dirs);
    out
}

/// Those of the paths whose names match the abbreviation, each with the
/// strength of its match, in their order.
pub fn filter_paths(paths: &Vec<DirPath>, abbr: &Abbr) -> (r: Vec<Finding>)
    ensures
        finding_views(r@) == filtered(path_views(paths@), abbr@),
{
    let mut out: Vec<Finding> = Vec::new();
    let ghost all = path_views(paths@);
    let mut i: usize = 0;
    assert(all.take(0) =~= Seq::<Seq<Part>>::empty());
    assert(finding_views(out@) =~= Seq::<(Seq<Part>, Congruence)>::empty());
    while i < paths.len()
        invariant
            i <= paths.len(),
            all == path_views(paths@),
            finding_views(out@) == filtered(all.take(i as int), abbr@),
        decreases paths.len() - i,
    {
        assert(all.take(i + 1).drop_last() =~= all.take(i as int));
        assert(all.take(i + 1).last() == paths@[i as int]@);
        let ghost before = finding_views(out@);
        if let Some(name) = paths[i].file_name() {
            if let Some(strength) = abbr.compare(name.as_str()) {
                out.push(Finding { path: paths[i].clone(), congruence: strength });
                assert(finding_views(out@) =~= before.push((paths@[i as int]@, strength)));
            }
        }
        i += 1;
    }
    assert(all.take(paths.len() as int) =~= all);
    out
}

/// A copy of a list of strengths.
pub fn clone_strengths(strengths: &Vec<Congruence>) -> (r: Vec<Congruence>)
    ensures
        r@ == strengths@,
{
    let mut out: Vec<Congruence> = Vec::new();
    let mut i: usize = 0;
    while i < strengths.len()
        invariant
            i <= strengths.len(),
            out@ == strengths@.take(i as int),
        decreases strengths.len() - i,
    {
        out.push(strengths[i]);
        assert(out@ =~= strengths@.take(i + 1));
        i += 1;
    }
    assert(strengths@.take(strengths.len() as int) =~= strengths@);
    out
}

/// The matching directories below one directory of a level.
fn descend<F: FileSystem>(file_system: &F, from: &Step, abbr: &Abbr) -> (r: Vec<Step>)
    ensures
        file_system.is_fixed() ==> step_views(r@) == below(file_system, from@, abbr@),
        forall|k: int| 0 <= k < r.len() ==> matching((#[trigger] r@[k]).path@, abbr@) is Some,
{
    let children = match file_system.read_dir(&from.path) {
        Ok(children) => children,
        Err(_) => Vec::new(),
    };
    assert(file_system.is_fixed() ==> path_views(children@) =~= listed(file_system, from.path@));
    let mut found = filter_paths(&children, abbr);
    let ghost all = finding_views(found@);
    proof {
        lemma_filtered_match(path_views(children@), abbr@);
    }
    let mut out: Vec<Step> = Vec::new();
    let mut i: usize = 0;
    while i < found.len()
        invariant
            i <= found.len(),
            all == finding_views(found@),
            out.len() == i,
            forall|k: int| 0 <= k < all.len() ==> matching((#[trigger] all[k]).0, abbr@) is Some,
            forall|k: int|
                0 <= k < i ==> (#[trigger] out@[k])@ == (Reached {
                    path: all[k].0,
                    strengths: from.strengths@.push(all[k].1),
                }),
        decreases found.len() - i,
    {
        let mut strengths = clone_strengths(&from.strengths);
        strengths.push(found[i].congruence);
        out.push(Step { path: found[i].path.clone(), strengths });
        i += 1;
    }
    assert(file_system.is_fixed() ==> step_views(out@) =~= below(file_system, from@, abbr@));
    out
}

/// The pairs by which a list of strengths is ranked.
pub fn to_pairs(strengths: &Vec<Congruence>) -> (r: Vec<(u8, usize)>)
    ensures
        pairs(r@) == strength_pairs(strengths@),
{
    let mut out: Vec<(u8, usize)> = Vec::new();
    let mut i: usize = 0;
    while i < strengths.len()
        invariant
            i <= strengths.len(),
            out.len() == i,
            forall|k: int|
                0 <= k < i ==> (out@[k].0 as int, out@[k].1 as int) == (
                #[trigger] strengths@[k]).rank(),
        decreases strengths.len() - i,
    {
        out.push(strengths[i].pair());
        i += 1;
    }
    assert(pairs(out@) =~= strength_pairs(strengths@));
    out
}

/// Looks for the directories that match the abbreviations, the first one
/// directly below `root`, each further one directly below a match of the one
/// before. The result holds the paths that match all of them, ranked by the
/// strengths of their matches and, among equals, by name; without
/// abbreviations it is empty.
pub fn search_full<F: FileSystem>(root: &DirPath, abbrs: &Vec<Abbr>, file_system: &F) -> (r: Vec<
    DirPath,
>)
    ensures
        abbrs.len() == 0 ==> r.len() == 0,
        abbrs.len() > 0 && file_system.is_fixed() ==> path_views(r@) == ranked_paths(
            level_at(file_system, root@, abbr_views(abbrs@)),
        ),
        forall|k: int|
            0 <= k < r.len() ==> matching((#[trigger] r@[k])@, abbrs@[abbrs.len() - 1]@) is Some,
{
    if abbrs.len() == 0 {
        return Vec::new();
    }
    let ghost wanted = abbr_views(abbrs@);
    let mut level: Vec<Step> = Vec::new();
    level.push(Step { path: root.clone(), strengths: Vec::new() });
    assert(wanted.take(0) =~= Seq::<Option<Seq<char>>>::empty());
    assert(step_views(level@) =~= level_at(file_system, root@, wanted.take(0)));
    let mut n: usize = 0;
    while n < abbrs.len()
        invariant
            n <= abbrs.len(),
            wanted == abbr_views(abbrs@),
            file_system.is_fixed() ==> step_views(level@) == level_at(
                file_system,
                root@,
                wanted.take(n as int),
            ),
            n > 0 ==> forall|k: int|
                0 <= k < level.len() ==> matching(
                    (#[trigger] level@[k]).path@,
                    abbrs@[n - 1]@,
                ) is Some,
        decreases abbrs.len() - n,
    {
        assert(wanted.take(n + 1).drop_last() =~= wanted.take(n as int));
        assert(wanted.take(n + 1).last() == abbrs@[n as int]@);
        let ghost current = step_views(level@);
        let mut next: Vec<Step> = Vec::new();
        let mut i: usize = 0;
        assert(current.take(0) =~= Seq::<Reached>::empty());
        assert(step_views(next@) =~= Seq::<Reached>::empty());
        while i < level.len()
            invariant
                i <= level.len(),
                n < abbrs.len(),
                current == step_views(level@),
                file_system.is_fixed() ==> step_views(next@) == next_level(
                    file_system,
                    current.take(i as int),
                    abbrs@[n as int]@,
                ),
                forall|k: int|
                    0 <= k < next.len() ==> matching(
                        (#[trigger] next@[k]).path@,
                        abbrs@[n as int]@,
                    ) is Some,
            decreases level.len() - i,
        {
            assert(current.take(i + 1).drop_last() =~= current.take(i as int));
            assert(current.take(i + 1).last() == level@[i as int]@);
            let ghost before = step_views(next@);
            let mut found = descend(file_system, &level[i], &abbrs[n]);
            let ghost added = step_views(found@);
            next.append(&mut found);
            assert(step_views(next@) =~= before + added);
            i += 1;
        }
        assert(current.take(level.len() as int) =~= current);
        level = next;
        n += 1;
    }
    assert(wanted.take(abbrs.len() as int) =~= wanted);
    let ghost reached = step_views(level@);
    let mut standings: Vec<Standing> = Vec::new();
    let mut i: usize = 0;
    while i < level.len()
        invariant
            i <= level.len(),
            reached == step_views(level@),
            standings.len() == i,
            forall|k: int|
                0 <= k < i ==> (#[trigger] standings@[k])@ == standings_of(reached)[k],
        decreases level.len() - i,
    {
        let name = match level[i].path.file_name() {
            Some(name) => name,
            None => String::new(),
        };
        standings.push(Standing { strengths: to_pairs(&level[i].strengths), name });
        i += 1;
    }
    assert(crate::rank::standings(standings@) =~= standings_of(reached));
    let places = rank(&standings, true);
    let mut out: Vec<DirPath> = Vec::new();
    let mut k: usize = 0;
    while k < places.len()
        invariant
            k <= places.len(),
            places.len() == level.len(),
            reached == step_views(level@),
            out.len() == k,
            indices(places@) == ranking(standings_of(reached), true),
            forall|j: int| 0 <= j < places.len() ==> #[trigger] places@[j] < level.len(),
            forall|j: int| 0 <= j < k ==> (#[trigger] out@[j])@ == ranked_paths(reached)[j],
            abbrs.len() > 0,
            forall|j: int|
                0 <= j < level.len() ==> matching(
                    (#[trigger] level@[j]).path@,
                    abbrs@[abbrs.len() - 1]@,
                ) is Some,
            forall|j: int|
                0 <= j < k ==> matching((#[trigger] out@[j])@, abbrs@[abbrs.len() - 1]@) is Some,
        decreases places.len() - k,
    {
        assert(indices(places@)[k as int] == places@[k as int]);
        out.push(level[places[k]].path.clone());
        k += 1;
    }
    assert(path_views(out@) =~= ranked_paths(reached));
    out
}

} // verus!
