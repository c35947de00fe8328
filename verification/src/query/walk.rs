//! The walk through the directory tree, level by level, driven by
//! sequences of slices.

use crate::error::Error;
use crate::path::{file_name, name_of, path_views, DirPath, Part};
use crate::query::sequence::{
    flow, out_of_depth, FlowView, Sequence, SequenceFlow, SequenceView,
};
use crate::query::slice::slice_match;
use crate::query::{MatchStrength, SearchOpts};
use crate::rank::{indices, pairs, rank, ranking, Standing, StandingView};
use crate::search::fs::FileSystem;
use crate::search::listed;
use vstd::prelude::*;

verus! {

/// A directory that matches all sequences, as the specifications see it:
/// its path and the strength of the match of each slice, in their order.
pub struct HitView {
    pub path: Seq<Part>,
    pub strengths: Seq<MatchStrength>,
}

/// A directory that matches all sequences.
#[derive(Debug)]
pub struct Hit {
    pub path: DirPath,
    /// The strength of the match of each slice, in the order of the slices.
    pub strengths: Vec<MatchStrength>,
}

/// A directory on the way, as the specifications see it.
pub struct NodeView {
    pub path: Seq<Part>,
    /// The sequences that are still to match; the first is the current one.
    pub sequences: Seq<SequenceView>,
    /// The number of components between the start and this directory.
    pub attempt: usize,
    /// The attempt at which the current sequence last moved on, if it did.
    pub last_match: Option<usize>,
    /// The strengths of the slices matched so far.
    pub strengths: Seq<MatchStrength>,
}

/// A directory on the way of the walk.
#[derive(Debug)]
pub struct Node {
    pub path: DirPath,
    /// The sequences that are still to match; the first is the current one.
    pub sequences: Vec<Sequence>,
    /// The number of components between the start and this directory.
    pub attempt: usize,
    /// The attempt at which the current sequence last moved on, if it did.
    pub last_match: Option<usize>,
    /// The strengths of the slices matched so far.
    pub strengths: Vec<MatchStrength>,
}

/// What becomes of a directory on the way.
pub enum Verdict {
    /// Nothing below it can match.
    Dead,
    /// It matches all sequences.
    Found(HitView),
    /// Its children are to be tried; they take over everything but the
    /// path.
    Expand(NodeView),
}

/// The views of a list of sequences.
pub open spec fn sequence_views(sequences: Seq<Sequence>) -> Seq<SequenceView> {
    Seq::new(sequences.len(), |i: int| sequences[i]@)
}

impl View for Hit {
    type V = HitView;

    open spec fn view(&self) -> HitView {
        HitView { path: self.path@, strengths: self.strengths@ }
    }
}

impl View for Node {
    type V = NodeView;

    open spec fn view(&self) -> NodeView {
        NodeView {
            path: self.path@,
            sequences: sequence_views(self.sequences@),
            attempt: self.attempt,
            last_match: self.last_match,
            strengths: self.strengths@,
        }
    }
}

/// The views of a list of hits.
pub open spec fn hit_views(hits: Seq<Hit>) -> Seq<HitView> {
    Seq::new(hits.len(), |i: int| hits[i]@)
}

/// The views of a list of nodes.
pub open spec fn node_views(nodes: Seq<Node>) -> Seq<NodeView> {
    Seq::new(nodes.len(), |i: int| nodes[i]@)
}

/// The strengths that stay when the current sequence starts again: those
/// of the sequences before it.
pub open spec fn kept(strengths: Seq<MatchStrength>, cursor: int) -> Seq<MatchStrength> {
    if 0 <= cursor <= strengths.len() {
        strengths.take(strengths.len() - cursor)
    } else {
        Seq::empty()
    }
}

/// What becomes of a directory on the way. Its name is matched against the
/// current sequence. A directory without a name is dead, and so is one at
/// which the sequence gives up. Where the last sequence is satisfied the
/// directory is found. In every other case the children are tried, one
/// attempt further: with the sequence moved on and the strength recorded
/// after a match, with the sequence started again and its strengths dropped
/// where the name does not match, and with the next sequence where the
/// current one is satisfied.
pub open spec fn verdict(
    node: NodeView,
    first_depth: Option<usize>,
    next_depth: Option<usize>,
) -> Verdict {
    if node.sequences.len() == 0 {
        Verdict::Found(HitView { path: node.path, strengths: node.strengths })
    } else {
        match file_name(node.path) {
            None => Verdict::Dead,
            Some(name) => match flow(
                node.sequences[0],
                name,
                node.attempt,
                node.last_match,
                first_depth,
                next_depth,
            ) {
                FlowView::DeadEnd => Verdict::Dead,
                FlowView::Next(strength) => if node.sequences.len() == 1 {
                    Verdict::Found(
                        HitView { path: node.path, strengths: node.strengths.push(strength) },
                    )
                } else if node.attempt == usize::MAX {
                    Verdict::Dead
                } else {
                    Verdict::Expand(
                        NodeView {
                            path: node.path,
                            sequences: node.sequences.drop_first(),
                            attempt: (node.attempt + 1) as usize,
                            last_match: None,
                            strengths: node.strengths.push(strength),
                        },
                    )
                },
                FlowView::Continue(sequence, strength) => if node.attempt == usize::MAX {
                    Verdict::Dead
                } else if strength == MatchStrength::Naught {
                    Verdict::Expand(
                        NodeView {
                            path: node.path,
                            sequences: node.sequences.update(0, sequence),
                            attempt: (node.attempt + 1) as usize,
                            last_match: node.last_match,
                            strengths: kept(node.strengths, node.sequences[0].cursor),
                        },
                    )
                } else {
                    Verdict::Expand(
                        NodeView {
                            path: node.path,
                            sequences: node.sequences.update(0, sequence),
                            attempt: (node.attempt + 1) as usize,
                            last_match: Some(node.attempt),
                            strengths: node.strengths.push(strength),
                        },
                    )
                },
            },
        }
    }
}

/// A directory is on course for a goal, the slices of the last sequence:
/// it has sequences to match, the last of them has these slices, and the
/// cursor of each sequence is on one of its slices.
pub open spec fn on_course(node: NodeView, goal: Seq<Option<Seq<char>>>) -> bool {
    &&& node.sequences.len() > 0
    &&& node.sequences.last().slices == goal
    &&& forall|i: int|
        0 <= i < node.sequences.len() ==> (#[trigger] node.sequences[i]).well_formed()
}

/// A hit arrives at a goal: its name matches the last slice of the goal,
/// with the strength that the hit records last.
pub open spec fn arrives(hit: HitView, goal: Seq<Option<Seq<char>>>) -> bool {
    &&& goal.len() > 0
    &&& hit.strengths.len() > 0
    &&& file_name(hit.path) matches Some(name) && slice_match(goal.last(), name) == Some(
        hit.strengths.last(),
    )
}

/// What is on course stays on course, and what is found has arrived: the
/// name of every directory that is found matches the last slice of the last
/// sequence.
pub proof fn lemma_verdict_on_course(
    node: NodeView,
    first_depth: Option<usize>,
    next_depth: Option<usize>,
    goal: Seq<Option<Seq<char>>>,
)
    requires
        on_course(node, goal),
    ensures
        match verdict(node, first_depth, next_depth) {
            Verdict::Found(hit) => arrives(hit, goal),
            Verdict::Expand(next) => on_course(next, goal),
            Verdict::Dead => true,
        },
{
    assert(node.sequences[0].well_formed());
    match verdict(node, first_depth, next_depth) {
        Verdict::Expand(next) => {
            assert forall|i: int| 0 <= i < next.sequences.len() implies (
            #[trigger] next.sequences[i]).well_formed() by {
                if next.sequences.len() == node.sequences.len() {
                    if i > 0 {
                        assert(next.sequences[i] == node.sequences[i]);
                    }
                } else {
                    assert(next.sequences[i] == node.sequences[i + 1]);
                }
            }
        },
        _ => {},
    }
}

/// A directory whose name does not match the slice that is next is never
/// expanded once the depth is used up: before any match of the sequence
/// once the attempt exceeds `first_depth`, after a match once more attempts
/// have passed than `next_depth` allows.
pub proof fn lemma_depth_bound(
    node: NodeView,
    first_depth: Option<usize>,
    next_depth: Option<usize>,
)
    requires
        node.sequences.len() > 0,
        file_name(node.path) matches Some(name) && slice_match(
            node.sequences[0].slices[node.sequences[0].cursor],
            name,
        ) is None,
        out_of_depth(node.attempt, node.last_match, first_depth, next_depth),
    ensures
        verdict(node, first_depth, next_depth) is Dead,
{
}

/// A directory without a name, and a directory at which the sequence gives
/// up, have no part in the level below.
pub proof fn lemma_dead_is_not_expanded<F: FileSystem>(
    file_system: &F,
    level: Seq<NodeView>,
    first_depth: Option<usize>,
    next_depth: Option<usize>,
)
    requires
        level.len() > 0,
        verdict(level.last(), first_depth, next_depth) is Dead,
    ensures
        level_below(file_system, level, first_depth, next_depth) == level_below(
            file_system,
            level.drop_last(),
            first_depth,
            next_depth,
        ),
        hits_of(level, first_depth, next_depth) == hits_of(
            level.drop_last(),
            first_depth,
            next_depth,
        ),
{
}

/// The nodes for the given directories, each taking over everything but the
/// path from `from`.
pub open spec fn heirs(from: NodeView, children: Seq<Seq<Part>>) -> Seq<NodeView> {
    Seq::new(
        children.len(),
        |i: int|
            NodeView {
                path: children[i],
                sequences: from.sequences,
                attempt: from.attempt,
                last_match: from.last_match,
                strengths: from.strengths,
            },
    )
}

/// The directories of a level that match all sequences, in the order of the
/// level.
pub open spec fn hits_of(
    level: Seq<NodeView>,
    first_depth: Option<usize>,
    next_depth: Option<usize>,
) -> Seq<HitView>
    decreases level.len(),
{
    if level.len() == 0 {
        Seq::empty()
    } else {
        let before = hits_of(level.drop_last(), first_depth, next_depth);
        match verdict(level.last(), first_depth, next_depth) {
            Verdict::Found(hit) => before.push(hit),
            _ => before,
        }
    }
}

/// The level below a level: the children of those of its directories that
/// are neither dead nor found, in the order of the level.
pub open spec fn level_below<F: FileSystem>(
    file_system: &F,
    level: Seq<NodeView>,
    first_depth: Option<usize>,
    next_depth: Option<usize>,
) -> Seq<NodeView>
    decreases level.len(),
{
    if level.len() == 0 {
        Seq::empty()
    } else {
        let before = level_below(file_system, level.drop_last(), first_depth, next_depth);
        match verdict(level.last(), first_depth, next_depth) {
            Verdict::Expand(from) => before + heirs(from, listed(file_system, from.path)),
            _ => before,
        }
    }
}

/// The hits of the first level, from the given one downwards, that has any;
/// none where the levels run out first or `levels` levels were tried.
pub open spec fn first_hits<F: FileSystem>(
    file_system: &F,
    level: Seq<NodeView>,
    first_depth: Option<usize>,
    next_depth: Option<usize>,
    levels: nat,
) -> Seq<HitView>
    decreases levels,
{
    if level.len() == 0 || levels == 0 {
        Seq::empty()
    } else if hits_of(level, first_depth, next_depth).len() > 0 {
        hits_of(level, first_depth, next_depth)
    } else {
        first_hits(
            file_system,
            level_below(file_system, level, first_depth, next_depth),
            first_depth,
            next_depth,
            (levels - 1) as nat,
        )
    }
}

/// The pair by which a strength is ranked.
pub open spec fn strength_rank(strength: MatchStrength) -> (int, int) {
    match strength {
        MatchStrength::Complete => (0, 0),
        MatchStrength::Partial => (1, 0),
        MatchStrength::Wildcard => (2, 0),
        MatchStrength::Naught => (3, 0),
    }
}

/// The tiers of the strengths: a complete match comes before a partial one,
/// every match of a literal before a match of the wildcard, and the
/// wildcard ties with nothing but the wildcard.
pub proof fn lemma_strength_tiers(a: MatchStrength, b: MatchStrength)
    ensures
        crate::rank::pair_precedes(
            strength_rank(MatchStrength::Complete),
            strength_rank(MatchStrength::Partial),
        ),
        crate::rank::pair_precedes(
            strength_rank(MatchStrength::Partial),
            strength_rank(MatchStrength::Wildcard),
        ),
        crate::rank::pair_precedes(
            strength_rank(MatchStrength::Wildcard),
            strength_rank(MatchStrength::Naught),
        ),
        strength_rank(a) == strength_rank(b) <==> a == b,
        a != b ==> crate::rank::pair_precedes(strength_rank(a), strength_rank(b))
            || crate::rank::pair_precedes(strength_rank(b), strength_rank(a)),
{
}

/// What the hits are ranked by: their strengths and their names.
pub open spec fn standings_of(hits: Seq<HitView>) -> Seq<StandingView> {
    Seq::new(
        hits.len(),
        |i: int|
            StandingView {
                strengths: Seq::new(
                    hits[i].strengths.len(),
                    |k: int| strength_rank(hits[i].strengths[k]),
                ),
                name: name_of(hits[i].path),
            },
    )
}

/// The hits in the order of their ranking, by strengths and then by name.
pub open spec fn ranked(hits: Seq<HitView>) -> Seq<HitView> {
    let places = ranking(standings_of(hits), true);
    Seq::new(hits.len(), |i: int| hits[places[i]])
}

/// The level at which the walk begins: the directories directly below the
/// start, with all sequences still to match.
pub open spec fn first_level<F: FileSystem>(
    file_system: &F,
    start: Seq<Part>,
    sequences: Seq<SequenceView>,
) -> Seq<NodeView> {
    heirs(
        NodeView {
            path: start,
            sequences,
            attempt: 0,
            last_match: None,
            strengths: Seq::empty(),
        },
        listed(file_system, start),
    )
}

/// What a walk finds in a file system that answers like a fixed tree: the
/// ranked hits of the first level that has any.
pub open spec fn found<F: FileSystem>(
    file_system: &F,
    start: Seq<Part>,
    sequences: Seq<SequenceView>,
    first_depth: Option<usize>,
    next_depth: Option<usize>,
) -> Seq<HitView> {
    if sequences.len() == 0 {
        seq![HitView { path: start, strengths: Seq::empty() }]
    } else {
        ranked(
            first_hits(
                file_system,
                first_level(file_system, start, sequences),
                first_depth,
                next_depth,
                usize::MAX as nat,
            ),
        )
    }
}

fn clone_sequences(sequences: &Vec<Sequence>, from: usize) -> (r: Vec<Sequence>)
    requires
        from <= sequences.len(),
    ensures
        sequence_views(r@) == sequence_views(sequences@).skip(from as int),
        forall|k: int| 0 <= k < r.len() ==> (#[trigger] r@[k])@.well_formed(),
{
    let mut out: Vec<Sequence> = Vec::new();
    let mut i: usize = from;
    while i < sequences.len()
        invariant
            from <= i <= sequences.len(),
            out.len() == i - from,
            forall|k: int| 0 <= k < out.len() ==> (#[trigger] out@[k])@ == sequences@[from + k]@,
            forall|k: int| 0 <= k < out.len() ==> (#[trigger] out@[k])@.well_formed(),
        decreases sequences.len() - i,
    {
        out.push(sequences[i].clone());
        i += 1;
    }
    assert(sequence_views(out@) =~= sequence_views(sequences@).skip(from as int));
    out
}

fn clone_strengths(strengths: &Vec<MatchStrength>) -> (r: Vec<MatchStrength>)
    ensures
        r@ == strengths@,
{
    let mut out: Vec<MatchStrength> = Vec::new();
    let mut i: usize = 0;
    while i < strengths.len()
        invariant
            i <= strengths.len(),
            out@ == strengths@.take(i as int),
        decreases strengths.len() - i,
    {
        out.push(strengths[i]);
        assert(out@ =~= strengths@.take(i + 1));
        i += 1;
    }
    assert(strengths@.take(strengths.len() as int) =~= strengths@);
    out
}

/// What `judge` hands back: a verdict with the values that it carries.
pub enum Judgement {
    Dead,
    Found(Hit),
    Expand(Node),
}

impl View for Judgement {
    type V = Verdict;

    open spec fn view(&self) -> Verdict {
        match self {
            Judgement::Dead => Verdict::Dead,
            Judgement::Found(hit) => Verdict::Found(hit@),
            Judgement::Expand(node) => Verdict::Expand(node@),
        }
    }
}

/// Decides what becomes of a directory on the way.
pub fn judge(node: &Node, opts: &SearchOpts) -> (r: Judgement)
    ensures
        r@ == verdict(node@, opts.first_depth, opts.next_depth),
{
    if node.sequences.len() == 0 {
        return Judgement::Found(
            Hit { path: node.path.clone(), strengths: clone_strengths(&node.strengths) },
        );
    }
    let name = match node.path.file_name() {
        Some(name) => name,
        None => {
            return Judgement::Dead;
        },
    };
    let current = &node.sequences[0];
    let cursor = current.cursor();
    assert(sequence_views(node.sequences@)[0] == current@);
    let flowed = match current.match_component(
        name.as_str(),
        node.attempt,
        node.last_match,
        opts,
    ) {
        Ok(flowed) => flowed,
        Err(_) => {
            return Judgement::Dead;
        },
    };
    match flowed {
        SequenceFlow::DeadEnd => Judgement::Dead,
        SequenceFlow::Next(strength) => {
            let mut strengths = clone_strengths(&node.strengths);
            strengths.push(strength);
            if node.sequences.len() == 1 {
                Judgement::Found(Hit { path: node.path.clone(), strengths })
            } else if node.attempt == usize::MAX {
                Judgement::Dead
            } else {
                let rest = clone_sequences(&node.sequences, 1);
                assert(sequence_views(node.sequences@).skip(1) =~= sequence_views(
                    node.sequences@,
                ).drop_first());
                Judgement::Expand(
                    Node {
                        path: node.path.clone(),
                        sequences: rest,
                        attempt: node.attempt + 1,
                        last_match: None,
                        strengths,
                    },
                )
            }
        },
        SequenceFlow::Continue(sequence, strength) => {
            if node.attempt == usize::MAX {
                return Judgement::Dead;
            }
            let ghost moved = sequence@;
            let mut sequences = clone_sequences(&node.sequences, 1);
            let ghost rest = sequences@;
            assert(sequence_views(rest).len() == rest.len());
            assert(sequence_views(node.sequences@).skip(1).len() == node.sequences.len() - 1);
            sequences.insert(0, sequence);
            assert(sequences.len() == node.sequences.len());
            assert(sequences@[0]@ == moved);
            assert forall|k: int| 0 <= k < sequences.len() implies sequence_views(
                sequences@,
            )[k] == sequence_views(node.sequences@).update(0, moved)[k] by {
                if k > 0 {
                    assert(sequences@[k] == rest[k - 1]);
                    assert(sequence_views(rest)[k - 1] == sequence_views(node.sequences@).skip(
                        1,
                    )[k - 1]);
                }
            }
            assert(sequence_views(sequences@) =~= sequence_views(node.sequences@).update(
                0,
                moved,
            ));
            let mut strengths = clone_strengths(&node.strengths);
            match strength {
                MatchStrength::Naught => {
                    if cursor <= strengths.len() {
                        strengths.truncate(strengths.len() - cursor);
                    } else {
                        strengths.truncate(0);
                    }
                    assert(strengths@ =~= kept(node.strengths@, cursor as int));
                    Judgement::Expand(
                        Node {
                            path: node.path.clone(),
                            sequences,
                            attempt: node.attempt + 1,
                            last_match: node.last_match,
                            strengths,
                        },
                    )
                },
                _ => {
                    strengths.push(strength);
                    Judgement::Expand(
                        Node {
                            path: node.path.clone(),
                            sequences,
                            attempt: node.attempt + 1,
                            last_match: Some(node.attempt),
                            strengths,
                        },
                    )
                },
            }
        },
    }
}

/// The nodes for the children of a directory.
fn inherit(from: &Node, children: &Vec<DirPath>) -> (r: Vec<Node>)
    ensures
        node_views(r@) == heirs(from@, path_views(children@)),
{
    let mut out: Vec<Node> = Vec::new();
    let mut i: usize = 0;
    while i < children.len()
        invariant
            i <= children.len(),
            out.len() == i,
            forall|k: int|
                0 <= k < i ==> (#[trigger] out@[k])@ == heirs(from@, path_views(children@))[k],
        decreases children.len() - i,
    {
        let sequences = clone_sequences(&from.sequences, 0);
        assert(sequence_views(from.sequences@).skip(0) =~= sequence_views(from.sequences@));
        out.push(
            Node {
                path: children[i].clone(),
                sequences,
                attempt: from.attempt,
                last_match: from.last_match,
                strengths: clone_strengths(&from.strengths),
            },
        );
        i += 1;
    }
    assert(node_views(out@) =~= heirs(from@, path_views(children@)));
    out
}

/// What a file system lists below a directory; nothing where it cannot be
/// listed.
fn list<F: FileSystem>(file_system: &F, dir: &DirPath) -> (r: Vec<DirPath>)
    ensures
        file_system.is_fixed() ==> path_views(r@) == listed(file_system, dir@),
{
    match file_system.read_dir(dir) {
        Ok(children) => children,
        Err(_) => {
            let none: Vec<DirPath> = Vec::new();
            assert(path_views(none@) =~= Seq::<Seq<Part>>::empty());
            none
        },
    }
}

/// Tries every directory of a level: collects those that match all
/// sequences, and the children of those that are to be tried further.
pub fn step<F: FileSystem>(file_system: &F, level: &Vec<Node>, opts: &SearchOpts) -> (r: (
    Vec<Hit>,
    Vec<Node>,
))
    ensures
        hit_views(r.0@) == hits_of(node_views(level@), opts.first_depth, opts.next_depth),
        file_system.is_fixed() ==> node_views(r.1@) == level_below(
            file_system,
            node_views(level@),
            opts.first_depth,
            opts.next_depth,
        ),
        level.len() > 0 && (forall|k: int|
            0 <= k < level.len() ==> on_course(
                #[trigger] level@[k]@,
                level@[0]@.sequences.last().slices,
            )) ==> (forall|k: int|
            0 <= k < r.0.len() ==> arrives(
                #[trigger] r.0@[k]@,
                level@[0]@.sequences.last().slices,
            )) && (forall|k: int|
            0 <= k < r.1.len() ==> on_course(
                #[trigger] r.1@[k]@,
                level@[0]@.sequences.last().slices,
            )),
{
    let ghost all = node_views(level@);
    let ghost goal = if level.len() > 0 {
        level@[0]@.sequences.last().slices
    } else {
        Seq::empty()
    };
    let ghost steady = level.len() > 0 && (forall|k: int|
        0 <= k < level.len() ==> on_course(#[trigger] level@[k]@, goal));
    let mut hits: Vec<Hit> = Vec::new();
    let mut next: Vec<Node> = Vec::new();
    let mut i: usize = 0;
    assert(all.take(0) =~= Seq::<NodeView>::empty());
    assert(hit_views(hits@) =~= Seq::<HitView>::empty());
    assert(node_views(next@) =~= Seq::<NodeView>::empty());
    while i < level.len()
        invariant
            i <= level.len(),
            all == node_views(level@),
            hit_views(hits@) == hits_of(all.take(i as int), opts.first_depth, opts.next_depth),
            file_system.is_fixed() ==> node_views(next@) == level_below(
                file_system,
                all.take(i as int),
                opts.first_depth,
                opts.next_depth,
            ),
            steady ==> forall|k: int| 0 <= k < level.len() ==> on_course(#[trigger] level@[k]@, goal),
            steady ==> forall|k: int| 0 <= k < hits.len() ==> arrives(#[trigger] hits@[k]@, goal),
            steady ==> forall|k: int| 0 <= k < next.len() ==> on_course(#[trigger] next@[k]@, goal),
        decreases level.len() - i,
    {
        proof {
            if steady {
                lemma_verdict_on_course(level@[i as int]@, opts.first_depth, opts.next_depth, goal);
            }
        }
        assert(all.take(i + 1).drop_last() =~= all.take(i as int));
        assert(all.take(i + 1).last() == level@[i as int]@);
        let ghost hits_before = hit_views(hits@);
        let ghost next_before = node_views(next@);
        match judge(&level[i], opts) {
            Judgement::Dead => {},
            Judgement::Found(hit) => {
                hits.push(hit);
                assert(hit_views(hits@) =~= hits_before.push(hit@));
            },
            Judgement::Expand(from) => {
                let children = list(file_system, &from.path);
                let mut added = inherit(&from, &children);
                let ghost added_views = node_views(added@);
                let ghost added_nodes = added@;
                let ghost kept_nodes = next@;
                next.append(&mut added);
                assert(node_views(next@) =~= next_before + added_views);
                assert forall|k: int| 0 <= k < next.len() && steady implies on_course(
                    #[trigger] next@[k]@,
                    goal,
                ) by {
                    if k >= kept_nodes.len() {
                        let j = k - kept_nodes.len();
                        assert(next@[k] == added_nodes[j]);
                        assert(added_views[j] == added_nodes[j]@);
                        assert(added_nodes[j]@.sequences == from@.sequences);
                    } else {
                        assert(next@[k] == kept_nodes[k]);
                    }
                }
            },
        }
        i += 1;
    }
    assert(all.take(level.len() as int) =~= all);
    (hits, next)
}

/// The pairs by which the strengths of a hit are ranked.
fn to_pairs(strengths: &Vec<MatchStrength>) -> (r: Vec<(u8, usize)>)
    ensures
        pairs(r@) == Seq::new(strengths@.len(), |k: int| strength_rank(strengths@[k])),
{
    let mut out: Vec<(u8, usize)> = Vec::new();
    let mut i: usize = 0;
    while i < strengths.len()
        invariant
            i <= strengths.len(),
            out.len() == i,
            forall|k: int|
                0 <= k < i ==> (out@[k].0 as int, out@[k].1 as int) == strength_rank(
                    #[trigger] strengths@[k],
                ),
        decreases strengths.len() - i,
    {
        let pair: (u8, usize) = match strengths[i] {
            MatchStrength::Complete => (0, 0),
            MatchStrength::Partial => (1, 0),
            MatchStrength::Wildcard => (2, 0),
            MatchStrength::Naught => (3, 0),
        };
        out.push(pair);
        i += 1;
    }
    assert(pairs(out@) =~= Seq::new(strengths@.len(), |k: int| strength_rank(strengths@[k])));
    out
}

/// Ranks hits by the strengths of their matches, slice by slice, and among
/// equals by name.
pub fn rank_hits(hits: &Vec<Hit>) -> (r: Vec<Hit>)
    ensures
        hit_views(r@) == ranked(hit_views(hits@)),
        r.len() == hits.len(),
        forall|j: int| 0 <= j < r.len() ==> hit_views(hits@).contains(#[trigger] r@[j]@),
{
    let ghost all = hit_views(hits@);
    let mut standings: Vec<Standing> = Vec::new();
    let mut i: usize = 0;
    while i < hits.len()
        invariant
            i <= hits.len(),
            all == hit_views(hits@),
            standings.len() == i,
            forall|k: int| 0 <= k < i ==> (#[trigger] standings@[k])@ == standings_of(all)[k],
        decreases hits.len() - i,
    {
        let name = match hits[i].path.file_name() {
            Some(name) => name,
            None => String::new(),
        };
        standings.push(Standing { strengths: to_pairs(&hits[i].strengths), name });
        i += 1;
    }
    assert(crate::rank::standings(standings@) =~= standings_of(all));
    let places = rank(&standings, true);
    let mut out: Vec<Hit> = Vec::new();
    let mut k: usize = 0;
    while k < places.len()
        invariant
            k <= places.len(),
            places.len() == hits.len(),
            all == hit_views(hits@),
            out.len() == k,
            indices(places@) == ranking(standings_of(all), true),
            forall|j: int| 0 <= j < places.len() ==> #[trigger] places@[j] < hits.len(),
            forall|j: int| 0 <= j < k ==> (#[trigger] out@[j])@ == ranked(all)[j],
            forall|j: int| 0 <= j < k ==> all.contains((#[trigger] out@[j])@),
        decreases places.len() - k,
    {
        assert(indices(places@)[k as int] == places@[k as int]);
        assert(all[places@[k as int] as int] == hits@[places@[k as int] as int]@);
        let hit = &hits[places[k]];
        out.push(Hit { path: hit.path.clone(), strengths: clone_strengths(&hit.strengths) });
        k += 1;
    }
    assert(hit_views(out@) =~= ranked(all));
    out
}

/// Walks the tree below the start directory of `opts`, level by level, and
/// matches the name of each directory against the sequences. The walk ends
/// at the first level on which a directory matches all sequences; the
/// matches of that level are returned, the best first. Without sequences
/// the start directory is the one match. Where the levels run out without a
/// match, the path is not found.
pub fn walk<F: FileSystem>(file_system: &F, sequences: &Vec<Sequence>, opts: &SearchOpts) -> (r:
    Result<Vec<Hit>, Error>)
    ensures
        r matches Ok(hits) ==> hits.len() > 0,
        r matches Err(error) ==> error == Error::PathNotFound,
        sequences.len() > 0 ==> (r matches Ok(hits) ==> forall|k: int|
            0 <= k < hits.len() ==> arrives(
                #[trigger] hits@[k]@,
                sequences@[sequences.len() - 1]@.slices,
            )),
        file_system.is_fixed() ==> walked(
            file_system,
            crate::path::parts(opts.start_dir@),
            sequence_views(sequences@),
            opts.first_depth,
            opts.next_depth,
            r,
        ),
{
    let start = DirPath::parse(opts.start_dir.as_str());
    if sequences.len() == 0 {
        let mut only: Vec<Hit> = Vec::new();
        only.push(Hit { path: start, strengths: Vec::new() });
        assert(hit_views(only@) =~= seq![
            HitView { path: crate::path::parts(opts.start_dir@), strengths: Seq::empty() },
        ]);
        return Ok(only);
    }
    let root = Node {
        path: start,
        sequences: clone_sequences(sequences, 0),
        attempt: 0,
        last_match: None,
        strengths: Vec::new(),
    };
    assert(sequence_views(sequences@).skip(0) =~= sequence_views(sequences@));
    let children = list(file_system, &root.path);
    let mut level = inherit(&root, &children);
    let ghost first = first_level(
        file_system,
        crate::path::parts(opts.start_dir@),
        sequence_views(sequences@),
    );
    assert(file_system.is_fixed() ==> node_views(level@) =~= first);
    let ghost goal = sequences@[sequences.len() - 1]@.slices;
    assert forall|k: int| 0 <= k < level.len() implies on_course(#[trigger] level@[k]@, goal) by {
        let listed_here = path_views(children@);
        assert(node_views(level@).len() == level.len());
        assert(heirs(root@, listed_here).len() == listed_here.len());
        assert(node_views(level@)[k] == level@[k]@);
        assert(heirs(root@, listed_here)[k].sequences == root@.sequences);
        assert(level@[k]@.sequences == root@.sequences);
        assert(root@.sequences =~= sequence_views(sequences@));
        assert forall|i: int| 0 <= i < root@.sequences.len() implies (
        #[trigger] root@.sequences[i]).well_formed() by {
            assert(root@.sequences[i] == root.sequences@[i]@);
        }
    }
    let mut left: usize = usize::MAX;
    let mut hits: Vec<Hit> = Vec::new();
    while level.len() > 0 && left > 0
        invariant_except_break
            hits.len() == 0,
            file_system.is_fixed() ==> first_hits(
                file_system,
                first,
                opts.first_depth,
                opts.next_depth,
                usize::MAX as nat,
            ) == first_hits(
                file_system,
                node_views(level@),
                opts.first_depth,
                opts.next_depth,
                left as nat,
            ),
        invariant
            forall|k: int| 0 <= k < level.len() ==> on_course(#[trigger] level@[k]@, goal),
            forall|k: int| 0 <= k < hits.len() ==> arrives(#[trigger] hits@[k]@, goal),
        ensures
            hits.len() > 0 || level.len() == 0 || left == 0,
            file_system.is_fixed() ==> hit_views(hits@) == first_hits(
                file_system,
                first,
                opts.first_depth,
                opts.next_depth,
                usize::MAX as nat,
            ),
        decreases left,
    {
        assert(level@[0]@.sequences.last().slices == goal);
        let (found_here, next) = step(file_system, &level, opts);
        if found_here.len() > 0 {
            hits = found_here;
            break;
        }
        level = next;
        left -= 1;
    }
    assert(hit_views(hits@).len() == hits.len());
    if hits.len() == 0 {
        proof {
            lemma_ranked_len(hit_views(hits@));
        }
        return Err(Error::PathNotFound);
    }
    let out = rank_hits(&hits);
    proof {
        lemma_ranked_len(hit_views(hits@));
    }
    assert(hit_views(out@).len() == out.len());
    Ok(out)
}

/// `r` is what a walk returns in a file system that answers like a fixed
/// tree.
pub open spec fn walked<F: FileSystem>(
    file_system: &F,
    start: Seq<Part>,
    sequences: Seq<SequenceView>,
    first_depth: Option<usize>,
    next_depth: Option<usize>,
    r: Result<Vec<Hit>, Error>,
) -> bool {
    match r {
        Ok(hits) => hits.len() > 0 && hit_views(hits@) == found(
            file_system,
            start,
            sequences,
            first_depth,
            next_depth,
        ),
        Err(error) => error == Error::PathNotFound && found(
            file_system,
            start,
            sequences,
            first_depth,
            next_depth,
        ).len() == 0,
    }
}

/// A walk through a file system that answers like a fixed tree has one
/// outcome: walked twice, the same directories are found, in the same
/// order.
pub proof fn lemma_walk_repeatable<F: FileSystem>(
    file_system: &F,
    start: Seq<Part>,
    sequences: Seq<SequenceView>,
    first_depth: Option<usize>,
    next_depth: Option<usize>,
    first: Result<Vec<Hit>, Error>,
    second: Result<Vec<Hit>, Error>,
)
    requires
        walked(file_system, start, sequences, first_depth, next_depth, first),
        walked(file_system, start, sequences, first_depth, next_depth, second),
    ensures
        first is Ok <==> second is Ok,
        first matches Ok(a) ==> second matches Ok(b) && hit_views(a@) == hit_views(b@),
{
    if first is Ok {
        assert(hit_views(first->Ok_0@).len() == first->Ok_0.len());
    }
    if second is Ok {
        assert(hit_views(second->Ok_0@).len() == second->Ok_0.len());
    }
}

/// Ranking keeps the number of hits.
pub proof fn lemma_ranked_len(hits: Seq<HitView>)
    ensures
        ranked(hits).len() == hits.len(),
{
}

} // verus!
