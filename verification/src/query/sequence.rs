//! A sequence of slices that must match components of a path in order.

use crate::error::Error;
use crate::query::slice::{is_slice_text, slice_match, slice_of, Slice, SliceMatch};
use crate::query::{MatchStrength, SearchOpts};
use crate::text::{from_chars, rows, split, split_chars, to_chars};
use vstd::prelude::*;

verus! {

/// What a sequence is: its slices, each a literal's text or `None` for the
/// wildcard, and the index of the slice that is to match next.
pub struct SequenceView {
    pub cursor: int,
    pub slices: Seq<Option<Seq<char>>>,
}

impl SequenceView {
    /// The cursor is on one of the slices.
    pub open spec fn well_formed(self) -> bool {
        0 <= self.cursor < self.slices.len()
    }
}

/// An ordered group of slices, with a cursor on the slice that is expected
/// next. A sequence is never empty and its cursor is always on a slice.
#[derive(Debug)]
pub struct Sequence {
    slice_to_match: usize,
    slices: Vec<Slice>,
}

/// What follows from matching one component.
#[derive(Debug)]
pub enum SequenceFlow {
    /// Go on with the given sequence.
    Continue(Sequence, MatchStrength),
    /// The sequence is satisfied; move on to the next one.
    Next(MatchStrength),
    /// Nothing below this component can match.
    DeadEnd,
}

/// What a flow is, with the sequence it carries seen as its view.
pub enum FlowView {
    Continue(SequenceView, MatchStrength),
    Next(MatchStrength),
    DeadEnd,
}

/// The views of a list of slices.
pub open spec fn slice_views(slices: Seq<Slice>) -> Seq<Option<Seq<char>>> {
    Seq::new(slices.len(), |i: int| slices[i]@)
}

/// The slices that the pieces of a text stand for.
pub open spec fn slices_of(pieces: Seq<Seq<char>>) -> Seq<Option<Seq<char>>> {
    Seq::new(pieces.len(), |i: int| slice_of(pieces[i]))
}

/// Every piece is a slice.
pub open spec fn all_slices(pieces: Seq<Seq<char>>) -> bool {
    forall|i: int| 0 <= i < pieces.len() ==> is_slice_text(#[trigger] pieces[i])
}

/// Piece `i` is the first one that is no slice.
pub open spec fn is_first_invalid(pieces: Seq<Seq<char>>, i: int) -> bool {
    &&& 0 <= i < pieces.len()
    &&& !is_slice_text(pieces[i])
    &&& forall|k: int| 0 <= k < i ==> is_slice_text(#[trigger] pieces[k])
}

/// Whether the search must give up at a component that does not match:
/// after a match, once more attempts have passed than `next_depth` allows;
/// before any match, once the attempt exceeds `first_depth`.
pub open spec fn out_of_depth(
    attempt: usize,
    last_match: Option<usize>,
    first_depth: Option<usize>,
    next_depth: Option<usize>,
) -> bool {
    match last_match {
        Some(last) => next_depth matches Some(depth) && attempt > last + depth,
        None => first_depth matches Some(depth) && attempt > depth,
    }
}

/// What follows from matching `component` against the slice under the
/// cursor. A match of the last slice completes the sequence, a match of
/// another slice moves the cursor on. Without a match the search gives up
/// where the depth is used up, and else starts the sequence again at its
/// first slice.
pub open spec fn flow(
    sequence: SequenceView,
    component: Seq<char>,
    attempt: usize,
    last_match: Option<usize>,
    first_depth: Option<usize>,
    next_depth: Option<usize>,
) -> FlowView {
    match slice_match(sequence.slices[sequence.cursor], component) {
        Some(strength) => if sequence.cursor + 1 == sequence.slices.len() {
            FlowView::Next(strength)
        } else {
            FlowView::Continue(
                SequenceView { cursor: sequence.cursor + 1, slices: sequence.slices },
                strength,
            )
        },
        None => if out_of_depth(attempt, last_match, first_depth, next_depth) {
            FlowView::DeadEnd
        } else {
            FlowView::Continue(
                SequenceView { cursor: 0, slices: sequence.slices },
                MatchStrength::Naught,
            )
        },
    }
}

impl View for Sequence {
    type V = SequenceView;

    closed spec fn view(&self) -> SequenceView {
        SequenceView { cursor: self.slice_to_match as int, slices: slice_views(self.slices@) }
    }
}

impl View for SequenceFlow {
    type V = FlowView;

    open spec fn view(&self) -> FlowView {
        match self {
            SequenceFlow::Continue(sequence, strength) => FlowView::Continue(sequence@, *strength),
            SequenceFlow::Next(strength) => FlowView::Next(*strength),
            SequenceFlow::DeadEnd => FlowView::DeadEnd,
        }
    }
}

fn clone_slices(slices: &Vec<Slice>) -> (r: Vec<Slice>)
    ensures
        r@ == slices@,
{
    let mut out: Vec<Slice> = Vec::new();
    let mut i: usize = 0;
    while i < slices.len()
        invariant
            i <= slices.len(),
            out@ == slices@.take(i as int),
        decreases slices.len() - i,
    {
        out.push(slices[i].clone());
        assert(out@ =~= slices@.take(i + 1));
        i += 1;
    }
    assert(slices@.take(slices.len() as int) =~= slices@);
    out
}

impl Clone for Sequence {
    fn clone(&self) -> (r: Self)
        ensures
            r@ == self@,
            r@.well_formed(),
    {
        proof {
            use_type_invariant(self);
        }
        Sequence { slice_to_match: self.slice_to_match, slices: clone_slices(&self.slices) }
    }
}

impl Sequence {
    #[verifier::type_invariant]
    spec fn well_formed(self) -> bool {
        self.slice_to_match < self.slices.len()
    }

    /// The index of the slice that is to match next.
    pub fn cursor(&self) -> (r: usize)
        ensures
            r == self@.cursor,
            self@.well_formed(),
    {
        proof {
            use_type_invariant(self);
        }
        self.slice_to_match
    }

    /// The number of slices.
    pub fn len(&self) -> (r: usize)
        ensures
            r == self@.slices.len(),
            self@.well_formed(),
    {
        proof {
            use_type_invariant(self);
        }
        self.slices.len()
    }

    /// Reads a sequence: the pieces of the text between slashes, each one a
    /// slice. The cursor is on the first slice. Where a piece is no slice,
    /// the error names the first such piece.
    pub fn from_str(slices: &str) -> (r: Result<Self, Error>)
        ensures
            r is Ok <==> all_slices(split(slices@, '/')),
            r matches Ok(sequence) ==> sequence@.well_formed() && sequence@ == (SequenceView {
                cursor: 0,
                slices: slices_of(split(slices@, '/')),
            }),
            r matches Err(error) ==> error matches Error::InvalidSlice(text) && exists|i: int|
                #[trigger] is_first_invalid(split(slices@, '/'), i) && text@ == split(
                    slices@,
                    '/',
                )[i],
    {
        let chars = to_chars(slices);
        let pieces = split_chars(&chars, '/');
        let ghost texts = split(slices@, '/');
        let mut parsed: Vec<Slice> = Vec::new();
        let mut i: usize = 0;
        while i < pieces.len()
            invariant
                i <= pieces.len(),
                rows(pieces@) == texts,
                texts == split(slices@, '/'),
                parsed.len() == i,
                forall|k: int| 0 <= k < i ==> is_slice_text(#[trigger] texts[k]),
                forall|k: int| 0 <= k < i ==> (#[trigger] parsed@[k])@ == slice_of(texts[k]),
            decreases pieces.len() - i,
        {
            assert(texts[i as int] == pieces@[i as int]@);
            let text = from_chars(&pieces[i]);
            assert(text@ == texts[i as int]);
            match Slice::from_string(text) {
                Ok(slice) => {
                    parsed.push(slice);
                },
                Err(error) => {
                    assert(!is_slice_text(texts[i as int]));
                    assert(is_first_invalid(texts, i as int));
                    assert(error == Error::InvalidSlice(text));
                    return Err(error);
                },
            }
            i += 1;
        }
        assert(slice_views(parsed@) =~= slices_of(texts));
        Ok(Sequence { slice_to_match: 0, slices: parsed })
    }

    /// Matches one component of a path against the slice under the cursor
    /// and says how the search goes on. `attempt` counts the components
    /// tried so far, `last_match` is the attempt of the last match of this
    /// sequence, if there was one.
    pub fn match_component(
        &self,
        component: &str,
        attempt: usize,
        last_match: Option<usize>,
        opts: &SearchOpts,
    ) -> (r: Result<SequenceFlow, Error>)
        ensures
            self@.well_formed(),
            r is Ok,
            r->Ok_0 matches SequenceFlow::Continue(next, _) ==> next@.well_formed(),
            r->Ok_0@ == flow(
                self@,
                component@,
                attempt,
                last_match,
                opts.first_depth,
                opts.next_depth,
            ),
            slice_match(self@.slices[self@.cursor], component@) is None && out_of_depth(
                attempt,
                last_match,
                opts.first_depth,
                opts.next_depth,
            ) ==> r->Ok_0 is DeadEnd,
    {
        proof {
            use_type_invariant(self);
        }
        let slice = &self.slices[self.slice_to_match];
        let is_last = self.slice_to_match + 1 == self.slices.len();
        let result = match slice.match_component(component) {
            SliceMatch::Yes(strength) => {
                if is_last {
                    SequenceFlow::Next(strength)
                } else {
                    let sequence = Sequence {
                        slice_to_match: self.slice_to_match + 1,
                        slices: clone_slices(&self.slices),
                    };
                    SequenceFlow::Continue(sequence, strength)
                }
            },
            SliceMatch::No => {
                let spent = match last_match {
                    Some(last) => match opts.next_depth {
                        Some(depth) => attempt > last && attempt - last > depth,
                        None => false,
                    },
                    None => match opts.first_depth {
                        Some(depth) => attempt > depth,
                        None => false,
                    },
                };
                if spent {
                    SequenceFlow::DeadEnd
                } else {
                    let sequence = Sequence {
                        slice_to_match: 0,
                        slices: clone_slices(&self.slices),
                    };
                    SequenceFlow::Continue(sequence, MatchStrength::Naught)
                }
            },
        };
        Ok(result)
    }
}

} // verus!
