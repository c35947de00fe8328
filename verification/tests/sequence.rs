use kn::query::sequence::{Sequence, SequenceFlow};
use kn::query::slice::{Slice, SliceMatch};
use kn::query::MatchStrength::{Complete, Naught, Partial, Wildcard};
use kn::query::SearchOpts;

fn continues(flow: SequenceFlow, strength: kn::query::MatchStrength) -> Sequence {
    match flow {
        SequenceFlow::Continue(sequence, found) if found == strength => sequence,
        other => panic!("{:?}", other),
    }
}

#[test]
fn test_sequence_from_str() {
    assert!(Sequence::from_str(r"").is_err());
    assert!(Sequence::from_str(r".").is_err());
    assert!(Sequence::from_str(r"ab cd").is_err());
    assert!(Sequence::from_str(r"\").is_err());
    assert!(Sequence::from_str(r"\").is_err());

    assert!(Sequence::from_str(r"ab/cd/ef").is_ok());
    assert!(Sequence::from_str(r"abc").is_ok());
}

#[test]
fn test_basic_match() {
    let sequence_abc: Sequence = Sequence::from_str(r"a/b/c").unwrap();
    let opts = SearchOpts::default();
    let last_match = None;

    // Test path: `a/bee/ice`.

    let result = sequence_abc.match_component("a", 0, last_match, &opts).unwrap();
    let sequence_bc = continues(result, Complete);

    let result = sequence_bc.match_component("bee", 1, last_match, &opts).unwrap();
    let sequence_c = continues(result, Partial);

    let result = sequence_c.match_component("ice", 2, last_match, &opts).unwrap();
    assert!(matches!(result, SequenceFlow::Next(Partial)));
}

#[test]
fn test_recover_premature_match() {
    let sequence_xy: Sequence = Sequence::from_str("x/y").unwrap();
    let opts = SearchOpts::default();
    let last_match = None;

    // Test path: `x/o/ox/ymoron`.

    let result = sequence_xy.match_component("x", 0, last_match, &opts).unwrap();
    let sequence_y = continues(result, Complete);

    let result = sequence_y.match_component("o", 1, last_match, &opts).unwrap();
    let sequence_xy = continues(result, Naught);
    assert_eq!(sequence_xy.cursor(), 0);

    let result = sequence_xy.match_component("ox", 2, last_match, &opts).unwrap();
    let sequence_y = continues(result, Partial);
    assert_eq!(sequence_y.cursor(), 1);

    let result = sequence_y.match_component("ymoron", 3, last_match, &opts).unwrap();
    assert!(matches!(result, SequenceFlow::Next(Partial)));
}

#[test]
fn slice_test_from_string() {
    let slice = |s: &str| Slice::from_string(s.to_string());

    assert!(slice("").is_err());
    assert!(slice(".").is_err());
    assert!(slice("..").is_err());
    assert!(slice("...").is_err());
    assert!(slice("one two three").is_err());

    let slice = |s: &str| Slice::from_string(s.to_string()).unwrap();

    assert!(matches!(slice("-"), Slice::Wildcard));
    assert!(matches!(slice("--"), Slice::Literal(literal) if literal == "--"));
    assert!(matches!(slice("mOcKiNgBiRd"), Slice::Literal(literal) if literal == "mockingbird"));
    assert!(matches!(slice("X.ae.A-12"), Slice::Literal(literal) if literal == "x.ae.a-12"));
}

#[test]
fn slice_test_wildcard_match() {
    let slice = Slice::Wildcard;

    assert!(matches!(slice.match_component("iks"), SliceMatch::Yes(Wildcard)));
    assert!(matches!(slice.match_component("eh--ehe123"), SliceMatch::Yes(Wildcard)));
    assert!(matches!(slice.match_component("coStaMm"), SliceMatch::Yes(Wildcard)));
    assert!(matches!(slice.match_component(""), SliceMatch::Yes(Wildcard)));
}

#[test]
fn slice_test_literal_match() {
    let slice = Slice::Literal("mi".to_string());

    assert!(matches!(slice.match_component("mi"), SliceMatch::Yes(Complete)));
    assert!(matches!(slice.match_component("Mi"), SliceMatch::Yes(Complete)));
    assert!(matches!(slice.match_component("ooo..oo---mi-ooooo"), SliceMatch::Yes(Partial)));
    assert!(matches!(slice.match_component("ooo..oo---mI-ooooo"), SliceMatch::Yes(Partial)));
    assert!(matches!(slice.match_component("xxxxxx"), SliceMatch::No));
}

#[test]
fn invalid_slice_is_named_in_the_error() {
    assert_eq!(
        Sequence::from_str("ab//cd").unwrap_err(),
        kn::error::Error::InvalidSlice(String::new())
    );
    assert_eq!(
        Sequence::from_str("ab/c d/..").unwrap_err(),
        kn::error::Error::InvalidSlice("c d".to_string())
    );
    assert_eq!(
        Slice::from_string("zażółć".to_string()).unwrap_err(),
        kn::error::Error::InvalidSlice("zażółć".to_string())
    );
}

#[test]
fn depth_bounds_end_the_search() {
    let sequence = Sequence::from_str("x/y").unwrap();
    let opts = SearchOpts { first_depth: Some(1), next_depth: Some(2), start_dir: ".".to_string() };

    // Before any match the attempt may reach `first_depth`, not exceed it.
    assert!(matches!(
        sequence.match_component("o", 1, None, &opts).unwrap(),
        SequenceFlow::Continue(_, Naught)
    ));
    assert!(matches!(sequence.match_component("o", 2, None, &opts).unwrap(), SequenceFlow::DeadEnd));

    // After a match at attempt 3, attempts 4 and 5 may fail, attempt 6 may not.
    assert!(matches!(
        sequence.match_component("o", 5, Some(3), &opts).unwrap(),
        SequenceFlow::Continue(_, Naught)
    ));
    assert!(matches!(sequence.match_component("o", 6, Some(3), &opts).unwrap(), SequenceFlow::DeadEnd));
    assert!(matches!(
        sequence.match_component("o", usize::MAX, Some(usize::MAX), &opts).unwrap(),
        SequenceFlow::Continue(_, Naught)
    ));

    // A match is never cut off by the depth.
    assert!(matches!(
        sequence.match_component("x", 9, None, &opts).unwrap(),
        SequenceFlow::Continue(_, Complete)
    ));

    // Without bounds nothing ends the search.
    let opts = SearchOpts::default();
    assert!(matches!(
        sequence.match_component("o", usize::MAX, Some(0), &opts).unwrap(),
        SequenceFlow::Continue(_, Naught)
    ));
}
