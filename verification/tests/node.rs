use kn::error::Error;
use kn::node::{DigResult, EntryNode, MatchResult, PathSlice, PathSlices, Pattern};
use kn::search::fs::MockFileSystem;
use kn::utils::as_path;

fn loose(pattern: &str) -> PathSlice {
    PathSlice::Loose(Pattern::new(pattern).unwrap())
}

fn glued(pattern: &str) -> PathSlice {
    PathSlice::Glued(Pattern::new(pattern).unwrap())
}

fn continues<'a>(result: MatchResult<'a>) -> PathSlices<'a> {
    match result {
        MatchResult::Continue(slices) => slices,
        MatchResult::FullMatch => panic!("full match"),
    }
}

#[test]
fn loose_slices_wait_for_their_match() {
    let slices = vec![loose("^a"), loose("b$")];
    let state = PathSlices::new(&slices);
    assert_eq!(state.last_match(), None);

    let state = continues(state.try_match("xyz"));
    assert_eq!(state.last_match(), None);
    let state = continues(state.try_match("abc"));
    assert_eq!(state.last_match(), Some(0));
    let state = continues(state.try_match("abc"));
    assert_eq!(state.last_match(), Some(0));
    assert!(matches!(state.try_match("cab"), MatchResult::FullMatch));
}

#[test]
fn glued_slice_falls_back_to_the_loose_one() {
    let slices = vec![
        loose("first"),
        loose("x"),
        glued("y"),
        glued("z"),
    ];
    let state = PathSlices::new(&slices);
    let state = continues(state.try_match("first"));
    let state = continues(state.try_match("x"));
    let state = continues(state.try_match("y"));
    assert_eq!(state.last_match(), Some(2));
    // `z` fails right after `y`: back to where the loose `x` is tried again.
    let state = continues(state.try_match("o"));
    assert_eq!(state.last_match(), Some(0));
    let state = continues(state.try_match("x"));
    let state = continues(state.try_match("y"));
    assert!(matches!(state.try_match("z"), MatchResult::FullMatch));
}

#[test]
fn glued_first_slice_starts_again() {
    let slices = vec![glued("a"), glued("b")];
    let state = continues(PathSlices::new(&slices).try_match("a"));
    assert_eq!(state.last_match(), Some(0));
    let state = continues(state.try_match("c"));
    assert_eq!(state.last_match(), None);

    let slices = vec![loose("a"), glued("b")];
    let state = continues(PathSlices::new(&slices).try_match("a"));
    let state = continues(state.try_match("c"));
    assert_eq!(state.last_match(), None);
}

#[test]
fn no_slices_and_bad_patterns() {
    let slices: Vec<PathSlice> = Vec::new();
    assert!(matches!(PathSlices::new(&slices).try_match("any"), MatchResult::FullMatch));

    assert_eq!(Pattern::new("foo(bar").unwrap_err(), Error::InvalidSlice("foo(bar".to_string()));
    assert!(Pattern::new(r"\w{1000}").is_err());
    let pattern = Pattern::new("^a.c$").unwrap();
    assert_eq!(pattern.as_str(), "^a.c$");
    assert!(pattern.accepts("abc"));
    assert!(!pattern.accepts("xabc"));
}

#[test]
fn digging_lists_the_children() {
    let mut file_system = MockFileSystem::new();
    file_system.insert(as_path("./a"), vec![as_path("./a/b"), as_path("./a/c")]);
    let slices = vec![loose("^a$"), loose("^c$")];

    let node = EntryNode(as_path("./a"), PathSlices::new(&slices));
    let children = match node.dig_deeper(&file_system) {
        DigResult::Continue(children) => children,
        _ => panic!("no children"),
    };
    assert_eq!(children.len(), 2);
    assert_eq!(children[0].0, as_path("./a/b"));
    assert_eq!(children[0].1.last_match(), Some(0));
    assert!(matches!(children[0].dig_deeper(&file_system), DigResult::Continue(rest) if rest.is_empty()));
    assert!(matches!(children[1].dig_deeper(&file_system), DigResult::FullMatch));

    let node = EntryNode(as_path(".."), PathSlices::new(&slices));
    assert!(matches!(node.dig_deeper(&file_system), DigResult::DeadEnd));
}
