use kn::error::Error;
use kn::query::sequence::Sequence;
use kn::query::walk::{walk, Hit};
use kn::query::MatchStrength::{Complete, Partial, Wildcard};
use kn::query::SearchOpts;
use kn::search::fs::MockFileSystem;
use kn::utils::as_path;

fn tree(dirs: &[(&str, &[&str])]) -> MockFileSystem {
    let mut file_system = MockFileSystem::new();
    for (dir, children) in dirs {
        file_system.insert(as_path(dir), children.iter().map(|child| as_path(child)).collect());
    }
    file_system
}

fn sequences(texts: &[&str]) -> Vec<Sequence> {
    texts.iter().map(|text| Sequence::from_str(text).unwrap()).collect()
}

fn paths(hits: &[Hit]) -> Vec<kn::path::DirPath> {
    hits.iter().map(|hit| as_path(&hit.path.display())).collect()
}

#[test]
fn basic_multi_segment_match() {
    let file_system = tree(&[(".", &["./a"]), ("./a", &["./a/boo"])]);
    let hits = walk(&file_system, &sequences(&["a/b"]), &SearchOpts::default()).unwrap();
    assert_eq!(hits.len(), 1);
    assert_eq!(hits[0].path, as_path("./a/boo"));
    assert_eq!(hits[0].strengths, vec![Complete, Partial]);
}

#[test]
fn dead_end_finds_nothing() {
    let file_system = tree(&[(".", &["./a"]), ("./a", &["./a/o"])]);
    let result = walk(&file_system, &sequences(&["a/b"]), &SearchOpts::default());
    assert_eq!(result.unwrap_err(), Error::PathNotFound);
}

#[test]
fn wildcard_accepts_any_component() {
    let file_system = tree(&[(".", &["./a"]), ("./a", &["./a/o"]), ("./a/o", &["./a/o/b"])]);
    let hits = walk(&file_system, &sequences(&["a/-/b"]), &SearchOpts::default()).unwrap();
    assert_eq!(paths(&hits), vec![as_path("./a/o/b")]);
    assert_eq!(hits[0].strengths, vec![Complete, Wildcard, Complete]);
}

#[test]
fn premature_match_is_recovered_on_the_way() {
    let file_system = tree(&[
        (".", &["./x"]),
        ("./x", &["./x/o"]),
        ("./x/o", &["./x/o/ox"]),
        ("./x/o/ox", &["./x/o/ox/ymoron"]),
    ]);
    let hits = walk(&file_system, &sequences(&["x/y"]), &SearchOpts::default()).unwrap();
    assert_eq!(paths(&hits), vec![as_path("./x/o/ox/ymoron")]);
    // The strengths are those of the match that held: `x` at `ox`, `y` at `ymoron`.
    assert_eq!(hits[0].strengths, vec![Partial, Partial]);
}

#[test]
fn shallowest_level_wins_and_is_ranked() {
    let file_system = tree(&[
        (".", &["./src10", "./src2", "./s", "./other"]),
        ("./other", &["./other/s"]),
    ]);
    let hits = walk(&file_system, &sequences(&["s"]), &SearchOpts::default()).unwrap();
    // `s` matches completely; the two partial matches come in the order of their names.
    assert_eq!(paths(&hits), vec![as_path("./s"), as_path("./src2"), as_path("./src10")]);
}

#[test]
fn several_sequences_match_one_after_another() {
    let file_system = tree(&[
        (".", &["./one"]),
        ("./one", &["./one/gap"]),
        ("./one/gap", &["./one/gap/two"]),
    ]);
    let hits = walk(&file_system, &sequences(&["one", "two"]), &SearchOpts::default()).unwrap();
    assert_eq!(paths(&hits), vec![as_path("./one/gap/two")]);
    assert_eq!(hits[0].strengths, vec![Complete, Complete]);
}

#[test]
fn first_depth_prunes_late_first_matches() {
    let file_system = tree(&[
        (".", &["./p"]),
        ("./p", &["./p/q"]),
        ("./p/q", &["./p/q/target"]),
    ]);
    let found = |first_depth| {
        let opts = SearchOpts { first_depth, next_depth: None, start_dir: ".".to_string() };
        walk(&file_system, &sequences(&["target"]), &opts)
    };
    assert!(found(None).is_ok());
    assert!(found(Some(2)).is_ok());
    // `p` is tried at attempt 0 and `q` at attempt 1; `q` exceeds a bound of 0.
    assert_eq!(found(Some(0)).unwrap_err(), Error::PathNotFound);
}

#[test]
fn next_depth_prunes_late_next_matches() {
    let file_system = tree(&[
        (".", &["./a"]),
        ("./a", &["./a/x"]),
        ("./a/x", &["./a/x/y"]),
        ("./a/x/y", &["./a/x/y/b"]),
    ]);
    let found = |next_depth| {
        let opts = SearchOpts { first_depth: None, next_depth, start_dir: ".".to_string() };
        walk(&file_system, &sequences(&["a/b"]), &opts)
    };
    assert!(found(None).is_err());
    // After the reset at `x` the sequence starts again and cannot find `a` below.
    assert_eq!(found(Some(0)).unwrap_err(), Error::PathNotFound);
}

#[test]
fn no_sequences_is_the_start_directory() {
    let file_system = tree(&[(".", &["./a"])]);
    let opts = SearchOpts { first_depth: None, next_depth: None, start_dir: "./a".to_string() };
    let hits = walk(&file_system, &Vec::new(), &opts).unwrap();
    assert_eq!(paths(&hits), vec![as_path("./a")]);
    assert!(hits[0].strengths.is_empty());
}

#[test]
fn same_walk_twice_gives_the_same_result() {
    let file_system = tree(&[
        (".", &["./ab", "./b", "./abc"]),
        ("./ab", &["./ab/c"]),
    ]);
    let first = walk(&file_system, &sequences(&["b"]), &SearchOpts::default()).unwrap();
    let second = walk(&file_system, &sequences(&["b"]), &SearchOpts::default()).unwrap();
    assert_eq!(paths(&first), paths(&second));
    assert_eq!(paths(&first), vec![as_path("./b"), as_path("./ab"), as_path("./abc")]);
}

#[test]
fn wildcard_may_stand_last() {
    let file_system = tree(&[(".", &["./a"]), ("./a", &["./a/zeta", "./a/alpha"])]);
    let hits = walk(&file_system, &sequences(&["a/-"]), &SearchOpts::default()).unwrap();
    assert_eq!(paths(&hits), vec![as_path("./a/alpha"), as_path("./a/zeta")]);
    assert_eq!(hits[0].strengths, vec![Complete, Wildcard]);

    let hits = walk(&file_system, &sequences(&["-"]), &SearchOpts::default()).unwrap();
    assert_eq!(paths(&hits), vec![as_path("./a")]);
}

#[test]
fn literal_matches_rank_before_wildcard_matches() {
    // Below `x` the literal `b` finds `ab` partially; below `y` only the wildcard matches.
    let file_system = tree(&[
        (".", &["./y", "./x"]),
        ("./y", &["./y/aa"]),
        ("./x", &["./x/ab"]),
    ]);
    let by_wildcard = walk(&file_system, &sequences(&["-/-"]), &SearchOpts::default()).unwrap();
    assert_eq!(paths(&by_wildcard), vec![as_path("./y/aa"), as_path("./x/ab")]);
    assert_eq!(by_wildcard[0].strengths, vec![Wildcard, Wildcard]);

    let file_system = tree(&[(".", &["./zb", "./ab"])]);
    let literal = walk(&file_system, &sequences(&["b"]), &SearchOpts::default()).unwrap();
    assert_eq!(literal[0].strengths, vec![Partial]);
    let wildcard = walk(&file_system, &sequences(&["-"]), &SearchOpts::default()).unwrap();
    assert_eq!(wildcard[0].strengths, vec![Wildcard]);
    assert_eq!(paths(&wildcard), vec![as_path("./ab"), as_path("./zb")]);
}
