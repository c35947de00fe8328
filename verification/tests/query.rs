use kn::abbr::Abbr;
use kn::error::Error;
use kn::path::{Component, DirPath};
use kn::query::{extract_prefix, parse_abbrs, parse_arg, parse_dots, query};
use kn::search::fs::MockFileSystem;
use kn::utils::as_path;

fn collect(components: Vec<Component>) -> DirPath {
    DirPath { components }
}

/// The metric of these tests. The program hands `query` the function of the crate
/// `powierza-coefficient`; the tests use an edit distance instead, so they exercise the
/// search and the ranking, not that crate.
fn levenshtein(pattern: &str, text: &str) -> Option<u32> {
    Some(strsim::levenshtein(pattern, text) as u32)
}

fn tree(dirs: &[(&str, &[&str])]) -> MockFileSystem {
    let mut file_system = MockFileSystem::new();
    for (dir, children) in dirs {
        file_system.insert(as_path(dir), children.iter().map(|child| as_path(child)).collect());
    }
    file_system
}

#[test]
fn test_parse_dots() {
    assert!(matches!(parse_dots(""), None));
    assert!(matches!(parse_dots("."), None));
    assert!(matches!(parse_dots(".."), Some(1)));
    assert!(matches!(parse_dots("..."), Some(2)));
    assert!(matches!(parse_dots("...."), Some(3)));
    assert!(matches!(parse_dots("xyz"), None));
    assert!(matches!(parse_dots("...dot"), None));
}

#[test]
fn test_extract_prefix() {
    {
        let (prefix, suffix) = extract_prefix(b"suf/fix").unwrap();
        let suffix = collect(suffix);

        assert_eq!(prefix, None);
        assert_eq!(suffix, as_path("suf/fix"));
    }

    {
        let (prefix, suffix) = extract_prefix(b"./.././suf/fix").unwrap();
        let suffix = collect(suffix);

        assert_eq!(prefix.unwrap(), as_path("./.."));
        assert_eq!(suffix, as_path("suf/fix"));
    }

    {
        let (prefix, suffix) = extract_prefix(b".../.../suf/fix").unwrap();
        let suffix = collect(suffix);

        assert_eq!(prefix.unwrap(), as_path("../../../.."));
        assert_eq!(suffix, as_path("suf/fix"));
    }
}

#[test]
fn test_parse_arg_invalid_unicode() {
    let source = [0x66, 0x6f, 0x80, 0x6f];
    let result = parse_arg(&source[..]);

    assert!(result.is_err());
    assert_eq!(result.unwrap_err(), Error::NonUnicodeInput);
}

#[test]
fn empty_argument_is_refused() {
    assert_eq!(extract_prefix(b"").unwrap_err(), Error::EmptyAbbr);
    assert_eq!(parse_arg(b"").unwrap_err(), Error::EmptyAbbr);
}

#[test]
fn literal_path_comes_back_unchanged() {
    for text in ["/", ".", "..", "./..", "../..", "/..", "./../.."] {
        let (prefix, abbrs) = parse_arg(text.as_bytes()).unwrap();
        assert_eq!(prefix.unwrap(), as_path(text));
        assert!(abbrs.is_empty());
    }
}

#[test]
fn absolute_prefix_and_abbreviations() {
    let (prefix, abbrs) = parse_arg(b"/.../Us/-").unwrap();
    assert_eq!(prefix.unwrap(), as_path("/../.."));
    assert_eq!(abbrs.len(), 2);
    assert!(matches!(&abbrs[0], Abbr::Literal(literal) if literal == "us"));
    assert!(matches!(&abbrs[1], Abbr::Wildcard));
}

#[test]
fn unexpected_component_is_refused() {
    assert_eq!(
        parse_arg(b"a/../b").unwrap_err(),
        Error::UnexpectedAbbrComponent("..".to_string())
    );
    let components = vec![Component::Normal("a".to_string()), Component::RootDir];
    assert_eq!(
        parse_abbrs(&components).unwrap_err(),
        Error::UnexpectedAbbrComponent("/".to_string())
    );
}

#[test]
fn query_returns_a_directory_as_it_stands() {
    let file_system = tree(&[("a/..", &[])]);
    let found = query(b"a/..", None, &as_path("."), &file_system, &levenshtein);
    assert_eq!(found.unwrap(), as_path("a/.."));
}

#[test]
fn query_without_abbreviation_is_the_prefix() {
    let file_system = tree(&[]);
    let found = query(b"./...", None, &as_path("/home"), &file_system, &levenshtein);
    assert_eq!(found.unwrap(), as_path("./../.."));
}

#[test]
fn query_searches_below_the_current_directory() {
    let file_system = tree(&[
        ("/home", &["/home/projects", "/home/pictures", "/home/music"]),
        ("/home/projects", &["/home/projects/kn", "/home/projects/knot"]),
        ("/home/pictures", &["/home/pictures/kn"]),
    ]);
    let found = query(b"p/kn", None, &as_path("/home"), &file_system, &levenshtein);
    // Both `p` matches are prefixes; among the complete matches of `kn` the names tie,
    // and the one found first stays first.
    assert_eq!(found.unwrap(), as_path("/home/projects/kn"));

    let found = query(b"pi/kn", None, &as_path("/home"), &file_system, &levenshtein);
    assert_eq!(found.unwrap(), as_path("/home/pictures/kn"));

    let found = query(b"nothing", None, &as_path("/home"), &file_system, &levenshtein);
    assert_eq!(found.unwrap_err(), Error::PathNotFound);
}

#[test]
fn query_leaves_the_excluded_path_out_of_a_tie() {
    let file_system = tree(&[("/w", &["/w/data1", "/w/data2", "/w/dat"])]);
    let cwd = as_path("/w");

    // `data1` and `data2` tie as prefixes; the name decides.
    let found = query(b"data", None, &cwd, &file_system, &levenshtein);
    assert_eq!(found.unwrap(), as_path("/w/data1"));

    let found = query(b"data", Some(as_path("/w/data1")), &cwd, &file_system, &levenshtein);
    assert_eq!(found.unwrap(), as_path("/w/data2"));

    // `dat` is the one complete match: no tie at the top, nothing is left out.
    let found = query(b"dat", Some(as_path("/w/dat")), &cwd, &file_system, &levenshtein);
    assert_eq!(found.unwrap(), as_path("/w/dat"));
}

#[test]
fn query_ranks_by_the_first_fragment_first() {
    let file_system = tree(&[
        ("/r", &["/r/ab", "/r/a"]),
        ("/r/ab", &["/r/ab/x"]),
        ("/r/a", &["/r/a/xy"]),
    ]);
    // `a` matches `a` completely and `ab` as a prefix: the first fragment decides,
    // although `x` matches better below `ab`.
    let found = query(b"a/x", None, &as_path("/r"), &file_system, &levenshtein);
    assert_eq!(found.unwrap(), as_path("/r/a/xy"));
}

#[test]
fn query_refuses_what_is_no_text() {
    let file_system = tree(&[]);
    let found = query(&[0xff, 0x2f], None, &as_path("."), &file_system, &levenshtein);
    assert_eq!(found.unwrap_err(), Error::NonUnicodeInput);
    let found = query(b"", None, &as_path("."), &file_system, &levenshtein);
    assert_eq!(found.unwrap_err(), Error::EmptyAbbr);
}

#[test]
fn query_without_a_chain_of_matches_finds_nothing() {
    let file_system = tree(&[("/r", &["/r/a"]), ("/r/a", &["/r/a/o"])]);
    let found = query(b"a/b", None, &as_path("/r"), &file_system, &levenshtein);
    assert_eq!(found.unwrap_err(), Error::PathNotFound);
    let found = query(b"a/o", None, &as_path("/r"), &file_system, &levenshtein);
    assert_eq!(found.unwrap(), as_path("/r/a/o"));
}
