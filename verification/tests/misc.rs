use kn::error::Error;
use kn::path::{Component, DirPath};
use kn::query::entry::{Entry, Flow};
use kn::rank::{offered_before, rank, strengths_before, Standing};
use kn::search::abbr::{Abbr, Congruence};
use kn::text::{same_text, to_lowercase};
use kn::utils::as_path;

fn standing(strengths: &[(u8, usize)], name: &str) -> Standing {
    Standing { strengths: strengths.to_vec(), name: name.to_string() }
}

#[test]
fn paths_are_read_like_the_standard_library_reads_them() {
    let cases = [
        "", "/", "//", ".", "./", "./.", "..", "a", "a/", "a//b", "a/./b", "./a/b", "/./a", "a/..",
        "../a", "/a/b/", ".../x", "a/../b", " a/b ",
    ];
    for text in cases {
        let expected: Vec<Component> = std::path::Path::new(text)
            .components()
            .map(|component| match component {
                std::path::Component::Prefix(prefix) => {
                    Component::Prefix(prefix.as_os_str().to_string_lossy().into_owned())
                }
                std::path::Component::RootDir => Component::RootDir,
                std::path::Component::CurDir => Component::CurDir,
                std::path::Component::ParentDir => Component::ParentDir,
                std::path::Component::Normal(name) => {
                    Component::Normal(name.to_string_lossy().into_owned())
                }
            })
            .collect();
        assert_eq!(as_path(text).components, expected, "{:?}", text);
    }
}

#[test]
fn paths_are_written_with_slashes() {
    assert_eq!(as_path("/").display(), "/");
    assert_eq!(as_path("/a//b/").display(), "/a/b");
    assert_eq!(as_path("./a/./b").display(), "./a/b");
    assert_eq!(as_path("").display(), "");
    assert_eq!(as_path("../..").display(), "../..");
    assert_eq!(as_path("a").join("b").display(), "a/b");
    assert_eq!(as_path("/").join("b"), as_path("/b"));
}

#[test]
fn path_names_and_prefixes() {
    assert_eq!(as_path("/a/b").file_name(), Some("b".to_string()));
    assert_eq!(as_path("/a/..").file_name(), None);
    assert_eq!(as_path("/").file_name(), None);
    assert_eq!(as_path("").file_name(), None);
    assert_eq!(as_path(".").file_name(), None);
    assert!(as_path("/a/b/c").starts_with(&as_path("/a/b")));
    assert!(as_path("/a/b").starts_with(&as_path("/a/b")));
    assert!(!as_path("/a/b").starts_with(&as_path("/a/b/c")));
    assert!(!as_path("/a/bc").starts_with(&as_path("/a/b")));
    assert!(as_path("a//b").same(&as_path("a/b/")));
    assert!(!as_path("a/b").same(&as_path("/a/b")));
    assert_eq!(as_path("a/b").len(), 2);
    assert_eq!(DirPath::new().len(), 0);
}

#[test]
fn error_messages() {
    assert_eq!(Error::NonUnicodeInput.message(), "Non-Unicode input received.");
    assert_eq!(Error::PathNotFound.message(), "Path not found.");
    assert_eq!(
        Error::InvalidArgValue("--shell".to_string()).message(),
        "Value of arg `--shell` is invalid."
    );
    assert_eq!(
        Error::UnexpectedAbbrComponent("..".to_string()).message(),
        "Unexpected abbr component `..`."
    );
    assert_eq!(Error::Io("denied".to_string()).message(), "IO error `denied`.");
    assert_eq!(Error::InvalidAbbr("a b".to_string()).message(), "Invalid abbreviation `a b`.");
    assert_eq!(Error::InvalidSlice("a b".to_string()).message(), "Invalid slice `a b`.");
    assert_eq!(Error::EmptyAbbr.message(), "Empty abbreviation.");
}

#[test]
fn text_is_folded_in_ascii_only() {
    assert_eq!(to_lowercase("AbC-Zż[Ł@`"), "abc-zż[Ł@`");
    assert!(same_text("zażółć", "zażółć"));
    assert!(!same_text("a", "A"));
}

#[test]
fn strengths_are_compared_pair_by_pair() {
    assert!(strengths_before(&vec![(0, 0)], &vec![(1, 0)]));
    assert!(strengths_before(&vec![(1, 3)], &vec![(1, 4)]));
    assert!(!strengths_before(&vec![(1, 4)], &vec![(1, 4)]));
    assert!(strengths_before(&vec![(0, 0), (2, 0)], &vec![(1, 0), (0, 0)]));
    assert!(strengths_before(&vec![(1, 0)], &vec![(1, 0), (0, 0)]));
    assert!(!strengths_before(&vec![(1, 0), (0, 0)], &vec![(1, 0)]));
    assert!(strengths_before(&vec![], &vec![(0, 0)]));
    assert!(!strengths_before(&vec![], &vec![]));
}

#[test]
fn ranking_is_stable_and_uses_names_on_demand() {
    let items = vec![
        standing(&[(1, 2)], "b10"),
        standing(&[(0, 0)], "z"),
        standing(&[(1, 2)], "B9"),
        standing(&[(1, 1)], "y"),
    ];
    assert_eq!(rank(&items, false), vec![1, 3, 0, 2]);
    assert_eq!(rank(&items, true), vec![1, 3, 2, 0]);
    assert_eq!(rank(&Vec::new(), true), Vec::<usize>::new());
    assert!(offered_before(&items[2], &items[0], true));
    assert!(!offered_before(&items[2], &items[0], false));
    assert!(!offered_before(&items[0], &items[2], true));
    // A name only counts where the strengths are the same.
    assert!(!offered_before(&items[0], &items[1], true));
}

#[test]
fn entries_advance_by_their_names() {
    let entry = Entry::new(as_path("./src"), vec![Congruence::Complete]);
    let abbr = Abbr::from_string("sc".to_string()).unwrap();
    match entry.advance(&abbr) {
        Flow::Continue(next) => {
            assert_eq!(next.path, as_path("./src"));
            assert_eq!(next.congruence, vec![Congruence::Complete, Congruence::Partial(1)]);
        }
        Flow::DeadEnd => panic!("dead end"),
    }
    let abbr = Abbr::from_string("x".to_string()).unwrap();
    assert!(matches!(entry.advance(&abbr), Flow::DeadEnd));
    let nameless = Entry::new(as_path(".."), vec![]);
    assert!(matches!(nameless.advance(&Abbr::Wildcard), Flow::DeadEnd));
}
