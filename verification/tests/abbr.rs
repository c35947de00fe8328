use kn::abbr::Congruence::{Complete, Prefix, Subsequence, Wildcard};
use kn::abbr::{Abbr, Congruence, Shape};

/// The fewest gaps between the groups in which the characters of the pattern are found in
/// the text, in order; none where they are not found.
///
/// The program hands `compare` the function of the crate `powierza-coefficient`. The tests
/// here count the gaps by themselves instead, so they exercise `compare` and what it hands
/// to its metric, not that crate.
fn gaps(pattern: &str, text: &str) -> Option<u32> {
    fn fewest(pattern: &[char], text: &[char], glued: bool) -> Option<u32> {
        if pattern.is_empty() {
            return Some(0);
        }
        let mut best: Option<u32> = None;
        for (at, c) in text.iter().enumerate() {
            if *c == pattern[0] {
                let gap = if glued && at > 0 { 1 } else { 0 };
                if let Some(rest) = fewest(&pattern[1..], &text[at + 1..], true) {
                    let whole = rest + gap;
                    best = Some(best.map_or(whole, |b| b.min(whole)));
                }
            }
        }
        best
    }
    let pattern: Vec<char> = pattern.chars().collect();
    let text: Vec<char> = text.chars().collect();
    if pattern.is_empty() || text.is_empty() {
        return None;
    }
    fewest(&pattern, &text, false)
}

#[test]
fn test_congruence_ordering() {
    assert!(Complete < Prefix);
    assert!(Complete < Subsequence(1));
    assert!(Prefix < Subsequence(1));
    assert!(Subsequence(1) < Subsequence(1000));
}

#[test]
fn test_compare_abbr() {
    let abbr = Abbr::new_sanitized("abcjkl");

    assert!(matches!(abbr.compare("abcjkl", &gaps), Some(Complete)));
    assert!(matches!(abbr.compare("abcjkl_", &gaps), Some(Prefix)));
    assert!(matches!(abbr.compare("_abcjkl", &gaps), Some(Subsequence(0))));
    assert!(matches!(abbr.compare("abc_jkl", &gaps), Some(Subsequence(1))));

    assert!(matches!(abbr.compare("xyz", &gaps), None));
    assert!(matches!(abbr.compare("", &gaps), None));
}

#[test]
fn test_compare_abbr_different_cases() {
    let abbr = Abbr::new_sanitized("AbCjKl");

    assert!(matches!(abbr.compare("aBcJkL", &gaps), Some(Complete)));
    assert!(matches!(abbr.compare("AbcJkl_", &gaps), Some(Prefix)));
    assert!(matches!(abbr.compare("_aBcjKl", &gaps), Some(Subsequence(0))));
    assert!(matches!(abbr.compare("abC_jkL", &gaps), Some(Subsequence(1))));
}

#[test]
fn test_empty_abbr_empty_component() {
    let empty = "";

    let abbr = Abbr::new_sanitized(empty);
    assert!(matches!(abbr.compare("non empty component", &gaps), None));

    let abbr = Abbr::new_sanitized("non empty abbr");
    assert!(matches!(abbr.compare(empty, &gaps), None));
}

#[test]
fn test_order_paths() {
    fn sort<'a>(paths: &'a Vec<&'a str>, abbr: &str) -> Vec<&'a str> {
        let abbr = Abbr::new_sanitized(abbr);
        let mut paths = paths.clone();
        paths.sort_by_key(|path| abbr.compare(path, &gaps).unwrap());

        paths
    }

    let paths = vec!["playground", "plotka"];
    assert_eq!(paths, sort(&paths, "pla"));

    let paths = vec!["veccentric", "vehiccles"];
    assert_eq!(paths, sort(&paths, "vecc"));
}

#[test]
fn wildcard_matches_everything_and_ranks_last() {
    let abbr = Abbr::new_sanitized("-");
    assert!(matches!(abbr, Abbr::Wildcard));
    assert_eq!(abbr.compare("anything", &gaps), Some(Wildcard));
    assert_eq!(abbr.compare("", &gaps), Some(Wildcard));
    assert!(Subsequence(u32::MAX) < Wildcard);
    assert!(Complete < Wildcard);
    assert!(Prefix < Wildcard);
    assert!(!(Wildcard < Wildcard));
}

#[test]
fn the_metric_is_asked_for_the_folded_pair_only_when_needed() {
    let asked = std::cell::RefCell::new(Vec::new());
    let metric = |pattern: &str, text: &str| {
        asked.borrow_mut().push((pattern.to_string(), text.to_string()));
        Some(7)
    };
    let abbr = Abbr::new_sanitized("AbC");
    assert_eq!(abbr.compare("abc", &metric), Some(Complete));
    assert_eq!(abbr.compare("ABCD", &metric), Some(Prefix));
    assert_eq!(abbr.compare("xyz", &metric), None);
    assert!(asked.borrow().is_empty());
    assert_eq!(abbr.compare("xA_B_C", &metric), Some(Subsequence(7)));
    assert_eq!(*asked.borrow(), vec![("abc".to_string(), "xa_b_c".to_string())]);
    // A metric without an answer turns the match down.
    assert_eq!(abbr.compare("a-b-c", &|_: &str, _: &str| None), None);
}

#[test]
fn shapes_and_coefficients() {
    let abbr = Abbr::new_sanitized("ab");
    assert!(matches!(abbr.shape_of("AB"), Some(Shape::Same)));
    assert!(matches!(abbr.shape_of("abc"), Some(Shape::Leading)));
    assert!(matches!(abbr.shape_of("a-b"), Some(Shape::Scattered)));
    assert!(matches!(abbr.shape_of("ba"), Some(Shape::Apart)));
    assert!(matches!(abbr.shape_of(""), Some(Shape::Apart)));
    assert!(matches!(Abbr::Wildcard.shape_of("ab"), None));
    assert_eq!(Congruence::from_coefficient(Some(3)), Some(Subsequence(3)));
    assert_eq!(Congruence::from_coefficient(None), None);
    assert_eq!(Subsequence(3).pair(), (2, 3));
    assert_eq!(Wildcard.pair(), (3, 0));
}

#[test]
fn four_tiers_are_ordered_in_both_directions() {
    let rising = [Complete, Prefix, Subsequence(0), Subsequence(1), Subsequence(u32::MAX), Wildcard];
    for (i, a) in rising.iter().enumerate() {
        for (j, b) in rising.iter().enumerate() {
            assert_eq!(a < b, i < j);
            assert_eq!(a > b, i > j);
            assert_eq!(a == b, i == j);
            assert_eq!(a.relative_to(b), i.cmp(&j));
            assert_eq!(a.cmp(b), i.cmp(&j));
        }
    }
}
