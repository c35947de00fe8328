use kn::search::abbr::{Abbr, Congruence};
use kn::search::abbr::Congruence::{Complete, Partial, Wildcard};

fn abbr(s: &str) -> Result<Abbr, kn::error::Error> {
    Abbr::from_string(s.to_string())
}

#[test]
fn abbr_test_congruence_ordering() {
    assert!(Partial(1) < Partial(2));
    assert!(Complete < Partial(1));
    assert!(Complete < Wildcard);
    assert!(Partial(1000) < Wildcard);
}

#[test]
fn abbr_test_from_string() {
    assert!(abbr(".").is_err());
    assert!(abbr("..").is_err());
    assert!(abbr("...").is_err());
    assert!(abbr("one two three").is_err());
    assert!(abbr("du\tpa").is_err());
    assert!(abbr("\n").is_err());
    assert!(abbr(r"a\b").is_err());

    assert!(matches!(abbr("-").unwrap(), Abbr::Wildcard));
    assert!(matches!(abbr("mOcKiNgBiRd").unwrap(), Abbr::Literal(literal) if literal == "mockingbird"));
    assert!(matches!(abbr("X.ae.A-12").unwrap(), Abbr::Literal(literal) if literal == "x.ae.a-12"));
    assert!(matches!(abbr("zażółć").unwrap(), Abbr::Literal(literal) if literal == "zażółć"));
}

#[test]
fn abbr_test_wildcard_match() {
    let abbr = Abbr::Wildcard;

    assert!(matches!(abbr.compare("iks"), Some(Wildcard)));
    assert!(matches!(abbr.compare("eh--ehe123"), Some(Wildcard)));
}

#[test]
fn abbr_test_literal_match() {
    let abbr = Abbr::Literal("mi".to_string());

    assert!(matches!(abbr.compare("mi"), Some(Complete)));
    assert!(matches!(abbr.compare("Mi"), Some(Complete)));
    assert!(matches!(abbr.compare("ooo..oo---mi-ooooo"), Some(Partial(_))));
    assert!(matches!(abbr.compare("ooo..oo---mI-ooooo"), Some(Partial(_))));
    assert!(matches!(abbr.compare("xxxxxx"), None));
}

#[test]
fn test_subseries_match() {
    let abbr = Abbr::Literal("mi".to_string());

    let dist_a = match abbr.compare("m-----i") {
        Some(Partial(dist_a)) => dist_a,
        other => panic!("{:?}", other),
    };
    let dist_b = match abbr.compare("M--i") {
        Some(Partial(dist_b)) => dist_b,
        other => panic!("{:?}", other),
    };
    assert!(dist_a > dist_b);

    assert!(matches!(abbr.compare("im"), None));
}

#[test]
fn edit_distance_is_exact() {
    let abbr = Abbr::Literal("mi".to_string());

    assert_eq!(abbr.compare("m-----i"), Some(Partial(5)));
    assert_eq!(abbr.compare("M--i"), Some(Partial(2)));
    assert_eq!(abbr.compare("kitten"), None);
    let abbr = Abbr::Literal("ktn".to_string());
    assert_eq!(abbr.compare("kitten"), Some(Partial(3)));
}

#[test]
fn invalid_abbr_is_named_in_the_error() {
    assert_eq!(abbr("a b").unwrap_err(), kn::error::Error::InvalidAbbr("a b".to_string()));
    assert_eq!(abbr("").unwrap_err(), kn::error::Error::InvalidAbbr(String::new()));
    assert_eq!(abbr("a/b").unwrap_err(), kn::error::Error::InvalidAbbr("a/b".to_string()));
    assert_eq!(abbr("a\u{3000}b").unwrap_err(), kn::error::Error::InvalidAbbr("a\u{3000}b".to_string()));
}

#[test]
fn empty_literal_or_component_never_matches() {
    assert_eq!(Abbr::Literal(String::new()).compare(""), None);
    assert_eq!(Abbr::Literal(String::new()).compare("abc"), None);
    assert_eq!(Abbr::Literal("abc".to_string()).compare(""), None);
    assert_eq!(Abbr::Wildcard.compare(""), Some(Congruence::Wildcard));
}

#[test]
fn literal_is_folded_on_both_sides() {
    assert_eq!(Abbr::Literal("MI".to_string()).compare("mi"), Some(Complete));
}

#[test]
fn congruence_order_holds_in_both_directions() {
    let rising = [Complete, Partial(0), Partial(1), Partial(usize::MAX), Wildcard];
    for (i, a) in rising.iter().enumerate() {
        for (j, b) in rising.iter().enumerate() {
            assert_eq!(a < b, i < j);
            assert_eq!(a > b, i > j);
            assert_eq!(a == b, i == j);
            assert_eq!(a.relative_to(b), i.cmp(&j));
            assert_eq!(a.cmp(b), i.cmp(&j));
        }
    }
}
