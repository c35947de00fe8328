use kn::search::abbr::Abbr;
use kn::search::fs::{FileSystem, MockFileSystem};
use kn::search::{filter_paths, get_children, search_full};
use kn::utils::as_path;

fn mock() -> MockFileSystem {
    let mut file_system = MockFileSystem::new();
    file_system.insert(as_path("."), vec![as_path("./ex")]);
    file_system.insert(as_path("./ex"), vec![as_path("./ex/dee"), as_path("./ex/why")]);
    file_system.insert(
        as_path("./ex/dee"),
        vec![as_path("./ex/dee/dee"), as_path("./ex/dee/deedee")],
    );
    file_system
}

#[test]
fn test_search_full() {
    let file_system = mock();

    let abbrs = vec![
        Abbr::from_string("x".to_string()).unwrap(),
        Abbr::from_string("d".to_string()).unwrap(),
        Abbr::from_string("d".to_string()).unwrap(),
    ];

    let found_path = search_full(&as_path("."), &abbrs, &file_system).remove(0);

    assert_eq!(as_path("./ex/dee/dee"), found_path);
}

#[test]
fn search_full_ranks_all_matches() {
    let file_system = mock();
    let abbrs = vec![
        Abbr::from_string("x".to_string()).unwrap(),
        Abbr::from_string("d".to_string()).unwrap(),
        Abbr::from_string("d".to_string()).unwrap(),
    ];
    let found = search_full(&as_path("."), &abbrs, &file_system);
    assert_eq!(found, vec![as_path("./ex/dee/dee"), as_path("./ex/dee/deedee")]);
}

#[test]
fn search_full_without_abbrs_finds_nothing() {
    let file_system = mock();
    assert!(search_full(&as_path("."), &Vec::new(), &file_system).is_empty());
}

#[test]
fn search_full_through_a_reference() {
    let file_system = mock();
    let abbrs = vec![Abbr::from_string("-".to_string()).unwrap()];
    let found = search_full(&as_path("."), &abbrs, &&file_system);
    assert_eq!(found, vec![as_path("./ex")]);
}

#[test]
fn get_children_skips_what_cannot_be_listed() {
    let file_system = mock();
    let children = get_children(
        &vec![as_path("./ex"), as_path("./nowhere"), as_path("./ex/dee")],
        &file_system,
    );
    assert_eq!(
        children,
        vec![
            as_path("./ex/dee"),
            as_path("./ex/why"),
            as_path("./ex/dee/dee"),
            as_path("./ex/dee/deedee")
        ]
    );
}

#[test]
fn filter_paths_keeps_matches_in_order() {
    let abbr = Abbr::from_string("e".to_string()).unwrap();
    let found = filter_paths(&vec![as_path("./why"), as_path("./dee"), as_path(".."), as_path("./e")], &abbr);
    assert_eq!(found.len(), 2);
    assert_eq!(found[0].path, as_path("./dee"));
    assert_eq!(found[0].congruence, kn::search::abbr::Congruence::Partial(2));
    assert_eq!(found[1].path, as_path("./e"));
    assert_eq!(found[1].congruence, kn::search::abbr::Congruence::Complete);
}

#[test]
fn mock_file_system_answers() {
    let mut file_system = mock();
    assert!(file_system.is_dir(&as_path("./ex")));
    assert!(!file_system.is_dir(&as_path("./ex/why")));
    assert!(file_system.read_dir(&as_path("./ex/why")).is_err());
    assert_eq!(file_system.read_dir(&as_path(".//ex/")).unwrap().len(), 2);
    file_system.insert(as_path("./ex"), vec![]);
    assert_eq!(file_system.read_dir(&as_path("./ex")).unwrap().len(), 0);
}

#[test]
fn search_full_orders_ties_by_name() {
    let mut file_system = MockFileSystem::new();
    file_system.insert(as_path("."), vec![as_path("./xb"), as_path("./Xa"), as_path("./x"), as_path("./xc10"), as_path("./xc9")]);
    let abbrs = vec![Abbr::from_string("x".to_string()).unwrap()];
    let found = search_full(&as_path("."), &abbrs, &file_system);
    assert_eq!(
        found,
        vec![as_path("./x"), as_path("./Xa"), as_path("./xb"), as_path("./xc9"), as_path("./xc10")]
    );
}
