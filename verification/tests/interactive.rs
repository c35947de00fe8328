use kn::error::Error;
use kn::interactive::search::{print_abbr, Search};
use kn::interactive::ui::{page_ix_message_space, Page, Pages, Suggestion};
use kn::interactive::{handle_backspace, handle_char, handle_slash, Filter, Location};
use kn::path::DirPath;
use kn::search::fs::MockFileSystem;
use kn::utils::as_path;

fn tree(dirs: &[(&str, &[&str])]) -> MockFileSystem {
    let mut file_system = MockFileSystem::new();
    for (dir, children) in dirs {
        file_system.insert(as_path(dir), children.iter().map(|child| as_path(child)).collect());
    }
    file_system
}

#[test]
fn test_filter() {
    {
        let children: Vec<DirPath> = vec!["a", "abc", "smth_else"].iter().map(|s| as_path(s)).collect();

        let a = &children[0];
        let abc = &children[1];

        let mut filter = Filter::new();
        filter.push('a').unwrap();
        let filtered = filter.filter(&children);

        assert_eq!(filtered.iter().collect::<Vec<_>>(), vec![a, abc]);
    }

    {
        let children: Vec<DirPath> = vec!["abc", "a", "smth_else"].iter().map(|s| as_path(s)).collect();

        let a = &children[1];
        let abc = &children[0];

        let mut filter = Filter::new();
        filter.push('a').unwrap();
        let filtered = filter.filter(&children);

        assert_eq!(filtered.iter().collect::<Vec<_>>(), vec![a, abc]);
    }

    {
        let children: Vec<DirPath> = vec!["smth_else", "abc", "a"].iter().map(|s| as_path(s)).collect();

        let a = &children[2];
        let abc = &children[1];

        let mut filter = Filter::new();
        filter.push('a').unwrap();
        let filtered = filter.filter(&children);

        assert_eq!(filtered.iter().collect::<Vec<_>>(), vec![a, abc]);
    }
}

#[test]
fn test_location_push_pop() {
    let mut location = Location::new(as_path("."));
    location.push(as_path("a"));
    location.push(as_path("b"));

    assert!(location.pop());
    assert!(location.pop());
    assert!(!location.pop());
    assert!(location.get_path() == as_path("."));
}

#[test]
fn filter_without_input_orders_by_name() {
    let children: Vec<DirPath> =
        vec!["./shot-11", "./Shot-2", "./shot-1", "./alpha"].iter().map(|s| as_path(s)).collect();
    let filter = Filter::new();
    assert_eq!(
        filter.filter(&children),
        vec![as_path("./alpha"), as_path("./shot-1"), as_path("./Shot-2"), as_path("./shot-11")]
    );
}

#[test]
fn filter_breaks_ties_by_name() {
    let children: Vec<DirPath> =
        vec!["./ab10", "./ab9", "./ab", "./xab"].iter().map(|s| as_path(s)).collect();
    let mut filter = Filter::new();
    filter.push('a').unwrap();
    filter.push('b').unwrap();
    assert_eq!(filter.get_input().unwrap(), "ab");
    // `ab` is complete; `xab` is one edit away; `ab9` and `ab10` differ in distance.
    assert_eq!(
        filter.filter(&children),
        vec![as_path("./ab"), as_path("./ab9"), as_path("./xab"), as_path("./ab10")]
    );
}

#[test]
fn filter_refuses_what_is_no_abbreviation() {
    let mut filter = Filter::new();
    assert_eq!(filter.push('.').unwrap_err(), Error::InvalidAbbr(".".to_string()));
    assert!(filter.get_input().is_none());
    filter.push('a').unwrap();
    assert_eq!(filter.push(' ').unwrap_err(), Error::InvalidAbbr("a ".to_string()));
    assert_eq!(filter.get_input().unwrap(), "a");
    assert_eq!(filter.take(), Some("a".to_string()));
    assert_eq!(filter.take(), None);
}

#[test]
fn location_suffix_is_at_most_two_components() {
    let mut location = Location::new(as_path("/home/user"));
    assert_eq!(location.get_suffix(), DirPath::new());
    location.push(as_path("/home/user/a"));
    assert_eq!(location.get_suffix(), as_path("a"));
    location.push(as_path("/home/user/a/b/c"));
    assert_eq!(location.get_suffix(), as_path("b/c"));
    location.push(as_path("/elsewhere/x/y/z"));
    assert_eq!(location.get_suffix(), as_path("y/z"));
    assert_eq!(location.get_path(), as_path("/elsewhere/x/y/z"));
    let copy = location.clone();
    assert_eq!(copy.get_path(), location.get_path());
}

#[test]
fn keys_change_location_and_filter() {
    let mut location = Location::new(as_path("."));
    let mut filter = Filter::new();

    handle_char(&mut filter, 'a').unwrap();
    assert_eq!(filter.get_input().unwrap(), "a");

    handle_slash(&mut location, &mut filter, None);
    assert_eq!(filter.get_input().unwrap(), "a");
    assert_eq!(location.get_path(), as_path("."));

    handle_slash(&mut location, &mut filter, Some(as_path("./abc")));
    assert!(filter.get_input().is_none());
    assert_eq!(location.get_path(), as_path("./abc"));

    handle_char(&mut filter, 'x').unwrap();
    handle_char(&mut filter, 'y').unwrap();
    handle_char(&mut filter, 'z').unwrap();
    handle_backspace(&mut location, &mut filter);
    assert_eq!(filter.get_input().unwrap(), "xy");
    assert_eq!(location.get_path(), as_path("./abc"));
    handle_backspace(&mut location, &mut filter);
    assert_eq!(filter.get_input().unwrap(), "x");
    handle_backspace(&mut location, &mut filter);
    assert!(filter.get_input().is_none());
    assert_eq!(location.get_path(), as_path("./abc"));

    handle_backspace(&mut location, &mut filter);
    assert_eq!(location.get_path(), as_path("."));
    handle_backspace(&mut location, &mut filter);
    assert_eq!(location.get_path(), as_path("."));
}

#[test]
fn search_follows_the_typing() {
    let file_system = tree(&[
        (".", &["./docs", "./downloads", "./music"]),
        ("./docs", &["./docs/work", "./docs/private"]),
        ("./downloads", &["./downloads/work"]),
    ]);
    let mut search = Search::new(&file_system);

    let (location, input, entries) = search.consume_char('d').unwrap();
    assert!(location.is_empty());
    assert_eq!(input, "d");
    let offered: Vec<_> = entries.iter().map(|entry| entry.path.display()).collect();
    assert_eq!(offered, vec!["./docs", "./downloads"]);

    let (_, input, entries) = search.consume_char('o').unwrap();
    assert_eq!(input, "do");
    assert_eq!(entries.len(), 2);
    assert_eq!(search.get_path().unwrap(), as_path("./docs"));

    let (location, input, entries) = search.consume_char('/').unwrap();
    assert_eq!(location, vec!["docs".to_string()]);
    assert_eq!(input, "");
    assert_eq!(entries.len(), 2);

    let (location, input, entries) = search.consume_char('w').unwrap();
    assert_eq!(location, vec!["docs".to_string()]);
    assert_eq!(input, "w");
    let offered: Vec<_> = entries.iter().map(|entry| entry.path.display()).collect();
    assert_eq!(offered, vec!["./docs/work", "./downloads/work"]);
    assert_eq!(entries[0].congruence.len(), 2);
    assert_eq!(search.get_path().unwrap(), as_path("./docs/work"));

    // A second slash with nothing typed changes nothing.
    search.consume_char('/').unwrap();
    let (location, input, _) = search.consume_char('/').unwrap();
    assert_eq!(location, vec!["docs".to_string(), "work".to_string()]);
    assert_eq!(input, "");
}

#[test]
fn search_refuses_and_deletes() {
    let file_system = tree(&[(".", &["./docs"]), ("./docs", &["./docs/work"])]);
    let mut search = Search::new(file_system);

    assert_eq!(search.consume_char(' ').unwrap_err(), Error::InvalidAbbr(" ".to_string()));
    assert_eq!(search.get_path(), None);

    search.consume_char('d').unwrap();
    search.consume_char('x').unwrap();
    assert_eq!(search.get_path(), None);

    let (shown, entries) = search.delete();
    assert_eq!(shown, "d");
    assert!(entries.is_empty());
    assert_eq!(search.get_path().unwrap(), as_path("./docs"));

    search.consume_char('/').unwrap();
    let (_, _, entries) = search.consume_char('-').unwrap();
    assert_eq!(entries.len(), 1);
    let (shown, _) = search.delete();
    assert_eq!(shown, "d/");
    let (shown, _) = search.delete();
    assert_eq!(shown, "");
    let (_, _, entries) = search.consume_char('d').unwrap();
    assert_eq!(entries[0].path, as_path("./docs"));
    let (shown, _) = search.delete();
    assert_eq!(shown, "");
    let (shown, _) = search.delete();
    assert_eq!(shown, "");
}

#[test]
fn print_abbr_joins_segments() {
    assert_eq!(print_abbr(&Vec::new(), "abc"), "abc");
}

#[test]
fn test_navigation() {
    let suggestions = vec![as_path("aa"), as_path("bb"), as_path("cc"), as_path("dd")];
    let mut pages = Pages::new(suggestions, 15).unwrap();

    pages.next_suggestion();
    assert_eq!(pages.get_selected_suggestion().unwrap(), as_path("bb"));

    pages.previous_suggestion();
    assert_eq!(pages.get_selected_suggestion().unwrap(), as_path("aa"));

    pages.next_page();
    assert_eq!(pages.get_selected_suggestion().unwrap(), as_path("dd"));

    pages.next_page();
    assert_eq!(pages.get_selected_suggestion().unwrap(), as_path("aa"));
}

#[test]
fn pages_wrap_around_and_know_their_bounds() {
    let names = ["aa", "bb", "cc", "dd", "ee", "ff", "gg"];
    let suggestions: Vec<DirPath> = names.iter().map(|name| as_path(name)).collect();
    let mut pages = Pages::new(suggestions, 15).unwrap();
    assert_eq!(pages.len(), 7);
    assert_eq!(pages.selection(), (0, 0));
    assert_eq!(pages.get_page_suggestions(), (0, 3));

    pages.previous_suggestion();
    assert_eq!(pages.selection(), (6, 2));
    assert_eq!(pages.get_page_suggestions(), (6, 7));
    assert_eq!(pages.name(6).unwrap(), "gg");
    assert!(pages.name(7).is_none());

    pages.previous_page();
    assert_eq!(pages.selection(), (3, 1));
    assert_eq!(pages.get_page_suggestions(), (3, 6));
    pages.previous_page();
    pages.previous_page();
    assert_eq!(pages.selection(), (6, 2));
    pages.next_suggestion();
    assert_eq!(pages.selection(), (0, 0));

    // Wide characters take two columns each.
    let wide: Vec<Suggestion> = ["日本", "語"]
        .iter()
        .map(|name| Suggestion { path: as_path(name), file_name: name.to_string() })
        .collect();
    let starts: Vec<usize> = Pages::build_pages(&wide, 11).iter().map(|Page { start_ix }| *start_ix).collect();
    assert_eq!(starts, vec![0, 1]);
    let starts: Vec<usize> = Pages::build_pages(&wide, 13).iter().map(|Page { start_ix }| *start_ix).collect();
    assert_eq!(starts, vec![0]);

    // Without room every suggestion begins a page, the first one too.
    let starts: Vec<usize> = Pages::build_pages(&wide, 2).iter().map(|Page { start_ix }| *start_ix).collect();
    assert_eq!(starts, vec![0, 0, 1]);

    assert!(Pages::new(vec![as_path(".."), as_path("/")], 80).is_none());
    assert_eq!(Pages::prepare_suggestions(vec![as_path(".."), as_path("a/b")]).len(), 1);
    assert_eq!(Pages::find_selected_page(4, &vec![Page { start_ix: 0 }, Page { start_ix: 3 }]), 1);

    assert_eq!(page_ix_message_space(0), 3);
    assert_eq!(page_ix_message_space(9), 3);
    assert_eq!(page_ix_message_space(10), 4);
    assert_eq!(page_ix_message_space(12345), 7);
    assert_eq!(page_ix_message_space(usize::MAX), usize::MAX.to_string().len() + 2);
}

#[test]
fn filter_pop_keeps_only_abbreviations() {
    let mut filter = Filter::new();
    filter.pop();
    assert!(filter.get_input().is_none());
    filter.push('-').unwrap();
    filter.push('.').unwrap();
    filter.pop();
    // `-` alone is the wildcard.
    assert_eq!(filter.get_input().unwrap(), "-");
    assert_eq!(filter.filter(&vec![as_path("b"), as_path("a")]), vec![as_path("a"), as_path("b")]);
    filter.pop();
    assert!(filter.get_input().is_none());
}

#[test]
fn suggestions_with_the_same_strengths_come_by_name() {
    let file_system = tree(&[(".", &["./xb", "./Xa10", "./xa9"])]);
    let mut search = Search::new(&file_system);
    let (_, _, entries) = search.consume_char('x').unwrap();
    let offered: Vec<_> = entries.iter().map(|entry| entry.path.display()).collect();
    // `xb` is one edit away; the other two tie and come by name, digits by value.
    assert_eq!(offered, vec!["./xb", "./xa9", "./Xa10"]);
    assert_eq!(search.get_path().unwrap(), as_path("./xb"));
}
