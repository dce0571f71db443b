use cce_cloud::filter::{filter_and_sort_items, rank_items, score_match, EXACT, INSIDE, PREFIX, SCATTERED};

fn strings(v: &[&str]) -> Vec<String> {
    v.iter().map(|s| s.to_string()).collect()
}

#[test]
fn test_filter_and_sort_preserving_history() {
    let items = vec![
        "Firefox".to_string(),
        "File Manager".to_string(),
        "foo".to_string(),
    ];

    let filtered = filter_and_sort_items(&items, "f");
    assert_eq!(filtered.len(), 3);
    assert_eq!(filtered[0], "Firefox");
    assert_eq!(filtered[1], "File Manager");
    assert_eq!(filtered[2], "foo");

    let filtered_fi = filter_and_sort_items(&items, "fi");
    assert_eq!(filtered_fi.len(), 2);
    assert_eq!(filtered_fi[0], "Firefox");
    assert_eq!(filtered_fi[1], "File Manager");
}

#[test]
fn an_empty_query_keeps_everything() {
    let items = strings(&["b", "a", "b"]);
    assert_eq!(filter_and_sort_items(&items, ""), items);
}

#[test]
fn matches_are_scored() {
    assert_eq!(score_match("vim", "vim"), Some(EXACT));
    assert_eq!(score_match("vimdiff", "vim"), Some(PREFIX));
    assert_eq!(score_match("gvim", "vim"), Some(INSIDE));
    assert_eq!(score_match("visual prim", "vim"), Some(SCATTERED));
    assert_eq!(score_match("emacs", "vim"), None);
    assert_eq!((EXACT, PREFIX, INSIDE, SCATTERED), (100, 80, 50, 10));
}

#[test]
fn better_matches_come_first() {
    let items = strings(&["xaxbx", "xab", "abx", "AB", "nothing", "ab"]);
    assert_eq!(
        filter_and_sort_items(&items, "aB"),
        strings(&["AB", "ab", "abx", "xab", "xaxbx"])
    );
}

#[test]
fn case_is_ignored_beyond_ascii() {
    let items = strings(&["ÄRGER", "Straße", "arg"]);
    assert_eq!(filter_and_sort_items(&items, "ärger"), strings(&["ÄRGER"]));
    assert_eq!(filter_and_sort_items(&items, "STRAßE"), strings(&["Straße"]));
}

#[test]
fn equal_matches_keep_their_order() {
    let items = strings(&["tab two", "tab one", "tab three"]);
    assert_eq!(filter_and_sort_items(&items, "tab"), items);
}

#[test]
fn filtering_twice_is_filtering_once() {
    let items = strings(&["gvim", "vim", "vi", "visual prim", "emacs"]);
    let once = filter_and_sort_items(&items, "vim");
    assert_eq!(once, strings(&["vim", "gvim", "visual prim"]));
    assert_eq!(filter_and_sort_items(&once, "vim"), once);
    assert!(once.len() <= items.len());
}

#[test]
fn ranking_shows_the_items_as_they_are() {
    let items = strings(&["B", "AB"]);
    let lowered = strings(&["b", "ab"]);
    assert_eq!(rank_items(&items, &lowered, "b"), strings(&["B", "AB"]));
    assert_eq!(rank_items(&items, &lowered, "a"), strings(&["AB"]));
}

#[test]
fn the_case_of_a_query_does_not_matter() {
    let items = strings(&["Grün", "GRÜNER", "gr-ün", "rot"]);
    let want = strings(&["Grün", "GRÜNER", "gr-ün"]);
    for query in ["grün", "GRÜN", "GrÜn"] {
        assert_eq!(filter_and_sort_items(&items, query), want);
    }
}

#[test]
fn only_an_empty_text_has_an_empty_lower_case_form() {
    assert_eq!("".to_lowercase(), "");
    for c in '\0'..=char::MAX {
        assert!(!c.to_string().to_lowercase().is_empty());
    }
}
