use collector::selection::{click, contains_text, follow_reorder, name_matches_search, position_of, Selection};

fn ids(v: &[&str]) -> Vec<String> {
    v.iter().map(|s| s.to_string()).collect()
}

fn fresh() -> Selection {
    Selection { checked: vec![], anchor: None, multi: false, selected: None }
}

#[test]
fn plain_clicks_open_and_close_a_row() {
    let rows = ids(&["a", "b", "c"]);
    let vis = vec![true; 3];
    let mut s = fresh();
    assert!(click(&mut s, &rows, &vis, 1, false, false, false));
    assert_eq!(s.selected.as_deref(), Some("b"));
    assert_eq!(s.checked, vec![false; 3]);
    assert_eq!(s.anchor, Some(1));
    assert!(!s.multi);
    assert!(click(&mut s, &rows, &vis, 1, false, false, false));
    assert_eq!(s.selected, None);
    assert!(click(&mut s, &rows, &vis, 2, false, false, false));
    assert_eq!(s.selected.as_deref(), Some("c"));
    // a click beyond the list does nothing
    assert!(!click(&mut s, &rows, &vis, 3, false, false, false));
    assert_eq!(s.selected.as_deref(), Some("c"));
}

#[test]
fn ctrl_clicks_toggle_marks() {
    let rows = ids(&["a", "b", "c"]);
    let vis = vec![true; 3];
    let mut s = fresh();
    s.selected = Some("a".into());
    click(&mut s, &rows, &vis, 2, true, false, false);
    assert_eq!(s.checked, vec![false, false, true]);
    assert!(s.multi);
    assert_eq!(s.selected.as_deref(), Some("a"));
    click(&mut s, &rows, &vis, 2, true, false, false);
    assert_eq!(s.checked, vec![false, false, false]);
    assert!(!s.multi);
    // in the item list, marking closes the open row
    click(&mut s, &rows, &vis, 0, true, false, true);
    assert_eq!(s.selected, None);
    assert_eq!(s.anchor, Some(0));
}

#[test]
fn shift_clicks_mark_visible_ranges() {
    let rows = ids(&["a", "b", "c", "d", "e"]);
    let vis = vec![true, true, false, true, true];
    let mut s = fresh();
    s.anchor = Some(1);
    click(&mut s, &rows, &vis, 4, false, true, false);
    assert_eq!(s.checked, vec![false, true, false, true, true]);
    assert!(s.multi);
    assert_eq!(s.anchor, Some(1));
    // a stale anchor falls back to the open row
    let mut s = fresh();
    s.anchor = Some(9);
    s.selected = Some("d".into());
    click(&mut s, &rows, &vec![true; 5], 1, false, true, true);
    assert_eq!(s.checked, vec![false, true, true, true, false]);
    assert_eq!(s.anchor, Some(3));
    assert_eq!(s.selected, None);
    // and then to the clicked row
    let mut s = fresh();
    click(&mut s, &rows, &vec![true; 5], 2, false, true, false);
    assert_eq!(s.checked, vec![false, false, true, false, false]);
}

#[test]
fn marks_follow_rows_through_a_sort() {
    let before = ids(&["a", "b", "c"]);
    let after = ids(&["c", "a", "b"]);
    let mut s = Selection { checked: vec![true, false, true], anchor: Some(0), multi: true, selected: Some("b".into()) };
    follow_reorder(&mut s, &before, &after);
    assert_eq!(s.checked, vec![true, true, false]);
    assert!(s.multi);
    assert_eq!(s.anchor, Some(2));
    let mut s = Selection { checked: vec![], anchor: Some(1), multi: false, selected: None };
    follow_reorder(&mut s, &before, &after);
    assert_eq!(s.checked, vec![false; 3]);
    assert_eq!(s.anchor, None);
}

#[test]
fn searching_matches_names_ignoring_case() {
    assert!(name_matches_search("Vintage Cameras", ""));
    assert!(name_matches_search("Vintage Cameras", "camera"));
    assert!(name_matches_search("Vintage Cameras", "TAGE C"));
    assert!(!name_matches_search("Vintage Cameras", "lens"));
    assert!(name_matches_search("ÉCLAIRS", "éclair"));
    assert!(contains_text("abcabd", "abd"));
    assert!(!contains_text("ab", "abc"));
    assert!(contains_text("", ""));
    assert_eq!(position_of(&ids(&["x", "y", "x"]), "x"), Some(0));
    assert_eq!(position_of(&ids(&["x", "y"]), "z"), None);
}
