use pkgnav::index::{IndexError, PackageIndex};
use pkgnav::navigator::{App, Key, SearchDirection};
use pkgnav::packages::{PackageDesc, Reason};
use pkgnav::pane::Filter;

fn pkg(name: &str, reason: Reason, size: Option<u64>, deps: &[&str]) -> PackageDesc {
    PackageDesc {
        name: name.to_string(),
        version: "1".to_string(),
        description: "a description".to_string(),
        url: "https://example.invalid".to_string(),
        reason,
        size,
        dependencies: deps.iter().map(|s| s.to_string()).collect(),
        optional_dependencies: Vec::new(),
    }
}

fn names(app: &App, items: &[usize]) -> Vec<String> {
    items.iter().map(|&i| app.index.packages[i].name.clone()).collect()
}

fn center_names(app: &App) -> Vec<String> {
    names(app, &app.center.items)
}

fn selected_center_name(app: &App) -> Option<String> {
    app.center.selection.map(|i| app.index.packages[app.center.items[i]].name.clone())
}

/// The scenario index: A and B explicit, C installed as a dependency of
/// A and B.
fn scenario_app() -> App {
    let records = vec![
        pkg("a", Reason::Explicit, Some(10), &[]),
        pkg("b", Reason::Explicit, Some(30), &["a"]),
        pkg("c", Reason::Dependency, Some(20), &["a", "b"]),
    ];
    App::new(PackageIndex::new(records).unwrap())
}

#[test]
fn index_rejects_duplicate_names() {
    let records = vec![
        pkg("a", Reason::Explicit, None, &[]),
        pkg("a", Reason::Explicit, None, &[]),
    ];
    assert_eq!(PackageIndex::new(records).unwrap_err(), IndexError::DuplicateName);
}

#[test]
fn index_rejects_empty_required_field() {
    let mut p = pkg("a", Reason::Explicit, None, &[]);
    p.version = String::new();
    assert_eq!(PackageIndex::new(vec![p]).unwrap_err(), IndexError::EmptyField);
}

#[test]
fn index_ignores_dependencies_not_installed() {
    let records = vec![pkg("a", Reason::Explicit, None, &["zz-not-installed"])];
    let idx = PackageIndex::new(records).unwrap();
    assert!(idx.dependants[0].is_empty());
    assert_eq!(idx.find_by_name("zz-not-installed"), None);
    assert_eq!(idx.find_by_name("a"), Some(0));
}

#[test]
fn default_view_shows_only_explicit_packages() {
    let app = scenario_app();
    assert!(matches!(app.filter, Filter::Explicit));
    assert_eq!(center_names(&app), vec!["a", "b"]);
    assert_eq!(selected_center_name(&app), Some("a".to_string()));
}

#[test]
fn dependants_pane_is_not_filtered() {
    // With "a" centered, both "b" and "c" depend on it, and "c" must be
    // shown although the center filter hides it.
    let app = scenario_app();
    assert_eq!(selected_center_name(&app), Some("a".to_string()));
    assert_eq!(names(&app, &app.dependants_pane.items), vec!["b", "c"]);
    assert!(app.dependencies_pane.items.is_empty());
}

#[test]
fn dependency_consistency_both_directions() {
    let mut app = scenario_app();
    // Center "b": its dependencies pane holds "a", its dependants "c".
    let changed = app.move_in_active(1);
    assert!(changed);
    assert_eq!(selected_center_name(&app), Some("b".to_string()));
    assert_eq!(names(&app, &app.dependencies_pane.items), vec!["a"]);
    assert_eq!(names(&app, &app.dependants_pane.items), vec!["c"]);
}

#[test]
fn promote_forces_filter_to_all() {
    let mut app = scenario_app();
    // "a" is centered; promote its dependant "c" from the left pane.
    app.change_active_column(0);
    assert_eq!(names(&app, &app.dependants_pane.items), vec!["b", "c"]);
    app.move_in_active(1);
    app.change_center_package();
    assert!(matches!(app.filter, Filter::All));
    assert_eq!(selected_center_name(&app), Some("c".to_string()));
    assert_eq!(center_names(&app), vec!["a", "b", "c"]);
    assert_eq!(names(&app, &app.dependencies_pane.items), vec!["a", "b"]);
}

#[test]
fn promote_explicit_record_keeps_filter() {
    let mut app = scenario_app();
    // "a" is centered; promote its dependant "b", which is explicit.
    app.change_active_column(0);
    app.change_center_package();
    assert!(matches!(app.filter, Filter::Explicit));
    assert_eq!(selected_center_name(&app), Some("b".to_string()));
}

#[test]
fn promote_from_center_is_a_no_op() {
    let mut app = scenario_app();
    let before = center_names(&app);
    app.change_center_package();
    assert_eq!(center_names(&app), before);
    assert!(matches!(app.filter, Filter::Explicit));
}

#[test]
fn filter_round_trip_restores_center_items() {
    let mut app = scenario_app();
    let before = app.center.items.clone();
    app.toggle_filter();
    assert_eq!(center_names(&app), vec!["a", "b", "c"]);
    app.toggle_filter();
    assert_eq!(app.center.items, before);
    assert!(matches!(app.filter, Filter::Explicit));
}

#[test]
fn reanchoring_same_items_keeps_selection() {
    let mut app = scenario_app();
    app.move_in_active(1);
    let items = app.center.items.clone();
    let previous = app.center.selected();
    let sel_before = app.center.selection;
    app.center.replace_items(items, previous);
    assert_eq!(app.center.selection, sel_before);
}

#[test]
fn sort_toggle_orders_by_size_then_name() {
    let mut app = scenario_app();
    app.toggle_filter();  // show all three
    app.toggle_sort_active();  // center: name-ascending -> size-descending
    let sizes: Vec<u64> = app
        .center
        .items
        .iter()
        .map(|&i| app.index.packages[i].size.unwrap_or(0))
        .collect();
    assert_eq!(sizes, vec![30, 20, 10]);
    assert_eq!(center_names(&app), vec!["b", "c", "a"]);
    app.toggle_sort_active();  // back to name-ascending
    assert_eq!(center_names(&app), vec!["a", "b", "c"]);
}

#[test]
fn filter_round_trip_restores_order_under_size_ties() {
    // supplied out of name order, all sizes equal: after toggling the
    // filter twice under the size sort, the exact order comes back,
    // ties in name order
    let records = vec![
        pkg("x", Reason::Explicit, Some(5), &[]),
        pkg("a", Reason::Explicit, Some(5), &[]),
        pkg("m", Reason::Dependency, Some(5), &[]),
    ];
    let mut app = App::new(PackageIndex::new(records).unwrap());
    app.toggle_sort_active();  // center: size-descending
    let before = app.center.items.clone();
    assert_eq!(center_names(&app), vec!["a", "x"]);
    app.toggle_filter();
    assert_eq!(center_names(&app), vec!["a", "m", "x"]);
    app.toggle_filter();
    assert_eq!(app.center.items, before);
}

#[test]
fn sort_by_size_is_stable_on_ties() {
    let records = vec![
        pkg("x", Reason::Explicit, Some(5), &[]),
        pkg("m", Reason::Explicit, Some(5), &[]),
        pkg("a", Reason::Explicit, Some(5), &[]),
    ];
    let mut app = App::new(PackageIndex::new(records).unwrap());
    assert_eq!(center_names(&app), vec!["a", "m", "x"]);
    app.toggle_sort_active();
    // all sizes are equal: the pre-sort (alphabetical) order is kept
    assert_eq!(center_names(&app), vec!["a", "m", "x"]);
}

#[test]
fn sort_toggle_keeps_selected_record() {
    let mut app = scenario_app();
    app.toggle_filter();
    app.move_in_active(2);  // select "c"
    assert_eq!(selected_center_name(&app), Some("c".to_string()));
    app.toggle_sort_active();
    assert_eq!(selected_center_name(&app), Some("c".to_string()));
}

#[test]
fn move_selection_is_clamped() {
    let mut app = scenario_app();
    assert!(!app.move_in_active(-100));
    assert_eq!(app.center.selection, Some(0));
    assert!(app.move_in_active(100));
    assert_eq!(app.center.selection, Some(1));
    assert!(app.jump_start_active());
    assert_eq!(app.center.selection, Some(0));
    assert!(app.jump_end_active());
    assert_eq!(app.center.selection, Some(1));
}

#[test]
fn move_in_empty_pane_is_a_no_op() {
    let app0 = App::new(PackageIndex::new(Vec::new()).unwrap());
    let mut app = app0;
    assert!(app.center.items.is_empty());
    assert_eq!(app.center.selection, None);
    assert!(!app.move_in_active(1));
    assert_eq!(app.center.selection, None);
}

#[test]
fn search_wraps_around() {
    let mut app = scenario_app();
    app.toggle_filter();  // center shows a, b, c
    app.jump_end_active();  // select "c"
    app.search = vec!['a'];
    assert!(app.search(SearchDirection::Down));
    assert_eq!(selected_center_name(&app), Some("a".to_string()));
}

#[test]
fn search_excludes_current_selection() {
    let mut app = scenario_app();
    app.toggle_filter();
    app.jump_end_active();  // select "c"; no other name contains "c"
    app.search = vec!['c'];
    assert!(!app.search(SearchDirection::Down));
    assert_eq!(selected_center_name(&app), Some("c".to_string()));
}

#[test]
fn search_upwards_wraps_too() {
    let mut app = scenario_app();
    app.toggle_filter();
    app.jump_start_active();  // select "a"
    app.search = vec!['b'];
    assert!(app.search(SearchDirection::Up));
    assert_eq!(selected_center_name(&app), Some("b".to_string()));
}

#[test]
fn search_with_empty_term_is_a_no_op() {
    let mut app = scenario_app();
    assert!(!app.search(SearchDirection::Down));
    assert_eq!(selected_center_name(&app), Some("a".to_string()));
}

#[test]
fn events_drive_search_entry() {
    let mut app = scenario_app();
    app.toggle_filter();
    app.jump_end_active();  // select "c"
    assert!(!app.event(Key::Char('/')));
    assert!(app.searching);
    assert!(!app.event(Key::Char('x')));
    assert!(!app.event(Key::Backspace));
    assert!(!app.event(Key::Char('b')));
    assert_eq!(app.search, vec!['b']);
    // 'q' while composing is part of the term, not a quit
    assert!(!app.event(Key::Char('q')));
    assert!(!app.event(Key::Backspace));
    assert!(!app.event(Key::Enter));
    assert!(!app.searching);
    assert_eq!(selected_center_name(&app), Some("b".to_string()));
    // repeat the search downwards: wraps past "c" back to "b"
    assert!(!app.event(Key::Char('n')));
    assert_eq!(selected_center_name(&app), Some("b".to_string()));
}

#[test]
fn event_quit_keys() {
    let mut app = scenario_app();
    assert!(app.event(Key::Char('q')));
    assert!(app.event(Key::Char('c')));
    assert!(!app.event(Key::Char('z')));
}

#[test]
fn events_move_active_column() {
    let mut app = scenario_app();
    assert_eq!(app.active_column, 1);
    app.event(Key::Left);
    assert_eq!(app.active_column, 0);
    assert!(app.dependants_pane.is_active);
    app.event(Key::Left);
    assert_eq!(app.active_column, 0);
    app.event(Key::Right);
    app.event(Key::Right);
    assert_eq!(app.active_column, 2);
    assert!(app.dependencies_pane.is_active);
    app.event(Key::Right);
    assert_eq!(app.active_column, 2);
}

#[test]
fn event_toggles_help_and_filter() {
    let mut app = scenario_app();
    assert!(app.show_help);
    app.event(Key::Char('?'));
    assert!(!app.show_help);
    app.event(Key::Char('e'));
    assert!(matches!(app.filter, Filter::All));
    app.event(Key::Char('e'));
    assert!(matches!(app.filter, Filter::Explicit));
}

#[test]
fn side_selections_reset_on_center_change() {
    let mut app = scenario_app();
    app.change_active_column(0);
    app.move_in_active(1);
    assert_eq!(app.dependants_pane.selection, Some(1));
    app.change_active_column(1);
    app.move_in_active(1);  // center "a" -> "b"; sides recomputed
    assert_eq!(app.dependants_pane.selection, Some(0));
    assert_eq!(names(&app, &app.dependants_pane.items), vec!["c"]);
}
