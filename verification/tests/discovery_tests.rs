use indiserver_ui::discovery::any_selected;
use indiserver_ui::discovery::apply_saved_selection;
use indiserver_ui::discovery::contains_string;
use indiserver_ui::discovery::derive_display_name;
use indiserver_ui::discovery::fetch_indi_binaries;
use indiserver_ui::discovery::is_driver_name;
use indiserver_ui::discovery::name_matches_filter;
use indiserver_ui::discovery::selected_paths;
use indiserver_ui::discovery::strip_driver_marker;

fn strings(names: &[&str]) -> Vec<String> {
    names.iter().map(|n| n.to_string()).collect()
}

#[test]
fn discovers_two_drivers_from_listing() {
    let names = strings(&["indiserver", "indi_test_ccd", "indi_test_focuser", ""]);
    let entries = fetch_indi_binaries(&names);
    assert_eq!(entries.len(), 2);
    assert_eq!(entries[0].display_name, "test ccd");
    assert_eq!(entries[0].executable_path, "/usr/bin/indi_test_ccd");
    assert!(!entries[0].selected);
    assert_eq!(entries[1].display_name, "test focuser");
    assert_eq!(entries[1].executable_path, "/usr/bin/indi_test_focuser");
    assert!(!entries[1].selected);
}

#[test]
fn discovery_keeps_matching_names_only() {
    let names = strings(&[
        "indi_ccd",
        "ls",
        "indiserver",
        "grep",
        "indi_mount",
        "",
        "indigo",
    ]);
    let entries = fetch_indi_binaries(&names);
    assert_eq!(entries.len(), 3);
    for e in &entries {
        assert!(!e.selected);
    }
    assert_eq!(entries[0].executable_path, "/usr/bin/indi_ccd");
    assert_eq!(entries[1].executable_path, "/usr/bin/indi_mount");
    assert_eq!(entries[2].executable_path, "/usr/bin/indigo");
}

#[test]
fn driver_name_test() {
    assert!(is_driver_name("indi_test_ccd"));
    assert!(is_driver_name("indigo"));
    assert!(!is_driver_name("indiserver"));
    assert!(!is_driver_name(""));
    assert!(!is_driver_name("ind"));
    assert!(!is_driver_name("xindi"));
}

#[test]
fn display_name_strips_marker_and_separators() {
    assert_eq!(derive_display_name("indi_test_ccd"), "test ccd");
    assert_eq!(derive_display_name("indi_indi_x"), "x");
    assert_eq!(derive_display_name("indigo"), "indigo");
    assert_eq!(strip_driver_marker("indi_indi_foo"), "foo");
}

#[test]
fn display_name_derivation_is_idempotent() {
    for name in ["indi_test_ccd", "indi_indi_x", "indigo", "indi_a_b_c"] {
        let once = derive_display_name(name);
        let twice = derive_display_name(&once);
        assert_eq!(twice, once);
    }
}

#[test]
fn saved_selection_is_applied_by_path() {
    let names = strings(&["indi_test_ccd", "indi_test_focuser", "indi_mount"]);
    let entries = fetch_indi_binaries(&names);
    let saved = strings(&["/usr/bin/indi_test_focuser"]);
    let merged = apply_saved_selection(entries, &saved);
    assert_eq!(merged.len(), 3);
    assert!(!merged[0].selected);
    assert!(merged[1].selected);
    assert!(!merged[2].selected);
    assert_eq!(merged[1].display_name, "test focuser");
}

#[test]
fn selected_paths_keeps_order() {
    let names = strings(&["indi_a", "indi_b", "indi_c"]);
    let entries = fetch_indi_binaries(&names);
    assert!(!any_selected(&entries));
    assert!(selected_paths(&entries).is_empty());
    let saved = strings(&["/usr/bin/indi_c", "/usr/bin/indi_a"]);
    let merged = apply_saved_selection(entries, &saved);
    assert!(any_selected(&merged));
    let paths = selected_paths(&merged);
    assert_eq!(paths, strings(&["/usr/bin/indi_a", "/usr/bin/indi_c"]));
}

#[test]
fn string_membership() {
    let v = strings(&["a", "bb", "ccc"]);
    assert!(contains_string(&v, "bb"));
    assert!(!contains_string(&v, "b"));
    assert!(!contains_string(&v, ""));
}

#[test]
fn filter_matching() {
    assert!(name_matches_filter("test ccd", ""));
    assert!(name_matches_filter("test ccd", "ccd"));
    assert!(name_matches_filter("test ccd", "st c"));
    assert!(name_matches_filter("test ccd", "test ccd"));
    assert!(!name_matches_filter("test ccd", "focuser"));
    assert!(!name_matches_filter("ccd", "test ccd"));
}
