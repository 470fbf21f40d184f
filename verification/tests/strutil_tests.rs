use indiserver_ui::strutil::find_char;
use indiserver_ui::strutil::join_with;
use indiserver_ui::strutil::split_on;
use indiserver_ui::strutil::str_eq;

fn strings(names: &[&str]) -> Vec<String> {
    names.iter().map(|n| n.to_string()).collect()
}

#[test]
fn split_keeps_empty_fields() {
    assert_eq!(split_on("a,bb,,c", ','), strings(&["a", "bb", "", "c"]));
    assert_eq!(split_on("", ','), strings(&[""]));
    assert_eq!(split_on(",", ','), strings(&["", ""]));
    assert_eq!(split_on("abc", ','), strings(&["abc"]));
}

#[test]
fn join_places_separator_between_parts() {
    assert_eq!(join_with(&strings(&["a", "b", "c"]), ","), "a,b,c");
    assert_eq!(join_with(&strings(&["a"]), ","), "a");
    assert_eq!(join_with(&Vec::new(), ","), "");
}

#[test]
fn split_undoes_join() {
    let parts = strings(&["/usr/bin/indi_a", "/usr/bin/indi_b"]);
    assert_eq!(split_on(&join_with(&parts, ","), ','), parts);
}

#[test]
fn first_occurrence_is_found() {
    assert_eq!(find_char("key=value=x", '='), Some(3));
    assert_eq!(find_char("abc", '='), None);
    assert_eq!(find_char("", '='), None);
    assert_eq!(find_char("=x", '='), Some(0));
}

#[test]
fn string_equality_is_by_characters() {
    assert!(str_eq("abc", "abc"));
    assert!(!str_eq("abc", "abd"));
    assert!(!str_eq("abc", "ab"));
    assert!(str_eq("", ""));
}
