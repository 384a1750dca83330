use jyn::jot::display::{format_ids, normalize_id_input, short_id};

#[test]
fn short_id_strips_prefix_suffix_and_leading_zeros() {
    assert_eq!(short_id("TODO-00A1-EA"), "#A1");
    assert_eq!(short_id("TODO-0001-7F"), "#1");
    assert_eq!(short_id("TODO-0110-B3"), "#110");
    assert_eq!(short_id("TODO-FFFF-00"), "#FFFF");
}

#[test]
fn short_id_without_suffix_still_works() {
    assert_eq!(short_id("TODO-0042"), "#42");
}

#[test]
fn format_ids_unique_counters_stay_short() {
    let ids = vec!["TODO-0001-7F", "TODO-00A1-EA", "TODO-0110-B3"];
    let out = format_ids(&ids);
    assert_eq!(out, vec!["#1", "#A1", "#110"]);
}

#[test]
fn format_ids_expands_only_colliding_rows() {
    let ids = vec![
        "TODO-0001-7F",
        "TODO-00A1-EA",
        "TODO-00A1-7F",
        "TODO-0110-B3",
    ];
    let out = format_ids(&ids);
    assert_eq!(out, vec!["#1", "#A1-EA", "#A1-7F", "#110"]);
}

#[test]
fn normalize_accepts_short_form() {
    assert_eq!(normalize_id_input("#A1"), "TODO-00A1");
    assert_eq!(normalize_id_input("A1"), "TODO-00A1");
    assert_eq!(normalize_id_input("a1"), "TODO-00A1");
    assert_eq!(normalize_id_input("1"), "TODO-0001");
    assert_eq!(normalize_id_input("110"), "TODO-0110");
    assert_eq!(normalize_id_input("FFFF"), "TODO-FFFF");
}

#[test]
fn normalize_accepts_short_form_with_suffix() {
    assert_eq!(normalize_id_input("#A1-EA"), "TODO-00A1-EA");
    assert_eq!(normalize_id_input("a1-ea"), "TODO-00A1-EA");
}

#[test]
fn normalize_passes_through_full_form() {
    assert_eq!(normalize_id_input("TODO-00A1"), "TODO-00A1");
    assert_eq!(normalize_id_input("todo-00a1-ea"), "TODO-00A1-EA");
}

#[test]
fn normalize_passes_through_nonsense() {
    // Out-of-range hex and non-hex input stays untouched, so that looking
    // the task up reports a clean "not found".
    assert_eq!(normalize_id_input("GGGGG"), "GGGGG");
    assert_eq!(normalize_id_input("12345"), "12345");
}

#[test]
fn short_labels_normalize_back_to_full_ids() {
    // What a list shows is what a user can type back.
    assert_eq!(normalize_id_input(&short_id("TODO-00A1-EA")), "TODO-00A1");
    let labels = format_ids(&["TODO-00A1-EA", "TODO-00A1-7F"]);
    assert_eq!(normalize_id_input(&labels[0]), "TODO-00A1-EA");
    assert_eq!(normalize_id_input(&labels[1]), "TODO-00A1-7F");
}

#[test]
fn format_ids_of_an_empty_list_is_empty() {
    let none: Vec<&str> = Vec::new();
    assert!(format_ids(&none).is_empty());
}

#[test]
fn distinct_counters_are_labelled_as_short_id_labels_them() {
    let ids = ["TODO-0001-7F", "TODO-00A1-EA", "TODO-0110-B3", "0ABC"];
    let labels = format_ids(&ids);
    let shorts: Vec<String> = ids.iter().map(|f| short_id(f)).collect();
    assert_eq!(labels, shorts);
}

#[test]
fn distinct_non_ascii_counters_stay_short() {
    let ids = ["TODO-00É1-7F", "TODO-00A1-EA"];
    let labels = format_ids(&ids);
    let shorts: Vec<String> = ids.iter().map(|f| short_id(f)).collect();
    assert_eq!(labels, shorts);
    assert_eq!(labels, vec!["#É1".to_string(), "#A1".to_string()]);
}

#[test]
fn uppercasing_maps_each_char_as_std_does() {
    assert_eq!(normalize_id_input("todo-straße"), "todo-straße".to_uppercase());
    assert_eq!(normalize_id_input("todo-straße"), "TODO-STRASSE");
    assert_eq!(normalize_id_input("  todo-00a1-ea "), "TODO-00A1-EA");
}
