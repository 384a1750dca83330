use jyn::color::{
    danger, danger_bold, enabled_for, footer, header, id, inactive, info, label, pad_right_exec,
    plural, separator, success, warning, ColorChoice,
};

#[test]
fn colour_follows_the_choice_no_color_and_the_terminal() {
    assert!(enabled_for(ColorChoice::Always, true, false));
    assert!(!enabled_for(ColorChoice::Never, false, true));
    assert!(enabled_for(ColorChoice::Auto, false, true));
    assert!(!enabled_for(ColorChoice::Auto, true, true));
    assert!(!enabled_for(ColorChoice::Auto, false, false));
}

#[test]
fn helpers_wrap_only_when_enabled() {
    assert_eq!(label("ID", true), "\x1b[32mID\x1b[0m");
    assert_eq!(label("ID", false), "ID");
    assert_eq!(id("#A1", true), "\x1b[32m#A1\x1b[0m");
    assert_eq!(success("added", true), "\x1b[38;5;10madded\x1b[0m");
    assert_eq!(danger("x", true), "\x1b[31mx\x1b[0m");
    assert_eq!(danger_bold("x", true), "\x1b[1m\x1b[31mx\x1b[0m");
    assert_eq!(warning("x", true), "\x1b[33mx\x1b[0m");
    assert_eq!(info("x", true), "\x1b[36mx\x1b[0m");
    assert_eq!(inactive("x", true), "\x1b[38;5;8mx\x1b[0m");
    assert_eq!(inactive("x", false), "x");
}

#[test]
fn table_frame() {
    assert_eq!(separator(5, false), "-----");
    assert_eq!(
        header(&[("ID", 4), ("TITLE", 6)], 11, false),
        "-----------\nID   TITLE \n-----------"
    );
    assert_eq!(footer("2 tasks", 3, false), "---\n2 tasks");
    assert_eq!(footer("1 task", 2, true), "\x1b[32m--\x1b[0m\n\x1b[32m1 task\x1b[0m");
    assert_eq!(pad_right_exec("abcdef", 3), "abcdef");
}

#[test]
fn plural_counts() {
    assert_eq!(plural(1, "task"), "1 task");
    assert_eq!(plural(0, "task"), "0 tasks");
    assert_eq!(plural(3, "task"), "3 tasks");
}
