use jyn::calendar::CalDate;
use jyn::jot::due::{parse_due, render_due, DueSeverity, LabelMode};

fn d(y: i32, m: u32, day: u32) -> CalDate {
    CalDate::new(y, m, day).unwrap()
}

#[test]
fn parses_today_tomorrow_iso() {
    let today = d(2026, 4, 14);
    assert_eq!(parse_due("today", today).unwrap(), today);
    assert_eq!(parse_due("TOMORROW", today).unwrap(), d(2026, 4, 15));
    assert_eq!(parse_due("2026-12-31", today).unwrap(), d(2026, 12, 31));
}

#[test]
fn parses_current_year_shortcuts() {
    let today = d(2026, 4, 14);
    assert_eq!(parse_due("04-25", today).unwrap(), d(2026, 4, 25));
    assert_eq!(parse_due("25.04", today).unwrap(), d(2026, 4, 25));
    assert_eq!(parse_due("25.04.2027", today).unwrap(), d(2027, 4, 25));
}

#[test]
fn rejects_unsupported_forms() {
    let today = d(2026, 4, 14);
    assert!(parse_due("friday", today).is_err());
    assert!(parse_due("+3d", today).is_err());
    assert!(parse_due("", today).is_err());
}

#[test]
fn renders_relative_labels_long() {
    let today = d(2026, 4, 14); // Tuesday
    let long = LabelMode::Long;
    assert_eq!(render_due(today, today, long).0, "today");
    assert_eq!(render_due(d(2026, 4, 15), today, long).0, "tomorrow");
    assert_eq!(render_due(d(2026, 4, 17), today, long).0, "Fri");
    assert_eq!(render_due(d(2026, 4, 25), today, long).0, "2026-04-25");
    assert_eq!(render_due(d(2027, 4, 25), today, long).0, "2027-04-25");
    assert_eq!(render_due(d(2026, 4, 13), today, long).0, "overdue 1d");
}

#[test]
fn renders_relative_labels_short() {
    let today = d(2026, 4, 14);
    let short = LabelMode::Short;
    assert_eq!(render_due(today, today, short).0, "tod");
    assert_eq!(render_due(d(2026, 4, 15), today, short).0, "tmw");
    assert_eq!(render_due(d(2026, 4, 17), today, short).0, "Fri");
    assert_eq!(render_due(d(2026, 4, 25), today, short).0, "04-25");
    assert_eq!(render_due(d(2027, 4, 25), today, short).0, "2027-04-25");
    assert_eq!(render_due(d(2026, 4, 13), today, short).0, "-1d");
    assert_eq!(render_due(d(2026, 4, 1), today, short).0, "-13d");
}

#[test]
fn renders_severity_independent_of_mode() {
    let today = d(2026, 4, 14);
    for mode in [LabelMode::Long, LabelMode::Short] {
        assert_eq!(render_due(today, today, mode).1, DueSeverity::Today);
        assert_eq!(render_due(d(2026, 4, 15), today, mode).1, DueSeverity::Soon);
        assert_eq!(render_due(d(2026, 4, 13), today, mode).1, DueSeverity::Overdue);
        assert_eq!(render_due(d(2026, 5, 30), today, mode).1, DueSeverity::Later);
    }
}

#[test]
fn jot_parse_error_carries_the_input_and_names_the_forms() {
    let e = parse_due("  someday ", d(2026, 4, 14)).unwrap_err();
    assert_eq!(e.input, "  someday ");
    assert_eq!(
        e.message(),
        "cannot parse due date '  someday ': expected 'today', 'tomorrow', YYYY-MM-DD, MM-DD, DD.MM, or DD.MM.YYYY"
    );
}

#[test]
fn jot_keywords_are_trimmed_and_case_insensitive() {
    let today = d(2026, 4, 14);
    assert_eq!(parse_due("  Today\t", today).unwrap(), today);
    assert_eq!(parse_due(" 2026-01-02 ", today).unwrap(), d(2026, 1, 2));
}

#[test]
fn jot_tomorrow_on_the_last_date_is_an_error() {
    let last = d(262142, 12, 31);
    assert!(parse_due("tomorrow", last).is_err());
    assert_eq!(parse_due("today", last).unwrap(), last);
    assert_eq!(parse_due("tomorrow", d(2026, 12, 31)).unwrap(), d(2027, 1, 1));
}

#[test]
fn render_long_overdue_and_week_boundaries() {
    let today = d(2026, 4, 14);
    // Six days ahead is still a weekday name; seven days carries the date.
    assert_eq!(render_due(d(2026, 4, 20), today, LabelMode::Long), ("Mon".to_string(), DueSeverity::Soon));
    assert_eq!(render_due(d(2026, 4, 21), today, LabelMode::Long), ("2026-04-21".to_string(), DueSeverity::Later));
    assert_eq!(render_due(d(2025, 4, 14), today, LabelMode::Long).0, "overdue 365d");
    assert_eq!(render_due(d(2025, 12, 31), today, LabelMode::Short).0, "-104d");
}
