use jyn::calendar::CalDate;
use jyn::jyn::due::{parse_due, parse_due_checked, render_due, DueSeverity, LabelMode};

fn d(y: i32, m: u32, day: u32) -> CalDate {
    CalDate::new(y, m, day).unwrap()
}

#[test]
fn due_parses_today_tomorrow_iso() {
    let today = d(2026, 4, 14);
    assert_eq!(parse_due("today", today).unwrap(), today);
    assert_eq!(parse_due("TOMORROW", today).unwrap(), d(2026, 4, 15));
    assert_eq!(parse_due("2026-12-31", today).unwrap(), d(2026, 12, 31));
}

#[test]
fn due_parses_current_year_shortcuts() {
    let today = d(2026, 4, 14);
    assert_eq!(parse_due("04-25", today).unwrap(), d(2026, 4, 25));
    assert_eq!(parse_due("25.04", today).unwrap(), d(2026, 4, 25));
    assert_eq!(parse_due("25.04.2027", today).unwrap(), d(2027, 4, 25));
}

#[test]
fn parses_weekday_names() {
    let today = d(2026, 4, 14); // Tuesday
    // Upcoming weekday within the week.
    assert_eq!(parse_due("friday", today).unwrap(), d(2026, 4, 17));
    assert_eq!(parse_due("fri", today).unwrap(), d(2026, 4, 17));
    assert_eq!(parse_due("Sunday", today).unwrap(), d(2026, 4, 19));
    // Today's own weekday resolves to the following week, never today.
    assert_eq!(parse_due("tue", today).unwrap(), d(2026, 4, 21));
    // The optional "next " prefix is accepted as a synonym.
    assert_eq!(parse_due("next monday", today).unwrap(), d(2026, 4, 20));
    assert_eq!(parse_due("mon", today).unwrap(), d(2026, 4, 20));
}

#[test]
fn parses_relative_offsets() {
    let today = d(2026, 4, 14);
    assert_eq!(parse_due("+3d", today).unwrap(), d(2026, 4, 17));
    assert_eq!(parse_due("3d", today).unwrap(), d(2026, 4, 17));
    assert_eq!(parse_due("+1w", today).unwrap(), d(2026, 4, 21));
    assert_eq!(parse_due("2w", today).unwrap(), d(2026, 4, 28));
}

#[test]
fn due_rejects_unsupported_forms() {
    let today = d(2026, 4, 14);
    assert!(parse_due("someday", today).is_err());
    assert!(parse_due("3", today).is_err()); // offset needs a unit
    assert!(parse_due("+3x", today).is_err()); // unknown unit
    assert!(parse_due("+w", today).is_err()); // missing count
    assert!(parse_due("-3d", today).is_err()); // no negative offsets
    assert!(parse_due("", today).is_err());
}

#[test]
fn due_renders_relative_labels_long() {
    let today = d(2026, 4, 14); // Tuesday
    let long = LabelMode::Long;
    assert_eq!(render_due(today, today, long).0, "today");
    assert_eq!(render_due(d(2026, 4, 15), today, long).0, "tomorrow");
    assert_eq!(render_due(d(2026, 4, 17), today, long).0, "Fri");
    assert_eq!(render_due(d(2026, 4, 25), today, long).0, "2026-04-25");
    assert_eq!(render_due(d(2027, 4, 25), today, long).0, "2027-04-25");
    assert_eq!(render_due(d(2026, 4, 13), today, long).0, "overdue 1d");
}

#[test]
fn due_renders_relative_labels_short() {
    let today = d(2026, 4, 14);
    let short = LabelMode::Short;
    assert_eq!(render_due(today, today, short).0, "tod");
    assert_eq!(render_due(d(2026, 4, 15), today, short).0, "tmw");
    assert_eq!(render_due(d(2026, 4, 17), today, short).0, "Fri");
    assert_eq!(render_due(d(2026, 4, 25), today, short).0, "04-25");
    assert_eq!(render_due(d(2027, 4, 25), today, short).0, "2027-04-25");
    assert_eq!(render_due(d(2026, 4, 13), today, short).0, "-1d");
    assert_eq!(render_due(d(2026, 4, 1), today, short).0, "-13d");
}

#[test]
fn due_renders_severity_independent_of_mode() {
    let today = d(2026, 4, 14);
    for mode in [LabelMode::Long, LabelMode::Short] {
        assert_eq!(render_due(today, today, mode).1, DueSeverity::Today);
        assert_eq!(render_due(d(2026, 4, 15), today, mode).1, DueSeverity::Soon);
        assert_eq!(render_due(d(2026, 4, 13), today, mode).1, DueSeverity::Overdue);
        assert_eq!(render_due(d(2026, 5, 30), today, mode).1, DueSeverity::Later);
    }
}

#[test]
fn weekday_names_are_always_one_to_seven_days_ahead() {
    // Every weekday name, from every day of a week: the next matching day,
    // strictly in the future.
    let names = ["mon", "tue", "wed", "thu", "fri", "sat", "sun"];
    for offset in 0..7u32 {
        let today = d(2026, 4, 13 + offset); // Monday 13 to Sunday 19
        for (w, name) in names.iter().enumerate() {
            let got = parse_due(name, today).unwrap();
            let ahead = (w as i64 + 7 - offset as i64) % 7;
            let ahead = if ahead == 0 { 7 } else { ahead };
            let expected = CalDate::new(2026, 4, 13 + offset + ahead as u32)
                .or_else(|| CalDate::new(2026, 5, 13 + offset + ahead as u32 - 30))
                .unwrap();
            assert_eq!(got, expected, "{name} from 2026-04-{}", 13 + offset);
        }
    }
}

#[test]
fn offsets_accept_a_plus_and_weeks() {
    let today = d(2026, 4, 14);
    assert_eq!(parse_due("0d", today).unwrap(), today);
    assert_eq!(parse_due("+10D", today).unwrap(), d(2026, 4, 24));
    assert_eq!(parse_due("++2d", today).unwrap(), d(2026, 4, 16)); // u32 accepts its own '+'
    assert_eq!(parse_due("52w", today).unwrap(), d(2027, 4, 13));
    assert!(parse_due("4294967296d", today).is_err()); // not a u32
}

#[test]
fn far_offsets_are_errors_and_split_chars_out_of_bounds() {
    let today = d(2026, 4, 14);
    assert!(parse_due("4000000000d", today).is_err());
    assert!(parse_due("99999999d", today).is_err());
    assert!(parse_due("4294967295w", today).is_err());
    assert!(parse_due("tomorrow", d(262142, 12, 31)).is_err());
    assert!(parse_due("next sunday", d(262142, 12, 31)).is_err());
    assert!(matches!(parse_due_checked("4000000000d", today), Some(Err(_))));
    assert!(parse_due_checked("3é", today).is_none());
    assert_eq!(parse_due_checked("+3d", today), Some(Ok(d(2026, 4, 17))));
    assert!(matches!(parse_due_checked("someday", today), Some(Err(_))));
}

#[test]
fn jyn_parse_error_names_the_forms() {
    let e = parse_due("someday", d(2026, 4, 14)).unwrap_err();
    assert_eq!(e.input, "someday");
    assert_eq!(
        e.message(),
        "cannot parse due date 'someday': expected 'today', 'tomorrow', a weekday (e.g. 'fri', 'next monday'), an offset (e.g. '+3d', '2w'), YYYY-MM-DD, MM-DD, DD.MM, or DD.MM.YYYY"
    );
}
