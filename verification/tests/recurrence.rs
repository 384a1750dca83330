use jyn::calendar::{CalDate, Instant};
use jyn::jyn::recurrence::{
    next_occurrence, next_occurrence_at, parse_input, parse_input_checked, validate,
};

fn d(y: i32, m: u32, day: u32) -> CalDate {
    CalDate::new(y, m, day).unwrap()
}

#[test]
fn validates_good_and_bad_rules() {
    assert!(validate("FREQ=WEEKLY").is_ok());
    assert!(validate("FREQ=MONTHLY;BYMONTHDAY=1").is_ok());
    assert!(validate("FREQ=WEEKLY;BYDAY=MO,WE,FR").is_ok());
    assert!(validate("FREQ=NONSENSE").is_err());
    assert!(validate("not a rule").is_err());
    assert!(validate("").is_err());
}

#[test]
fn next_occurrence_basic_frequencies() {
    let anchor = d(2026, 4, 14); // Tuesday
    assert_eq!(next_occurrence("FREQ=DAILY", anchor, anchor).unwrap(), Some(d(2026, 4, 15)));
    assert_eq!(next_occurrence("FREQ=WEEKLY", anchor, anchor).unwrap(), Some(d(2026, 4, 21)));
    assert_eq!(next_occurrence("FREQ=MONTHLY", anchor, anchor).unwrap(), Some(d(2026, 5, 14)));
    assert_eq!(next_occurrence("FREQ=YEARLY", anchor, anchor).unwrap(), Some(d(2027, 4, 14)));
}

#[test]
fn next_occurrence_with_interval() {
    let anchor = d(2026, 4, 14);
    assert_eq!(
        next_occurrence("FREQ=DAILY;INTERVAL=3", anchor, anchor).unwrap(),
        Some(d(2026, 4, 17))
    );
    assert_eq!(
        next_occurrence("FREQ=WEEKLY;INTERVAL=2", anchor, anchor).unwrap(),
        Some(d(2026, 4, 28))
    );
}

#[test]
fn next_occurrence_exhausted_series_is_none() {
    let anchor = d(2026, 4, 14);
    // Only one occurrence (the anchor); nothing strictly after it.
    assert_eq!(next_occurrence("FREQ=DAILY;COUNT=1", anchor, anchor).unwrap(), None);
}

#[test]
fn parse_input_bare_frequencies() {
    assert_eq!(parse_input("daily").unwrap(), "FREQ=DAILY");
    assert_eq!(parse_input("weekly").unwrap(), "FREQ=WEEKLY");
    assert_eq!(parse_input("monthly").unwrap(), "FREQ=MONTHLY");
    assert_eq!(parse_input("yearly").unwrap(), "FREQ=YEARLY");
    assert_eq!(parse_input("hourly").unwrap(), "FREQ=HOURLY");
    // Surrounding whitespace and casing are forgiven.
    assert_eq!(parse_input("  Daily ").unwrap(), "FREQ=DAILY");
}

#[test]
fn parse_input_every_weekday() {
    assert_eq!(parse_input("every Monday").unwrap(), "FREQ=WEEKLY;BYDAY=MO");
    assert_eq!(parse_input("every fri").unwrap(), "FREQ=WEEKLY;BYDAY=FR");
}

#[test]
fn parse_input_every_n_unit() {
    assert_eq!(parse_input("every 2 weeks").unwrap(), "FREQ=WEEKLY;INTERVAL=2");
    assert_eq!(parse_input("every 3 days").unwrap(), "FREQ=DAILY;INTERVAL=3");
    assert_eq!(parse_input("every 6 hours").unwrap(), "FREQ=HOURLY;INTERVAL=6");
}

#[test]
fn parse_input_weekdays_alias() {
    assert_eq!(parse_input("weekdays").unwrap(), "FREQ=WEEKLY;BYDAY=MO,TU,WE,TH,FR");
}

#[test]
fn parse_input_monthly_on_the_nth() {
    assert_eq!(parse_input("monthly on the 1st").unwrap(), "FREQ=MONTHLY;BYMONTHDAY=1");
    assert_eq!(parse_input("monthly on the 15th").unwrap(), "FREQ=MONTHLY;BYMONTHDAY=15");
    assert_eq!(parse_input("monthly on 7").unwrap(), "FREQ=MONTHLY;BYMONTHDAY=7");
}

#[test]
fn parse_input_for_count_suffix() {
    assert_eq!(parse_input("daily for 3 days").unwrap(), "FREQ=DAILY;COUNT=3");
    assert_eq!(parse_input("hourly for 3 times").unwrap(), "FREQ=HOURLY;COUNT=3");
    assert_eq!(
        parse_input("every Monday for 5 weeks").unwrap(),
        "FREQ=WEEKLY;BYDAY=MO;COUNT=5"
    );
}

#[test]
fn parse_input_raw_rrule_passthrough() {
    assert_eq!(parse_input("FREQ=DAILY").unwrap(), "FREQ=DAILY");
    assert_eq!(
        parse_input("FREQ=WEEKLY;BYDAY=MO,WE,FR").unwrap(),
        "FREQ=WEEKLY;BYDAY=MO,WE,FR"
    );
    assert_eq!(parse_input("RRULE:FREQ=DAILY;COUNT=2").unwrap(), "FREQ=DAILY;COUNT=2");
}

#[test]
fn parse_input_rejects_gibberish() {
    let err = parse_input("gibberish phrase").unwrap_err();
    assert!(err.message.contains("recognised") || err.message.contains("phrase"));
    assert!(parse_input("").is_err());
    assert!(parse_input("every purple weeks").is_err());
}

#[test]
fn parse_input_errors_name_the_input() {
    let err = parse_input("every purple weeks").unwrap_err();
    assert_eq!(err.rule, "every purple weeks");
    let bad = parse_input("FREQ=NONSENSE").unwrap_err();
    assert_eq!(bad.rule, "FREQ=NONSENSE");
}

#[test]
fn parse_input_checked_refuses_split_chars_only() {
    assert_eq!(parse_input_checked("daily"), Some(Ok("FREQ=DAILY".to_string())));
    assert!(matches!(parse_input_checked("gibberish"), Some(Err(_))));
}

#[test]
fn next_occurrence_is_strictly_after_and_hourly_steps() {
    let anchor = d(2026, 4, 14);
    // Asking after a later day skips to the first occurrence after it.
    assert_eq!(
        next_occurrence("FREQ=WEEKLY", anchor, d(2026, 4, 21)).unwrap(),
        Some(d(2026, 4, 28))
    );
    let start = Instant { date: anchor, secs: 14 * 3600, nanos: 0 };
    let after = Instant { date: anchor, secs: 15 * 3600, nanos: 0 };
    assert_eq!(
        next_occurrence_at("FREQ=HOURLY", start, after).unwrap(),
        Some(Instant { date: anchor, secs: 16 * 3600, nanos: 0 })
    );
    assert!(next_occurrence("FREQ=NONSENSE", anchor, anchor).is_err());
}

#[test]
fn next_occurrence_of_a_sub_day_date_series_is_the_next_day() {
    let anchor = d(2026, 4, 14);
    // Several occurrences fall on `after`'s own day; the next date with
    // one is the day after.
    assert_eq!(next_occurrence("FREQ=HOURLY", anchor, anchor).unwrap(), Some(d(2026, 4, 15)));
    assert_eq!(
        next_occurrence("FREQ=HOURLY;INTERVAL=6", anchor, d(2026, 4, 20)).unwrap(),
        Some(d(2026, 4, 21))
    );
    // An hourly series of 30 runs past midnight once.
    assert_eq!(
        next_occurrence("FREQ=HOURLY;COUNT=30", anchor, anchor).unwrap(),
        Some(d(2026, 4, 15))
    );
    assert_eq!(next_occurrence("FREQ=HOURLY;COUNT=24", anchor, anchor).unwrap(), None);
}

#[test]
fn next_occurrence_after_the_last_date_is_none() {
    let last = d(262142, 12, 31);
    assert_eq!(next_occurrence("FREQ=DAILY", d(2026, 4, 14), last).unwrap(), None);
    assert!(next_occurrence("FREQ=NONSENSE", d(2026, 4, 14), last).is_err());
}

#[test]
fn next_occurrence_crosses_month_and_year_ends() {
    assert_eq!(
        next_occurrence("FREQ=DAILY", d(2026, 1, 31), d(2026, 1, 31)).unwrap(),
        Some(d(2026, 2, 1))
    );
    assert_eq!(
        next_occurrence("FREQ=DAILY", d(2025, 12, 31), d(2025, 12, 31)).unwrap(),
        Some(d(2026, 1, 1))
    );
    assert_eq!(
        next_occurrence("FREQ=DAILY", d(2024, 2, 28), d(2024, 2, 28)).unwrap(),
        Some(d(2024, 2, 29))
    );
}
