use jyn::calendar::CalDate;

fn d(y: i32, m: u32, day: u32) -> CalDate {
    CalDate::new(y, m, day).unwrap()
}

#[test]
fn succ_steps_one_day() {
    assert_eq!(d(2026, 4, 14).succ(), Some(d(2026, 4, 15)));
    assert_eq!(d(2026, 4, 30).succ(), Some(d(2026, 5, 1)));
    assert_eq!(d(2026, 2, 28).succ(), Some(d(2026, 3, 1)));
    assert_eq!(d(2024, 2, 28).succ(), Some(d(2024, 2, 29)));
    assert_eq!(d(2024, 2, 29).succ(), Some(d(2024, 3, 1)));
    assert_eq!(d(1999, 12, 31).succ(), Some(d(2000, 1, 1)));
}

#[test]
fn succ_of_the_last_date_is_none() {
    assert_eq!(d(262142, 12, 31).succ(), None);
    assert_eq!(d(262142, 12, 30).succ(), Some(d(262142, 12, 31)));
}
