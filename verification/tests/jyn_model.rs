use jyn::calendar::{now_utc, CalDate, Instant};
use jyn::item::{Comment, ItemType, Status};
use jyn::jyn::model::{CompletedOccurrence, CompletionResult, Due, Task};

fn day(y: i32, m: u32, d: u32) -> CalDate {
    CalDate::new(y, m, d).unwrap()
}

fn at(y: i32, m: u32, d: u32, h: u32, min: u32) -> Instant {
    Instant { date: day(y, m, d), secs: h * 3600 + min * 60, nanos: 0 }
}

#[test]
fn model_task_new_defaults() {
    let task = Task::new("JOT-0001".into(), "Buy milk".into());
    assert_eq!(task.item.id, "JOT-0001");
    assert_eq!(task.item.title, "Buy milk");
    assert_eq!(task.item.item_type, ItemType::Task);
    assert!(!task.is_recurring());
    assert!(!task.is_dispatched());
}

#[test]
fn model_dispatched_task() {
    let mut task = Task::new("JOT-0003".into(), "Review JOY-002A".into());
    task.source = Some("joy:acme/product:JOY-002A".into());
    task.project = Some("JOT-P-03".into());

    assert!(task.is_dispatched());
}

#[test]
fn complete_occurrence_advances_a_recurring_series() {
    let now = now_utc();
    let mut task = Task::new("JOT-1".into(), "Water plants".into());
    task.recurrence = Some("FREQ=DAILY".into());
    task.due = Some(Due::Date(day(2026, 4, 13)));

    let result = task.complete_occurrence(now).unwrap();
    assert_eq!(
        result,
        CompletionResult::Advanced {
            next: Due::Date(day(2026, 4, 14))
        }
    );
    assert_eq!(task.due, Some(Due::Date(day(2026, 4, 14))));
    assert_eq!(task.completed_occurrences.len(), 1);
    assert_eq!(
        task.completed_occurrences[0].occurrence,
        Due::Date(day(2026, 4, 13))
    );
    assert_eq!(task.item.status, Status::New);
    assert!(task.closed_at.is_none());
}

#[test]
fn complete_occurrence_ends_an_exhausted_series() {
    let now = now_utc();
    let mut task = Task::new("JOT-2".into(), "One last time".into());
    task.recurrence = Some("FREQ=DAILY;COUNT=1".into());
    task.due = Some(Due::Date(day(2026, 4, 13)));

    let result = task.complete_occurrence(now).unwrap();
    assert_eq!(result, CompletionResult::Ended);
    assert_eq!(task.item.status, Status::Closed);
    assert!(task.closed_at.is_some());
}

#[test]
fn complete_occurrence_on_non_recurring_is_a_noop_signal() {
    let mut task = Task::new("JOT-3".into(), "Buy milk".into());
    task.due = Some(Due::Date(day(2026, 4, 13)));
    assert_eq!(
        task.complete_occurrence(now_utc()).unwrap(),
        CompletionResult::NotRecurring
    );
    assert!(task.completed_occurrences.is_empty());
}

#[test]
fn reopen_occurrence_drops_the_override_and_rolls_due_back() {
    let now = now_utc();
    let mut task = Task::new("JOT-4".into(), "Water plants".into());
    task.recurrence = Some("FREQ=DAILY".into());
    task.due = Some(Due::Date(day(2026, 4, 13)));
    task.complete_occurrence(now).unwrap(); // -> due 2026-04-14, override 2026-04-13

    assert!(task.reopen_occurrence(Due::Date(day(2026, 4, 13)), now));
    assert!(task.completed_occurrences.is_empty());
    assert_eq!(task.due, Some(Due::Date(day(2026, 4, 13))));
    assert_eq!(task.item.status, Status::New);

    // Reopening an unknown occurrence reports not-found.
    assert!(!task.reopen_occurrence(Due::Date(day(2026, 1, 1)), now));
}

#[test]
fn complete_occurrence_advances_an_hourly_time_bearing_series() {
    let now = now_utc();
    let mut task = Task::new("JOT-5".into(), "Health check".into());
    task.recurrence = Some("FREQ=HOURLY".into());
    let anchor = at(2026, 4, 13, 14, 0);
    task.due = Some(Due::DateTime(anchor));

    let result = task.complete_occurrence(now).unwrap();
    let next = at(2026, 4, 13, 15, 0);
    assert_eq!(
        result,
        CompletionResult::Advanced {
            next: Due::DateTime(next)
        }
    );
    assert_eq!(task.due, Some(Due::DateTime(next)));
    assert_eq!(
        task.completed_occurrences[0].occurrence,
        Due::DateTime(anchor)
    );
}

#[test]
fn complete_occurrence_records_the_anchor_and_time() {
    let now = at(2026, 4, 13, 9, 30);
    let mut task = Task::new("JOT-6".into(), "Stretch".into());
    task.recurrence = Some("FREQ=WEEKLY".into());
    task.due = Some(Due::Date(day(2026, 4, 13)));
    task.complete_occurrence(now).unwrap();
    assert_eq!(task.recurrence_anchor, Some(Due::Date(day(2026, 4, 13))));
    assert_eq!(task.item.updated, now);
    assert_eq!(
        task.completed_occurrences,
        vec![CompletedOccurrence {
            occurrence: Due::Date(day(2026, 4, 13)),
            completed_at: now,
            comments: vec![]
        }]
    );
    // The anchor stays at the first occurrence.
    task.complete_occurrence(now).unwrap();
    assert_eq!(task.due, Some(Due::Date(day(2026, 4, 27))));
    assert_eq!(task.recurrence_anchor, Some(Due::Date(day(2026, 4, 13))));
    assert_eq!(task.completed_occurrences.len(), 2);
}

#[test]
fn complete_occurrence_with_a_bad_rule_keeps_the_due() {
    let now = at(2026, 4, 13, 9, 30);
    let mut task = Task::new("JOT-7".into(), "Broken".into());
    task.recurrence = Some("FREQ=NONSENSE".into());
    task.due = Some(Due::Date(day(2026, 4, 13)));
    let err = task.complete_occurrence(now).unwrap_err();
    assert_eq!(err.rule, "FREQ=NONSENSE");
    assert_eq!(task.due, Some(Due::Date(day(2026, 4, 13))));
    assert_eq!(task.completed_occurrences.len(), 1);
    assert_eq!(task.item.status, Status::New);
}

#[test]
fn reopening_an_ended_series_reactivates_it() {
    let now = at(2026, 4, 13, 9, 30);
    let mut task = Task::new("JOT-8".into(), "Once".into());
    task.recurrence = Some("FREQ=DAILY;COUNT=1".into());
    task.due = Some(Due::Date(day(2026, 4, 13)));
    assert_eq!(task.complete_occurrence(now).unwrap(), CompletionResult::Ended);
    let later = at(2026, 4, 14, 8, 0);
    assert!(task.reopen_occurrence(Due::Date(day(2026, 4, 13)), later));
    assert_eq!(task.due, Some(Due::Date(day(2026, 4, 13))));
    assert_eq!(task.item.status, Status::New);
    assert!(task.closed_at.is_none());
    assert_eq!(task.item.updated, later);
    assert!(task.completed_occurrences.is_empty());
}

#[test]
fn due_helpers() {
    let d = Due::Date(day(2026, 4, 13));
    let t = Due::DateTime(at(2026, 4, 13, 14, 5));
    assert_eq!(d.date(), day(2026, 4, 13));
    assert_eq!(t.date(), day(2026, 4, 13));
    assert!(!d.has_time());
    assert!(t.has_time());
    assert_eq!(d.as_utc_instant(), at(2026, 4, 13, 0, 0));
    assert_eq!(t.as_utc_instant(), at(2026, 4, 13, 14, 5));
}

#[test]
fn due_text_and_conversions() {
    assert_eq!(Due::Date(day(2026, 4, 13)).to_text(), "2026-04-13");
    assert_eq!(Due::DateTime(at(2026, 4, 13, 7, 5)).to_text(), "2026-04-13T07:05");
    assert_eq!(Due::from(day(2026, 4, 13)), Due::Date(day(2026, 4, 13)));
    assert_eq!(Due::from(at(2026, 4, 13, 7, 5)), Due::DateTime(at(2026, 4, 13, 7, 5)));
    assert_eq!(Due::Date(day(-1, 1, 2)).to_text(), "-0001-01-02");
    assert_eq!(Due::Date(day(12345, 1, 2)).to_text(), "+12345-01-02");
}

#[test]
fn reopening_one_occurrence_keeps_the_comments_of_the_others() {
    let now = at(2026, 4, 13, 9, 30);
    let mut task = Task::new("JOT-9".into(), "Walk".into());
    task.recurrence = Some("FREQ=DAILY".into());
    task.due = Some(Due::Date(day(2026, 4, 13)));
    task.complete_occurrence(now).unwrap();
    task.complete_occurrence(now).unwrap();
    let note = Comment {
        author: "m-abc".into(),
        date: now,
        text: "rainy".into(),
        edits: vec![],
    };
    task.completed_occurrences[0].comments.push(note.clone());
    assert!(task.reopen_occurrence(Due::Date(day(2026, 4, 14)), now));
    assert_eq!(task.due, Some(Due::Date(day(2026, 4, 14))));
    assert_eq!(task.completed_occurrences.len(), 1);
    assert_eq!(task.completed_occurrences[0].occurrence, Due::Date(day(2026, 4, 13)));
    assert_eq!(task.completed_occurrences[0].comments, vec![note]);
}
