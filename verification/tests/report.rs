use jyn::item::Status;
use jyn::jot::model::Task;
use jyn::jot::report::{added_line, ls_lines, removed_line};

fn task(id: &str, title: &str) -> Task {
    Task::new(id.into(), title.into())
}

#[test]
fn ls_lists_open_tasks_in_a_frame() {
    let mut done = task("TODO-0003-22", "Done already");
    done.item.status = Status::Closed;
    let tasks = vec![task("TODO-0001-7F", "Buy milk"), done, task("TODO-0002-11", "Water")];
    let lines = ls_lines(&tasks, 40, false);
    let sep = "-".repeat(40);
    assert_eq!(lines.len(), 4);
    assert_eq!(lines[0], format!("{sep}\nID {:<37}\n{sep}", "TITLE"));
    assert_eq!(lines[1], "#1 Buy milk");
    assert_eq!(lines[2], "#2 Water");
    assert_eq!(lines[3], format!("{sep}\n2 tasks"));
}

#[test]
fn ls_on_a_narrow_terminal_keeps_twenty_title_columns() {
    let tasks = vec![task("TODO-00A1-EA", "A"), task("TODO-00A1-7F", "B")];
    let lines = ls_lines(&tasks, 10, false);
    // Colliding counters keep their suffix; the ID column fits "#A1-EA".
    assert_eq!(lines[1], "#A1-EA A");
    assert_eq!(lines[2], "#A1-7F B");
    assert_eq!(lines[0], format!("{}\nID     {:<20}\n{}", "-".repeat(10), "TITLE", "-".repeat(10)));
    assert_eq!(lines[3], format!("{}\n2 tasks", "-".repeat(10)));
}

#[test]
fn ls_without_open_tasks_gives_a_hint() {
    let mut t = task("TODO-0001-7F", "Buy milk");
    t.item.status = Status::Deferred;
    assert_eq!(ls_lines(&[t], 80, true), vec!["No open tasks. Add one with: jot add \"<title>\"".to_string()]);
    assert_eq!(ls_lines(&[], 80, false).len(), 1);
}

#[test]
fn ls_single_task_and_colour() {
    let lines = ls_lines(&[task("TODO-0001-7F", "Buy milk")], 30, true);
    assert_eq!(lines[1], "\x1b[32m#1\x1b[0m Buy milk");
    assert!(lines[2].ends_with("\x1b[32m1 task\x1b[0m"));
}

#[test]
fn add_and_rm_confirmations() {
    let ids = ["TODO-0001-7F", "TODO-0002-11"];
    assert_eq!(added_line(&ids, "TODO-0002-11", "Water", false), "added #2  Water");
    assert_eq!(added_line(&ids, "TODO-0009-00", "Gone", false), "added   Gone");
    assert_eq!(removed_line(&["TODO-0001-7F"], "TODO-0002-11", "Water", false), "removed #2  Water");
    assert_eq!(
        removed_line(&["TODO-0001-7F"], "TODO-0001-AA", "Twin", false),
        "removed #1-AA  Twin"
    );
}
