use jyn::item::{Capability, ItemType, Priority, Status};
use jyn::jot::model::Task;

#[test]
fn task_new_defaults() {
    let task = Task::new("JOT-0001".into(), "Buy milk".into());
    assert_eq!(task.item.id, "JOT-0001");
    assert_eq!(task.item.title, "Buy milk");
    assert_eq!(task.item.item_type, ItemType::Task);
    assert!(!task.is_recurring());
    assert!(!task.is_dispatched());
}

#[test]
fn dispatched_task() {
    let mut task = Task::new("JOT-0003".into(), "Review JOY-002A".into());
    task.source = Some("joy:acme/product:JOY-002A".into());
    task.project = Some("JOT-P-03".into());

    assert!(task.is_dispatched());
}

#[test]
fn jot_new_task_is_a_new_medium_implement_item() {
    let task = Task::new("TODO-0001-7F".into(), "Water plants".into());
    assert_eq!(task.item.status, Status::New);
    assert_eq!(task.item.priority, Priority::Medium);
    assert_eq!(task.item.capabilities, vec![Capability::Implement]);
    assert_eq!(task.item.created, task.item.updated);
    assert!(task.due_date.is_none());
    assert!(task.item.is_active());
}
