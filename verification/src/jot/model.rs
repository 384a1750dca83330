//! The jot task model: a work item with a due date, a recurrence and
//! dispatch information.

use vstd::prelude::*;

use crate::calendar::{CalDate, Instant};
use crate::item::{Capability, Item, ItemType, Priority, Status};

verus! {

/// A jot task: a work item with recurrence and task-specific fields.
#[derive(Debug, Clone, PartialEq)]
pub struct Task {
    pub item: Item,
    /// Due date (date only, no time).
    pub due_date: Option<CalDate>,
    /// Reminder instant.
    pub reminder: Option<Instant>,
    /// Recurrence rule (an RRULE body such as `FREQ=WEEKLY;BYDAY=MO`).
    pub recurrence: Option<String>,
    /// Project the task belongs to.
    pub project: Option<String>,
    /// Source reference for dispatched tasks.
    pub source: Option<String>,
}

impl Task {
    /// A new task: a `Task` item of medium priority with the `Implement`
    /// capability, status `New`, no due date, no recurrence.
    pub fn new(id: String, title: String) -> (r: Task)
        ensures
            r.item.id == id,
            r.item.title == title,
            r.item.item_type == ItemType::Task,
            r.item.status == Status::New,
            r.item.priority == Priority::Medium,
            r.item.capabilities@ == seq![Capability::Implement],
            r.item.created == r.item.updated,
            r.item.created.wf(),
            r.due_date is None,
            r.reminder is None,
            r.recurrence is None,
            r.project is None,
            r.source is None,
    {
        let mut caps: Vec<Capability> = Vec::new();
        caps.push(Capability::Implement);
        Task {
            item: Item::new(id, title, ItemType::Task, Priority::Medium, caps),
            due_date: None,
            reminder: None,
            recurrence: None,
            project: None,
            source: None,
        }
    }

    /// Whether the task is recurring.
    pub fn is_recurring(&self) -> (r: bool)
        ensures
            r == self.recurrence is Some,
    {
        self.recurrence.is_some()
    }

    /// Whether the task was created by dispatch.
    pub fn is_dispatched(&self) -> (r: bool)
        ensures
            r == self.source is Some,
    {
        self.source.is_some()
    }
}

/// A jot project groups tasks by theme or dispatch source.
#[derive(Debug, Clone, PartialEq)]
pub struct Project {
    pub id: String,
    pub title: String,
    /// Source workspace for dispatch projects.
    pub source: Option<String>,
}

} // verus!
