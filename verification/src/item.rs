//! The base work item that tasks extend, as plain values: identity,
//! kind, status, priority, capabilities and timestamps.

use vstd::prelude::*;

use crate::calendar::{now_utc, Instant};

verus! {

#[derive(Clone, Copy, Debug, PartialEq, Eq, Structural)]
pub enum ItemType {
    Epic,
    Story,
    Task,
    Bug,
    Rework,
    Decision,
    Idea,
    Job,
}

#[derive(Clone, Copy, Debug, PartialEq, Eq, Structural)]
pub enum Status {
    New,
    Open,
    InProgress,
    Review,
    Closed,
    Deferred,
}

#[derive(Clone, Copy, Debug, PartialEq, Eq, Structural)]
pub enum Priority {
    Low,
    Medium,
    High,
    Critical,
    Extreme,
}

#[derive(Clone, Copy, Debug, PartialEq, Eq, Structural)]
pub enum Capability {
    Conceive,
    Plan,
    Design,
    Implement,
    Test,
    Review,
    Document,
    Jobs,
    Create,
    Assign,
    Manage,
    Delete,
}

/// A work item: the fields the task logic reads and writes.
#[derive(Debug, Clone, PartialEq)]
pub struct Item {
    pub id: String,
    pub title: String,
    pub item_type: ItemType,
    pub status: Status,
    pub priority: Priority,
    pub capabilities: Vec<Capability>,
    pub created: Instant,
    pub updated: Instant,
}

/// One entry in a comment's edit log: when, and by which member (the
/// member reference as it is stored, an opaque id or an address).
#[derive(Debug, Clone, PartialEq)]
pub struct UpdateEntry {
    pub date: Instant,
    pub by: String,
}

/// A comment: its author (a member reference as stored), when it was
/// written, its text and the log of its edits.
#[derive(Debug, Clone, PartialEq)]
pub struct Comment {
    pub author: String,
    pub date: Instant,
    pub text: String,
    pub edits: Vec<UpdateEntry>,
}

impl Item {
    /// A new item: status `New`, created and updated now.
    pub fn new(
        id: String,
        title: String,
        item_type: ItemType,
        priority: Priority,
        capabilities: Vec<Capability>,
    ) -> (r: Item)
        ensures
            r.id == id,
            r.title == title,
            r.item_type == item_type,
            r.status == Status::New,
            r.priority == priority,
            r.capabilities == capabilities,
            r.created == r.updated,
            r.created.wf(),
    {
        let now = now_utc();
        Item { id, title, item_type, status: Status::New, priority, capabilities, created: now, updated: now }
    }

    /// Whether this item is active (not closed or deferred).
    pub fn is_active(&self) -> (r: bool)
        ensures
            r == !(self.status == Status::Closed || self.status == Status::Deferred),
    {
        match self.status {
            Status::Closed | Status::Deferred => false,
            _ => true,
        }
    }
}

} // verus!
