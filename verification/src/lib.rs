//! Personal task management: short task IDs, due-date parsing and
//! rendering, recurrence phrases, recurring-task bookkeeping and layered
//! configuration.

pub mod calendar;
pub mod color;
pub mod item;
pub mod jot;
pub mod jyn;
pub mod paths;
pub mod text;
