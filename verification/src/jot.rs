//! The `jot` task manager: short IDs, due dates, the task model, the
//! workspace's naming rules and what the command line prints.

pub mod display;
pub mod due;
pub mod model;
pub mod report;
pub mod storage;
