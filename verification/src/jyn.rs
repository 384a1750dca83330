//! The `jyn` task manager: recurrence phrases and rules, due dates,
//! recurring-task bookkeeping, layered configuration and the decisions of
//! its subcommands.

pub mod commands;
pub mod config;
pub mod due;
pub mod model;
pub mod recurrence;
