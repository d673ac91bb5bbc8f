//! Recurring events: recurrence definitions, occurrence generation over a
//! date window, and a deterministic aggregation of many definitions.

pub mod date;
pub mod models;
pub mod recurrence;
pub mod ordering;
pub mod aggregation;
pub mod services;
pub mod config;
