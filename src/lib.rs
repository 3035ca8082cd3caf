//! Reconstruction of daily substitution schedules from extracted table data,
//! and a change-detecting cache that holds the latest schedule per school day.

pub mod schoolday;
pub mod error;
pub mod column;
pub mod table;
pub mod schedule;
pub mod date;
pub mod digest;
pub mod cache;
