//! Import of a legacy habit-tracking store into a catalog of habits with
//! stable identifiers and a log of entries partitioned by calendar date.

pub mod text;
pub mod date;
pub mod habit;
pub mod entry;
pub mod store;
pub mod setup;
