//! Storage records.

pub mod types;
