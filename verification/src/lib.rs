//! A small lakehouse table format: immutable data files plus an append-only,
//! versioned transaction log whose replay defines the table's contents.

pub mod layout;
pub mod text;
pub mod clock;
pub mod error;
pub mod log;
pub mod snapshot;
pub mod query;
pub mod writer;
pub mod input;
