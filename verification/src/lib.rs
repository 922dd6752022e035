//! A small persistent work-tracking store: epics containing stories, kept as
//! a single JSON document behind a storage abstraction.
//!
//! The entity model, the id allocation and referential-integrity rules, and
//! the JSON encoding of the persisted state are all verified. File access
//! itself lives outside this crate, behind the [`db::Database`] trait.

pub mod codec;
pub mod db;
pub mod errors;
pub mod id_table;
pub mod laws;
pub mod models;

pub use db::{Database, JiraDatabase, MemoryDatabase};
pub use errors::DbError;
pub use models::{DBState, Epic, Status, Story};
