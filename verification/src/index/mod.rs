//! The search index: entries as documents of a full-text engine.

pub mod model;
pub mod engine;
pub mod error;
pub mod schema;
pub mod document;
pub mod query;
pub mod entry_index;
pub mod laws;
