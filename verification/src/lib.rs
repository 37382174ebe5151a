//! A verified core for a small task-tracking tool.
//!
//! Tasks live in an ordered collection, addressed by 1-based position.
//! The library holds the collection operations, the command dispatcher
//! that produces all user-facing text, and the storage codec that turns
//! a collection into its JSON text and back.

pub mod task;
pub mod ops;
pub mod num;
pub mod jstring;
pub mod codec;
pub mod command;
pub mod laws;
