//! Checkpointed batch migration between two document collections.
//!
//! The library holds the decisions of a migration run: how progress is
//! tracked per collection, how records are gathered into bounded batches,
//! and when the resume marker moves. Reading the source, writing the target
//! and storing the marker are done by the caller, which feeds the outcomes
//! back to the engine as events.

pub mod key;
pub mod record;
pub mod writer;
pub mod engine;
pub mod run;
pub mod document;
pub mod checkpoint;
