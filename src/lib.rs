//! Incremental tailing of the log files in one directory: a registry of read
//! cursors and the engine that turns change notifications into records.

pub mod path;
pub mod registry;
pub mod engine;
pub mod laws;
