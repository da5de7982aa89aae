//! The edit-history engine: fine-grained text edits, grouped into sessions that
//! are anchored to the repository's history, stored as one log per tracked file.
pub mod error;
pub mod operations;
pub mod deltas;
pub mod wire;
pub mod log_format;
pub mod projects;
pub mod storage;
pub mod repository;
pub mod sessions;
pub mod laws;
