//! Resumable background-job execution core for a file-indexing engine.
//!
//! The crate models the metadata store as an in-memory table of file-path
//! records and verifies the job lifecycle built on top of it: a generic
//! `init -> execute_step* -> finalize` contract, and its canonical instance,
//! a cursor-based chunked scan that identifies orphan file paths.

pub mod location;
pub mod store;
pub mod job;
pub mod file_identifier;
pub mod archive;
pub mod tag;
