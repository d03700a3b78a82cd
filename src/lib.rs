//! A read-oriented directory that keeps the contents of its files in memory.
//!
//! The library holds the decisions of the directory: what the blob cache
//! answers and how it changes, how the outcome of a disk read or of a lock
//! attempt becomes a result, which watch callbacks are live, and when the
//! watched metadata file counts as changed. The caller performs the I/O and
//! hands the outcomes in as plain values.

pub mod blob;
pub mod cache;
pub mod directory;
pub mod error;
pub mod lock;
pub mod watch;
