//! Library for monitoring a directory tree of append-only, line-delimited
//! conversation logs: it parses log lines into typed messages, tails files
//! incrementally, keeps a per-project metadata index, and maintains a sorted,
//! deduplicated, filterable view of sessions with a stable selection.
//!
//! All file and terminal I/O lives outside this crate; the functions here work
//! on plain values (bytes, strings, integers) handed in by the caller.

pub mod decode;
pub mod message;
pub mod session;
pub mod strutil;
pub mod view;
