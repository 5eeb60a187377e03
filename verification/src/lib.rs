//! Core logic of an interactive disk-usage browser: recursive size
//! aggregation, human-readable size rendering and parsing, size-based
//! ordering of directory entries, and the navigation state machine.
//!
//! Filesystem reads and the terminal prompt live outside this crate; the
//! functions here take plain values (names, byte counts, probe results,
//! selection indices) and are verified against their contracts.

pub mod aggregate;
pub mod listing;
pub mod nav;
pub mod size_text;
