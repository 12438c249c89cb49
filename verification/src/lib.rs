//! Terminating a process together with all of its descendants.
//!
//! The library holds the platform-independent part of the work: validating a
//! process id, indexing a snapshot of the process table by parent, walking the
//! tree breadth first from a target, and turning the outcome of each
//! termination attempt into a report. Enumerating processes and terminating
//! one are left to the caller, who hands their results in as plain values.

pub mod common;
pub mod driver;
pub mod macos;
pub mod reach;
pub mod text;
pub mod traversal;
pub mod tree;
pub mod types;
pub mod unix;
pub mod windows;
