//! Liveness analysis and garbage collection for a build tool's output
//! directory: parse artifact filenames, correlate a traced build against the
//! files on disk, reduce stale incremental sessions, and account for what was
//! removed.

pub mod command;
pub mod correlate;
pub mod depfile;
pub mod features;
pub mod incremental;
pub mod naming;
pub mod paths;
pub mod removal;
pub mod render;
pub mod stats;
pub mod strings;
pub mod theme;
pub mod trace;
