//! One-way, incremental synchronization of source files and directories into a
//! target directory tree.
//!
//! The engine validates the caller's parameters, expands the sources into an
//! ordered list of copy/create-directory jobs, and drives those jobs either one
//! at a time or in bounded conflict-free batches, emitting a progress state
//! after each step.  All decisions are made over plain values; the caller
//! performs the actual filesystem probes and mutations and feeds the results
//! back in.

pub mod fs_tree;
pub mod jobs;
pub mod lang;
pub mod paths;
pub mod sources;
pub mod style;
pub mod sync;
pub mod syncing;
pub mod work;

pub use paths::SyncPath;
