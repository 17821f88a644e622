//! A snapshot of the filesystem entries below a path, taken by the caller and
//! handed to the engine as plain data.
//!
//! The engine itself never touches the disk: the caller probes each source
//! (`EntryKind`) for validation, lists directory trees (`FsNode`) for
//! resolution, and later performs the copies the engine asks for.

use vstd::prelude::*;

verus! {

/// What the caller found on disk at a single path.
#[derive(Clone, Copy, PartialEq, Eq, Structural)]
pub enum EntryKind {
    /// An existing regular file.
    File,
    /// An existing directory.
    Directory,
    /// Nothing, or something that is neither a file nor a directory.
    Missing,
}

/// A listed directory entry: a name and the subtree behind it.
pub struct DirEntry {
    pub name: String,
    pub node: FsNode,
}

/// The shape of the filesystem below one path.
pub enum FsNode {
    /// A regular file.
    File,
    /// A directory and its entries, in listing order.
    Dir(Vec<DirEntry>),
}

} // verus!
