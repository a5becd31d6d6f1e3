//! A directory as it was found on disk: what the tree is built from.
//!
//! Whoever reads the disk fills these in, failures included, and reads no
//! deeper than the tree will be expanded.

use vstd::prelude::*;

verus! {

/// One entry of a directory.
pub enum DirSlot {
    /// The entry or its type could not be read; the text says why.
    Failed(String),
    /// The entry's name is no text; what is kept is a rendering of it.
    Undecodable(String),
    /// A symbolic link and its target. `None` stands for a link that does
    /// not resolve, because it dangles or runs in a circle, and for one
    /// whose target could not be read as text.
    Symlink { name: String, target: Option<String> },
    /// A directory and what is in it.
    Directory { name: String, contents: DirListing },
    /// A regular file, with its length in bytes or the reason why that
    /// could not be read.
    File { name: String, size: Result<u64, String> },
    /// Anything else: a socket, a device.
    Other { name: String },
}

/// What reading a directory gave.
pub enum DirListing {
    /// The path does not resolve to a directory; the text says why.
    Missing(String),
    /// The directory is there and could not be read; the text says why.
    Unreadable(String),
    /// Nobody read it.
    Unexpanded,
    /// Its entries, in the order in which the directory gave them.
    Entries(Vec<DirSlot>),
}

} // verus!
