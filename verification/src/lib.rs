//! The verified core of a server that shows a git-tracked directory as a
//! size-aware file tree and hands out subtrees as zip archives.
//!
//! Nothing in this crate touches the disk, the clock or a process: the
//! surrounding program reads the directory, runs git and sleeps, and hands
//! what it found to the functions here as plain values.

pub mod response_status;
pub mod models;
pub mod text;
pub mod paths;
pub mod tracked_set;
pub mod traits;
pub mod listing;
pub mod tree;
pub mod cmd;
pub mod archive;
pub mod download;
pub mod sync;
