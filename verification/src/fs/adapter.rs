//! What the filesystem reports: directory entries and change events, with
//! paths as text.

use vstd::prelude::*;

verus! {

#[derive(Clone, Debug)]
pub struct DirEntry {
    pub path: String,
    pub is_dir: bool,
    pub size: u64,
}

/// A change the watcher saw, with absolute paths.
#[derive(Clone, Debug)]
pub enum FsEvent {
    /// A file was created or modified.
    Touched(String),
    /// A file or directory was removed.
    Removed(String),
    /// A rename, old path to new.
    Renamed { from: String, to: String },
}

/// A running filesystem watcher; dropping it stops the watch.
pub trait Watcher {
}

} // verus!
