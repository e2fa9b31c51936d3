//! Filesystem-side rules: which vault paths are synced, and how local
//! writes are told apart from echoes of our own writes.

pub mod binding;
pub mod suppression;
pub mod sync_ignore;
pub mod adapter;
pub mod ingest;
pub mod debounce;
