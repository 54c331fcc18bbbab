//! File-system backend of a notes application: collision-safe naming,
//! directory-tree snapshots, path decisions and the watcher registry.

pub mod error;
pub mod naming;
pub mod paths;
pub mod tree;
pub mod watch;
