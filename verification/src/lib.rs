//! Core of a multi-file live tailer: it watches files and directories,
//! picks up newly created files, and emits every line appended to a watched
//! file. This crate holds the verified logic — path registration, depth-bounded
//! discovery over a directory snapshot, event dispatch, and the per-file tail
//! state machine. The surrounding program supplies the filesystem access, the
//! change notifications and the output formatting.

pub mod dispatch;
pub mod fstree;
pub mod registry;
pub mod tail;
