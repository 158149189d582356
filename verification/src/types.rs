//! The stack data that the view renders: jj changes with their bookmark state.

use vstd::prelude::*;

verus! {

/// A jj change as the stack view reads it.
#[derive(Clone, Debug, PartialEq, Eq)]
pub struct Change {
    /// jj's change id (reverse-hex letters, as jj prints it).
    pub change_id: String,
    /// The full description; the view shows its first line.
    pub description: String,
    /// Whether the change modifies no file.
    pub empty: bool,
}

/// How a change's local bookmark relates to its remote counterpart.
#[derive(Clone, Debug, PartialEq, Eq)]
pub enum BookmarkSyncState {
    NoBookmark,
    LocalOnly,
    Synced,
    NeedsPush,
    Ahead { count: usize },
    Behind { count: usize },
    Diverged { local_ahead: usize, remote_ahead: usize, fork_point: Option<String> },
}

/// A change of the stack with what the view shows beside it.
#[derive(Clone, Debug, PartialEq, Eq)]
pub struct ChangeWithStatus {
    pub change: Change,
    /// Whether this is the working-copy change (`@`).
    pub is_working: bool,
    pub bookmark: Option<String>,
    pub sync_state: BookmarkSyncState,
}

} // verus!
