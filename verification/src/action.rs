//! What the host has to carry out after an operation of the volume manager.
//!
//! The manager touches no file. Each operation that changes the store adds
//! to the manager's list of pending actions what has to happen on the host,
//! in order; the caller takes the list and carries it out, stopping at the
//! first action that fails. Every write of the index carries the entries to
//! write, so that the index file holds, after each action, the store as it
//! stood when the action was asked for.
//!
//! Where an action fails, the host is left as the actions before it made it
//! and the manager is ahead of the host: the manager is then to be dropped
//! and a new one loaded from the index file.

use vstd::prelude::*;
use crate::record::{RecordView, VolumeMetadata};

verus! {

/// The store as a value: the volumes' names with their records, in the
/// order in which they came.
pub type IndexView = Seq<(Seq<char>, RecordView)>;

/// One step for the host.
#[derive(Debug)]
pub enum HostAction {
    /// Create the directory `path` and every directory above it.
    CreateDirAll { path: String },
    /// Remove the directory `path` with all that it holds.
    RemoveDirAll { path: String },
    /// Write `entries`, as one object keyed by name, to the index file `path`.
    WriteIndex { path: String, entries: Vec<(String, VolumeMetadata)> },
}

/// The mathematical value of a [`HostAction`].
pub enum ActionView {
    CreateDirAll { path: Seq<char> },
    RemoveDirAll { path: Seq<char> },
    WriteIndex { path: Seq<char>, entries: IndexView },
}

/// A stored entry as a value.
pub open spec fn entry_view(entry: (String, VolumeMetadata)) -> (Seq<char>, RecordView) {
    (entry.0@, entry.1@)
}

/// Stored entries as a value.
pub open spec fn entry_views(entries: Seq<(String, VolumeMetadata)>) -> IndexView {
    entries.map_values(|e: (String, VolumeMetadata)| entry_view(e))
}

impl View for HostAction {
    type V = ActionView;

    open spec fn view(&self) -> ActionView {
        match self {
            HostAction::CreateDirAll { path } => ActionView::CreateDirAll { path: path@ },
            HostAction::RemoveDirAll { path } => ActionView::RemoveDirAll { path: path@ },
            HostAction::WriteIndex { path, entries } => ActionView::WriteIndex {
                path: path@,
                entries: entry_views(entries@),
            },
        }
    }
}

/// Pending actions as values.
pub open spec fn action_views(actions: Seq<HostAction>) -> Seq<ActionView> {
    actions.map_values(|a: HostAction| a@)
}

} // verus!
