//! The paths that lines of the panel stand for.

use vstd::prelude::*;
use std::sync::Arc;
use crate::outline_panel::entries::{BufferId, FsEntry, PanelEntry, WorktreeId};
use crate::outline_panel::panel::OutlinePanel;
use crate::path::RelPath;
use crate::shared::arc_clone;

verus! {

/// A path that a line stands for: that of the file of a buffer, or one inside a worktree.
#[derive(Debug)]
pub enum EntryPath {
    OfBuffer(BufferId),
    Inside(WorktreeId, Arc<RelPath>),
}

/// The path of a line on disk. Files go by their buffers, and folded directories stand for
/// the last one.
pub open spec fn abs_path_of(entry: PanelEntry) -> Option<EntryPath> {
    match entry {
        PanelEntry::Fs(FsEntry::File(file)) => Some(EntryPath::OfBuffer(file.buffer_id)),
        PanelEntry::Fs(FsEntry::ExternalFile(file)) => Some(EntryPath::OfBuffer(file.buffer_id)),
        PanelEntry::Fs(FsEntry::Directory(directory)) => Some(
            EntryPath::Inside(directory.worktree_id, directory.entry.path),
        ),
        PanelEntry::FoldedDirs(folded) => if folded.entries@.len() > 0 {
            Some(EntryPath::Inside(folded.worktree_id, folded.entries@.last().path))
        } else {
            None
        },
        PanelEntry::Outline(_) => None,
        PanelEntry::Search(_) => None,
    }
}

/// The path of a file or a directory inside its worktree.
pub open spec fn relative_path_of(entry: FsEntry) -> EntryPath {
    match entry {
        FsEntry::ExternalFile(file) => EntryPath::OfBuffer(file.buffer_id),
        FsEntry::Directory(directory) => EntryPath::Inside(
            directory.worktree_id,
            directory.entry.path,
        ),
        FsEntry::File(file) => EntryPath::Inside(file.worktree_id, file.entry.path),
    }
}

/// The path of a file or a directory inside its worktree.
pub fn relative_path(entry: &FsEntry) -> (r: EntryPath)
    ensures
        r == relative_path_of(*entry),
{
    match entry {
        FsEntry::ExternalFile(file) => EntryPath::OfBuffer(file.buffer_id),
        FsEntry::Directory(directory) => EntryPath::Inside(
            directory.worktree_id,
            arc_clone(&directory.entry.path),
        ),
        FsEntry::File(file) => EntryPath::Inside(file.worktree_id, arc_clone(&file.entry.path)),
    }
}

/// The path of a line on disk.
pub fn abs_path(entry: &PanelEntry) -> (r: Option<EntryPath>)
    ensures
        r == abs_path_of(*entry),
{
    match entry {
        PanelEntry::Fs(FsEntry::File(file)) => Some(EntryPath::OfBuffer(file.buffer_id)),
        PanelEntry::Fs(FsEntry::ExternalFile(file)) => Some(EntryPath::OfBuffer(file.buffer_id)),
        PanelEntry::Fs(FsEntry::Directory(directory)) => Some(
            EntryPath::Inside(directory.worktree_id, arc_clone(&directory.entry.path)),
        ),
        PanelEntry::FoldedDirs(folded) => {
            let n: usize = folded.entries.len();
            if n > 0 {
                Some(EntryPath::Inside(folded.worktree_id, arc_clone(&folded.entries[n - 1].path)))
            } else {
                None
            }
        },
        PanelEntry::Outline(_) => None,
        PanelEntry::Search(_) => None,
    }
}

impl OutlinePanel {
    /// The path that is copied for the selected line, or that is shown in the file manager.
    pub fn copy_path(&self) -> (r: Option<EntryPath>)
        ensures
            r == match self.selected_entry.entry() {
                Some(entry) => abs_path_of(entry),
                None => None,
            },
    {
        match self.selected_entry() {
            Some(entry) => abs_path(entry),
            None => None,
        }
    }

    /// The path inside the worktree that is copied for the selected line.
    pub fn copy_relative_path(&self) -> (r: Option<EntryPath>)
        ensures
            r == match self.selected_entry.entry() {
                Some(PanelEntry::Fs(entry)) => Some(relative_path_of(entry)),
                Some(PanelEntry::FoldedDirs(folded)) => if folded.entries@.len() > 0 {
                    Some(EntryPath::Inside(folded.worktree_id, folded.entries@.last().path))
                } else {
                    None
                },
                _ => None,
            },
    {
        match self.selected_entry() {
            Some(PanelEntry::Fs(entry)) => Some(relative_path(entry)),
            Some(PanelEntry::FoldedDirs(folded)) => {
                let n: usize = folded.entries.len();
                if n > 0 {
                    Some(
                        EntryPath::Inside(
                            folded.worktree_id,
                            arc_clone(&folded.entries[n - 1].path),
                        ),
                    )
                } else {
                    None
                }
            },
            _ => None,
        }
    }
}

/// What is copied for a line: the path of the file that is open, or that of a directory in its
/// worktree, which is the last of several that are folded into one line. Symbols and matches
/// have no path.
pub proof fn law_which_path_is_copied(
    panel: OutlinePanel,
    entry: PanelEntry,
    full: Option<EntryPath>,
    relative: Option<EntryPath>,
)
    requires
        panel.selected_entry.entry() == Some(entry),
        call_ensures(OutlinePanel::copy_path, (&panel,), full),
        call_ensures(OutlinePanel::copy_relative_path, (&panel,), relative),
    ensures
        entry matches PanelEntry::Fs(FsEntry::File(file)) ==> full == Some(
            EntryPath::OfBuffer(file.buffer_id),
        ) && relative == Some(EntryPath::Inside(file.worktree_id, file.entry.path)),
        entry matches PanelEntry::Fs(FsEntry::ExternalFile(file)) ==> full == Some(
            EntryPath::OfBuffer(file.buffer_id),
        ) && relative == full,
        entry matches PanelEntry::Fs(FsEntry::Directory(dir)) ==> full == Some(
            EntryPath::Inside(dir.worktree_id, dir.entry.path),
        ) && relative == full,
        entry matches PanelEntry::FoldedDirs(dirs) ==> relative == full && (full is Some
            <==> dirs.entries@.len() > 0) && (full is Some ==> full == Some(
            EntryPath::Inside(dirs.worktree_id, dirs.entries@[dirs.entries@.len() - 1].path),
        )),
        entry is Outline || entry is Search ==> full is None && relative is None,
{
}

} // verus!
