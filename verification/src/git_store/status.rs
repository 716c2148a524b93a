//! The status of a file, and how it is sent.

use vstd::prelude::*;
use std::sync::Arc;
use crate::path::RelPath;
use crate::shared::arc_clone;

verus! {

/// How a file under version control differs.
#[derive(Copy, Clone, Debug, PartialEq, Eq, Structural)]
pub enum StatusCode {
    Modified,
    TypeChanged,
    Added,
    Deleted,
    Renamed,
    Copied,
    Unmodified,
}

/// What one side of a merge did to a file.
#[derive(Copy, Clone, Debug, PartialEq, Eq, Structural)]
pub enum UnmergedStatusCode {
    Added,
    Deleted,
    Updated,
}

#[derive(Copy, Clone, Debug, PartialEq, Eq, Structural)]
pub struct TrackedStatus {
    pub index_status: StatusCode,
    pub worktree_status: StatusCode,
}

#[derive(Copy, Clone, Debug, PartialEq, Eq, Structural)]
pub struct UnmergedStatus {
    pub first_head: UnmergedStatusCode,
    pub second_head: UnmergedStatusCode,
}

/// The status of a file.
#[derive(Copy, Clone, Debug, PartialEq, Eq, Structural)]
pub enum FileStatus {
    Untracked,
    Ignored,
    Unmerged(UnmergedStatus),
    Versioned(TrackedStatus),
}

impl FileStatus {
    /// Whether the file is in conflict.
    pub fn is_conflicted(self) -> (r: bool)
        ensures
            r == (self is Unmerged),
    {
        match self {
            FileStatus::Unmerged(_) => true,
            _ => false,
        }
    }
}

/// A status code as it is sent. A number that stands for no code comes in as
/// `Unknown`.
#[derive(Copy, Clone, Debug, PartialEq, Eq, Structural)]
pub enum WireStatus {
    Added,
    Modified,
    Conflict,
    Deleted,
    Updated,
    TypeChanged,
    Renamed,
    Copied,
    Unmodified,
    Unknown(i32),
}

/// The status of a file as it is sent.
#[derive(Copy, Clone, Debug, PartialEq, Eq, Structural)]
pub enum WireFileStatus {
    Untracked,
    Ignored,
    Unmerged { first_head: WireStatus, second_head: WireStatus },
    Versioned { index_status: WireStatus, worktree_status: WireStatus },
}

/// Why what was sent is not a status.
#[derive(Copy, Clone, Debug, PartialEq, Eq, Structural)]
pub enum StatusError {
    /// The number stands for no code.
    InvalidCode(i32),
    /// The code is none of a file without further status.
    InvalidSimple(WireStatus),
    /// The code is none of a side of a merge.
    InvalidUnmerged(WireStatus),
    /// The code is none of a file under version control.
    InvalidTracked(WireStatus),
}

/// The code that stands for what a side of a merge did.
pub open spec fn unmerged_wire(code: UnmergedStatusCode) -> WireStatus {
    match code {
        UnmergedStatusCode::Added => WireStatus::Added,
        UnmergedStatusCode::Deleted => WireStatus::Deleted,
        UnmergedStatusCode::Updated => WireStatus::Updated,
    }
}

/// The code that stands for how a file under version control differs.
pub open spec fn tracked_wire(code: StatusCode) -> WireStatus {
    match code {
        StatusCode::Added => WireStatus::Added,
        StatusCode::Deleted => WireStatus::Deleted,
        StatusCode::Modified => WireStatus::Modified,
        StatusCode::Renamed => WireStatus::Renamed,
        StatusCode::TypeChanged => WireStatus::TypeChanged,
        StatusCode::Copied => WireStatus::Copied,
        StatusCode::Unmodified => WireStatus::Unmodified,
    }
}

/// The status as it is sent.
pub open spec fn file_wire(status: FileStatus) -> WireFileStatus {
    match status {
        FileStatus::Untracked => WireFileStatus::Untracked,
        FileStatus::Ignored => WireFileStatus::Ignored,
        FileStatus::Unmerged(unmerged) => WireFileStatus::Unmerged {
            first_head: unmerged_wire(unmerged.first_head),
            second_head: unmerged_wire(unmerged.second_head),
        },
        FileStatus::Versioned(versioned) => WireFileStatus::Versioned {
            index_status: tracked_wire(versioned.index_status),
            worktree_status: tracked_wire(versioned.worktree_status),
        },
    }
}

/// The one code that stands for a status where no further status is sent.
pub open spec fn simple_wire(status: FileStatus) -> WireStatus {
    match status {
        FileStatus::Ignored => WireStatus::Added,
        FileStatus::Untracked => WireStatus::Added,
        FileStatus::Unmerged(_) => WireStatus::Conflict,
        FileStatus::Versioned(versioned) => tracked_wire(
            if versioned.worktree_status != StatusCode::Unmodified {
                versioned.worktree_status
            } else {
                versioned.index_status
            },
        ),
    }
}

pub fn unmerged_status_to_proto(code: UnmergedStatusCode) -> (r: WireStatus)
    ensures
        r == unmerged_wire(code),
{
    match code {
        UnmergedStatusCode::Added => WireStatus::Added,
        UnmergedStatusCode::Deleted => WireStatus::Deleted,
        UnmergedStatusCode::Updated => WireStatus::Updated,
    }
}

pub fn tracked_status_to_proto(code: StatusCode) -> (r: WireStatus)
    ensures
        r == tracked_wire(code),
{
    match code {
        StatusCode::Added => WireStatus::Added,
        StatusCode::Deleted => WireStatus::Deleted,
        StatusCode::Modified => WireStatus::Modified,
        StatusCode::Renamed => WireStatus::Renamed,
        StatusCode::TypeChanged => WireStatus::TypeChanged,
        StatusCode::Copied => WireStatus::Copied,
        StatusCode::Unmodified => WireStatus::Unmodified,
    }
}

pub fn status_to_proto(status: FileStatus) -> (r: WireFileStatus)
    ensures
        r == file_wire(status),
{
    match status {
        FileStatus::Untracked => WireFileStatus::Untracked,
        FileStatus::Ignored => WireFileStatus::Ignored,
        FileStatus::Unmerged(unmerged) => WireFileStatus::Unmerged {
            first_head: unmerged_status_to_proto(unmerged.first_head),
            second_head: unmerged_status_to_proto(unmerged.second_head),
        },
        FileStatus::Versioned(versioned) => WireFileStatus::Versioned {
            index_status: tracked_status_to_proto(versioned.index_status),
            worktree_status: tracked_status_to_proto(versioned.worktree_status),
        },
    }
}

/// A file under version control and differs from the index.
pub open spec fn changed_in_worktree(code: StatusCode) -> FileStatus {
    FileStatus::Versioned(
        TrackedStatus { worktree_status: code, index_status: StatusCode::Unmodified },
    )
}

/// The status that a single code stands for.
pub open spec fn from_simple(code: WireStatus) -> Result<FileStatus, StatusError> {
    match code {
        WireStatus::Added => Ok(changed_in_worktree(StatusCode::Added)),
        WireStatus::Modified => Ok(changed_in_worktree(StatusCode::Modified)),
        WireStatus::Deleted => Ok(changed_in_worktree(StatusCode::Deleted)),
        WireStatus::Conflict => Ok(
            FileStatus::Unmerged(
                UnmergedStatus {
                    first_head: UnmergedStatusCode::Updated,
                    second_head: UnmergedStatusCode::Updated,
                },
            ),
        ),
        WireStatus::Unknown(code) => Err(StatusError::InvalidCode(code)),
        other => Err(StatusError::InvalidSimple(other)),
    }
}

/// What a code says of a side of a merge.
pub open spec fn from_unmerged(code: WireStatus) -> Result<UnmergedStatusCode, StatusError> {
    match code {
        WireStatus::Added => Ok(UnmergedStatusCode::Added),
        WireStatus::Updated => Ok(UnmergedStatusCode::Updated),
        WireStatus::Deleted => Ok(UnmergedStatusCode::Deleted),
        WireStatus::Unknown(code) => Err(StatusError::InvalidCode(code)),
        other => Err(StatusError::InvalidUnmerged(other)),
    }
}

/// What a code says of a file under version control.
pub open spec fn from_tracked(code: WireStatus) -> Result<StatusCode, StatusError> {
    match code {
        WireStatus::Modified => Ok(StatusCode::Modified),
        WireStatus::TypeChanged => Ok(StatusCode::TypeChanged),
        WireStatus::Added => Ok(StatusCode::Added),
        WireStatus::Deleted => Ok(StatusCode::Deleted),
        WireStatus::Renamed => Ok(StatusCode::Renamed),
        WireStatus::Copied => Ok(StatusCode::Copied),
        WireStatus::Unmodified => Ok(StatusCode::Unmodified),
        WireStatus::Unknown(code) => Err(StatusError::InvalidCode(code)),
        other => Err(StatusError::InvalidTracked(other)),
    }
}

/// The status that was sent. Of two codes that are none, the first counts.
pub open spec fn from_wire(simple: WireStatus, status: Option<WireFileStatus>) -> Result<
    FileStatus,
    StatusError,
> {
    match status {
        None => from_simple(simple),
        Some(WireFileStatus::Untracked) => Ok(FileStatus::Untracked),
        Some(WireFileStatus::Ignored) => Ok(FileStatus::Ignored),
        Some(WireFileStatus::Unmerged { first_head, second_head }) => match (
            from_unmerged(first_head),
            from_unmerged(second_head),
        ) {
            (Err(error), _) => Err(error),
            (Ok(_), Err(error)) => Err(error),
            (Ok(first_head), Ok(second_head)) => Ok(
                FileStatus::Unmerged(UnmergedStatus { first_head, second_head }),
            ),
        },
        Some(WireFileStatus::Versioned { index_status, worktree_status }) => match (
            from_tracked(index_status),
            from_tracked(worktree_status),
        ) {
            (Err(error), _) => Err(error),
            (Ok(_), Err(error)) => Err(error),
            (Ok(index_status), Ok(worktree_status)) => Ok(
                FileStatus::Versioned(TrackedStatus { index_status, worktree_status }),
            ),
        },
    }
}

fn unmerged_from_proto(code: WireStatus) -> (r: Result<UnmergedStatusCode, StatusError>)
    ensures
        r == from_unmerged(code),
{
    match code {
        WireStatus::Added => Ok(UnmergedStatusCode::Added),
        WireStatus::Updated => Ok(UnmergedStatusCode::Updated),
        WireStatus::Deleted => Ok(UnmergedStatusCode::Deleted),
        WireStatus::Unknown(code) => Err(StatusError::InvalidCode(code)),
        other => Err(StatusError::InvalidUnmerged(other)),
    }
}

fn tracked_from_proto(code: WireStatus) -> (r: Result<StatusCode, StatusError>)
    ensures
        r == from_tracked(code),
{
    match code {
        WireStatus::Modified => Ok(StatusCode::Modified),
        WireStatus::TypeChanged => Ok(StatusCode::TypeChanged),
        WireStatus::Added => Ok(StatusCode::Added),
        WireStatus::Deleted => Ok(StatusCode::Deleted),
        WireStatus::Renamed => Ok(StatusCode::Renamed),
        WireStatus::Copied => Ok(StatusCode::Copied),
        WireStatus::Unmodified => Ok(StatusCode::Unmodified),
        WireStatus::Unknown(code) => Err(StatusError::InvalidCode(code)),
        other => Err(StatusError::InvalidTracked(other)),
    }
}

/// The status that was sent.
pub fn status_from_proto(simple_status: WireStatus, status: Option<WireFileStatus>) -> (r: Result<
    FileStatus,
    StatusError,
>)
    ensures
        r == from_wire(simple_status, status),
{
    let variant = match status {
        Some(variant) => variant,
        None => {
            return match simple_status {
                WireStatus::Added => Ok(
                    FileStatus::Versioned(
                        TrackedStatus {
                            worktree_status: StatusCode::Added,
                            index_status: StatusCode::Unmodified,
                        },
                    ),
                ),
                WireStatus::Modified => Ok(
                    FileStatus::Versioned(
                        TrackedStatus {
                            worktree_status: StatusCode::Modified,
                            index_status: StatusCode::Unmodified,
                        },
                    ),
                ),
                WireStatus::Conflict => Ok(
                    FileStatus::Unmerged(
                        UnmergedStatus {
                            first_head: UnmergedStatusCode::Updated,
                            second_head: UnmergedStatusCode::Updated,
                        },
                    ),
                ),
                WireStatus::Deleted => Ok(
                    FileStatus::Versioned(
                        TrackedStatus {
                            worktree_status: StatusCode::Deleted,
                            index_status: StatusCode::Unmodified,
                        },
                    ),
                ),
                WireStatus::Unknown(code) => Err(StatusError::InvalidCode(code)),
                other => Err(StatusError::InvalidSimple(other)),
            };
        },
    };
    match variant {
        WireFileStatus::Untracked => Ok(FileStatus::Untracked),
        WireFileStatus::Ignored => Ok(FileStatus::Ignored),
        WireFileStatus::Unmerged { first_head, second_head } => {
            match (unmerged_from_proto(first_head), unmerged_from_proto(second_head)) {
                (Err(error), _) => Err(error),
                (Ok(_), Err(error)) => Err(error),
                (Ok(first_head), Ok(second_head)) => Ok(
                    FileStatus::Unmerged(UnmergedStatus { first_head, second_head }),
                ),
            }
        },
        WireFileStatus::Versioned { index_status, worktree_status } => {
            match (tracked_from_proto(index_status), tracked_from_proto(worktree_status)) {
                (Err(error), _) => Err(error),
                (Ok(_), Err(error)) => Err(error),
                (Ok(index_status), Ok(worktree_status)) => Ok(
                    FileStatus::Versioned(TrackedStatus { index_status, worktree_status }),
                ),
            }
        },
    }
}

/// A file of a repository and its status.
#[derive(Debug)]
pub struct StatusEntry {
    pub repo_path: Arc<RelPath>,
    pub status: FileStatus,
}

impl Clone for StatusEntry {
    fn clone(&self) -> (copy: StatusEntry)
        ensures
            copy == *self,
    {
        StatusEntry { repo_path: arc_clone(&self.repo_path), status: self.status }
    }
}

/// A file of a repository and its status as they are sent.
#[derive(Debug)]
pub struct WireStatusEntry {
    pub repo_path: Arc<RelPath>,
    pub simple_status: WireStatus,
    pub status: Option<WireFileStatus>,
}

/// A file and its status as they are sent.
pub open spec fn entry_wire(entry: StatusEntry) -> WireStatusEntry {
    WireStatusEntry {
        repo_path: entry.repo_path,
        simple_status: simple_wire(entry.status),
        status: Some(file_wire(entry.status)),
    }
}

impl StatusEntry {
    pub fn to_proto(&self) -> (r: WireStatusEntry)
        ensures
            r == entry_wire(*self),
    {
        let simple_status = match self.status {
            FileStatus::Ignored => WireStatus::Added,
            FileStatus::Untracked => WireStatus::Added,
            FileStatus::Unmerged(_) => WireStatus::Conflict,
            FileStatus::Versioned(versioned) => tracked_status_to_proto(
                if versioned.worktree_status != StatusCode::Unmodified {
                    versioned.worktree_status
                } else {
                    versioned.index_status
                },
            ),
        };
        WireStatusEntry {
            repo_path: arc_clone(&self.repo_path),
            simple_status,
            status: Some(status_to_proto(self.status)),
        }
    }

    /// The file and its status that were sent.
    pub fn from_proto(value: WireStatusEntry) -> (r: Result<StatusEntry, StatusError>)
        ensures
            r == match from_wire(value.simple_status, value.status) {
                Ok(status) => Ok::<StatusEntry, StatusError>(
                    StatusEntry { repo_path: value.repo_path, status },
                ),
                Err(error) => Err(error),
            },
    {
        match status_from_proto(value.simple_status, value.status) {
            Ok(status) => Ok(StatusEntry { repo_path: value.repo_path, status }),
            Err(error) => Err(error),
        }
    }
}

/// A status that is sent comes in as it was.
pub proof fn law_status_round_trip(entry: StatusEntry)
    ensures
        from_wire(entry_wire(entry).simple_status, entry_wire(entry).status) == Ok::<
            FileStatus,
            StatusError,
        >(entry.status),
        entry_wire(entry).repo_path == entry.repo_path,
{
}

/// A receiver that reads the single code alone learns whether there is a conflict.
pub proof fn law_simple_status_keeps_conflicts(status: FileStatus)
    ensures
        simple_wire(status) == WireStatus::Conflict <==> status is Unmerged,
        status is Unmerged ==> from_simple(simple_wire(status)) is Ok && from_simple(
            simple_wire(status),
        )->Ok_0 is Unmerged,
{
}

} // verus!
