//! What is known of a repository at a time, and how changes of it are sent.

use vstd::prelude::*;
use std::sync::Arc;
use crate::git_store::path_set::{has_path, PathSet};
use crate::git_store::status::{entry_wire, FileStatus, StatusEntry, WireStatusEntry};
use crate::path::{
    is_below, lemma_path_before_total, lemma_path_before_transitive, path_before, RelPath,
};
use crate::shared::arc_clone;
use crate::text::copy_text;

verus! {

/// A repository.
#[derive(Copy, Clone, Debug, PartialEq, Eq, PartialOrd, Ord, Hash, Structural)]
pub struct RepositoryId(pub u64);

impl RepositoryId {
    pub fn to_proto(self) -> (r: u64)
        ensures
            r == self.0,
    {
        self.0
    }

    pub fn from_proto(id: u64) -> (r: RepositoryId)
        ensures
            r == RepositoryId(id),
    {
        RepositoryId(id)
    }
}

/// A repository is known by the same number on both sides.
pub proof fn law_repository_id_round_trip(id: RepositoryId)
    ensures
        RepositoryId(id.0) == id,
{
}

/// A commit in short.
#[derive(Debug)]
pub struct CommitSummary {
    pub sha: String,
    pub subject: String,
    pub commit_timestamp: i64,
}

/// A branch.
#[derive(Debug)]
pub struct Branch {
    pub is_head: bool,
    pub ref_name: String,
    pub upstream: Option<String>,
    pub most_recent_commit: Option<CommitSummary>,
}

/// A branch as it is sent.
#[derive(Debug)]
pub struct WireBranch {
    pub is_head: bool,
    pub ref_name: String,
    pub unix_timestamp: Option<u64>,
    pub upstream: Option<String>,
    pub most_recent_commit: Option<CommitSummary>,
}

/// A commit.
#[derive(Debug)]
pub struct CommitDetails {
    pub sha: String,
    pub message: String,
    pub commit_timestamp: i64,
    pub author_email: String,
    pub author_name: String,
}

/// Whether two commits in short say the same.
pub open spec fn same_summary(a: CommitSummary, b: CommitSummary) -> bool {
    a.sha@ == b.sha@ && a.subject@ == b.subject@ && a.commit_timestamp == b.commit_timestamp
}

/// Whether two commits say the same.
pub open spec fn same_commit(a: CommitDetails, b: CommitDetails) -> bool {
    &&& a.sha@ == b.sha@
    &&& a.message@ == b.message@
    &&& a.commit_timestamp == b.commit_timestamp
    &&& a.author_email@ == b.author_email@
    &&& a.author_name@ == b.author_name@
}

/// Whether a branch is sent as it is. The time of its last commit goes along as a
/// number without a sign.
pub open spec fn is_branch_wire(branch: Branch, wire: WireBranch) -> bool {
    &&& wire.is_head == branch.is_head
    &&& wire.ref_name@ == branch.ref_name@
    &&& match (branch.upstream, wire.upstream) {
        (Some(a), Some(b)) => a@ == b@,
        (None, None) => true,
        _ => false,
    }
    &&& match (branch.most_recent_commit, wire.most_recent_commit) {
        (Some(a), Some(b)) => same_summary(a, b) && wire.unix_timestamp == Some(
            a.commit_timestamp as u64,
        ),
        (None, None) => wire.unix_timestamp is None,
        _ => false,
    }
}

impl CommitSummary {
    fn copy(&self) -> (r: CommitSummary)
        ensures
            same_summary(*self, r),
    {
        CommitSummary {
            sha: copy_text(self.sha.as_str()),
            subject: copy_text(self.subject.as_str()),
            commit_timestamp: self.commit_timestamp,
        }
    }
}

pub fn branch_to_proto(branch: &Branch) -> (r: WireBranch)
    ensures
        is_branch_wire(*branch, r),
{
    WireBranch {
        is_head: branch.is_head,
        ref_name: copy_text(branch.ref_name.as_str()),
        unix_timestamp: match &branch.most_recent_commit {
            Some(commit) => Some(#[verifier::truncate] (commit.commit_timestamp as u64)),
            None => None,
        },
        upstream: match &branch.upstream {
            Some(name) => Some(copy_text(name.as_str())),
            None => None,
        },
        most_recent_commit: match &branch.most_recent_commit {
            Some(commit) => Some(commit.copy()),
            None => None,
        },
    }
}

pub fn commit_details_to_proto(commit: &CommitDetails) -> (r: CommitDetails)
    ensures
        same_commit(*commit, r),
{
    CommitDetails {
        sha: copy_text(commit.sha.as_str()),
        message: copy_text(commit.message.as_str()),
        commit_timestamp: commit.commit_timestamp,
        author_email: copy_text(commit.author_email.as_str()),
        author_name: copy_text(commit.author_name.as_str()),
    }
}

/// What is known of a repository.
#[derive(Debug)]
pub struct RepositorySnapshot {
    pub id: RepositoryId,
    /// The files with a status, by path.
    pub statuses_by_path: Vec<StatusEntry>,
    pub work_directory_abs_path: Arc<RelPath>,
    pub branch: Option<Branch>,
    pub head_commit: Option<CommitDetails>,
    pub scan_id: u64,
    /// The files that were in conflict when the heads of the merge last changed.
    pub conflicted_paths: PathSet,
}

/// A change of a repository as it is sent.
#[derive(Debug)]
pub struct UpdateRepository {
    pub project_id: u64,
    pub id: u64,
    pub abs_path: Arc<RelPath>,
    pub entry_ids: Vec<u64>,
    pub branch_summary: Option<WireBranch>,
    pub head_commit_details: Option<CommitDetails>,
    pub updated_statuses: Vec<WireStatusEntry>,
    pub removed_statuses: Vec<Arc<RelPath>>,
    pub current_merge_conflicts: Vec<Arc<RelPath>>,
    pub scan_id: u64,
    pub is_last_update: bool,
}

/// Files in increasing order of their paths.
pub open spec fn by_path(entries: Seq<StatusEntry>) -> bool {
    forall|i: int, j: int|
        0 <= i < j < entries.len() ==> path_before(
            (#[trigger] entries[i]).repo_path@,
            (#[trigger] entries[j]).repo_path@,
        )
}

/// The status of the file with a path.
pub open spec fn status_at(entries: Seq<StatusEntry>, path: Seq<Seq<char>>) -> Option<FileStatus>
    decreases entries.len(),
{
    if entries.len() == 0 {
        None
    } else if entries.last().repo_path@ == path {
        Some(entries.last().status)
    } else {
        status_at(entries.drop_last(), path)
    }
}

/// The files that have a status that they did not have before.
pub open spec fn updated(new: Seq<StatusEntry>, old: Seq<StatusEntry>) -> Seq<StatusEntry>
    decreases new.len(),
{
    if new.len() == 0 {
        Seq::empty()
    } else {
        let rest = updated(new.drop_last(), old);
        if status_at(old, new.last().repo_path@) == Some(new.last().status) {
            rest
        } else {
            rest.push(new.last())
        }
    }
}

/// The files that had a status and have none any more.
pub open spec fn removed(new: Seq<StatusEntry>, old: Seq<StatusEntry>) -> Seq<Arc<RelPath>>
    decreases old.len(),
{
    if old.len() == 0 {
        Seq::empty()
    } else {
        let rest = removed(new, old.drop_last());
        if status_at(new, old.last().repo_path@) is Some {
            rest
        } else {
            rest.push(old.last().repo_path)
        }
    }
}

/// Files and their status as they are sent.
pub open spec fn wires(entries: Seq<StatusEntry>) -> Seq<WireStatusEntry> {
    Seq::new(entries.len(), |i: int| entry_wire(entries[i]))
}

pub proof fn lemma_status_found(entries: Seq<StatusEntry>, k: int)
    requires
        by_path(entries),
        0 <= k < entries.len(),
    ensures
        status_at(entries, entries[k].repo_path@) == Some(entries[k].status),
    decreases entries.len(),
{
    if k < entries.len() - 1 {
        let rest = entries.drop_last();
        lemma_path_before_total(entries[k].repo_path@, entries.last().repo_path@);
        assert(path_before(entries[k].repo_path@, entries[entries.len() - 1].repo_path@));
        assert(by_path(rest)) by {
            assert forall|i: int, j: int| 0 <= i < j < rest.len() implies path_before(
                (#[trigger] rest[i]).repo_path@,
                (#[trigger] rest[j]).repo_path@,
            ) by {
                assert(rest[i] == entries[i] && rest[j] == entries[j]);
            }
        }
        lemma_status_found(rest, k);
    }
}

pub proof fn lemma_status_absent(entries: Seq<StatusEntry>, path: Seq<Seq<char>>)
    requires
        forall|k: int| 0 <= k < entries.len() ==> (#[trigger] entries[k]).repo_path@ != path,
    ensures
        status_at(entries, path) is None,
    decreases entries.len(),
{
    if entries.len() > 0 {
        let rest = entries.drop_last();
        assert(entries[entries.len() - 1].repo_path@ != path);
        assert forall|k: int| 0 <= k < rest.len() implies (#[trigger] rest[k]).repo_path@
            != path by {
            assert(rest[k] == entries[k]);
        }
        lemma_status_absent(rest, path);
    }
}

/// A status stands in the list.
pub proof fn lemma_status_index(entries: Seq<StatusEntry>, path: Seq<Seq<char>>)
    requires
        status_at(entries, path) is Some,
    ensures
        exists|k: int|
            0 <= k < entries.len() && (#[trigger] entries[k]).repo_path@ == path
                && entries[k].status == status_at(entries, path)->0,
    decreases entries.len(),
{
    if entries.last().repo_path@ == path {
        assert(entries[entries.len() - 1].repo_path@ == path);
    } else {
        let rest = entries.drop_last();
        lemma_status_index(rest, path);
        let k: int = choose|k: int|
            0 <= k < rest.len() && (#[trigger] rest[k]).repo_path@ == path && rest[k].status
                == status_at(rest, path)->0;
        assert(entries[k] == rest[k]);
    }
}

impl RepositorySnapshot {
    /// The files are in order, and so are those in conflict.
    pub open spec fn wf(&self) -> bool {
        by_path(self.statuses_by_path@) && self.conflicted_paths.wf()
    }

    /// A repository of which nothing is known.
    pub fn empty(id: RepositoryId, work_directory_abs_path: Arc<RelPath>) -> (r:
        RepositorySnapshot)
        ensures
            r.wf(),
            r.id == id,
            r.work_directory_abs_path == work_directory_abs_path,
            r.statuses_by_path@.len() == 0,
            r.branch is None,
            r.head_commit is None,
            r.scan_id == 0,
            r.conflicted_paths@ == Set::<Seq<Seq<char>>>::empty(),
    {
        RepositorySnapshot {
            id,
            statuses_by_path: Vec::new(),
            work_directory_abs_path,
            branch: None,
            head_commit: None,
            scan_id: 0,
            conflicted_paths: PathSet::new(),
        }
    }

    fn conflicts_to_proto(&self) -> (r: Vec<Arc<RelPath>>)
        ensures
            r@ == self.conflicted_paths.paths@,
    {
        let mut r: Vec<Arc<RelPath>> = Vec::new();
        let mut i: usize = 0;
        while i < self.conflicted_paths.paths.len()
            invariant
                i <= self.conflicted_paths.paths@.len(),
                r@ =~= self.conflicted_paths.paths@.take(i as int),
            decreases self.conflicted_paths.paths.len() - i,
        {
            r.push(arc_clone(&self.conflicted_paths.paths[i]));
            i = i + 1;
        }
        assert(r@ =~= self.conflicted_paths.paths@);
        r
    }

    /// What is sent of the repository besides the status of its files.
    pub open spec fn sent_with(&self, update: UpdateRepository, project_id: u64) -> bool {
        &&& update.project_id == project_id
        &&& update.id == self.id.0
        &&& update.abs_path == self.work_directory_abs_path
        &&& match (self.branch, update.branch_summary) {
            (Some(branch), Some(wire)) => is_branch_wire(branch, wire),
            (None, None) => true,
            _ => false,
        }
        &&& match (self.head_commit, update.head_commit_details) {
            (Some(a), Some(b)) => same_commit(a, b),
            (None, None) => true,
            _ => false,
        }
        &&& update.current_merge_conflicts@ == self.conflicted_paths.paths@
        &&& update.scan_id == self.scan_id
        &&& update.is_last_update
    }

    /// All that is known of the repository, to be sent to a peer that knows
    /// nothing of it.
    pub fn initial_update(&self, project_id: u64) -> (r: UpdateRepository)
        ensures
            self.sent_with(r, project_id),
            r.updated_statuses@ == wires(self.statuses_by_path@),
            r.removed_statuses@.len() == 0,
            r.entry_ids@ == seq![self.id.0],
    {
        let mut updated_statuses: Vec<WireStatusEntry> = Vec::new();
        let mut i: usize = 0;
        while i < self.statuses_by_path.len()
            invariant
                i <= self.statuses_by_path@.len(),
                updated_statuses@ =~= wires(self.statuses_by_path@).take(i as int),
            decreases self.statuses_by_path.len() - i,
        {
            updated_statuses.push(self.statuses_by_path[i].to_proto());
            i = i + 1;
        }
        assert(updated_statuses@ =~= wires(self.statuses_by_path@));
        let mut entry_ids: Vec<u64> = Vec::new();
        entry_ids.push(self.id.to_proto());
        assert(entry_ids@ =~= seq![self.id.0]);
        UpdateRepository {
            branch_summary: match &self.branch {
                Some(branch) => Some(branch_to_proto(branch)),
                None => None,
            },
            head_commit_details: match &self.head_commit {
                Some(commit) => Some(commit_details_to_proto(commit)),
                None => None,
            },
            updated_statuses,
            removed_statuses: Vec::new(),
            current_merge_conflicts: self.conflicts_to_proto(),
            project_id,
            id: self.id.to_proto(),
            abs_path: arc_clone(&self.work_directory_abs_path),
            entry_ids,
            scan_id: self.scan_id,
            is_last_update: true,
        }
    }

    /// What has changed since an earlier time, to be sent to a peer that knows of
    /// that time.
    pub fn build_update(&self, old: &RepositorySnapshot, project_id: u64) -> (r: UpdateRepository)
        requires
            self.wf(),
            old.wf(),
        ensures
            self.sent_with(r, project_id),
            r.updated_statuses@ == wires(updated(self.statuses_by_path@, old.statuses_by_path@)),
            r.removed_statuses@ == removed(self.statuses_by_path@, old.statuses_by_path@),
            r.entry_ids@.len() == 0,
    {
        let mut updated_statuses: Vec<WireStatusEntry> = Vec::new();
        let mut removed_statuses: Vec<Arc<RelPath>> = Vec::new();
        let ghost new_all = self.statuses_by_path@;
        let ghost old_all = old.statuses_by_path@;
        let mut i: usize = 0;
        let mut j: usize = 0;
        assert(new_all.take(0) =~= Seq::empty());
        assert(old_all.take(0) =~= Seq::empty());
        assert(updated_statuses@ =~= wires(updated(new_all.take(0), old_all)));
        while i < self.statuses_by_path.len() || j < old.statuses_by_path.len()
            invariant
                i <= new_all.len(),
                j <= old_all.len(),
                new_all == self.statuses_by_path@,
                old_all == old.statuses_by_path@,
                by_path(new_all),
                by_path(old_all),
                updated_statuses@ == wires(updated(new_all.take(i as int), old_all)),
                removed_statuses@ == removed(new_all, old_all.take(j as int)),
                forall|a: int, b: int|
                    0 <= a < i && j <= b < old_all.len() ==> path_before(
                        (#[trigger] new_all[a]).repo_path@,
                        (#[trigger] old_all[b]).repo_path@,
                    ),
                forall|a: int, b: int|
                    i <= a < new_all.len() && 0 <= b < j ==> path_before(
                        (#[trigger] old_all[b]).repo_path@,
                        (#[trigger] new_all[a]).repo_path@,
                    ),
            decreases (new_all.len() - i) + (old_all.len() - j),
        {
            let take_new: bool;
            let take_old: bool;
            if i >= self.statuses_by_path.len() {
                take_new = false;
                take_old = true;
            } else if j >= old.statuses_by_path.len() {
                take_new = true;
                take_old = false;
            } else {
                let new_path = &self.statuses_by_path[i].repo_path;
                let old_path = &old.statuses_by_path[j].repo_path;
                take_new = !old_path.comes_before(&**new_path);
                take_old = !new_path.comes_before(&**old_path);
                proof {
                    lemma_path_before_total(new_path@, old_path@);
                }
            }
            let ghost updated_before = updated(new_all.take(i as int), old_all);
            if take_new {
                let entry = &self.statuses_by_path[i];
                proof {
                    let next = new_all.take(i + 1);
                    assert(next.drop_last() =~= new_all.take(i as int));
                    assert(next.last() == new_all[i as int]);
                    if take_old {
                        lemma_status_found(old_all, j as int);
                    } else {
                        assert forall|k: int| 0 <= k < old_all.len() implies (
                        #[trigger] old_all[k]).repo_path@ != entry.repo_path@ by {
                            if k < j {
                                assert(path_before(
                                    old_all[k].repo_path@,
                                    new_all[i as int].repo_path@,
                                ));
                            } else if k > j {
                                lemma_path_before_transitive(
                                    entry.repo_path@,
                                    old_all[j as int].repo_path@,
                                    old_all[k].repo_path@,
                                );
                            }
                            lemma_path_before_total(entry.repo_path@, old_all[k].repo_path@);
                        }
                        lemma_status_absent(old_all, entry.repo_path@);
                    }
                }
                let same: bool = take_old && entry.status == old.statuses_by_path[j].status;
                if !same {
                    updated_statuses.push(entry.to_proto());
                    assert(wires(updated_before.push(new_all[i as int])) =~= wires(
                        updated_before,
                    ).push(entry_wire(new_all[i as int])));
                }
            }
            if take_old {
                let entry = &old.statuses_by_path[j];
                proof {
                    let next = old_all.take(j + 1);
                    assert(next.drop_last() =~= old_all.take(j as int));
                    assert(next.last() == old_all[j as int]);
                    if take_new {
                        lemma_status_found(new_all, i as int);
                    } else {
                        assert forall|k: int| 0 <= k < new_all.len() implies (
                        #[trigger] new_all[k]).repo_path@ != entry.repo_path@ by {
                            if k < i {
                                assert(path_before(
                                    new_all[k].repo_path@,
                                    old_all[j as int].repo_path@,
                                ));
                            } else if k > i {
                                lemma_path_before_transitive(
                                    entry.repo_path@,
                                    new_all[i as int].repo_path@,
                                    new_all[k].repo_path@,
                                );
                            }
                            lemma_path_before_total(entry.repo_path@, new_all[k].repo_path@);
                        }
                        lemma_status_absent(new_all, entry.repo_path@);
                    }
                }
                if !take_new {
                    removed_statuses.push(arc_clone(&entry.repo_path));
                }
            }
            proof {
                // What was passed comes before all that is still ahead.
                if take_new {
                    assert forall|b: int| (if take_old {
                        j + 1
                    } else {
                        j as int
                    }) <= b < old_all.len() implies path_before(
                        new_all[i as int].repo_path@,
                        (#[trigger] old_all[b]).repo_path@,
                    ) by {
                        if take_old {
                            assert(path_before(old_all[j as int].repo_path@, old_all[b].repo_path@));
                        } else if b > j {
                            lemma_path_before_transitive(
                                new_all[i as int].repo_path@,
                                old_all[j as int].repo_path@,
                                old_all[b].repo_path@,
                            );
                        }
                    }
                }
                if take_old {
                    assert forall|a: int| (if take_new {
                        i + 1
                    } else {
                        i as int
                    }) <= a < new_all.len() implies path_before(
                        old_all[j as int].repo_path@,
                        (#[trigger] new_all[a]).repo_path@,
                    ) by {
                        if take_new {
                            assert(path_before(new_all[i as int].repo_path@, new_all[a].repo_path@));
                        } else if a > i {
                            lemma_path_before_transitive(
                                old_all[j as int].repo_path@,
                                new_all[i as int].repo_path@,
                                new_all[a].repo_path@,
                            );
                        }
                    }
                }
            }
            if take_new {
                i = i + 1;
            }
            if take_old {
                j = j + 1;
            }
        }
        assert(new_all.take(i as int) =~= new_all);
        assert(old_all.take(j as int) =~= old_all);
        UpdateRepository {
            branch_summary: match &self.branch {
                Some(branch) => Some(branch_to_proto(branch)),
                None => None,
            },
            head_commit_details: match &self.head_commit {
                Some(commit) => Some(commit_details_to_proto(commit)),
                None => None,
            },
            updated_statuses,
            removed_statuses,
            current_merge_conflicts: self.conflicts_to_proto(),
            project_id,
            id: self.id.to_proto(),
            abs_path: arc_clone(&self.work_directory_abs_path),
            entry_ids: Vec::new(),
            scan_id: self.scan_id,
            is_last_update: true,
        }
    }

    /// The files with a status.
    pub fn status(&self) -> (r: Vec<StatusEntry>)
        ensures
            r@ == self.statuses_by_path@,
    {
        let mut r: Vec<StatusEntry> = Vec::new();
        let mut i: usize = 0;
        while i < self.statuses_by_path.len()
            invariant
                i <= self.statuses_by_path@.len(),
                r@ =~= self.statuses_by_path@.take(i as int),
            decreases self.statuses_by_path.len() - i,
        {
            r.push(self.statuses_by_path[i].clone());
            i = i + 1;
        }
        assert(r@ =~= self.statuses_by_path@);
        r
    }

    /// The status of the file with a path.
    pub fn status_for_path(&self, path: &RelPath) -> (r: Option<StatusEntry>)
        ensures
            match r {
                Some(entry) => entry.repo_path@ == path@ && status_at(
                    self.statuses_by_path@,
                    path@,
                ) == Some(entry.status),
                None => status_at(self.statuses_by_path@, path@) is None,
            },
    {
        let mut i: usize = self.statuses_by_path.len();
        let ghost all = self.statuses_by_path@;
        assert(all.take(i as int) =~= all);
        while i > 0
            invariant
                i <= all.len(),
                all == self.statuses_by_path@,
                status_at(all.take(i as int), path@) == status_at(all, path@),
            decreases i,
        {
            proof {
                let here = all.take(i as int);
                assert(here.drop_last() =~= all.take(i - 1));
                assert(here.last() == all[i - 1]);
            }
            if self.statuses_by_path[i - 1].repo_path.same(path) {
                return Some(self.statuses_by_path[i - 1].clone());
            }
            i = i - 1;
        }
        None
    }

    /// The path of a file inside the repository.
    pub fn abs_path_to_repo_path(&self, abs_path: &RelPath) -> (r: Option<RelPath>)
        ensures
            match r {
                Some(path) => is_below(abs_path@, self.work_directory_abs_path@) && path@
                    == abs_path@.skip(self.work_directory_abs_path@.len() as int),
                None => !is_below(abs_path@, self.work_directory_abs_path@),
            },
    {
        abs_path.strip_prefix(&*self.work_directory_abs_path)
    }

    /// The path of a file of the repository outside of it.
    pub fn repo_path_to_abs_path(&self, path: &RelPath) -> (r: RelPath)
        ensures
            r@ == self.work_directory_abs_path@ + path@,
    {
        self.work_directory_abs_path.join(path)
    }

    /// Whether a file was in conflict when the heads of the merge last changed.
    pub fn had_conflict_on_last_merge_head_change(&self, repo_path: &RelPath) -> (r: bool)
        ensures
            r == self.conflicted_paths@.contains(repo_path@),
    {
        self.conflicted_paths.contains(repo_path)
    }

    /// Whether a file is in conflict, or was when the heads of the merge last
    /// changed.
    pub fn has_conflict(&self, repo_path: &RelPath) -> (r: bool)
        ensures
            r == (self.conflicted_paths@.contains(repo_path@) || match status_at(
                self.statuses_by_path@,
                repo_path@,
            ) {
                Some(status) => status is Unmerged,
                None => false,
            }),
    {
        let had_conflict: bool = self.conflicted_paths.contains(repo_path);
        let has_conflict: bool = match self.status_for_path(repo_path) {
            Some(entry) => entry.status.is_conflicted(),
            None => false,
        };
        had_conflict || has_conflict
    }

    /// The name that is shown for the repository: that of its directory.
    pub fn display_name(&self) -> (r: String)
        ensures
            r@ == (if self.work_directory_abs_path@.len() > 0 {
                self.work_directory_abs_path@.last()
            } else {
                Seq::empty()
            }),
    {
        match self.work_directory_abs_path.file_name() {
            Some(name) => copy_text(name.as_str()),
            None => {
                let name = String::new();
                assert(name@ =~= Seq::empty());
                name
            },
        }
    }
}

/// The status of each file.
pub open spec fn status_map(entries: Seq<StatusEntry>) -> Map<Seq<Seq<char>>, FileStatus> {
    Map::new(
        |path: Seq<Seq<char>>| status_at(entries, path) is Some,
        |path: Seq<Seq<char>>| status_at(entries, path)->0,
    )
}

/// What a peer knows of the files after a change was sent.
pub open spec fn applied(
    known: Map<Seq<Seq<char>>, FileStatus>,
    updates: Seq<StatusEntry>,
    removals: Seq<Arc<RelPath>>,
) -> Map<Seq<Seq<char>>, FileStatus> {
    known.remove_keys(
        Set::new(|path: Seq<Seq<char>>| has_path(removals, path)),
    ).union_prefer_right(status_map(updates))
}

proof fn lemma_updated_at(new: Seq<StatusEntry>, old: Seq<StatusEntry>, path: Seq<Seq<char>>)
    requires
        by_path(new),
    ensures
        status_at(updated(new, old), path) == (if status_at(new, path) is Some && status_at(
            old,
            path,
        ) != status_at(new, path) {
            status_at(new, path)
        } else {
            None
        }),
    decreases new.len(),
{
    if new.len() > 0 {
        let rest = new.drop_last();
        assert(by_path(rest)) by {
            assert forall|i: int, j: int| 0 <= i < j < rest.len() implies path_before(
                (#[trigger] rest[i]).repo_path@,
                (#[trigger] rest[j]).repo_path@,
            ) by {
                assert(rest[i] == new[i] && rest[j] == new[j]);
            }
        }
        lemma_updated_at(rest, old, path);
        let last = new.last();
        if last.repo_path@ == path {
            assert forall|k: int| 0 <= k < rest.len() implies (#[trigger] rest[k]).repo_path@
                != path by {
                assert(path_before(new[k].repo_path@, new[new.len() - 1].repo_path@));
                lemma_path_before_total(path, path);
            }
            lemma_status_absent(rest, path);
        }
        let all = updated(new, old);
        if status_at(old, last.repo_path@) != Some(last.status) {
            assert(all.drop_last() =~= updated(rest, old));
        }
    }
}

proof fn lemma_removed_has(new: Seq<StatusEntry>, old: Seq<StatusEntry>, path: Seq<Seq<char>>)
    ensures
        has_path(removed(new, old), path) == (status_at(old, path) is Some && status_at(
            new,
            path,
        ) is None),
    decreases old.len(),
{
    if old.len() > 0 {
        let rest = old.drop_last();
        lemma_removed_has(new, rest, path);
        let before = removed(new, rest);
        let all = removed(new, old);
        if status_at(new, old.last().repo_path@) is None {
            if has_path(before, path) {
                let k: int = choose|k: int| 0 <= k < before.len() && (#[trigger] before[k])@ == path;
                assert(all[k]@ == path);
            }
            if old.last().repo_path@ == path {
                assert(all[before.len() as int]@ == path);
            }
            if has_path(all, path) && old.last().repo_path@ != path {
                let k: int = choose|k: int| 0 <= k < all.len() && (#[trigger] all[k])@ == path;
                assert(before[k]@ == path);
            }
        }
    }
}

/// A peer that knows a repository as it was, and takes up what was sent since,
/// knows it as it is.
pub proof fn law_update_brings_peer_up_to_date(new: Seq<StatusEntry>, old: Seq<StatusEntry>)
    requires
        by_path(new),
    ensures
        applied(status_map(old), updated(new, old), removed(new, old)) == status_map(new),
{
    let result = applied(status_map(old), updated(new, old), removed(new, old));
    assert forall|path: Seq<Seq<char>>| result.contains_key(path) == status_map(new).contains_key(
        path,
    ) by {
        lemma_updated_at(new, old, path);
        lemma_removed_has(new, old, path);
    }
    assert forall|path: Seq<Seq<char>>| status_map(new).contains_key(path) implies result[path]
        == status_map(new)[path] by {
        lemma_updated_at(new, old, path);
        lemma_removed_has(new, old, path);
    }
    assert(result =~= status_map(new));
}

/// A peer that knows nothing of a repository, and takes up all of it, knows it as
/// it is.
pub proof fn law_initial_update_is_complete(entries: Seq<StatusEntry>)
    ensures
        applied(Map::empty(), entries, Seq::empty()) == status_map(entries),
{
    assert(applied(Map::empty(), entries, Seq::empty()) =~= status_map(entries));
}

/// Nothing is sent of files that have not changed.
pub proof fn law_no_change_sends_nothing(entries: Seq<StatusEntry>)
    requires
        by_path(entries),
    ensures
        updated(entries, entries).len() == 0,
        removed(entries, entries).len() == 0,
{
    assert(entries.take(entries.len() as int) =~= entries);
    lemma_nothing_updated(entries, entries);
    lemma_nothing_removed(entries, entries);
}

proof fn lemma_nothing_updated(part: Seq<StatusEntry>, all: Seq<StatusEntry>)
    requires
        by_path(all),
        part.len() <= all.len(),
        part == all.take(part.len() as int),
    ensures
        updated(part, all).len() == 0,
    decreases part.len(),
{
    if part.len() > 0 {
        let rest = part.drop_last();
        assert(rest =~= all.take(rest.len() as int));
        lemma_nothing_updated(rest, all);
        assert(part.last() == all[part.len() - 1]);
        lemma_status_found(all, part.len() - 1);
    }
}

proof fn lemma_nothing_removed(part: Seq<StatusEntry>, all: Seq<StatusEntry>)
    requires
        by_path(all),
        part.len() <= all.len(),
        part == all.take(part.len() as int),
    ensures
        removed(all, part).len() == 0,
    decreases part.len(),
{
    if part.len() > 0 {
        let rest = part.drop_last();
        assert(rest =~= all.take(rest.len() as int));
        lemma_nothing_removed(rest, all);
        assert(part.last() == all[part.len() - 1]);
        lemma_status_found(all, part.len() - 1);
    }
}

/// A path of a repository leads to itself by way of the path outside of the repository.
pub proof fn law_repo_path_round_trip(work_directory: Seq<Seq<char>>, path: Seq<Seq<char>>)
    ensures
        is_below(work_directory + path, work_directory),
        (work_directory + path).skip(work_directory.len() as int) == path,
{
    assert((work_directory + path).take(work_directory.len() as int) =~= work_directory);
    assert((work_directory + path).skip(work_directory.len() as int) =~= path);
}

} // verus!
