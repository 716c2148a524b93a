//! What holds of repositories, whatever is asked of them.

use vstd::prelude::*;
use std::sync::Arc;
use crate::git_store::blame::{serialize_blame_buffer_response, Blame, BlameResponse};
use crate::git_store::diff_state::{
    bases_from_proto, bases_to_proto, loaded_bases, reload_buffer_diff_bases, truncated_diff,
    uncommitted_diff_response, BaseText, BasesMode, BufferGitState, DiffBasesChange,
    RecalculationPlan, UncommittedPlan, UpdateDiffBases,
};
use crate::git_store::path_set::has_path;
use crate::git_store::snapshot::{
    branch_to_proto, by_path, commit_details_to_proto, lemma_status_found, lemma_status_index,
    removed, status_at, updated, wires, Branch, CommitDetails, RepositoryId, RepositorySnapshot,
    UpdateRepository, WireBranch,
};
use crate::git_store::staging::{
    chosen_paths, stage_all, stage_entries, to_save, unstage_all, unstage_entries, OpenBuffer,
    StagePlan, StageStatus, StagedEntry,
};
use crate::git_store::status::{
    status_from_proto, tracked_status_to_proto, unmerged_status_to_proto, FileStatus, StatusCode,
    StatusEntry, StatusError, UnmergedStatusCode, WireFileStatus, WireStatus, WireStatusEntry,
};
use crate::git_store::store::{
    checkpoint_index, has_directory, law_innermost_repository, repository_index, repository_of,
    snapshot_index, to_compare, to_restore, GitStore, GitStoreEvent, LocatedPath,
    RepositoryCheckpoint, RepositoryInfo,
};
use crate::path::{is_below, RelPath};
use crate::text::{byte_len, lemma_line_feeds_stay};

verus! {

/// What a text that may be missing says.
pub open spec fn said(text: Option<String>) -> Option<Seq<char>> {
    match text {
        Some(text) => Some(text@),
        None => None,
    }
}

/// What a shared text that may be missing says.
pub open spec fn shared(text: Option<Arc<String>>) -> Option<Seq<char>> {
    match text {
        Some(text) => Some(text@),
        None => None,
    }
}

/// The text of the index that a change leaves, given the one before.
pub open spec fn index_after(change: Option<DiffBasesChange>, before: Option<Seq<char>>) -> Option<
    Seq<char>,
> {
    match change {
        Some(DiffBasesChange::SetIndex(index)) => said(index),
        Some(DiffBasesChange::SetEach { index, .. }) => said(index),
        Some(DiffBasesChange::SetBoth(text)) => said(text),
        _ => before,
    }
}

/// The text of the last commit that a change leaves, given the one before.
pub open spec fn head_after(change: Option<DiffBasesChange>, before: Option<Seq<char>>) -> Option<
    Seq<char>,
> {
    match change {
        Some(DiffBasesChange::SetHead(head)) => said(head),
        Some(DiffBasesChange::SetEach { head, .. }) => said(head),
        Some(DiffBasesChange::SetBoth(text)) => said(text),
        _ => before,
    }
}

/// Once the texts that a buffer is compared with were read again, those that are in use are
/// what was read. Where nothing has changed there is no change, and a text that is not in
/// use is left alone.
pub proof fn law_texts_in_use_are_what_was_read(
    current_index: Option<Option<Arc<String>>>,
    current_head: Option<Option<Arc<String>>>,
    index_text: Option<String>,
    head_text: Option<String>,
    r: Option<DiffBasesChange>,
)
    requires
        call_ensures(
            reload_buffer_diff_bases,
            (&current_index, &current_head, index_text, head_text),
            r,
        ),
    ensures
        current_index matches Some(index) ==> index_after(r, shared(index)) == said(index_text),
        current_head matches Some(head) ==> head_after(r, shared(head)) == said(head_text),
        r is None <==> (current_index matches Some(index) ==> shared(index) == said(index_text))
            && (current_head matches Some(head) ==> shared(head) == said(head_text)),
        r matches Some(DiffBasesChange::SetIndex(_)) ==> current_index is Some,
        r matches Some(DiffBasesChange::SetHead(_)) ==> current_head is Some,
        r matches Some(DiffBasesChange::SetEach { .. }) ==> current_index is Some && current_head
            is Some && said(index_text) != said(head_text),
        r matches Some(DiffBasesChange::SetBoth(_)) ==> current_index is Some && current_head
            is Some && said(index_text) == said(head_text),
{
}

/// The texts that were loaded are taken as they were loaded, and told to be one exactly
/// where they are equal.
pub proof fn law_loaded_texts(
    committed: Option<String>,
    staged: Option<String>,
    r: DiffBasesChange,
)
    requires
        call_ensures(loaded_bases, (committed, staged), r),
    ensures
        forall|before: Option<Seq<char>>| #[trigger] index_after(Some(r), before) == said(staged),
        forall|before: Option<Seq<char>>|
            #[trigger] head_after(Some(r), before) == said(committed),
        r is SetBoth <==> said(committed) == said(staged),
        r is SetBoth || r is SetEach,
{
}

/// A change of texts that is sent comes in as it was.
pub proof fn law_sent_texts_arrive(
    change: DiffBasesChange,
    message: UpdateDiffBases,
    back: DiffBasesChange,
)
    requires
        call_ensures(bases_to_proto, (change,), message),
        call_ensures(bases_from_proto, (message,), back),
    ensures
        forall|before: Option<Seq<char>>|
            #[trigger] index_after(Some(back), before) == index_after(Some(change), before),
        forall|before: Option<Seq<char>>|
            #[trigger] head_after(Some(back), before) == head_after(Some(change), before),
        back is SetBoth <==> change is SetBoth,
        change matches DiffBasesChange::SetIndex(index) ==> message.mode == BasesMode::IndexOnly
            && said(message.staged_text) == said(index),
        change matches DiffBasesChange::SetHead(head) ==> message.mode == BasesMode::HeadOnly
            && said(message.committed_text) == said(head),
        change matches DiffBasesChange::SetBoth(text) ==> message.mode
            == BasesMode::IndexMatchesHead && said(message.committed_text) == said(text),
        change matches DiffBasesChange::SetEach { index, head } ==> message.mode
            == BasesMode::IndexAndHead && said(message.staged_text) == said(index) && said(
            message.committed_text,
        ) == said(head),
{
    let before: Option<Seq<char>> = None;
    assert(index_after(Some(back), before) == index_after(Some(change), before));
}

/// A peer that opens the comparison with the last commit gets the texts that it compares
/// with. Both are one only where they are the same text.
pub proof fn law_opened_comparison_is_answered(
    committed: Option<BaseText>,
    index: Option<BaseText>,
    r: UpdateDiffBases,
    back: DiffBasesChange,
)
    requires
        call_ensures(uncommitted_diff_response, (committed, index), r),
        call_ensures(bases_from_proto, (r,), back),
    ensures
        head_after(Some(back), None) == (match committed {
            Some(text) => Some(text.text@),
            None => None,
        }),
        (committed is Some && index is Some && committed->0.id == index->0.id) ==> r.mode
            == BasesMode::IndexMatchesHead,
        !(committed is Some && index is Some && committed->0.id == index->0.id) ==> r.mode
            == BasesMode::IndexAndHead && index_after(Some(back), None) == (match index {
            Some(text) => Some(text.text@),
            None => None,
        }),
{
}

/// A difference is sent whole, or, if it is too long, its start is.
pub proof fn law_long_differences_are_cut(diff: String, r: String)
    requires
        call_ensures(truncated_diff, (diff,), r),
    ensures
        r@.is_prefix_of(diff@),
        byte_len(diff@) <= 1_000_000 ==> r@ == diff@,
        diff@.len() <= 1_000_000 ==> r@ == diff@,
        diff@.len() > 1_000_000 && byte_len(diff@) > 1_000_000 ==> r@.len() == 1_000_000,
{
}

/// New texts are what the buffer is compared with from then on, with line feeds at the ends
/// of their lines, and what has not changed stays.
pub proof fn law_new_texts_are_compared(
    state: &mut BufferGitState,
    change: Option<DiffBasesChange>,
    r: (),
)
    requires
        call_ensures(BufferGitState::diff_bases_changed, (state, change), r),
        index_after(change, None) matches Some(text) ==> !text.contains('\r'),
        head_after(change, None) matches Some(text) ==> !text.contains('\r'),
    ensures
        shared(final(state).index_text) == index_after(change, shared(old(state).index_text)),
        shared(final(state).head_text) == head_after(change, shared(old(state).head_text)),
        change matches Some(DiffBasesChange::SetIndex(_)) ==> final(state).index_changed
            && final(state).head_changed == old(state).head_changed,
        change matches Some(DiffBasesChange::SetHead(_)) ==> final(state).head_changed
            && final(state).index_changed == old(state).index_changed,
        change matches Some(DiffBasesChange::SetBoth(_)) ==> final(state).head_changed
            && final(state).index_changed && final(state).index_is_head,
        change matches Some(DiffBasesChange::SetEach { .. }) ==> final(state).head_changed
            && final(state).index_changed && !final(state).index_is_head,
        change is None ==> *final(state) == *old(state),
{
    if let Some(text) = index_after(change, None) {
        lemma_line_feeds_stay(text);
    }
    if let Some(text) = head_after(change, None) {
        lemma_line_feeds_stay(text);
    }
}

/// What is compared: the index wherever someone looks at that comparison, and the last
/// commit wherever someone looks at that one. The second takes the result of the first only
/// where the two texts are one.
pub proof fn law_what_is_compared(
    state: &mut BufferGitState,
    unstaged: bool,
    uncommitted: bool,
    r: RecalculationPlan,
)
    requires
        call_ensures(BufferGitState::recalculate_diffs, (state, unstaged, uncommitted), r),
    ensures
        final(state).recalculating,
        r.unstaged == unstaged,
        !uncommitted ==> r.uncommitted == UncommittedPlan::Skip,
        r.uncommitted == UncommittedPlan::SameAsUnstaged ==> unstaged && uncommitted && ((
        old(state).index_text is None && old(state).head_text is None) || (old(
            state,
        ).index_text is Some && old(state).head_text is Some && old(state).index_is_head)),
        uncommitted && (old(state).index_text is Some != old(state).head_text is Some) ==> r.uncommitted
            == UncommittedPlan::Compute,
        uncommitted && old(state).index_text is Some && old(state).head_text is Some && !old(
            state,
        ).index_is_head ==> r.uncommitted == UncommittedPlan::Compute,
        uncommitted && unstaged && old(state).index_text is None && old(state).head_text is None
            ==> r.uncommitted == UncommittedPlan::SameAsUnstaged,
        uncommitted && unstaged && old(state).index_text is Some && old(state).head_text is Some
            && old(state).index_is_head ==> r.uncommitted == UncommittedPlan::SameAsUnstaged,
        r.index_changed == old(state).index_changed,
        r.head_changed == old(state).head_changed,
        r.language_changed == old(state).language_changed,
        final(state).index_text == old(state).index_text,
        final(state).head_text == old(state).head_text,
{
}

/// The codes of statuses are sent under their own names.
pub proof fn law_status_codes_are_sent_by_name(
    code: StatusCode,
    unmerged: UnmergedStatusCode,
    r: WireStatus,
    s: WireStatus,
)
    requires
        call_ensures(tracked_status_to_proto, (code,), r),
        call_ensures(unmerged_status_to_proto, (unmerged,), s),
    ensures
        code is Modified <==> r is Modified,
        code is TypeChanged <==> r is TypeChanged,
        code is Added <==> r is Added,
        code is Deleted <==> r is Deleted,
        code is Renamed <==> r is Renamed,
        code is Copied <==> r is Copied,
        code is Unmodified <==> r is Unmodified,
        unmerged is Added <==> s is Added,
        unmerged is Deleted <==> s is Deleted,
        unmerged is Updated <==> s is Updated,
{
}

/// The status of a file is sent with its two sides in their places, and a single code for
/// receivers that know no more: a conflict, what has changed in the work tree, or else what
/// has changed in the index.
pub proof fn law_status_is_sent(
    entry: StatusEntry,
    r: WireStatusEntry,
    index: WireStatus,
    worktree: WireStatus,
    first: WireStatus,
    second: WireStatus,
)
    requires
        call_ensures(StatusEntry::to_proto, (&entry,), r),
        entry.status matches FileStatus::Versioned(versioned) ==> call_ensures(
            tracked_status_to_proto,
            (versioned.index_status,),
            index,
        ) && call_ensures(tracked_status_to_proto, (versioned.worktree_status,), worktree),
        entry.status matches FileStatus::Unmerged(unmerged) ==> call_ensures(
            unmerged_status_to_proto,
            (unmerged.first_head,),
            first,
        ) && call_ensures(unmerged_status_to_proto, (unmerged.second_head,), second),
    ensures
        r.repo_path == entry.repo_path,
        entry.status is Untracked ==> r.status == Some(WireFileStatus::Untracked)
            && r.simple_status is Added,
        entry.status is Ignored ==> r.status == Some(WireFileStatus::Ignored) && r.simple_status
            is Added,
        entry.status is Unmerged ==> r.status == Some(
            WireFileStatus::Unmerged { first_head: first, second_head: second },
        ) && r.simple_status is Conflict,
        entry.status matches FileStatus::Versioned(versioned) ==> r.status == Some(
            WireFileStatus::Versioned { index_status: index, worktree_status: worktree },
        ) && r.simple_status == (if versioned.worktree_status is Unmodified {
            index
        } else {
            worktree
        }),
{
}

/// A status comes in as it was sent. A single code stands for a change in the work tree or
/// for a conflict, and any other is refused.
pub proof fn law_status_arrives(
    entry: StatusEntry,
    wire: WireStatusEntry,
    back: Result<StatusEntry, StatusError>,
    code: WireStatus,
    simple: Result<FileStatus, StatusError>,
)
    requires
        call_ensures(StatusEntry::to_proto, (&entry,), wire),
        call_ensures(StatusEntry::from_proto, (wire,), back),
        call_ensures(status_from_proto, (code, None), simple),
    ensures
        back is Ok && back->Ok_0 == entry,
        simple is Ok <==> code is Added || code is Modified || code is Deleted || code is Conflict,
        simple matches Ok(FileStatus::Versioned(versioned)) ==> versioned.index_status is Unmodified
            && (code is Added <==> versioned.worktree_status is Added) && (code is Modified
            <==> versioned.worktree_status is Modified) && (code is Deleted
            <==> versioned.worktree_status is Deleted),
        code is Conflict <==> simple matches Ok(FileStatus::Unmerged(_)),
        code matches WireStatus::Unknown(number) ==> simple is Err && simple->Err_0
            == StatusError::InvalidCode(number),
{
}

/// A branch is sent with its names, its commit, and the time of that commit.
pub proof fn law_branch_is_sent(branch: Branch, r: WireBranch)
    requires
        call_ensures(branch_to_proto, (&branch,), r),
    ensures
        r.is_head == branch.is_head,
        r.ref_name@ == branch.ref_name@,
        said(r.upstream) == said(branch.upstream),
        r.most_recent_commit is Some <==> branch.most_recent_commit is Some,
        r.unix_timestamp is Some <==> branch.most_recent_commit is Some,
        branch.most_recent_commit matches Some(commit) ==> r.most_recent_commit->0.sha@
            == commit.sha@ && r.most_recent_commit->0.subject@ == commit.subject@
            && r.most_recent_commit->0.commit_timestamp == commit.commit_timestamp
            && r.unix_timestamp->0 == commit.commit_timestamp as u64,
{
}

/// A commit is sent with all that is known of it.
pub proof fn law_commit_is_sent(commit: CommitDetails, r: CommitDetails)
    requires
        call_ensures(commit_details_to_proto, (&commit,), r),
    ensures
        r.sha@ == commit.sha@,
        r.message@ == commit.message@,
        r.commit_timestamp == commit.commit_timestamp,
        r.author_email@ == commit.author_email@,
        r.author_name@ == commit.author_name@,
{
}

/// Who wrote the lines of a file is sent for each range of lines, in their order.
pub proof fn law_blame_is_sent(blame: Option<Blame>, r: Option<BlameResponse>)
    requires
        call_ensures(serialize_blame_buffer_response, (blame,), r),
    ensures
        r is Some <==> blame is Some,
        blame matches Some(blame) ==> {
            &&& r->0.messages == blame.messages
            &&& r->0.remote_url == blame.remote_url
            &&& r->0.entries@.len() == blame.entries@.len()
            &&& forall|i: int|
                0 <= i < blame.entries@.len() ==> {
                    let from = blame.entries@[i];
                    let to = #[trigger] r->0.entries@[i];
                    &&& to.sha == from.sha
                    &&& to.start_line == from.start && to.end_line == from.end
                    &&& to.original_line_number == from.original_line_number
                    &&& to.author == from.author && to.author_mail == from.author_mail
                    &&& to.author_time == from.author_time && to.author_tz == from.author_tz
                    &&& to.committer == from.committer_name
                    &&& to.committer_mail == from.committer_email
                    &&& to.committer_time == from.committer_time
                    &&& to.committer_tz == from.committer_tz
                    &&& to.summary == from.summary && to.previous == from.previous
                    &&& to.filename == from.filename
                }
        },
{
}

/// The status of a path is that of the entry with that path, and only such a path has one.
pub proof fn law_status_of_a_path(
    snapshot: RepositorySnapshot,
    path: RelPath,
    r: Option<StatusEntry>,
    conflict: bool,
)
    requires
        snapshot.wf(),
        call_ensures(RepositorySnapshot::status_for_path, (&snapshot, &path), r),
        call_ensures(RepositorySnapshot::has_conflict, (&snapshot, &path), conflict),
    ensures
        r matches Some(entry) ==> entry.repo_path@ == path@ && exists|i: int|
            0 <= i < snapshot.statuses_by_path@.len() && (
            #[trigger] snapshot.statuses_by_path@[i]).repo_path@ == path@
                && snapshot.statuses_by_path@[i].status == entry.status,
        r is None ==> forall|i: int|
            0 <= i < snapshot.statuses_by_path@.len() ==> (
            #[trigger] snapshot.statuses_by_path@[i]).repo_path@ != path@,
        conflict <==> (exists|i: int|
            0 <= i < snapshot.conflicted_paths.paths@.len() && (
            #[trigger] snapshot.conflicted_paths.paths@[i])@ == path@) || exists|i: int|
            0 <= i < snapshot.statuses_by_path@.len() && (
            #[trigger] snapshot.statuses_by_path@[i]).repo_path@ == path@
                && snapshot.statuses_by_path@[i].status is Unmerged,
{
    let entries = snapshot.statuses_by_path@;
    if status_at(entries, path@) is Some {
        lemma_status_index(entries, path@);
    } else {
        assert forall|i: int| 0 <= i < entries.len() implies (#[trigger] entries[i]).repo_path@
            != path@ by {
            lemma_status_found(entries, i);
        }
    }
    assert forall|i: int|
        0 <= i < entries.len() && (#[trigger] entries[i]).repo_path@ == path@ implies status_at(
        entries,
        path@,
    ) == Some(entries[i].status) by {
        lemma_status_found(entries, i);
    }
    assert(snapshot.conflicted_paths@.contains(path@) == has_path(
        snapshot.conflicted_paths.paths@,
        path@,
    ));
}

/// The path of a file in a repository leads back to the file, and a file outside of the work
/// directory has none.
pub proof fn law_paths_of_a_repository(
    snapshot: RepositorySnapshot,
    abs_path: RelPath,
    r: Option<RelPath>,
    back: RelPath,
    name: String,
)
    requires
        call_ensures(RepositorySnapshot::abs_path_to_repo_path, (&snapshot, &abs_path), r),
        r is Some ==> call_ensures(
            RepositorySnapshot::repo_path_to_abs_path,
            (&snapshot, &r->0),
            back,
        ),
        call_ensures(RepositorySnapshot::display_name, (&snapshot,), name),
    ensures
        r is Some <==> snapshot.work_directory_abs_path@.is_prefix_of(abs_path@),
        r is Some ==> back@ == abs_path@,
        snapshot.work_directory_abs_path@.len() > 0 ==> name@
            == snapshot.work_directory_abs_path@.last(),
{
    let dir = snapshot.work_directory_abs_path@;
    if dir.len() <= abs_path@.len() {
        assert(dir.is_prefix_of(abs_path@) <==> dir =~= abs_path@.subrange(0, dir.len() as int));
        assert(abs_path@.take(dir.len() as int) =~= abs_path@.subrange(0, dir.len() as int));
    }
    if r is Some {
        assert(dir + abs_path@.skip(dir.len() as int) =~= abs_path@);
    }
}

/// Whether a list of statuses holds a status for a path.
pub open spec fn holds(entries: Seq<StatusEntry>, path: Seq<Seq<char>>, status: FileStatus) -> bool {
    exists|i: int|
        0 <= i < entries.len() && (#[trigger] entries[i]).repo_path@ == path && entries[i].status
            == status
}

/// Whether a list of statuses holds a path.
pub open spec fn names(entries: Seq<StatusEntry>, path: Seq<Seq<char>>) -> bool {
    exists|i: int| 0 <= i < entries.len() && (#[trigger] entries[i]).repo_path@ == path
}

proof fn lemma_holds(entries: Seq<StatusEntry>, path: Seq<Seq<char>>)
    requires
        by_path(entries),
    ensures
        names(entries, path) <==> status_at(entries, path) is Some,
        forall|status: FileStatus|
            #[trigger] holds(entries, path, status) <==> status_at(entries, path) == Some(status),
{
    if status_at(entries, path) is Some {
        lemma_status_index(entries, path);
    }
    assert forall|i: int|
        0 <= i < entries.len() && (#[trigger] entries[i]).repo_path@ == path implies status_at(
        entries,
        path,
    ) == Some(entries[i].status) by {
        lemma_status_found(entries, i);
    }
    assert forall|status: FileStatus|
        #[trigger] holds(entries, path, status) <==> status_at(entries, path) == Some(status) by {
        if holds(entries, path, status) {
            let i: int = choose|i: int|
                0 <= i < entries.len() && (#[trigger] entries[i]).repo_path@ == path
                    && entries[i].status == status;
            assert(status_at(entries, path) == Some(entries[i].status));
        }
    }
}

proof fn lemma_updated_holds(new: Seq<StatusEntry>, old: Seq<StatusEntry>, k: int)
    requires
        0 <= k < new.len(),
        status_at(old, new[k].repo_path@) != Some(new[k].status),
    ensures
        updated(new, old).contains(new[k]),
    decreases new.len(),
{
    let rest = updated(new.drop_last(), old);
    let all = updated(new, old);
    if k == new.len() - 1 {
        assert(all[rest.len() as int] == new[k]);
    } else {
        assert(new.drop_last()[k] == new[k]);
        lemma_updated_holds(new.drop_last(), old, k);
        let i: int = choose|i: int| 0 <= i < rest.len() && rest[i] == new[k];
        assert(all[i] == new[k]);
    }
}

proof fn lemma_updated_is_new(new: Seq<StatusEntry>, old: Seq<StatusEntry>, i: int)
    requires
        0 <= i < updated(new, old).len(),
    ensures
        new.contains(updated(new, old)[i]),
        status_at(old, updated(new, old)[i].repo_path@) != Some(updated(new, old)[i].status),
    decreases new.len(),
{
    let rest = updated(new.drop_last(), old);
    let all = updated(new, old);
    if i < rest.len() {
        lemma_updated_is_new(new.drop_last(), old, i);
        let k: int = choose|k: int|
            0 <= k < new.drop_last().len() && new.drop_last()[k] == rest[i];
        assert(new[k] == all[i]);
    } else {
        assert(new[new.len() - 1] == all[i]);
    }
}

proof fn lemma_removed_paths(new: Seq<StatusEntry>, old: Seq<StatusEntry>, path: Seq<Seq<char>>)
    ensures
        has_path(removed(new, old), path) <==> names(old, path) && status_at(new, path) is None,
    decreases old.len(),
{
    if old.len() > 0 {
        let init = old.drop_last();
        lemma_removed_paths(new, init, path);
        let rest = removed(new, init);
        let all = removed(new, old);
        if has_path(rest, path) {
            let i: int = choose|i: int| 0 <= i < rest.len() && (#[trigger] rest[i])@ == path;
            assert(all[i]@ == path);
        }
        if names(init, path) {
            let i: int = choose|i: int|
                0 <= i < init.len() && (#[trigger] init[i]).repo_path@ == path;
            assert(old[i].repo_path@ == path);
        }
        if old.last().repo_path@ == path {
            assert(old[old.len() - 1].repo_path@ == path);
            if status_at(new, path) is None {
                assert(all[rest.len() as int]@ == path);
            }
        }
        if names(old, path) && old.last().repo_path@ != path {
            let i: int = choose|i: int|
                0 <= i < old.len() && (#[trigger] old[i]).repo_path@ == path;
            assert(init[i].repo_path@ == path);
        }
        if has_path(all, path) && !has_path(rest, path) {
            let i: int = choose|i: int| 0 <= i < all.len() && (#[trigger] all[i])@ == path;
            if i < rest.len() {
                assert(rest[i]@ == path);
            }
        }
    }
}

/// What is sent of a repository that a peer knows in an earlier state: the statuses that are
/// new or have changed, as they are now, and the paths that have none any more. Nothing else
/// is sent of the files.
pub proof fn law_changes_are_sent(
    snapshot: RepositorySnapshot,
    known: RepositorySnapshot,
    project_id: u64,
    r: UpdateRepository,
    path: Seq<Seq<char>>,
)
    requires
        snapshot.wf(),
        known.wf(),
        call_ensures(RepositorySnapshot::build_update, (&snapshot, &known, project_id), r),
    ensures
        r.project_id == project_id,
        r.id == snapshot.id.0,
        r.scan_id == snapshot.scan_id,
        r.is_last_update,
        r.abs_path == snapshot.work_directory_abs_path,
        r.current_merge_conflicts@ == snapshot.conflicted_paths.paths@,
        r.branch_summary is Some <==> snapshot.branch is Some,
        r.head_commit_details is Some <==> snapshot.head_commit is Some,
        has_path(r.removed_statuses@, path) <==> names(known.statuses_by_path@, path) && !names(
            snapshot.statuses_by_path@,
            path,
        ),
        (exists|i: int|
            0 <= i < r.updated_statuses@.len() && (#[trigger] r.updated_statuses@[i]).repo_path@
                == path) <==> (exists|status: FileStatus|
            holds(snapshot.statuses_by_path@, path, status) && !holds(
                known.statuses_by_path@,
                path,
                status,
            )),
{
    let new = snapshot.statuses_by_path@;
    let old = known.statuses_by_path@;
    lemma_holds(new, path);
    lemma_holds(old, path);
    lemma_removed_paths(new, old, path);
    let sent = updated(new, old);
    let list = r.updated_statuses@;
    assert(list == wires(sent));
    if exists|i: int| 0 <= i < list.len() && (#[trigger] list[i]).repo_path@ == path {
        let i: int = choose|i: int| 0 <= i < list.len() && (#[trigger] list[i]).repo_path@ == path;
        lemma_updated_is_new(new, old, i);
        let k: int = choose|k: int| 0 <= k < new.len() && new[k] == sent[i];
        assert(new[k].repo_path@ == path);
        assert(holds(new, path, new[k].status));
        assert(!holds(old, path, new[k].status));
    }
    if exists|status: FileStatus| holds(new, path, status) && !holds(old, path, status) {
        let status = choose|status: FileStatus|
            holds(new, path, status) && !holds(old, path, status);
        let k: int = choose|k: int|
            0 <= k < new.len() && (#[trigger] new[k]).repo_path@ == path && new[k].status == status;
        lemma_updated_holds(new, old, k);
        let i: int = choose|i: int| 0 <= i < sent.len() && sent[i] == new[k];
        assert(list[i].repo_path@ == path);
    }
}

/// The first time all statuses of a repository are sent, in their order, and nothing is
/// removed.
pub proof fn law_everything_is_sent_first(
    snapshot: RepositorySnapshot,
    project_id: u64,
    r: UpdateRepository,
    i: int,
    one: WireStatusEntry,
)
    requires
        call_ensures(RepositorySnapshot::initial_update, (&snapshot, project_id), r),
        0 <= i < snapshot.statuses_by_path@.len(),
        call_ensures(StatusEntry::to_proto, (&snapshot.statuses_by_path@[i],), one),
    ensures
        r.updated_statuses@.len() == snapshot.statuses_by_path@.len(),
        r.updated_statuses@[i] == one,
        r.removed_statuses@.len() == 0,
        r.entry_ids@ == seq![snapshot.id.0],
        r.project_id == project_id,
        r.id == snapshot.id.0,
        r.scan_id == snapshot.scan_id,
{
}

/// After files were examined, a file has the status that was found, or none if nothing was
/// found of it. Files that were not examined keep theirs. The scan counts only where
/// something has changed.
pub proof fn law_examined_files_are_refreshed(
    snapshot: &mut RepositorySnapshot,
    examined: Vec<Arc<RelPath>>,
    statuses: Vec<StatusEntry>,
    r: bool,
    path: Seq<Seq<char>>,
    status: FileStatus,
)
    requires
        old(snapshot).wf(),
        by_path(statuses@),
        call_ensures(
            RepositorySnapshot::refresh_statuses,
            (snapshot, &examined, &statuses),
            r,
        ),
    ensures
        holds(final(snapshot).statuses_by_path@, path, status) <==> (holds(
            statuses@,
            path,
            status,
        ) || (!names(statuses@, path) && !has_path(examined@, path) && holds(
            old(snapshot).statuses_by_path@,
            path,
            status,
        ))),
        holds(final(snapshot).statuses_by_path@, path, status) != holds(
            old(snapshot).statuses_by_path@,
            path,
            status,
        ) ==> r,
        r ==> final(snapshot).scan_id == old(snapshot).scan_id + 1,
        !r ==> final(snapshot).scan_id == old(snapshot).scan_id,
        final(snapshot).id == old(snapshot).id,
        final(snapshot).branch == old(snapshot).branch,
{
    lemma_holds(final(snapshot).statuses_by_path@, path);
    lemma_holds(old(snapshot).statuses_by_path@, path);
    lemma_holds(statuses@, path);
}

proof fn lemma_repository_of_is_there(repositories: Seq<RepositoryInfo>, path: Seq<Seq<char>>)
    ensures
        repository_of(repositories, path) matches Some(repository) ==> repositories.contains(
            repository,
        ) && is_below(path, repository.work_directory_abs_path@),
    decreases repositories.len(),
{
    if repositories.len() > 0 {
        let init = repositories.drop_last();
        lemma_repository_of_is_there(init, path);
        if let Some(repository) = repository_of(repositories, path) {
            if repository_of(init, path) == Some(repository) {
                let i: int = choose|i: int| 0 <= i < init.len() && init[i] == repository;
                assert(repositories[i] == repository);
            } else {
                assert(repositories[repositories.len() - 1] == repository);
            }
        }
    }
}

/// A file lies in the innermost of the repositories whose work directory is above it, and
/// its path there is what is left of its own.
pub proof fn law_file_lies_in_the_innermost_repository(
    store: GitStore,
    abs_path: RelPath,
    r: Option<LocatedPath>,
)
    requires
        call_ensures(GitStore::repository_and_path_for_project_path, (&store, &abs_path), r),
    ensures
        r is None <==> forall|i: int|
            0 <= i < store.repositories@.len() ==> !(
            #[trigger] store.repositories@[i]).work_directory_abs_path@.is_prefix_of(abs_path@),
        r matches Some(located) ==> exists|i: int|
            0 <= i < store.repositories@.len() && located.repository_id == (
            #[trigger] store.repositories@[i]).id && abs_path@
                == store.repositories@[i].work_directory_abs_path@ + located.repo_path@
                && forall|k: int|
                0 <= k < store.repositories@.len() && (
                #[trigger] store.repositories@[k]).work_directory_abs_path@.is_prefix_of(abs_path@)
                    ==> store.repositories@[k].work_directory_abs_path@.len()
                    <= store.repositories@[i].work_directory_abs_path@.len(),
{
    let all = store.repositories@;
    lemma_repository_of_is_there(all, abs_path@);
    assert forall|i: int| 0 <= i < all.len() implies (
    #[trigger] all[i]).work_directory_abs_path@.is_prefix_of(abs_path@) == is_below(
        abs_path@,
        all[i].work_directory_abs_path@,
    ) by {
        let dir = all[i].work_directory_abs_path@;
        if dir.len() <= abs_path@.len() {
            assert(abs_path@.take(dir.len() as int) =~= abs_path@.subrange(0, dir.len() as int));
            assert(dir.is_prefix_of(abs_path@) <==> dir =~= abs_path@.subrange(
                0,
                dir.len() as int,
            ));
        }
    }
    assert forall|k: int| 0 <= k < all.len() && is_below(
        abs_path@,
        (#[trigger] all[k]).work_directory_abs_path@,
    ) implies repository_of(all, abs_path@) is Some && all[k].work_directory_abs_path@.len()
        <= repository_of(all, abs_path@)->0.work_directory_abs_path@.len() by {
        law_innermost_repository(all, abs_path@, k);
    }
    if let Some(repository) = repository_of(all, abs_path@) {
        let i: int = choose|i: int| 0 <= i < all.len() && all[i] == repository;
        let dir = all[i].work_directory_abs_path@;
        assert(abs_path@ =~= dir + abs_path@.skip(dir.len() as int));
        assert(all[i].id == r->0.repository_id);
    }
}

proof fn lemma_snapshot_index(snapshots: Seq<RepositorySnapshot>, id: RepositoryId)
    ensures
        0 <= snapshot_index(snapshots, id) <= snapshots.len(),
        snapshot_index(snapshots, id) < snapshots.len() ==> snapshots[snapshot_index(
            snapshots,
            id,
        )].id == id,
        forall|k: int|
            0 <= k < snapshot_index(snapshots, id) ==> (#[trigger] snapshots[k]).id != id,
    decreases snapshots.len(),
{
    if snapshots.len() > 0 && snapshots.first().id != id {
        let rest = snapshots.drop_first();
        lemma_snapshot_index(rest, id);
        assert forall|k: int| 0 <= k < snapshot_index(snapshots, id) implies (
        #[trigger] snapshots[k]).id != id by {
            if k > 0 {
                assert(rest[k - 1] == snapshots[k]);
            }
        }
        if snapshot_index(rest, id) < rest.len() {
            assert(rest[snapshot_index(rest, id)] == snapshots[snapshot_index(rest, id) + 1]);
        }
    }
}

/// The git status of a file is the status of its path in the repository that it lies in.
pub proof fn law_git_status_of_a_file(
    store: GitStore,
    snapshots: Vec<RepositorySnapshot>,
    abs_path: RelPath,
    k: int,
    located: Option<LocatedPath>,
    entry: Option<StatusEntry>,
    r: Option<FileStatus>,
)
    requires
        call_ensures(GitStore::project_path_git_status, (&store, &snapshots, &abs_path), r),
        call_ensures(GitStore::repository_and_path_for_project_path, (&store, &abs_path), located),
        located is Some ==> 0 <= k < snapshots@.len() && snapshots@[k].id
            == located->0.repository_id && (forall|j: int|
            0 <= j < k ==> (#[trigger] snapshots@[j]).id != located->0.repository_id)
            && call_ensures(
            RepositorySnapshot::status_for_path,
            (&snapshots@[k], &located->0.repo_path),
            entry,
        ),
    ensures
        located is None ==> r is None,
        located is Some ==> r == (match entry {
            Some(entry) => Some(entry.status),
            None => None,
        }),
{
    if let Some(located) = located {
        lemma_snapshot_index(snapshots@, located.repository_id);
        let i: int = snapshot_index(snapshots@, located.repository_id);
        if i < k {
            assert(snapshots@[i].id != located.repository_id);
        }
    }
}

/// A repository that is removed is gone, the others stay, and it is the active one no more.
pub proof fn law_removed_repository_is_gone(
    store: &mut GitStore,
    id: RepositoryId,
    r: Vec<GitStoreEvent>,
)
    requires
        call_ensures(GitStore::handle_remove_repository, (store, id), r),
        forall|i: int, j: int|
            0 <= i < j < old(store).repositories@.len() ==> (
            #[trigger] old(store).repositories@[i]).id != (
            #[trigger] old(store).repositories@[j]).id,
    ensures
        forall|i: int|
            0 <= i < final(store).repositories@.len() ==> (
            #[trigger] final(store).repositories@[i]).id != id,
        forall|i: int|
            0 <= i < old(store).repositories@.len() && (
            #[trigger] old(store).repositories@[i]).id != id ==> final(store).repositories@.contains(old(store).repositories@[i]),
        final(store).active_repo_id != Some(id),
        old(store).active_repo_id != Some(id) ==> final(store).active_repo_id == old(
            store,
        ).active_repo_id,
        r@.last() == GitStoreEvent::RepositoryRemoved(id),
        old(store).active_repo_id == Some(id) <==> r@.contains(
            GitStoreEvent::ActiveRepositoryChanged(None),
        ),
{
    let before = old(store).repositories@;
    let after = final(store).repositories@;
    lemma_repository_index(before, id);
    let at: int = repository_index(before, id);
    if at < before.len() {
        assert(after == before.remove(at));
        assert forall|i: int| 0 <= i < after.len() implies (#[trigger] after[i]).id != id by {
            if i < at {
                assert(after[i] == before[i]);
            } else {
                assert(after[i] == before[i + 1]);
                assert(before[at].id != before[i + 1].id);
            }
        }
    }
    assert forall|i: int| 0 <= i < before.len() && (#[trigger] before[i]).id
        != id implies after.contains(before[i]) by {
        if at < before.len() {
            if i < at {
                assert(after[i] == before[i]);
            } else {
                assert(after[i - 1] == before[i]);
            }
        } else {
            assert(after[i] == before[i]);
        }
    }
    if old(store).active_repo_id == Some(id) {
        assert(r@[0] == GitStoreEvent::ActiveRepositoryChanged(None));
    } else {
        assert(r@.len() == 1 && r@[0] == GitStoreEvent::RepositoryRemoved(id));
    }
}

proof fn lemma_repository_index(repositories: Seq<RepositoryInfo>, id: RepositoryId)
    ensures
        0 <= repository_index(repositories, id) <= repositories.len(),
        repository_index(repositories, id) < repositories.len()
            ==> repositories[repository_index(repositories, id)].id == id,
        forall|k: int|
            0 <= k < repository_index(repositories, id) ==> (#[trigger] repositories[k]).id != id,
    decreases repositories.len(),
{
    if repositories.len() > 0 && repositories.first().id != id {
        let rest = repositories.drop_first();
        lemma_repository_index(rest, id);
        assert forall|k: int| 0 <= k < repository_index(repositories, id) implies (
        #[trigger] repositories[k]).id != id by {
            if k > 0 {
                assert(rest[k - 1] == repositories[k]);
            }
        }
        if repository_index(rest, id) < rest.len() {
            assert(rest[repository_index(rest, id)] == repositories[repository_index(rest, id)
                + 1]);
        }
    }
}

/// A repository becomes the active one if it is there, and then that is told.
pub proof fn law_chosen_repository_is_active(
    store: &mut GitStore,
    id: RepositoryId,
    r: Option<GitStoreEvent>,
)
    requires
        call_ensures(GitStore::set_as_active_repository, (store, id), r),
    ensures
        final(store).repositories == old(store).repositories,
        (exists|i: int|
            0 <= i < old(store).repositories@.len() && (
            #[trigger] old(store).repositories@[i]).id == id) ==> final(store).active_repo_id
            == Some(id) && r == Some(GitStoreEvent::ActiveRepositoryChanged(Some(id))),
        (forall|i: int|
            0 <= i < old(store).repositories@.len() ==> (
            #[trigger] old(store).repositories@[i]).id != id) ==> final(store).active_repo_id
            == old(store).active_repo_id && r is None,
{
    let all = old(store).repositories@;
    lemma_repository_index(all, id);
    let at: int = repository_index(all, id);
    if at < all.len() {
        assert(all[at].id == id);
    }
}

/// Whether some repository has a work directory.
pub open spec fn is_work_directory(repositories: Seq<RepositoryInfo>, dir: Seq<Seq<char>>) -> bool {
    exists|i: int|
        0 <= i < repositories.len() && (#[trigger] repositories[i]).work_directory_abs_path@ == dir
}

proof fn lemma_restored(
    repositories: Seq<RepositoryInfo>,
    checkpoints: Seq<RepositoryCheckpoint>,
    i: int,
)
    requires
        0 <= i < checkpoints.len(),
        has_directory(repositories, checkpoints[i].work_directory_abs_path@),
    ensures
        to_restore(repositories, checkpoints).contains(checkpoints[i].checkpoint),
    decreases checkpoints.len(),
{
    let init = checkpoints.drop_last();
    let rest = to_restore(repositories, init);
    let all = to_restore(repositories, checkpoints);
    if i == checkpoints.len() - 1 {
        assert(all[rest.len() as int] == checkpoints[i].checkpoint);
    } else {
        assert(init[i] == checkpoints[i]);
        lemma_restored(repositories, init, i);
        let k: int = choose|k: int| 0 <= k < rest.len() && rest[k] == checkpoints[i].checkpoint;
        assert(all[k] == checkpoints[i].checkpoint);
    }
}

proof fn lemma_restored_was_there(
    repositories: Seq<RepositoryInfo>,
    checkpoints: Seq<RepositoryCheckpoint>,
    k: int,
)
    requires
        0 <= k < to_restore(repositories, checkpoints).len(),
    ensures
        exists|i: int|
            0 <= i < checkpoints.len() && (#[trigger] checkpoints[i]).checkpoint == to_restore(
                repositories,
                checkpoints,
            )[k] && has_directory(repositories, checkpoints[i].work_directory_abs_path@),
    decreases checkpoints.len(),
{
    let init = checkpoints.drop_last();
    let rest = to_restore(repositories, init);
    let all = to_restore(repositories, checkpoints);
    if k < rest.len() {
        lemma_restored_was_there(repositories, init, k);
        let i: int = choose|i: int|
            0 <= i < init.len() && (#[trigger] init[i]).checkpoint == rest[k] && has_directory(
                repositories,
                init[i].work_directory_abs_path@,
            );
        assert(checkpoints[i].checkpoint == all[k]);
    } else {
        assert(checkpoints[checkpoints.len() - 1].checkpoint == all[k]);
    }
}

/// A checkpoint is taken of every repository, under its work directory. Those are restored
/// whose directory is still that of a repository, and no others.
pub proof fn law_checkpoints_are_taken_and_restored(
    store: GitStore,
    numbers: Vec<u64>,
    taken: Vec<RepositoryCheckpoint>,
    checkpoints: Vec<RepositoryCheckpoint>,
    restored: Vec<u64>,
)
    requires
        numbers@.len() == store.repositories@.len(),
        call_ensures(GitStore::checkpoint, (&store, &numbers), taken),
        call_ensures(GitStore::restore_checkpoint, (&store, &checkpoints), restored),
    ensures
        taken@.len() == store.repositories@.len(),
        forall|i: int|
            0 <= i < taken@.len() ==> (#[trigger] taken@[i]).work_directory_abs_path
                == store.repositories@[i].work_directory_abs_path && taken@[i].checkpoint
                == numbers@[i],
        forall|i: int|
            0 <= i < checkpoints@.len() && is_work_directory(
                store.repositories@,
                (#[trigger] checkpoints@[i]).work_directory_abs_path@,
            ) ==> restored@.contains(checkpoints@[i].checkpoint),
        forall|k: int|
            0 <= k < restored@.len() ==> can_be_restored(
                store.repositories@,
                checkpoints@,
                #[trigger] restored@[k],
            ),
{
    let all = store.repositories@;
    assert forall|dir: Seq<Seq<char>>| is_work_directory(all, dir) == #[trigger] has_directory(
        all,
        dir,
    ) by {}
    assert forall|i: int|
        0 <= i < checkpoints@.len() && is_work_directory(
            all,
            (#[trigger] checkpoints@[i]).work_directory_abs_path@,
        ) implies restored@.contains(checkpoints@[i].checkpoint) by {
        lemma_restored(all, checkpoints@, i);
    }
    assert forall|k: int| 0 <= k < restored@.len() implies can_be_restored(
        all,
        checkpoints@,
        #[trigger] restored@[k],
    ) by {
        lemma_restored_was_there(all, checkpoints@, k);
        let i: int = choose|i: int|
            0 <= i < checkpoints@.len() && (#[trigger] checkpoints@[i]).checkpoint == restored@[k]
                && has_directory(all, checkpoints@[i].work_directory_abs_path@);
        assert(is_work_directory(all, checkpoints@[i].work_directory_abs_path@));
    }
}

/// Whether a number is that of a checkpoint whose directory is that of a repository.
pub open spec fn can_be_restored(
    repositories: Seq<RepositoryInfo>,
    checkpoints: Seq<RepositoryCheckpoint>,
    number: u64,
) -> bool {
    exists|i: int|
        0 <= i < checkpoints.len() && (#[trigger] checkpoints[i]).checkpoint == number
            && is_work_directory(repositories, checkpoints[i].work_directory_abs_path@)
}

proof fn lemma_checkpoint_index(checkpoints: Seq<RepositoryCheckpoint>, dir: Seq<Seq<char>>)
    ensures
        0 <= checkpoint_index(checkpoints, dir) <= checkpoints.len(),
        checkpoint_index(checkpoints, dir) < checkpoints.len() <==> covers_dir(checkpoints, dir),
        checkpoint_index(checkpoints, dir) < checkpoints.len() ==> checkpoints[checkpoint_index(
            checkpoints,
            dir,
        )].work_directory_abs_path@ == dir,
    decreases checkpoints.len(),
{
    if checkpoints.len() > 0 {
        if checkpoints.first().work_directory_abs_path@ == dir {
            assert(checkpoints[0].work_directory_abs_path@ == dir);
        } else {
            let rest = checkpoints.drop_first();
            lemma_checkpoint_index(rest, dir);
            if covers_dir(rest, dir) {
                let i: int = choose|i: int|
                    0 <= i < rest.len() && (#[trigger] rest[i]).work_directory_abs_path@ == dir;
                assert(checkpoints[i + 1].work_directory_abs_path@ == dir);
            }
            if covers_dir(checkpoints, dir) {
                let i: int = choose|i: int|
                    0 <= i < checkpoints.len() && (
                    #[trigger] checkpoints[i]).work_directory_abs_path@ == dir;
                assert(rest[i - 1].work_directory_abs_path@ == dir);
            }
        }
    }
}

/// Whether some checkpoint is one of a work directory.
pub open spec fn covers_dir(checkpoints: Seq<RepositoryCheckpoint>, dir: Seq<Seq<char>>) -> bool {
    exists|i: int|
        0 <= i < checkpoints.len() && (#[trigger] checkpoints[i]).work_directory_abs_path@ == dir
}

proof fn lemma_compared(
    repositories: Seq<RepositoryInfo>,
    left: Seq<RepositoryCheckpoint>,
    right: Seq<RepositoryCheckpoint>,
)
    ensures
        to_compare(repositories, left, right) is Some <==> forall|i: int|
            0 <= i < left.len() ==> covers_dir(right, (#[trigger] left[i]).work_directory_abs_path@),
        to_compare(repositories, left, right) matches Some(pairs) ==> forall|k: int|
            0 <= k < pairs.len() ==> is_pair(left, right, #[trigger] pairs[k]),
        to_compare(repositories, left, right) matches Some(pairs) ==> forall|i: int|
            0 <= i < left.len() && has_directory(
                repositories,
                (#[trigger] left[i]).work_directory_abs_path@,
            ) ==> first_of_pair(pairs, left[i].checkpoint),
    decreases left.len(),
{
    if left.len() > 0 {
        let init = left.drop_last();
        let last = left.last();
        lemma_compared(repositories, init, right);
        lemma_checkpoint_index(right, last.work_directory_abs_path@);
        let all = to_compare(repositories, left, right);
        assert(left[left.len() - 1] == last);
        assert forall|i: int| 0 <= i < init.len() implies #[trigger] init[i] == left[i] by {}
        if all is None {
            if to_compare(repositories, init, right) is None {
                let i: int = choose|i: int|
                    0 <= i < init.len() && !covers_dir(
                        right,
                        (#[trigger] init[i]).work_directory_abs_path@,
                    );
                assert(left[i] == init[i]);
            }
        }
        if let Some(pairs) = all {
            let before = to_compare(repositories, init, right)->0;
            assert forall|i: int| 0 <= i < left.len() implies covers_dir(
                right,
                (#[trigger] left[i]).work_directory_abs_path@,
            ) by {
                if i < init.len() {
                    assert(init[i] == left[i]);
                }
            }
            assert forall|k: int| 0 <= k < pairs.len() implies is_pair(
                left,
                right,
                #[trigger] pairs[k],
            ) by {
                if k < before.len() {
                    assert(pairs[k] == before[k]);
                    assert(is_pair(init, right, before[k]));
                    let (i, j): (int, int) = choose|i: int, j: int|
                        0 <= i < init.len() && 0 <= j < right.len() && pairs_up(
                            #[trigger] init[i],
                            #[trigger] right[j],
                            before[k],
                        );
                    assert(pairs_up(left[i], right[j], pairs[k]));
                } else {
                    let j: int = checkpoint_index(right, last.work_directory_abs_path@);
                    assert(pairs_up(left[left.len() - 1], right[j], pairs[k]));
                }
            }
            assert forall|i: int|
                0 <= i < left.len() && has_directory(
                    repositories,
                    (#[trigger] left[i]).work_directory_abs_path@,
                ) implies first_of_pair(pairs, left[i].checkpoint) by {
                if i < init.len() {
                    assert(init[i] == left[i]);
                    let k: int = choose|k: int|
                        0 <= k < before.len() && (#[trigger] before[k]).0 == left[i].checkpoint;
                    assert(pairs[k] == before[k]);
                } else {
                    assert(pairs[before.len() as int].0 == left[i].checkpoint);
                }
            }
        }
    }
}

/// Whether two checkpoints of one work directory are compared as a pair.
pub open spec fn pairs_up(a: RepositoryCheckpoint, b: RepositoryCheckpoint, pair: (u64, u64)) -> bool {
    a.work_directory_abs_path@ == b.work_directory_abs_path@ && pair.0 == a.checkpoint && pair.1
        == b.checkpoint
}

/// Whether a pair is made of a checkpoint of each side.
pub open spec fn is_pair(
    left: Seq<RepositoryCheckpoint>,
    right: Seq<RepositoryCheckpoint>,
    pair: (u64, u64),
) -> bool {
    exists|i: int, j: int|
        0 <= i < left.len() && 0 <= j < right.len() && pairs_up(
            #[trigger] left[i],
            #[trigger] right[j],
            pair,
        )
}

/// Whether a checkpoint is the first one of a pair.
pub open spec fn first_of_pair(pairs: Seq<(u64, u64)>, checkpoint: u64) -> bool {
    exists|k: int| 0 <= k < pairs.len() && (#[trigger] pairs[k]).0 == checkpoint
}

/// Two sets of checkpoints are compared directory by directory: the checkpoints of one
/// directory with each other, for every repository. Where one side has a directory that the
/// other one lacks they differ, and nothing is compared.
pub proof fn law_checkpoints_are_compared_by_directory(
    store: GitStore,
    left: Vec<RepositoryCheckpoint>,
    right: Vec<RepositoryCheckpoint>,
    r: Option<Vec<(u64, u64)>>,
)
    requires
        call_ensures(GitStore::compare_checkpoints, (&store, &left, &right), r),
    ensures
        r is Some <==> (forall|i: int|
            0 <= i < left@.len() ==> covers_dir(
                right@,
                (#[trigger] left@[i]).work_directory_abs_path@,
            )) && (forall|i: int|
            0 <= i < right@.len() ==> covers_dir(
                left@,
                (#[trigger] right@[i]).work_directory_abs_path@,
            )),
        r matches Some(pairs) ==> forall|k: int|
            0 <= k < pairs@.len() ==> is_pair(left@, right@, #[trigger] pairs@[k]),
        r matches Some(pairs) ==> forall|i: int|
            0 <= i < left@.len() && is_work_directory(
                store.repositories@,
                (#[trigger] left@[i]).work_directory_abs_path@,
            ) ==> first_of_pair(pairs@, left@[i].checkpoint),
{
    let all = store.repositories@;
    lemma_compared(all, left@, right@);
    assert forall|dir: Seq<Seq<char>>| is_work_directory(all, dir) == #[trigger] has_directory(
        all,
        dir,
    ) by {}
    assert forall|i: int| 0 <= i < right@.len() implies covers_dir(
        left@,
        (#[trigger] right@[i]).work_directory_abs_path@,
    ) == (checkpoint_index(left@, right@[i].work_directory_abs_path@) < left@.len()) by {
        lemma_checkpoint_index(left@, right@[i].work_directory_abs_path@);
    }
}

proof fn lemma_chosen_is_wanted(entries: Seq<StagedEntry>, to_stage: bool, k: int)
    requires
        0 <= k < chosen_paths(entries, to_stage).len(),
    ensures
        exists|i: int|
            0 <= i < entries.len() && (#[trigger] entries[i]).repo_path == chosen_paths(
                entries,
                to_stage,
            )[k] && (if to_stage {
                !(entries[i].staging is Staged)
            } else {
                !(entries[i].staging is Unstaged)
            }),
    decreases entries.len(),
{
    let init = entries.drop_last();
    let rest = chosen_paths(init, to_stage);
    let all = chosen_paths(entries, to_stage);
    if k < rest.len() {
        lemma_chosen_is_wanted(init, to_stage, k);
        let i: int = choose|i: int|
            0 <= i < init.len() && (#[trigger] init[i]).repo_path == rest[k] && (if to_stage {
                !(init[i].staging is Staged)
            } else {
                !(init[i].staging is Unstaged)
            });
        assert(entries[i].repo_path == all[k]);
    } else {
        assert(entries[entries.len() - 1].repo_path == all[k]);
    }
}

/// Staging everything stages the files that are not fully staged, and no others. Unstaging
/// everything unstages the files of which something is staged, and no others.
pub proof fn law_everything_is_staged_or_unstaged(
    entries: Vec<StagedEntry>,
    to_stage: Vec<Arc<RelPath>>,
    to_unstage: Vec<Arc<RelPath>>,
)
    requires
        call_ensures(stage_all, (&entries,), to_stage),
        call_ensures(unstage_all, (&entries,), to_unstage),
    ensures
        forall|i: int|
            0 <= i < entries@.len() && !((#[trigger] entries@[i]).staging is Staged)
                ==> to_stage@.contains(entries@[i].repo_path),
        forall|i: int|
            0 <= i < entries@.len() && !((#[trigger] entries@[i]).staging is Unstaged)
                ==> to_unstage@.contains(entries@[i].repo_path),
        forall|k: int|
            0 <= k < to_stage@.len() ==> is_not(
                entries@,
                #[trigger] to_stage@[k],
                StageStatus::Staged,
            ),
        forall|k: int|
            0 <= k < to_unstage@.len() ==> is_not(
                entries@,
                #[trigger] to_unstage@[k],
                StageStatus::Unstaged,
            ),
{
    assert forall|i: int| 0 <= i < entries@.len() implies ((#[trigger] entries@[i]).staging
        is Staged || to_stage@.contains(entries@[i].repo_path)) && (entries@[i].staging is Unstaged
        || to_unstage@.contains(entries@[i].repo_path)) by {
        crate::git_store::staging::law_every_file_is_chosen(entries@, i);
    }
    assert forall|k: int| 0 <= k < to_stage@.len() implies is_not(
        entries@,
        #[trigger] to_stage@[k],
        StageStatus::Staged,
    ) by {
        lemma_chosen_is_wanted(entries@, true, k);
    }
    assert forall|k: int| 0 <= k < to_unstage@.len() implies is_not(
        entries@,
        #[trigger] to_unstage@[k],
        StageStatus::Unstaged,
    ) by {
        lemma_chosen_is_wanted(entries@, false, k);
    }
}

/// Whether a path is that of a file that is staged otherwise.
pub open spec fn is_not(
    entries: Seq<StagedEntry>,
    path: Arc<RelPath>,
    staging: StageStatus,
) -> bool {
    exists|i: int|
        0 <= i < entries.len() && (#[trigger] entries[i]).repo_path == path && entries[i].staging
            != staging
}

proof fn lemma_saved(open: Seq<Option<OpenBuffer>>, i: int)
    requires
        0 <= i < open.len(),
        open[i] is Some,
        open[i]->0.exists_on_disk,
    ensures
        to_save(open).contains(open[i]->0.buffer_id),
    decreases open.len(),
{
    let init = open.drop_last();
    let rest = to_save(init);
    let all = to_save(open);
    if i == open.len() - 1 {
        assert(all[rest.len() as int] == open[i]->0.buffer_id);
    } else {
        assert(init[i] == open[i]);
        lemma_saved(init, i);
        let k: int = choose|k: int| 0 <= k < rest.len() && rest[k] == open[i]->0.buffer_id;
        assert(all[k] == open[i]->0.buffer_id);
    }
}

proof fn lemma_saved_is_open(open: Seq<Option<OpenBuffer>>, k: int)
    requires
        0 <= k < to_save(open).len(),
    ensures
        exists|i: int|
            0 <= i < open.len() && (#[trigger] open[i]) is Some && open[i]->0.exists_on_disk
                && open[i]->0.buffer_id == to_save(open)[k],
    decreases open.len(),
{
    let init = open.drop_last();
    let rest = to_save(init);
    let all = to_save(open);
    if k < rest.len() {
        lemma_saved_is_open(init, k);
        let i: int = choose|i: int|
            0 <= i < init.len() && (#[trigger] init[i]) is Some && init[i]->0.exists_on_disk
                && init[i]->0.buffer_id == rest[k];
        assert(open[i]->0.buffer_id == all[k]);
    } else {
        assert(open[open.len() - 1] is Some);
    }
}

/// Before files are staged or unstaged, the open buffers among them that exist on disk are
/// saved, and no others.
pub proof fn law_open_buffers_are_saved_first(
    entries: Vec<RelPath>,
    open: Vec<Option<OpenBuffer>>,
    staged: Option<StagePlan>,
    unstaged: Option<StagePlan>,
)
    requires
        open@.len() == entries@.len(),
        entries@.len() > 0,
        call_ensures(stage_entries, (entries, &open), staged),
        call_ensures(unstage_entries, (entries, &open), unstaged),
    ensures
        staged is Some && unstaged is Some,
        staged->0.save@ == unstaged->0.save@,
        forall|i: int|
            0 <= i < open@.len() && (#[trigger] open@[i]) is Some && open@[i]->0.exists_on_disk
                ==> staged->0.save@.contains(open@[i]->0.buffer_id),
        forall|k: int|
            0 <= k < staged->0.save@.len() ==> exists|i: int|
                0 <= i < open@.len() && (#[trigger] open@[i]) is Some
                    && open@[i]->0.exists_on_disk && open@[i]->0.buffer_id
                    == #[trigger] staged->0.save@[k],
{
    assert forall|i: int|
        0 <= i < open@.len() && (#[trigger] open@[i]) is Some
            && open@[i]->0.exists_on_disk implies staged->0.save@.contains(
        open@[i]->0.buffer_id,
    ) by {
        lemma_saved(open@, i);
    }
    assert forall|k: int| 0 <= k < staged->0.save@.len() implies exists|i: int|
        0 <= i < open@.len() && (#[trigger] open@[i]) is Some && open@[i]->0.exists_on_disk
            && open@[i]->0.buffer_id == #[trigger] staged->0.save@[k] by {
        lemma_saved_is_open(open@, k);
    }
}

} // verus!
