use std::sync::Arc;
use zed_core::collections::{VecMap, VecSet};
use zed_core::git_store::blame::{
    serialize_blame_buffer_response, Blame, BlameEntry, CommitMessage,
};
use zed_core::git_store::diff_state::{
    bases_from_proto, bases_to_proto, loaded_bases, reload_buffer_diff_bases, truncated_diff,
    uncommitted_diff_response, BaseText, BasesMode, BufferGitState, DiffBasesChange, DiffKind,
    UncommittedPlan, UpdateDiffBases, MAX_DIFF_LEN,
};
use zed_core::git_store::diffs::{
    BufferDiffs, BufferStoreEvent, BufferToCompare, DiffStore, LocatedBuffer, OpenedDiff, SharedDiffs, SharedKey,
    NO_REPOSITORY,
};
use zed_core::git_store::jobs::{ActiveJobs, GitJob, GitJobKey, GitJobQueue};
use zed_core::git_store::reload::BufferFile;
use zed_core::git_store::requests::{
    command_of, requester, AskPassDelegates, DiffType, GitCommand, GitRequest, GitRequestError,
    ResetMode,
};
use zed_core::git_store::snapshot::{
    branch_to_proto, commit_details_to_proto, Branch, CommitDetails, CommitSummary, RepositoryId,
    RepositorySnapshot,
};
use zed_core::git_store::staging::{
    stage_all, stage_entries, unstage_all, unstage_entries, OpenBuffer, StageStatus, StagedEntry,
};
use zed_core::git_store::status::{
    status_from_proto, FileStatus, StatusCode, StatusEntry, StatusError, TrackedStatus,
    UnmergedStatus, UnmergedStatusCode, WireFileStatus, WireStatus,
};
use zed_core::git_store::store::{
    DownstreamState, GitStore, GitStoreEvent, RepositoryCheckpoint, RepositoryEvent,
    UpdatedGitRepository,
};
use zed_core::path::RelPath;
use zed_core::rpc::peer::PeerId;

fn rel(path: &str) -> RelPath {
    RelPath {
        components: path
            .split('/')
            .filter(|name| !name.is_empty())
            .map(|name| name.to_string())
            .collect(),
    }
}

fn shared(path: &str) -> Arc<RelPath> {
    Arc::new(rel(path))
}

fn modified() -> FileStatus {
    FileStatus::Versioned(TrackedStatus {
        index_status: StatusCode::Unmodified,
        worktree_status: StatusCode::Modified,
    })
}

fn unmerged() -> FileStatus {
    FileStatus::Unmerged(UnmergedStatus {
        first_head: UnmergedStatusCode::Updated,
        second_head: UnmergedStatusCode::Updated,
    })
}

fn entry(path: &str, status: FileStatus) -> StatusEntry {
    StatusEntry {
        repo_path: shared(path),
        status,
    }
}

fn text(path: &RelPath) -> String {
    path.components.join("/")
}

#[test]
fn statuses_are_sent_and_read() {
    let codes = [
        StatusCode::Modified,
        StatusCode::TypeChanged,
        StatusCode::Added,
        StatusCode::Deleted,
        StatusCode::Renamed,
        StatusCode::Copied,
        StatusCode::Unmodified,
    ];
    let mut statuses = vec![FileStatus::Untracked, FileStatus::Ignored];
    for index_status in codes {
        for worktree_status in codes {
            statuses.push(FileStatus::Versioned(TrackedStatus {
                index_status,
                worktree_status,
            }));
        }
    }
    let heads = [
        UnmergedStatusCode::Added,
        UnmergedStatusCode::Deleted,
        UnmergedStatusCode::Updated,
    ];
    for first_head in heads {
        for second_head in heads {
            statuses.push(FileStatus::Unmerged(UnmergedStatus {
                first_head,
                second_head,
            }));
        }
    }
    for status in statuses {
        let wire = entry("a/b", status).to_proto();
        assert_eq!(wire.simple_status == WireStatus::Conflict, status.is_conflicted());
        let back = StatusEntry::from_proto(wire).unwrap();
        assert_eq!(back.status, status);
        assert_eq!(text(&back.repo_path), "a/b");
    }
}

#[test]
fn faulty_statuses_are_refused() {
    assert_eq!(
        status_from_proto(WireStatus::Unknown(44), None),
        Err(StatusError::InvalidCode(44))
    );
    assert_eq!(
        status_from_proto(WireStatus::Copied, None),
        Err(StatusError::InvalidSimple(WireStatus::Copied))
    );
    assert_eq!(
        status_from_proto(
            WireStatus::Added,
            Some(WireFileStatus::Unmerged {
                first_head: WireStatus::Modified,
                second_head: WireStatus::Added,
            })
        ),
        Err(StatusError::InvalidUnmerged(WireStatus::Modified))
    );
    assert_eq!(
        status_from_proto(
            WireStatus::Added,
            Some(WireFileStatus::Versioned {
                index_status: WireStatus::Added,
                worktree_status: WireStatus::Conflict,
            })
        ),
        Err(StatusError::InvalidTracked(WireStatus::Conflict))
    );
    assert_eq!(status_from_proto(WireStatus::Modified, None), Ok(modified()));
}

fn snapshot(entries: Vec<StatusEntry>) -> RepositorySnapshot {
    let mut snapshot = RepositorySnapshot::empty(RepositoryId(1), shared("work/repo"));
    snapshot.statuses_by_path = entries;
    snapshot
}

#[test]
fn updates_bring_peers_up_to_date() {
    let old = snapshot(vec![
        entry("a", modified()),
        entry("b", modified()),
        entry("d", FileStatus::Untracked),
    ]);
    let new = snapshot(vec![
        entry("a", modified()),
        entry("b", FileStatus::Untracked),
        entry("c", modified()),
    ]);
    let update = new.build_update(&old, 7);
    let updated: Vec<String> = update.updated_statuses.iter().map(|e| text(&e.repo_path)).collect();
    let removed: Vec<String> = update.removed_statuses.iter().map(|path| text(path)).collect();
    assert_eq!(updated, vec!["b", "c"]);
    assert_eq!(removed, vec!["d"]);
    assert_eq!((update.project_id, update.id, update.is_last_update), (7, 1, true));
    let nothing = new.build_update(&new, 7);
    assert!(nothing.updated_statuses.is_empty() && nothing.removed_statuses.is_empty());
    let all = new.initial_update(7);
    assert_eq!(all.updated_statuses.len(), 3);
    assert!(all.removed_statuses.is_empty());
    let mut downstream = DownstreamState::new();
    assert_eq!(downstream.update_repository(old, 7).updated_statuses.len(), 3);
    assert_eq!(downstream.update_repository(new, 7).updated_statuses.len(), 2);
}

#[test]
fn statuses_are_refreshed() {
    let mut repo = snapshot(vec![entry("a", modified()), entry("b", modified()), entry("c", modified())]);
    let examined = vec![shared("a"), shared("b"), shared("x")];
    let statuses = vec![entry("a", modified()), entry("x", FileStatus::Untracked)];
    assert!(repo.refresh_statuses(&examined, &statuses));
    let left: Vec<String> = repo.status().iter().map(|e| text(&e.repo_path)).collect();
    assert_eq!(left, vec!["a", "c", "x"]);
    assert_eq!(repo.scan_id, 1);
    assert!(!repo.refresh_statuses(&vec![shared("a")], &vec![entry("a", modified())]));
    assert_eq!(repo.scan_id, 1);
    assert_eq!(repo.status_for_path(&rel("x")).unwrap().status, FileStatus::Untracked);
    assert!(repo.status_for_path(&rel("b")).is_none());
}

#[test]
fn conflicts_are_remembered() {
    let mut repo = snapshot(vec![entry("a", unmerged())]);
    assert!(repo.has_conflict(&rel("a")));
    assert!(!repo.had_conflict_on_last_merge_head_change(&rel("a")));
    assert!(!repo.has_conflict(&rel("b")));
    repo.conflicted_paths.insert(shared("b"));
    assert!(repo.has_conflict(&rel("b")));
    assert_eq!(repo.display_name(), "repo");
}

#[test]
fn paths_inside_and_outside_of_repositories() {
    let repo = snapshot(vec![]);
    let abs = repo.repo_path_to_abs_path(&rel("src/lib.rs"));
    assert_eq!(text(&abs), "work/repo/src/lib.rs");
    assert_eq!(text(&repo.abs_path_to_repo_path(&abs).unwrap()), "src/lib.rs");
    assert!(repo.abs_path_to_repo_path(&rel("work/other")).is_none());
    assert_eq!(RepositoryId::from_proto(RepositoryId(9).to_proto()), RepositoryId(9));
}

#[test]
fn branches_and_commits_are_sent() {
    let branch = Branch {
        is_head: true,
        ref_name: "refs/heads/main".to_string(),
        upstream: None,
        most_recent_commit: Some(CommitSummary {
            sha: "abc".to_string(),
            subject: "first".to_string(),
            commit_timestamp: 5,
        }),
    };
    let wire = branch_to_proto(&branch);
    assert!(wire.is_head);
    assert_eq!(wire.ref_name, "refs/heads/main");
    assert_eq!(wire.unix_timestamp, Some(5));
    let commit = CommitDetails {
        sha: "abc".to_string(),
        message: "m".to_string(),
        commit_timestamp: 6,
        author_email: "e".to_string(),
        author_name: "n".to_string(),
    };
    let sent = commit_details_to_proto(&commit);
    assert_eq!((sent.sha.as_str(), sent.commit_timestamp), ("abc", 6));
}

fn added(path: &str) -> UpdatedGitRepository {
    UpdatedGitRepository {
        old_work_directory_abs_path: None,
        new_work_directory_abs_path: Some(shared(path)),
        can_open: true,
    }
}

#[test]
fn repositories_come_move_and_go() {
    let mut store = GitStore::new();
    let (events, lost, changed) = store.on_worktree_store_event(Some(true), &vec![added("a"), added("a/b")]);
    assert_eq!(store.repositories.len(), 2);
    assert!(lost.is_empty());
    assert_eq!(changed, vec![RepositoryId(1), RepositoryId(2)]);
    assert!(events
        .iter()
        .any(|event| matches!(event, GitStoreEvent::ActiveRepositoryChanged(Some(id)) if *id == RepositoryId(1))));
    assert_eq!(store.active_repository(), Some(0));
    // A worktree that is not visible adds nothing.
    let (events, _, _) = store.on_worktree_store_event(Some(false), &vec![added("c")]);
    assert!(events.is_empty());
    assert_eq!(store.on_worktree_store_event(None, &vec![added("c")]).0.len(), 0);
    let moved = UpdatedGitRepository {
        old_work_directory_abs_path: Some(shared("a/b")),
        new_work_directory_abs_path: Some(shared("a/c")),
        can_open: true,
    };
    store.update_repositories_from_worktree(&vec![moved]);
    assert_eq!(text(&store.repositories[1].work_directory_abs_path), "a/c");
    let gone = UpdatedGitRepository {
        old_work_directory_abs_path: Some(shared("a")),
        new_work_directory_abs_path: None,
        can_open: true,
    };
    let (_, lost) = store.update_repositories_from_worktree(&vec![gone]);
    assert_eq!(lost, vec![RepositoryId(1)]);
    assert_eq!(store.repositories.len(), 1);
}

fn store_of(paths: &[&str]) -> GitStore {
    let mut store = GitStore::new();
    let updates = paths.iter().map(|path| added(path)).collect();
    store.update_repositories_from_worktree(&updates);
    store
}

#[test]
fn files_belong_to_the_innermost_repository() {
    let store = store_of(&["a", "a/b", "z"]);
    let located = store.repository_and_path_for_project_path(&rel("a/b/c.rs")).unwrap();
    assert_eq!(located.repository_id, RepositoryId(2));
    assert_eq!(text(&located.repo_path), "c.rs");
    let located = store.repository_and_path_for_project_path(&rel("a/x")).unwrap();
    assert_eq!(located.repository_id, RepositoryId(1));
    assert!(store.repository_and_path_for_project_path(&rel("q")).is_none());
    let mut known = RepositorySnapshot::empty(located.repository_id, shared("a"));
    known.statuses_by_path = vec![entry("x", modified())];
    let known = vec![known];
    assert_eq!(store.project_path_git_status(&known, &rel("a/x")), Some(modified()));
    assert_eq!(store.project_path_git_status(&known, &rel("a/y")), None);
    assert_eq!(store.project_path_git_status(&known, &rel("a/b/c.rs")), None);
    assert!(GitStore::contains_sub_repo(&store.repositories[0], &store.repositories[1]));
    assert!(!GitStore::contains_sub_repo(&store.repositories[2], &store.repositories[1]));
    let groups = store.changed_files(&vec![rel("a/b/1"), rel("z/2"), rel("q"), rel("a/b/3")]);
    let shown: Vec<(u64, Vec<String>)> = groups
        .iter()
        .map(|group| (group.repository_id.0, group.repo_paths.iter().map(|path| text(path)).collect()))
        .collect();
    assert_eq!(
        shown,
        vec![
            (2, vec!["1".to_string(), "3".to_string()]),
            (3, vec!["2".to_string()]),
        ]
    );
}

#[test]
fn peers_change_the_active_repository() {
    let mut store = store_of(&["a", "b"]);
    assert!(matches!(
        store.set_as_active_repository(RepositoryId(2)),
        Some(GitStoreEvent::ActiveRepositoryChanged(Some(RepositoryId(2))))
    ));
    assert!(store.set_as_active_repository(RepositoryId(9)).is_none());
    assert!(store.handle_update_repository(RepositoryId(1)).is_none());
    let event = store.on_repository_event(RepositoryId(2), RepositoryEvent::MergeHeadsChanged);
    assert!(matches!(event, GitStoreEvent::RepositoryUpdated(RepositoryId(2), _, true)));
    let events = store.handle_remove_repository(RepositoryId(2));
    assert_eq!(events.len(), 2);
    assert_eq!(store.active_repo_id, None);
    assert!(store.handle_update_repository(RepositoryId(1)).is_some());
    assert_eq!(store.repository_for_request(RepositoryId(1)), Ok(0));
    assert_eq!(
        store.repository_for_request(RepositoryId(2)),
        Err(GitRequestError::MissingRepository)
    );
    assert_eq!(GitRequestError::MissingRepository.text(), "missing repository handle");
}

#[test]
fn checkpoints_are_restored() {
    let store = store_of(&["a", "b"]);
    let taken = store.checkpoint(&vec![10, 20]);
    assert_eq!(store.restore_checkpoint(&taken), vec![10, 20]);
    assert_eq!(store.compare_checkpoints(&taken, &taken), Some(vec![(10, 10), (20, 20)]));
    let other = vec![RepositoryCheckpoint {
        work_directory_abs_path: shared("a"),
        checkpoint: 11,
    }];
    // Either side may have a directory that the other one lacks.
    assert_eq!(store.compare_checkpoints(&other, &taken), None);
    assert_eq!(store.compare_checkpoints(&Vec::new(), &other), None);
    assert_eq!(
        store.compare_checkpoints(&other, &store_of(&["a"]).checkpoint(&vec![10])),
        Some(vec![(11, 10)])
    );
    assert_eq!(store.compare_checkpoints(&taken, &other), None);
    let gone = store_of(&["b"]);
    assert_eq!(gone.restore_checkpoint(&taken), vec![20]);
}

fn job(id: u64, key: Option<GitJobKey>) -> GitJob {
    GitJob { id, key }
}

#[test]
fn last_job_of_a_kind_runs() {
    let mut queue = GitJobQueue::new();
    queue.push(job(1, Some(GitJobKey::RefreshStatuses)));
    queue.push(job(2, None));
    queue.push(job(3, Some(GitJobKey::WriteIndex(shared("a")))));
    queue.push(job(4, Some(GitJobKey::WriteIndex(shared("b")))));
    queue.push(job(5, Some(GitJobKey::RefreshStatuses)));
    queue.push(job(6, Some(GitJobKey::WriteIndex(shared("a")))));
    let mut order = Vec::new();
    while let Some(job) = queue.next() {
        order.push(job.id);
    }
    assert_eq!(order, vec![2, 4, 5, 6]);
    assert!(!GitJobKey::RefreshStatuses.same(&GitJobKey::ReloadBufferDiffBases));
}

#[test]
fn running_jobs_are_shown() {
    let mut jobs = ActiveJobs::new();
    assert!(jobs.current_job().is_none());
    let (a, b) = (jobs.assign_id(), jobs.assign_id());
    assert_eq!((a, b), (0, 1));
    jobs.started(a, 100, None);
    assert!(jobs.current_job().is_none());
    jobs.started(b, 101, Some(Arc::new("git commit".to_string())));
    assert_eq!(jobs.current_job().unwrap().message.as_str(), "git commit");
    jobs.finished(b);
    assert!(jobs.current_job().is_none());
}

fn some(text: &str) -> Option<String> {
    Some(text.to_string())
}

fn arc(text: &str) -> Option<Arc<String>> {
    Some(Arc::new(text.to_string()))
}

#[test]
fn changed_texts_are_told_apart() {
    let index = Some(arc("i"));
    let head = Some(arc("h"));
    let changed = |i: &str, h: &str| reload_buffer_diff_bases(&index, &head, some(i), some(h));
    assert!(changed("i", "h").is_none());
    assert!(matches!(changed("x", "h"), Some(DiffBasesChange::SetIndex(Some(t))) if t == "x"));
    assert!(matches!(changed("i", "y"), Some(DiffBasesChange::SetHead(Some(t))) if t == "y"));
    assert!(matches!(changed("z", "z"), Some(DiffBasesChange::SetBoth(Some(t))) if t == "z"));
    assert!(matches!(
        changed("x", "y"),
        Some(DiffBasesChange::SetEach { index: Some(i), head: Some(h) }) if i == "x" && h == "y"
    ));
    // Texts that are not compared do not count.
    assert!(reload_buffer_diff_bases(&None, &None, some("x"), some("y")).is_none());
    assert!(matches!(loaded_bases(some("a"), some("a")), DiffBasesChange::SetBoth(_)));
    assert!(matches!(loaded_bases(some("a"), None), DiffBasesChange::SetEach { .. }));
}

#[test]
fn texts_settle_after_a_reload() {
    let mut state = BufferGitState::new();
    state.diff_bases_changed(Some(DiffBasesChange::SetEach {
        index: some("a\n"),
        head: some("b\n"),
    }));
    let index = Some(state.index_text.clone());
    let head = Some(state.head_text.clone());
    assert!(reload_buffer_diff_bases(&index, &head, some("a\n"), some("b\n")).is_none());
    // Carriage returns are not compared.
    state.diff_bases_changed(Some(DiffBasesChange::SetIndex(some("a\r\nb"))));
    assert_eq!(state.index_text, arc("a\nb"));
}

#[test]
fn changes_of_texts_are_sent() {
    let changes = [
        DiffBasesChange::SetIndex(some("i")),
        DiffBasesChange::SetHead(None),
        DiffBasesChange::SetEach {
            index: some("i"),
            head: some("h"),
        },
        DiffBasesChange::SetBoth(some("b")),
    ];
    for change in changes {
        let before = format!("{:?}", change);
        assert_eq!(format!("{:?}", bases_from_proto(bases_to_proto(change))), before);
    }
    let base = |id: u64, text: &str| {
        Some(BaseText {
            id,
            text: text.to_string(),
        })
    };
    let same = uncommitted_diff_response(base(1, "t"), base(1, "t"));
    assert_eq!(same.mode, BasesMode::IndexMatchesHead);
    assert_eq!((same.committed_text, same.staged_text), (some("t"), None));
    let other = uncommitted_diff_response(base(1, "t"), base(2, "u"));
    assert_eq!(other.mode, BasesMode::IndexAndHead);
    assert_eq!(other.staged_text, some("u"));
    let without = uncommitted_diff_response(None, base(2, "u"));
    assert_eq!((without.committed_text, without.staged_text), (None, some("u")));
}

#[test]
fn long_diffs_are_cut() {
    assert_eq!(truncated_diff("short".to_string()), "short");
    let long = "x".repeat(MAX_DIFF_LEN + 5);
    assert_eq!(truncated_diff(long).len(), MAX_DIFF_LEN);
    // The limit counts characters once it is passed in bytes.
    let wide = "\u{e9}".repeat(MAX_DIFF_LEN - 1);
    assert_eq!(truncated_diff(wide.clone()), wide);
}

#[test]
fn recalculation_waits_for_staged_hunks() {
    let mut state = BufferGitState::new();
    state.diff_bases_changed(Some(DiffBasesChange::SetBoth(some("t"))));
    let plan = state.recalculate_diffs(true, true);
    assert!(state.recalculating);
    assert_eq!(plan.uncommitted, UncommittedPlan::SameAsUnstaged);
    assert!(plan.index_changed && plan.head_changed);
    assert_eq!(state.hunks_staged_or_unstaged(), 1);
    assert!(!state.may_finish_recalculation(plan));
    assert!(!state.recalculating);
    state.index_written(1);
    let plan = state.recalculate_diffs(true, true);
    assert!(state.may_finish_recalculation(plan));
    let later = state.recalculate_diffs(true, true);
    // A comparison that was given up changes nothing.
    assert!(!state.may_finish_recalculation(plan));
    state.finish_recalculation(plan);
    assert!(state.index_changed && state.recalculating);
    assert!(state.may_finish_recalculation(later));
    state.finish_recalculation(later);
    assert!(!state.index_changed && !state.recalculating);
    state.diff_bases_changed(Some(DiffBasesChange::SetIndex(some("u"))));
    assert_eq!(state.recalculate_diffs(true, true).uncommitted, UncommittedPlan::Compute);
    assert_eq!(state.recalculate_diffs(true, false).uncommitted, UncommittedPlan::Skip);
}

fn live(ids: &[u64]) -> VecSet<u64> {
    VecSet::from_items(&ids.to_vec())
}

#[test]
fn diffs_are_loaded_once_and_found_again() {
    let mut store = DiffStore::new();
    assert_eq!(store.open_uncommitted_diff(1, &live(&[]), false), OpenedDiff::NoRepository);
    assert!(NO_REPOSITORY.contains("git repository"));
    assert_eq!(store.open_uncommitted_diff(1, &live(&[]), true), OpenedDiff::Load);
    assert_eq!(store.open_uncommitted_diff(1, &live(&[]), true), OpenedDiff::Loading);
    assert_eq!(store.open_unstaged_diff(1, &live(&[]), true), OpenedDiff::Load);
    let installed = store
        .open_diff_internal(
            1,
            DiffKind::Uncommitted,
            Ok(DiffBasesChange::SetBoth(some("t"))),
            50,
            51,
            &live(&[50, 51]),
        )
        .unwrap();
    assert_eq!((installed.secondary, installed.is_new_secondary), (Some(51), true));
    assert_eq!(installed.plan.uncommitted, UncommittedPlan::SameAsUnstaged);
    assert_eq!(store.get_uncommitted_diff(1, &live(&[50])), Some(50));
    assert_eq!(store.get_unstaged_diff(1, &live(&[51])), Some(51));
    assert_eq!(store.get_unstaged_diff(1, &live(&[])), None);
    assert_eq!(
        store.open_uncommitted_diff(1, &live(&[50]), true),
        OpenedDiff::AfterRecalculation(50)
    );
    // A diff that no longer lives is loaded again.
    assert_eq!(store.open_uncommitted_diff(1, &live(&[]), true), OpenedDiff::Load);
    let failed = store.open_diff_internal(
        1,
        DiffKind::Unstaged,
        Err("io".to_string()),
        60,
        61,
        &live(&[]),
    );
    assert_eq!(failed, Err("io".to_string()));
    assert_eq!(store.open_unstaged_diff(1, &live(&[]), true), OpenedDiff::Load);
    // An existing comparison with the index is used.
    let installed = store
        .open_diff_internal(
            1,
            DiffKind::Uncommitted,
            Ok(DiffBasesChange::SetBoth(None)),
            70,
            71,
            &live(&[51, 70]),
        )
        .unwrap();
    assert_eq!((installed.secondary, installed.is_new_secondary), (Some(51), false));
}

fn peer(id: u32) -> PeerId {
    PeerId { owner_id: 0, id }
}

#[test]
fn shared_diffs_are_forgotten() {
    let mut store = DiffStore::new();
    store.share_diff(peer(1), 7, DiffKind::Unstaged, 50);
    store.share_diff(peer(1), 7, DiffKind::Uncommitted, 51);
    store.share_diff(peer(1), 8, DiffKind::Unstaged, 52);
    store.share_diff(peer(2), 7, DiffKind::Unstaged, 50);
    let key = |peer_id: PeerId, buffer_id: u64| SharedKey { peer_id, buffer_id };
    assert_eq!(
        store.shared_diffs.get(&key(peer(1), 7)),
        Some(&SharedDiffs {
            unstaged: Some(50),
            uncommitted: Some(51)
        })
    );
    assert_eq!(store.on_buffer_store_event(BufferStoreEvent::SharedBufferClosed(peer(1), 8), &live(&[])), None);
    assert!(!store.shared_diffs.contains_key(&key(peer(1), 8)));
    store.forget_shared_diffs_for(peer(1));
    assert!(!store.shared_diffs.contains_key(&key(peer(1), 7)));
    assert!(store.shared_diffs.contains_key(&key(peer(2), 7)));
    store.on_buffer_store_event(BufferStoreEvent::BufferDropped(7), &live(&[]));
    assert!(!store.shared_diffs.contains_key(&key(peer(2), 7)));
    store.share_diff(peer(3), 1, DiffKind::Unstaged, 1);
    store.unshared();
    assert!(store.shared_diffs.keys().is_empty());
}

#[test]
fn known_buffers_are_recalculated() {
    let mut store = DiffStore::new();
    store.diffs.insert(1, BufferDiffs::new());
    store.diffs.insert(2, BufferDiffs::new());
    let compare = |buffer_id: u64, waiter: u64, has_conflict: bool| BufferToCompare {
        buffer_id,
        waiter,
        has_conflict,
    };
    let _ = store.open_conflict_set(2, 60, 70, false, false, &live(&[60]));
    let plans = store.recalculate_buffer_diffs(
        &vec![compare(2, 71, true), compare(9, 72, true), compare(2, 73, false)],
        &live(&[60]),
    );
    assert_eq!(plans.len(), 2);
    assert_eq!(plans[0].buffer_id, 2);
    assert_eq!((plans[0].reparse, plans[1].reparse), (Some(1), None));
    assert_eq!((plans[0].plan.number, plans[1].plan.number), (1, 2));
    assert_eq!(store.diffs.get(&2).unwrap().conflict_waiters, vec![71]);
    // A set of conflicts that is gone is not looked through.
    let plans = store.recalculate_buffer_diffs(&vec![compare(2, 74, true)], &live(&[]));
    assert_eq!(plans[0].reparse, None);
    assert_eq!(store.diffs.get(&2).unwrap().conflict_waiters, vec![71]);
    assert!(store.diffs.get(&2).unwrap().state.recalculating);
    assert!(!store.diffs.get(&1).unwrap().state.recalculating);
    let plan = store.on_buffer_store_event(BufferStoreEvent::LanguageChanged(1), &live(&[]));
    assert!(plan.unwrap().language_changed);
    assert_eq!(store.on_buffer_store_event(BufferStoreEvent::LanguageChanged(5), &live(&[])), None);
    assert_eq!(store.on_buffer_store_event(BufferStoreEvent::BufferAdded(5), &live(&[])), None);
    let message = || UpdateDiffBases {
        staged_text: some("s"),
        committed_text: None,
        mode: BasesMode::IndexOnly,
    };
    assert!(store.handle_update_diff_bases(1, Some(message()), false, &live(&[])).is_none());
    assert!(store.handle_update_diff_bases(1, None, true, &live(&[])).is_none());
    assert!(store.handle_update_diff_bases(6, Some(message()), true, &live(&[])).is_none());
    assert!(store.handle_update_diff_bases(1, Some(message()), true, &live(&[])).is_some());
    assert_eq!(store.diffs.get(&1).unwrap().state.index_text, arc("s"));
}

#[test]
fn staged_hunks_are_counted() {
    let mut store = DiffStore::new();
    assert_eq!(store.on_buffer_diff_event(1, true), None);
    store.diffs.insert(1, BufferDiffs::new());
    assert_eq!(store.on_buffer_diff_event(1, true), Some(1));
    assert_eq!(store.on_buffer_diff_event(1, false), None);
    assert_eq!(store.on_buffer_diff_event(1, true), Some(3));
    store.index_text_written(1, 3);
    assert_eq!(store.diffs.get(&1).unwrap().state.hunk_staging_operation_count_as_of_write, 3);
    store.index_text_written(9, 3);
}

#[test]
fn conflicts_of_buffers() {
    let mut store = DiffStore::new();
    let opened = store.open_conflict_set(1, 90, 5, false, true, &live(&[90]));
    assert_eq!((opened.set, opened.is_new, opened.reparse), (90, true, Some(1)));
    let again = store.open_conflict_set(1, 91, 6, false, true, &live(&[90, 91]));
    assert_eq!((again.set, again.is_new, again.reparse), (90, false, None));
    let mut diffs = store.diffs.remove(&1).unwrap();
    assert_eq!(diffs.reparse_conflict_markers(7, true, &live(&[90])), Some(2));
    assert_eq!(diffs.reparse_conflict_markers(8, true, &live(&[])), None);
    assert_eq!(diffs.conflict_markers_parsed(1), None);
    assert_eq!(diffs.conflict_markers_parsed(2), Some(vec![5, 7]));
    assert_eq!(diffs.conflict_markers_parsed(2), Some(vec![]));
    store.diffs.insert(1, diffs);
    let repo = snapshot(vec![entry("a", unmerged())]);
    let located = |buffer_id: u64, id: u64, path: &str| LocatedBuffer {
        buffer_id,
        repository_id: RepositoryId(id),
        repo_path: rel(path),
    };
    let statuses = store.conflict_statuses(
        &repo,
        &vec![located(1, 1, "a"), located(1, 2, "a"), located(3, 1, "a"), located(1, 1, "b")],
    );
    let shown: Vec<(u64, bool)> = statuses.iter().map(|s| (s.conflict_set, s.has_conflict)).collect();
    assert_eq!(shown, vec![(90, true), (90, false)]);
}

#[test]
fn requests_become_commands() {
    let commit = command_of(GitRequest::Commit {
        message: "m".to_string(),
        name: some("n"),
        email: None,
        amend: None,
    });
    assert!(matches!(&commit, GitCommand::Commit { name_and_email: None, amend: false, .. }));
    assert_eq!(commit.status(), some("git commit"));
    assert!(commit.job(4).key.is_none());
    let signed = command_of(GitRequest::Commit {
        message: "m".to_string(),
        name: some("n"),
        email: some("e"),
        amend: Some(true),
    });
    assert!(matches!(
        signed,
        GitCommand::Commit { name_and_email: Some((n, e)), amend: true, .. } if n == "n" && e == "e"
    ));
    assert_eq!(
        command_of(GitRequest::CreateBranch("x".to_string())).status(),
        some("git switch -c x")
    );
    assert_eq!(
        command_of(GitRequest::ChangeBranch("x".to_string())).status(),
        some("git switch x")
    );
    assert_eq!(
        command_of(GitRequest::CheckoutFiles {
            commit: "HEAD".to_string(),
            paths: vec![]
        })
        .status(),
        some("git checkout HEAD")
    );
    let write = command_of(GitRequest::SetIndexText {
        path: shared("a"),
        text: None,
    });
    assert!(matches!(write.job(9), GitJob { id: 9, key: Some(GitJobKey::WriteIndex(_)) }));
    assert!(matches!(
        command_of(GitRequest::Reset {
            commit: "c".to_string(),
            mode: ResetMode::Mixed
        }),
        GitCommand::Reset { mode: ResetMode::Mixed, .. }
    ));
    assert!(matches!(
        command_of(GitRequest::Diff(DiffType::HeadToIndex)),
        GitCommand::Diff(DiffType::HeadToIndex)
    ));
    assert_eq!(requester(peer(1), None), peer(1));
    assert_eq!(requester(peer(1), Some(peer(2))), peer(2));
}

#[test]
fn delegates_are_asked_one_at_a_time() {
    let mut delegates: AskPassDelegates<&str> = AskPassDelegates {
        delegates: VecMap::new(),
    };
    delegates.end_askpass(3, "d");
    assert_eq!(delegates.begin_askpass(3), Ok("d"));
    assert_eq!(delegates.begin_askpass(3), Err(GitRequestError::NoAskPass));
    delegates.end_askpass(3, "d");
    assert_eq!(delegates.begin_askpass(3), Ok("d"));
    assert_eq!(GitRequestError::NoAskPass.text(), "no askpass found");
}

#[test]
fn files_are_staged_and_unstaged() {
    let staged = |path: &str, staging: StageStatus| StagedEntry {
        repo_path: shared(path),
        staging,
    };
    let entries = vec![
        staged("full", StageStatus::Staged),
        staged("none", StageStatus::Unstaged),
        staged("part", StageStatus::PartiallyStaged),
    ];
    let names = |paths: Vec<Arc<RelPath>>| -> Vec<String> { paths.iter().map(|path| text(path)).collect() };
    assert_eq!(names(stage_all(&entries)), vec!["none", "part"]);
    assert_eq!(names(unstage_all(&entries)), vec!["full", "part"]);
    assert!(stage_entries(vec![], &vec![]).is_none());
    let open = vec![
        Some(OpenBuffer {
            buffer_id: 4,
            exists_on_disk: true,
        }),
        None,
        Some(OpenBuffer {
            buffer_id: 5,
            exists_on_disk: false,
        }),
    ];
    let plan = stage_entries(vec![rel("a"), rel("b"), rel("c")], &open).unwrap();
    assert_eq!(plan.save, vec![4]);
    assert!(matches!(plan.command, GitCommand::StagePaths(paths) if paths.len() == 3));
    let plan = unstage_entries(vec![rel("a"), rel("b"), rel("c")], &open).unwrap();
    assert!(matches!(plan.command, GitCommand::UnstagePaths(_)));
}

#[test]
fn blame_is_sent() {
    assert!(serialize_blame_buffer_response(None).is_none());
    let blame = Blame {
        entries: vec![BlameEntry {
            sha: vec![1, 2],
            start: 3,
            end: 5,
            original_line_number: 8,
            author: some("a"),
            author_mail: None,
            author_time: Some(9),
            author_tz: None,
            committer_name: some("c"),
            committer_email: some("c@x"),
            committer_time: None,
            committer_tz: None,
            summary: None,
            previous: None,
            filename: "f".to_string(),
        }],
        messages: vec![CommitMessage {
            oid: vec![1, 2],
            message: "m".to_string(),
        }],
        remote_url: some("url"),
    };
    let sent = serialize_blame_buffer_response(Some(blame)).unwrap();
    assert_eq!((sent.entries[0].start_line, sent.entries[0].end_line), (3, 5));
    assert_eq!(sent.entries[0].committer, some("c"));
    assert_eq!(sent.entries[0].committer_mail, some("c@x"));
    assert_eq!(sent.messages[0].message, "m");
    assert_eq!(sent.remote_url, some("url"));
}

#[test]
fn texts_are_read_again_and_sent_on() {
    let mut store = DiffStore::new();
    let mut diffs = BufferDiffs::new();
    diffs.unstaged_diff = Some(50);
    diffs.uncommitted_diff = Some(51);
    diffs.diff_bases_changed(Some(DiffBasesChange::SetBoth(some("old"))), &live(&[50, 51]));
    store.diffs.insert(1, diffs);
    store.diffs.insert(2, BufferDiffs::new());
    let snapshot = snapshot(vec![]);
    let root = text(&snapshot.work_directory_abs_path);
    let file = |buffer_id: u64, path: &str| BufferFile {
        buffer_id,
        abs_path: rel(path),
    };
    let inside = format!("{}/a.rs", root);
    let files = vec![file(1, &inside), file(2, "elsewhere/b.rs"), file(3, &inside)];
    let found = store.bases_to_reload(&snapshot, &files, &live(&[50]));
    assert_eq!(found.len(), 1);
    assert_eq!(found[0].buffer_id, 1);
    assert_eq!(text(&found[0].repo_path), "a.rs");
    assert_eq!(found[0].index_text, Some(arc("old")));
    assert_eq!(found[0].head_text, None);
    let change =
        reload_buffer_diff_bases(&found[0].index_text, &found[0].head_text, some("new"), None);
    let done = store.bases_reloaded(1, change, true, &live(&[50])).unwrap();
    let message = done.message.unwrap();
    assert_eq!(message.staged_text, some("new"));
    assert_eq!(message.mode, BasesMode::IndexOnly);
    assert!(done.plan.unstaged && done.plan.index_changed);
    assert_eq!(store.diffs.get(&1).unwrap().state.index_text, arc("new"));
    assert!(store.bases_reloaded(1, None, true, &live(&[50])).unwrap().message.is_none());
    assert!(store.bases_reloaded(9, None, true, &live(&[])).is_none());
}
