//! Laws of the repositories of a project as worktrees change.

use vstd::prelude::*;
use crate::git_store::snapshot::{RepositoryId, RepositorySnapshot, UpdateRepository};
use crate::git_store::store::{
    changed_repositories, repository_index, snapshot_index, speaks_of, updated_index, with_update,
    with_updates, without_all_lost, without_lost, DownstreamState, GitStore, GitStoreEvent,
    RepositoryInfo, StoreState, UpdatedGitRepository,
};

verus! {

/// Whether a change is one of the repository at a directory: it was there, or is there now.
pub open spec fn is_about(update: UpdatedGitRepository, dir: Seq<Seq<char>>) -> bool {
    (update.old_work_directory_abs_path matches Some(path) && path@ == dir) || (
    update.new_work_directory_abs_path matches Some(path) && path@ == dir)
}

proof fn lemma_updated_index(
    repositories: Seq<RepositoryInfo>,
    update: UpdatedGitRepository,
    i: int,
)
    requires
        0 <= i <= repositories.len(),
        i < repositories.len() ==> is_about(update, repositories[i].work_directory_abs_path@),
        forall|k: int|
            0 <= k < i ==> !is_about(update, (#[trigger] repositories[k]).work_directory_abs_path@),
    ensures
        updated_index(repositories, update) == i,
    decreases repositories.len(),
{
    if repositories.len() > 0 && i > 0 {
        let rest = repositories.drop_first();
        assert(!is_about(update, repositories[0].work_directory_abs_path@));
        assert forall|k: int| 0 <= k < i - 1 implies !is_about(
            update,
            (#[trigger] rest[k]).work_directory_abs_path@,
        ) by {
            assert(rest[k] == repositories[k + 1]);
        }
        lemma_updated_index(rest, update, i - 1);
    }
}

proof fn lemma_repository_index(repositories: Seq<RepositoryInfo>, i: int)
    requires
        0 <= i < repositories.len(),
        forall|k: int| 0 <= k < i ==> (#[trigger] repositories[k]).id != repositories[i].id,
    ensures
        repository_index(repositories, repositories[i].id) == i,
    decreases i,
{
    if i > 0 {
        let rest = repositories.drop_first();
        assert(repositories[0].id != repositories[i].id);
        assert forall|k: int| 0 <= k < i - 1 implies (#[trigger] rest[k]).id != rest[i
            - 1].id by {
            assert(rest[k] == repositories[k + 1]);
        }
        lemma_repository_index(rest, i - 1);
    }
}

/// What one change of a worktree does: a repository that is known follows its directory, or is
/// gone with it and is no longer active. One that is not known is added where it can be opened,
/// under a number of its own, and becomes active where none is.
pub proof fn law_repositories_follow_the_worktree(
    store: &mut GitStore,
    updates: Vec<UpdatedGitRepository>,
    update: UpdatedGitRepository,
    r: (Vec<GitStoreEvent>, Vec<RepositoryId>),
    i: int,
)
    requires
        updates@ == seq![update],
        call_ensures(GitStore::update_repositories_from_worktree, (store, &updates), r),
        forall|a: int, b: int|
            0 <= a < b < old(store).repositories@.len() ==> (
            #[trigger] old(store).repositories@[a]).id != (
            #[trigger] old(store).repositories@[b]).id,
        0 <= i <= old(store).repositories@.len(),
        i < old(store).repositories@.len() ==> is_about(
            update,
            old(store).repositories@[i].work_directory_abs_path@,
        ),
        forall|k: int|
            0 <= k < i ==> !is_about(
                update,
                (#[trigger] old(store).repositories@[k]).work_directory_abs_path@,
            ),
    ensures
        ({
            let before = old(store).repositories@;
            let after = final(store).repositories@;
            let number = old(store).next_repository_id;
            &&& i < before.len() && update.new_work_directory_abs_path is Some ==> {
                &&& after.len() == before.len() && after[i].id == before[i].id
                &&& after[i].work_directory_abs_path == update.new_work_directory_abs_path->0
                &&& forall|k: int|
                    0 <= k < before.len() && k != i ==> #[trigger] after[k] == before[k]
                &&& r.0@.len() == 0 && r.1@.len() == 0
                &&& final(store).active_repo_id == old(store).active_repo_id
            }
            &&& i < before.len() && update.new_work_directory_abs_path is None ==> {
                &&& after == before.remove(i) && r.1@ == seq![before[i].id]
                &&& old(store).active_repo_id == Some(before[i].id) ==> final(
                    store
                ).active_repo_id is None && r.0@ == seq![
                    GitStoreEvent::ActiveRepositoryChanged(None),
                ]
                &&& old(store).active_repo_id != Some(before[i].id) ==> final(
                    store
                ).active_repo_id == old(store).active_repo_id && r.0@.len() == 0
            }
            &&& i == before.len() && update.new_work_directory_abs_path is Some && update.can_open
                ==> {
                &&& after == before.push(
                    RepositoryInfo {
                        id: RepositoryId(number),
                        work_directory_abs_path: update.new_work_directory_abs_path->0,
                    },
                )
                &&& r.1@.len() == 0 && final(store).next_repository_id != number
                &&& r.0@.len() > 0 && r.0@[0] == GitStoreEvent::RepositoryAdded(
                    RepositoryId(number),
                )
                &&& old(store).active_repo_id is None ==> final(store).active_repo_id == Some(
                    RepositoryId(number),
                ) && r.0@.len() == 2 && r.0@[1] == GitStoreEvent::ActiveRepositoryChanged(
                    Some(RepositoryId(number)),
                )
                &&& old(store).active_repo_id is Some ==> final(store).active_repo_id
                    == old(store).active_repo_id && r.0@.len() == 1
            }
            &&& i == before.len() && (update.new_work_directory_abs_path is None
                || !update.can_open) ==> after == before && r.0@.len() == 0 && r.1@.len() == 0
                && final(store).active_repo_id == old(store).active_repo_id
        }),
{
    let start = old(store).state(Seq::empty(), Seq::empty());
    lemma_updated_index(start.repositories, update, i);
    assert(updates@.drop_last() =~= Seq::<UpdatedGitRepository>::empty());
    assert(updates@.last() == update);
    reveal_with_fuel(with_updates, 2);
    let next = with_updates(start, updates@);
    assert(next == with_update(start, update));
    reveal_with_fuel(without_all_lost, 2);
    let end = final(store).state(r.0@, r.1@);
    if i < start.repositories.len() && update.new_work_directory_abs_path is None {
        let id = start.repositories[i].id;
        assert(next.lost =~= seq![id]);
        assert(next.lost.drop_last() =~= Seq::<RepositoryId>::empty());
        assert(end == without_lost(next, id));
        lemma_repository_index(start.repositories, i);
    } else {
        assert(next.lost.len() == 0);
        assert(end == next);
    }
    assert(end.repositories == final(store).repositories@);
    assert(end.events == r.0@ && end.lost == r.1@);
}

proof fn lemma_events_add_up(state: StoreState, update: UpdatedGitRepository)
    requires
        update.new_work_directory_abs_path is Some,
    ensures
        ({
            let quiet = StoreState { events: Seq::empty(), lost: Seq::empty(), ..state };
            let after = with_update(state, update);
            let alone = with_update(quiet, update);
            &&& after.repositories == alone.repositories && after.active == alone.active
                && after.next_id == alone.next_id && after.lost == state.lost
                && alone.lost.len() == 0
            &&& after.events == state.events + alone.events
        }),
{
    let quiet = StoreState { events: Seq::empty(), lost: Seq::empty(), ..state };
    let after = with_update(state, update);
    let alone = with_update(quiet, update);
    assert(after.events =~= state.events + alone.events);
}

proof fn lemma_nothing_lost(state: StoreState, updates: Seq<UpdatedGitRepository>)
    requires
        state.lost.len() == 0,
        forall|k: int|
            0 <= k < updates.len() ==> (#[trigger] updates[k]).new_work_directory_abs_path is Some,
    ensures
        with_updates(state, updates).lost.len() == 0,
    decreases updates.len(),
{
    if updates.len() > 0 {
        let init = updates.drop_last();
        assert forall|k: int| 0 <= k < init.len() implies (
        #[trigger] init[k]).new_work_directory_abs_path is Some by {
            assert(init[k] == updates[k]);
        }
        lemma_nothing_lost(state, init);
        assert(updates[updates.len() - 1].new_work_directory_abs_path is Some);
    }
}

/// Several changes do what each of them does, one after the other.
pub proof fn law_changes_follow_one_another(
    first: &mut GitStore,
    second: &mut GitStore,
    both: &mut GitStore,
    updates: Vec<UpdatedGitRepository>,
    single: Vec<UpdatedGitRepository>,
    all: Vec<UpdatedGitRepository>,
    last: UpdatedGitRepository,
    a: (Vec<GitStoreEvent>, Vec<RepositoryId>),
    b: (Vec<GitStoreEvent>, Vec<RepositoryId>),
    r: (Vec<GitStoreEvent>, Vec<RepositoryId>),
)
    requires
        single@ == seq![last],
        all@ == updates@.push(last),
        forall|k: int|
            0 <= k < all@.len() ==> (#[trigger] all@[k]).new_work_directory_abs_path is Some,
        call_ensures(GitStore::update_repositories_from_worktree, (first, &updates), a),
        old(second).repositories@ == final(first).repositories@,
        old(second).active_repo_id == final(first).active_repo_id,
        old(second).next_repository_id == final(first).next_repository_id,
        call_ensures(GitStore::update_repositories_from_worktree, (second, &single), b),
        old(both).repositories@ == old(first).repositories@,
        old(both).active_repo_id == old(first).active_repo_id,
        old(both).next_repository_id == old(first).next_repository_id,
        call_ensures(GitStore::update_repositories_from_worktree, (both, &all), r),
    ensures
        final(both).repositories@ == final(second).repositories@,
        final(both).active_repo_id == final(second).active_repo_id,
        final(both).next_repository_id == final(second).next_repository_id,
        r.0@ == a.0@ + b.0@,
        r.1@.len() == 0,
{
    let start = old(first).state(Seq::empty(), Seq::empty());
    assert(old(both).state(Seq::empty(), Seq::empty()) == start);
    assert(all@.drop_last() =~= updates@);
    assert(all@.last() == last);
    assert forall|k: int| 0 <= k < updates@.len() implies (
    #[trigger] updates@[k]).new_work_directory_abs_path is Some by {
        assert(updates@[k] == all@[k]);
    }
    assert(all@[all@.len() - 1].new_work_directory_abs_path is Some);
    lemma_nothing_lost(start, updates@);
    let middle = with_updates(start, updates@);
    assert(without_all_lost(middle, middle.lost) == middle);
    let end = with_updates(start, all@);
    assert(end == with_update(middle, last));
    lemma_events_add_up(middle, last);
    assert(without_all_lost(end, end.lost) == end);
    let quiet = old(second).state(Seq::empty(), Seq::empty());
    assert(final(first).state(a.0@, a.1@) == middle);
    assert(quiet == (StoreState { events: Seq::empty(), lost: Seq::empty(), ..middle }));
    assert(single@.drop_last() =~= Seq::<UpdatedGitRepository>::empty());
    reveal_with_fuel(with_updates, 2);
    let alone = with_updates(quiet, single@);
    assert(alone == with_update(quiet, last));
    assert(without_all_lost(alone, alone.lost) == alone);
    assert(final(second).state(b.0@, b.1@) == alone);
    assert(final(both).state(r.0@, r.1@) == end);
}

proof fn lemma_changed(
    repositories: Seq<RepositoryInfo>,
    updates: Seq<UpdatedGitRepository>,
    id: RepositoryId,
)
    ensures
        changed_repositories(repositories, updates).contains(id) <==> exists|i: int, k: int|
            0 <= i < repositories.len() && 0 <= k < updates.len() && (
            #[trigger] repositories[i]).id == id && is_about(
                #[trigger] updates[k],
                repositories[i].work_directory_abs_path@,
            ),
    decreases repositories.len(),
{
    if repositories.len() > 0 {
        let init = repositories.drop_last();
        let n: int = repositories.len() - 1;
        lemma_changed(init, updates, id);
        let before = changed_repositories(init, updates);
        let all = changed_repositories(repositories, updates);
        if all.contains(id) {
            let m: int = choose|m: int| 0 <= m < all.len() && all[m] == id;
            if m < before.len() {
                assert(before[m] == id);
                let (i, k) = choose|i: int, k: int|
                    0 <= i < init.len() && 0 <= k < updates.len() && (#[trigger] init[i]).id == id
                        && is_about(#[trigger] updates[k], init[i].work_directory_abs_path@);
                assert(repositories[i] == init[i]);
                assert(is_about(updates[k], repositories[i].work_directory_abs_path@));
            } else {
                let k: int = choose|k: int|
                    0 <= k < updates.len() && speaks_of(
                        #[trigger] updates[k],
                        repositories.last().work_directory_abs_path@,
                    );
                assert(repositories[n].id == id);
                assert(is_about(updates[k], repositories[n].work_directory_abs_path@));
            }
        }
        if exists|i: int, k: int|
            0 <= i < repositories.len() && 0 <= k < updates.len() && (
            #[trigger] repositories[i]).id == id && is_about(
                #[trigger] updates[k],
                repositories[i].work_directory_abs_path@,
            ) {
            let (i, k) = choose|i: int, k: int|
                0 <= i < repositories.len() && 0 <= k < updates.len() && (
                #[trigger] repositories[i]).id == id && is_about(
                    #[trigger] updates[k],
                    repositories[i].work_directory_abs_path@,
                );
            if i < n {
                assert(init[i] == repositories[i]);
                assert(is_about(updates[k], init[i].work_directory_abs_path@));
                let m: int = choose|m: int| 0 <= m < before.len() && before[m] == id;
                assert(all[m] == id);
            } else {
                assert(speaks_of(updates[k], repositories.last().work_directory_abs_path@));
                assert(all[all.len() - 1] == id);
            }
        }
    }
}

/// The repositories that a worktree changed are those that its changes are about. A worktree
/// that is not visible changes none.
pub proof fn law_changed_repositories_are_named(
    store: GitStore,
    hidden: &mut GitStore,
    updates: Vec<UpdatedGitRepository>,
    is_visible: Option<bool>,
    r: Vec<RepositoryId>,
    ignored: (Vec<GitStoreEvent>, Vec<RepositoryId>, Vec<RepositoryId>),
    id: RepositoryId,
)
    requires
        call_ensures(GitStore::local_worktree_git_repos_changed, (&store, &updates), r),
        is_visible != Some(true),
        call_ensures(
            GitStore::on_worktree_store_event,
            (hidden, is_visible, &updates),
            ignored,
        ),
    ensures
        r@.contains(id) <==> exists|i: int, k: int|
            0 <= i < store.repositories@.len() && 0 <= k < updates@.len() && (
            #[trigger] store.repositories@[i]).id == id && is_about(
                #[trigger] updates@[k],
                store.repositories@[i].work_directory_abs_path@,
            ),
        *final(hidden) == *old(hidden),
        ignored.0@.len() == 0 && ignored.1@.len() == 0 && ignored.2@.len() == 0,
{
    lemma_changed(store.repositories@, updates@, id);
}

/// A repository that a peer tells of becomes active where none is. It is in another one where
/// its directory is.
pub proof fn law_told_repository_becomes_active(
    store: &mut GitStore,
    id: RepositoryId,
    r: Option<GitStoreEvent>,
    outer: RepositoryInfo,
    other: RepositoryInfo,
    inside: bool,
)
    requires
        call_ensures(GitStore::handle_update_repository, (store, id), r),
        call_ensures(GitStore::contains_sub_repo, (&outer, &other), inside),
    ensures
        old(store).active_repo_id is None ==> final(store).active_repo_id == Some(id) && r == Some(
            GitStoreEvent::ActiveRepositoryChanged(Some(id)),
        ),
        old(store).active_repo_id is Some ==> final(store).active_repo_id
            == old(store).active_repo_id && r is None,
        final(store).repositories == old(store).repositories,
        inside <==> outer.work_directory_abs_path@.is_prefix_of(other.work_directory_abs_path@),
{
    let dir = outer.work_directory_abs_path@;
    let path = other.work_directory_abs_path@;
    if dir.len() <= path.len() {
        assert(path.take(dir.len() as int) == path.subrange(0, dir.len() as int));
    }
}

proof fn lemma_snapshot_index(snapshots: Seq<RepositorySnapshot>, id: RepositoryId, i: int)
    requires
        0 <= i <= snapshots.len(),
        i < snapshots.len() ==> snapshots[i].id == id,
        forall|k: int| 0 <= k < i ==> (#[trigger] snapshots[k]).id != id,
    ensures
        snapshot_index(snapshots, id) == i,
    decreases snapshots.len(),
{
    if snapshots.len() > 0 && i > 0 {
        let rest = snapshots.drop_first();
        assert(snapshots[0].id != id);
        assert forall|k: int| 0 <= k < i - 1 implies (#[trigger] rest[k]).id != id by {
            assert(rest[k] == snapshots[k + 1]);
        }
        lemma_snapshot_index(rest, id, i - 1);
    }
}

/// What was sent of a repository is kept, in place of what was sent of it before, and the
/// first time as a new one.
pub proof fn law_sent_state_is_kept(
    downstream: &mut DownstreamState,
    snapshot: RepositorySnapshot,
    project_id: u64,
    r: UpdateRepository,
    i: int,
)
    requires
        call_ensures(
            DownstreamState::update_repository,
            (downstream, snapshot, project_id),
            r,
        ),
        0 <= i <= old(downstream).snapshots@.len(),
        i < old(downstream).snapshots@.len() ==> old(downstream).snapshots@[i].id == snapshot.id,
        forall|k: int|
            0 <= k < i ==> (#[trigger] old(downstream).snapshots@[k]).id != snapshot.id,
    ensures
        i < old(downstream).snapshots@.len() ==> final(downstream).snapshots@.len()
            == old(downstream).snapshots@.len() && r.entry_ids@.len() == 0,
        i == old(downstream).snapshots@.len() ==> final(downstream).snapshots@.len() == i + 1
            && r.entry_ids@ == seq![snapshot.id.0] && r.removed_statuses@.len() == 0,
        final(downstream).snapshots@[i] == snapshot,
        forall|k: int|
            0 <= k < old(downstream).snapshots@.len() && k != i ==> #[trigger] final(
                downstream
            ).snapshots@[k] == old(downstream).snapshots@[k],
{
    lemma_snapshot_index(old(downstream).snapshots@, snapshot.id, i);
}

} // verus!
