//! The repositories of a project.

use vstd::prelude::*;
use std::sync::Arc;
use crate::git_store::snapshot::{
    removed, status_at, updated, wires, RepositoryId, RepositorySnapshot, UpdateRepository,
};
use crate::git_store::status::FileStatus;
use crate::numbers::{following, number_after};
use crate::path::{is_below, path_before, RelPath};
use crate::shared::arc_clone;

verus! {

/// What a repository tells of.
#[derive(Copy, Clone, Debug, PartialEq, Eq, Structural)]
pub enum RepositoryEvent {
    Updated { full_scan: bool },
    MergeHeadsChanged,
}

/// A repository has started or ended a job.
#[derive(Copy, Clone, Debug, PartialEq, Eq, Structural)]
pub struct JobsUpdated;

/// What the repositories of a project tell of.
#[derive(Debug)]
pub enum GitStoreEvent {
    ActiveRepositoryChanged(Option<RepositoryId>),
    /// The last part tells whether the repository is the active one.
    RepositoryUpdated(RepositoryId, RepositoryEvent, bool),
    RepositoryAdded(RepositoryId),
    RepositoryRemoved(RepositoryId),
    IndexWriteError(String),
    JobsUpdated,
    ConflictsUpdated,
}

/// A repository of a project.
#[derive(Debug)]
pub struct RepositoryInfo {
    pub id: RepositoryId,
    pub work_directory_abs_path: Arc<RelPath>,
}

/// A repository that a worktree has found, moved or lost.
#[derive(Debug)]
pub struct UpdatedGitRepository {
    pub old_work_directory_abs_path: Option<Arc<RelPath>>,
    pub new_work_directory_abs_path: Option<Arc<RelPath>>,
    /// All that is needed to open the repository is known.
    pub can_open: bool,
}

/// The repositories of a project.
#[derive(Debug)]
pub struct GitStore {
    pub repositories: Vec<RepositoryInfo>,
    pub active_repo_id: Option<RepositoryId>,
    pub next_repository_id: u64,
}

/// The repositories, and what has been told of them.
#[verifier::ext_equal]
pub struct StoreState {
    pub repositories: Seq<RepositoryInfo>,
    pub active: Option<RepositoryId>,
    pub next_id: u64,
    pub events: Seq<GitStoreEvent>,
    pub lost: Seq<RepositoryId>,
}

/// Whether a path is one that may be there.
pub open spec fn is_path(path: Option<Arc<RelPath>>, dir: Seq<Seq<char>>) -> bool {
    path is Some && path->0@ == dir
}

/// Whether a repository is the one that an update speaks of.
pub open spec fn speaks_of(update: UpdatedGitRepository, dir: Seq<Seq<char>>) -> bool {
    is_path(update.old_work_directory_abs_path, dir) || is_path(
        update.new_work_directory_abs_path,
        dir,
    )
}

/// The first repository that an update speaks of, or how many there are.
pub open spec fn updated_index(
    repositories: Seq<RepositoryInfo>,
    update: UpdatedGitRepository,
) -> int
    decreases repositories.len(),
{
    if repositories.len() == 0 || speaks_of(
        update,
        repositories.first().work_directory_abs_path@,
    ) {
        0
    } else {
        1 + updated_index(repositories.drop_first(), update)
    }
}

/// Takes up what a worktree says of a repository.
pub open spec fn with_update(state: StoreState, update: UpdatedGitRepository) -> StoreState {
    let i: int = updated_index(state.repositories, update);
    if i < state.repositories.len() {
        match update.new_work_directory_abs_path {
            Some(dir) => StoreState {
                repositories: state.repositories.update(
                    i,
                    RepositoryInfo {
                        id: state.repositories[i].id,
                        work_directory_abs_path: dir,
                    },
                ),
                ..state
            },
            None => StoreState { lost: state.lost.push(state.repositories[i].id), ..state },
        }
    } else if update.new_work_directory_abs_path is Some && update.can_open {
        let id = RepositoryId(state.next_id);
        let added = state.events.push(GitStoreEvent::RepositoryAdded(id));
        StoreState {
            repositories: state.repositories.push(
                RepositoryInfo {
                    id,
                    work_directory_abs_path: update.new_work_directory_abs_path->0,
                },
            ),
            next_id: number_after(state.next_id),
            active: if state.active is None {
                Some(id)
            } else {
                state.active
            },
            events: if state.active is None {
                added.push(GitStoreEvent::ActiveRepositoryChanged(Some(id)))
            } else {
                added
            },
            ..state
        }
    } else {
        state
    }
}

/// Takes up what a worktree says of some repositories.
pub open spec fn with_updates(state: StoreState, updates: Seq<UpdatedGitRepository>) -> StoreState
    decreases updates.len(),
{
    if updates.len() == 0 {
        state
    } else {
        with_update(with_updates(state, updates.drop_last()), updates.last())
    }
}

/// Where a repository stands among some, or how many there are.
pub open spec fn repository_index(repositories: Seq<RepositoryInfo>, id: RepositoryId) -> int
    decreases repositories.len(),
{
    if repositories.len() == 0 || repositories.first().id == id {
        0
    } else {
        1 + repository_index(repositories.drop_first(), id)
    }
}

/// Repositories without one.
pub open spec fn without_repository(repositories: Seq<RepositoryInfo>, id: RepositoryId) -> Seq<
    RepositoryInfo,
> {
    let i: int = repository_index(repositories, id);
    if i < repositories.len() {
        repositories.remove(i)
    } else {
        repositories
    }
}

/// Lets go of a repository.
pub open spec fn without_lost(state: StoreState, id: RepositoryId) -> StoreState {
    StoreState {
        repositories: without_repository(state.repositories, id),
        active: if state.active == Some(id) {
            None
        } else {
            state.active
        },
        events: if state.active == Some(id) {
            state.events.push(GitStoreEvent::ActiveRepositoryChanged(None))
        } else {
            state.events
        },
        ..state
    }
}

/// Lets go of repositories.
pub open spec fn without_all_lost(state: StoreState, ids: Seq<RepositoryId>) -> StoreState
    decreases ids.len(),
{
    if ids.len() == 0 {
        state
    } else {
        without_lost(without_all_lost(state, ids.drop_last()), ids.last())
    }
}

/// Takes up what a worktree says of some repositories, and lets go of those that
/// are lost.
pub open spec fn after_updates(state: StoreState, updates: Seq<UpdatedGitRepository>) -> StoreState {
    let next = with_updates(state, updates);
    without_all_lost(next, next.lost)
}

fn path_is(path: &Option<Arc<RelPath>>, dir: &RelPath) -> (r: bool)
    ensures
        r == is_path(*path, dir@),
{
    match path {
        Some(path) => path.same(dir),
        None => false,
    }
}

impl UpdatedGitRepository {
    fn is_about(&self, dir: &RelPath) -> (r: bool)
        ensures
            r == speaks_of(*self, dir@),
    {
        path_is(&self.old_work_directory_abs_path, dir) || path_is(
            &self.new_work_directory_abs_path,
            dir,
        )
    }
}

/// The repository that a path lies in, of two.
pub open spec fn inner(
    best: Option<RepositoryInfo>,
    repository: RepositoryInfo,
    path: Seq<Seq<char>>,
) -> Option<RepositoryInfo> {
    if !is_below(path, repository.work_directory_abs_path@) {
        best
    } else {
        match best {
            Some(other) => if path_before(
                repository.work_directory_abs_path@,
                other.work_directory_abs_path@,
            ) {
                best
            } else {
                Some(repository)
            },
            None => Some(repository),
        }
    }
}

/// The repository that a path lies in: of several the one whose directory comes
/// last.
pub open spec fn repository_of(repositories: Seq<RepositoryInfo>, path: Seq<Seq<char>>) -> Option<
    RepositoryInfo,
>
    decreases repositories.len(),
{
    if repositories.len() == 0 {
        None
    } else {
        inner(repository_of(repositories.drop_last(), path), repositories.last(), path)
    }
}

/// A path inside a repository.
#[derive(Debug)]
pub struct LocatedPath {
    pub repository_id: RepositoryId,
    pub repo_path: RelPath,
}

/// Where a path lies.
pub open spec fn located_in(
    repositories: Seq<RepositoryInfo>,
    path: Seq<Seq<char>>,
    located: Option<LocatedPath>,
) -> bool {
    match repository_of(repositories, path) {
        Some(repository) => located is Some && located->0.repository_id == repository.id
            && located->0.repo_path@ == path.skip(
            repository.work_directory_abs_path@.len() as int,
        ),
        None => located is None,
    }
}

impl GitStore {
    pub open spec fn state(&self, events: Seq<GitStoreEvent>, lost: Seq<RepositoryId>) -> StoreState {
        StoreState {
            repositories: self.repositories@,
            active: self.active_repo_id,
            next_id: self.next_repository_id,
            events,
            lost,
        }
    }

    pub fn new() -> (r: GitStore)
        ensures
            r.repositories@.len() == 0,
            r.active_repo_id is None,
            r.next_repository_id == 1,
    {
        GitStore { repositories: Vec::new(), active_repo_id: None, next_repository_id: 1 }
    }

    fn find_updated(&self, update: &UpdatedGitRepository) -> (r: usize)
        ensures
            r == updated_index(self.repositories@, *update),
            r <= self.repositories@.len(),
    {
        let mut i: usize = 0;
        let ghost all = self.repositories@;
        assert(all.skip(0) =~= all);
        while i < self.repositories.len() && !update.is_about(
            &*self.repositories[i].work_directory_abs_path,
        )
            invariant
                i <= all.len(),
                all == self.repositories@,
                i + updated_index(all.skip(i as int), *update) == updated_index(all, *update),
            decreases self.repositories.len() - i,
        {
            proof {
                let here = all.skip(i as int);
                assert(here.drop_first() =~= all.skip(i + 1));
                assert(here.first() == all[i as int]);
            }
            i = i + 1;
        }
        assert(i < all.len() ==> all.skip(i as int).first() == all[i as int]);
        i
    }

    pub(crate) fn find_repository(&self, id: RepositoryId) -> (r: usize)
        ensures
            r == repository_index(self.repositories@, id),
            r <= self.repositories@.len(),
            r < self.repositories@.len() ==> self.repositories@[r as int].id == id,
            forall|k: int| 0 <= k < r ==> (#[trigger] self.repositories@[k]).id != id,
    {
        let mut i: usize = 0;
        let ghost all = self.repositories@;
        assert(all.skip(0) =~= all);
        while i < self.repositories.len() && self.repositories[i].id != id
            invariant
                i <= all.len(),
                all == self.repositories@,
                forall|k: int| 0 <= k < i ==> (#[trigger] all[k]).id != id,
                i + repository_index(all.skip(i as int), id) == repository_index(all, id),
            decreases self.repositories.len() - i,
        {
            proof {
                let here = all.skip(i as int);
                assert(here.drop_first() =~= all.skip(i + 1));
                assert(here.first() == all[i as int]);
            }
            i = i + 1;
        }
        assert(i < all.len() ==> all.skip(i as int).first() == all[i as int]);
        i
    }

    fn take_update(
        &mut self,
        update: &UpdatedGitRepository,
        events: &mut Vec<GitStoreEvent>,
        lost: &mut Vec<RepositoryId>,
    )
        ensures
            final(self).state(final(events)@, final(lost)@) == with_update(
                old(self).state(old(events)@, old(lost)@),
                *update,
            ),
    {
        let i: usize = self.find_updated(update);
        if i < self.repositories.len() {
            match &update.new_work_directory_abs_path {
                Some(dir) => {
                    let id = self.repositories[i].id;
                    self.repositories.set(
                        i,
                        RepositoryInfo { id, work_directory_abs_path: arc_clone(dir) },
                    );
                },
                None => {
                    lost.push(self.repositories[i].id);
                },
            }
            return;
        }
        if let Some(dir) = &update.new_work_directory_abs_path {
            if update.can_open {
                let id = RepositoryId(self.next_repository_id);
                self.next_repository_id = following(self.next_repository_id);
                self.repositories.push(
                    RepositoryInfo { id, work_directory_abs_path: arc_clone(dir) },
                );
                events.push(GitStoreEvent::RepositoryAdded(id));
                if self.active_repo_id.is_none() {
                    events.push(GitStoreEvent::ActiveRepositoryChanged(Some(id)));
                    self.active_repo_id = Some(id);
                }
            }
        }
    }

    fn let_go(&mut self, id: RepositoryId, events: &mut Vec<GitStoreEvent>)
        ensures
            forall|lost: Seq<RepositoryId>| #[trigger]
                final(self).state(final(events)@, lost) == without_lost(
                    old(self).state(old(events)@, lost),
                    id,
                ),
    {
        let is_active: bool = match self.active_repo_id {
            Some(active) => active == id,
            None => false,
        };
        if is_active {
            self.active_repo_id = None;
            events.push(GitStoreEvent::ActiveRepositoryChanged(None));
        }
        let i: usize = self.find_repository(id);
        if i < self.repositories.len() {
            let _ = self.repositories.remove(i);
        }
    }

    /// Takes up what a worktree says of its repositories. Returns what is to be
    /// told, and the repositories that are lost.
    pub fn update_repositories_from_worktree(&mut self, updates: &Vec<UpdatedGitRepository>) -> (r: (
        Vec<GitStoreEvent>,
        Vec<RepositoryId>,
    ))
        ensures
            final(self).state(r.0@, r.1@) == after_updates(
                old(self).state(Seq::empty(), Seq::empty()),
                updates@,
            ),
    {
        let mut events: Vec<GitStoreEvent> = Vec::new();
        let mut lost: Vec<RepositoryId> = Vec::new();
        let ghost start = self.state(Seq::empty(), Seq::empty());
        assert(self.state(events@, lost@) =~= start);
        let mut i: usize = 0;
        assert(updates@.take(0) =~= Seq::empty());
        while i < updates.len()
            invariant
                i <= updates@.len(),
                self.state(events@, lost@) == with_updates(start, updates@.take(i as int)),
            decreases updates.len() - i,
        {
            proof {
                let next = updates@.take(i + 1);
                assert(next.drop_last() =~= updates@.take(i as int));
                assert(next.last() == updates@[i as int]);
            }
            self.take_update(&updates[i], &mut events, &mut lost);
            i = i + 1;
        }
        assert(updates@.take(i as int) =~= updates@);
        let ghost mid = self.state(events@, lost@);
        let mut j: usize = 0;
        assert(lost@.take(0) =~= Seq::empty());
        while j < lost.len()
            invariant
                j <= lost@.len(),
                mid.lost == lost@,
                self.state(events@, lost@) == without_all_lost(mid, lost@.take(j as int)),
            decreases lost.len() - j,
        {
            proof {
                let next = lost@.take(j + 1);
                assert(next.drop_last() =~= lost@.take(j as int));
                assert(next.last() == lost@[j as int]);
            }
            self.let_go(lost[j], &mut events);
            j = j + 1;
        }
        assert(lost@.take(j as int) =~= lost@);
        (events, lost)
    }

    /// The repositories whose texts are to be read again: those that a worktree
    /// speaks of.
    pub fn local_worktree_git_repos_changed(&self, updates: &Vec<UpdatedGitRepository>) -> (r: Vec<
        RepositoryId,
    >)
        ensures
            r@ == changed_repositories(self.repositories@, updates@),
    {
        let mut r: Vec<RepositoryId> = Vec::new();
        let mut i: usize = 0;
        let ghost all = self.repositories@;
        assert(all.take(0) =~= Seq::empty());
        while i < self.repositories.len()
            invariant
                i <= all.len(),
                all == self.repositories@,
                r@ == changed_repositories(all.take(i as int), updates@),
            decreases self.repositories.len() - i,
        {
            proof {
                let next = all.take(i + 1);
                assert(next.drop_last() =~= all.take(i as int));
                assert(next.last() == all[i as int]);
            }
            if any_about(updates, &*self.repositories[i].work_directory_abs_path) {
                r.push(self.repositories[i].id);
            }
            i = i + 1;
        }
        assert(all.take(i as int) =~= all);
        r
    }

    /// Takes up what a worktree says of its repositories, unless the worktree is gone or is
    /// not visible. Returns what is to be told, the repositories that are lost, and those
    /// whose texts are to be read again.
    pub fn on_worktree_store_event(
        &mut self,
        is_visible: Option<bool>,
        updates: &Vec<UpdatedGitRepository>,
    ) -> (r: (Vec<GitStoreEvent>, Vec<RepositoryId>, Vec<RepositoryId>))
        ensures
            if is_visible == Some(true) {
                &&& final(self).state(r.0@, r.1@) == after_updates(
                    old(self).state(Seq::empty(), Seq::empty()),
                    updates@,
                )
                &&& r.2@ == changed_repositories(final(self).repositories@, updates@)
            } else {
                &&& *final(self) == *old(self)
                &&& r.0@.len() == 0
                &&& r.1@.len() == 0
                &&& r.2@.len() == 0
            },
    {
        match is_visible {
            Some(true) => {
                let (events, lost) = self.update_repositories_from_worktree(updates);
                let changed = self.local_worktree_git_repos_changed(updates);
                (events, lost, changed)
            },
            _ => (Vec::new(), Vec::new(), Vec::new()),
        }
    }

    /// The repository that a file lies in, and its path there.
    pub fn repository_and_path_for_project_path(&self, abs_path: &RelPath) -> (r: Option<LocatedPath>)
        ensures
            located_in(self.repositories@, abs_path@, r),
    {
        let mut best: Option<usize> = None;
        let mut i: usize = 0;
        let ghost all = self.repositories@;
        assert(all.take(0) =~= Seq::empty());
        while i < self.repositories.len()
            invariant
                i <= all.len(),
                all == self.repositories@,
                match best {
                    Some(b) => b < i && repository_of(all.take(i as int), abs_path@) == Some(
                        all[b as int],
                    ) && is_below(abs_path@, all[b as int].work_directory_abs_path@),
                    None => repository_of(all.take(i as int), abs_path@) is None,
                },
            decreases self.repositories.len() - i,
        {
            proof {
                let next = all.take(i + 1);
                assert(next.drop_last() =~= all.take(i as int));
                assert(next.last() == all[i as int]);
            }
            let dir = &self.repositories[i].work_directory_abs_path;
            if abs_path.starts_with(&**dir) {
                best = match best {
                    Some(b) => if dir.comes_before(
                        &*self.repositories[b].work_directory_abs_path,
                    ) {
                        Some(b)
                    } else {
                        Some(i)
                    },
                    None => Some(i),
                };
            }
            i = i + 1;
        }
        assert(all.take(i as int) =~= all);
        match best {
            Some(b) => match abs_path.strip_prefix(
                &*self.repositories[b].work_directory_abs_path,
            ) {
                Some(repo_path) => Some(
                    LocatedPath { repository_id: self.repositories[b].id, repo_path },
                ),
                None => None,
            },
            None => None,
        }
    }

    /// The status of a file, by its absolute path and by what is known of the repositories.
    pub fn project_path_git_status(
        &self,
        snapshots: &Vec<RepositorySnapshot>,
        abs_path: &RelPath,
    ) -> (r: Option<FileStatus>)
        ensures
            r == git_status(self.repositories@, snapshots@, abs_path@),
    {
        match self.repository_and_path_for_project_path(abs_path) {
            Some(located) => {
                let i: usize = find_snapshot(snapshots, located.repository_id);
                if i < snapshots.len() {
                    match snapshots[i].status_for_path(&located.repo_path) {
                        Some(entry) => Some(entry.status),
                        None => None,
                    }
                } else {
                    None
                }
            },
            None => None,
        }
    }

    /// Whether a repository lies in another.
    pub fn contains_sub_repo(outer: &RepositoryInfo, other: &RepositoryInfo) -> (r: bool)
        ensures
            r == is_below(other.work_directory_abs_path@, outer.work_directory_abs_path@),
    {
        other.work_directory_abs_path.starts_with(&*outer.work_directory_abs_path)
    }

    /// The place of the active repository.
    pub fn active_repository(&self) -> (r: Option<usize>)
        requires
            self.active_repo_id matches Some(id) ==> repository_index(self.repositories@, id)
                < self.repositories@.len(),
        ensures
            match self.active_repo_id {
                Some(id) => r is Some && r->0 == repository_index(self.repositories@, id)
                    && self.repositories@[r->0 as int].id == id,
                None => r is None,
            },
    {
        match self.active_repo_id {
            Some(id) => Some(self.find_repository(id)),
            None => None,
        }
    }

    /// Makes a repository the active one.
    pub fn set_as_active_repository(&mut self, id: RepositoryId) -> (r: Option<GitStoreEvent>)
        ensures
            if repository_index(old(self).repositories@, id) < old(self).repositories@.len() {
                *final(self) == (GitStore { active_repo_id: Some(id), ..*old(self) }) && r == Some(
                    GitStoreEvent::ActiveRepositoryChanged(Some(id)),
                )
            } else {
                *final(self) == *old(self) && r is None
            },
    {
        if self.find_repository(id) < self.repositories.len() {
            self.active_repo_id = Some(id);
            Some(GitStoreEvent::ActiveRepositoryChanged(Some(id)))
        } else {
            None
        }
    }

    /// Takes up that a peer has sent a change of a repository.
    pub fn handle_update_repository(&mut self, id: RepositoryId) -> (r: Option<GitStoreEvent>)
        ensures
            if old(self).active_repo_id is None {
                *final(self) == (GitStore { active_repo_id: Some(id), ..*old(self) }) && r == Some(
                    GitStoreEvent::ActiveRepositoryChanged(Some(id)),
                )
            } else {
                *final(self) == *old(self) && r is None
            },
    {
        if self.active_repo_id.is_none() {
            self.active_repo_id = Some(id);
            Some(GitStoreEvent::ActiveRepositoryChanged(Some(id)))
        } else {
            None
        }
    }

    /// Takes up that a peer has let go of a repository.
    pub fn handle_remove_repository(&mut self, id: RepositoryId) -> (r: Vec<GitStoreEvent>)
        ensures
            final(self).repositories@ == without_repository(old(self).repositories@, id),
            final(self).next_repository_id == old(self).next_repository_id,
            if old(self).active_repo_id == Some(id) {
                final(self).active_repo_id is None && r@ == seq![
                    GitStoreEvent::ActiveRepositoryChanged(None),
                    GitStoreEvent::RepositoryRemoved(id),
                ]
            } else {
                final(self).active_repo_id == old(self).active_repo_id && r@ == seq![
                    GitStoreEvent::RepositoryRemoved(id),
                ]
            },
    {
        let mut r: Vec<GitStoreEvent> = Vec::new();
        let i: usize = self.find_repository(id);
        if i < self.repositories.len() {
            let _ = self.repositories.remove(i);
        }
        let is_active: bool = match self.active_repo_id {
            Some(active) => active == id,
            None => false,
        };
        if is_active {
            self.active_repo_id = None;
            r.push(GitStoreEvent::ActiveRepositoryChanged(None));
        }
        r.push(GitStoreEvent::RepositoryRemoved(id));
        r
    }

    /// What is told when a repository tells of something.
    pub fn on_repository_event(&self, id: RepositoryId, event: RepositoryEvent) -> (r:
        GitStoreEvent)
        ensures
            r == GitStoreEvent::RepositoryUpdated(id, event, self.active_repo_id == Some(id)),
    {
        let is_active: bool = match self.active_repo_id {
            Some(active) => active == id,
            None => false,
        };
        GitStoreEvent::RepositoryUpdated(id, event, is_active)
    }
}

/// The repositories that some updates speak of.
pub open spec fn changed_repositories(
    repositories: Seq<RepositoryInfo>,
    updates: Seq<UpdatedGitRepository>,
) -> Seq<RepositoryId>
    decreases repositories.len(),
{
    if repositories.len() == 0 {
        Seq::empty()
    } else {
        let rest = changed_repositories(repositories.drop_last(), updates);
        if any_speaks_of(updates, repositories.last().work_directory_abs_path@) {
            rest.push(repositories.last().id)
        } else {
            rest
        }
    }
}

/// Whether one of some updates speaks of a repository.
pub open spec fn any_speaks_of(updates: Seq<UpdatedGitRepository>, dir: Seq<Seq<char>>) -> bool {
    exists|i: int| 0 <= i < updates.len() && speaks_of(#[trigger] updates[i], dir)
}

fn any_about(updates: &Vec<UpdatedGitRepository>, dir: &RelPath) -> (r: bool)
    ensures
        r == any_speaks_of(updates@, dir@),
{
    let mut i: usize = 0;
    while i < updates.len()
        invariant
            i <= updates@.len(),
            forall|j: int| 0 <= j < i ==> !speaks_of(#[trigger] updates@[j], dir@),
        decreases updates.len() - i,
    {
        if updates[i].is_about(dir) {
            assert(speaks_of(updates@[i as int], dir@));
            return true;
        }
        i = i + 1;
    }
    false
}

/// What a peer knows of the repositories.
#[derive(Debug)]
pub struct DownstreamState {
    pub snapshots: Vec<RepositorySnapshot>,
}

/// Where a repository stands among some, or how many there are.
pub open spec fn snapshot_index(snapshots: Seq<RepositorySnapshot>, id: RepositoryId) -> int
    decreases snapshots.len(),
{
    if snapshots.len() == 0 || snapshots.first().id == id {
        0
    } else {
        1 + snapshot_index(snapshots.drop_first(), id)
    }
}

/// The status of a file: what its repository knows of it.
pub open spec fn git_status(
    repositories: Seq<RepositoryInfo>,
    snapshots: Seq<RepositorySnapshot>,
    abs_path: Seq<Seq<char>>,
) -> Option<FileStatus> {
    match repository_of(repositories, abs_path) {
        Some(repository) => {
            let i: int = snapshot_index(snapshots, repository.id);
            if i < snapshots.len() {
                status_at(
                    snapshots[i].statuses_by_path@,
                    abs_path.skip(repository.work_directory_abs_path@.len() as int),
                )
            } else {
                None
            }
        },
        None => None,
    }
}

fn find_snapshot(snapshots: &Vec<RepositorySnapshot>, id: RepositoryId) -> (r: usize)
    ensures
        r == snapshot_index(snapshots@, id),
        r <= snapshots@.len(),
{
    let mut i: usize = 0;
    let ghost all = snapshots@;
    assert(all.skip(0) =~= all);
    while i < snapshots.len() && snapshots[i].id != id
        invariant
            i <= all.len(),
            all == snapshots@,
            i + snapshot_index(all.skip(i as int), id) == snapshot_index(all, id),
        decreases snapshots.len() - i,
    {
        proof {
            let here = all.skip(i as int);
            assert(here.drop_first() =~= all.skip(i + 1));
            assert(here.first() == all[i as int]);
        }
        i = i + 1;
    }
    assert(i < all.len() ==> all.skip(i as int).first() == all[i as int]);
    i
}

impl DownstreamState {
    pub open spec fn wf(&self) -> bool {
        forall|i: int| 0 <= i < self.snapshots@.len() ==> (#[trigger] self.snapshots@[i]).wf()
    }

    pub fn new() -> (r: DownstreamState)
        ensures
            r.wf(),
            r.snapshots@.len() == 0,
    {
        DownstreamState { snapshots: Vec::new() }
    }

    /// What is to be sent so that the peer knows a repository as it is: what has
    /// changed since it was last sent, or all of it.
    pub fn update_repository(&mut self, snapshot: RepositorySnapshot, project_id: u64) -> (r:
        UpdateRepository)
        requires
            old(self).wf(),
            snapshot.wf(),
        ensures
            final(self).wf(),
            snapshot.sent_with(r, project_id),
            ({
                let i: int = snapshot_index(old(self).snapshots@, snapshot.id);
                if i < old(self).snapshots@.len() {
                    let known = old(self).snapshots@[i];
                    &&& final(self).snapshots@ == old(self).snapshots@.update(i, snapshot)
                    &&& r.updated_statuses@ == wires(
                        updated(snapshot.statuses_by_path@, known.statuses_by_path@),
                    )
                    &&& r.removed_statuses@ == removed(
                        snapshot.statuses_by_path@,
                        known.statuses_by_path@,
                    )
                    &&& r.entry_ids@.len() == 0
                } else {
                    &&& final(self).snapshots@ == old(self).snapshots@.push(snapshot)
                    &&& r.updated_statuses@ == wires(snapshot.statuses_by_path@)
                    &&& r.removed_statuses@.len() == 0
                    &&& r.entry_ids@ == seq![snapshot.id.0]
                }
            }),
    {
        let i: usize = find_snapshot(&self.snapshots, snapshot.id);
        if i < self.snapshots.len() {
            let update = snapshot.build_update(&self.snapshots[i], project_id);
            self.snapshots.set(i, snapshot);
            update
        } else {
            let update = snapshot.initial_update(project_id);
            self.snapshots.push(snapshot);
            update
        }
    }
}

/// A checkpoint of a repository.
#[derive(Debug)]
pub struct RepositoryCheckpoint {
    pub work_directory_abs_path: Arc<RelPath>,
    pub checkpoint: u64,
}

/// The first checkpoint of a directory, or how many there are.
pub open spec fn checkpoint_index(
    checkpoints: Seq<RepositoryCheckpoint>,
    dir: Seq<Seq<char>>,
) -> int
    decreases checkpoints.len(),
{
    if checkpoints.len() == 0 || checkpoints.first().work_directory_abs_path@ == dir {
        0
    } else {
        1 + checkpoint_index(checkpoints.drop_first(), dir)
    }
}

/// Whether one of some repositories has a directory.
pub open spec fn has_directory(repositories: Seq<RepositoryInfo>, dir: Seq<Seq<char>>) -> bool {
    exists|i: int|
        0 <= i < repositories.len() && (#[trigger] repositories[i]).work_directory_abs_path@ == dir
}

/// The checkpoints that are to be compared: those of the same directory, where the
/// repository is there. Where the second side lacks a directory the sides differ.
pub open spec fn to_compare(
    repositories: Seq<RepositoryInfo>,
    left: Seq<RepositoryCheckpoint>,
    right: Seq<RepositoryCheckpoint>,
) -> Option<Seq<(u64, u64)>>
    decreases left.len(),
{
    if left.len() == 0 {
        Some(Seq::empty())
    } else {
        match to_compare(repositories, left.drop_last(), right) {
            None => None,
            Some(pairs) => {
                let dir = left.last().work_directory_abs_path@;
                let i: int = checkpoint_index(right, dir);
                if i >= right.len() {
                    None
                } else if has_directory(repositories, dir) {
                    Some(pairs.push((left.last().checkpoint, right[i].checkpoint)))
                } else {
                    Some(pairs)
                }
            },
        }
    }
}

/// Whether some checkpoints have one of each directory that others have one of.
pub open spec fn covers(
    checkpoints: Seq<RepositoryCheckpoint>,
    others: Seq<RepositoryCheckpoint>,
) -> bool {
    forall|i: int|
        0 <= i < others.len() ==> checkpoint_index(
            checkpoints,
            (#[trigger] others[i]).work_directory_abs_path@,
        ) < checkpoints.len()
}

/// The checkpoints that are to be compared. Where one side lacks a directory of the
/// other one the sides differ.
pub open spec fn comparison(
    repositories: Seq<RepositoryInfo>,
    left: Seq<RepositoryCheckpoint>,
    right: Seq<RepositoryCheckpoint>,
) -> Option<Seq<(u64, u64)>> {
    if covers(left, right) {
        to_compare(repositories, left, right)
    } else {
        None
    }
}

fn find_checkpoint(checkpoints: &Vec<RepositoryCheckpoint>, dir: &RelPath) -> (r: usize)
    ensures
        r == checkpoint_index(checkpoints@, dir@),
        r <= checkpoints@.len(),
{
    let mut i: usize = 0;
    let ghost all = checkpoints@;
    assert(all.skip(0) =~= all);
    while i < checkpoints.len() && !checkpoints[i].work_directory_abs_path.same(dir)
        invariant
            i <= all.len(),
            all == checkpoints@,
            i + checkpoint_index(all.skip(i as int), dir@) == checkpoint_index(all, dir@),
        decreases checkpoints.len() - i,
    {
        proof {
            let here = all.skip(i as int);
            assert(here.drop_first() =~= all.skip(i + 1));
            assert(here.first() == all[i as int]);
        }
        i = i + 1;
    }
    assert(i < all.len() ==> all.skip(i as int).first() == all[i as int]);
    i
}

impl GitStore {
    fn has_work_directory(&self, dir: &RelPath) -> (r: bool)
        ensures
            r == has_directory(self.repositories@, dir@),
    {
        let mut i: usize = 0;
        while i < self.repositories.len()
            invariant
                i <= self.repositories@.len(),
                forall|j: int|
                    0 <= j < i ==> (#[trigger] self.repositories@[j]).work_directory_abs_path@
                        != dir@,
            decreases self.repositories.len() - i,
        {
            if self.repositories[i].work_directory_abs_path.same(dir) {
                assert(self.repositories@[i as int].work_directory_abs_path@ == dir@);
                return true;
            }
            i = i + 1;
        }
        false
    }

    /// The checkpoints that are to be compared to find out whether two sets of
    /// checkpoints are equal, or none if they are known to differ.
    pub fn compare_checkpoints(
        &self,
        left: &Vec<RepositoryCheckpoint>,
        right: &Vec<RepositoryCheckpoint>,
    ) -> (r: Option<Vec<(u64, u64)>>)
        ensures
            match comparison(self.repositories@, left@, right@) {
                Some(pairs) => r is Some && r->0@ == pairs,
                None => r is None,
            },
    {
        let mut k: usize = 0;
        while k < right.len()
            invariant
                k <= right@.len(),
                covers(left@, right@.take(k as int)),
            decreases right.len() - k,
        {
            if find_checkpoint(left, &*right[k].work_directory_abs_path) >= left.len() {
                assert(checkpoint_index(left@, right@[k as int].work_directory_abs_path@)
                    >= left@.len());
                return None;
            }
            k = k + 1;
        }
        assert(right@.take(k as int) =~= right@);
        let mut pairs: Vec<(u64, u64)> = Vec::new();
        let mut i: usize = 0;
        let mut missing: bool = false;
        assert(left@.take(0) =~= Seq::empty());
        while i < left.len()
            invariant
                i <= left@.len(),
                match to_compare(self.repositories@, left@.take(i as int), right@) {
                    Some(known) => !missing && pairs@ == known,
                    None => missing,
                },
            decreases left.len() - i,
        {
            proof {
                let next = left@.take(i + 1);
                assert(next.drop_last() =~= left@.take(i as int));
                assert(next.last() == left@[i as int]);
            }
            if !missing {
                let dir = &left[i].work_directory_abs_path;
                let k: usize = find_checkpoint(right, &**dir);
                if k >= right.len() {
                    missing = true;
                } else if self.has_work_directory(&**dir) {
                    pairs.push((left[i].checkpoint, right[k].checkpoint));
                }
            }
            i = i + 1;
        }
        assert(left@.take(i as int) =~= left@);
        if missing {
            None
        } else {
            Some(pairs)
        }
    }

    /// The checkpoints of all repositories, by directory. They are given in the order of the
    /// repositories.
    pub fn checkpoint(&self, checkpoints: &Vec<u64>) -> (r: Vec<RepositoryCheckpoint>)
        requires
            checkpoints@.len() == self.repositories@.len(),
        ensures
            r@ == taken_checkpoints(self.repositories@, checkpoints@),
    {
        let mut r: Vec<RepositoryCheckpoint> = Vec::new();
        let mut i: usize = 0;
        while i < self.repositories.len()
            invariant
                i <= self.repositories@.len(),
                checkpoints@.len() == self.repositories@.len(),
                r@.len() == i,
                forall|k: int|
                    0 <= k < i ==> #[trigger] r@[k] == taken_checkpoints(
                        self.repositories@,
                        checkpoints@,
                    )[k],
            decreases self.repositories.len() - i,
        {
            r.push(
                RepositoryCheckpoint {
                    work_directory_abs_path: arc_clone(
                        &self.repositories[i].work_directory_abs_path,
                    ),
                    checkpoint: checkpoints[i],
                },
            );
            i = i + 1;
        }
        assert(r@ =~= taken_checkpoints(self.repositories@, checkpoints@));
        r
    }

    /// The checkpoints that are to be restored: those whose repository is there.
    pub fn restore_checkpoint(&self, checkpoints: &Vec<RepositoryCheckpoint>) -> (r: Vec<u64>)
        ensures
            r@ == to_restore(self.repositories@, checkpoints@),
    {
        let mut r: Vec<u64> = Vec::new();
        let mut i: usize = 0;
        assert(checkpoints@.take(0) =~= Seq::empty());
        while i < checkpoints.len()
            invariant
                i <= checkpoints@.len(),
                r@ == to_restore(self.repositories@, checkpoints@.take(i as int)),
            decreases checkpoints.len() - i,
        {
            proof {
                let next = checkpoints@.take(i + 1);
                assert(next.drop_last() =~= checkpoints@.take(i as int));
                assert(next.last() == checkpoints@[i as int]);
            }
            if self.has_work_directory(&*checkpoints[i].work_directory_abs_path) {
                r.push(checkpoints[i].checkpoint);
            }
            i = i + 1;
        }
        assert(checkpoints@.take(i as int) =~= checkpoints@);
        r
    }
}

/// The checkpoints of repositories, by directory.
pub open spec fn taken_checkpoints(
    repositories: Seq<RepositoryInfo>,
    checkpoints: Seq<u64>,
) -> Seq<RepositoryCheckpoint> {
    Seq::new(
        repositories.len(),
        |i: int|
            RepositoryCheckpoint {
                work_directory_abs_path: repositories[i].work_directory_abs_path,
                checkpoint: checkpoints[i],
            },
    )
}

/// The checkpoints whose repository is there.
pub open spec fn to_restore(
    repositories: Seq<RepositoryInfo>,
    checkpoints: Seq<RepositoryCheckpoint>,
) -> Seq<u64>
    decreases checkpoints.len(),
{
    if checkpoints.len() == 0 {
        Seq::empty()
    } else {
        let rest = to_restore(repositories, checkpoints.drop_last());
        if has_directory(repositories, checkpoints.last().work_directory_abs_path@) {
            rest.push(checkpoints.last().checkpoint)
        } else {
            rest
        }
    }
}

proof fn lemma_prefix_order(a: Seq<Seq<char>>, b: Seq<Seq<char>>, path: Seq<Seq<char>>)
    requires
        is_below(path, a),
        is_below(path, b),
    ensures
        path_before(a, b) == (a.len() < b.len()),
    decreases a.len(),
{
    if a.len() > 0 && b.len() > 0 {
        assert(path.take(a.len() as int)[0] == a[0]);
        assert(path.take(b.len() as int)[0] == b[0]);
        assert(path.drop_first().take(a.len() - 1) =~= path.take(a.len() as int).drop_first());
        assert(path.drop_first().take(b.len() - 1) =~= path.take(b.len() as int).drop_first());
        lemma_prefix_order(a.drop_first(), b.drop_first(), path.drop_first());
    }
}

/// A file belongs to the innermost repository that it lies in.
pub proof fn law_innermost_repository(
    repositories: Seq<RepositoryInfo>,
    path: Seq<Seq<char>>,
    k: int,
)
    requires
        0 <= k < repositories.len(),
        is_below(path, repositories[k].work_directory_abs_path@),
    ensures
        repository_of(repositories, path) is Some,
        is_below(path, repository_of(repositories, path)->0.work_directory_abs_path@),
        repositories[k].work_directory_abs_path@.len() <= repository_of(
            repositories,
            path,
        )->0.work_directory_abs_path@.len(),
    decreases repositories.len(),
{
    lemma_repository_contains(repositories, path);
    let rest = repositories.drop_last();
    lemma_repository_contains(rest, path);
    let last = repositories.last();
    if k < rest.len() {
        assert(rest[k] == repositories[k]);
        law_innermost_repository(rest, path, k);
    }
    if is_below(path, last.work_directory_abs_path@) && repository_of(rest, path) is Some {
        lemma_prefix_order(
            last.work_directory_abs_path@,
            repository_of(rest, path)->0.work_directory_abs_path@,
            path,
        );
    }
}

proof fn lemma_repository_contains(repositories: Seq<RepositoryInfo>, path: Seq<Seq<char>>)
    ensures
        match repository_of(repositories, path) {
            Some(repository) => is_below(path, repository.work_directory_abs_path@),
            None => true,
        },
    decreases repositories.len(),
{
    if repositories.len() > 0 {
        lemma_repository_contains(repositories.drop_last(), path);
    }
}

/// There is an active repository wherever there was one or one was added, until it
/// is lost.
pub proof fn law_first_repository_becomes_active(
    state: StoreState,
    updates: Seq<UpdatedGitRepository>,
)
    requires
        state.repositories.len() > 0 ==> state.active is Some,
    ensures
        with_updates(state, updates).repositories.len() > 0 ==> with_updates(
            state,
            updates,
        ).active is Some,
    decreases updates.len(),
{
    if updates.len() > 0 {
        law_first_repository_becomes_active(state, updates.drop_last());
    }
}

proof fn lemma_all_restored(
    repositories: Seq<RepositoryInfo>,
    taken: Seq<RepositoryCheckpoint>,
    checkpoints: Seq<u64>,
)
    requires
        taken.len() == checkpoints.len(),
        forall|k: int|
            0 <= k < taken.len() ==> (#[trigger] taken[k]).checkpoint == checkpoints[k]
                && has_directory(repositories, taken[k].work_directory_abs_path@),
    ensures
        to_restore(repositories, taken) == checkpoints,
    decreases taken.len(),
{
    if taken.len() > 0 {
        let rest = taken.drop_last();
        assert forall|k: int| 0 <= k < rest.len() implies (#[trigger] rest[k]).checkpoint
            == checkpoints.drop_last()[k] && has_directory(
            repositories,
            rest[k].work_directory_abs_path@,
        ) by {
            assert(rest[k] == taken[k]);
        }
        lemma_all_restored(repositories, rest, checkpoints.drop_last());
        assert(taken[taken.len() - 1].checkpoint == checkpoints.last());
        assert(checkpoints.drop_last().push(checkpoints.last()) =~= checkpoints);
    } else {
        assert(to_restore(repositories, taken) =~= checkpoints);
    }
}

/// Restoring what was just taken restores the checkpoint of every repository.
pub proof fn law_restored_checkpoint(repositories: Seq<RepositoryInfo>, checkpoints: Seq<u64>)
    requires
        checkpoints.len() == repositories.len(),
    ensures
        to_restore(repositories, taken_checkpoints(repositories, checkpoints)) == checkpoints,
{
    let taken = taken_checkpoints(repositories, checkpoints);
    assert forall|k: int| 0 <= k < taken.len() implies (#[trigger] taken[k]).checkpoint
        == checkpoints[k] && has_directory(repositories, taken[k].work_directory_abs_path@) by {
        assert(repositories[k].work_directory_abs_path@ == taken[k].work_directory_abs_path@);
    }
    lemma_all_restored(repositories, taken, checkpoints);
}

proof fn lemma_compared_are_covered(
    repositories: Seq<RepositoryInfo>,
    left: Seq<RepositoryCheckpoint>,
    right: Seq<RepositoryCheckpoint>,
)
    requires
        to_compare(repositories, left, right) is Some,
    ensures
        covers(right, left),
    decreases left.len(),
{
    if left.len() > 0 {
        lemma_compared_are_covered(repositories, left.drop_last(), right);
        assert forall|i: int| 0 <= i < left.len() implies checkpoint_index(
            right,
            (#[trigger] left[i]).work_directory_abs_path@,
        ) < right.len() by {
            if i < left.len() - 1 {
                assert(left.drop_last()[i] == left[i]);
            }
        }
    }
}

/// Checkpoints of which one side has a directory that the other one lacks are not equal:
/// there is nothing left to compare.
pub proof fn law_compared_sides_have_the_same_directories(
    repositories: Seq<RepositoryInfo>,
    left: Seq<RepositoryCheckpoint>,
    right: Seq<RepositoryCheckpoint>,
)
    ensures
        comparison(repositories, left, right) is Some ==> covers(left, right) && covers(
            right,
            left,
        ),
{
    if comparison(repositories, left, right) is Some {
        lemma_compared_are_covered(repositories, left, right);
    }
}

} // verus!
