//! Which files are staged or unstaged, and which repositories a change of files is about.

use vstd::prelude::*;
use std::sync::Arc;
use crate::git_store::requests::GitCommand;
use crate::git_store::snapshot::RepositoryId;
use crate::git_store::store::{repository_of, GitStore, RepositoryInfo};
use crate::path::RelPath;
use crate::shared::arc_clone;

verus! {

/// How much of a file's changes is staged.
#[derive(Copy, Clone, Debug, PartialEq, Eq, Structural)]
pub enum StageStatus {
    Staged,
    Unstaged,
    PartiallyStaged,
}

impl StageStatus {
    pub fn is_fully_staged(self) -> (r: bool)
        ensures
            r == (self == StageStatus::Staged),
    {
        self == StageStatus::Staged
    }

    pub fn has_staged(self) -> (r: bool)
        ensures
            r == (self != StageStatus::Unstaged),
    {
        self != StageStatus::Unstaged
    }
}

/// A file that differs from the last commit.
#[derive(Debug)]
pub struct StagedEntry {
    pub repo_path: Arc<RelPath>,
    pub staging: StageStatus,
}

/// The paths of the files of which not everything is staged, or of those of which something
/// is.
pub open spec fn chosen_paths(entries: Seq<StagedEntry>, to_stage: bool) -> Seq<Arc<RelPath>>
    decreases entries.len(),
{
    if entries.len() == 0 {
        Seq::empty()
    } else {
        let before = chosen_paths(entries.drop_last(), to_stage);
        let entry = entries.last();
        if (to_stage && entry.staging != StageStatus::Staged) || (!to_stage && entry.staging
            != StageStatus::Unstaged) {
            before.push(entry.repo_path)
        } else {
            before
        }
    }
}

fn choose_paths(entries: &Vec<StagedEntry>, to_stage: bool) -> (r: Vec<Arc<RelPath>>)
    ensures
        r@ == chosen_paths(entries@, to_stage),
{
    let mut r: Vec<Arc<RelPath>> = Vec::new();
    let mut i: usize = 0;
    assert(entries@.take(0) =~= Seq::<StagedEntry>::empty());
    while i < entries.len()
        invariant
            i <= entries@.len(),
            r@ == chosen_paths(entries@.take(i as int), to_stage),
        decreases entries.len() - i,
    {
        assert(entries@.take(i + 1).drop_last() =~= entries@.take(i as int));
        let staging: StageStatus = entries[i].staging;
        let wanted: bool = if to_stage {
            !staging.is_fully_staged()
        } else {
            staging.has_staged()
        };
        if wanted {
            r.push(arc_clone(&entries[i].repo_path));
        }
        i = i + 1;
    }
    assert(entries@.take(i as int) =~= entries@);
    r
}

/// What is staged if everything is to be: the files that are not fully staged.
pub fn stage_all(entries: &Vec<StagedEntry>) -> (r: Vec<Arc<RelPath>>)
    ensures
        r@ == chosen_paths(entries@, true),
{
    choose_paths(entries, true)
}

/// What is unstaged if everything is to be: the files of which something is staged.
pub fn unstage_all(entries: &Vec<StagedEntry>) -> (r: Vec<Arc<RelPath>>)
    ensures
        r@ == chosen_paths(entries@, false),
{
    choose_paths(entries, false)
}

/// Every file is chosen for staging or has everything staged, and is chosen for unstaging or
/// has nothing staged.
pub proof fn law_every_file_is_chosen(entries: Seq<StagedEntry>, k: int)
    requires
        0 <= k < entries.len(),
    ensures
        entries[k].staging == StageStatus::Staged || chosen_paths(entries, true).contains(
            entries[k].repo_path,
        ),
        entries[k].staging == StageStatus::Unstaged || chosen_paths(entries, false).contains(
            entries[k].repo_path,
        ),
    decreases entries.len(),
{
    let staged = chosen_paths(entries, true);
    let unstaged = chosen_paths(entries, false);
    if k < entries.len() - 1 {
        let rest = entries.drop_last();
        law_every_file_is_chosen(rest, k);
        assert(rest[k] == entries[k]);
        let before = chosen_paths(rest, true);
        if before.contains(entries[k].repo_path) {
            let i: int = choose|i: int| 0 <= i < before.len() && before[i] == entries[k].repo_path;
            assert(staged[i] == entries[k].repo_path);
        }
        let before = chosen_paths(rest, false);
        if before.contains(entries[k].repo_path) {
            let i: int = choose|i: int| 0 <= i < before.len() && before[i] == entries[k].repo_path;
            assert(unstaged[i] == entries[k].repo_path);
        }
    } else {
        if entries[k].staging != StageStatus::Staged {
            assert(staged.last() == entries[k].repo_path);
        }
        if entries[k].staging != StageStatus::Unstaged {
            assert(unstaged.last() == entries[k].repo_path);
        }
    }
}

/// A buffer that is open on a file.
#[derive(Copy, Clone, Debug, PartialEq, Eq, Structural)]
pub struct OpenBuffer {
    pub buffer_id: u64,
    /// Whether the file exists on disk.
    pub exists_on_disk: bool,
}

/// The buffers to save.
pub open spec fn to_save(open: Seq<Option<OpenBuffer>>) -> Seq<u64>
    decreases open.len(),
{
    if open.len() == 0 {
        Seq::empty()
    } else {
        let before = to_save(open.drop_last());
        match open.last() {
            Some(buffer) => if buffer.exists_on_disk {
                before.push(buffer.buffer_id)
            } else {
                before
            },
            None => before,
        }
    }
}

fn buffers_to_save(open: &Vec<Option<OpenBuffer>>) -> (r: Vec<u64>)
    ensures
        r@ == to_save(open@),
{
    let mut r: Vec<u64> = Vec::new();
    let mut i: usize = 0;
    assert(open@.take(0) =~= Seq::<Option<OpenBuffer>>::empty());
    while i < open.len()
        invariant
            i <= open@.len(),
            r@ == to_save(open@.take(i as int)),
        decreases open.len() - i,
    {
        assert(open@.take(i + 1).drop_last() =~= open@.take(i as int));
        if let Some(buffer) = open[i] {
            if buffer.exists_on_disk {
                r.push(buffer.buffer_id);
            }
        }
        i = i + 1;
    }
    assert(open@.take(i as int) =~= open@);
    r
}

/// The steps of staging or unstaging files: the buffers are saved, in order, and then the
/// command runs.
#[derive(Debug)]
pub struct StagePlan {
    pub save: Vec<u64>,
    pub command: GitCommand,
}

/// How files are staged. The open buffers among them that exist on disk are saved first.
/// Without files nothing is done at all.
pub fn stage_entries(entries: Vec<RelPath>, open: &Vec<Option<OpenBuffer>>) -> (r: Option<StagePlan>)
    requires
        open@.len() == entries@.len(),
    ensures
        match r {
            Some(plan) => entries@.len() > 0 && plan.save@ == to_save(open@) && plan.command
                == GitCommand::StagePaths(entries),
            None => entries@.len() == 0,
        },
{
    if entries.len() == 0 {
        return None;
    }
    Some(StagePlan { save: buffers_to_save(open), command: GitCommand::StagePaths(entries) })
}

/// How files are unstaged. The open buffers among them that exist on disk are saved first.
/// Without files nothing is done at all.
pub fn unstage_entries(entries: Vec<RelPath>, open: &Vec<Option<OpenBuffer>>) -> (r: Option<
    StagePlan,
>)
    requires
        open@.len() == entries@.len(),
    ensures
        match r {
            Some(plan) => entries@.len() > 0 && plan.save@ == to_save(open@) && plan.command
                == GitCommand::UnstagePaths(entries),
            None => entries@.len() == 0,
        },
{
    if entries.len() == 0 {
        return None;
    }
    Some(StagePlan { save: buffers_to_save(open), command: GitCommand::UnstagePaths(entries) })
}

/// The paths of files that lie in a repository.
pub open spec fn paths_in(
    repositories: Seq<RepositoryInfo>,
    id: RepositoryId,
    paths: Seq<RelPath>,
) -> Seq<Seq<Seq<char>>>
    decreases paths.len(),
{
    if paths.len() == 0 {
        Seq::empty()
    } else {
        let before = paths_in(repositories, id, paths.drop_last());
        let path = paths.last()@;
        match repository_of(repositories, path) {
            Some(repository) => if repository.id == id {
                before.push(path.skip(repository.work_directory_abs_path@.len() as int))
            } else {
                before
            },
            None => before,
        }
    }
}

/// The files of a repository that have changed.
#[derive(Debug)]
pub struct ChangedFiles {
    pub repository_id: RepositoryId,
    pub repo_paths: Vec<RelPath>,
}

/// Paths.
pub open spec fn path_views(paths: Seq<RelPath>) -> Seq<Seq<Seq<char>>> {
    paths.map_values(|path: RelPath| path@)
}

/// The files that have changed, by repository.
pub open spec fn grouped(
    groups: Seq<ChangedFiles>,
    repositories: Seq<RepositoryInfo>,
    paths: Seq<RelPath>,
) -> bool {
    &&& forall|a: int, b: int|
        #![trigger groups[a], groups[b]]
        0 <= a < b < groups.len() ==> groups[a].repository_id != groups[b].repository_id
    &&& forall|a: int|
        0 <= a < groups.len() ==> path_views((#[trigger] groups[a]).repo_paths@) == paths_in(
            repositories,
            groups[a].repository_id,
            paths,
        )
    &&& forall|id: RepositoryId|
        (#[trigger] paths_in(repositories, id, paths)).len() > 0 ==> has_group(groups, id)
}

/// Whether files of a repository have changed.
pub open spec fn has_group(groups: Seq<ChangedFiles>, id: RepositoryId) -> bool {
    exists|a: int| 0 <= a < groups.len() && (#[trigger] groups[a]).repository_id == id
}

impl GitStore {
    fn add_changed(groups: &mut Vec<ChangedFiles>, id: RepositoryId, repo_path: RelPath)
        requires
            forall|a: int, b: int|
                #![trigger old(groups)@[a], old(groups)@[b]]
                0 <= a < b < old(groups)@.len() ==> old(groups)@[a].repository_id != old(
                    groups,
                )@[b].repository_id,
        ensures
            final(groups)@.len() == old(groups)@.len() + if has_group(old(groups)@, id) {
                0int
            } else {
                1
            },
            forall|a: int|
                0 <= a < old(groups)@.len() ==> (#[trigger] final(groups)@[a]).repository_id
                    == old(groups)@[a].repository_id && path_views(final(groups)@[a].repo_paths@)
                    == if old(groups)@[a].repository_id == id {
                    path_views(old(groups)@[a].repo_paths@).push(repo_path@)
                } else {
                    path_views(old(groups)@[a].repo_paths@)
                },
            !has_group(old(groups)@, id) ==> {
                &&& final(groups)@.last().repository_id == id
                &&& path_views(final(groups)@.last().repo_paths@) == seq![repo_path@]
            },
    {
        let mut i: usize = 0;
        while i < groups.len()
            invariant
                i <= groups@.len(),
                groups@ == old(groups)@,
                forall|a: int| 0 <= a < i ==> (#[trigger] groups@[a]).repository_id != id,
                forall|a: int, b: int|
                    #![trigger old(groups)@[a], old(groups)@[b]]
                    0 <= a < b < old(groups)@.len() ==> old(groups)@[a].repository_id != old(
                        groups,
                    )@[b].repository_id,
            decreases groups.len() - i,
        {
            if groups[i].repository_id == id {
                let ghost before = groups@[i as int];
                assert(has_group(old(groups)@, id));
                groups[i].repo_paths.push(repo_path);
                assert(path_views(groups@[i as int].repo_paths@) =~= path_views(
                    before.repo_paths@,
                ).push(repo_path@));
                return ;
            }
            i = i + 1;
        }
        let mut repo_paths: Vec<RelPath> = Vec::new();
        repo_paths.push(repo_path);
        assert(path_views(repo_paths@) =~= seq![repo_path@]);
        groups.push(ChangedFiles { repository_id: id, repo_paths });
    }

    /// The files that have changed, by the repository that each lies in. Files that lie in
    /// none are left out.
    pub fn changed_files(&self, abs_paths: &Vec<RelPath>) -> (r: Vec<ChangedFiles>)
        ensures
            grouped(r@, self.repositories@, abs_paths@),
    {
        let mut r: Vec<ChangedFiles> = Vec::new();
        let mut i: usize = 0;
        let ghost all = self.repositories@;
        assert(abs_paths@.take(0) =~= Seq::<RelPath>::empty());
        while i < abs_paths.len()
            invariant
                i <= abs_paths@.len(),
                all == self.repositories@,
                grouped(r@, all, abs_paths@.take(i as int)),
            decreases abs_paths.len() - i,
        {
            let ghost now = abs_paths@.take(i as int);
            let ghost next = abs_paths@.take(i + 1);
            let ghost before = r@;
            assert(next.drop_last() =~= now);
            assert(next.last() == abs_paths@[i as int]);
            match self.repository_and_path_for_project_path(&abs_paths[i]) {
                Some(located) => {
                    let id = located.repository_id;
                    let ghost path = located.repo_path@;
                    Self::add_changed(&mut r, id, located.repo_path);
                    proof {
                        assert forall|a: int| 0 <= a < r@.len() implies path_views(
                            (#[trigger] r@[a]).repo_paths@,
                        ) == paths_in(all, r@[a].repository_id, next) by {
                            if a < before.len() {
                                assert(before[a].repository_id == r@[a].repository_id);
                            } else {
                                assert(!has_group(before, id));
                                assert(paths_in(all, id, now).len() == 0);
                                assert(paths_in(all, id, next) =~= seq![path]);
                            }
                        }
                        assert forall|a: int, b: int|
                            #![trigger r@[a], r@[b]]
                            0 <= a < b < r@.len() implies r@[a].repository_id
                            != r@[b].repository_id by {
                            assert(r@[a].repository_id == before[a].repository_id);
                            if b < before.len() {
                                assert(r@[b].repository_id == before[b].repository_id);
                            }
                        }
                        assert forall|other: RepositoryId|
                            (#[trigger] paths_in(all, other, next)).len() > 0 implies has_group(
                            r@,
                            other,
                        ) by {
                            if other == id && !has_group(before, id) {
                                assert(r@[r@.len() - 1].repository_id == id);
                            } else {
                                if other != id {
                                    assert(paths_in(all, other, now).len() > 0);
                                }
                                let a: int = choose|a: int|
                                    0 <= a < before.len() && (#[trigger] before[a]).repository_id
                                        == other;
                                assert(r@[a].repository_id == other);
                            }
                        }
                    }
                },
                None => {
                    assert forall|id: RepositoryId| #[trigger]
                        paths_in(all, id, next) == paths_in(all, id, now) by {}
                },
            }
            assert(grouped(r@, all, next));
            i = i + 1;
        }
        assert(abs_paths@.take(i as int) =~= abs_paths@);
        r
    }
}

proof fn lemma_paths_in(
    repositories: Seq<RepositoryInfo>,
    id: RepositoryId,
    paths: Seq<RelPath>,
    k: int,
)
    requires
        0 <= k < paths.len(),
        repository_of(repositories, paths[k]@) is Some,
        repository_of(repositories, paths[k]@)->0.id == id,
    ensures
        paths_in(repositories, id, paths).contains(
            paths[k]@.skip(
                repository_of(repositories, paths[k]@)->0.work_directory_abs_path@.len() as int,
            ),
        ),
    decreases paths.len(),
{
    let init = paths.drop_last();
    let all = paths_in(repositories, id, paths);
    let before = paths_in(repositories, id, init);
    let part = paths[k]@.skip(
        repository_of(repositories, paths[k]@)->0.work_directory_abs_path@.len() as int,
    );
    if k < init.len() {
        assert(init[k] == paths[k]);
        lemma_paths_in(repositories, id, init, k);
        let m: int = choose|m: int| 0 <= m < before.len() && before[m] == part;
        assert(all[m] == part);
    } else {
        assert(all[all.len() - 1] == part);
    }
}

/// Each file that changed is named under the repository that it is in, by its path there.
pub proof fn law_changed_files_go_to_their_repositories(
    store: GitStore,
    abs_paths: Vec<RelPath>,
    r: Vec<ChangedFiles>,
    k: int,
)
    requires
        call_ensures(GitStore::changed_files, (&store, &abs_paths), r),
        0 <= k < abs_paths@.len(),
        repository_of(store.repositories@, abs_paths@[k]@) is Some,
    ensures
        ({
            let repository = repository_of(store.repositories@, abs_paths@[k]@)->0;
            exists|a: int, m: int|
                0 <= a < r@.len() && (#[trigger] r@[a]).repository_id == repository.id && 0 <= m
                    < r@[a].repo_paths@.len() && (#[trigger] r@[a].repo_paths@[m])@
                    == abs_paths@[k]@.skip(repository.work_directory_abs_path@.len() as int)
        }),
        forall|a: int, b: int|
            0 <= a < b < r@.len() ==> (#[trigger] r@[a]).repository_id != (
            #[trigger] r@[b]).repository_id,
{
    let repository = repository_of(store.repositories@, abs_paths@[k]@)->0;
    let id = repository.id;
    lemma_paths_in(store.repositories@, id, abs_paths@, k);
    let inside = paths_in(store.repositories@, id, abs_paths@);
    let part = abs_paths@[k]@.skip(repository.work_directory_abs_path@.len() as int);
    let m: int = choose|m: int| 0 <= m < inside.len() && inside[m] == part;
    assert(inside.len() > 0);
    assert(has_group(r@, id));
    let a: int = choose|a: int| 0 <= a < r@.len() && (#[trigger] r@[a]).repository_id == id;
    assert(path_views(r@[a].repo_paths@) == inside);
    assert(path_views(r@[a].repo_paths@).len() == r@[a].repo_paths@.len());
    assert(path_views(r@[a].repo_paths@)[m] == r@[a].repo_paths@[m]@);
    assert(r@[a].repository_id == repository.id && r@[a].repo_paths@[m]@ == part);
}

} // verus!
