//! How the panel takes up what the editor shows.

use vstd::prelude::*;
use std::sync::Arc;
use crate::collections::{VecMap, VecSet};
use crate::numbers::{following, number_after};
use crate::outline_panel::cached::deeper;
use crate::outline_panel::entries::{
    EntryKey, ExcerptId, FsChildren, FsEntry, FsEntryDirectory, FsEntryExternalFile, FsEntryFile,
    GitEntry, ProjectEntryId, WorktreeId,
};
use crate::outline_panel::fs_gather::{
    buffer_models, buffer_set, count_children, counted, excerpt_map, grouped, with_buffers,
    BufferExcerpts, ExcerptSnapshot, FileExcerpts, Gathered, Gathering, WorktreeEntry,
};
use crate::outline_panel::panel::{
    children_at, children_of, ChildCount, OutlinePanel, PendingWork, UnfoldedDirs,
};
use crate::path::{is_parent, RelPath};
use crate::shared::arc_clone;

verus! {

/// Buffers outside all worktrees.
pub open spec fn external_entries(external: Seq<FsEntryExternalFile>) -> Seq<FsEntry> {
    Seq::new(external.len(), |i: int| FsEntry::ExternalFile(external[i]))
}

/// The files and directories of worktrees. A file is listed only if the editor
/// shows it.
pub open spec fn worktree_entries(
    entries: Seq<WorktreeEntry>,
    files: Map<EntryKey, FileExcerpts>,
) -> Seq<FsEntry>
    decreases entries.len(),
{
    if entries.len() == 0 {
        Seq::empty()
    } else {
        let rest = worktree_entries(entries.drop_last(), files);
        let last = entries.last();
        let key = EntryKey { worktree_id: last.worktree_id, entry_id: last.entry.id };
        if last.entry.is_dir {
            rest.push(
                FsEntry::Directory(
                    FsEntryDirectory { worktree_id: last.worktree_id, entry: last.entry },
                ),
            )
        } else if files.contains_key(key) {
            rest.push(
                FsEntry::File(
                    FsEntryFile {
                        worktree_id: last.worktree_id,
                        entry: last.entry,
                        buffer_id: files[key].buffer_id,
                        excerpts: files[key].excerpts,
                    },
                ),
            )
        } else {
            rest
        }
    }
}

/// All that the panel shows: the buffers outside all worktrees, then the files
/// and directories.
pub open spec fn all_entries(gathered: Gathered) -> Seq<FsEntry> {
    external_entries(gathered.external) + worktree_entries(gathered.entries, gathered.files)
}

/// A directory that was met.
#[derive(Debug)]
pub struct VisitedDir {
    pub id: ProjectEntryId,
    pub path: Arc<RelPath>,
}

/// The directories met so far that a path lies in: up to the one it lies in
/// directly. A path that lies in no directory leaves all of them.
pub open spec fn common_visited(visited: Seq<VisitedDir>, path: Seq<Seq<char>>) -> Seq<VisitedDir>
    decreases visited.len(),
{
    if visited.len() == 0 || path.len() == 0 || is_parent(visited.last().path@, path) {
        visited
    } else {
        common_visited(visited.drop_last(), path)
    }
}

/// The directory that a path lies in, if it was met.
pub open spec fn visited_parent(visited: Seq<VisitedDir>, path: Seq<Seq<char>>) -> Option<
    ProjectEntryId,
> {
    let left = common_visited(visited, path);
    if left.len() > 0 && path.len() > 0 {
        Some(left.last().id)
    } else {
        None
    }
}

/// What is known of the entries met so far.
#[verifier::ext_equal]
pub struct Visited {
    pub dirs: Seq<VisitedDir>,
    pub depths: Map<EntryKey, usize>,
    pub unfolded_worktrees: Set<WorktreeId>,
    pub unfolded_dirs: Set<EntryKey>,
}

/// What is known of the entries met so far.
#[derive(Debug)]
pub struct Visit {
    pub dirs: Vec<VisitedDir>,
    pub depths: VecMap<EntryKey, usize>,
    pub unfolded: UnfoldedDirs,
}

impl View for Visit {
    type V = Visited;

    open spec fn view(&self) -> Visited {
        Visited {
            dirs: self.dirs@,
            depths: self.depths@,
            unfolded_worktrees: self.unfolded.worktrees@,
            unfolded_dirs: self.unfolded.dirs@,
        }
    }
}

/// How deep an entry is: one deeper than the directory it lies in, and a root
/// not at all.
pub open spec fn depth_of(
    visited: Visited,
    roots: Set<ProjectEntryId>,
    worktree_id: WorktreeId,
    entry: GitEntry,
) -> usize {
    if roots.contains(entry.id) {
        0
    } else {
        let above: usize = match visited_parent(visited.dirs, entry.path@) {
            Some(id) => {
                let key = EntryKey { worktree_id, entry_id: id };
                if visited.depths.contains_key(key) {
                    visited.depths[key]
                } else {
                    0
                }
            },
            None => 0,
        };
        deeper(above, 1)
    }
}

/// Whether a directory is not to be shown in one line with others: it has too
/// much below it, or it has only files below it and the directory met before it
/// is itself on its own.
pub open spec fn unfolds(
    visited: Visited,
    children: FsChildren,
    worktree_id: WorktreeId,
    entry: GitEntry,
) -> bool {
    let left = common_visited(visited.dirs, entry.path@);
    !children.foldable() || (children.dirs == 0 && (left.len() == 0
        || !visited.unfolded_worktrees.contains(worktree_id) || visited.unfolded_dirs.contains(
        EntryKey { worktree_id, entry_id: left.last().id },
    )))
}

/// Meets an entry.
pub open spec fn visited_entry(
    visited: Visited,
    roots: Set<ProjectEntryId>,
    auto_fold_dirs: bool,
    counts: spec_fn(WorktreeId, Seq<Seq<char>>) -> FsChildren,
    entry: FsEntry,
) -> Visited {
    match entry {
        FsEntry::ExternalFile(_) => Visited { dirs: Seq::empty(), ..visited },
        FsEntry::File(file) => Visited {
            dirs: common_visited(visited.dirs, file.entry.path@),
            depths: visited.depths.insert(
                EntryKey { worktree_id: file.worktree_id, entry_id: file.entry.id },
                depth_of(visited, roots, file.worktree_id, file.entry),
            ),
            ..visited
        },
        FsEntry::Directory(directory) => {
            let key = EntryKey {
                worktree_id: directory.worktree_id,
                entry_id: directory.entry.id,
            };
            let unfold = !roots.contains(directory.entry.id) && auto_fold_dirs && unfolds(
                visited,
                counts(directory.worktree_id, directory.entry.path@),
                directory.worktree_id,
                directory.entry,
            );
            Visited {
                dirs: common_visited(visited.dirs, directory.entry.path@).push(
                    VisitedDir { id: directory.entry.id, path: directory.entry.path },
                ),
                depths: visited.depths.insert(
                    key,
                    depth_of(visited, roots, directory.worktree_id, directory.entry),
                ),
                unfolded_worktrees: if unfold {
                    visited.unfolded_worktrees.insert(directory.worktree_id)
                } else {
                    visited.unfolded_worktrees
                },
                unfolded_dirs: if unfold {
                    visited.unfolded_dirs.insert(key)
                } else {
                    visited.unfolded_dirs
                },
            }
        },
    }
}

/// Meets entries.
pub open spec fn visited_entries(
    start: Visited,
    roots: Set<ProjectEntryId>,
    auto_fold_dirs: bool,
    counts: spec_fn(WorktreeId, Seq<Seq<char>>) -> FsChildren,
    entries: Seq<FsEntry>,
) -> Visited
    decreases entries.len(),
{
    if entries.len() == 0 {
        start
    } else {
        visited_entry(
            visited_entries(start, roots, auto_fold_dirs, counts, entries.drop_last()),
            roots,
            auto_fold_dirs,
            counts,
            entries.last(),
        )
    }
}

/// What lies directly in each directory. It is counted only where directories
/// may be shown in one line.
pub open spec fn child_counts(auto_fold_dirs: bool, entries: Seq<WorktreeEntry>) -> spec_fn(
    WorktreeId,
    Seq<Seq<char>>,
) -> FsChildren {
    |worktree_id: WorktreeId, path: Seq<Seq<char>>|
        if auto_fold_dirs {
            counted(entries, worktree_id, path)
        } else {
            FsChildren { files: 0, dirs: 0 }
        }
}

/// Goes back to the directories met so far that a path lies in. Returns the one
/// that it lies in directly.
pub fn back_to_common_visited_parent(
    visited_dirs: &mut Vec<VisitedDir>,
    worktree_id: WorktreeId,
    new_entry: &GitEntry,
) -> (r: Option<EntryKey>)
    ensures
        final(visited_dirs)@ == common_visited(old(visited_dirs)@, new_entry.path@),
        r == match visited_parent(old(visited_dirs)@, new_entry.path@) {
            Some(entry_id) => Some(EntryKey { worktree_id, entry_id }),
            None => None::<EntryKey>,
        },
{
    let ghost goal = common_visited(visited_dirs@, new_entry.path@);
    while visited_dirs.len() > 0
        invariant
            goal == common_visited(old(visited_dirs)@, new_entry.path@),
            common_visited(visited_dirs@, new_entry.path@) == goal,
        decreases visited_dirs.len(),
    {
        if new_entry.path.components.len() == 0 {
            return None;
        }
        let n: usize = visited_dirs.len();
        let last = &visited_dirs[n - 1];
        if last.path.is_parent_of(&*new_entry.path) {
            return Some(EntryKey { worktree_id, entry_id: last.id });
        }
        let ghost before = visited_dirs@;
        let _ = visited_dirs.pop();
        assert(visited_dirs@ =~= before.drop_last());
    }
    None
}

impl Visit {
    fn depth(&self, roots: &VecSet<ProjectEntryId>, id: ProjectEntryId, parent: &Option<EntryKey>)
        -> (r: usize)
        ensures
            r == (if roots@.contains(id) {
                0
            } else {
                deeper(
                    match *parent {
                        Some(key) => if self.depths@.contains_key(key) {
                            self.depths@[key]
                        } else {
                            0
                        },
                        None => 0,
                    },
                    1,
                )
            }),
    {
        if roots.contains(&id) {
            return 0;
        }
        let above: usize = match parent {
            Some(key) => match self.depths.get(key) {
                Some(depth) => *depth,
                None => 0,
            },
            None => 0,
        };
        above.saturating_add(1)
    }

    /// Meets an entry.
    pub fn enter(
        &mut self,
        roots: &VecSet<ProjectEntryId>,
        auto_fold_dirs: bool,
        counts: &Vec<ChildCount>,
        entry: &FsEntry,
    )
        requires
            old(self).depths.wf(),
        ensures
            final(self).depths.wf(),
            final(self)@ == visited_entry(
                old(self)@,
                roots@,
                auto_fold_dirs,
                |w: WorktreeId, p: Seq<Seq<char>>| children_at(counts@, w, p),
                *entry,
            ),
    {
        let ghost start = self@;
        match entry {
            FsEntry::ExternalFile(_) => {
                self.dirs = Vec::new();
                assert(self.dirs@ =~= Seq::empty());
            },
            FsEntry::File(file) => {
                let parent = back_to_common_visited_parent(
                    &mut self.dirs,
                    file.worktree_id,
                    &file.entry,
                );
                let depth: usize = self.depth(roots, file.entry.id, &parent);
                let _ = self.depths.insert(
                    EntryKey { worktree_id: file.worktree_id, entry_id: file.entry.id },
                    depth,
                );
            },
            FsEntry::Directory(directory) => {
                let key = EntryKey {
                    worktree_id: directory.worktree_id,
                    entry_id: directory.entry.id,
                };
                let parent = back_to_common_visited_parent(
                    &mut self.dirs,
                    directory.worktree_id,
                    &directory.entry,
                );
                let depth: usize = self.depth(roots, directory.entry.id, &parent);
                if auto_fold_dirs && !roots.contains(&directory.entry.id) {
                    let children = children_of(
                        counts,
                        directory.worktree_id,
                        &*directory.entry.path,
                    );
                    let n: usize = self.dirs.len();
                    let alone: bool = n == 0 || !self.unfolded.worktrees.contains(
                        &directory.worktree_id,
                    ) || self.unfolded.contains(directory.worktree_id, self.dirs[n - 1].id);
                    if !children.may_be_fold_part() || (children.dirs == 0 && alone) {
                        self.unfolded.insert(directory.worktree_id, directory.entry.id);
                    }
                }
                self.dirs.push(
                    VisitedDir {
                        id: directory.entry.id,
                        path: arc_clone(&directory.entry.path),
                    },
                );
                let _ = self.depths.insert(key, depth);
            },
        }
    }
}

/// That what the editor shows is to be taken up.
#[derive(Debug)]
pub struct FsEntriesUpdate {
    pub number: u64,
    /// The excerpts that were new when this was begun.
    pub new_entries: VecSet<ExcerptId>,
}

/// The panel after it has taken up what the editor shows.
pub open spec fn fs_updated(
    before: OutlinePanel,
    after: OutlinePanel,
    new_entries: Set<ExcerptId>,
    auto_fold_dirs: bool,
    snapshots: Seq<ExcerptSnapshot>,
    buffers: Seq<BufferExcerpts>,
) -> bool {
    let start = Gathered {
        collapsed: before.collapsed_entries@,
        unfolded_worktrees: before.unfolded_dirs.worktrees@,
        unfolded_dirs: before.unfolded_dirs.dirs@,
        roots: Set::empty(),
        entries: Seq::empty(),
        files: Map::empty(),
        external: Seq::empty(),
    };
    let gathered = with_buffers(start, auto_fold_dirs, buffers);
    let visited = visited_entries(
        Visited {
            dirs: Seq::empty(),
            depths: Map::empty(),
            unfolded_worktrees: gathered.unfolded_worktrees,
            unfolded_dirs: gathered.unfolded_dirs,
        },
        gathered.roots,
        auto_fold_dirs,
        child_counts(auto_fold_dirs, gathered.entries),
        all_entries(gathered),
    );
    &&& buffer_models(buffers) == grouped(
        before.excerpts.buffers@,
        new_entries,
        snapshots,
    )
    &&& after.fs_entries@ == all_entries(gathered)
    &&& after.collapsed_entries@ == gathered.collapsed
    &&& after.fs_entries_depth@ == visited.depths
    &&& after.unfolded_dirs.worktrees@ == visited.unfolded_worktrees
    &&& after.unfolded_dirs.dirs@ == visited.unfolded_dirs
    &&& forall|w: WorktreeId, p: Seq<Seq<char>>| #[trigger]
        children_at(after.fs_children_count@, w, p) == child_counts(
            auto_fold_dirs,
            gathered.entries,
        )(w, p)
    &&& after.excerpts.items@ == excerpt_map(before.excerpts.items@, snapshots)
    &&& after.excerpts.buffers@ == buffer_set(snapshots)
    &&& after.new_entries_for_fs_update@ == Set::<ExcerptId>::empty()
    &&& !after.updating_fs_entries
    &&& after.pending == (PendingWork { fs_entries: None, ..before.pending })
    &&& after.active == before.active
    &&& after.pinned == before.pinned
    &&& after.active_item == before.active_item
    &&& after.selected_entry == before.selected_entry
    &&& after.updating_cached_entries == before.updating_cached_entries
    &&& after.cached_entries == before.cached_entries
    &&& after.outline_fetches == before.outline_fetches
    &&& after.next_outline_fetch == before.next_outline_fetch
    &&& after.mode == before.mode
    &&& after.max_width_item_index == before.max_width_item_index
    &&& after.preserve_selection_on_buffer_fold_toggles
        == before.preserve_selection_on_buffer_fold_toggles
}

fn list_entries(gathering: &Gathering) -> (entries: Vec<FsEntry>)
    ensures
        entries@ == all_entries(gathering@),
{
    let mut entries: Vec<FsEntry> = Vec::new();
    let mut i: usize = 0;
    while i < gathering.external.len()
        invariant
            i <= gathering.external@.len(),
            entries@ == external_entries(gathering.external@).take(i as int),
        decreases gathering.external.len() - i,
    {
        entries.push(FsEntry::ExternalFile(gathering.external[i].clone()));
        i = i + 1;
        assert(entries@ =~= external_entries(gathering.external@).take(i as int));
    }
    let ghost external = external_entries(gathering.external@);
    assert(entries@ =~= external);
    let mut j: usize = 0;
    let ghost all = gathering.entries@;
    let ghost files = gathering.files@;
    assert(all.take(0) =~= Seq::empty());
    assert(external =~= external + worktree_entries(all.take(0), files));
    while j < gathering.entries.len()
        invariant
            j <= gathering.entries@.len(),
            all == gathering.entries@,
            files == gathering.files@,
            entries@ == external + worktree_entries(all.take(j as int), files),
        decreases gathering.entries.len() - j,
    {
        let entry = &gathering.entries[j];
        proof {
            let next = all.take(j + 1);
            assert(next.drop_last() =~= all.take(j as int));
            assert(next.last() == all[j as int]);
        }
        let ghost before = worktree_entries(all.take(j as int), files);
        if entry.entry.is_dir {
            let listed = FsEntry::Directory(
                FsEntryDirectory { worktree_id: entry.worktree_id, entry: entry.entry.clone() },
            );
            entries.push(listed);
            assert(entries@ =~= external + before.push(listed));
        } else {
            let key = EntryKey { worktree_id: entry.worktree_id, entry_id: entry.entry.id };
            match gathering.files.get(&key) {
                Some(file) => {
                    let listed = FsEntry::File(
                        FsEntryFile {
                            worktree_id: entry.worktree_id,
                            entry: entry.entry.clone(),
                            buffer_id: file.buffer_id,
                            excerpts: arc_clone(&file.excerpts),
                        },
                    );
                    entries.push(listed);
                    assert(entries@ =~= external + before.push(listed));
                },
                None => {},
            }
        }
        j = j + 1;
    }
    assert(all.take(j as int) =~= all);
    entries
}

impl OutlinePanel {
    /// Whether what the editor shows is to be taken up: only for a panel that is
    /// open. What was begun before is given up.
    pub fn begin_fs_entries_update(&mut self) -> (r: Option<FsEntriesUpdate>)
        ensures
            match r {
                Some(update) => {
                    &&& old(self).active
                    &&& update.number == old(self).pending.next
                    &&& update.new_entries@ == old(self).new_entries_for_fs_update@
                    &&& *final(self) == (OutlinePanel {
                        updating_fs_entries: true,
                        pending: PendingWork {
                            fs_entries: Some(update.number),
                            next: number_after(update.number),
                            ..old(self).pending
                        },
                        ..*old(self)
                    })
                },
                None => !old(self).active && *final(self) == *old(self),
            },
    {
        if !self.active {
            return None;
        }
        let number: u64 = self.pending.next;
        self.updating_fs_entries = true;
        self.pending.fs_entries = Some(number);
        self.pending.next = following(number);
        Some(FsEntriesUpdate { number, new_entries: self.new_entries_for_fs_update.copy() })
    }

    /// Takes up what the editor shows, unless that was given up.
    pub fn update_fs_entries(
        &mut self,
        update: &FsEntriesUpdate,
        auto_fold_dirs: bool,
        snapshots: &Vec<ExcerptSnapshot>,
    )
        requires
            old(self).wf(),
        ensures
            final(self).wf(),
            if old(self).pending.fs_entries == Some(update.number) {
                exists|buffers: Seq<BufferExcerpts>| #[trigger]
                    fs_updated(
                        *old(self),
                        *final(self),
                        update.new_entries@,
                        auto_fold_dirs,
                        snapshots@,
                        buffers,
                    )
            } else {
                *final(self) == *old(self)
            },
    {
        let awaited: bool = match self.pending.fs_entries {
            Some(number) => number == update.number,
            None => false,
        };
        if !awaited {
            return ;
        }
        let ghost before = *self;
        let buffers = self.group_excerpts(&update.new_entries, snapshots);
        let excerpts = self.refreshed_excerpts(snapshots);
        let mut gathering = Gathering {
            collapsed: self.collapsed_entries.copy(),
            unfolded: UnfoldedDirs {
                worktrees: self.unfolded_dirs.worktrees.copy(),
                dirs: self.unfolded_dirs.dirs.copy(),
            },
            roots: VecSet::new(),
            entries: Vec::new(),
            files: VecMap::new(),
            external: Vec::new(),
        };
        let ghost start = Gathered {
            collapsed: before.collapsed_entries@,
            unfolded_worktrees: before.unfolded_dirs.worktrees@,
            unfolded_dirs: before.unfolded_dirs.dirs@,
            roots: Set::empty(),
            entries: Seq::empty(),
            files: Map::empty(),
            external: Seq::empty(),
        };
        assert(gathering@ =~= start);
        gathering.add_buffers(auto_fold_dirs, &buffers);
        let ghost gathered = gathering@;
        let entries = list_entries(&gathering);
        let counts: Vec<ChildCount> = if auto_fold_dirs {
            count_children(&gathering.entries)
        } else {
            Vec::new()
        };
        let ghost counting = child_counts(auto_fold_dirs, gathered.entries);
        proof {
            assert forall|w: WorktreeId, p: Seq<Seq<char>>| #[trigger]
                children_at(counts@, w, p) == counting(w, p) by {
            }
            assert((|w: WorktreeId, p: Seq<Seq<char>>| children_at(counts@, w, p)) =~= counting);
        }
        let Gathering { collapsed, unfolded, roots, entries: _, files: _, external: _ } = gathering;
        let mut visit = Visit { dirs: Vec::new(), depths: VecMap::new(), unfolded };
        let ghost visit_start = Visited {
            dirs: Seq::empty(),
            depths: Map::empty(),
            unfolded_worktrees: gathered.unfolded_worktrees,
            unfolded_dirs: gathered.unfolded_dirs,
        };
        assert(visit@ =~= visit_start);
        let mut i: usize = 0;
        assert(entries@.take(0) =~= Seq::empty());
        while i < entries.len()
            invariant
                i <= entries@.len(),
                visit.depths.wf(),
                roots@ == gathered.roots,
                counting == (|w: WorktreeId, p: Seq<Seq<char>>| children_at(counts@, w, p)),
                visit@ == visited_entries(
                    visit_start,
                    gathered.roots,
                    auto_fold_dirs,
                    counting,
                    entries@.take(i as int),
                ),
            decreases entries.len() - i,
        {
            proof {
                let next = entries@.take(i + 1);
                assert(next.drop_last() =~= entries@.take(i as int));
                assert(next.last() == entries@[i as int]);
            }
            visit.enter(&roots, auto_fold_dirs, &counts, &entries[i]);
            i = i + 1;
        }
        assert(entries@.take(i as int) =~= entries@);
        self.updating_fs_entries = false;
        self.pending.fs_entries = None;
        self.new_entries_for_fs_update.clear();
        self.excerpts = excerpts;
        self.collapsed_entries = collapsed;
        self.unfolded_dirs = visit.unfolded;
        self.fs_entries = entries;
        self.fs_entries_depth = visit.depths;
        self.fs_children_count = counts;
        assert(fs_updated(
            before,
            *self,
            update.new_entries@,
            auto_fold_dirs,
            snapshots@,
            buffers@,
        ));
    }
}

} // verus!
