//! The state of the panel, and what it asks of the project and the editor.

use vstd::prelude::*;
use std::sync::Arc;
use crate::collections::{item_set, Same, VecMap, VecSet};
use crate::outline_panel::entries::{
    AnchorRange, BufferId, CachedEntry, CollapsedEntry, EntryKey, Excerpt, ExcerptId, FsChildren,
    FsEntry, GitEntry, ProjectEntryId, SearchData, SearchKind, SelectedEntry, WorktreeId,
};
use crate::path::{AnyPath, Os, RelPath};
use crate::shared::arc_clone;

verus! {

/// A buffer and one of its excerpts.
#[derive(Copy, Clone, Debug, PartialEq, Eq, Structural)]
pub struct ExcerptKey {
    pub buffer_id: BufferId,
    pub excerpt_id: ExcerptId,
}

impl Same for ExcerptKey {
    fn same(&self, other: &ExcerptKey) -> (r: bool) {
        *self == *other
    }
}

/// What is shown below a directory.
#[derive(Debug)]
pub struct ChildCount {
    pub worktree_id: WorktreeId,
    pub path: Arc<RelPath>,
    pub children: FsChildren,
}

/// What is shown below a directory, by its worktree and path.
pub open spec fn children_at(
    counts: Seq<ChildCount>,
    worktree_id: WorktreeId,
    path: Seq<Seq<char>>,
) -> FsChildren
    decreases counts.len(),
{
    if counts.len() == 0 {
        FsChildren { files: 0, dirs: 0 }
    } else if counts.last().worktree_id == worktree_id && counts.last().path@ == path {
        counts.last().children
    } else {
        children_at(counts.drop_last(), worktree_id, path)
    }
}

/// What is shown below a directory, by its worktree and path.
pub fn children_of(counts: &Vec<ChildCount>, worktree_id: WorktreeId, path: &RelPath) -> (r:
    FsChildren)
    ensures
        r == children_at(counts@, worktree_id, path@),
{
    let mut i: usize = counts.len();
    assert(counts@.take(i as int) =~= counts@);
    while i > 0
        invariant
            i <= counts@.len(),
            children_at(counts@.take(i as int), worktree_id, path@) == children_at(
                counts@,
                worktree_id,
                path@,
            ),
        decreases i,
    {
        proof {
            let here = counts@.take(i as int);
            assert(here.drop_last() =~= counts@.take(i - 1));
            assert(here.last() == counts@[i - 1]);
        }
        let count = &counts[i - 1];
        if count.worktree_id == worktree_id && count.path.same(path) {
            return count.children;
        }
        i = i - 1;
    }
    FsChildren::default()
}

/// The directories that are not to be shown in one line with others.
#[derive(Debug)]
pub struct UnfoldedDirs {
    pub worktrees: VecSet<WorktreeId>,
    pub dirs: VecSet<EntryKey>,
}

impl UnfoldedDirs {
    pub open spec fn has(self, worktree_id: WorktreeId, entry_id: ProjectEntryId) -> bool {
        self.dirs@.contains(EntryKey { worktree_id, entry_id })
    }

    pub fn new() -> (r: UnfoldedDirs)
        ensures
            r.worktrees@ == Set::<WorktreeId>::empty(),
            r.dirs@ == Set::<EntryKey>::empty(),
    {
        UnfoldedDirs { worktrees: VecSet::new(), dirs: VecSet::new() }
    }

    pub fn contains(&self, worktree_id: WorktreeId, entry_id: ProjectEntryId) -> (r: bool)
        ensures
            r == self.has(worktree_id, entry_id),
    {
        self.dirs.contains(&EntryKey { worktree_id, entry_id })
    }

    /// Marks a directory.
    pub fn insert(&mut self, worktree_id: WorktreeId, entry_id: ProjectEntryId)
        ensures
            final(self).worktrees@ == old(self).worktrees@.insert(worktree_id),
            final(self).dirs@ == old(self).dirs@.insert(EntryKey { worktree_id, entry_id }),
    {
        let _ = self.worktrees.insert(worktree_id);
        let _ = self.dirs.insert(EntryKey { worktree_id, entry_id });
    }
}

/// The excerpts that are known, by buffer.
#[derive(Debug)]
pub struct Excerpts {
    pub buffers: VecSet<BufferId>,
    pub items: VecMap<ExcerptKey, Excerpt>,
}

/// A match of a search.
#[derive(Debug)]
pub struct SearchMatch {
    pub range: AnchorRange,
    /// The text around the match as it is shown, where it is at hand.
    pub render_data: Option<Arc<SearchData>>,
}

impl Clone for SearchMatch {
    fn clone(&self) -> (copy: SearchMatch)
        ensures
            copy == *self,
    {
        SearchMatch {
            range: self.range,
            render_data: match &self.render_data {
                Some(data) => Some(arc_clone(data)),
                None => None,
            },
        }
    }
}

/// A search whose matches the panel shows.
#[derive(Debug)]
pub struct SearchState {
    pub kind: SearchKind,
    pub query: String,
    pub matches: Vec<SearchMatch>,
}

/// What the panel shows below a file.
#[derive(Debug)]
pub enum ItemsDisplayMode {
    Search(SearchState),
    Outline,
}

/// The work under way. Of each kind only the result of what was begun last is taken.
#[derive(Copy, Clone, Debug)]
pub struct PendingWork {
    /// Taking up what the editor shows.
    pub fs_entries: Option<u64>,
    /// Making the lines anew.
    pub cached_entries: Option<u64>,
    /// Showing the place of the cursor.
    pub reveal: Option<u64>,
    /// The number of what is begun next.
    pub next: u64,
}

/// The panel.
#[derive(Debug)]
pub struct OutlinePanel {
    pub active: bool,
    pub pinned: bool,
    /// The item whose contents the panel shows.
    pub active_item: Option<u64>,
    pub fs_entries: Vec<FsEntry>,
    pub fs_entries_depth: VecMap<EntryKey, usize>,
    pub fs_children_count: Vec<ChildCount>,
    pub collapsed_entries: VecSet<CollapsedEntry>,
    pub unfolded_dirs: UnfoldedDirs,
    pub selected_entry: SelectedEntry,
    pub updating_fs_entries: bool,
    pub updating_cached_entries: bool,
    pub pending: PendingWork,
    pub new_entries_for_fs_update: VecSet<ExcerptId>,
    pub excerpts: Excerpts,
    /// The excerpts whose symbols were asked for, and the number of the request of which an
    /// answer is taken.
    pub outline_fetches: VecMap<ExcerptKey, u64>,
    /// The number of the next request for symbols.
    pub next_outline_fetch: u64,
    pub cached_entries: Vec<CachedEntry>,
    pub mode: ItemsDisplayMode,
    pub max_width_item_index: Option<usize>,
    pub preserve_selection_on_buffer_fold_toggles: VecSet<BufferId>,
}

/// A worktree of the project.
#[derive(Debug)]
pub struct WorktreeInfo {
    pub id: WorktreeId,
    pub abs_path: AnyPath,
    pub root_entry: Option<GitEntry>,
}

/// What the project and the editor say.
#[derive(Debug)]
pub struct PanelEnv {
    /// The kind of machine, which tells how paths are written.
    pub os: Os,
    pub auto_fold_dirs: bool,
    pub worktrees: Vec<WorktreeInfo>,
    /// The buffers that the editor shows folded.
    pub folded_buffers: VecSet<BufferId>,
    /// The paths of the buffers at hand that have a file.
    pub buffer_paths: VecMap<BufferId, AnyPath>,
}

/// The worktree with an id.
pub open spec fn worktree_at(worktrees: Seq<WorktreeInfo>, id: WorktreeId) -> Option<WorktreeInfo>
    decreases worktrees.len(),
{
    if worktrees.len() == 0 {
        None
    } else if worktrees.first().id == id {
        Some(worktrees.first())
    } else {
        worktree_at(worktrees.drop_first(), id)
    }
}

impl PanelEnv {
    /// The worktree with an id.
    pub fn worktree(&self, id: WorktreeId) -> (r: Option<&WorktreeInfo>)
        ensures
            match r {
                Some(worktree) => worktree_at(self.worktrees@, id) == Some(*worktree),
                None => worktree_at(self.worktrees@, id) is None,
            },
    {
        let mut i: usize = 0;
        assert(self.worktrees@.skip(0) =~= self.worktrees@);
        while i < self.worktrees.len()
            invariant
                i <= self.worktrees@.len(),
                worktree_at(self.worktrees@.skip(i as int), id) == worktree_at(
                    self.worktrees@,
                    id,
                ),
            decreases self.worktrees.len() - i,
        {
            proof {
                let here = self.worktrees@.skip(i as int);
                assert(here.drop_first() =~= self.worktrees@.skip(i + 1));
                assert(here.first() == self.worktrees@[i as int]);
            }
            if self.worktrees[i].id == id {
                return Some(&self.worktrees[i]);
            }
            i = i + 1;
        }
        None
    }

    /// Whether an entry is the root of its worktree.
    pub open spec fn root(self, worktree_id: WorktreeId, entry: GitEntry) -> bool {
        match worktree_at(self.worktrees@, worktree_id) {
            Some(worktree) => match worktree.root_entry {
                Some(root) => crate::outline_panel::entries::same_entry(root, entry),
                None => false,
            },
            None => false,
        }
    }

    /// Whether an entry is the root of its worktree.
    pub fn is_root(&self, worktree_id: WorktreeId, entry: &GitEntry) -> (r: bool)
        ensures
            r == self.root(worktree_id, *entry),
    {
        match self.worktree(worktree_id) {
            Some(worktree) => match &worktree.root_entry {
                Some(root) => root.same(entry),
                None => false,
            },
            None => false,
        }
    }
}

impl OutlinePanel {
    /// The maps of the panel are well formed.
    pub open spec fn wf(self) -> bool {
        self.fs_entries_depth.wf() && self.excerpts.items.wf() && self.outline_fetches.wf()
    }

    /// A panel that is closed. Where the workspace has an active item, the panel
    /// follows it from now on: the excerpts that its editor shows are new.
    pub fn new(active: Option<(u64, Vec<ExcerptId>)>) -> (panel: OutlinePanel)
        ensures
            panel.wf(),
            !panel.active,
            !panel.pinned,
            panel.active_item == (match active {
                Some((item, _)) => Some(item),
                None => None,
            }),
            panel.fs_entries@.len() == 0,
            panel.fs_entries_depth@ == Map::<EntryKey, usize>::empty(),
            panel.fs_children_count@.len() == 0,
            panel.collapsed_entries@ == Set::<CollapsedEntry>::empty(),
            panel.unfolded_dirs.worktrees@ == Set::<WorktreeId>::empty(),
            panel.unfolded_dirs.dirs@ == Set::<EntryKey>::empty(),
            panel.selected_entry == (match active {
                Some(_) => SelectedEntry::Invalidated(None),
                None => SelectedEntry::Nothing,
            }),
            !panel.updating_fs_entries,
            !panel.updating_cached_entries,
            panel.pending == (PendingWork {
                fs_entries: None,
                cached_entries: None,
                reveal: None,
                next: 0,
            }),
            panel.new_entries_for_fs_update@ == (match active {
                Some((_, excerpts)) => item_set(excerpts@),
                None => Set::<ExcerptId>::empty(),
            }),
            panel.excerpts.buffers@ == Set::<BufferId>::empty(),
            panel.excerpts.items@ == Map::<ExcerptKey, Excerpt>::empty(),
            panel.outline_fetches@ == Map::<ExcerptKey, u64>::empty(),
            panel.next_outline_fetch == 0,
            panel.cached_entries@.len() == 0,
            panel.mode is Outline,
            panel.max_width_item_index is None,
            panel.preserve_selection_on_buffer_fold_toggles@ == Set::<BufferId>::empty(),
    {
        let mut panel = OutlinePanel {
            active: false,
            pinned: false,
            active_item: None,
            fs_entries: Vec::new(),
            fs_entries_depth: VecMap::new(),
            fs_children_count: Vec::new(),
            collapsed_entries: VecSet::new(),
            unfolded_dirs: UnfoldedDirs::new(),
            selected_entry: SelectedEntry::Nothing,
            updating_fs_entries: false,
            updating_cached_entries: false,
            pending: PendingWork { fs_entries: None, cached_entries: None, reveal: None, next: 0 },
            new_entries_for_fs_update: VecSet::new(),
            excerpts: Excerpts { buffers: VecSet::new(), items: VecMap::new() },
            outline_fetches: VecMap::new(),
            next_outline_fetch: 0,
            cached_entries: Vec::new(),
            mode: ItemsDisplayMode::Outline,
            max_width_item_index: None,
            preserve_selection_on_buffer_fold_toggles: VecSet::new(),
        };
        if let Some((item, excerpts)) = active {
            panel.replace_active_editor(item, &excerpts);
            assert(panel.new_entries_for_fs_update@ =~= item_set(excerpts@));
        }
        panel
    }

    /// Whether the contents of an entry are shown.
    pub open spec fn expanded(self, entry: FsEntry) -> bool {
        !self.collapsed_entries@.contains(entry.collapse_key())
    }

    /// Whether the contents of an entry are shown.
    pub fn is_expanded(&self, entry: &FsEntry) -> (r: bool)
        ensures
            r == self.expanded(*entry),
    {
        !self.collapsed_entries.contains(&entry.collapsed_entry())
    }
}

} // verus!
