//! Showing and hiding the contents of many lines, and showing where the cursor
//! is.

use vstd::prelude::*;
use crate::collections::VecSet;
use crate::numbers::{following, number_after};
use crate::outline_panel::entries::{
    BufferId, CachedEntry, CollapsedEntry, EntryKey, FsEntry, GitEntry, OutlineEntry, PanelEntry,
    ProjectEntryId, SelectedEntry, WorktreeId,
};
use crate::outline_panel::panel::{
    children_at, children_of, worktree_at, ExcerptKey, OutlinePanel, PanelEnv, PendingWork,
};
use crate::outline_panel::selection::with_selected;
use crate::outline_panel::toggling::{
    line_key, same_but_collapsed, with_fold_state, FoldOutcome,
};

verus! {

/// Whether an entry of the panel, when shown, shows what is hidden under a key.
pub open spec fn opens(panel: OutlinePanel, entry: FsEntry, key: CollapsedEntry) -> bool {
    key == entry.collapse_key() || match key {
        CollapsedEntry::Excerpt(buffer_id, excerpt_id) => entry.buffer() == Some(buffer_id)
            && panel.excerpts.buffers@.contains(buffer_id) && panel.excerpts.items@.contains_key(
            ExcerptKey { buffer_id, excerpt_id },
        ),
        _ => false,
    }
}

/// Whether showing all entries of the panel shows what is hidden under a key.
pub open spec fn opened(panel: OutlinePanel, key: CollapsedEntry) -> bool {
    exists|i: int|
        0 <= i < panel.fs_entries@.len() && opens(panel, #[trigger] panel.fs_entries@[i], key)
}

/// The buffers of the files of the panel.
pub open spec fn file_buffers(entries: Seq<FsEntry>) -> Set<BufferId>
    decreases entries.len(),
{
    if entries.len() == 0 {
        Set::empty()
    } else {
        match entries.last().buffer() {
            Some(id) => file_buffers(entries.drop_last()).insert(id),
            None => file_buffers(entries.drop_last()),
        }
    }
}

/// What hides the contents of some lines.
pub open spec fn line_keys(entries: Seq<CachedEntry>) -> Set<CollapsedEntry>
    decreases entries.len(),
{
    if entries.len() == 0 {
        Set::empty()
    } else {
        match line_key(entries.last().entry) {
            Some(key) => line_keys(entries.drop_last()).insert(key),
            None => line_keys(entries.drop_last()),
        }
    }
}

/// The buffers of the files among some lines.
pub open spec fn shown_file_buffers(entries: Seq<CachedEntry>) -> Set<BufferId>
    decreases entries.len(),
{
    if entries.len() == 0 {
        Set::empty()
    } else {
        match entries.last().entry {
            PanelEntry::Fs(entry) => match entry.buffer() {
                Some(id) => shown_file_buffers(entries.drop_last()).insert(id),
                None => shown_file_buffers(entries.drop_last()),
            },
            _ => shown_file_buffers(entries.drop_last()),
        }
    }
}

impl OutlinePanel {
    fn is_opened(&self, key: &CollapsedEntry) -> (r: bool)
        ensures
            r == opened(*self, *key),
    {
        let mut i: usize = 0;
        while i < self.fs_entries.len()
            invariant
                i <= self.fs_entries@.len(),
                forall|j: int|
                    0 <= j < i ==> !opens(*self, #[trigger] self.fs_entries@[j], *key),
            decreases self.fs_entries.len() - i,
        {
            let entry = &self.fs_entries[i];
            let shows: bool = *key == entry.collapsed_entry() || match *key {
                CollapsedEntry::Excerpt(buffer_id, excerpt_id) => {
                    let own: bool = match entry.buffer_id() {
                        Some(id) => id == buffer_id,
                        None => false,
                    };
                    own && self.excerpts.buffers.contains(&buffer_id)
                        && self.excerpts.items.contains_key(&ExcerptKey { buffer_id, excerpt_id })
                },
                _ => false,
            };
            if shows {
                assert(opens(*self, self.fs_entries@[i as int], *key));
                return true;
            }
            i = i + 1;
        }
        false
    }

    fn collect_file_buffers(&self) -> (r: VecSet<BufferId>)
        ensures
            r@ == file_buffers(self.fs_entries@),
    {
        let mut r: VecSet<BufferId> = VecSet::new();
        let mut i: usize = 0;
        assert(self.fs_entries@.take(0) =~= Seq::empty());
        while i < self.fs_entries.len()
            invariant
                i <= self.fs_entries@.len(),
                r@ == file_buffers(self.fs_entries@.take(i as int)),
            decreases self.fs_entries.len() - i,
        {
            proof {
                let next = self.fs_entries@.take(i + 1);
                assert(next.drop_last() =~= self.fs_entries@.take(i as int));
                assert(next.last() == self.fs_entries@[i as int]);
            }
            if let Some(id) = self.fs_entries[i].buffer_id() {
                let _ = r.insert(id);
            }
            i = i + 1;
        }
        assert(self.fs_entries@.take(i as int) =~= self.fs_entries@);
        r
    }

    /// Shows the contents of all entries. A panel that follows no item stays as it
    /// is.
    pub fn expand_all_entries(&mut self, env: &PanelEnv) -> (r: Option<FoldOutcome>)
        ensures
            old(self).active_item is None ==> r is None && *final(self) == *old(self),
            old(self).active_item is Some ==> {
                &&& same_but_collapsed(*final(self), *old(self))
                &&& final(self).collapsed_entries@ == old(self).collapsed_entries@.filter(
                    |key: CollapsedEntry| !opened(*old(self), key),
                )
                &&& r is Some
                &&& r->0.dir_to_expand is None
                &&& !r->0.fold
                &&& r->0.buffers@ == with_fold_state(
                    file_buffers(old(self).fs_entries@),
                    env.folded_buffers@,
                    true,
                )
            },
    {
        if self.active_item.is_none() {
            return None;
        }
        let ghost before = *self;
        let keys = self.collapsed_entries.to_vec();
        let mut kept: VecSet<CollapsedEntry> = VecSet::new();
        let mut i: usize = 0;
        while i < keys.len()
            invariant
                i <= keys@.len(),
                *self == before,
                forall|key: CollapsedEntry| #[trigger]
                    kept@.contains(key) == (keys@.take(i as int).contains(key) && !opened(
                        before,
                        key,
                    )),
            decreases keys.len() - i,
        {
            let key = keys[i];
            let ghost kept_before = kept@;
            if !self.is_opened(&key) {
                let _ = kept.insert(key);
            }
            proof {
                let here = keys@.take(i as int);
                let next = keys@.take(i + 1);
                assert forall|k: CollapsedEntry| #[trigger]
                    kept@.contains(k) == (next.contains(k) && !opened(before, k)) by {
                    assert(kept_before.contains(k) == (here.contains(k) && !opened(before, k)));
                    if here.contains(k) {
                        let a: int = choose|a: int| 0 <= a < here.len() && here[a] == k;
                        assert(next[a] == k);
                    }
                    if k == key {
                        assert(next[i as int] == k);
                    }
                    if next.contains(k) && k != key {
                        let a: int = choose|a: int| 0 <= a < next.len() && next[a] == k;
                        assert(here[a] == k);
                    }
                }
            }
            i = i + 1;
        }
        assert(keys@.take(i as int) =~= keys@);
        let buffers = self.collect_file_buffers().filtered(&env.folded_buffers, true);
        self.collapsed_entries = kept;
        assert(self.collapsed_entries@ =~= before.collapsed_entries@.filter(
            |key: CollapsedEntry| !opened(before, key),
        )) by {
            assert forall|k: CollapsedEntry| kept@.contains(k) == (before.collapsed_entries@.contains(
                k,
            ) && !opened(before, k)) by {
                assert(keys@.contains(k) == before.collapsed_entries@.contains(k));
            }
        }
        Some(FoldOutcome { dir_to_expand: None, buffers, fold: false })
    }

    /// Hides the contents of all lines. A panel that follows no item stays as it is.
    pub fn collapse_all_entries(&mut self, env: &PanelEnv) -> (r: Option<FoldOutcome>)
        ensures
            old(self).active_item is None ==> r is None && *final(self) == *old(self),
            old(self).active_item is Some ==> {
                &&& same_but_collapsed(*final(self), *old(self))
                &&& final(self).collapsed_entries@ == old(self).collapsed_entries@.union(
                    line_keys(old(self).cached_entries@),
                )
                &&& r is Some
                &&& r->0.dir_to_expand is None
                &&& r->0.fold
                &&& r->0.buffers@ == with_fold_state(
                    shown_file_buffers(old(self).cached_entries@),
                    env.folded_buffers@,
                    false,
                )
            },
    {
        if self.active_item.is_none() {
            return None;
        }
        let ghost before = *self;
        let ghost all = self.cached_entries@;
        let mut buffers: VecSet<BufferId> = VecSet::new();
        let mut i: usize = 0;
        assert(all.take(0) =~= Seq::empty());
        assert(self.collapsed_entries@ =~= before.collapsed_entries@.union(
            line_keys(all.take(0)),
        ));
        while i < self.cached_entries.len()
            invariant
                i <= all.len(),
                all == self.cached_entries@,
                same_but_collapsed(*self, before),
                self.collapsed_entries@ == before.collapsed_entries@.union(
                    line_keys(all.take(i as int)),
                ),
                buffers@ == shown_file_buffers(all.take(i as int)),
            decreases self.cached_entries.len() - i,
        {
            proof {
                let next = all.take(i + 1);
                assert(next.drop_last() =~= all.take(i as int));
                assert(next.last() == all[i as int]);
            }
            let key: Option<CollapsedEntry> = match &self.cached_entries[i].entry {
                PanelEntry::Fs(entry) => {
                    if let Some(id) = entry.buffer_id() {
                        let _ = buffers.insert(id);
                    }
                    Some(entry.collapsed_entry())
                },
                PanelEntry::FoldedDirs(dirs) => {
                    let n: usize = dirs.entries.len();
                    if n > 0 {
                        Some(CollapsedEntry::Dir(dirs.worktree_id, dirs.entries[n - 1].id))
                    } else {
                        None
                    }
                },
                PanelEntry::Outline(OutlineEntry::Excerpt(excerpt)) => Some(
                    CollapsedEntry::Excerpt(excerpt.buffer_id, excerpt.id),
                ),
                _ => None,
            };
            if let Some(key) = key {
                let _ = self.collapsed_entries.insert(key);
            }
            assert(self.collapsed_entries@ =~= before.collapsed_entries@.union(
                line_keys(all.take(i + 1)),
            ));
            i = i + 1;
        }
        assert(all.take(i as int) =~= all);
        let buffers = buffers.filtered(&env.folded_buffers, false);
        Some(FoldOutcome { dir_to_expand: None, buffers, fold: true })
    }

    /// Shows the selected directories each in a line of its own. Tells whether
    /// the lines are to be made anew.
    pub fn unfold_directory(&mut self) -> (r: bool)
        ensures
            match old(self).selected_entry.entry() {
                Some(PanelEntry::FoldedDirs(dirs)) => {
                    &&& r
                    &&& final(self).unfolded_dirs.worktrees@ == old(
                        self,
                    ).unfolded_dirs.worktrees@.insert(dirs.worktree_id)
                    &&& final(self).unfolded_dirs.dirs@ == old(self).unfolded_dirs.dirs@.union(
                        keys_of(dirs.worktree_id, dirs.entries@),
                    )
                    &&& same_but_unfolded(*final(self), *old(self))
                },
                _ => !r && *final(self) == *old(self),
            },
    {
        let dirs = match self.selected_entry() {
            Some(PanelEntry::FoldedDirs(dirs)) => dirs.clone(),
            _ => {
                return false;
            },
        };
        let ghost before = *self;
        let _ = self.unfolded_dirs.worktrees.insert(dirs.worktree_id);
        let mut i: usize = 0;
        let ghost all = dirs.entries@;
        assert(all.take(0) =~= Seq::empty());
        assert(self.unfolded_dirs.dirs@ =~= before.unfolded_dirs.dirs@.union(
            keys_of(dirs.worktree_id, all.take(0)),
        ));
        while i < dirs.entries.len()
            invariant
                i <= all.len(),
                all == dirs.entries@,
                same_but_unfolded(*self, before),
                self.unfolded_dirs.worktrees@ == before.unfolded_dirs.worktrees@.insert(
                    dirs.worktree_id,
                ),
                self.unfolded_dirs.dirs@ == before.unfolded_dirs.dirs@.union(
                    keys_of(dirs.worktree_id, all.take(i as int)),
                ),
            decreases dirs.entries.len() - i,
        {
            let _ = self.unfolded_dirs.dirs.insert(
                EntryKey { worktree_id: dirs.worktree_id, entry_id: dirs.entries[i].id },
            );
            proof {
                let next = all.take(i + 1);
                assert(next.drop_last() =~= all.take(i as int));
                assert(next.last() == all[i as int]);
                assert(self.unfolded_dirs.dirs@ =~= before.unfolded_dirs.dirs@.union(
                    keys_of(dirs.worktree_id, next),
                ));
            }
            i = i + 1;
        }
        assert(all.take(i as int) =~= all);
        true
    }

    /// Lets the selected directory be shown in one line with others. Tells
    /// whether the lines are to be made anew.
    pub fn fold_directory(&mut self, env: &PanelEnv) -> (r: bool)
        ensures
            match folding_target(*old(self)) {
                Some(key) => if worktree_at(env.worktrees@, key.worktree_id) is Some && old(
                    self,
                ).unfolded_dirs.worktrees@.contains(key.worktree_id) {
                    &&& r
                    &&& final(self).unfolded_dirs.worktrees@ == old(self).unfolded_dirs.worktrees@
                    &&& final(self).unfolded_dirs.dirs@ == old(self).unfolded_dirs.dirs@.remove(
                        key,
                    )
                    &&& same_but_unfolded(*final(self), *old(self))
                } else {
                    !r && *final(self) == *old(self)
                },
                None => !r && *final(self) == *old(self),
            },
    {
        let key: EntryKey = match self.selected_entry() {
            Some(PanelEntry::Fs(FsEntry::Directory(directory))) => EntryKey {
                worktree_id: directory.worktree_id,
                entry_id: directory.entry.id,
            },
            Some(PanelEntry::FoldedDirs(dirs)) => {
                let n: usize = dirs.entries.len();
                if n == 0 {
                    return false;
                }
                EntryKey { worktree_id: dirs.worktree_id, entry_id: dirs.entries[n - 1].id }
            },
            _ => {
                return false;
            },
        };
        if env.worktree(key.worktree_id).is_none() || !self.unfolded_dirs.worktrees.contains(
            &key.worktree_id,
        ) {
            return false;
        }
        let _ = self.unfolded_dirs.dirs.remove(&key);
        true
    }

    /// Whether a line is of several directories.
    pub fn is_unfoldable(&self, entry: &PanelEntry) -> (r: bool)
        ensures
            r == (*entry is FoldedDirs),
    {
        match entry {
            PanelEntry::FoldedDirs(_) => true,
            _ => false,
        }
    }

    /// Whether a line is of a directory that can be shown in one line with the
    /// one below it.
    pub fn is_foldable(&self, entry: &PanelEntry) -> (r: bool)
        ensures
            r == foldable_line(*self, *entry),
    {
        match entry {
            PanelEntry::Fs(FsEntry::Directory(directory)) => {
                if !self.unfolded_dirs.contains(directory.worktree_id, directory.entry.id) {
                    return false;
                }
                let children = children_of(
                    &self.fs_children_count,
                    directory.worktree_id,
                    &*directory.entry.path,
                );
                children.may_be_fold_part() && children.dirs > 0
            },
            _ => false,
        }
    }

    /// Selects a line and tells what its menu offers. Symbols and matches have no
    /// menu.
    pub fn deploy_context_menu(&mut self, env: &PanelEnv, entry: &PanelEntry) -> (r: Option<
        ContextMenuOptions,
    >)
        ensures
            *final(self) == with_selected(*old(self), *entry),
            r == menu_options(*old(self), *env, *entry),
    {
        self.select_entry(entry.clone());
        let is_root: bool = match entry {
            PanelEntry::Fs(FsEntry::File(file)) => is_root_id(
                env,
                file.worktree_id,
                file.entry.id,
            ),
            PanelEntry::Fs(FsEntry::Directory(directory)) => is_root_id(
                env,
                directory.worktree_id,
                directory.entry.id,
            ),
            PanelEntry::FoldedDirs(dirs) => dirs.entries.len() > 0 && is_root_id(
                env,
                dirs.worktree_id,
                dirs.entries[0].id,
            ),
            PanelEntry::Fs(FsEntry::ExternalFile(_)) => false,
            PanelEntry::Outline(_) => {
                return None;
            },
            PanelEntry::Search(_) => {
                return None;
            },
        };
        Some(
            ContextMenuOptions {
                fold: env.auto_fold_dirs && !is_root && self.is_foldable(entry),
                unfold: env.auto_fold_dirs && !is_root && self.is_unfoldable(entry),
            },
        )
    }
}

fn is_root_id(env: &PanelEnv, worktree_id: WorktreeId, id: ProjectEntryId) -> (r: bool)
    ensures
        r == root_id(*env, worktree_id, id),
{
    match env.worktree(worktree_id) {
        Some(worktree) => match &worktree.root_entry {
            Some(root) => root.id == id,
            None => false,
        },
        None => false,
    }
}

/// Whether an id is that of the root of a worktree.
pub open spec fn root_id(env: PanelEnv, worktree_id: WorktreeId, id: ProjectEntryId) -> bool {
    match worktree_at(env.worktrees@, worktree_id) {
        Some(worktree) => worktree.root_entry is Some && worktree.root_entry->0.id == id,
        None => false,
    }
}

/// What the menu of a line offers besides what every menu does.
#[derive(Copy, Clone, Debug, PartialEq, Eq, Structural)]
pub struct ContextMenuOptions {
    pub fold: bool,
    pub unfold: bool,
}

/// Whether a line is of the root of a worktree.
pub open spec fn root_line(env: PanelEnv, entry: PanelEntry) -> bool {
    match entry {
        PanelEntry::Fs(FsEntry::File(file)) => root_id(env, file.worktree_id, file.entry.id),
        PanelEntry::Fs(FsEntry::Directory(directory)) => root_id(
            env,
            directory.worktree_id,
            directory.entry.id,
        ),
        PanelEntry::FoldedDirs(dirs) => dirs.entries@.len() > 0 && root_id(
            env,
            dirs.worktree_id,
            dirs.entries@.first().id,
        ),
        _ => false,
    }
}

/// Whether a line is of a directory that can be shown in one line with the one
/// below it.
pub open spec fn foldable_line(panel: OutlinePanel, entry: PanelEntry) -> bool {
    match entry {
        PanelEntry::Fs(FsEntry::Directory(directory)) => {
            let children = children_at(
                panel.fs_children_count@,
                directory.worktree_id,
                directory.entry.path@,
            );
            panel.unfolded_dirs.has(directory.worktree_id, directory.entry.id)
                && children.foldable() && children.dirs > 0
        },
        _ => false,
    }
}

/// What the menu of a line offers.
pub open spec fn menu_options(panel: OutlinePanel, env: PanelEnv, entry: PanelEntry) -> Option<
    ContextMenuOptions,
> {
    match entry {
        PanelEntry::Outline(_) => None,
        PanelEntry::Search(_) => None,
        _ => Some(
            ContextMenuOptions {
                fold: env.auto_fold_dirs && !root_line(env, entry) && foldable_line(panel, entry),
                unfold: env.auto_fold_dirs && !root_line(env, entry) && entry is FoldedDirs,
            },
        ),
    }
}

/// Panels that differ at most in the directories that have a line of their own.
pub open spec fn same_but_unfolded(a: OutlinePanel, b: OutlinePanel) -> bool {
    a == (OutlinePanel { unfolded_dirs: a.unfolded_dirs, ..b })
}

/// Entries of a worktree.
pub open spec fn keys_of(worktree_id: WorktreeId, entries: Seq<GitEntry>) -> Set<EntryKey>
    decreases entries.len(),
{
    if entries.len() == 0 {
        Set::empty()
    } else {
        keys_of(worktree_id, entries.drop_last()).insert(
            EntryKey { worktree_id, entry_id: entries.last().id },
        )
    }
}

/// The selected directory.
pub open spec fn folding_target(panel: OutlinePanel) -> Option<EntryKey> {
    match panel.selected_entry.entry() {
        Some(PanelEntry::Fs(FsEntry::Directory(directory))) => Some(
            EntryKey { worktree_id: directory.worktree_id, entry_id: directory.entry.id },
        ),
        Some(PanelEntry::FoldedDirs(dirs)) => if dirs.entries@.len() > 0 {
            Some(
                EntryKey { worktree_id: dirs.worktree_id, entry_id: dirs.entries@.last().id },
            )
        } else {
            None
        },
        _ => None,
    }
}

/// Where the file of the cursor lies.
#[derive(Debug)]
pub struct RelatedFile {
    pub worktree_id: WorktreeId,
    /// The entry of the file and of the directories above it, from the file up.
    /// It is empty where the worktree has no entry for the file.
    pub chain: Vec<GitEntry>,
}

/// Whether the place of the cursor is to be shown in the panel: it is open, the
/// settings ask for it, and the panel is not in use.
pub fn should_reveal(active: bool, auto_reveal_entries: bool, panel_focused: bool) -> (r: bool)
    ensures
        r == (active && auto_reveal_entries && !panel_focused),
{
    active && auto_reveal_entries && !panel_focused
}

/// The buffer that a match is in.
pub open spec fn match_buffer(entry: crate::outline_panel::entries::SearchEntry) -> Option<BufferId> {
    match entry.match_range.start.buffer_id {
        Some(id) => Some(id),
        None => entry.match_range.end.buffer_id,
    }
}

/// What is hidden once the file and the excerpt of a line are shown.
pub open spec fn shown_around(
    collapsed: Set<CollapsedEntry>,
    line: PanelEntry,
    related: Option<RelatedFile>,
) -> Set<CollapsedEntry> {
    match line {
        PanelEntry::Outline(outline) => {
            let (buffer_id, excerpt_id) = match outline {
                OutlineEntry::Excerpt(excerpt) => (excerpt.buffer_id, excerpt.id),
                OutlineEntry::Outline(outline) => (outline.buffer_id, outline.excerpt_id),
            };
            let open = collapsed.remove(CollapsedEntry::ExternalFile(buffer_id)).remove(
                CollapsedEntry::Excerpt(buffer_id, excerpt_id),
            );
            match related {
                Some(file) => open.remove(CollapsedEntry::File(file.worktree_id, buffer_id)),
                None => open,
            }
        },
        PanelEntry::Search(found) => match match_buffer(found) {
            Some(buffer_id) => {
                let open = collapsed.remove(CollapsedEntry::ExternalFile(buffer_id));
                match related {
                    Some(file) => open.remove(CollapsedEntry::File(file.worktree_id, buffer_id)),
                    None => open,
                }
            },
            None => collapsed,
        },
        _ => collapsed,
    }
}

/// Whether a line stands for something in a file of a worktree.
pub open spec fn in_worktree(line: PanelEntry) -> bool {
    match line {
        PanelEntry::Fs(FsEntry::File(_)) => true,
        PanelEntry::Outline(_) => true,
        PanelEntry::Search(found) => match_buffer(found) is Some,
        _ => false,
    }
}

/// What is hidden once some directories are shown, and those that were hidden.
pub open spec fn dirs_shown(
    collapsed: Set<CollapsedEntry>,
    worktree_id: WorktreeId,
    chain: Seq<GitEntry>,
) -> (Set<CollapsedEntry>, Seq<ProjectEntryId>)
    decreases chain.len(),
{
    if chain.len() == 0 {
        (collapsed, Seq::empty())
    } else {
        let (open, dirs) = dirs_shown(collapsed, worktree_id, chain.drop_last());
        let entry = chain.last();
        let key = CollapsedEntry::Dir(worktree_id, entry.id);
        if entry.is_dir && open.contains(key) {
            (open.remove(key), dirs.push(entry.id))
        } else {
            (open, dirs)
        }
    }
}

/// What is hidden once a line is shown, and the directories that were.
pub open spec fn revealed(
    collapsed: Set<CollapsedEntry>,
    line: PanelEntry,
    related: Option<RelatedFile>,
) -> (Set<CollapsedEntry>, Seq<ProjectEntryId>) {
    let open = shown_around(collapsed, line, related);
    match related {
        Some(file) => if in_worktree(line) {
            dirs_shown(open, file.worktree_id, file.chain@)
        } else {
            (open, Seq::empty())
        },
        None => (open, Seq::empty()),
    }
}

/// The panel with other work under way.
pub open spec fn with_pending(panel: OutlinePanel, pending: PendingWork) -> OutlinePanel {
    OutlinePanel { pending, ..panel }
}

/// Whether a line that stands for the cursor can be a directory.
pub open spec fn is_dir_line(line: PanelEntry) -> bool {
    match line {
        PanelEntry::FoldedDirs(_) => true,
        PanelEntry::Fs(FsEntry::Directory(_)) => true,
        _ => false,
    }
}

impl OutlinePanel {
    fn show_dirs(&mut self, worktree_id: WorktreeId, chain: &Vec<GitEntry>) -> (r: Vec<
        ProjectEntryId,
    >)
        ensures
            same_but_collapsed(*final(self), *old(self)),
            final(self).collapsed_entries@ == dirs_shown(
                old(self).collapsed_entries@,
                worktree_id,
                chain@,
            ).0,
            r@ == dirs_shown(old(self).collapsed_entries@, worktree_id, chain@).1,
    {
        let mut r: Vec<ProjectEntryId> = Vec::new();
        let mut i: usize = 0;
        let ghost before = *self;
        assert(chain@.take(0) =~= Seq::empty());
        while i < chain.len()
            invariant
                i <= chain@.len(),
                same_but_collapsed(*self, before),
                self.collapsed_entries@ == dirs_shown(
                    before.collapsed_entries@,
                    worktree_id,
                    chain@.take(i as int),
                ).0,
                r@ == dirs_shown(
                    before.collapsed_entries@,
                    worktree_id,
                    chain@.take(i as int),
                ).1,
            decreases chain.len() - i,
        {
            proof {
                let next = chain@.take(i + 1);
                assert(next.drop_last() =~= chain@.take(i as int));
                assert(next.last() == chain@[i as int]);
            }
            if chain[i].is_dir && self.collapsed_entries.remove(
                &CollapsedEntry::Dir(worktree_id, chain[i].id),
            ) {
                r.push(chain[i].id);
            }
            proof {
                let key = CollapsedEntry::Dir(worktree_id, chain@[i as int].id);
                let open = dirs_shown(
                    before.collapsed_entries@,
                    worktree_id,
                    chain@.take(i as int),
                ).0;
                if !open.contains(key) {
                    assert(open.remove(key) =~= open);
                }
            }
            i = i + 1;
        }
        assert(chain@.take(i as int) =~= chain@);
        r
    }

    /// Whether the place of the cursor is to be shown in the panel, and the number under
    /// which. What was begun before is given up.
    pub fn begin_reveal(&mut self, auto_reveal_entries: bool, panel_focused: bool) -> (r: Option<
        u64,
    >)
        ensures
            match r {
                Some(number) => {
                    &&& old(self).active && auto_reveal_entries && !panel_focused
                    &&& number == old(self).pending.next
                    &&& *final(self) == with_pending(
                        *old(self),
                        PendingWork {
                            reveal: Some(number),
                            next: number_after(number),
                            ..old(self).pending
                        },
                    )
                },
                None => !(old(self).active && auto_reveal_entries && !panel_focused)
                    && *final(self) == *old(self),
            },
    {
        if !should_reveal(self.active, auto_reveal_entries, panel_focused) {
            return None;
        }
        let number: u64 = self.pending.next;
        self.pending.reveal = Some(number);
        self.pending.next = following(number);
        Some(number)
    }

    /// Shows the line for the place of the cursor, unless that was given up: what hides it
    /// is shown, and it is selected. Returns the directories to be read. Without such a
    /// line nothing is selected. A directory cannot hold the cursor.
    pub fn reveal_entry_for_selection(
        &mut self,
        number: u64,
        line: Option<PanelEntry>,
        related: &Option<RelatedFile>,
    ) -> (r: Option<Vec<ProjectEntryId>>)
        ensures
            ({
                let done = with_pending(
                    *old(self),
                    PendingWork { reveal: None, ..old(self).pending },
                );
                if old(self).pending.reveal != Some(number) {
                    r is None && *final(self) == *old(self)
                } else {
                    match line {
                        Some(line) => if is_dir_line(line) {
                            r is None && *final(self) == done
                        } else {
                            &&& r is Some
                            &&& r->0@ == revealed(old(self).collapsed_entries@, line, *related).1
                            &&& final(self).collapsed_entries@ == revealed(
                                old(self).collapsed_entries@,
                                line,
                                *related,
                            ).0
                            &&& same_but_collapsed(*final(self), with_selected(done, line))
                        },
                        None => r is None && *final(self) == (OutlinePanel {
                            selected_entry: SelectedEntry::Nothing,
                            ..done
                        }),
                    }
                }
            }),
    {
        let awaited: bool = match self.pending.reveal {
            Some(last) => last == number,
            None => false,
        };
        if !awaited {
            return None;
        }
        self.pending.reveal = None;
        let line = match line {
            Some(line) => line,
            None => {
                self.selected_entry = SelectedEntry::Nothing;
                return None;
            },
        };
        let ghost before = *self;
        let inside: bool = match &line {
            PanelEntry::FoldedDirs(_) => {
                return None;
            },
            PanelEntry::Fs(FsEntry::Directory(_)) => {
                return None;
            },
            PanelEntry::Fs(FsEntry::File(_)) => true,
            PanelEntry::Fs(FsEntry::ExternalFile(_)) => false,
            PanelEntry::Outline(outline) => {
                let (buffer_id, excerpt_id) = outline.ids();
                let _ = self.collapsed_entries.remove(&CollapsedEntry::ExternalFile(buffer_id));
                let _ = self.collapsed_entries.remove(
                    &CollapsedEntry::Excerpt(buffer_id, excerpt_id),
                );
                if let Some(file) = related {
                    let _ = self.collapsed_entries.remove(
                        &CollapsedEntry::File(file.worktree_id, buffer_id),
                    );
                }
                true
            },
            PanelEntry::Search(found) => {
                let buffer: Option<BufferId> = match found.match_range.start.buffer_id {
                    Some(id) => Some(id),
                    None => found.match_range.end.buffer_id,
                };
                match buffer {
                    Some(buffer_id) => {
                        let _ = self.collapsed_entries.remove(
                            &CollapsedEntry::ExternalFile(buffer_id),
                        );
                        if let Some(file) = related {
                            let _ = self.collapsed_entries.remove(
                                &CollapsedEntry::File(file.worktree_id, buffer_id),
                            );
                        }
                        true
                    },
                    None => false,
                }
            },
        };
        assert(self.collapsed_entries@ == shown_around(
            before.collapsed_entries@,
            line,
            *related,
        ));
        let dirs: Vec<ProjectEntryId> = match related {
            Some(file) => if inside {
                self.show_dirs(file.worktree_id, &file.chain)
            } else {
                Vec::new()
            },
            None => Vec::new(),
        };
        assert(dirs@ =~= revealed(before.collapsed_entries@, line, *related).1);
        self.select_entry(line);
        Some(dirs)
    }
}

/// Once the cursor is shown, no directory above its file is hidden.
pub proof fn law_revealed_directories_are_shown(
    collapsed: Set<CollapsedEntry>,
    worktree_id: WorktreeId,
    chain: Seq<GitEntry>,
    k: int,
)
    requires
        0 <= k < chain.len(),
        chain[k].is_dir,
    ensures
        !dirs_shown(collapsed, worktree_id, chain).0.contains(
            CollapsedEntry::Dir(worktree_id, chain[k].id),
        ),
    decreases chain.len(),
{
    let rest = chain.drop_last();
    if k < rest.len() {
        assert(rest[k] == chain[k]);
        law_revealed_directories_are_shown(collapsed, worktree_id, rest, k);
    }
}

/// Once all is expanded, no entry of the panel is hidden.
pub proof fn law_expand_all_shows_every_entry(
    panel: OutlinePanel,
    collapsed: Set<CollapsedEntry>,
    k: int,
)
    requires
        0 <= k < panel.fs_entries@.len(),
    ensures
        !collapsed.filter(|key: CollapsedEntry| !opened(panel, key)).contains(
            panel.fs_entries@[k].collapse_key(),
        ),
{
    assert(opens(panel, panel.fs_entries@[k], panel.fs_entries@[k].collapse_key()));
}

/// Once all is collapsed, every line that can be hidden is.
pub proof fn law_collapse_all_hides_every_line(entries: Seq<CachedEntry>, k: int)
    requires
        0 <= k < entries.len(),
        line_key(entries[k].entry) is Some,
    ensures
        line_keys(entries).contains(line_key(entries[k].entry)->0),
    decreases entries.len(),
{
    let rest = entries.drop_last();
    if k < rest.len() {
        assert(rest[k] == entries[k]);
        law_collapse_all_hides_every_line(rest, k);
    }
}

} // verus!
