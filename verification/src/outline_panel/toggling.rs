//! Showing and hiding the contents of lines.

use vstd::prelude::*;
use crate::collections::VecSet;
use crate::outline_panel::entries::{
    same_entry, BufferId, CollapsedEntry, EntryKey, FsEntry, GitEntry, OutlineEntry, PanelEntry,
    WorktreeId,
};
use crate::outline_panel::panel::{OutlinePanel, PanelEnv};
use crate::outline_panel::selection::{
    line_around, line_below, or_line, top_line, with_selected, with_selection,
};
use crate::path::is_below;

verus! {

/// Whether an entry lies in a directory.
pub open spec fn in_directory(entry: FsEntry, worktree_id: WorktreeId, dir: GitEntry) -> bool {
    match entry {
        FsEntry::ExternalFile(_) => false,
        FsEntry::Directory(directory) => directory.worktree_id == worktree_id && is_below(
            directory.entry.path@,
            dir.path@,
        ),
        FsEntry::File(file) => file.worktree_id == worktree_id && is_below(
            file.entry.path@,
            dir.path@,
        ),
    }
}

/// The buffers of the files at the start of a list that lie in a directory.
pub open spec fn leading_buffers(
    entries: Seq<FsEntry>,
    worktree_id: WorktreeId,
    dir: GitEntry,
) -> Set<BufferId>
    decreases entries.len(),
{
    if entries.len() == 0 || !in_directory(entries.first(), worktree_id, dir) {
        Set::empty()
    } else {
        let rest = leading_buffers(entries.drop_first(), worktree_id, dir);
        match entries.first() {
            FsEntry::File(file) => rest.insert(file.buffer_id),
            _ => rest,
        }
    }
}

/// Whether an entry is a directory.
pub open spec fn is_directory(entry: FsEntry, worktree_id: WorktreeId, dir: GitEntry) -> bool {
    match entry {
        FsEntry::Directory(directory) => directory.worktree_id == worktree_id && same_entry(
            directory.entry,
            dir,
        ),
        _ => false,
    }
}

/// The buffers of the files listed below a directory.
pub open spec fn directory_buffers(
    entries: Seq<FsEntry>,
    worktree_id: WorktreeId,
    dir: GitEntry,
) -> Set<BufferId>
    decreases entries.len(),
{
    if entries.len() == 0 || !dir.is_dir {
        Set::empty()
    } else if is_directory(entries.first(), worktree_id, dir) {
        leading_buffers(entries.drop_first(), worktree_id, dir)
    } else {
        directory_buffers(entries.drop_first(), worktree_id, dir)
    }
}

/// What hides the contents of a line. For directories in one line it is the last
/// of them.
pub open spec fn line_key(entry: PanelEntry) -> Option<CollapsedEntry> {
    match entry {
        PanelEntry::Fs(entry) => Some(entry.collapse_key()),
        PanelEntry::FoldedDirs(dirs) => if dirs.entries@.len() > 0 {
            Some(CollapsedEntry::Dir(dirs.worktree_id, dirs.entries@.last().id))
        } else {
            None
        },
        PanelEntry::Outline(OutlineEntry::Excerpt(excerpt)) => Some(
            CollapsedEntry::Excerpt(excerpt.buffer_id, excerpt.id),
        ),
        _ => None,
    }
}

/// What is toggled for a line. For directories in one line it is the first of
/// them.
pub open spec fn toggle_key(entry: PanelEntry) -> Option<CollapsedEntry> {
    match entry {
        PanelEntry::FoldedDirs(dirs) => if dirs.entries@.len() > 0 {
            Some(CollapsedEntry::Dir(dirs.worktree_id, dirs.entries@.first().id))
        } else {
            None
        },
        _ => line_key(entry),
    }
}

/// The buffers that are shown below a line.
pub open spec fn line_buffers(panel: OutlinePanel, entry: PanelEntry) -> Set<BufferId> {
    match entry {
        PanelEntry::Fs(FsEntry::Directory(directory)) => directory_buffers(
            panel.fs_entries@,
            directory.worktree_id,
            directory.entry,
        ),
        PanelEntry::Fs(FsEntry::File(file)) => set![file.buffer_id],
        PanelEntry::Fs(FsEntry::ExternalFile(file)) => set![file.buffer_id],
        PanelEntry::FoldedDirs(dirs) => if dirs.entries@.len() > 0 {
            directory_buffers(panel.fs_entries@, dirs.worktree_id, dirs.entries@.last())
        } else {
            Set::empty()
        },
        _ => Set::empty(),
    }
}

/// The buffers that are toggled with a line.
pub open spec fn toggled_buffers(panel: OutlinePanel, entry: PanelEntry) -> Set<BufferId> {
    match entry {
        PanelEntry::FoldedDirs(dirs) => if dirs.entries@.len() > 0 {
            directory_buffers(panel.fs_entries@, dirs.worktree_id, dirs.entries@.first())
        } else {
            Set::empty()
        },
        _ => line_buffers(panel, entry),
    }
}

/// The directory of a project to be read.
pub open spec fn dir_key(key: CollapsedEntry) -> Option<EntryKey> {
    match key {
        CollapsedEntry::Dir(worktree_id, entry_id) => Some(EntryKey { worktree_id, entry_id }),
        _ => None,
    }
}

/// Whether a line can have anything below it.
pub open spec fn may_collapse(entry: PanelEntry) -> bool {
    match entry {
        PanelEntry::Outline(OutlineEntry::Outline(_)) => false,
        PanelEntry::Search(_) => false,
        _ => true,
    }
}

/// Whether a line is toggled: it can have anything below it, and the panel follows
/// an item.
pub open spec fn toggles(panel: OutlinePanel, entry: PanelEntry) -> bool {
    panel.active_item is Some && may_collapse(entry)
}

/// What is left to do outside the panel. Where no buffers are to be folded or
/// unfolded, the lines are to be made anew.
#[derive(Debug)]
pub struct FoldOutcome {
    /// A directory whose entries are to be read.
    pub dir_to_expand: Option<EntryKey>,
    /// The buffers to fold or unfold in the editor.
    pub buffers: VecSet<BufferId>,
    pub fold: bool,
}

/// Those of some buffers that are folded, or those that are not.
pub open spec fn with_fold_state(buffers: Set<BufferId>, folded: Set<BufferId>, is: bool) -> Set<
    BufferId,
> {
    buffers.filter(|id: BufferId| folded.contains(id) == is)
}

fn collapse_key(entry: &PanelEntry) -> (r: Option<CollapsedEntry>)
    ensures
        r == line_key(*entry),
{
    match entry {
        PanelEntry::Fs(entry) => Some(entry.collapsed_entry()),
        PanelEntry::FoldedDirs(dirs) => {
            let n: usize = dirs.entries.len();
            if n > 0 {
                Some(CollapsedEntry::Dir(dirs.worktree_id, dirs.entries[n - 1].id))
            } else {
                None
            }
        },
        PanelEntry::Outline(OutlineEntry::Excerpt(excerpt)) => Some(
            CollapsedEntry::Excerpt(excerpt.buffer_id, excerpt.id),
        ),
        _ => None,
    }
}

fn single(buffer_id: BufferId) -> (r: VecSet<BufferId>)
    ensures
        r@ == set![buffer_id],
{
    let mut r: VecSet<BufferId> = VecSet::new();
    let _ = r.insert(buffer_id);
    r
}

impl OutlinePanel {
    /// The buffers of the files listed below a directory.
    pub fn buffers_inside_directory(&self, worktree_id: WorktreeId, dir: &GitEntry) -> (r: VecSet<
        BufferId,
    >)
        ensures
            r@ == directory_buffers(self.fs_entries@, worktree_id, *dir),
    {
        let mut r: VecSet<BufferId> = VecSet::new();
        if !dir.is_dir {
            assert(r@ =~= directory_buffers(self.fs_entries@, worktree_id, *dir));
            return r;
        }
        let ghost all = self.fs_entries@;
        let ghost goal = directory_buffers(all, worktree_id, *dir);
        let mut i: usize = 0;
        assert(all.skip(0) =~= all);
        while i < self.fs_entries.len()
            invariant
                i <= all.len(),
                all == self.fs_entries@,
                dir.is_dir,
                goal == directory_buffers(all, worktree_id, *dir),
                directory_buffers(all.skip(i as int), worktree_id, *dir) == goal,
                r@ == Set::<BufferId>::empty(),
            ensures
                i <= all.len(),
                i < all.len() ==> goal == leading_buffers(all.skip(i + 1), worktree_id, *dir),
                i == all.len() ==> goal == Set::<BufferId>::empty(),
                r@ == Set::<BufferId>::empty(),
            decreases self.fs_entries.len() - i,
        {
            proof {
                let here = all.skip(i as int);
                assert(here.drop_first() =~= all.skip(i + 1));
                assert(here.first() == all[i as int]);
            }
            let found: bool = match &self.fs_entries[i] {
                FsEntry::Directory(directory) => directory.worktree_id == worktree_id
                    && directory.entry.same(dir),
                _ => false,
            };
            if found {
                break;
            }
            i = i + 1;
        }
        if i < self.fs_entries.len() {
            let mut j: usize = i + 1;
            assert(r@.union(leading_buffers(all.skip(j as int), worktree_id, *dir)) =~= goal);
            while j < self.fs_entries.len()
                invariant
                    j <= all.len(),
                    all == self.fs_entries@,
                    r@.union(leading_buffers(all.skip(j as int), worktree_id, *dir)) == goal,
                ensures
                    r@ == goal,
                decreases self.fs_entries.len() - j,
            {
                proof {
                    let here = all.skip(j as int);
                    assert(here.drop_first() =~= all.skip(j + 1));
                    assert(here.first() == all[j as int]);
                }
                let inside: bool = match &self.fs_entries[j] {
                    FsEntry::ExternalFile(_) => false,
                    FsEntry::Directory(directory) => directory.worktree_id == worktree_id
                        && directory.entry.path.starts_with(&*dir.path),
                    FsEntry::File(file) => file.worktree_id == worktree_id
                        && file.entry.path.starts_with(&*dir.path),
                };
                if !inside {
                    assert(r@ =~= goal);
                    break;
                }
                let ghost before = r@;
                if let FsEntry::File(file) = &self.fs_entries[j] {
                    let _ = r.insert(file.buffer_id);
                }
                assert(r@.union(leading_buffers(all.skip(j + 1), worktree_id, *dir)) =~= before.union(
                    leading_buffers(all.skip(j as int), worktree_id, *dir),
                ));
                j = j + 1;
                assert(j == all.len() ==> r@ =~= goal);
            }
            assert(r@ == goal);
        }
        r
    }

    fn buffers_of_line(&self, entry: &PanelEntry) -> (r: VecSet<BufferId>)
        ensures
            r@ == line_buffers(*self, *entry),
    {
        match entry {
            PanelEntry::Fs(FsEntry::Directory(directory)) => self.buffers_inside_directory(
                directory.worktree_id,
                &directory.entry,
            ),
            PanelEntry::Fs(FsEntry::File(file)) => single(file.buffer_id),
            PanelEntry::Fs(FsEntry::ExternalFile(file)) => single(file.buffer_id),
            PanelEntry::FoldedDirs(dirs) => {
                let n: usize = dirs.entries.len();
                if n > 0 {
                    self.buffers_inside_directory(dirs.worktree_id, &dirs.entries[n - 1])
                } else {
                    VecSet::new()
                }
            },
            _ => VecSet::new(),
        }
    }

    /// Shows the contents of the selected line. Where they are shown already, the
    /// next line is selected. A panel that follows no item stays as it is.
    pub fn expand_selected_entry(&mut self, env: &PanelEnv) -> (r: Option<FoldOutcome>)
        ensures
            old(self).active_item is None ==> *final(self) == *old(self) && r is None,
            old(self).active_item is Some ==> match old(self).selected_entry.entry() {
                Some(selected) => match line_key(selected) {
                    Some(key) => if old(self).collapsed_entries@.contains(key) {
                        &&& expanded_to(*old(self), *final(self), selected, key)
                        &&& r is Some
                        &&& r->0.dir_to_expand == dir_key(key)
                        &&& r->0.buffers@ == with_fold_state(
                            line_buffers(*old(self), selected),
                            env.folded_buffers@,
                            true,
                        )
                        &&& !r->0.fold
                    } else {
                        &&& same_but_collapsed(
                            *final(self),
                            with_selection(
                                *old(self),
                                or_line(line_below(*old(self)), top_line(*old(self))),
                            ),
                        )
                        &&& final(self).collapsed_entries@ == old(self).collapsed_entries@
                        &&& r is None
                    },
                    None => *final(self) == *old(self) && r is None,
                },
                None => *final(self) == *old(self) && r is None,
            },
    {
        let ghost before = *self;
        if self.active_item.is_none() {
            return None;
        }
        let selected = match self.selected_entry() {
            Some(selected) => selected.clone(),
            None => {
                return None;
            },
        };
        let key = match collapse_key(&selected) {
            Some(key) => key,
            None => {
                return None;
            },
        };
        let buffers = self.buffers_of_line(&selected);
        let expanded: bool = self.collapsed_entries.remove(&key);
        if !expanded {
            let ghost same = *self;
            assert(self.collapsed_entries@ =~= before.collapsed_entries@);
            self.select_next();
            assert(line_below(same) == line_below(before));
            return None;
        }
        let dir_to_expand = match key {
            CollapsedEntry::Dir(worktree_id, entry_id) => Some(EntryKey { worktree_id, entry_id }),
            _ => None,
        };
        let buffers = buffers.filtered(&env.folded_buffers, true);
        self.select_entry(selected);
        Some(FoldOutcome { dir_to_expand, buffers, fold: false })
    }

    /// Hides the contents of the selected line. Where they are hidden already, or
    /// there are none, the line around it is selected.
    pub fn collapse_selected_entry(&mut self, env: &PanelEnv) -> (r: Option<FoldOutcome>)
        ensures
            old(self).active_item is None ==> *final(self) == *old(self) && r is None,
            old(self).active_item is Some ==> match old(self).selected_entry.entry() {
                Some(selected) => match line_key(selected) {
                    Some(key) => if !old(self).collapsed_entries@.contains(key) {
                        &&& collapsed_to(*old(self), *final(self), selected, key)
                        &&& r is Some
                        &&& r->0.dir_to_expand is None
                        &&& r->0.buffers@ == with_fold_state(
                            line_buffers(*old(self), selected),
                            env.folded_buffers@,
                            false,
                        )
                        &&& r->0.fold
                    } else {
                        &&& same_but_collapsed(
                            *final(self),
                            with_selection(
                                *old(self),
                                or_line(line_around(*old(self)), top_line(*old(self))),
                            ),
                        )
                        &&& final(self).collapsed_entries@ == old(self).collapsed_entries@
                        &&& r is None
                    },
                    None => *final(self) == with_selection(
                        *old(self),
                        or_line(line_around(*old(self)), top_line(*old(self))),
                    ) && r is None,
                },
                None => *final(self) == *old(self) && r is None,
            },
    {
        let ghost before = *self;
        if self.active_item.is_none() {
            return None;
        }
        let selected = match self.selected_entry() {
            Some(selected) => selected.clone(),
            None => {
                return None;
            },
        };
        let key = match collapse_key(&selected) {
            Some(key) => key,
            None => {
                self.select_parent();
                return None;
            },
        };
        let collapsed: bool = self.collapsed_entries.insert(key);
        if !collapsed {
            let ghost same = *self;
            assert(self.collapsed_entries@ =~= before.collapsed_entries@);
            self.select_parent();
            assert(line_around(same) == line_around(before));
            return None;
        }
        let buffers = self.buffers_of_line(&selected).filtered(&env.folded_buffers, false);
        self.select_entry(selected);
        Some(FoldOutcome { dir_to_expand: None, buffers, fold: true })
    }

    /// Shows the contents of a line if they are hidden, and hides them if they are
    /// shown.
    pub fn toggle_expanded(&mut self, env: &PanelEnv, entry: &PanelEntry) -> (r: Option<
        FoldOutcome,
    >)
        ensures
            toggles(*old(self), *entry) ==> r is Some && same_but_collapsed(
                *final(self),
                with_selected(*old(self), *entry),
            ),
            toggles(*old(self), *entry) ==> match toggle_key(*entry) {
                Some(key) => {
                    &&& final(self).collapsed_entries@ == toggled(
                        old(self).collapsed_entries@,
                        key,
                    )
                    &&& r->0.dir_to_expand == (if old(self).collapsed_entries@.contains(key) {
                        dir_key(key)
                    } else {
                        None
                    })
                    &&& r->0.fold == (!old(self).collapsed_entries@.contains(key) && !(key
                        is Excerpt))
                    &&& r->0.buffers@ == with_fold_state(
                        toggled_buffers(*old(self), *entry),
                        env.folded_buffers@,
                        !r->0.fold,
                    )
                },
                None => {
                    &&& final(self).collapsed_entries@ == old(self).collapsed_entries@
                    &&& r->0.dir_to_expand is None
                    &&& !r->0.fold
                    &&& r->0.buffers@ == Set::<BufferId>::empty()
                },
            },
            !toggles(*old(self), *entry) ==> r is None && *final(self) == *old(self),
    {
        if self.active_item.is_none() {
            return None;
        }
        let key: Option<CollapsedEntry> = match entry {
            PanelEntry::FoldedDirs(dirs) => if dirs.entries.len() > 0 {
                Some(CollapsedEntry::Dir(dirs.worktree_id, dirs.entries[0].id))
            } else {
                None
            },
            PanelEntry::Search(_) => {
                return None;
            },
            PanelEntry::Outline(OutlineEntry::Outline(_)) => {
                return None;
            },
            _ => collapse_key(entry),
        };
        let buffers = match entry {
            PanelEntry::FoldedDirs(dirs) => if dirs.entries.len() > 0 {
                self.buffers_inside_directory(dirs.worktree_id, &dirs.entries[0])
            } else {
                VecSet::new()
            },
            _ => self.buffers_of_line(entry),
        };
        let mut dir_to_expand: Option<EntryKey> = None;
        let mut fold: bool = false;
        if let Some(key) = key {
            if self.collapsed_entries.remove(&key) {
                if let CollapsedEntry::Dir(worktree_id, entry_id) = key {
                    dir_to_expand = Some(EntryKey { worktree_id, entry_id });
                }
            } else {
                let _ = self.collapsed_entries.insert(key);
                fold = match key {
                    CollapsedEntry::Excerpt(_, _) => false,
                    _ => true,
                };
                assert(self.collapsed_entries@ =~= old(self).collapsed_entries@.insert(key));
            }
        }
        let buffers = buffers.filtered(&env.folded_buffers, !fold);
        assert(key is None ==> buffers@ =~= Set::<BufferId>::empty());
        self.select_entry(entry.clone());
        Some(FoldOutcome { dir_to_expand, buffers, fold })
    }

    /// Remembers that the panel itself folds or unfolds some buffers, so that the
    /// selection stays when the editor tells of it. Tells whether there is an
    /// editor to do so.
    pub fn toggle_buffers_fold(&mut self, buffers: &VecSet<BufferId>) -> (r: bool)
        ensures
            r == old(self).active_item is Some,
            !r ==> *final(self) == *old(self),
            r ==> final(self).preserve_selection_on_buffer_fold_toggles@ == old(
                self,
            ).preserve_selection_on_buffer_fold_toggles@.union(buffers@),
            same_but_preserved(*final(self), *old(self)),
    {
        if self.active_item.is_none() {
            return false;
        }
        let items = buffers.to_vec();
        self.preserve_selection_on_buffer_fold_toggles.extend(&items);
        assert(crate::collections::item_set(items@) =~= buffers@);
        true
    }
}

/// Panels that differ at most in what is hidden.
pub open spec fn same_but_collapsed(a: OutlinePanel, b: OutlinePanel) -> bool {
    a == (OutlinePanel { collapsed_entries: a.collapsed_entries, ..b })
}

/// Panels that differ at most in the buffers whose folding leaves the selection
/// alone.
pub open spec fn same_but_preserved(a: OutlinePanel, b: OutlinePanel) -> bool {
    a == (OutlinePanel {
        preserve_selection_on_buffer_fold_toggles: a.preserve_selection_on_buffer_fold_toggles,
        ..b
    })
}

/// A line was selected and its contents are shown.
pub open spec fn expanded_to(
    before: OutlinePanel,
    after: OutlinePanel,
    selected: PanelEntry,
    key: CollapsedEntry,
) -> bool {
    &&& after.collapsed_entries@ == before.collapsed_entries@.remove(key)
    &&& same_but_collapsed(after, with_selected(before, selected))
}

/// A line was selected and its contents are hidden.
pub open spec fn collapsed_to(
    before: OutlinePanel,
    after: OutlinePanel,
    selected: PanelEntry,
    key: CollapsedEntry,
) -> bool {
    &&& after.collapsed_entries@ == before.collapsed_entries@.insert(key)
    &&& same_but_collapsed(after, with_selected(before, selected))
}

/// Hides what is shown and shows what is hidden.
pub open spec fn toggled(collapsed: Set<CollapsedEntry>, key: CollapsedEntry) -> Set<
    CollapsedEntry,
> {
    if collapsed.contains(key) {
        collapsed.remove(key)
    } else {
        collapsed.insert(key)
    }
}

/// Toggling a line twice leaves hidden what was hidden.
pub proof fn law_toggle_twice(collapsed: Set<CollapsedEntry>, key: CollapsedEntry)
    ensures
        toggled(toggled(collapsed, key), key) == collapsed,
        toggled(collapsed, key).contains(key) == !collapsed.contains(key),
{
    assert(toggled(toggled(collapsed, key), key) =~= collapsed);
}

/// Showing what was hidden undoes hiding it.
pub proof fn law_expand_undoes_collapse(collapsed: Set<CollapsedEntry>, key: CollapsedEntry)
    requires
        !collapsed.contains(key),
    ensures
        collapsed.insert(key).remove(key) == collapsed,
{
    assert(collapsed.insert(key).remove(key) =~= collapsed);
}

} // verus!
