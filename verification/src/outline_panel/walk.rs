//! The walk over the files and directories that makes the lines of the panel:
//! chains of directories with nothing else in them are shown in one line.

use vstd::prelude::*;
use std::sync::Arc;
use crate::outline_panel::cached::{
    deeper, no_lines, with_excerpts, with_line, with_matches, GenerationOptions, GenerationState,
    Lines,
};
use crate::outline_panel::entries::{
    EntryKey, FoldedDirsEntry, FsEntry, FsEntryDirectory, GitEntry, PanelEntry, WorktreeId,
};
use crate::outline_panel::labels::{line_of, Line};
use crate::outline_panel::panel::{
    children_at, children_of, ItemsDisplayMode, OutlinePanel, PanelEnv,
};
use crate::path::{is_below, is_parent, RelPath};
use crate::shared::arc_clone;

verus! {

/// A directory above the current entry.
#[derive(Debug)]
pub struct ParentStats {
    pub path: Arc<RelPath>,
    /// Shown in one line with others.
    pub folded: bool,
    /// Shown, as all above it are.
    pub expanded: bool,
    pub depth: usize,
}

/// Directories that wait to be shown in one line.
#[derive(Debug)]
pub struct PendingDirs {
    pub depth: usize,
    pub worktree_id: WorktreeId,
    pub entries: Vec<GitEntry>,
}

/// How far a walk has come.
#[derive(Debug)]
pub struct Walk {
    pub parents: Vec<ParentStats>,
    pub pending: Option<PendingDirs>,
    pub state: GenerationState,
}

/// Directories that wait to be shown in one line.
pub struct Pending {
    pub depth: usize,
    pub worktree_id: WorktreeId,
    pub entries: Seq<GitEntry>,
}

/// How far a walk has come: the directories above, those that wait to be shown
/// in one line, and the lines made.
pub struct Walked {
    pub parents: Seq<ParentStats>,
    pub pending: Option<Pending>,
    pub state: Lines,
}

pub open spec fn pending_of(pending: Option<PendingDirs>) -> Option<Pending> {
    match pending {
        Some(dirs) => Some(
            Pending {
                depth: dirs.depth,
                worktree_id: dirs.worktree_id,
                entries: dirs.entries@,
            },
        ),
        None => None,
    }
}

impl View for Walk {
    type V = Walked;

    open spec fn view(&self) -> Walked {
        Walked {
            parents: self.parents@,
            pending: pending_of(self.pending),
            state: self.state@,
        }
    }
}

/// The directories that a path lies below, of those that were above the entry
/// before.
pub open spec fn still_above(
    parents: Seq<ParentStats>,
    path: Seq<Seq<char>>,
    is_root: bool,
) -> Seq<ParentStats>
    decreases parents.len(),
{
    if parents.len() == 0 || (!is_root && is_below(path, parents.last().path@)) {
        parents
    } else {
        still_above(parents.drop_last(), path, is_root)
    }
}

/// Whether a path is that of one of some entries.
pub open spec fn among(entries: Seq<GitEntry>, path: Seq<Seq<char>>) -> bool {
    exists|i: int| 0 <= i < entries.len() && (#[trigger] entries[i]).path@ == path
}

/// Whether the directory above some entries is shown.
pub open spec fn outer_expanded(parents: Seq<ParentStats>, entries: Seq<GitEntry>) -> bool
    decreases parents.len(),
{
    if parents.len() == 0 {
        true
    } else if !among(entries, parents.last().path@) {
        parents.last().expanded
    } else {
        outer_expanded(parents.drop_last(), entries)
    }
}

/// Shows the directories that wait, if what is above them is shown or there is a
/// query.
pub open spec fn flushed(
    env: PanelEnv,
    options: GenerationOptions,
    walked: Walked,
    at_end: bool,
) -> Walked {
    match walked.pending {
        None => walked,
        Some(pending) => Walked {
            parents: walked.parents,
            pending: None,
            state: if (at_end || !options.is_singleton) && (outer_expanded(
                walked.parents,
                pending.entries,
            ) || options.has_query) {
                with_line(
                    env,
                    walked.state,
                    options.has_query,
                    Line::Folded(pending.worktree_id, pending.entries),
                    pending.depth,
                )
            } else {
                walked.state
            },
        },
    }
}

/// How an entry is shown: where, and whether by itself.
pub struct Placed {
    pub walked: Walked,
    pub depth: usize,
    pub should_add: bool,
}

pub open spec fn stored_depth(panel: OutlinePanel, worktree_id: WorktreeId, entry: GitEntry) -> usize {
    let key = EntryKey { worktree_id, entry_id: entry.id };
    if panel.fs_entries_depth@.contains_key(key) {
        panel.fs_entries_depth@[key]
    } else {
        0
    }
}

/// Whether a directory is to be shown in one line with others.
pub open spec fn dir_folded(
    panel: OutlinePanel,
    env: PanelEnv,
    parents: Seq<ParentStats>,
    directory: FsEntryDirectory,
) -> bool {
    let is_root = env.root(directory.worktree_id, directory.entry);
    ||| env.auto_fold_dirs && !is_root && !panel.unfolded_dirs.has(
        directory.worktree_id,
        directory.entry.id,
    )
    ||| parents.len() > 0 && parents.last().folded && is_parent(
        parents.last().path@,
        directory.entry.path@,
    ) && children_at(
        panel.fs_children_count@,
        directory.worktree_id,
        directory.entry.path@,
    ).foldable()
}

/// The entry of a directory among those above what follows it.
pub open spec fn as_parent(
    panel: OutlinePanel,
    parents: Seq<ParentStats>,
    directory: FsEntryDirectory,
    folded: bool,
) -> ParentStats {
    let is_expanded = panel.expanded(FsEntry::Directory(directory));
    if parents.len() > 0 {
        let parent = parents.last();
        ParentStats {
            path: directory.entry.path,
            folded,
            expanded: parent.expanded && is_expanded,
            depth: if parent.folded {
                parent.depth
            } else {
                deeper(parent.depth, 1)
            },
        }
    } else {
        ParentStats {
            path: directory.entry.path,
            folded,
            expanded: is_expanded,
            depth: stored_depth(panel, directory.worktree_id, directory.entry),
        }
    }
}

/// Whether the parent at a distance from the end is shown.
pub open spec fn expanded_at(parents: Seq<ParentStats>, distance: nat) -> bool {
    distance >= parents.len() || parents[parents.len() - 1 - distance].expanded
}

/// Where a directory goes: to those that wait to be shown in one line, or to a
/// line of its own.
pub open spec fn placed_dir(
    panel: OutlinePanel,
    env: PanelEnv,
    options: GenerationOptions,
    walked: Walked,
    directory: FsEntryDirectory,
) -> Placed {
    let is_root = env.root(directory.worktree_id, directory.entry);
    let above = still_above(walked.parents, directory.entry.path@, is_root);
    let folded = dir_folded(panel, env, above, directory);
    let own = as_parent(panel, above, directory, folded);
    let parents = above.push(own);
    let parent_expanded = above.len() == 0 || above.last().expanded;
    let parent_folded = above.len() > 0 && above.last().folded;
    let alone = Some(
        Pending {
            depth: own.depth,
            worktree_id: directory.worktree_id,
            entries: seq![directory.entry],
        },
    );
    match walked.pending {
        None => {
            let pending = if folded {
                alone
            } else {
                None
            };
            Placed {
                walked: Walked { parents, pending, state: walked.state },
                depth: own.depth,
                should_add: parent_expanded && pending is None,
            }
        },
        Some(waiting) => if folded && directory.worktree_id == waiting.worktree_id
            && waiting.entries.len() > 0 && is_parent(
            waiting.entries.last().path@,
            directory.entry.path@,
        ) {
            Placed {
                walked: Walked {
                    parents,
                    pending: Some(
                        Pending {
                            depth: waiting.depth,
                            worktree_id: waiting.worktree_id,
                            entries: waiting.entries.push(directory.entry),
                        },
                    ),
                    state: walked.state,
                },
                depth: own.depth,
                should_add: false,
            }
        } else {
            let shown = !options.is_singleton && (parent_expanded || options.has_query
                || expanded_at(parents, waiting.entries.len() + 1));
            let pending = if parent_folded {
                None
            } else {
                alone
            };
            Placed {
                walked: Walked {
                    parents,
                    pending,
                    state: if shown {
                        with_line(
                            env,
                            walked.state,
                            options.has_query,
                            Line::Folded(
                                waiting.worktree_id,
                                if parent_folded {
                                    waiting.entries.push(directory.entry)
                                } else {
                                    waiting.entries
                                },
                            ),
                            waiting.depth,
                        )
                    } else {
                        walked.state
                    },
                },
                depth: own.depth,
                should_add: !(shown && parent_folded) && parent_expanded && pending is None,
            }
        },
    }
}

/// Where an entry goes.
pub open spec fn placed(
    panel: OutlinePanel,
    env: PanelEnv,
    options: GenerationOptions,
    walked: Walked,
    entry: FsEntry,
) -> Placed {
    match entry {
        FsEntry::Directory(directory) => placed_dir(panel, env, options, walked, directory),
        FsEntry::ExternalFile(_) => {
            let next = flushed(env, options, walked, false);
            Placed {
                walked: Walked { parents: Seq::empty(), pending: None, state: next.state },
                depth: 0,
                should_add: true,
            }
        },
        FsEntry::File(file) => {
            let next = flushed(env, options, walked, false);
            let above = still_above(next.parents, file.entry.path@, false);
            Placed {
                walked: Walked { parents: above, pending: None, state: next.state },
                depth: if above.len() > 0 {
                    deeper(above.last().depth, 1)
                } else {
                    stored_depth(panel, file.worktree_id, file.entry)
                },
                should_add: above.len() == 0 || above.last().expanded,
            }
        },
    }
}

/// Whether some line shows a symbol, an excerpt or a match.
pub open spec fn has_items(state: Lines) -> bool {
    exists|i: int|
        0 <= i < state.lines.len() && ((#[trigger] state.lines[i]).1 is Excerpt || state.lines[i].1
            is Outline || state.lines[i].1 is Search)
}

/// The lines of an entry that has its place: its own, those of its excerpts or
/// matches, and, for a single buffer with none of these, its own again.
pub open spec fn with_entry(
    panel: OutlinePanel,
    env: PanelEnv,
    options: GenerationOptions,
    place: Placed,
    entry: FsEntry,
) -> Lines {
    let own = if !options.is_singleton && (place.should_add || (options.has_query
        && place.walked.pending is None)) {
        with_line(env, place.walked.state, options.has_query, Line::Fs(entry), place.depth)
    } else {
        place.walked.state
    };
    let open = options.is_singleton || options.has_query || (place.should_add && panel.expanded(
        entry,
    ));
    let items = match panel.mode {
        ItemsDisplayMode::Search(search) => if open && !(entry is Directory) {
            with_matches(
                env,
                options,
                own,
                search.kind,
                search.matches@,
                entry.shown_excerpts(),
                if options.is_singleton {
                    0
                } else {
                    deeper(place.depth, 1)
                },
            )
        } else {
            own
        },
        ItemsDisplayMode::Outline => match entry.buffer() {
            Some(buffer_id) => if open && !env.folded_buffers@.contains(buffer_id) {
                with_excerpts(
                    panel,
                    env,
                    options,
                    own,
                    buffer_id,
                    entry.shown_excerpts(),
                    place.depth,
                )
            } else {
                own
            },
            None => own,
        },
    };
    if options.is_singleton && !(entry is Directory) && !has_items(items) {
        with_line(env, items, options.has_query, Line::Fs(entry), 0)
    } else {
        items
    }
}

/// The walk over some entries.
pub open spec fn walked_over(
    panel: OutlinePanel,
    env: PanelEnv,
    options: GenerationOptions,
    entries: Seq<FsEntry>,
) -> Walked
    decreases entries.len(),
{
    if entries.len() == 0 {
        Walked { parents: Seq::empty(), pending: None, state: no_lines() }
    } else {
        let before = walked_over(panel, env, options, entries.drop_last());
        let place = placed(panel, env, options, before, entries.last());
        Walked {
            parents: place.walked.parents,
            pending: place.walked.pending,
            state: with_entry(panel, env, options, place, entries.last()),
        }
    }
}

/// All the lines of the panel, before they are filtered by a query.
pub open spec fn all_lines(
    panel: OutlinePanel,
    env: PanelEnv,
    options: GenerationOptions,
) -> Lines {
    flushed(env, options, walked_over(panel, env, options, panel.fs_entries@), true).state
}

/// Takes off the directories that a path does not lie below.
fn pop_parents(parents: &mut Vec<ParentStats>, path: &RelPath, is_root: bool)
    ensures
        final(parents)@ == still_above(old(parents)@, path@, is_root),
{
    let ghost start = parents@;
    while parents.len() > 0
        invariant_except_break
            still_above(parents@, path@, is_root) == still_above(start, path@, is_root),
        ensures
            parents@ == still_above(start, path@, is_root),
        decreases parents.len(),
    {
        if !is_root && path.starts_with(&parents[parents.len() - 1].path) {
            break;
        }
        let ghost before = parents@;
        let _ = parents.pop();
        assert(parents@ =~= before.drop_last());
    }
}

fn is_among(entries: &Vec<GitEntry>, path: &RelPath) -> (r: bool)
    ensures
        r == among(entries@, path@),
{
    let mut i: usize = 0;
    while i < entries.len()
        invariant
            i <= entries@.len(),
            forall|j: int| 0 <= j < i ==> (#[trigger] entries@[j]).path@ != path@,
        decreases entries.len() - i,
    {
        if entries[i].path.same(path) {
            assert(entries@[i as int].path@ == path@);
            return true;
        }
        i = i + 1;
    }
    false
}

fn is_outer_expanded(parents: &Vec<ParentStats>, entries: &Vec<GitEntry>) -> (r: bool)
    ensures
        r == outer_expanded(parents@, entries@),
{
    let mut i: usize = parents.len();
    assert(parents@.take(i as int) =~= parents@);
    while i > 0
        invariant
            i <= parents@.len(),
            outer_expanded(parents@.take(i as int), entries@) == outer_expanded(
                parents@,
                entries@,
            ),
        decreases i,
    {
        proof {
            let here = parents@.take(i as int);
            assert(here.drop_last() =~= parents@.take(i - 1));
            assert(here.last() == parents@[i - 1]);
        }
        if !is_among(entries, &parents[i - 1].path) {
            return parents[i - 1].expanded;
        }
        i = i - 1;
    }
    true
}

impl GenerationState {
    fn has_items(&self) -> (r: bool)
        ensures
            r == has_items(self@),
    {
        let mut i: usize = 0;
        while i < self.entries.len()
            invariant
                i <= self.entries@.len(),
                forall|j: int|
                    0 <= j < i ==> !((#[trigger] self@.lines[j]).1 is Excerpt || self@.lines[j].1
                        is Outline || self@.lines[j].1 is Search),
            decreases self.entries.len() - i,
        {
            let found: bool = match &self.entries[i].entry {
                PanelEntry::Outline(_) => true,
                PanelEntry::Search(_) => true,
                _ => false,
            };
            assert(self@.lines[i as int].1 == line_of(self.entries@[i as int].entry));
            if found {
                return true;
            }
            i = i + 1;
        }
        false
    }
}

impl OutlinePanel {
    fn depth_of(&self, worktree_id: WorktreeId, entry: &GitEntry) -> (r: usize)
        ensures
            r == stored_depth(*self, worktree_id, *entry),
    {
        match self.fs_entries_depth.get(&EntryKey { worktree_id, entry_id: entry.id }) {
            Some(depth) => *depth,
            None => 0,
        }
    }

    /// Shows the directories that wait.
    fn flush(&self, walk: &mut Walk, env: &PanelEnv, options: GenerationOptions, at_end: bool)
        requires
            old(walk).state.no_matches(),
        ensures
            final(walk).state.no_matches(),
            final(walk)@ == flushed(*env, options, old(walk)@, at_end),
    {
        let pending = walk.pending.take();
        if let Some(dirs) = pending {
            let expanded: bool = is_outer_expanded(&walk.parents, &dirs.entries);
            if (at_end || !options.is_singleton) && (expanded || options.has_query) {
                walk.state.push_entry(
                    env,
                    options.has_query,
                    PanelEntry::FoldedDirs(
                        FoldedDirsEntry {
                            worktree_id: dirs.worktree_id,
                            entries: Arc::new(dirs.entries),
                        },
                    ),
                    dirs.depth,
                );
            }
        }
    }

    /// Finds the place of a directory: its depth, and whether it has a line of its
    /// own.
    fn place_directory(
        &self,
        walk: &mut Walk,
        env: &PanelEnv,
        options: GenerationOptions,
        directory: &FsEntryDirectory,
    ) -> (r: (usize, bool))
        requires
            old(walk).state.no_matches(),
        ensures
            final(walk).state.no_matches(),
            ({
                let place = placed_dir(*self, *env, options, old(walk)@, *directory);
                &&& final(walk)@.parents == place.walked.parents
                &&& final(walk)@.pending == place.walked.pending
                &&& final(walk)@.state == place.walked.state
                &&& r.0 == place.depth
                &&& r.1 == place.should_add
            }),
    {
        let ghost start = walk@;
        let path: &RelPath = &directory.entry.path;
        let is_root: bool = env.is_root(directory.worktree_id, &directory.entry);
        pop_parents(&mut walk.parents, path, is_root);
        let ghost above = walk.parents@;
        let is_expanded: bool = !self.collapsed_entries.contains(
            &crate::outline_panel::entries::CollapsedEntry::Dir(
                directory.worktree_id,
                directory.entry.id,
            ),
        );
        let mut folded: bool = env.auto_fold_dirs && !is_root && !self.unfolded_dirs.contains(
            directory.worktree_id,
            directory.entry.id,
        );
        let count: usize = walk.parents.len();
        let mut depth: usize = self.depth_of(directory.worktree_id, &directory.entry);
        let mut parent_expanded: bool = true;
        let mut parent_folded: bool = false;
        if count > 0 {
            let parent: &ParentStats = &walk.parents[count - 1];
            parent_expanded = parent.expanded;
            parent_folded = parent.folded;
            if parent.folded && parent.path.is_parent_of(path) && children_of(
                &self.fs_children_count,
                directory.worktree_id,
                path,
            ).may_be_fold_part() {
                folded = true;
            }
            depth =
            if parent.folded {
                parent.depth
            } else {
                parent.depth.saturating_add(1)
            };
        }
        assert(folded == dir_folded(*self, *env, above, *directory));
        let own = ParentStats {
            path: arc_clone(&directory.entry.path),
            folded,
            expanded: parent_expanded && is_expanded,
            depth,
        };
        assert(own == as_parent(*self, above, *directory, folded));
        walk.parents.push(own);
        let ghost parents = walk.parents@;
        let pending = walk.pending.take();
        let mut should_add: bool = true;
        match pending {
            None => {
                if folded {
                    let mut entries: Vec<GitEntry> = Vec::new();
                    entries.push(directory.entry.clone());
                    assert(entries@ =~= seq![directory.entry]);
                    walk.pending =
                    Some(PendingDirs { depth, worktree_id: directory.worktree_id, entries });
                }
            },
            Some(dirs) => {
                let mut dirs = dirs;
                let waiting: usize = dirs.entries.len();
                let continues: bool = folded && directory.worktree_id == dirs.worktree_id && waiting
                    > 0 && dirs.entries[waiting - 1].path.is_parent_of(path);
                if continues {
                    dirs.entries.push(directory.entry.clone());
                    walk.pending = Some(dirs);
                } else {
                    let worktree_id: WorktreeId = directory.worktree_id;
                    if !options.is_singleton {
                        let parent_count: usize = walk.parents.len();
                        let start_of_collapsed: bool = !parent_expanded && (parent_count < 2
                            || waiting >= parent_count - 1 || walk.parents[parent_count - 2
                            - waiting].expanded);
                        if start_of_collapsed || parent_expanded || options.has_query {
                            if parent_folded {
                                dirs.entries.push(directory.entry.clone());
                                should_add = false;
                            }
                            walk.state.push_entry(
                                env,
                                options.has_query,
                                PanelEntry::FoldedDirs(
                                    FoldedDirsEntry {
                                        worktree_id: dirs.worktree_id,
                                        entries: Arc::new(dirs.entries),
                                    },
                                ),
                                dirs.depth,
                            );
                        }
                    }
                    if !parent_folded {
                        let mut entries: Vec<GitEntry> = Vec::new();
                        entries.push(directory.entry.clone());
                        assert(entries@ =~= seq![directory.entry]);
                        walk.pending = Some(PendingDirs { depth, worktree_id, entries });
                    }
                }
            },
        }
        let alone: bool = walk.pending.is_none();
        (depth, should_add && parent_expanded && alone)
    }

    /// Adds the lines of one entry.
    fn walk_entry(
        &self,
        walk: &mut Walk,
        env: &PanelEnv,
        options: GenerationOptions,
        entry: &FsEntry,
    )
        requires
            old(walk).state.no_matches(),
        ensures
            final(walk).state.no_matches(),
            ({
                let place = placed(*self, *env, options, old(walk)@, *entry);
                &&& final(walk)@.parents == place.walked.parents
                &&& final(walk)@.pending == place.walked.pending
                &&& final(walk)@.state == with_entry(*self, *env, options, place, *entry)
            }),
    {
        let ghost place = placed(*self, *env, options, walk@, *entry);
        let (depth, should_add) = match entry {
            FsEntry::Directory(directory) => self.place_directory(walk, env, options, directory),
            FsEntry::ExternalFile(_) => {
                self.flush(walk, env, options, false);
                walk.parents.clear();
                (0, true)
            },
            FsEntry::File(file) => {
                self.flush(walk, env, options, false);
                pop_parents(&mut walk.parents, &file.entry.path, false);
                let count: usize = walk.parents.len();
                if count > 0 {
                    let parent: &ParentStats = &walk.parents[count - 1];
                    (parent.depth.saturating_add(1), parent.expanded)
                } else {
                    (self.depth_of(file.worktree_id, &file.entry), true)
                }
            },
        };
        assert(depth == place.depth);
        assert(should_add == place.should_add);
        assert(walk@.parents =~= place.walked.parents);
        assert(walk@.pending == place.walked.pending);
        assert(walk@.state == place.walked.state);
        let settled: bool = walk.pending.is_none();
        if !options.is_singleton && (should_add || (options.has_query && settled)) {
            walk.state.push_entry(env, options.has_query, PanelEntry::Fs(entry.clone()), depth);
        }
        let open: bool = options.is_singleton || options.has_query || (should_add
            && self.is_expanded(entry));
        match &self.mode {
            ItemsDisplayMode::Search(search) => {
                if open {
                    let items_depth: usize = if options.is_singleton {
                        0
                    } else {
                        depth.saturating_add(1)
                    };
                    match entry {
                        FsEntry::Directory(_) => {},
                        FsEntry::ExternalFile(file) => {
                            self.add_search_entries(
                                &mut walk.state,
                                env,
                                options,
                                search.kind,
                                &search.matches,
                                &file.excerpts,
                                items_depth,
                            );
                        },
                        FsEntry::File(file) => {
                            self.add_search_entries(
                                &mut walk.state,
                                env,
                                options,
                                search.kind,
                                &search.matches,
                                &file.excerpts,
                                items_depth,
                            );
                        },
                    }
                }
            },
            ItemsDisplayMode::Outline => {
                if open {
                    match entry {
                        FsEntry::Directory(_) => {},
                        FsEntry::ExternalFile(file) => {
                            if !env.folded_buffers.contains(&file.buffer_id) {
                                self.add_excerpt_entries(
                                    &mut walk.state,
                                    env,
                                    options,
                                    file.buffer_id,
                                    &file.excerpts,
                                    depth,
                                );
                            }
                        },
                        FsEntry::File(file) => {
                            if !env.folded_buffers.contains(&file.buffer_id) {
                                self.add_excerpt_entries(
                                    &mut walk.state,
                                    env,
                                    options,
                                    file.buffer_id,
                                    &file.excerpts,
                                    depth,
                                );
                            }
                        },
                    }
                }
            },
        }
        let is_file: bool = match entry {
            FsEntry::Directory(_) => false,
            _ => true,
        };
        if options.is_singleton && is_file && !walk.state.has_items() {
            walk.state.push_entry(env, options.has_query, PanelEntry::Fs(entry.clone()), 0);
        }
    }

    /// Makes the lines of the panel, before they are filtered by a query. A panel
    /// that follows no item has none.
    pub fn generate_cached_entries(&self, env: &PanelEnv, options: GenerationOptions) -> (state:
        GenerationState)
        ensures
            state.no_matches(),
            state@ == (if self.active_item is None {
                no_lines()
            } else {
                all_lines(*self, *env, options)
            }),
    {
        if self.active_item.is_none() {
            return GenerationState::new();
        }
        let mut walk = Walk {
            parents: Vec::new(),
            pending: None,
            state: GenerationState::new(),
        };
        let ghost all = self.fs_entries@;
        let mut i: usize = 0;
        assert(all.take(0) =~= Seq::empty());
        assert(walk@.parents =~= Seq::empty());
        while i < self.fs_entries.len()
            invariant
                i <= all.len(),
                all == self.fs_entries@,
                walk.state.no_matches(),
                walk@ == walked_over(*self, *env, options, all.take(i as int)),
            decreases self.fs_entries.len() - i,
        {
            proof {
                let next = all.take(i + 1);
                assert(next.drop_last() =~= all.take(i as int));
                assert(next.last() == all[i as int]);
            }
            self.walk_entry(&mut walk, env, options, &self.fs_entries[i]);
            i = i + 1;
        }
        assert(all.take(i as int) =~= all);
        self.flush(&mut walk, env, options, true);
        walk.state
    }
}

} // verus!
