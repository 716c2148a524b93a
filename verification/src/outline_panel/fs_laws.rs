//! What holds of the files and directories that the panel shows.

use vstd::prelude::*;
use crate::outline_panel::entries::{
    BufferId, CollapsedEntry, EntryKey, ExcerptId, FsEntry, GitEntry, ProjectEntryId, WorktreeId,
};
use crate::outline_panel::fs_gather::{
    buffer_index, buffer_key, buffer_models, climbed, entry_index, grouped, listed_before, slot,
    upserted, with_buffer, with_buffers, without_entry, BufferExcerpts, BufferModel,
    ExcerptSnapshot, FileExcerpts, Gathered, WorktreeEntry, WorktreeFile,
};
use crate::outline_panel::fs_update::{fs_updated, worktree_entries, FsEntriesUpdate};
use crate::outline_panel::panel::{children_at, OutlinePanel};
use crate::path::{is_below, lemma_path_before_total, lemma_path_before_transitive, path_before};

verus! {

/// Entries are listed by worktree, then by path.
pub open spec fn in_order(entries: Seq<WorktreeEntry>) -> bool {
    forall|i: int, j: int|
        0 <= i < j < entries.len() ==> !listed_before(#[trigger] entries[j], #[trigger] entries[i])
}

/// No entry is listed twice.
pub open spec fn distinct_entries(entries: Seq<WorktreeEntry>) -> bool {
    forall|i: int, j: int|
        0 <= i < j < entries.len() ==> !((#[trigger] entries[i]).worktree_id == (
        #[trigger] entries[j]).worktree_id && entries[i].entry.id == entries[j].entry.id)
}

proof fn lemma_listed_before_transitive(a: WorktreeEntry, b: WorktreeEntry, c: WorktreeEntry)
    requires
        listed_before(a, b),
        listed_before(b, c),
    ensures
        listed_before(a, c),
{
    if a.worktree_id == b.worktree_id && b.worktree_id == c.worktree_id {
        lemma_path_before_transitive(a.entry.path@, b.entry.path@, c.entry.path@);
    }
}

proof fn lemma_slot(entries: Seq<WorktreeEntry>, new: WorktreeEntry)
    ensures
        0 <= slot(entries, new) <= entries.len(),
        forall|k: int|
            0 <= k < slot(entries, new) ==> !listed_before(new, #[trigger] entries[k]),
        slot(entries, new) < entries.len() ==> listed_before(
            new,
            entries[slot(entries, new)],
        ),
    decreases entries.len(),
{
    if entries.len() > 0 && !listed_before(new, entries.first()) {
        let rest = entries.drop_first();
        lemma_slot(rest, new);
        assert forall|k: int| 0 <= k < slot(entries, new) implies !listed_before(
            new,
            #[trigger] entries[k],
        ) by {
            if k > 0 {
                assert(entries[k] == rest[k - 1]);
            }
        }
    }
}

proof fn lemma_entry_index(entries: Seq<WorktreeEntry>, worktree_id: WorktreeId, id: ProjectEntryId)
    ensures
        0 <= entry_index(entries, worktree_id, id) <= entries.len(),
        entry_index(entries, worktree_id, id) < entries.len() ==> entries[entry_index(
            entries,
            worktree_id,
            id,
        )].worktree_id == worktree_id && entries[entry_index(
            entries,
            worktree_id,
            id,
        )].entry.id == id,
        forall|k: int|
            0 <= k < entry_index(entries, worktree_id, id) ==> !((
            #[trigger] entries[k]).worktree_id == worktree_id && entries[k].entry.id == id),
    decreases entries.len(),
{
    if entries.len() > 0 && !(entries.first().worktree_id == worktree_id
        && entries.first().entry.id == id) {
        let rest = entries.drop_first();
        lemma_entry_index(rest, worktree_id, id);
        assert forall|k: int| 0 <= k < entry_index(entries, worktree_id, id) implies !((
        #[trigger] entries[k]).worktree_id == worktree_id && entries[k].entry.id == id) by {
            if k > 0 {
                assert(entries[k] == rest[k - 1]);
            }
        }
    }
}

proof fn lemma_upserted(entries: Seq<WorktreeEntry>, new: WorktreeEntry)
    requires
        in_order(entries),
        distinct_entries(entries),
    ensures
        in_order(upserted(entries, new)),
        distinct_entries(upserted(entries, new)),
        upserted(entries, new).contains(new),
{
    let at: int = entry_index(entries, new.worktree_id, new.entry.id);
    let rest = without_entry(entries, new.worktree_id, new.entry.id);
    lemma_entry_index(entries, new.worktree_id, new.entry.id);
    assert forall|i: int| 0 <= i < rest.len() implies !((#[trigger] rest[i]).worktree_id
        == new.worktree_id && rest[i].entry.id == new.entry.id) by {
        if at < entries.len() {
            let from: int = if i < at {
                i
            } else {
                i + 1
            };
            assert(rest[i] == entries[from]);
            if from > at {
                assert(entries[at].worktree_id == new.worktree_id);
            }
        }
    }
    assert forall|i: int, j: int| 0 <= i < j < rest.len() implies !listed_before(
        #[trigger] rest[j],
        #[trigger] rest[i],
    ) && !(rest[i].worktree_id == rest[j].worktree_id && rest[i].entry.id == rest[j].entry.id) by {
        if at < entries.len() {
            let x: int = if i < at {
                i
            } else {
                i + 1
            };
            let y: int = if j < at {
                j
            } else {
                j + 1
            };
            assert(rest[i] == entries[x] && rest[j] == entries[y]);
        }
    }
    lemma_slot(rest, new);
    let to: int = slot(rest, new);
    let all = upserted(entries, new);
    assert(all[to] == new);
    assert forall|k: int| to <= k < rest.len() implies !listed_before(#[trigger] rest[k], new) by {
        if listed_before(rest[k], new) {
            lemma_listed_before_transitive(rest[k], new, rest[to]);
            if k == to {
                lemma_path_before_total(new.entry.path@, rest[to].entry.path@);
                lemma_path_before_total(rest[to].entry.path@, rest[to].entry.path@);
            } else {
                assert(!listed_before(rest[k], rest[to]));
            }
        }
    }
    assert forall|i: int, j: int| 0 <= i < j < all.len() implies !listed_before(
        #[trigger] all[j],
        #[trigger] all[i],
    ) && !(all[i].worktree_id == all[j].worktree_id && all[i].entry.id == all[j].entry.id) by {
        let x: int = if i < to {
            i
        } else {
            i - 1
        };
        let y: int = if j < to {
            j
        } else {
            j - 1
        };
        if i != to {
            assert(all[i] == rest[x]);
        }
        if j != to {
            assert(all[j] == rest[y]);
        }
    }
}

proof fn lemma_climbed_order(
    gathered: Gathered,
    auto_fold_dirs: bool,
    file: WorktreeFile,
    is_new: bool,
    chain: Seq<GitEntry>,
    seen: Set<ProjectEntryId>,
)
    requires
        in_order(gathered.entries),
        distinct_entries(gathered.entries),
    ensures
        ({
            let entries = climbed(gathered, auto_fold_dirs, file, is_new, chain, seen).entries;
            in_order(entries) && distinct_entries(entries)
        }),
    decreases chain.len(),
{
    if chain.len() > 0 {
        let entry = chain.first();
        let new = WorktreeEntry { worktree_id: file.worktree_id, entry };
        lemma_upserted(gathered.entries, new);
        let key = crate::outline_panel::entries::EntryKey {
            worktree_id: file.worktree_id,
            entry_id: entry.id,
        };
        let is_root = entry.is_dir && file.root_entry_id == Some(entry.id);
        let next = Gathered {
            roots: if is_root {
                gathered.roots.insert(entry.id)
            } else {
                gathered.roots
            },
            unfolded_dirs: if is_root && auto_fold_dirs {
                gathered.unfolded_dirs.insert(key)
            } else {
                gathered.unfolded_dirs
            },
            collapsed: if entry.is_dir && is_new {
                gathered.collapsed.remove(CollapsedEntry::Dir(file.worktree_id, entry.id))
            } else {
                gathered.collapsed
            },
            entries: upserted(gathered.entries, new),
            ..gathered
        };
        if !seen.contains(entry.id) {
            lemma_climbed_order(
                next,
                auto_fold_dirs,
                file,
                is_new,
                chain.drop_first(),
                seen.insert(entry.id),
            );
        }
    }
}

/// However the buffers come, the entries of the worktrees are listed in order,
/// and each once.
pub proof fn law_entries_in_order(
    start: Gathered,
    auto_fold_dirs: bool,
    buffers: Seq<BufferExcerpts>,
)
    requires
        in_order(start.entries),
        distinct_entries(start.entries),
    ensures
        in_order(with_buffers(start, auto_fold_dirs, buffers).entries),
        distinct_entries(with_buffers(start, auto_fold_dirs, buffers).entries),
    decreases buffers.len(),
{
    if buffers.len() > 0 {
        law_entries_in_order(start, auto_fold_dirs, buffers.drop_last());
        let gathered = with_buffers(start, auto_fold_dirs, buffers.drop_last());
        let buffer = buffers.last();
        if buffer.file is Some && buffer.file->0.chain@.len() > 0 {
            let file = buffer.file->0;
            let key = buffer_key(buffer);
            let next = Gathered {
                collapsed: if buffer.is_folded {
                    gathered.collapsed.insert(key)
                } else if buffer.is_new {
                    gathered.collapsed.remove(key)
                } else {
                    gathered.collapsed
                },
                unfolded_worktrees: gathered.unfolded_worktrees.insert(file.worktree_id),
                files: gathered.files.insert(
                    crate::outline_panel::entries::EntryKey {
                        worktree_id: file.worktree_id,
                        entry_id: file.chain@[0].id,
                    },
                    crate::outline_panel::fs_gather::FileExcerpts {
                        buffer_id: buffer.buffer_id,
                        excerpts: buffer.excerpts,
                    },
                ),
                ..gathered
            };
            lemma_climbed_order(
                next,
                auto_fold_dirs,
                file,
                buffer.is_new,
                file.chain@,
                Set::empty(),
            );
        }
    }
}

proof fn lemma_prefix_before(dir: Seq<Seq<char>>, path: Seq<Seq<char>>)
    requires
        is_below(path, dir),
        dir.len() < path.len(),
    ensures
        path_before(dir, path),
    decreases dir.len(),
{
    if dir.len() > 0 {
        assert(path.take(dir.len() as int)[0] == dir[0]);
        assert(path.drop_first().take(dir.len() - 1) =~= path.take(
            dir.len() as int,
        ).drop_first());
        lemma_prefix_before(dir.drop_first(), path.drop_first());
    }
}

/// In a list in order a directory comes ahead of all that lies below it.
pub proof fn law_directories_come_first(entries: Seq<WorktreeEntry>, dir: int, below: int)
    requires
        in_order(entries),
        0 <= dir < entries.len(),
        0 <= below < entries.len(),
        entries[dir].worktree_id == entries[below].worktree_id,
        is_below(entries[below].entry.path@, entries[dir].entry.path@),
        entries[dir].entry.path@ != entries[below].entry.path@,
    ensures
        dir < below,
{
    let a = entries[dir].entry.path@;
    let b = entries[below].entry.path@;
    if a.len() == b.len() {
        assert(b.take(a.len() as int) =~= b);
    }
    lemma_prefix_before(a, b);
    assert(listed_before(entries[dir], entries[below]));
    if below < dir {
        assert(!listed_before(entries[dir], entries[below]));
    }
}

proof fn lemma_climbed_collapsed(
    gathered: Gathered,
    auto_fold_dirs: bool,
    file: WorktreeFile,
    is_new: bool,
    chain: Seq<GitEntry>,
    seen: Set<ProjectEntryId>,
    key: CollapsedEntry,
)
    requires
        !(key is Dir),
    ensures
        climbed(gathered, auto_fold_dirs, file, is_new, chain, seen).collapsed.contains(key)
            == gathered.collapsed.contains(key),
    decreases chain.len(),
{
    if chain.len() > 0 {
        let entry = chain.first();
        let map_key = crate::outline_panel::entries::EntryKey {
            worktree_id: file.worktree_id,
            entry_id: entry.id,
        };
        let is_root = entry.is_dir && file.root_entry_id == Some(entry.id);
        let next = Gathered {
            roots: if is_root {
                gathered.roots.insert(entry.id)
            } else {
                gathered.roots
            },
            unfolded_dirs: if is_root && auto_fold_dirs {
                gathered.unfolded_dirs.insert(map_key)
            } else {
                gathered.unfolded_dirs
            },
            collapsed: if entry.is_dir && is_new {
                gathered.collapsed.remove(CollapsedEntry::Dir(file.worktree_id, entry.id))
            } else {
                gathered.collapsed
            },
            entries: upserted(
                gathered.entries,
                WorktreeEntry { worktree_id: file.worktree_id, entry },
            ),
            ..gathered
        };
        if !seen.contains(entry.id) {
            lemma_climbed_collapsed(
                next,
                auto_fold_dirs,
                file,
                is_new,
                chain.drop_first(),
                seen.insert(entry.id),
                key,
            );
        }
    }
}

proof fn lemma_buffer_collapsed(
    gathered: Gathered,
    auto_fold_dirs: bool,
    buffer: BufferExcerpts,
    key: CollapsedEntry,
)
    requires
        !(key is Dir),
    ensures
        with_buffer(gathered, auto_fold_dirs, buffer).collapsed.contains(key) == (if key
            == buffer_key(buffer) && buffer.is_folded {
            true
        } else if key == buffer_key(buffer) && buffer.is_new {
            false
        } else {
            gathered.collapsed.contains(key)
        }),
{
    if buffer.file is Some && buffer.file->0.chain@.len() > 0 {
        let file = buffer.file->0;
        let own = buffer_key(buffer);
        let next = Gathered {
            collapsed: if buffer.is_folded {
                gathered.collapsed.insert(own)
            } else if buffer.is_new {
                gathered.collapsed.remove(own)
            } else {
                gathered.collapsed
            },
            unfolded_worktrees: gathered.unfolded_worktrees.insert(file.worktree_id),
            files: gathered.files.insert(
                crate::outline_panel::entries::EntryKey {
                    worktree_id: file.worktree_id,
                    entry_id: file.chain@[0].id,
                },
                crate::outline_panel::fs_gather::FileExcerpts {
                    buffer_id: buffer.buffer_id,
                    excerpts: buffer.excerpts,
                },
            ),
            ..gathered
        };
        lemma_climbed_collapsed(
            next,
            auto_fold_dirs,
            file,
            buffer.is_new,
            file.chain@,
            Set::empty(),
            key,
        );
    }
}

/// Whether a file is collapsed follows the editor: one that it shows folded is,
/// one that is new and not folded is not, and any other is as before.
pub proof fn law_collapsed_follows_the_editor(
    start: Gathered,
    auto_fold_dirs: bool,
    buffers: Seq<BufferExcerpts>,
    k: int,
)
    requires
        0 <= k < buffers.len(),
        forall|i: int, j: int|
            0 <= i < j < buffers.len() ==> (#[trigger] buffers[i]).buffer_id != (
            #[trigger] buffers[j]).buffer_id,
    ensures
        with_buffers(start, auto_fold_dirs, buffers).collapsed.contains(buffer_key(buffers[k]))
            == (buffers[k].is_folded || (!buffers[k].is_new && start.collapsed.contains(
            buffer_key(buffers[k]),
        ))),
{
    lemma_collapsed_upto(start, auto_fold_dirs, buffers, k);
}

proof fn lemma_collapsed_upto(
    start: Gathered,
    auto_fold_dirs: bool,
    buffers: Seq<BufferExcerpts>,
    k: int,
)
    requires
        0 <= k,
        forall|i: int, j: int|
            0 <= i < j < buffers.len() ==> (#[trigger] buffers[i]).buffer_id != (
            #[trigger] buffers[j]).buffer_id,
    ensures
        k < buffers.len() ==> with_buffers(start, auto_fold_dirs, buffers).collapsed.contains(
            buffer_key(buffers[k]),
        ) == (buffers[k].is_folded || (!buffers[k].is_new && start.collapsed.contains(
            buffer_key(buffers[k]),
        ))),
    decreases buffers.len(),
{
    if k < buffers.len() {
        let rest = buffers.drop_last();
        let key = buffer_key(buffers[k]);
        assert forall|i: int, j: int| 0 <= i < j < rest.len() implies (
        #[trigger] rest[i]).buffer_id != (#[trigger] rest[j]).buffer_id by {
            assert(buffers[i].buffer_id != buffers[j].buffer_id);
        }
        lemma_buffer_collapsed(
            with_buffers(start, auto_fold_dirs, rest),
            auto_fold_dirs,
            buffers.last(),
            key,
        );
        if k < rest.len() {
            assert(rest[k] == buffers[k]);
            assert(buffers[k].buffer_id != buffers[buffers.len() - 1].buffer_id);
            lemma_collapsed_upto(start, auto_fold_dirs, rest, k);
        } else {
            lemma_untouched(start, auto_fold_dirs, rest, key, buffers[k].buffer_id);
        }
    }
}

/// Buffers leave alone whether another one is collapsed.
proof fn lemma_untouched(
    start: Gathered,
    auto_fold_dirs: bool,
    buffers: Seq<BufferExcerpts>,
    key: CollapsedEntry,
    buffer_id: u64,
)
    requires
        match key {
            CollapsedEntry::File(_, id) => id == buffer_id,
            CollapsedEntry::ExternalFile(id) => id == buffer_id,
            _ => false,
        },
        forall|i: int| 0 <= i < buffers.len() ==> (#[trigger] buffers[i]).buffer_id != buffer_id,
    ensures
        with_buffers(start, auto_fold_dirs, buffers).collapsed.contains(key)
            == start.collapsed.contains(key),
    decreases buffers.len(),
{
    if buffers.len() > 0 {
        let rest = buffers.drop_last();
        assert forall|i: int| 0 <= i < rest.len() implies (#[trigger] rest[i]).buffer_id
            != buffer_id by {
            assert(rest[i] == buffers[i]);
        }
        lemma_untouched(start, auto_fold_dirs, rest, key, buffer_id);
        lemma_buffer_collapsed(
            with_buffers(start, auto_fold_dirs, rest),
            auto_fold_dirs,
            buffers.last(),
            key,
        );
        assert(buffers.last() == buffers[buffers.len() - 1]);
    }
}

/// Where an entry of a worktree lies, and which it is.
pub open spec fn place(entry: FsEntry) -> Option<(WorktreeId, Seq<Seq<char>>, ProjectEntryId)> {
    match entry {
        FsEntry::File(file) => Some((file.worktree_id, file.entry.path@, file.entry.id)),
        FsEntry::Directory(dir) => Some((dir.worktree_id, dir.entry.path@, dir.entry.id)),
        FsEntry::ExternalFile(_) => None,
    }
}

/// Where an entry of a worktree lies, and which it is.
spec fn place_before(entry: WorktreeEntry) -> (WorktreeId, Seq<Seq<char>>, ProjectEntryId) {
    (entry.worktree_id, entry.entry.path@, entry.entry.id)
}

proof fn lemma_listed_place(
    entries: Seq<WorktreeEntry>,
    files: Map<EntryKey, FileExcerpts>,
    i: int,
) -> (a: int)
    requires
        0 <= i < worktree_entries(entries, files).len(),
    ensures
        0 <= a < entries.len(),
        place(worktree_entries(entries, files)[i]) == Some(place_before(entries[a])),
        worktree_entries(entries, files)[i] is Directory <==> entries[a].entry.is_dir,
        i == worktree_entries(entries.take(a), files).len(),
        entries[a].entry.is_dir || files.contains_key(
            EntryKey { worktree_id: entries[a].worktree_id, entry_id: entries[a].entry.id },
        ),
    decreases entries.len(),
{
    let less = entries.drop_last();
    if i < worktree_entries(less, files).len() {
        let a: int = lemma_listed_place(less, files, i);
        assert(less.take(a) =~= entries.take(a));
        a
    } else {
        assert(entries.take(entries.len() - 1) =~= less);
        entries.len() - 1
    }
}

proof fn lemma_listed_grow(
    entries: Seq<WorktreeEntry>,
    files: Map<EntryKey, FileExcerpts>,
    a: int,
    b: int,
)
    requires
        0 <= a <= b <= entries.len(),
    ensures
        worktree_entries(entries.take(a), files).len() <= worktree_entries(
            entries.take(b),
            files,
        ).len(),
    decreases b - a,
{
    if a < b {
        lemma_listed_grow(entries, files, a, b - 1);
        assert(entries.take(b).drop_last() =~= entries.take(b - 1));
    }
}

/// What has been taken up is listed in order: files outside of worktrees first, and then the
/// entries of one worktree after those of another, by their paths and none twice.
pub proof fn law_entries_are_listed_in_order(
    panel: &mut OutlinePanel,
    update: FsEntriesUpdate,
    auto_fold_dirs: bool,
    snapshots: Vec<ExcerptSnapshot>,
    i: int,
    j: int,
)
    requires
        old(panel).pending.fs_entries == Some(update.number),
        call_ensures(
            OutlinePanel::update_fs_entries,
            (panel, &update, auto_fold_dirs, &snapshots),
            (),
        ),
        0 <= i < j < final(panel).fs_entries@.len(),
    ensures
        place(final(panel).fs_entries@[i]) is Some ==> place(final(panel).fs_entries@[j]) is Some,
        place(final(panel).fs_entries@[i]) matches Some(a) ==> {
            let b = place(final(panel).fs_entries@[j])->0;
            &&& a.0 <= b.0
            &&& a.0 == b.0 ==> !path_before(b.1, a.1) && a.2 != b.2
        },
{
    let new_entries = update.new_entries@;
    let buffers = choose|buffers: Seq<BufferExcerpts>| #[trigger]
        fs_updated(
            *old(panel),
            *final(panel),
            new_entries,
            auto_fold_dirs,
            snapshots@,
            buffers,
        );
    let start = Gathered {
        collapsed: old(panel).collapsed_entries@,
        unfolded_worktrees: old(panel).unfolded_dirs.worktrees@,
        unfolded_dirs: old(panel).unfolded_dirs.dirs@,
        roots: Set::empty(),
        entries: Seq::empty(),
        files: Map::empty(),
        external: Seq::empty(),
    };
    let gathered = with_buffers(start, auto_fold_dirs, buffers);
    law_entries_in_order(start, auto_fold_dirs, buffers);
    let all = final(panel).fs_entries@;
    let outside: int = gathered.external.len() as int;
    let inside = worktree_entries(gathered.entries, gathered.files);
    if i >= outside {
        assert(all[i] == inside[i - outside]);
        assert(all[j] == inside[j - outside]);
        let a: int = lemma_listed_place(gathered.entries, gathered.files, i - outside);
        let b: int = lemma_listed_place(gathered.entries, gathered.files, j - outside);
        if b <= a {
            lemma_listed_grow(gathered.entries, gathered.files, b, a);
        }
        assert(!listed_before(gathered.entries[b], gathered.entries[a]));
    } else {
        assert(all[i] is ExternalFile);
        if j >= outside {
            assert(all[j] == inside[j - outside]);
        }
    }
}

proof fn lemma_index_bounds(groups: Seq<BufferModel>, buffer_id: BufferId)
    ensures
        0 <= buffer_index(groups, buffer_id) <= groups.len(),
    decreases groups.len(),
{
    if groups.len() > 0 {
        lemma_index_bounds(groups.drop_first(), buffer_id);
    }
}

proof fn lemma_grouped_ids(
    known: Set<BufferId>,
    new_entries: Set<ExcerptId>,
    snapshots: Seq<ExcerptSnapshot>,
    i: int,
)
    requires
        0 <= i < grouped(known, new_entries, snapshots).len(),
    ensures
        exists|k: int|
            0 <= k < snapshots.len() && (#[trigger] snapshots[k]).buffer_id == grouped(
                known,
                new_entries,
                snapshots,
            )[i].buffer_id,
    decreases snapshots.len(),
{
    let less = snapshots.drop_last();
    let before = grouped(known, new_entries, less);
    lemma_index_bounds(before, snapshots.last().buffer_id);
    if i < before.len() {
        lemma_grouped_ids(known, new_entries, less, i);
        let k: int = choose|k: int|
            0 <= k < less.len() && (#[trigger] less[k]).buffer_id == before[i].buffer_id;
        assert(snapshots[k].buffer_id == before[i].buffer_id);
    } else {
        assert(snapshots[snapshots.len() - 1].buffer_id == grouped(
            known,
            new_entries,
            snapshots,
        )[i].buffer_id);
    }
}

/// What has been taken up is no longer awaited, nothing is new any more, and the selected
/// line, the other requests and what is hidden of buffers that are not shown stay as they were.
pub proof fn law_taken_up_is_not_awaited(
    panel: &mut OutlinePanel,
    update: FsEntriesUpdate,
    auto_fold_dirs: bool,
    snapshots: Vec<ExcerptSnapshot>,
    key: CollapsedEntry,
    buffer_id: BufferId,
)
    requires
        old(panel).pending.fs_entries == Some(update.number),
        call_ensures(
            OutlinePanel::update_fs_entries,
            (panel, &update, auto_fold_dirs, &snapshots),
            (),
        ),
        match key {
            CollapsedEntry::File(_, id) => id == buffer_id,
            CollapsedEntry::ExternalFile(id) => id == buffer_id,
            _ => false,
        },
        forall|k: int|
            0 <= k < snapshots@.len() ==> (#[trigger] snapshots@[k]).buffer_id != buffer_id,
    ensures
        final(panel).pending.fs_entries is None,
        final(panel).pending.cached_entries == old(panel).pending.cached_entries,
        !final(panel).updating_fs_entries,
        final(panel).new_entries_for_fs_update@ == Set::<ExcerptId>::empty(),
        final(panel).selected_entry == old(panel).selected_entry,
        final(panel).mode == old(panel).mode,
        final(panel).active == old(panel).active,
        final(panel).cached_entries == old(panel).cached_entries,
        final(panel).collapsed_entries@.contains(key) == old(panel).collapsed_entries@.contains(
            key,
        ),
        !auto_fold_dirs ==> forall|w: WorktreeId, p: Seq<Seq<char>>|
            (#[trigger] children_at(final(panel).fs_children_count@, w, p)).files == 0
                && children_at(final(panel).fs_children_count@, w, p).dirs == 0,
{
    let new_entries = update.new_entries@;
    let buffers = choose|buffers: Seq<BufferExcerpts>| #[trigger]
        fs_updated(
            *old(panel),
            *final(panel),
            new_entries,
            auto_fold_dirs,
            snapshots@,
            buffers,
        );
    let start = Gathered {
        collapsed: old(panel).collapsed_entries@,
        unfolded_worktrees: old(panel).unfolded_dirs.worktrees@,
        unfolded_dirs: old(panel).unfolded_dirs.dirs@,
        roots: Set::empty(),
        entries: Seq::empty(),
        files: Map::empty(),
        external: Seq::empty(),
    };
    let known = old(panel).excerpts.buffers@;
    assert forall|i: int| 0 <= i < buffers.len() implies (#[trigger] buffers[i]).buffer_id
        != buffer_id by {
        let models = buffer_models(buffers);
        assert(models[i].buffer_id == buffers[i].buffer_id);
        lemma_grouped_ids(known, new_entries, snapshots@, i);
    }
    lemma_untouched(start, auto_fold_dirs, buffers, key, buffer_id);
}

} // verus!
