//! Laws of the files and directories that are gathered from the excerpts of the editor.

use vstd::prelude::*;
use crate::collections::VecSet;
use crate::outline_panel::entries::{
    CollapsedEntry, EntryKey, Excerpt, ExcerptId, FsChildren, FsEntry, GitEntry, ProjectEntryId,
    WorktreeId,
};
use crate::outline_panel::fs_gather::{
    buffer_index, buffer_models, climbed, count_children, counted, entry_index, external_slot, slot,
    upsert, upserted, without_entry, BufferExcerpts, BufferModel, ExcerptSnapshot, Gathered,
    Gathering, WorktreeEntry, WorktreeFile,
};
use crate::outline_panel::fs_update::{
    back_to_common_visited_parent, common_visited, Visit, VisitedDir,
};
use crate::outline_panel::panel::{
    children_at, children_of, ChildCount, ExcerptKey, Excerpts, OutlinePanel,
};
use crate::path::RelPath;

verus! {

proof fn lemma_buffer_index(groups: Seq<BufferModel>, i: int)
    requires
        0 <= i < groups.len(),
        forall|j: int| 0 <= j < i ==> (#[trigger] groups[j]).buffer_id != groups[i].buffer_id,
    ensures
        buffer_index(groups, groups[i].buffer_id) == i,
    decreases i,
{
    if i > 0 {
        let rest = groups.drop_first();
        assert(groups[0].buffer_id != groups[i].buffer_id);
        assert forall|j: int| 0 <= j < i - 1 implies (#[trigger] rest[j]).buffer_id != rest[i
            - 1].buffer_id by {
            assert(rest[j] == groups[j + 1]);
        }
        lemma_buffer_index(rest, i - 1);
    }
}

proof fn lemma_no_buffer(groups: Seq<BufferModel>, id: u64)
    requires
        forall|j: int| 0 <= j < groups.len() ==> (#[trigger] groups[j]).buffer_id != id,
    ensures
        buffer_index(groups, id) == groups.len(),
    decreases groups.len(),
{
    if groups.len() > 0 {
        let rest = groups.drop_first();
        assert(groups[0].buffer_id != id);
        assert forall|j: int| 0 <= j < rest.len() implies (#[trigger] rest[j]).buffer_id
            != id by {
            assert(rest[j] == groups[j + 1]);
        }
        lemma_no_buffer(rest, id);
    }
}

/// Excerpts are grouped by their buffers, which come in the order of their first excerpts: one
/// more excerpt is added behind those of its buffer, or starts a buffer of its own, which is
/// new where the excerpt is or where the panel did not show it.
pub proof fn law_excerpts_are_grouped(
    panel: OutlinePanel,
    new_entries: VecSet<ExcerptId>,
    snapshots: Vec<ExcerptSnapshot>,
    more: Vec<ExcerptSnapshot>,
    last: ExcerptSnapshot,
    before: Vec<BufferExcerpts>,
    r: Vec<BufferExcerpts>,
    i: int,
)
    requires
        more@ == snapshots@.push(last),
        call_ensures(OutlinePanel::group_excerpts, (&panel, &new_entries, &snapshots), before),
        call_ensures(OutlinePanel::group_excerpts, (&panel, &new_entries, &more), r),
    ensures
        snapshots@.len() == 0 ==> before@.len() == 0,
        0 <= i < before@.len() && before@[i].buffer_id == last.buffer_id && (forall|j: int|
            0 <= j < i ==> (#[trigger] before@[j]).buffer_id != last.buffer_id) ==> r@.len()
            == before@.len() && r@[i].excerpts@ == before@[i].excerpts@.push(last.excerpt_id)
            && r@[i].is_new == before@[i].is_new && r@[i].is_folded == before@[i].is_folded
            && r@[i].file == before@[i].file && forall|j: int|
            0 <= j < r@.len() && j != i ==> (#[trigger] r@[j]).excerpts@ == before@[j].excerpts@
                && r@[j].buffer_id == before@[j].buffer_id,
        (forall|j: int|
            0 <= j < before@.len() ==> (#[trigger] before@[j]).buffer_id != last.buffer_id)
            ==> r@.len() == before@.len() + 1 && r@.last().buffer_id == last.buffer_id
            && r@.last().excerpts@ == seq![last.excerpt_id] && r@.last().is_folded
            == last.is_folded && r@.last().file == last.file && (r@.last().is_new
            <==> new_entries@.contains(last.excerpt_id) || !panel.excerpts.buffers@.contains(
            last.buffer_id,
        )),
{
    assert(more@.drop_last() =~= snapshots@);
    assert(more@.last() == last);
    let groups = buffer_models(before@);
    let after = buffer_models(r@);
    assert(after.len() == r@.len() && groups.len() == before@.len());
    if 0 <= i < before@.len() && before@[i].buffer_id == last.buffer_id && (forall|j: int|
        0 <= j < i ==> (#[trigger] before@[j]).buffer_id != last.buffer_id) {
        assert forall|j: int| 0 <= j < i implies (#[trigger] groups[j]).buffer_id
            != groups[i].buffer_id by {
            assert(before@[j].buffer_id != last.buffer_id);
        }
        lemma_buffer_index(groups, i);
        assert(after[i].excerpts == groups[i].excerpts.push(last.excerpt_id));
        assert forall|j: int| 0 <= j < r@.len() && j != i implies (#[trigger] r@[j]).excerpts@
            == before@[j].excerpts@ && r@[j].buffer_id == before@[j].buffer_id by {
            assert(after[j] == groups[j]);
        }
    }
    if forall|j: int|
        0 <= j < before@.len() ==> (#[trigger] before@[j]).buffer_id != last.buffer_id {
        assert forall|j: int| 0 <= j < groups.len() implies (#[trigger] groups[j]).buffer_id
            != last.buffer_id by {
            assert(before@[j].buffer_id != last.buffer_id);
        }
        lemma_no_buffer(groups, last.buffer_id);
        assert(after.last().buffer_id == last.buffer_id);
    }
}

/// The excerpts that the panel knows are those that the editor shows. One that was known keeps
/// its symbols unless they are out of date, and takes the range that it has now.
pub proof fn law_known_symbols_are_kept(
    panel: OutlinePanel,
    snapshots: Vec<ExcerptSnapshot>,
    more: Vec<ExcerptSnapshot>,
    last: ExcerptSnapshot,
    before: Excerpts,
    r: Excerpts,
)
    requires
        more@ == snapshots@.push(last),
        call_ensures(OutlinePanel::refreshed_excerpts, (&panel, &snapshots), before),
        call_ensures(OutlinePanel::refreshed_excerpts, (&panel, &more), r),
    ensures
        snapshots@.len() == 0 ==> before.items@ == Map::<ExcerptKey, Excerpt>::empty(),
        ({
            let key = ExcerptKey { buffer_id: last.buffer_id, excerpt_id: last.excerpt_id };
            let known = panel.excerpts.items@;
            &&& r.items@.contains_key(key) && r.items@[key].range == last.range
            &&& known.contains_key(key) && known[key].outlines is Outlines
                ==> r.items@[key].outlines == known[key].outlines
            &&& !(known.contains_key(key) && known[key].outlines is Outlines)
                ==> r.items@[key].outlines is NotFetched
            &&& forall|other: ExcerptKey|
                other != key ==> (#[trigger] r.items@.contains_key(other)
                    <==> before.items@.contains_key(other))
            &&& forall|other: ExcerptKey|
                other != key && #[trigger] r.items@.contains_key(other) ==> r.items@[other]
                    == before.items@[other]
            &&& r.buffers@ == before.buffers@.insert(last.buffer_id)
        }),
{
    assert(more@.drop_last() =~= snapshots@);
    assert(more@.last() == last);
}

proof fn lemma_entry_index(entries: Seq<WorktreeEntry>, worktree_id: WorktreeId, id: ProjectEntryId)
    ensures
        ({
            let i: int = entry_index(entries, worktree_id, id);
            &&& 0 <= i <= entries.len()
            &&& i < entries.len() ==> entries[i].worktree_id == worktree_id && entries[i].entry.id
                == id
            &&& forall|j: int|
                0 <= j < i ==> !((#[trigger] entries[j]).worktree_id == worktree_id
                    && entries[j].entry.id == id)
        }),
    decreases entries.len(),
{
    if entries.len() > 0 && !(entries.first().worktree_id == worktree_id
        && entries.first().entry.id == id) {
        let rest = entries.drop_first();
        lemma_entry_index(rest, worktree_id, id);
        let i: int = entry_index(entries, worktree_id, id);
        assert forall|j: int| 0 <= j < i implies !((#[trigger] entries[j]).worktree_id
            == worktree_id && entries[j].entry.id == id) by {
            if j > 0 {
                assert(rest[j - 1] == entries[j]);
            }
        }
        if i < entries.len() {
            assert(rest[i - 1] == entries[i]);
        }
    }
}

proof fn lemma_slot(entries: Seq<WorktreeEntry>, new: WorktreeEntry)
    ensures
        0 <= slot(entries, new) <= entries.len(),
    decreases entries.len(),
{
    if entries.len() > 0 {
        lemma_slot(entries.drop_first(), new);
    }
}

proof fn lemma_upserted(entries: Seq<WorktreeEntry>, new: WorktreeEntry)
    ensures
        upserted(entries, new).contains(new),
        forall|other: WorktreeEntry|
            entries.contains(other) && !(other.worktree_id == new.worktree_id && other.entry.id
                == new.entry.id) ==> #[trigger] upserted(entries, new).contains(other),
        forall|other: WorktreeEntry| #[trigger]
            upserted(entries, new).contains(other) ==> other == new || entries.contains(other),
{
    let i: int = entry_index(entries, new.worktree_id, new.entry.id);
    lemma_entry_index(entries, new.worktree_id, new.entry.id);
    let rest = without_entry(entries, new.worktree_id, new.entry.id);
    let at: int = slot(rest, new);
    lemma_slot(rest, new);
    let all = rest.insert(at, new);
    assert(all[at] == new);
    assert forall|other: WorktreeEntry|
        entries.contains(other) && !(other.worktree_id == new.worktree_id && other.entry.id
            == new.entry.id) implies #[trigger] all.contains(other) by {
        let k: int = choose|k: int| 0 <= k < entries.len() && entries[k] == other;
        let m: int = if i < entries.len() && k > i {
            k - 1
        } else {
            k
        };
        assert(k != i);
        assert(rest[m] == other);
        if m < at {
            assert(all[m] == other);
        } else {
            assert(all[m + 1] == other);
        }
    }
    assert forall|other: WorktreeEntry| #[trigger] all.contains(other) implies other == new
        || entries.contains(other) by {
        let k: int = choose|k: int| 0 <= k < all.len() && all[k] == other;
        if k != at {
            let m: int = if k < at {
                k
            } else {
                k - 1
            };
            assert(rest[m] == other);
            let e: int = if i < entries.len() && m >= i {
                m + 1
            } else {
                m
            };
            assert(entries[e] == other);
        }
    }
}

/// An entry that is added takes the place of the one that it stands for, and all others stay.
pub proof fn law_entries_are_replaced_by_newer_ones(
    entries: &mut Vec<WorktreeEntry>,
    new: WorktreeEntry,
    other: WorktreeEntry,
)
    requires
        call_ensures(upsert, (entries, new), ()),
    ensures
        final(entries)@.contains(new),
        old(entries)@.contains(other) && !(other.worktree_id == new.worktree_id && other.entry.id
            == new.entry.id) ==> final(entries)@.contains(other),
        final(entries)@.contains(other) ==> other == new || old(entries)@.contains(other),
{
    lemma_upserted(old(entries)@, new);
}

proof fn lemma_climbed(
    gathered: Gathered,
    auto_fold_dirs: bool,
    file: WorktreeFile,
    is_new: bool,
    chain: Seq<GitEntry>,
    seen: Set<ProjectEntryId>,
)
    requires
        forall|i: int, j: int|
            0 <= i < j < chain.len() ==> (#[trigger] chain[i]).id != (#[trigger] chain[j]).id,
        forall|i: int| 0 <= i < chain.len() ==> !seen.contains((#[trigger] chain[i]).id),
    ensures
        ({
            let after = climbed(gathered, auto_fold_dirs, file, is_new, chain, seen);
            &&& after.files == gathered.files && after.external == gathered.external
                && after.unfolded_worktrees == gathered.unfolded_worktrees
            &&& forall|k: int|
                0 <= k < chain.len() ==> after.entries.contains(
                    WorktreeEntry { worktree_id: file.worktree_id, entry: #[trigger] chain[k] },
                )
            &&& forall|other: WorktreeEntry|
                gathered.entries.contains(other) && (other.worktree_id != file.worktree_id || (
                forall|k: int| 0 <= k < chain.len() ==> (#[trigger] chain[k]).id
                    != other.entry.id)) ==> #[trigger] after.entries.contains(other)
            &&& forall|key: CollapsedEntry| #[trigger]
                after.collapsed.contains(key) <==> gathered.collapsed.contains(key) && !(is_new
                    && exists|k: int|
                    0 <= k < chain.len() && (#[trigger] chain[k]).is_dir && key
                        == CollapsedEntry::Dir(file.worktree_id, chain[k].id))
            &&& forall|id: ProjectEntryId| #[trigger]
                after.roots.contains(id) <==> gathered.roots.contains(id) || exists|k: int|
                    0 <= k < chain.len() && (#[trigger] chain[k]).is_dir && chain[k].id == id
                        && file.root_entry_id == Some(id)
        }),
    decreases chain.len(),
{
    if chain.len() > 0 {
        let entry = chain.first();
        let rest = chain.drop_first();
        let listed = WorktreeEntry { worktree_id: file.worktree_id, entry };
        lemma_upserted(gathered.entries, listed);
        let key = EntryKey { worktree_id: file.worktree_id, entry_id: entry.id };
        let is_root = entry.is_dir && file.root_entry_id == Some(entry.id);
        let next = Gathered {
            roots: if is_root {
                gathered.roots.insert(entry.id)
            } else {
                gathered.roots
            },
            unfolded_dirs: if is_root && auto_fold_dirs {
                gathered.unfolded_dirs.insert(key)
            } else {
                gathered.unfolded_dirs
            },
            collapsed: if entry.is_dir && is_new {
                gathered.collapsed.remove(CollapsedEntry::Dir(file.worktree_id, entry.id))
            } else {
                gathered.collapsed
            },
            entries: upserted(gathered.entries, listed),
            ..gathered
        };
        assert(chain[0] == entry);
        assert forall|i: int, j: int| 0 <= i < j < rest.len() implies (#[trigger] rest[i]).id != (
        #[trigger] rest[j]).id by {
            assert(rest[i] == chain[i + 1] && rest[j] == chain[j + 1]);
        }
        assert forall|i: int| 0 <= i < rest.len() implies !seen.insert(entry.id).contains(
            (#[trigger] rest[i]).id,
        ) by {
            assert(rest[i] == chain[i + 1]);
            assert(chain[0].id != chain[i + 1].id);
        }
        lemma_climbed(next, auto_fold_dirs, file, is_new, rest, seen.insert(entry.id));
        let after = climbed(gathered, auto_fold_dirs, file, is_new, chain, seen);
        assert(after == climbed(
            next,
            auto_fold_dirs,
            file,
            is_new,
            rest,
            seen.insert(entry.id),
        ));
        assert forall|k: int| 0 <= k < chain.len() implies after.entries.contains(
            WorktreeEntry { worktree_id: file.worktree_id, entry: #[trigger] chain[k] },
        ) by {
            if k == 0 {
                assert forall|m: int| 0 <= m < rest.len() implies (#[trigger] rest[m]).id
                    != entry.id by {
                    assert(rest[m] == chain[m + 1]);
                    assert(chain[0].id != chain[m + 1].id);
                }
                assert(next.entries.contains(listed));
            } else {
                assert(rest[k - 1] == chain[k]);
            }
        }
        assert forall|other: WorktreeEntry|
            gathered.entries.contains(other) && (other.worktree_id != file.worktree_id || (
            forall|k: int| 0 <= k < chain.len() ==> (#[trigger] chain[k]).id
                != other.entry.id)) implies #[trigger] after.entries.contains(other) by {
            if other.worktree_id == file.worktree_id {
                assert(chain[0].id != other.entry.id);
                assert forall|m: int| 0 <= m < rest.len() implies (#[trigger] rest[m]).id
                    != other.entry.id by {
                    assert(rest[m] == chain[m + 1]);
                }
            }
            assert(next.entries.contains(other));
        }
        assert forall|key: CollapsedEntry| #[trigger]
            after.collapsed.contains(key) <==> gathered.collapsed.contains(key) && !(is_new
                && exists|k: int|
                0 <= k < chain.len() && (#[trigger] chain[k]).is_dir && key == CollapsedEntry::Dir(
                    file.worktree_id,
                    chain[k].id,
                )) by {
            if exists|k: int|
                0 <= k < chain.len() && (#[trigger] chain[k]).is_dir && key == CollapsedEntry::Dir(
                    file.worktree_id,
                    chain[k].id,
                ) {
                let k: int = choose|k: int|
                    0 <= k < chain.len() && (#[trigger] chain[k]).is_dir && key
                        == CollapsedEntry::Dir(file.worktree_id, chain[k].id);
                if k > 0 {
                    assert(rest[k - 1] == chain[k]);
                }
            }
            if exists|k: int|
                0 <= k < rest.len() && (#[trigger] rest[k]).is_dir && key == CollapsedEntry::Dir(
                    file.worktree_id,
                    rest[k].id,
                ) {
                let k: int = choose|k: int|
                    0 <= k < rest.len() && (#[trigger] rest[k]).is_dir && key
                        == CollapsedEntry::Dir(file.worktree_id, rest[k].id);
                assert(chain[k + 1] == rest[k]);
            }
        }
        assert forall|id: ProjectEntryId| #[trigger]
            after.roots.contains(id) <==> gathered.roots.contains(id) || exists|k: int|
                0 <= k < chain.len() && (#[trigger] chain[k]).is_dir && chain[k].id == id
                    && file.root_entry_id == Some(id) by {
            if exists|k: int|
                0 <= k < chain.len() && (#[trigger] chain[k]).is_dir && chain[k].id == id
                    && file.root_entry_id == Some(id) {
                let k: int = choose|k: int|
                    0 <= k < chain.len() && (#[trigger] chain[k]).is_dir && chain[k].id == id
                        && file.root_entry_id == Some(id);
                if k > 0 {
                    assert(rest[k - 1] == chain[k]);
                }
            }
            if exists|k: int|
                0 <= k < rest.len() && (#[trigger] rest[k]).is_dir && rest[k].id == id
                    && file.root_entry_id == Some(id) {
                let k: int = choose|k: int|
                    0 <= k < rest.len() && (#[trigger] rest[k]).is_dir && rest[k].id == id
                        && file.root_entry_id == Some(id);
                assert(chain[k + 1] == rest[k]);
            }
        }
    }
}

/// A buffer adds its file and all directories around it. It is hidden where the editor folds
/// it, and shown where it is new and not folded. Directories are shown for a new file.
pub proof fn law_file_brings_its_directories(
    gathering: &mut Gathering,
    auto_fold_dirs: bool,
    buffer: BufferExcerpts,
    file: WorktreeFile,
    k: int,
    other: CollapsedEntry,
)
    requires
        buffer.file == Some(file),
        file.chain@.len() > 0,
        forall|i: int, j: int|
            0 <= i < j < file.chain@.len() ==> (#[trigger] file.chain@[i]).id != (
            #[trigger] file.chain@[j]).id,
        call_ensures(Gathering::add_buffer, (gathering, auto_fold_dirs, &buffer), ()),
    ensures
        0 <= k < file.chain@.len() ==> final(gathering)@.entries.contains(
            WorktreeEntry { worktree_id: file.worktree_id, entry: file.chain@[k] },
        ),
        final(gathering)@.files.contains_key(
            EntryKey { worktree_id: file.worktree_id, entry_id: file.chain@[0].id },
        ),
        final(gathering)@.files[EntryKey {
            worktree_id: file.worktree_id,
            entry_id: file.chain@[0].id,
        }].buffer_id == buffer.buffer_id,
        final(gathering)@.files[EntryKey {
            worktree_id: file.worktree_id,
            entry_id: file.chain@[0].id,
        }].excerpts == buffer.excerpts,
        final(gathering)@.external == old(gathering)@.external,
        ({
            let own = CollapsedEntry::File(file.worktree_id, buffer.buffer_id);
            let before = old(gathering)@.collapsed;
            let after = final(gathering)@.collapsed;
            &&& after.contains(own) == (buffer.is_folded || !buffer.is_new && before.contains(own))
            &&& 0 <= k < file.chain@.len() && file.chain@[k].is_dir && buffer.is_new
                ==> !after.contains(CollapsedEntry::Dir(file.worktree_id, file.chain@[k].id))
            &&& other != own && (!buffer.is_new || forall|i: int|
                0 <= i < file.chain@.len() && (#[trigger] file.chain@[i]).is_dir ==> other
                    != CollapsedEntry::Dir(file.worktree_id, file.chain@[i].id))
                ==> after.contains(other) == before.contains(other)
        }),
        0 <= k < file.chain@.len() && file.chain@[k].is_dir && file.root_entry_id == Some(
            file.chain@[k].id,
        ) ==> final(gathering)@.roots.contains(file.chain@[k].id),
{
    let before = old(gathering)@;
    let own = CollapsedEntry::File(file.worktree_id, buffer.buffer_id);
    let start = Gathered {
        collapsed: if buffer.is_folded {
            before.collapsed.insert(own)
        } else if buffer.is_new {
            before.collapsed.remove(own)
        } else {
            before.collapsed
        },
        unfolded_worktrees: before.unfolded_worktrees.insert(file.worktree_id),
        files: final(gathering)@.files,
        ..before
    };
    let entered = Gathered {
        files: before.files.insert(
            EntryKey { worktree_id: file.worktree_id, entry_id: file.chain@[0].id },
            crate::outline_panel::fs_gather::FileExcerpts {
                buffer_id: buffer.buffer_id,
                excerpts: buffer.excerpts,
            },
        ),
        ..start
    };
    lemma_climbed(
        entered,
        auto_fold_dirs,
        file,
        buffer.is_new,
        file.chain@,
        Set::<ProjectEntryId>::empty(),
    );
    assert(final(gathering)@ == climbed(
        entered,
        auto_fold_dirs,
        file,
        buffer.is_new,
        file.chain@,
        Set::<ProjectEntryId>::empty(),
    ));
    if 0 <= k < file.chain@.len() {
        assert(final(gathering)@.entries.contains(
            WorktreeEntry { worktree_id: file.worktree_id, entry: file.chain@[k] },
        ));
    }
}

/// A buffer without a file in a worktree is listed among the external ones, in the order of
/// their buffers.
pub proof fn law_external_buffer_is_listed(
    gathering: &mut Gathering,
    auto_fold_dirs: bool,
    buffer: BufferExcerpts,
    i: int,
)
    requires
        buffer.file is None,
        call_ensures(Gathering::add_buffer, (gathering, auto_fold_dirs, &buffer), ()),
        0 <= i <= old(gathering)@.external.len(),
        forall|k: int|
            0 <= k < i ==> (#[trigger] old(gathering)@.external[k]).buffer_id < buffer.buffer_id,
        i < old(gathering)@.external.len() ==> old(gathering)@.external[i].buffer_id
            > buffer.buffer_id,
    ensures
        final(gathering)@.external.len() == old(gathering)@.external.len() + 1,
        final(gathering)@.external[i].buffer_id == buffer.buffer_id,
        final(gathering)@.external[i].excerpts == buffer.excerpts,
        final(gathering)@.external.remove(i) == old(gathering)@.external,
        final(gathering)@.entries == old(gathering)@.entries,
        final(gathering)@.collapsed.contains(CollapsedEntry::ExternalFile(buffer.buffer_id)) == (
        buffer.is_folded || !buffer.is_new && old(gathering)@.collapsed.contains(
            CollapsedEntry::ExternalFile(buffer.buffer_id),
        )),
{
    let external = old(gathering)@.external;
    lemma_external_slot(external, buffer.buffer_id, i);
    assert(final(gathering)@.external.remove(i) =~= external);
}

proof fn lemma_external_slot(
    external: Seq<crate::outline_panel::entries::FsEntryExternalFile>,
    id: u64,
    i: int,
)
    requires
        0 <= i <= external.len(),
        forall|k: int| 0 <= k < i ==> (#[trigger] external[k]).buffer_id < id,
        i < external.len() ==> external[i].buffer_id > id,
    ensures
        external_slot(external, id) == i,
    decreases external.len(),
{
    if external.len() > 0 && i > 0 {
        let rest = external.drop_first();
        assert(external[0].buffer_id < id);
        assert forall|k: int| 0 <= k < i - 1 implies (#[trigger] rest[k]).buffer_id < id by {
            assert(rest[k] == external[k + 1]);
        }
        lemma_external_slot(rest, id, i - 1);
    }
}

/// The children of a directory are counted one by one, files and directories apart.
pub proof fn law_children_are_counted(
    entries: Vec<WorktreeEntry>,
    more: Vec<WorktreeEntry>,
    last: WorktreeEntry,
    before: Vec<ChildCount>,
    after: Vec<ChildCount>,
    worktree_id: WorktreeId,
    path: RelPath,
    few: FsChildren,
    r: FsChildren,
)
    requires
        more@ == entries@.push(last),
        call_ensures(count_children, (&entries,), before),
        call_ensures(count_children, (&more,), after),
        call_ensures(children_of, (&before, worktree_id, &path), few),
        call_ensures(children_of, (&after, worktree_id, &path), r),
        few.files < usize::MAX && few.dirs < usize::MAX,
    ensures
        entries@.len() == 0 ==> few.files == 0 && few.dirs == 0,
        ({
            let is_child = last.worktree_id == worktree_id && last.entry.path@.len() > 0
                && last.entry.path@.drop_last() == path@;
            &&& is_child && last.entry.is_dir ==> r.dirs == few.dirs + 1 && r.files == few.files
            &&& is_child && !last.entry.is_dir ==> r.files == few.files + 1 && r.dirs == few.dirs
            &&& !is_child ==> r == few
        }),
{
    assert(more@.drop_last() =~= entries@);
    assert(more@.last() == last);
    assert(children_at(before@, worktree_id, path@) == counted(entries@, worktree_id, path@));
    assert(children_at(after@, worktree_id, path@) == counted(more@, worktree_id, path@));
}

proof fn lemma_common_visited(visited: Seq<VisitedDir>, path: Seq<Seq<char>>)
    requires
        path.len() > 0,
    ensures
        ({
            let left = common_visited(visited, path);
            &&& left.is_prefix_of(visited)
            &&& left.len() > 0 ==> left.last().path@ == path.drop_last()
            &&& forall|k: int|
                left.len() <= k < visited.len() ==> (#[trigger] visited[k]).path@
                    != path.drop_last()
        }),
    decreases visited.len(),
{
    if visited.len() > 0 && visited.last().path@ != path.drop_last() {
        let init = visited.drop_last();
        lemma_common_visited(init, path);
        let left = common_visited(visited, path);
        assert(left == common_visited(init, path));
        assert(left =~= visited.subrange(0, left.len() as int)) by {
            assert(left == init.subrange(0, left.len() as int));
        }
        assert forall|k: int| left.len() <= k < visited.len() implies (
        #[trigger] visited[k]).path@ != path.drop_last() by {
            if k < init.len() {
                assert(init[k] == visited[k]);
            }
        }
    } else {
        assert(common_visited(visited, path) == visited);
        assert(visited =~= visited.subrange(0, visited.len() as int));
    }
}

/// On the way through the directories it is gone back to the one that holds the next entry:
/// the last one of its parent's path. Where there is none, it is gone back all the way.
pub proof fn law_back_to_the_parent(
    visited: &mut Vec<VisitedDir>,
    worktree_id: WorktreeId,
    entry: GitEntry,
    r: Option<EntryKey>,
)
    requires
        entry.path@.len() > 0,
        call_ensures(back_to_common_visited_parent, (visited, worktree_id, &entry), r),
    ensures
        final(visited)@.is_prefix_of(old(visited)@),
        r is Some == (final(visited)@.len() > 0),
        r matches Some(key) ==> key.worktree_id == worktree_id && key.entry_id
            == final(visited)@.last().id && final(visited)@.last().path@
            == entry.path@.drop_last(),
        forall|k: int|
            final(visited)@.len() <= k < old(visited)@.len() ==> (
            #[trigger] old(visited)@[k]).path@ != entry.path@.drop_last(),
{
    lemma_common_visited(old(visited)@, entry.path@);
}

/// An entry is one deeper than the directory that holds it, and the root of a worktree is not
/// deep at all.
pub proof fn law_entries_are_as_deep_as_their_directories(
    visit: &mut Visit,
    roots: VecSet<ProjectEntryId>,
    auto_fold_dirs: bool,
    counts: Vec<ChildCount>,
    file: crate::outline_panel::entries::FsEntryFile,
)
    requires
        old(visit)@.dirs.len() > 0,
        file.entry.path@.len() > 0,
        old(visit)@.dirs.last().path@ == file.entry.path@.drop_last(),
        call_ensures(
            Visit::enter,
            (visit, &roots, auto_fold_dirs, &counts, &FsEntry::File(file)),
            (),
        ),
    ensures
        ({
            let key = EntryKey { worktree_id: file.worktree_id, entry_id: file.entry.id };
            let above = EntryKey {
                worktree_id: file.worktree_id,
                entry_id: old(visit)@.dirs.last().id,
            };
            &&& final(visit)@.depths.contains_key(key)
            &&& roots@.contains(file.entry.id) ==> final(visit)@.depths[key] == 0
            &&& !roots@.contains(file.entry.id) && old(visit)@.depths.contains_key(above)
                && old(visit)@.depths[above] < usize::MAX ==> final(visit)@.depths[key]
                == old(visit)@.depths[above] + 1
            &&& final(visit)@.dirs == old(visit)@.dirs
        }),
{
}

} // verus!
