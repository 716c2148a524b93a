//! Laws of the selected line and of lines that show and hide what is in them.

use vstd::prelude::*;
use crate::collections::VecSet;
use crate::outline_panel::entries::{
    law_same_panel_entry, same_panel_entry, BufferId, CachedEntry, CollapsedEntry, EntryKey, Excerpt,
    ExcerptOutlines, FsChildren, FsEntry, GitEntry, OutlineEntry, PanelEntry, SelectedEntry,
    WorktreeId,
};
use crate::outline_panel::panel::{OutlinePanel, PanelEnv};
use crate::outline_panel::selection::{
    first_line, last_line, nearest_parent, parent_line,
};
use crate::outline_panel::toggling::{
    directory_buffers, in_directory, is_directory, leading_buffers, FoldOutcome,
};

verus! {

/// Whether no line stands for the same as another one.
pub open spec fn lines_differ(lines: Seq<CachedEntry>) -> bool {
    forall|a: int, b: int|
        0 <= a < b < lines.len() ==> !same_panel_entry(
            (#[trigger] lines[a]).entry,
            (#[trigger] lines[b]).entry,
        )
}

proof fn lemma_first_line(lines: Seq<CachedEntry>, k: int)
    requires
        lines_differ(lines),
        0 <= k < lines.len(),
    ensures
        first_line(lines, lines[k].entry) == Some(k),
        last_line(lines, lines[k].entry) == Some(k),
    decreases lines.len(),
{
    let init = lines.drop_last();
    let entry = lines[k].entry;
    assert(lines_differ(init)) by {
        assert forall|a: int, b: int| 0 <= a < b < init.len() implies !same_panel_entry(
            (#[trigger] init[a]).entry,
            (#[trigger] init[b]).entry,
        ) by {
            assert(init[a] == lines[a] && init[b] == lines[b]);
        }
    }
    if k < init.len() {
        assert(init[k] == lines[k]);
        lemma_first_line(init, k);
        let n: int = lines.len() - 1;
        assert(!same_panel_entry(lines[k].entry, lines[n].entry));
        law_same_panel_entry(lines[n].entry, lines[k].entry);
    } else {
        law_same_panel_entry(entry, entry);
        lemma_no_line(init, entry);
    }
}

proof fn lemma_no_line(lines: Seq<CachedEntry>, entry: PanelEntry)
    requires
        forall|a: int|
            0 <= a < lines.len() ==> !same_panel_entry((#[trigger] lines[a]).entry, entry),
    ensures
        first_line(lines, entry) is None,
        last_line(lines, entry) is None,
    decreases lines.len(),
{
    if lines.len() > 0 {
        assert(!same_panel_entry(lines[lines.len() - 1].entry, entry));
        let init = lines.drop_last();
        assert forall|a: int| 0 <= a < init.len() implies !same_panel_entry(
            (#[trigger] init[a]).entry,
            entry,
        ) by {
            assert(init[a] == lines[a]);
        }
        lemma_no_line(init, entry);
    }
}

/// Whether the selection is on a line.
pub open spec fn is_selected(panel: OutlinePanel, k: int) -> bool {
    0 <= k < panel.cached_entries@.len() && panel.selected_entry == SelectedEntry::Valid(
        panel.cached_entries@[k].entry,
        k as usize,
    )
}

/// The selection moves line by line. From the last line it goes on to the first one, and back
/// from the first to the last.
pub proof fn law_selection_goes_round(
    next: &mut OutlinePanel,
    previous: &mut OutlinePanel,
    first: &mut OutlinePanel,
    last: &mut OutlinePanel,
    i: int,
)
    requires
        lines_differ(old(next).cached_entries@),
        0 <= i < old(next).cached_entries@.len(),
        old(next).selected_entry.entry() == Some(old(next).cached_entries@[i].entry),
        *old(previous) == *old(next) && *old(first) == *old(next) && *old(last) == *old(next),
        call_ensures(OutlinePanel::select_next, (next,), ()),
        call_ensures(OutlinePanel::select_previous, (previous,), ()),
        call_ensures(OutlinePanel::select_first, (first,), ()),
        call_ensures(OutlinePanel::select_last, (last,), ()),
    ensures
        final(next).cached_entries == old(next).cached_entries,
        final(previous).cached_entries == old(next).cached_entries,
        is_selected(
            *final(next),
            if i + 1 < old(next).cached_entries@.len() {
                i + 1
            } else {
                0
            },
        ),
        is_selected(
            *final(previous),
            if i > 0 {
                i - 1
            } else {
                old(next).cached_entries@.len() - 1
            },
        ),
        is_selected(*final(first), 0),
        is_selected(*final(last), old(next).cached_entries@.len() - 1),
{
    let lines = old(next).cached_entries@;
    lemma_first_line(lines, i);
    lemma_first_line(lines, 0);
    lemma_first_line(lines, lines.len() - 1);
    if i + 1 < lines.len() {
        lemma_first_line(lines, i + 1);
    }
    if i > 0 {
        lemma_first_line(lines, i - 1);
    }
}

/// A line that is selected is selected where it stands.
pub proof fn law_line_is_selected_where_it_stands(
    panel: &mut OutlinePanel,
    entry: PanelEntry,
    k: int,
    scroll: Option<usize>,
)
    requires
        lines_differ(old(panel).cached_entries@),
        0 <= k < old(panel).cached_entries@.len(),
        entry == old(panel).cached_entries@[k].entry,
        call_ensures(OutlinePanel::select_entry, (panel, entry), ()),
        call_ensures(OutlinePanel::autoscroll, (&*final(panel),), scroll),
    ensures
        is_selected(*final(panel), k),
        final(panel).cached_entries == old(panel).cached_entries,
        scroll is Some && scroll->0 == k,
{
    lemma_first_line(old(panel).cached_entries@, k);
}

/// Whether a line is that of what a line is in: the directory of a file, the excerpt of a
/// symbol, or what a search was made in.
pub open spec fn is_around(line: PanelEntry, inner: PanelEntry) -> bool {
    match inner {
        PanelEntry::Fs(FsEntry::File(file)) => match line {
            PanelEntry::Fs(FsEntry::Directory(dir)) => dir.worktree_id == file.worktree_id
                && file.entry.path@.len() > 0 && dir.entry.path@
                == file.entry.path@.drop_last(),
            PanelEntry::FoldedDirs(dirs) => dirs.worktree_id == file.worktree_id
                && dirs.entries@.len() > 0 && file.entry.path@.len() > 0
                && dirs.entries@.last().path@ == file.entry.path@.drop_last(),
            _ => false,
        },
        PanelEntry::Fs(FsEntry::Directory(inside)) => match line {
            PanelEntry::Fs(FsEntry::Directory(dir)) => dir.worktree_id == inside.worktree_id
                && inside.entry.path@.len() > 0 && dir.entry.path@
                == inside.entry.path@.drop_last(),
            PanelEntry::FoldedDirs(dirs) => dirs.worktree_id == inside.worktree_id
                && dirs.entries@.len() > 0 && inside.entry.path@.len() > 0
                && dirs.entries@.last().path@ == inside.entry.path@.drop_last(),
            _ => false,
        },
        PanelEntry::Fs(FsEntry::ExternalFile(_)) => false,
        PanelEntry::FoldedDirs(inside) => match line {
            PanelEntry::Fs(FsEntry::Directory(dir)) => dir.worktree_id == inside.worktree_id
                && inside.entries@.len() > 0 && inside.entries@.first().path@.len() > 0
                && dir.entry.path@ == inside.entries@.first().path@.drop_last(),
            _ => false,
        },
        PanelEntry::Outline(OutlineEntry::Excerpt(excerpt)) => match line {
            PanelEntry::Fs(FsEntry::File(file)) => file.buffer_id == excerpt.buffer_id
                && file.excerpts@.contains(excerpt.id),
            PanelEntry::Fs(FsEntry::ExternalFile(file)) => file.buffer_id == excerpt.buffer_id
                && file.excerpts@.contains(excerpt.id),
            _ => false,
        },
        PanelEntry::Outline(OutlineEntry::Outline(symbol)) => match line {
            PanelEntry::Outline(OutlineEntry::Excerpt(excerpt)) => excerpt.buffer_id
                == symbol.buffer_id && excerpt.id == symbol.excerpt_id,
            _ => false,
        },
        PanelEntry::Search(_) => match line {
            PanelEntry::Search(_) => false,
            _ => true,
        },
    }
}

proof fn lemma_nearest_parent(lines: Seq<CachedEntry>, inner: PanelEntry, j: int)
    requires
        0 <= j < lines.len(),
        is_around(lines[j].entry, inner),
        forall|k: int| j < k < lines.len() ==> !is_around((#[trigger] lines[k]).entry, inner),
    ensures
        nearest_parent(lines, inner) == Some(lines[j].entry),
    decreases lines.len(),
{
    assert(forall|line: PanelEntry| #[trigger]
        parent_line(line, inner) == is_around(line, inner));
    if j < lines.len() - 1 {
        assert(!is_around(lines[lines.len() - 1].entry, inner));
        let init = lines.drop_last();
        assert(init[j] == lines[j]);
        assert forall|k: int| j < k < init.len() implies !is_around(
            (#[trigger] init[k]).entry,
            inner,
        ) by {
            assert(init[k] == lines[k]);
        }
        lemma_nearest_parent(init, inner, j);
    } else {
        assert(parent_line(lines.last().entry, inner));
    }
}

proof fn lemma_no_parent(lines: Seq<CachedEntry>, inner: PanelEntry)
    requires
        forall|k: int| 0 <= k < lines.len() ==> !is_around((#[trigger] lines[k]).entry, inner),
    ensures
        nearest_parent(lines, inner) is None,
    decreases lines.len(),
{
    assert(forall|line: PanelEntry| #[trigger]
        parent_line(line, inner) == is_around(line, inner));
    if lines.len() > 0 {
        assert(!is_around(lines[lines.len() - 1].entry, inner));
        let init = lines.drop_last();
        assert forall|k: int| 0 <= k < init.len() implies !is_around(
            (#[trigger] init[k]).entry,
            inner,
        ) by {
            assert(init[k] == lines[k]);
        }
        lemma_no_parent(init, inner);
    }
}

/// From a line the selection moves out to the nearest line above it that it is in, and to the
/// first line where there is none.
pub proof fn law_selection_moves_out(panel: &mut OutlinePanel, i: int, j: int)
    requires
        lines_differ(old(panel).cached_entries@),
        0 <= i < old(panel).cached_entries@.len(),
        old(panel).selected_entry.entry() == Some(old(panel).cached_entries@[i].entry),
        call_ensures(OutlinePanel::select_parent, (panel,), ()),
    ensures
        ({
            let lines = old(panel).cached_entries@;
            let inner = lines[i].entry;
            &&& 0 <= j < i && is_around(lines[j].entry, inner) && (forall|k: int|
                j < k < i ==> !is_around((#[trigger] lines[k]).entry, inner)) ==> is_selected(
                *final(panel),
                j,
            )
            &&& (forall|k: int| 0 <= k < i ==> !is_around((#[trigger] lines[k]).entry, inner))
                ==> is_selected(*final(panel), 0)
        }),
{
    let lines = old(panel).cached_entries@;
    let inner = lines[i].entry;
    let above = lines.take(i);
    lemma_first_line(lines, i);
    lemma_first_line(lines, 0);
    if 0 <= j < i && is_around(lines[j].entry, inner) && (forall|k: int|
        j < k < i ==> !is_around((#[trigger] lines[k]).entry, inner)) {
        assert(above[j] == lines[j]);
        assert forall|k: int| j < k < above.len() implies !is_around(
            (#[trigger] above[k]).entry,
            inner,
        ) by {
            assert(above[k] == lines[k]);
        }
        lemma_nearest_parent(above, inner, j);
        lemma_first_line(lines, j);
    }
    if forall|k: int| 0 <= k < i ==> !is_around((#[trigger] lines[k]).entry, inner) {
        assert forall|k: int| 0 <= k < above.len() implies !is_around(
            (#[trigger] above[k]).entry,
            inner,
        ) by {
            assert(above[k] == lines[k]);
        }
        lemma_no_parent(above, inner);
    }
}

/// Whether a line can be shown or hidden as a whole, under a key of its own.
pub open spec fn has_key(entry: PanelEntry, key: CollapsedEntry) -> bool {
    match (entry, key) {
        (
            PanelEntry::Fs(FsEntry::Directory(dir)),
            CollapsedEntry::Dir(worktree_id, id),
        ) => worktree_id == dir.worktree_id && id == dir.entry.id,
        (
            PanelEntry::Fs(FsEntry::File(file)),
            CollapsedEntry::File(worktree_id, id),
        ) => worktree_id == file.worktree_id && id == file.buffer_id,
        (PanelEntry::Fs(FsEntry::ExternalFile(file)), CollapsedEntry::ExternalFile(id)) => id
            == file.buffer_id,
        (
            PanelEntry::Outline(OutlineEntry::Excerpt(excerpt)),
            CollapsedEntry::Excerpt(buffer_id, id),
        ) => buffer_id == excerpt.buffer_id && id == excerpt.id,
        _ => false,
    }
}

/// A line that is hidden is shown when it is expanded, and one that is shown is hidden when it
/// is collapsed. Nothing else is shown or hidden. The folds of its buffers in the editor
/// follow: a directory is to be read when it is shown.
pub proof fn law_lines_are_shown_and_hidden(
    expand: &mut OutlinePanel,
    collapse: &mut OutlinePanel,
    toggle: &mut OutlinePanel,
    env: PanelEnv,
    entry: PanelEntry,
    key: CollapsedEntry,
    shown: Option<FoldOutcome>,
    hidden: Option<FoldOutcome>,
    toggled: Option<FoldOutcome>,
)
    requires
        old(expand).active_item is Some,
        old(expand).selected_entry.entry() == Some(entry),
        has_key(entry, key),
        *old(collapse) == *old(expand) && *old(toggle) == *old(expand),
        call_ensures(OutlinePanel::expand_selected_entry, (expand, &env), shown),
        call_ensures(OutlinePanel::collapse_selected_entry, (collapse, &env), hidden),
        call_ensures(OutlinePanel::toggle_expanded, (toggle, &env, &entry), toggled),
    ensures
        ({
            let before = old(expand).collapsed_entries@;
            let is_hidden = before.contains(key);
            &&& !final(expand).collapsed_entries@.contains(key)
            &&& final(collapse).collapsed_entries@.contains(key)
            &&& final(toggle).collapsed_entries@.contains(key) == !is_hidden
            &&& forall|other: CollapsedEntry|
                other != key ==> (#[trigger] final(expand).collapsed_entries@.contains(other)
                    <==> before.contains(other))
            &&& forall|other: CollapsedEntry|
                other != key ==> (#[trigger] final(collapse).collapsed_entries@.contains(other)
                    <==> before.contains(other))
            &&& forall|other: CollapsedEntry|
                other != key ==> (#[trigger] final(toggle).collapsed_entries@.contains(other)
                    <==> before.contains(other))
            &&& shown is Some == is_hidden && hidden is Some == !is_hidden && toggled is Some
            &&& shown matches Some(outcome) ==> !outcome.fold
            &&& hidden matches Some(outcome) ==> outcome.fold && outcome.dir_to_expand is None
            &&& toggled->0.fold == (!is_hidden && !(key is Excerpt))
            &&& is_hidden ==> match key {
                CollapsedEntry::Dir(worktree_id, entry_id) => shown->0.dir_to_expand == Some(
                    EntryKey { worktree_id, entry_id },
                ) && toggled->0.dir_to_expand == shown->0.dir_to_expand,
                _ => shown->0.dir_to_expand is None && toggled->0.dir_to_expand is None,
            }
        }),
{
}

/// Of the buffers of a file that is shown or hidden, its own is folded or unfolded, unless the
/// editor has it so.
pub proof fn law_buffer_follows_its_file(
    toggle: &mut OutlinePanel,
    env: PanelEnv,
    entry: PanelEntry,
    key: CollapsedEntry,
    buffer_id: BufferId,
    other: BufferId,
    r: Option<FoldOutcome>,
)
    requires
        old(toggle).active_item is Some,
        entry is Fs,
        has_key(entry, key),
        key matches CollapsedEntry::File(_, id) ==> id == buffer_id,
        key matches CollapsedEntry::ExternalFile(id) ==> id == buffer_id,
        key is File || key is ExternalFile,
        other != buffer_id,
        call_ensures(OutlinePanel::toggle_expanded, (toggle, &env, &entry), r),
    ensures
        r is Some,
        r->0.fold ==> r->0.buffers@.contains(buffer_id) == !env.folded_buffers@.contains(
            buffer_id,
        ),
        !r->0.fold ==> r->0.buffers@.contains(buffer_id) == env.folded_buffers@.contains(
            buffer_id,
        ),
        !r->0.buffers@.contains(other),
{
}

proof fn lemma_leading(entries: Seq<FsEntry>, worktree_id: WorktreeId, dir: GitEntry, id: BufferId)
    ensures
        leading_buffers(entries, worktree_id, dir).contains(id) <==> exists|j: int|
            0 <= j < entries.len() && (#[trigger] entries[j]) is File
                && entries[j]->File_0.buffer_id == id && forall|k: int|
                0 <= k <= j ==> in_directory(#[trigger] entries[k], worktree_id, dir),
    decreases entries.len(),
{
    if entries.len() > 0 && in_directory(entries.first(), worktree_id, dir) {
        let rest = entries.drop_first();
        lemma_leading(rest, worktree_id, dir, id);
        if leading_buffers(entries, worktree_id, dir).contains(id) {
            if leading_buffers(rest, worktree_id, dir).contains(id) {
                let j: int = choose|j: int|
                    0 <= j < rest.len() && (#[trigger] rest[j]) is File
                        && rest[j]->File_0.buffer_id == id && forall|k: int|
                        0 <= k <= j ==> in_directory(#[trigger] rest[k], worktree_id, dir);
                assert(entries[j + 1] == rest[j]);
                assert forall|k: int| 0 <= k <= j + 1 implies in_directory(
                    #[trigger] entries[k],
                    worktree_id,
                    dir,
                ) by {
                    if k > 0 {
                        assert(rest[k - 1] == entries[k]);
                    }
                }
            } else {
                assert(entries[0] is File);
            }
        }
        if exists|j: int|
            0 <= j < entries.len() && (#[trigger] entries[j]) is File
                && entries[j]->File_0.buffer_id == id && forall|k: int|
                0 <= k <= j ==> in_directory(#[trigger] entries[k], worktree_id, dir) {
            let j: int = choose|j: int|
                0 <= j < entries.len() && (#[trigger] entries[j]) is File
                    && entries[j]->File_0.buffer_id == id && forall|k: int|
                    0 <= k <= j ==> in_directory(#[trigger] entries[k], worktree_id, dir);
            if j > 0 {
                assert(rest[j - 1] == entries[j]);
                assert forall|k: int| 0 <= k <= j - 1 implies in_directory(
                    #[trigger] rest[k],
                    worktree_id,
                    dir,
                ) by {
                    assert(rest[k] == entries[k + 1]);
                }
            }
        }
    } else if entries.len() > 0 {
        assert(!in_directory(entries[0], worktree_id, dir));
    }
}

proof fn lemma_directory(
    entries: Seq<FsEntry>,
    worktree_id: WorktreeId,
    dir: GitEntry,
    at: int,
)
    requires
        dir.is_dir,
        0 <= at < entries.len(),
        is_directory(entries[at], worktree_id, dir),
        forall|k: int| 0 <= k < at ==> !is_directory(#[trigger] entries[k], worktree_id, dir),
    ensures
        directory_buffers(entries, worktree_id, dir) == leading_buffers(
            entries.skip(at + 1),
            worktree_id,
            dir,
        ),
    decreases at,
{
    if at == 0 {
        assert(entries.skip(1) =~= entries.drop_first());
    } else {
        assert(!is_directory(entries[0], worktree_id, dir));
        let rest = entries.drop_first();
        assert forall|k: int| 0 <= k < at - 1 implies !is_directory(
            #[trigger] rest[k],
            worktree_id,
            dir,
        ) by {
            assert(rest[k] == entries[k + 1]);
        }
        lemma_directory(rest, worktree_id, dir, at - 1);
        assert(rest.skip(at) =~= entries.skip(at + 1));
    }
}

/// Whether an entry lies in a directory of a worktree, at any depth.
pub open spec fn lies_in(entry: FsEntry, worktree_id: WorktreeId, dir: Seq<Seq<char>>) -> bool {
    match entry {
        FsEntry::File(file) => file.worktree_id == worktree_id && dir.is_prefix_of(
            file.entry.path@,
        ),
        FsEntry::Directory(inside) => inside.worktree_id == worktree_id && dir.is_prefix_of(
            inside.entry.path@,
        ),
        FsEntry::ExternalFile(_) => false,
    }
}

/// The buffers in a directory are those of the files that are listed right behind it, as far
/// as they lie in it.
pub proof fn law_buffers_of_a_directory(
    panel: OutlinePanel,
    worktree_id: WorktreeId,
    dir: GitEntry,
    at: int,
    r: VecSet<BufferId>,
    id: BufferId,
)
    requires
        dir.is_dir,
        0 <= at < panel.fs_entries@.len(),
        panel.fs_entries@[at] is Directory,
        panel.fs_entries@[at]->Directory_0.worktree_id == worktree_id,
        panel.fs_entries@[at]->Directory_0.entry == dir,
        forall|k: int|
            0 <= k < at && (#[trigger] panel.fs_entries@[k]) is Directory
                ==> panel.fs_entries@[k]->Directory_0.entry.id != dir.id,
        call_ensures(OutlinePanel::buffers_inside_directory, (&panel, worktree_id, &dir), r),
    ensures
        r@.contains(id) <==> exists|j: int|
            at < j < panel.fs_entries@.len() && (#[trigger] panel.fs_entries@[j]) is File
                && panel.fs_entries@[j]->File_0.buffer_id == id && forall|k: int|
                at < k <= j ==> lies_in(#[trigger] panel.fs_entries@[k], worktree_id, dir.path@),
{
    let entries = panel.fs_entries@;
    assert forall|entry: FsEntry| #[trigger] in_directory(entry, worktree_id, dir) == lies_in(
        entry,
        worktree_id,
        dir.path@,
    ) by {
        let path = match entry {
            FsEntry::File(file) => file.entry.path@,
            FsEntry::Directory(inside) => inside.entry.path@,
            FsEntry::ExternalFile(_) => Seq::empty(),
        };
        if dir.path@.len() <= path.len() {
            assert(path.take(dir.path@.len() as int) == path.subrange(0, dir.path@.len() as int));
        }
    }
    assert forall|k: int| 0 <= k < at implies !is_directory(
        #[trigger] entries[k],
        worktree_id,
        dir,
    ) by {
    }
    lemma_directory(entries, worktree_id, dir, at);
    let rest = entries.skip(at + 1);
    lemma_leading(rest, worktree_id, dir, id);
    if r@.contains(id) {
        let j: int = choose|j: int|
            0 <= j < rest.len() && (#[trigger] rest[j]) is File && rest[j]->File_0.buffer_id == id
                && forall|k: int|
                0 <= k <= j ==> in_directory(#[trigger] rest[k], worktree_id, dir);
        assert(entries[j + at + 1] == rest[j]);
        assert forall|k: int| at < k <= j + at + 1 implies lies_in(
            #[trigger] entries[k],
            worktree_id,
            dir.path@,
        ) by {
            assert(rest[k - at - 1] == entries[k]);
            assert(in_directory(rest[k - at - 1], worktree_id, dir));
        }
    }
    if exists|j: int|
        at < j < entries.len() && (#[trigger] entries[j]) is File && entries[j]->File_0.buffer_id
            == id && forall|k: int|
            at < k <= j ==> lies_in(#[trigger] entries[k], worktree_id, dir.path@) {
        let j: int = choose|j: int|
            at < j < entries.len() && (#[trigger] entries[j]) is File
                && entries[j]->File_0.buffer_id == id && forall|k: int|
                at < k <= j ==> lies_in(#[trigger] entries[k], worktree_id, dir.path@);
        assert(rest[j - at - 1] == entries[j]);
        assert forall|k: int| 0 <= k <= j - at - 1 implies in_directory(
            #[trigger] rest[k],
            worktree_id,
            dir,
        ) by {
            assert(rest[k] == entries[k + at + 1]);
            assert(lies_in(entries[k + at + 1], worktree_id, dir.path@));
        }
    }
}

/// Two lines stand for the same where they stand for the same file, directory, excerpt, symbol
/// or match, whatever else is known of it.
pub proof fn law_when_lines_stand_for_the_same(a: PanelEntry, b: PanelEntry, r: bool)
    requires
        call_ensures(PanelEntry::same, (&a, &b), r),
    ensures
        a is Fs != b is Fs || a is Outline != b is Outline || a is Search != b is Search ==> !r,
        a matches PanelEntry::Fs(FsEntry::File(x)) ==> (b matches PanelEntry::Fs(FsEntry::File(y))
            ==> r == (x.worktree_id == y.worktree_id && x.entry.id == y.entry.id && x.buffer_id
            == y.buffer_id)),
        a matches PanelEntry::Fs(FsEntry::Directory(x)) ==> (b matches PanelEntry::Fs(
            FsEntry::Directory(y),
        ) ==> r == (x.worktree_id == y.worktree_id && x.entry.id == y.entry.id)),
        a matches PanelEntry::Fs(FsEntry::ExternalFile(x)) ==> (b matches PanelEntry::Fs(
            FsEntry::ExternalFile(y),
        ) ==> r == (x.buffer_id == y.buffer_id)),
        a matches PanelEntry::Search(x) ==> (b matches PanelEntry::Search(y) ==> r == (
        x.match_range == y.match_range && x.kind == y.kind)),
        a matches PanelEntry::Outline(OutlineEntry::Excerpt(x)) ==> (b matches PanelEntry::Outline(
            OutlineEntry::Excerpt(y),
        ) ==> r == (x == y)),
        a matches PanelEntry::Outline(OutlineEntry::Outline(x)) ==> (b matches PanelEntry::Outline(
            OutlineEntry::Outline(y),
        ) ==> r == (x.buffer_id == y.buffer_id && x.excerpt_id == y.excerpt_id && x.outline.depth
            == y.outline.depth && x.outline.start == y.outline.start && x.outline.end
            == y.outline.end && x.outline.text@ == y.outline.text@)),
{
}

/// Symbols that are out of date are fetched again, and shown until they are. A directory can
/// be folded with its parent while it holds nothing but one directory, or none.
pub proof fn law_symbols_out_of_date_are_fetched(
    excerpt: &mut Excerpt,
    before: bool,
    after: bool,
    count: usize,
    count_after: usize,
    children: FsChildren,
    foldable: bool,
)
    requires
        call_ensures(Excerpt::should_fetch_outlines, (&*old(excerpt),), before),
        call_ensures(Excerpt::outline_count, (&*old(excerpt),), count),
        call_ensures(Excerpt::invalidate_outlines, (excerpt,), ()),
        call_ensures(Excerpt::should_fetch_outlines, (&*final(excerpt),), after),
        call_ensures(Excerpt::outline_count, (&*final(excerpt),), count_after),
        call_ensures(FsChildren::may_be_fold_part, (&children,), foldable),
    ensures
        before == !(old(excerpt).outlines is Outlines),
        after,
        count_after == count,
        final(excerpt).range == old(excerpt).range,
        old(excerpt).outlines is NotFetched ==> count == 0,
        old(excerpt).outlines matches ExcerptOutlines::Outlines(all) ==> count == all@.len(),
        old(excerpt).outlines matches ExcerptOutlines::Invalidated(all) ==> count == all@.len(),
        foldable <==> children.dirs == 0 || children.dirs == 1 && children.files == 0,
{
}

/// A selection that is no longer valid is remembered.
pub proof fn law_selection_is_remembered(
    selected: &mut SelectedEntry,
    entry: Option<&PanelEntry>,
    same: Option<&PanelEntry>,
    invalid: bool,
)
    requires
        call_ensures(SelectedEntry::get, (&*old(selected),), entry),
        call_ensures(SelectedEntry::invalidate, (selected,), ()),
        call_ensures(SelectedEntry::get, (&*final(selected),), same),
        call_ensures(SelectedEntry::is_invalidated, (&*final(selected),), invalid),
    ensures
        invalid,
        entry is Some == same is Some,
        entry is Some ==> *entry->0 == *same->0,
        *old(selected) matches SelectedEntry::Valid(known, _) ==> entry is Some && *entry->0
            == known,
        *old(selected) is Nothing ==> entry is None,
{
}

} // verus!
