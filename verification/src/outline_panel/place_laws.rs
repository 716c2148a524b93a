//! Laws of showing and hiding many lines, and of the line for the place of the cursor.

use vstd::prelude::*;
use std::sync::Arc;
use crate::outline_panel::entries::{
    BufferId, CachedEntry, CollapsedEntry, EntryKey, ExcerptId, FsEntry, GitEntry, OutlineEntry,
    OutlineItem, PanelEntry, ProjectEntryId, WorktreeId,
};
use crate::outline_panel::location::{
    at_cursor, best_outline, better, candidate, child_started, container, distance, enclosing,
    encloses, file_entry, holds_excerpt, law_best_outline, located, match_line, nearer, nearest,
    open_after, outline_parent, CursorPlace, DisplayPoint, LocatedOutline, OutlineSpan,
};
use crate::outline_panel::panel::{ExcerptKey, OutlinePanel, PanelEnv};
use crate::outline_panel::panel_laws::has_key;
use crate::outline_panel::toggle_all::{
    dirs_shown, file_buffers, keys_of, line_keys, opened, opens, shown_file_buffers,
    ContextMenuOptions, RelatedFile,
};
use crate::outline_panel::toggling::{line_key, FoldOutcome};

verus! {

/// The buffer of an entry that is a file.
pub open spec fn is_of_buffer(entry: FsEntry, id: BufferId) -> bool {
    match entry {
        FsEntry::File(file) => file.buffer_id == id,
        FsEntry::ExternalFile(file) => file.buffer_id == id,
        FsEntry::Directory(_) => false,
    }
}

proof fn lemma_file_buffers(entries: Seq<FsEntry>, id: BufferId)
    ensures
        file_buffers(entries).contains(id) <==> exists|i: int|
            0 <= i < entries.len() && is_of_buffer(#[trigger] entries[i], id),
    decreases entries.len(),
{
    if entries.len() > 0 {
        let init = entries.drop_last();
        lemma_file_buffers(init, id);
        if file_buffers(entries).contains(id) {
            if file_buffers(init).contains(id) {
                let i: int = choose|i: int|
                    0 <= i < init.len() && is_of_buffer(#[trigger] init[i], id);
                assert(entries[i] == init[i]);
            } else {
                assert(is_of_buffer(entries[entries.len() - 1], id));
            }
        }
        if exists|i: int| 0 <= i < entries.len() && is_of_buffer(#[trigger] entries[i], id) {
            let i: int = choose|i: int|
                0 <= i < entries.len() && is_of_buffer(#[trigger] entries[i], id);
            if i < init.len() {
                assert(init[i] == entries[i]);
            }
        }
    }
}

/// Once all is expanded, no file or directory of the panel is hidden, and what belongs to none
/// of them stays as it was. Buffers that were folded are to be unfolded, and no others.
pub proof fn law_all_is_shown(
    panel: &mut OutlinePanel,
    env: PanelEnv,
    r: Option<FoldOutcome>,
    i: int,
    key: CollapsedEntry,
    id: BufferId,
)
    requires
        old(panel).active_item is Some,
        call_ensures(OutlinePanel::expand_all_entries, (panel, &env), r),
    ensures
        0 <= i < old(panel).fs_entries@.len() && has_key(
            PanelEntry::Fs(old(panel).fs_entries@[i]),
            key,
        ) ==> !final(panel).collapsed_entries@.contains(key),
        final(panel).collapsed_entries@.contains(key) ==> old(panel).collapsed_entries@.contains(
            key,
        ),
        old(panel).collapsed_entries@.contains(key) && !(key is Excerpt) && (forall|k: int|
            0 <= k < old(panel).fs_entries@.len() ==> !has_key(
                PanelEntry::Fs(#[trigger] old(panel).fs_entries@[k]),
                key,
            )) ==> final(panel).collapsed_entries@.contains(key),
        r is Some && !r->0.fold && r->0.dir_to_expand is None,
        r->0.buffers@.contains(id) <==> env.folded_buffers@.contains(id) && exists|k: int|
            0 <= k < old(panel).fs_entries@.len() && is_of_buffer(
                #[trigger] old(panel).fs_entries@[k],
                id,
            ),
{
    lemma_file_buffers(old(panel).fs_entries@, id);
    let entries = old(panel).fs_entries@;
    if 0 <= i < entries.len() && has_key(PanelEntry::Fs(entries[i]), key) {
        assert(opens(*old(panel), entries[i], key));
        assert(opened(*old(panel), key));
    }
    if old(panel).collapsed_entries@.contains(key) && !(key is Excerpt) && (forall|k: int|
        0 <= k < entries.len() ==> !has_key(PanelEntry::Fs(#[trigger] entries[k]), key)) {
        if opened(*old(panel), key) {
            let k: int = choose|k: int|
                0 <= k < entries.len() && opens(*old(panel), #[trigger] entries[k], key);
            assert(has_key(PanelEntry::Fs(entries[k]), key));
        }
    }
}

/// Whether a line is that of a file of a buffer.
pub open spec fn is_file_line(line: PanelEntry, id: BufferId) -> bool {
    match line {
        PanelEntry::Fs(entry) => is_of_buffer(entry, id),
        _ => false,
    }
}

/// Whether a line goes by a key: its own, or that of the last of several directories that are
/// folded into it.
pub open spec fn goes_by(line: PanelEntry, key: CollapsedEntry) -> bool {
    has_key(line, key) || match line {
        PanelEntry::FoldedDirs(dirs) => dirs.entries@.len() > 0 && key == CollapsedEntry::Dir(
            dirs.worktree_id,
            dirs.entries@.last().id,
        ),
        _ => false,
    }
}

proof fn lemma_line_keys(lines: Seq<CachedEntry>, key: CollapsedEntry, id: BufferId)
    ensures
        line_keys(lines).contains(key) <==> exists|i: int|
            0 <= i < lines.len() && goes_by((#[trigger] lines[i]).entry, key),
        shown_file_buffers(lines).contains(id) <==> exists|i: int|
            0 <= i < lines.len() && is_file_line((#[trigger] lines[i]).entry, id),
    decreases lines.len(),
{
    if lines.len() > 0 {
        let init = lines.drop_last();
        let n: int = lines.len() - 1;
        lemma_line_keys(init, key, id);
        assert(goes_by(lines[n].entry, key) <==> line_key(lines[n].entry) == Some(key));
        if line_keys(lines).contains(key) {
            if line_keys(init).contains(key) {
                let i: int = choose|i: int|
                    0 <= i < init.len() && goes_by((#[trigger] init[i]).entry, key);
                assert(lines[i] == init[i]);
            } else {
                assert(goes_by(lines[n].entry, key));
            }
        }
        if exists|i: int| 0 <= i < lines.len() && goes_by((#[trigger] lines[i]).entry, key) {
            let i: int = choose|i: int|
                0 <= i < lines.len() && goes_by((#[trigger] lines[i]).entry, key);
            if i < n {
                assert(init[i] == lines[i]);
            }
        }
        if shown_file_buffers(lines).contains(id) {
            if shown_file_buffers(init).contains(id) {
                let i: int = choose|i: int|
                    0 <= i < init.len() && is_file_line((#[trigger] init[i]).entry, id);
                assert(lines[i] == init[i]);
            } else {
                assert(is_file_line(lines[n].entry, id));
            }
        }
        if exists|i: int| 0 <= i < lines.len() && is_file_line((#[trigger] lines[i]).entry, id) {
            let i: int = choose|i: int|
                0 <= i < lines.len() && is_file_line((#[trigger] lines[i]).entry, id);
            if i < n {
                assert(init[i] == lines[i]);
            }
        }
    }
}

/// Once all is collapsed, what every line shows is hidden, and nothing is shown that was not.
/// The buffers of the lines are to be folded unless they are.
pub proof fn law_all_is_hidden(
    panel: &mut OutlinePanel,
    env: PanelEnv,
    r: Option<FoldOutcome>,
    key: CollapsedEntry,
    id: BufferId,
)
    requires
        old(panel).active_item is Some,
        call_ensures(OutlinePanel::collapse_all_entries, (panel, &env), r),
    ensures
        final(panel).collapsed_entries@.contains(key) <==> old(panel).collapsed_entries@.contains(
            key,
        ) || exists|i: int|
            0 <= i < old(panel).cached_entries@.len() && goes_by(
                (#[trigger] old(panel).cached_entries@[i]).entry,
                key,
            ),
        r is Some && r->0.fold && r->0.dir_to_expand is None,
        r->0.buffers@.contains(id) <==> !env.folded_buffers@.contains(id) && exists|i: int|
            0 <= i < old(panel).cached_entries@.len() && is_file_line(
                (#[trigger] old(panel).cached_entries@[i]).entry,
                id,
            ),
{
    lemma_line_keys(old(panel).cached_entries@, key, id);
}

proof fn lemma_keys_of(worktree_id: WorktreeId, entries: Seq<GitEntry>, key: EntryKey)
    ensures
        keys_of(worktree_id, entries).contains(key) <==> key.worktree_id == worktree_id
            && exists|i: int|
            0 <= i < entries.len() && (#[trigger] entries[i]).id == key.entry_id,
    decreases entries.len(),
{
    if entries.len() > 0 {
        let init = entries.drop_last();
        lemma_keys_of(worktree_id, init, key);
        if keys_of(worktree_id, entries).contains(key) {
            if keys_of(worktree_id, init).contains(key) {
                let i: int = choose|i: int|
                    0 <= i < init.len() && (#[trigger] init[i]).id == key.entry_id;
                assert(entries[i] == init[i]);
            } else {
                assert(entries[entries.len() - 1].id == key.entry_id);
            }
        }
        if exists|i: int| 0 <= i < entries.len() && (#[trigger] entries[i]).id == key.entry_id {
            let i: int = choose|i: int|
                0 <= i < entries.len() && (#[trigger] entries[i]).id == key.entry_id;
            if i < init.len() {
                assert(init[i] == entries[i]);
            }
        }
    }
}

/// Directories that are folded into one line are unfolded all at once. One that is selected is
/// folded again alone.
pub proof fn law_directories_fold_and_unfold(
    unfold: &mut OutlinePanel,
    fold: &mut OutlinePanel,
    env: PanelEnv,
    unfolded: bool,
    folded: bool,
    key: EntryKey,
)
    requires
        call_ensures(OutlinePanel::unfold_directory, (unfold,), unfolded),
        call_ensures(OutlinePanel::fold_directory, (fold, &env), folded),
    ensures
        unfolded == (old(unfold).selected_entry.entry() is Some
            && old(unfold).selected_entry.entry()->0 is FoldedDirs),
        old(unfold).selected_entry.entry() matches Some(PanelEntry::FoldedDirs(dirs)) ==> (
        final(unfold).unfolded_dirs.dirs@.contains(key) <==> old(
            unfold,
        ).unfolded_dirs.dirs@.contains(key) || key.worktree_id == dirs.worktree_id && exists|i: int|
            0 <= i < dirs.entries@.len() && (#[trigger] dirs.entries@[i]).id == key.entry_id),
        final(unfold).collapsed_entries == old(unfold).collapsed_entries,
        folded ==> (old(fold).selected_entry.entry() matches Some(
            PanelEntry::Fs(FsEntry::Directory(dir)),
        ) ==> (final(fold).unfolded_dirs.dirs@.contains(key) <==> old(
            fold,
        ).unfolded_dirs.dirs@.contains(key) && !(key.worktree_id == dir.worktree_id
            && key.entry_id == dir.entry.id))),
        !folded ==> *final(fold) == *old(fold),
{
    if let Some(PanelEntry::FoldedDirs(dirs)) = old(unfold).selected_entry.entry() {
        lemma_keys_of(dirs.worktree_id, dirs.entries@, key);
    }
}

/// The menu of a line offers to unfold several directories in one line, and to fold a directory
/// that was unfolded, but neither at the root of a worktree nor where directories do not fold.
pub proof fn law_menu_offers_to_fold(
    panel: &mut OutlinePanel,
    env: PanelEnv,
    entry: PanelEntry,
    r: Option<ContextMenuOptions>,
)
    requires
        call_ensures(OutlinePanel::deploy_context_menu, (panel, &env, &entry), r),
    ensures
        r is None <==> entry is Outline || entry is Search,
        !env.auto_fold_dirs && r is Some ==> !r->0.fold && !r->0.unfold,
        r is Some && r->0.unfold ==> entry is FoldedDirs,
        r is Some && r->0.fold ==> (entry matches PanelEntry::Fs(FsEntry::Directory(dir))
            && old(panel).unfolded_dirs.dirs@.contains(
            EntryKey { worktree_id: dir.worktree_id, entry_id: dir.entry.id },
        )),
        final(panel).selected_entry.entry() == Some(entry),
{
}

proof fn lemma_dirs_shown(
    collapsed: Set<CollapsedEntry>,
    worktree_id: WorktreeId,
    chain: Seq<GitEntry>,
    key: CollapsedEntry,
)
    ensures
        dirs_shown(collapsed, worktree_id, chain).0.contains(key) <==> collapsed.contains(key)
            && forall|k: int|
            0 <= k < chain.len() && (#[trigger] chain[k]).is_dir ==> key != CollapsedEntry::Dir(
                worktree_id,
                chain[k].id,
            ),
    decreases chain.len(),
{
    if chain.len() > 0 {
        let init = chain.drop_last();
        lemma_dirs_shown(collapsed, worktree_id, init, key);
        let n: int = chain.len() - 1;
        if dirs_shown(collapsed, worktree_id, chain).0.contains(key) {
            assert forall|k: int|
                0 <= k < chain.len() && (#[trigger] chain[k]).is_dir implies key
                != CollapsedEntry::Dir(worktree_id, chain[k].id) by {
                if k < n {
                    assert(init[k] == chain[k]);
                }
            }
        }
        if collapsed.contains(key) && forall|k: int|
            0 <= k < chain.len() && (#[trigger] chain[k]).is_dir ==> key != CollapsedEntry::Dir(
                worktree_id,
                chain[k].id,
            ) {
            assert forall|k: int|
                0 <= k < init.len() && (#[trigger] init[k]).is_dir implies key
                != CollapsedEntry::Dir(worktree_id, init[k].id) by {
                assert(init[k] == chain[k]);
            }
            if chain[n].is_dir {
                assert(key != CollapsedEntry::Dir(worktree_id, chain[n].id));
            }
        }
    }
}

/// A symbol that is revealed can be seen: its excerpt, its file and the directories around it
/// are shown, and nothing else changes. A later request is waited for instead of an earlier
/// one.
pub proof fn law_revealed_symbol_is_seen(
    panel: &mut OutlinePanel,
    number: u64,
    outline: OutlineEntry,
    file: RelatedFile,
    r: Option<Vec<ProjectEntryId>>,
    buffer_id: BufferId,
    excerpt_id: ExcerptId,
    key: CollapsedEntry,
)
    requires
        outline matches OutlineEntry::Excerpt(excerpt) ==> buffer_id == excerpt.buffer_id
            && excerpt_id == excerpt.id,
        outline matches OutlineEntry::Outline(symbol) ==> buffer_id == symbol.buffer_id
            && excerpt_id == symbol.excerpt_id,
        call_ensures(
            OutlinePanel::reveal_entry_for_selection,
            (panel, number, Some(PanelEntry::Outline(outline)), &Some(file)),
            r,
        ),
    ensures
        old(panel).pending.reveal != Some(number) ==> r is None && *final(panel) == *old(panel),
        old(panel).pending.reveal == Some(number) ==> {
            &&& r is Some && final(panel).pending.reveal is None
            &&& final(panel).selected_entry.entry() == Some(PanelEntry::Outline(outline))
            &&& final(panel).collapsed_entries@.contains(key) <==> old(
                panel,
            ).collapsed_entries@.contains(key) && key != CollapsedEntry::ExternalFile(buffer_id)
                && key != CollapsedEntry::Excerpt(buffer_id, excerpt_id) && key
                != CollapsedEntry::File(file.worktree_id, buffer_id) && forall|k: int|
                0 <= k < file.chain@.len() && (#[trigger] file.chain@[k]).is_dir ==> key
                    != CollapsedEntry::Dir(file.worktree_id, file.chain@[k].id)
        },
{
    let open = old(panel).collapsed_entries@.remove(
        CollapsedEntry::ExternalFile(buffer_id),
    ).remove(CollapsedEntry::Excerpt(buffer_id, excerpt_id)).remove(
        CollapsedEntry::File(file.worktree_id, buffer_id),
    );
    lemma_dirs_shown(open, file.worktree_id, file.chain@, key);
}

proof fn lemma_file_entry(entries: Seq<FsEntry>, id: BufferId)
    ensures
        match file_entry(entries, id) {
            Some(entry) => exists|i: int|
                0 <= i < entries.len() && (#[trigger] entries[i]) == entry && is_of_buffer(
                    entry,
                    id,
                ) && forall|j: int| 0 <= j < i ==> !is_of_buffer(#[trigger] entries[j], id),
            None => forall|i: int| 0 <= i < entries.len() ==> !is_of_buffer(#[trigger] entries[i], id),
        },
    decreases entries.len(),
{
    if entries.len() > 0 {
        if is_of_buffer(entries.first(), id) {
            assert(entries[0] == entries.first());
        } else {
            let rest = entries.drop_first();
            lemma_file_entry(rest, id);
            match file_entry(rest, id) {
                Some(entry) => {
                    let i: int = choose|i: int|
                        0 <= i < rest.len() && (#[trigger] rest[i]) == entry && is_of_buffer(
                            entry,
                            id,
                        ) && forall|j: int| 0 <= j < i ==> !is_of_buffer(#[trigger] rest[j], id);
                    assert(entries[i + 1] == entry);
                    assert forall|j: int| 0 <= j < i + 1 implies !is_of_buffer(
                        #[trigger] entries[j],
                        id,
                    ) by {
                        if j > 0 {
                            assert(rest[j - 1] == entries[j]);
                        }
                    }
                },
                None => {
                    assert forall|i: int| 0 <= i < entries.len() implies !is_of_buffer(
                        #[trigger] entries[i],
                        id,
                    ) by {
                        if i > 0 {
                            assert(rest[i - 1] == entries[i]);
                        }
                    }
                },
            }
        }
    }
}

/// In a buffer that is folded, the place of the cursor is the file: the first entry that is of
/// the buffer.
pub proof fn law_place_in_a_folded_buffer(
    panel: OutlinePanel,
    place: CursorPlace,
    r: Option<PanelEntry>,
    i: int,
)
    requires
        place.is_folded,
        call_ensures(OutlinePanel::location_for_editor_selection, (&panel, &Some(place)), r),
    ensures
        0 <= i < panel.fs_entries@.len() && is_of_buffer(panel.fs_entries@[i], place.buffer_id) && (
        forall|j: int|
            0 <= j < i ==> !is_of_buffer(#[trigger] panel.fs_entries@[j], place.buffer_id)) ==> r
            == Some(PanelEntry::Fs(panel.fs_entries@[i])),
        (forall|j: int|
            0 <= j < panel.fs_entries@.len() ==> !is_of_buffer(
                #[trigger] panel.fs_entries@[j],
                place.buffer_id,
            )) ==> r is None,
{
    let entries = panel.fs_entries@;
    lemma_file_entry(entries, place.buffer_id);
    if let Some(entry) = file_entry(entries, place.buffer_id) {
        let k: int = choose|k: int|
            0 <= k < entries.len() && (#[trigger] entries[k]) == entry && is_of_buffer(
                entry,
                place.buffer_id,
            ) && forall|j: int| 0 <= j < k ==> !is_of_buffer(#[trigger] entries[j], place.buffer_id);
        if 0 <= i < entries.len() && is_of_buffer(entries[i], place.buffer_id) && (forall|j: int|
            0 <= j < i ==> !is_of_buffer(#[trigger] entries[j], place.buffer_id)) {
            assert(k == i) by {
                if k < i {
                    assert(!is_of_buffer(entries[k], place.buffer_id));
                } else if i < k {
                    assert(!is_of_buffer(entries[i], place.buffer_id));
                }
            }
        }
    }
}

/// How many rows and columns lie between two points. In one row columns are counted between
/// them, and otherwise from the start of the later row.
pub open spec fn apart(a: DisplayPoint, b: DisplayPoint) -> (int, int) {
    if a.row == b.row {
        (
            0,
            if a.column < b.column {
                b.column - a.column
            } else {
                a.column - b.column
            },
        )
    } else if a.row < b.row {
        (b.row - a.row, b.column as int)
    } else {
        (a.row - b.row, a.column as int)
    }
}

/// How far a span is from the cursor: by rows first, then by columns, both at its start and at
/// its end.
pub open spec fn is_farther(a: OutlineSpan, b: OutlineSpan, cursor: DisplayPoint) -> bool {
    let (a_start, a_end) = (apart(a.start, cursor), apart(a.end, cursor));
    let (b_start, b_end) = (apart(b.start, cursor), apart(b.end, cursor));
    let a_rows = a_start.0 + a_end.0;
    let b_rows = b_start.0 + b_end.0;
    let a_columns = a_end.1 + (if a_end.0 == 0 {
        a_start.1
    } else {
        0
    });
    let b_columns = b_end.1 + (if b_end.0 == 0 {
        b_start.1
    } else {
        0
    });
    a_rows > b_rows || (a_rows == b_rows && a_columns > b_columns)
}

proof fn lemma_farther(a: OutlineSpan, b: OutlineSpan, cursor: DisplayPoint)
    ensures
        is_farther(a, b, cursor) == nearer(distance(b, cursor), distance(a, cursor)),
{
}

proof fn lemma_nearest(spans: Seq<OutlineSpan>, cursor: DisplayPoint)
    ensures
        spans.len() == 0 ==> nearest(spans, cursor) is None,
        spans.len() > 0 ==> nearest(spans, cursor) is Some && 0 <= nearest(spans, cursor)->0
            < spans.len() && forall|k: int|
            0 <= k < spans.len() ==> !is_farther(
                spans[nearest(spans, cursor)->0],
                #[trigger] spans[k],
                cursor,
            ),
        spans.len() > 0 ==> forall|k: int|
            nearest(spans, cursor)->0 < k < spans.len() ==> is_farther(
                #[trigger] spans[k],
                spans[nearest(spans, cursor)->0],
                cursor,
            ),
    decreases spans.len(),
{
    if spans.len() > 0 {
        let init = spans.drop_last();
        lemma_nearest(init, cursor);
        let best: int = nearest(spans, cursor)->0;
        assert(forall|a: OutlineSpan, b: OutlineSpan| #[trigger]
            is_farther(a, b, cursor) == nearer(distance(b, cursor), distance(a, cursor)));
        if init.len() > 0 {
            let before: int = nearest(init, cursor)->0;
            assert(init[before] == spans[before]);
            assert forall|k: int| 0 <= k < spans.len() implies !is_farther(
                spans[best],
                #[trigger] spans[k],
                cursor,
            ) by {
                if k < init.len() {
                    assert(init[k] == spans[k]);
                    assert(!is_farther(init[before], init[k], cursor));
                }
            }
            assert forall|k: int| best < k < spans.len() implies is_farther(
                #[trigger] spans[k],
                spans[best],
                cursor,
            ) by {
                if k < init.len() {
                    assert(init[k] == spans[k]);
                }
            }
        }
    }
}

proof fn lemma_match_line(lines: Seq<CachedEntry>, i: int)
    requires
        0 <= i < lines.len(),
        lines[i].entry is Search,
        forall|j: int|
            0 <= j < i && (#[trigger] lines[j]).entry is Search
                ==> lines[j].entry->Search_0.match_range != lines[i].entry->Search_0.match_range,
    ensures
        match_line(lines, lines[i].entry->Search_0.match_range) == Some(lines[i].entry),
    decreases i,
{
    if i > 0 {
        let rest = lines.drop_first();
        assert(lines[0] == lines.first());
        assert forall|j: int|
            0 <= j < i - 1 && (#[trigger] rest[j]).entry is Search implies rest[j].entry->Search_0.match_range
            != rest[i - 1].entry->Search_0.match_range by {
            assert(rest[j] == lines[j + 1]);
        }
        lemma_match_line(rest, i - 1);
    }
}

/// In a search, the place of the cursor is the match that is nearest to it, and of several
/// that are as near the last one.
pub proof fn law_place_in_a_search(
    panel: OutlinePanel,
    place: CursorPlace,
    r: Option<PanelEntry>,
    best: int,
    i: int,
)
    requires
        !place.is_folded,
        panel.mode is Search,
        call_ensures(OutlinePanel::location_for_editor_selection, (&panel, &Some(place)), r),
        0 <= best < place.match_spans@.len(),
        best < panel.mode->Search_0.matches@.len(),
        forall|k: int|
            0 <= k < best ==> !is_farther(
                place.match_spans@[best],
                #[trigger] place.match_spans@[k],
                place.cursor,
            ),
        forall|k: int|
            best < k < place.match_spans@.len() ==> is_farther(
                #[trigger] place.match_spans@[k],
                place.match_spans@[best],
                place.cursor,
            ),
        0 <= i < panel.cached_entries@.len(),
        panel.cached_entries@[i].entry is Search,
        panel.cached_entries@[i].entry->Search_0.match_range
            == panel.mode->Search_0.matches@[best].range,
        forall|j: int|
            0 <= j < i && (#[trigger] panel.cached_entries@[j]).entry is Search
                ==> panel.cached_entries@[j].entry->Search_0.match_range
                != panel.mode->Search_0.matches@[best].range,
    ensures
        r == Some(panel.cached_entries@[i].entry),
{
    let spans = place.match_spans@;
    lemma_nearest(spans, place.cursor);
    let found: int = nearest(spans, place.cursor)->0;
    assert(found == best) by {
        if found < best {
            assert(is_farther(spans[best], spans[found], place.cursor));
            assert(!is_farther(spans[best], spans[found], place.cursor));
        } else if best < found {
            assert(is_farther(spans[found], spans[best], place.cursor));
            assert(!is_farther(spans[found], spans[best], place.cursor));
        }
    }
    lemma_match_line(panel.cached_entries@, i);
}

/// Whether the cursor is in a span or in one of its rows.
pub open spec fn is_at(span: OutlineSpan, cursor: DisplayPoint) -> bool {
    let starts = span.start.row < cursor.row || span.start.row == cursor.row && span.start.column
        <= cursor.column;
    let ends = cursor.row < span.end.row || cursor.row == span.end.row && cursor.column
        <= span.end.column;
    starts && ends || span.start.row <= cursor.row && cursor.row <= span.end.row
}

proof fn lemma_around(items: Seq<LocatedOutline>, open: Seq<usize>, i: int)
    ensures
        enclosing(items, open, i).len() > 0 ==> encloses(
            items[enclosing(items, open, i).last() as int],
            items[i],
        ),
    decreases open.len(),
{
    if open.len() > 0 && !encloses(items[open.last() as int], items[i]) {
        lemma_around(items, open.drop_last(), i);
    }
}

proof fn lemma_deepest(items: Seq<LocatedOutline>, cursor: DisplayPoint, j: int)
    requires
        0 <= j < items.len(),
        forall|k: int|
            0 <= k < items.len() ==> (#[trigger] items[k]).outline.depth
                <= items[j].outline.depth,
    ensures
        candidate(items, cursor, j) == is_at(items[j].span, cursor),
{
    assert forall|c: int| 0 <= c < items.len() implies #[trigger] outline_parent(items, c)
        != Some(j) by {
        lemma_around(items, open_after(items, c as nat), c);
        assert(items[c].outline.depth <= items[j].outline.depth);
    }
    assert(!child_started(items, cursor, j, items.len() as int));
}

proof fn lemma_first_of_the_best(items: Seq<LocatedOutline>, cursor: DisplayPoint, n: nat, k: int)
    requires
        n <= items.len(),
        0 <= k < n,
        candidate(items, cursor, k),
        best_outline(items, cursor, n) is Some,
        k < best_outline(items, cursor, n)->0,
    ensures
        better(items[best_outline(items, cursor, n)->0], items[k], cursor),
    decreases n,
{
    let before = best_outline(items, cursor, (n - 1) as nat);
    if k < n - 1 {
        law_best_outline(items, cursor, (n - 1) as nat, k);
        if best_outline(items, cursor, n) == before {
            lemma_first_of_the_best(items, cursor, (n - 1) as nat, k);
        }
    } else {
        lemma_best_is_below(items, cursor, n);
    }
}

proof fn lemma_best_is_below(items: Seq<LocatedOutline>, cursor: DisplayPoint, n: nat)
    ensures
        best_outline(items, cursor, n) matches Some(i) ==> 0 <= i < n,
    decreases n,
{
    if n > 0 {
        lemma_best_is_below(items, cursor, (n - 1) as nat);
    }
}

proof fn lemma_located(outlines: Seq<Arc<OutlineItem>>, spans: Seq<Option<OutlineSpan>>)
    requires
        outlines.len() <= spans.len(),
        forall|k: int| 0 <= k < outlines.len() ==> (#[trigger] spans[k]) is Some,
    ensures
        located(outlines, spans).len() == outlines.len(),
        forall|k: int|
            0 <= k < outlines.len() ==> (#[trigger] located(outlines, spans)[k])
                == (LocatedOutline { span: spans[k]->0, outline: outlines[k] }),
    decreases outlines.len(),
{
    if outlines.len() > 0 {
        lemma_located(outlines.drop_last(), spans);
        assert(spans[outlines.len() - 1] is Some);
    }
}

/// Among the symbols of an excerpt, the place of the cursor is one of the innermost that it is
/// at: the nearest of them, and the first of several that are as near.
pub proof fn law_place_in_a_symbol(
    panel: OutlinePanel,
    buffer_id: BufferId,
    excerpt_id: ExcerptId,
    spans: Vec<Option<OutlineSpan>>,
    cursor: DisplayPoint,
    r: Option<PanelEntry>,
    j: int,
)
    requires
        call_ensures(
            OutlinePanel::outline_location,
            (&panel, buffer_id, excerpt_id, &spans, cursor),
            r,
        ),
        panel.excerpts.buffers@.contains(buffer_id),
        panel.excerpts.items@.contains_key(ExcerptKey { buffer_id, excerpt_id }),
        ({
            let known = panel.excerpts.items@[ExcerptKey {
                buffer_id,
                excerpt_id,
            }].outlines.known();
            &&& known.len() == spans@.len()
            &&& forall|k: int| 0 <= k < spans@.len() ==> (#[trigger] spans@[k]) is Some
            &&& 0 <= j < known.len() && is_at(spans@[j]->0, cursor)
            &&& forall|k: int|
                0 <= k < known.len() ==> (#[trigger] known[k]).depth <= known[j].depth
            &&& forall|k: int|
                j < k < known.len() && known[k].depth == known[j].depth && is_at(
                    (#[trigger] spans@[k])->0,
                    cursor,
                ) ==> !is_farther(spans@[j]->0, spans@[k]->0, cursor)
            &&& forall|k: int|
                0 <= k < j && known[k].depth == known[j].depth && is_at(
                    (#[trigger] spans@[k])->0,
                    cursor,
                ) ==> is_farther(spans@[k]->0, spans@[j]->0, cursor)
        }),
    ensures
        r matches Some(PanelEntry::Outline(OutlineEntry::Outline(symbol))) && symbol.buffer_id
            == buffer_id && symbol.excerpt_id == excerpt_id && symbol.outline
            == panel.excerpts.items@[ExcerptKey { buffer_id, excerpt_id }].outlines.known()[j],
{
    let known = panel.excerpts.items@[ExcerptKey { buffer_id, excerpt_id }].outlines.known();
    let items = located(known, spans@);
    lemma_located(known, spans@);
    assert forall|k: int| 0 <= k < items.len() implies (#[trigger] items[k]).outline.depth
        <= items[j].outline.depth by {
        assert(known[k].depth <= known[j].depth);
    }
    lemma_deepest(items, cursor, j);
    law_best_outline(items, cursor, items.len(), j);
    let best: int = best_outline(items, cursor, items.len())->0;
    assert(items[best].outline.depth <= items[j].outline.depth);
    assert(items[best].outline.depth == items[j].outline.depth);
    assert(at_cursor(items[best].span, cursor) == is_at(spans@[best]->0, cursor));
    lemma_farther(items[j].span, items[best].span, cursor);
    lemma_farther(items[best].span, items[j].span, cursor);
    if j < best {
        lemma_first_of_the_best(items, cursor, items.len(), j);
        assert(spans@[best] is Some);
    } else if best < j {
        assert(spans@[best] is Some);
    }
}

proof fn lemma_container(
    lines: Seq<CachedEntry>,
    buffer_id: BufferId,
    excerpt_id: ExcerptId,
    i: int,
)
    requires
        0 <= i < lines.len(),
        holds_excerpt(lines[i].entry, buffer_id, excerpt_id),
        forall|k: int|
            i < k < lines.len() ==> !holds_excerpt(
                (#[trigger] lines[k]).entry,
                buffer_id,
                excerpt_id,
            ),
    ensures
        container(lines, buffer_id, excerpt_id) == Some(lines[i].entry),
    decreases lines.len(),
{
    if i < lines.len() - 1 {
        let init = lines.drop_last();
        assert(!holds_excerpt(lines[lines.len() - 1].entry, buffer_id, excerpt_id));
        assert(init[i] == lines[i]);
        assert forall|k: int| i < k < init.len() implies !holds_excerpt(
            (#[trigger] init[k]).entry,
            buffer_id,
            excerpt_id,
        ) by {
            assert(init[k] == lines[k]);
        }
        lemma_container(init, buffer_id, excerpt_id, i);
    }
}

/// Whether a line is that of an excerpt or of the file that it is of.
pub open spec fn shows_excerpt(line: PanelEntry, buffer_id: BufferId, excerpt_id: ExcerptId) -> bool {
    match line {
        PanelEntry::Outline(OutlineEntry::Excerpt(excerpt)) => excerpt.buffer_id == buffer_id
            && excerpt.id == excerpt_id,
        PanelEntry::Fs(FsEntry::File(file)) => file.buffer_id == buffer_id
            && file.excerpts@.contains(excerpt_id),
        PanelEntry::Fs(FsEntry::ExternalFile(file)) => file.buffer_id == buffer_id
            && file.excerpts@.contains(excerpt_id),
        _ => false,
    }
}

/// Outside of all symbols, the place of the cursor is the last line that shows the excerpt: its
/// own, or that of its file.
pub proof fn law_place_outside_of_symbols(
    panel: OutlinePanel,
    buffer_id: BufferId,
    excerpt_id: ExcerptId,
    spans: Vec<Option<OutlineSpan>>,
    cursor: DisplayPoint,
    r: Option<PanelEntry>,
    i: int,
)
    requires
        call_ensures(
            OutlinePanel::outline_location,
            (&panel, buffer_id, excerpt_id, &spans, cursor),
            r,
        ),
        forall|k: int|
            0 <= k < spans@.len() ==> !((#[trigger] spans@[k]) is Some && is_at(
                spans@[k]->0,
                cursor,
            )),
        0 <= i < panel.cached_entries@.len(),
        shows_excerpt(panel.cached_entries@[i].entry, buffer_id, excerpt_id),
        forall|k: int|
            i < k < panel.cached_entries@.len() ==> !shows_excerpt(
                (#[trigger] panel.cached_entries@[k]).entry,
                buffer_id,
                excerpt_id,
            ),
    ensures
        r == Some(panel.cached_entries@[i].entry),
{
    let key = ExcerptKey { buffer_id, excerpt_id };
    let outlines = crate::outline_panel::location::outlines_of(panel, key);
    let items = located(outlines, spans@);
    lemma_located_spans(outlines, spans@);
    lemma_no_best(items, cursor, items.len());
    let lines = panel.cached_entries@;
    assert forall|k: int| i < k < lines.len() implies !holds_excerpt(
        (#[trigger] lines[k]).entry,
        buffer_id,
        excerpt_id,
    ) by {
        assert(!shows_excerpt(lines[k].entry, buffer_id, excerpt_id));
    }
    lemma_container(lines, buffer_id, excerpt_id, i);
}

proof fn lemma_located_spans(outlines: Seq<Arc<OutlineItem>>, spans: Seq<Option<OutlineSpan>>)
    ensures
        forall|k: int|
            0 <= k < located(outlines, spans).len() ==> exists|m: int|
                0 <= m < spans.len() && (#[trigger] spans[m]) == Some(
                    (#[trigger] located(outlines, spans)[k]).span,
                ),
    decreases outlines.len(),
{
    if outlines.len() > 0 {
        lemma_located_spans(outlines.drop_last(), spans);
        let before = located(outlines.drop_last(), spans);
        let all = located(outlines, spans);
        assert forall|k: int| 0 <= k < all.len() implies exists|m: int|
            0 <= m < spans.len() && (#[trigger] spans[m]) == Some((#[trigger] all[k]).span) by {
            if k < before.len() {
                assert(all[k] == before[k]);
            } else {
                assert(spans[outlines.len() - 1] == Some(all[k].span));
            }
        }
    }
}

proof fn lemma_no_best(items: Seq<LocatedOutline>, cursor: DisplayPoint, n: nat)
    requires
        n <= items.len(),
        forall|k: int| 0 <= k < items.len() ==> !at_cursor((#[trigger] items[k]).span, cursor),
    ensures
        best_outline(items, cursor, n) is None,
    decreases n,
{
    if n > 0 {
        lemma_no_best(items, cursor, (n - 1) as nat);
        assert(!at_cursor(items[n - 1].span, cursor));
    }
}

} // verus!
