//! Laws of how the panel follows the editor and the workspace.

use vstd::prelude::*;
use std::sync::Arc;
use crate::collections::{item_set, VecSet};
use crate::outline_panel::activity::{query, ItemStep, OutlineFetch};
use crate::outline_panel::entries::{
    BufferId, Excerpt, ExcerptId, ExcerptOutlines, FsEntry, OutlineItem, PanelEntry, SelectedEntry,
};
use crate::outline_panel::events::{
    fold_toggled, after_fold_toggles, is_owner, left_out, one_of_each, EditorEvent, FoldToggles,
    NextStep,
};
use crate::outline_panel::panel::{ExcerptKey, OutlinePanel};
use crate::outline_panel::place_laws::is_of_buffer;
use crate::text::is_blank;

verus! {

/// What the panel does for an event of the editor: it reveals a selection that was made here,
/// takes up files where excerpts or folds change, and symbols where texts do. A panel that is
/// not active does nothing.
pub proof fn law_what_events_lead_to(
    panel: &mut OutlinePanel,
    folded: VecSet<BufferId>,
    event: EditorEvent,
    r: NextStep,
)
    requires
        call_ensures(OutlinePanel::on_editor_event, (panel, &folded, &event), r),
    ensures
        !old(panel).active ==> r is Nothing && *final(panel) == *old(panel),
        old(panel).active ==> match event {
            EditorEvent::SelectionsChanged { local } => (r is RevealSelection <==> local) && (r
                is Nothing <==> !local) && *final(panel) == *old(panel),
            EditorEvent::ExcerptsAdded(_) => r is UpdateFsEntries,
            EditorEvent::ExcerptsRemoved(_) => r is UpdateFsEntries,
            EditorEvent::ExcerptsExpanded(_) => r is UpdateNonFsItems,
            EditorEvent::ExcerptsEdited(_) => r is UpdateNonFsItems,
            EditorEvent::BufferFoldToggled(_) => r is UpdateFsEntries,
            EditorEvent::Reparsed(_) => r is UpdateNonFsItems,
            EditorEvent::Other => r is Nothing && *final(panel) == *old(panel),
        },
{
}

/// Excerpts that are added are new until they are taken up.
pub proof fn law_added_excerpts_are_new(
    panel: &mut OutlinePanel,
    folded: VecSet<BufferId>,
    ids: Vec<ExcerptId>,
    r: NextStep,
    id: ExcerptId,
)
    requires
        old(panel).active,
        call_ensures(
            OutlinePanel::on_editor_event,
            (panel, &folded, &EditorEvent::ExcerptsAdded(ids)),
            r,
        ),
    ensures
        final(panel).new_entries_for_fs_update@.contains(id) <==> old(
            panel,
        ).new_entries_for_fs_update@.contains(id) || ids@.contains(id),
        final(panel).excerpts == old(panel).excerpts,
        final(panel).selected_entry == old(panel).selected_entry,
{
}

/// Excerpts that are removed are forgotten, and no others are.
pub proof fn law_removed_excerpts_are_forgotten(
    panel: &mut OutlinePanel,
    folded: VecSet<BufferId>,
    ids: Vec<ExcerptId>,
    r: NextStep,
    key: ExcerptKey,
)
    requires
        old(panel).active,
        call_ensures(
            OutlinePanel::on_editor_event,
            (panel, &folded, &EditorEvent::ExcerptsRemoved(ids)),
            r,
        ),
        forall|other: ExcerptKey| #[trigger]
            old(panel).excerpts.items@.contains_key(other) && other.excerpt_id == key.excerpt_id
                ==> other == key,
    ensures
        final(panel).excerpts.items@.contains_key(key) <==> old(
            panel,
        ).excerpts.items@.contains_key(key) && !ids@.contains(key.excerpt_id),
        final(panel).excerpts.items@.contains_key(key) ==> final(panel).excerpts.items@[key]
            == old(panel).excerpts.items@[key],
        final(panel).selected_entry == old(panel).selected_entry,
{
    let before = old(panel).excerpts.items@;
    let after = final(panel).excerpts.items@;
    assert(item_set(ids@).contains(key.excerpt_id) <==> ids@.contains(key.excerpt_id));
    if before.contains_key(key) && ids@.contains(key.excerpt_id) {
        let gone = choose|gone: ExcerptKey|
            gone.excerpt_id == key.excerpt_id && #[trigger] left_out(before, after, gone);
        assert(before.contains_key(gone));
    }
    if before.contains_key(key) && !ids@.contains(key.excerpt_id) {
        if !after.contains_key(key) {
            assert(left_out(before, after, key));
        }
    }
}

/// Whether the symbols of an excerpt went out of date: none are fetched any more, and those
/// that were are kept until then.
pub open spec fn is_out_of_date(before: Excerpt, after: Excerpt) -> bool {
    &&& after.range == before.range
    &&& before.outlines matches ExcerptOutlines::Outlines(all) ==> after.outlines
        == ExcerptOutlines::Invalidated(all)
    &&& !(before.outlines is Outlines) ==> after.outlines == before.outlines
}

/// The symbols of an excerpt that was edited or expanded go out of date, and no others do.
/// What was asked for is asked for again.
pub proof fn law_edited_excerpts_go_out_of_date(
    panel: &mut OutlinePanel,
    ids: Vec<ExcerptId>,
    key: ExcerptKey,
)
    requires
        call_ensures(OutlinePanel::invalidate_outlines, (panel, &ids), ()),
        old(panel).excerpts.items@.contains_key(key),
        forall|other: ExcerptKey| #[trigger]
            old(panel).excerpts.items@.contains_key(other) && other.excerpt_id == key.excerpt_id
                ==> other == key,
    ensures
        final(panel).excerpts.items@.contains_key(key),
        ids@.contains(key.excerpt_id) ==> is_out_of_date(
            old(panel).excerpts.items@[key],
            final(panel).excerpts.items@[key],
        ),
        !ids@.contains(key.excerpt_id) ==> final(panel).excerpts.items@[key]
            == old(panel).excerpts.items@[key],
        final(panel).outline_fetches@ == Map::<ExcerptKey, u64>::empty(),
{
    let before = old(panel).excerpts.items@;
    let ids_set = item_set(ids@);
    assert(ids_set.contains(key.excerpt_id) <==> ids@.contains(key.excerpt_id));
    let chosen = choose|chosen: Set<ExcerptKey>| #[trigger]
        one_of_each(before, ids_set, chosen) && final(panel).excerpts.items@
            == crate::outline_panel::events::with_chosen_outdated(before, chosen);
    if ids@.contains(key.excerpt_id) {
        let other = choose|other: ExcerptKey|
            other.excerpt_id == key.excerpt_id && #[trigger] chosen.contains(other);
        assert(before.contains_key(other));
        assert(chosen.contains(key));
    } else if chosen.contains(key) {
        assert(ids_set.contains(key.excerpt_id));
    }
}

/// The symbols of a buffer that was parsed again go out of date, and those of no other buffer.
/// A new theme makes all symbols go out of date.
pub proof fn law_parsed_buffers_go_out_of_date(
    panel: &mut OutlinePanel,
    themed: &mut OutlinePanel,
    folded: VecSet<BufferId>,
    buffer_id: BufferId,
    r: NextStep,
    theme_changed: bool,
    panel_changed: bool,
    step: NextStep,
    key: ExcerptKey,
)
    requires
        old(panel).active,
        call_ensures(
            OutlinePanel::on_editor_event,
            (panel, &folded, &EditorEvent::Reparsed(buffer_id)),
            r,
        ),
        call_ensures(
            OutlinePanel::on_settings_changed,
            (themed, theme_changed, panel_changed),
            step,
        ),
        old(panel).excerpts.items@.contains_key(key),
        old(themed).excerpts.items@.contains_key(key),
    ensures
        final(panel).excerpts.items@.contains_key(key),
        key.buffer_id == buffer_id ==> is_out_of_date(
            old(panel).excerpts.items@[key],
            final(panel).excerpts.items@[key],
        ),
        key.buffer_id != buffer_id ==> final(panel).excerpts.items@[key]
            == old(panel).excerpts.items@[key],
        theme_changed ==> step is UpdateNonFsItems && is_out_of_date(
            old(themed).excerpts.items@[key],
            final(themed).excerpts.items@[key],
        ),
        !theme_changed ==> *final(themed) == *old(themed) && (step is Repaint <==> panel_changed)
            && (step is Nothing <==> !panel_changed),
{
}

/// Whether an excerpt was toggled and its buffer, if it is known, is not folded.
pub open spec fn is_unfolded(
    folded: Set<BufferId>,
    ids: Seq<ExcerptId>,
    owners: Seq<Option<BufferId>>,
    id: ExcerptId,
) -> bool {
    exists|i: int|
        0 <= i < ids.len() && #[trigger] ids[i] == id && (owners[i] matches Some(b)
            ==> !folded.contains(b))
}

/// Whether one of the excerpts that were toggled is of a buffer.
pub open spec fn is_toggled(owners: Seq<Option<BufferId>>, n: int, buffer_id: BufferId) -> bool {
    exists|i: int| 0 <= i < n && #[trigger] owners[i] == Some(buffer_id)
}

proof fn lemma_toggles(
    start: FoldToggles,
    folded: Set<BufferId>,
    ids: Seq<ExcerptId>,
    owners: Seq<Option<BufferId>>,
    id: ExcerptId,
    buffer_id: BufferId,
)
    requires
        ids.len() <= owners.len(),
    ensures
        ({
            let after = fold_toggled(start, folded, ids, owners);
            &&& after.new_entries.contains(id) <==> start.new_entries.contains(id) || is_unfolded(
                folded,
                ids,
                owners,
                id,
            )
            &&& after.preserved.contains(buffer_id) <==> start.preserved.contains(buffer_id)
                && !is_toggled(owners, ids.len() as int, buffer_id)
            &&& after.unfolded matches Some(b) ==> start.unfolded == Some(b) || is_toggled(
                owners,
                ids.len() as int,
                b,
            )
            &&& after.folded matches Some(b) ==> start.folded == Some(b) || is_toggled(
                owners,
                ids.len() as int,
                b,
            )
            &&& (exists|i: int| 0 <= i < ids.len() && (#[trigger] owners[i]) is Some)
                ==> after.unfolded is Some || after.folded is Some
            &&& start.preserved.contains(buffer_id) && is_toggled(
                owners,
                ids.len() as int,
                buffer_id,
            ) ==> after.ignore_selection
            &&& after.ignore_selection ==> start.ignore_selection || exists|b: BufferId|
                start.preserved.contains(b) && #[trigger] is_toggled(owners, ids.len() as int, b)
        }),
    decreases ids.len(),
{
    if ids.len() > 0 {
        let init = ids.drop_last();
        let n: int = ids.len() - 1;
        lemma_toggles(start, folded, init, owners, id, buffer_id);
        let state = fold_toggled(start, folded, init, owners);
        let after = fold_toggled(start, folded, ids, owners);
        if is_unfolded(folded, init, owners, id) {
            let i: int = choose|i: int|
                0 <= i < init.len() && #[trigger] init[i] == id && (owners[i] matches Some(b)
                    ==> !folded.contains(b));
            assert(ids[i] == id);
        }
        if is_unfolded(folded, ids, owners, id) {
            let i: int = choose|i: int|
                0 <= i < ids.len() && #[trigger] ids[i] == id && (owners[i] matches Some(b)
                    ==> !folded.contains(b));
            if i < n {
                assert(init[i] == id);
            }
        }
        if ids[n] == id && (owners[n] matches Some(b) ==> !folded.contains(b)) {
            assert(is_unfolded(folded, ids, owners, id));
        }
        assert forall|b: BufferId| #[trigger]
            is_toggled(owners, n + 1, b) <==> is_toggled(owners, n, b) || owners[n] == Some(
                b,
            ) by {
            if is_toggled(owners, n, b) {
                let i: int = choose|i: int| 0 <= i < n && #[trigger] owners[i] == Some(b);
                assert(owners[i] == Some(b));
            }
            if owners[n] == Some(b) {
                assert(is_toggled(owners, n + 1, b));
            }
        }
        assert forall|b: BufferId| is_toggled(owners, n, b) implies #[trigger] is_toggled(
            owners,
            n + 1,
            b,
        ) by {
        }
        if let Some(b) = owners[n] {
            assert(is_toggled(owners, n + 1, b));
            lemma_toggles(start, folded, init, owners, id, b);
            if state.preserved.contains(b) {
                assert(start.preserved.contains(b));
            }
        }
        if state.ignore_selection && !start.ignore_selection {
            let b = choose|b: BufferId|
                start.preserved.contains(b) && #[trigger] is_toggled(owners, n, b);
            assert(is_toggled(owners, n + 1, b));
        }
        if let Some(b) = state.unfolded {
            if start.unfolded != Some(b) {
                assert(is_toggled(owners, n + 1, b));
            }
        }
        if let Some(b) = state.folded {
            if start.folded != Some(b) {
                assert(is_toggled(owners, n + 1, b));
            }
        }
        if start.preserved.contains(buffer_id) && is_toggled(owners, n + 1, buffer_id)
            && !is_toggled(owners, n, buffer_id) {
            assert(state.preserved.contains(buffer_id));
        }
        if exists|i: int| 0 <= i < ids.len() && (#[trigger] owners[i]) is Some {
            let i: int = choose|i: int| 0 <= i < ids.len() && (#[trigger] owners[i]) is Some;
            if i < n {
                assert(owners[i] is Some);
            }
        }
    }
}

/// Where folds were toggled, excerpts of buffers that are not folded are taken up as new. The
/// selection moves to the file of a buffer that was toggled, unless the panel toggled it
/// itself, which it does once.
pub proof fn law_toggled_folds_are_followed(
    panel: &mut OutlinePanel,
    folded: VecSet<BufferId>,
    ids: Vec<ExcerptId>,
    r: NextStep,
    id: ExcerptId,
    buffer_id: BufferId,
)
    requires
        old(panel).active,
        call_ensures(
            OutlinePanel::on_editor_event,
            (panel, &folded, &EditorEvent::BufferFoldToggled(ids)),
            r,
        ),
        forall|i: int|
            0 <= i < ids@.len() ==> old(panel).excerpts.items@.contains_key(
                ExcerptKey { buffer_id, excerpt_id: #[trigger] ids@[i] },
            ),
        forall|i: int, b: BufferId|
            0 <= i < ids@.len() && #[trigger] old(panel).excerpts.items@.contains_key(
                ExcerptKey { buffer_id: b, excerpt_id: #[trigger] ids@[i] },
            ) ==> b == buffer_id,
        ids@.len() > 0,
    ensures
        final(panel).new_entries_for_fs_update@.contains(id) <==> old(
            panel,
        ).new_entries_for_fs_update@.contains(id) || ids@.contains(id) && !folded@.contains(
            buffer_id,
        ),
        !final(panel).preserve_selection_on_buffer_fold_toggles@.contains(buffer_id),
        old(panel).preserve_selection_on_buffer_fold_toggles@.contains(buffer_id) ==> final(
            panel
        ).selected_entry == old(panel).selected_entry,
        !old(panel).preserve_selection_on_buffer_fold_toggles@.contains(buffer_id) && final(
            panel
        ).selected_entry != old(panel).selected_entry ==> (final(panel).selected_entry.entry()
            matches Some(PanelEntry::Fs(entry)) && is_of_buffer(entry, buffer_id)),
        final(panel).outline_fetches@ == Map::<ExcerptKey, u64>::empty(),
{
    let owners = choose|owners: Seq<Option<BufferId>>| #[trigger]
        after_fold_toggles(*old(panel), *final(panel), folded@, ids@, owners);
    assert(after_fold_toggles(*old(panel), *final(panel), folded@, ids@, owners));
    let items = old(panel).excerpts.items@;
    assert forall|i: int| 0 <= i < ids@.len() implies #[trigger] owners[i] == Some(buffer_id) by {
        assert(is_owner(items, ids@[i], owners[i]));
        assert(items.contains_key(ExcerptKey { buffer_id, excerpt_id: ids@[i] }));
        if let Some(b) = owners[i] {
            assert(items.contains_key(ExcerptKey { buffer_id: b, excerpt_id: ids@[i] }));
        }
    }
    let start = FoldToggles {
        preserved: old(panel).preserve_selection_on_buffer_fold_toggles@,
        new_entries: old(panel).new_entries_for_fs_update@,
        unfolded: None,
        folded: None,
        ignore_selection: false,
    };
    lemma_toggles(start, folded@, ids@, owners, id, buffer_id);
    let toggles = fold_toggled(start, folded@, ids@, owners);
    assert(owners[0] == Some(buffer_id));
    assert(is_toggled(owners, ids@.len() as int, buffer_id));
    assert(is_unfolded(folded@, ids@, owners, id) <==> ids@.contains(id) && !folded@.contains(
        buffer_id,
    )) by {
        if is_unfolded(folded@, ids@, owners, id) {
            let i: int = choose|i: int|
                0 <= i < ids@.len() && #[trigger] ids@[i] == id && (owners[i] matches Some(b)
                    ==> !folded@.contains(b));
            assert(owners[i] == Some(buffer_id));
        }
        if ids@.contains(id) && !folded@.contains(buffer_id) {
            let i: int = choose|i: int| 0 <= i < ids@.len() && ids@[i] == id;
            assert(owners[i] == Some(buffer_id));
            assert(ids@[i] == id);
        }
    }
    if let Some(b) = toggles.unfolded {
        let i: int = choose|i: int| 0 <= i < ids@.len() && #[trigger] owners[i] == Some(b);
        assert(b == buffer_id);
    }
    if let Some(b) = toggles.folded {
        let i: int = choose|i: int| 0 <= i < ids@.len() && #[trigger] owners[i] == Some(b);
        assert(b == buffer_id);
    }
    lemma_file_of(old(panel).fs_entries@, buffer_id);
}

proof fn lemma_file_of(entries: Seq<FsEntry>, id: BufferId)
    ensures
        crate::outline_panel::location::file_entry(entries, id) matches Some(entry)
            ==> is_of_buffer(entry, id),
    decreases entries.len(),
{
    if entries.len() > 0 {
        lemma_file_of(entries.drop_first(), id);
    }
}

/// The panel follows an item that becomes active unless it is pinned to another one. Without
/// an active item it is cleared.
pub proof fn law_which_item_is_followed(
    panel: &mut OutlinePanel,
    pinned: &mut OutlinePanel,
    shown: &mut OutlinePanel,
    item: u64,
    follows: bool,
    r: ItemStep,
    toggled: ItemStep,
    set: ItemStep,
)
    requires
        call_ensures(OutlinePanel::should_replace_active_item, (&*old(panel), item), follows),
        call_ensures(OutlinePanel::on_active_item_changed, (panel, Some(item)), r),
        call_ensures(OutlinePanel::toggle_active_editor_pin, (pinned, Some(item)), toggled),
        call_ensures(OutlinePanel::set_active, (shown, true, Some(item)), set),
        *old(pinned) == *old(panel) && *old(shown) == *old(panel),
    ensures
        follows <==> old(panel).active_item is None || !old(panel).pinned
            && old(panel).active_item != Some(item),
        *final(panel) == *old(panel),
        follows ==> r == ItemStep::Replace(item),
        !follows ==> r is Nothing,
        final(pinned).pinned == !old(panel).pinned && final(pinned).active_item
            == old(panel).active_item,
        !old(panel).pinned ==> toggled is Nothing,
        old(panel).pinned && old(panel).active_item != Some(item) ==> toggled
            == ItemStep::Replace(item),
        old(panel).pinned && old(panel).active_item == Some(item) ==> toggled is Nothing,
        final(shown).active,
        old(panel).active ==> set is Serialize,
        !old(panel).active && follows ==> set == ItemStep::Replace(item),
        !old(panel).active && !follows ==> set is UpdateFsEntries,
{
}

/// A panel that follows nothing shows nothing. One that follows another item starts anew with
/// all its excerpts.
pub proof fn law_cleared_panel_shows_nothing(
    panel: &mut OutlinePanel,
    replaced: &mut OutlinePanel,
    item: u64,
    excerpts: Vec<ExcerptId>,
    r: ItemStep,
    id: ExcerptId,
)
    requires
        call_ensures(OutlinePanel::on_active_item_changed, (panel, None), r),
        call_ensures(OutlinePanel::replace_active_editor, (replaced, item, &excerpts), ()),
    ensures
        r is Cleared,
        final(panel).active_item is None && final(panel).fs_entries@.len() == 0 && final(
            panel
        ).cached_entries@.len() == 0 && final(panel).selected_entry is Nothing && !final(
            panel
        ).pinned && final(panel).mode is Outline,
        final(replaced).active_item == Some(item) && final(replaced).fs_entries@.len() == 0
            && final(replaced).cached_entries@.len() == 0 && !final(replaced).pinned && final(
            replaced
        ).mode is Outline,
        excerpts@.contains(id) ==> final(replaced).new_entries_for_fs_update@.contains(id),
        final(replaced).selected_entry == SelectedEntry::Invalidated(None),
        final(replaced).collapsed_entries@.is_empty() && final(
            replaced
        ).unfolded_dirs.dirs@.is_empty(),
{
}

/// A panel that is hidden is cleared unless it is pinned.
pub proof fn law_hidden_panel_is_cleared(
    panel: &mut OutlinePanel,
    item: Option<u64>,
    r: ItemStep,
)
    requires
        old(panel).active,
        call_ensures(OutlinePanel::set_active, (panel, false, item), r),
    ensures
        !final(panel).active && r is Serialize,
        old(panel).pinned ==> final(panel).fs_entries == old(panel).fs_entries && final(
            panel
        ).active_item == old(panel).active_item && final(panel).pinned,
        !old(panel).pinned ==> final(panel).fs_entries@.len() == 0 && final(panel).active_item
            is None,
{
}

/// Symbols are asked for where an excerpt is listed, its buffer is open and its symbols are not
/// up to date. What was asked for is waited for, and only the last request counts.
pub proof fn law_symbols_are_asked_for(
    panel: &mut OutlinePanel,
    open: VecSet<BufferId>,
    r: OutlineFetch,
    key: ExcerptKey,
)
    requires
        call_ensures(OutlinePanel::fetch_outdated_outlines, (panel, &open), r),
    ensures
        r.ranges@.contains_key(key) <==> open@.contains(key.buffer_id)
            && old(panel).excerpts.buffers@.contains(key.buffer_id)
            && old(panel).excerpts.items@.contains_key(key) && !(
        old(panel).excerpts.items@[key].outlines is Outlines) && exists|i: int|
            0 <= i < old(panel).fs_entries@.len() && is_of_buffer(
                #[trigger] old(panel).fs_entries@[i],
                key.buffer_id,
            ) && old(panel).fs_entries@[i].shown_excerpts().contains(key.excerpt_id),
        r.ranges@.contains_key(key) ==> r.ranges@[key] == old(panel).excerpts.items@[key].range
            && final(panel).outline_fetches@.contains_key(key)
            && final(panel).outline_fetches@[key] == r.number,
        !r.ranges@.contains_key(key) ==> (final(panel).outline_fetches@.contains_key(key)
            <==> old(panel).outline_fetches@.contains_key(key)),
        final(panel).next_outline_fetch != r.number,
{
    if exists|i: int|
        0 <= i < old(panel).fs_entries@.len() && is_of_buffer(
            #[trigger] old(panel).fs_entries@[i],
            key.buffer_id,
        ) && old(panel).fs_entries@[i].shown_excerpts().contains(key.excerpt_id) {
        let i: int = choose|i: int|
            0 <= i < old(panel).fs_entries@.len() && is_of_buffer(
                #[trigger] old(panel).fs_entries@[i],
                key.buffer_id,
            ) && old(panel).fs_entries@[i].shown_excerpts().contains(key.excerpt_id);
        assert(old(panel).fs_entries@[i].buffer() == Some(key.buffer_id));
    }
    if r.ranges@.contains_key(key) {
        let i: int = choose|i: int|
            0 <= i < old(panel).fs_entries@.len() && (
            #[trigger] old(panel).fs_entries@[i]).buffer() == Some(key.buffer_id)
                && old(panel).fs_entries@[i].shown_excerpts().contains(key.excerpt_id);
        assert(is_of_buffer(old(panel).fs_entries@[i], key.buffer_id));
    }
}

/// Symbols that come in are taken where they are waited for, by the number of the request.
pub proof fn law_awaited_symbols_are_taken(
    panel: &mut OutlinePanel,
    key: ExcerptKey,
    number: u64,
    outlines: Arc<Vec<Arc<OutlineItem>>>,
    r: bool,
    text: &str,
    asked: Option<String>,
)
    requires
        call_ensures(OutlinePanel::set_outlines, (panel, key, number, outlines), r),
        call_ensures(query, (text,), asked),
    ensures
        r <==> old(panel).outline_fetches@.contains_key(key) && old(panel).outline_fetches@[key]
            == number && old(panel).excerpts.items@.contains_key(key),
        r ==> final(panel).excerpts.items@[key].outlines == ExcerptOutlines::Outlines(outlines)
            && final(panel).excerpts.items@[key].range == old(panel).excerpts.items@[key].range
            && !final(panel).outline_fetches@.contains_key(key),
        !r ==> final(panel).excerpts.items@ == old(panel).excerpts.items@,
        forall|other: ExcerptKey|
            other != key && #[trigger] old(panel).excerpts.items@.contains_key(other) ==> final(
                panel
            ).excerpts.items@[other] == old(panel).excerpts.items@[other],
        asked is None <==> is_blank(text@),
        asked matches Some(same) ==> same@ == text@,
{
}

} // verus!
