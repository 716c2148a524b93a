//! Which item the panel follows, and what it asks of the editor for it.

use vstd::prelude::*;
use std::sync::Arc;
use crate::collections::{item_set, VecMap, VecSet};
use crate::numbers::{following, number_after};
use crate::outline_panel::entries::{
    BufferId, CollapsedEntry, EntryKey, Excerpt, ExcerptId, ExcerptOutlines, ExcerptRange, FsEntry,
    OutlineItem, SelectedEntry, WorktreeId,
};
use crate::outline_panel::events::{with_outdated, Outdated};
use crate::outline_panel::panel::{
    ExcerptKey, Excerpts, ItemsDisplayMode, OutlinePanel, PendingWork, UnfoldedDirs,
};
use crate::text::{blank, copy_text, is_blank};

verus! {

/// A panel that has forgotten what it showed and awaits nothing.
pub open spec fn cleared(before: OutlinePanel, after: OutlinePanel) -> bool {
    &&& after.wf()
    &&& after.collapsed_entries@ == Set::<CollapsedEntry>::empty()
    &&& after.unfolded_dirs.worktrees@ == Set::<WorktreeId>::empty()
    &&& after.unfolded_dirs.dirs@ == Set::<EntryKey>::empty()
    &&& after.active_item is None
    &&& after.fs_entries@.len() == 0
    &&& after.fs_entries_depth@ == Map::<EntryKey, usize>::empty()
    &&& after.fs_children_count@.len() == 0
    &&& after.excerpts.buffers@ == Set::<BufferId>::empty()
    &&& after.excerpts.items@ == Map::<ExcerptKey, Excerpt>::empty()
    &&& after.outline_fetches@ == Map::<ExcerptKey, u64>::empty()
    &&& after.next_outline_fetch == before.next_outline_fetch
    &&& after.cached_entries@.len() == 0
    &&& after.selected_entry is Nothing
    &&& !after.pinned
    &&& after.mode is Outline
    &&& after.active == before.active
    &&& after.updating_fs_entries == before.updating_fs_entries
    &&& after.updating_cached_entries == before.updating_cached_entries
    &&& after.pending == (PendingWork {
        fs_entries: None,
        cached_entries: None,
        reveal: None,
        next: before.pending.next,
    })
    &&& after.new_entries_for_fs_update == before.new_entries_for_fs_update
    &&& after.max_width_item_index == before.max_width_item_index
    &&& after.preserve_selection_on_buffer_fold_toggles
        == before.preserve_selection_on_buffer_fold_toggles
}

/// A panel that follows an item from now on.
pub open spec fn replaced(
    before: OutlinePanel,
    after: OutlinePanel,
    item: u64,
    excerpts: Seq<ExcerptId>,
) -> bool {
    &&& cleared(
        before,
        OutlinePanel {
            active_item: None,
            new_entries_for_fs_update: before.new_entries_for_fs_update,
            selected_entry: SelectedEntry::Nothing,
            ..after
        },
    )
    &&& after.active_item == Some(item)
    &&& after.new_entries_for_fs_update@ == before.new_entries_for_fs_update@.union(
        item_set(excerpts),
    )
    &&& after.selected_entry == SelectedEntry::Invalidated(None)
}

/// Whether the panel is to follow another item: it follows none, or it is not
/// pinned and follows a different one.
pub open spec fn should_follow(panel: OutlinePanel, item: u64) -> bool {
    match panel.active_item {
        Some(active) => !panel.pinned && active != item,
        None => true,
    }
}

/// What is to be done when the active item of the workspace changes or the panel
/// is opened or closed.
#[derive(Copy, Clone, Debug, PartialEq, Eq, Structural)]
pub enum ItemStep {
    Nothing,
    /// The panel is to follow this item.
    Replace(u64),
    /// What the editor shows is to be taken up.
    UpdateFsEntries,
    /// Nothing is left to show.
    Cleared,
    /// Whether the panel is open is to be stored.
    Serialize,
}

/// Whether symbols of an excerpt are to be asked for.
pub open spec fn wanted(
    panel: OutlinePanel,
    open_buffers: Set<BufferId>,
    entries: Seq<FsEntry>,
    key: ExcerptKey,
) -> bool {
    &&& panel.excerpts.buffers@.contains(key.buffer_id)
    &&& panel.excerpts.items@.contains_key(key)
    &&& !(panel.excerpts.items@[key].outlines is Outlines)
    &&& open_buffers.contains(key.buffer_id)
    &&& exists|i: int|
        0 <= i < entries.len() && (#[trigger] entries[i]).buffer() == Some(key.buffer_id)
            && entries[i].shown_excerpts().contains(key.excerpt_id)
}

/// The excerpts whose symbols are to be asked for, with the part of the buffer
/// that each shows.
pub open spec fn fetch_ranges(
    panel: OutlinePanel,
    open_buffers: Set<BufferId>,
    entries: Seq<FsEntry>,
) -> Map<ExcerptKey, ExcerptRange> {
    Map::new(
        |key: ExcerptKey| wanted(panel, open_buffers, entries, key),
        |key: ExcerptKey| panel.excerpts.items@[key].range,
    )
}

impl OutlinePanel {
    /// Forgets what was shown, and gives up the work under way.
    pub fn clear_previous(&mut self)
        ensures
            cleared(*old(self), *final(self)),
    {
        self.collapsed_entries.clear();
        self.unfolded_dirs = UnfoldedDirs::new();
        self.active_item = None;
        self.fs_entries = Vec::new();
        self.fs_entries_depth.clear();
        self.fs_children_count = Vec::new();
        self.excerpts = Excerpts { buffers: VecSet::new(), items: VecMap::new() };
        self.outline_fetches.clear();
        self.pending = PendingWork {
            fs_entries: None,
            cached_entries: None,
            reveal: None,
            next: self.pending.next,
        };
        self.cached_entries = Vec::new();
        self.selected_entry = SelectedEntry::Nothing;
        self.pinned = false;
        self.mode = ItemsDisplayMode::Outline;
    }

    /// Follows an item from now on. What its editor shows is to be taken up next.
    pub fn replace_active_editor(&mut self, item: u64, excerpts: &Vec<ExcerptId>)
        ensures
            replaced(*old(self), *final(self), item, excerpts@),
    {
        self.clear_previous();
        self.active_item = Some(item);
        self.new_entries_for_fs_update.extend(excerpts);
        self.selected_entry.invalidate();
    }

    /// Whether the panel is to follow another item.
    pub fn should_replace_active_item(&self, item: u64) -> (r: bool)
        ensures
            r == should_follow(*self, item),
    {
        match self.active_item {
            Some(active) => !self.pinned && active != item,
            None => true,
        }
    }

    /// Takes up that the active item of the workspace has changed.
    pub fn on_active_item_changed(&mut self, active: Option<u64>) -> (r: ItemStep)
        ensures
            match active {
                Some(item) => *final(self) == *old(self) && r == (if should_follow(
                    *old(self),
                    item,
                ) {
                    ItemStep::Replace(item)
                } else {
                    ItemStep::Nothing
                }),
                None => cleared(*old(self), *final(self)) && r == ItemStep::Cleared,
            },
    {
        match active {
            Some(item) => if self.should_replace_active_item(item) {
                ItemStep::Replace(item)
            } else {
                ItemStep::Nothing
            },
            None => {
                self.clear_previous();
                ItemStep::Cleared
            },
        }
    }

    /// Pins the panel to its item, or lets it follow the workspace again.
    pub fn toggle_active_editor_pin(&mut self, active: Option<u64>) -> (r: ItemStep)
        ensures
            *final(self) == (OutlinePanel { pinned: !old(self).pinned, ..*old(self) }),
            r == match active {
                Some(item) => if old(self).pinned && should_follow(*final(self), item) {
                    ItemStep::Replace(item)
                } else {
                    ItemStep::Nothing
                },
                None => ItemStep::Nothing,
            },
    {
        self.pinned = !self.pinned;
        if !self.pinned {
            if let Some(item) = active {
                if self.should_replace_active_item(item) {
                    return ItemStep::Replace(item);
                }
            }
        }
        ItemStep::Nothing
    }

    /// Takes up that the panel was opened or closed.
    pub fn set_active(&mut self, active: bool, item: Option<u64>) -> (r: ItemStep)
        requires
            old(self).wf(),
        ensures
            final(self).wf(),
            ({
                let set = OutlinePanel { active, ..*old(self) };
                if old(self).active == active {
                    *final(self) == set && r == ItemStep::Serialize
                } else if active && item is Some {
                    *final(self) == set && r == (if should_follow(set, item->0) {
                        ItemStep::Replace(item->0)
                    } else {
                        ItemStep::UpdateFsEntries
                    })
                } else if old(self).pinned {
                    *final(self) == set && r == ItemStep::Serialize
                } else {
                    cleared(set, *final(self)) && r == ItemStep::Serialize
                }
            }),
    {
        let old_active: bool = self.active;
        self.active = active;
        if old_active != active {
            if active {
                if let Some(item) = item {
                    return if self.should_replace_active_item(item) {
                        ItemStep::Replace(item)
                    } else {
                        ItemStep::UpdateFsEntries
                    };
                }
            }
            if !self.pinned {
                self.clear_previous();
            }
        }
        ItemStep::Serialize
    }

    /// The excerpts whose symbols are to be asked for, with the part of the
    /// buffer that each shows: those of listed files whose symbols are missing or
    /// out of date, as far as their buffers are at hand.
    pub fn excerpt_fetch_ranges(&self, open_buffers: &VecSet<BufferId>) -> (r: VecMap<
        ExcerptKey,
        ExcerptRange,
    >)
        ensures
            r.wf(),
            r@ == fetch_ranges(*self, open_buffers@, self.fs_entries@),
    {
        let mut r: VecMap<ExcerptKey, ExcerptRange> = VecMap::new();
        let ghost all = self.fs_entries@;
        let ghost open = open_buffers@;
        let mut i: usize = 0;
        assert(r@ =~= fetch_ranges(*self, open, all.take(0)));
        while i < self.fs_entries.len()
            invariant
                i <= all.len(),
                all == self.fs_entries@,
                open == open_buffers@,
                r.wf(),
                r@ == fetch_ranges(*self, open, all.take(i as int)),
            decreases self.fs_entries.len() - i,
        {
            let entry = &self.fs_entries[i];
            let ids: Option<&Arc<Vec<ExcerptId>>> = match entry {
                FsEntry::File(file) => Some(&file.excerpts),
                FsEntry::ExternalFile(file) => Some(&file.excerpts),
                FsEntry::Directory(_) => None,
            };
            let ghost before = r@;
            if let (Some(buffer_id), Some(ids)) = (entry.buffer_id(), ids) {
                if open_buffers.contains(&buffer_id) && self.excerpts.buffers.contains(
                    &buffer_id,
                ) {
                    self.add_fetch_ranges(&mut r, buffer_id, ids);
                }
            }
            proof {
                let here = all.take(i as int);
                let next = all.take(i + 1);
                assert forall|key: ExcerptKey|
                    r@.contains_key(key) == wanted(*self, open, next, key) by {
                    assert(before.contains_key(key) == wanted(*self, open, here, key));
                    if wanted(*self, open, here, key) {
                        let a: int = choose|a: int|
                            0 <= a < here.len() && (#[trigger] here[a]).buffer() == Some(
                                key.buffer_id,
                            ) && here[a].shown_excerpts().contains(key.excerpt_id);
                        assert(next[a] == here[a]);
                    }
                    if wanted(*self, open, next, key) && !wanted(*self, open, here, key) {
                        let a: int = choose|a: int|
                            0 <= a < next.len() && (#[trigger] next[a]).buffer() == Some(
                                key.buffer_id,
                            ) && next[a].shown_excerpts().contains(key.excerpt_id);
                        if a < i {
                            assert(here[a] == next[a]);
                        }
                    }
                    assert(next[i as int] == *entry);
                }
                assert(r@ =~= fetch_ranges(*self, open, next));
            }
            i = i + 1;
        }
        assert(all.take(i as int) =~= all);
        r
    }

    fn add_fetch_ranges(
        &self,
        r: &mut VecMap<ExcerptKey, ExcerptRange>,
        buffer_id: BufferId,
        ids: &Vec<ExcerptId>,
    )
        requires
            old(r).wf(),
            forall|key: ExcerptKey| #[trigger]
                old(r)@.contains_key(key) ==> old(r)@[key] == self.excerpts.items@[key].range,
        ensures
            final(r).wf(),
            forall|key: ExcerptKey| #[trigger]
                final(r)@.contains_key(key) == (old(r)@.contains_key(key) || (key.buffer_id
                    == buffer_id && ids@.contains(key.excerpt_id)
                    && self.excerpts.items@.contains_key(key) && !(
                self.excerpts.items@[key].outlines is Outlines))),
            forall|key: ExcerptKey| #[trigger]
                final(r)@.contains_key(key) ==> final(r)@[key] == self.excerpts.items@[key].range,
    {
        let mut i: usize = 0;
        let ghost start = r@;
        while i < ids.len()
            invariant
                i <= ids@.len(),
                r.wf(),
                forall|key: ExcerptKey| #[trigger]
                    r@.contains_key(key) == (start.contains_key(key) || (key.buffer_id == buffer_id
                        && ids@.take(i as int).contains(key.excerpt_id)
                        && self.excerpts.items@.contains_key(key) && !(
                    self.excerpts.items@[key].outlines is Outlines))),
                forall|key: ExcerptKey| #[trigger]
                    r@.contains_key(key) ==> r@[key] == self.excerpts.items@[key].range,
            decreases ids.len() - i,
        {
            let key = ExcerptKey { buffer_id, excerpt_id: ids[i] };
            let ghost before = r@;
            if let Some(excerpt) = self.excerpts.items.get(&key) {
                if excerpt.should_fetch_outlines() {
                    let _ = r.insert(key, excerpt.range);
                }
            }
            proof {
                let here = ids@.take(i as int);
                let next = ids@.take(i + 1);
                assert forall|k: ExcerptId| next.contains(k) == (here.contains(k) || k
                    == ids@[i as int]) by {
                    if here.contains(k) {
                        let a: int = choose|a: int| 0 <= a < here.len() && here[a] == k;
                        assert(next[a] == k);
                    }
                    if k == ids@[i as int] {
                        assert(next[i as int] == k);
                    }
                    if next.contains(k) && k != ids@[i as int] {
                        let a: int = choose|a: int| 0 <= a < next.len() && next[a] == k;
                        assert(here[a] == k);
                    }
                }
                assert forall|k: ExcerptKey| #[trigger]
                    r@.contains_key(k) == (start.contains_key(k) || (k.buffer_id == buffer_id
                        && next.contains(k.excerpt_id) && self.excerpts.items@.contains_key(k) && !(
                    self.excerpts.items@[k].outlines is Outlines))) by {
                    assert(before.contains_key(k) == (start.contains_key(k) || (k.buffer_id
                        == buffer_id && here.contains(k.excerpt_id)
                        && self.excerpts.items@.contains_key(k) && !(
                    self.excerpts.items@[k].outlines is Outlines))));
                }
                assert forall|k: ExcerptKey| #[trigger]
                    r@.contains_key(k) implies r@[k] == self.excerpts.items@[k].range by {
                    if k != key {
                        assert(before.contains_key(k));
                    }
                }
            }
            i = i + 1;
        }
        assert(ids@.take(i as int) =~= ids@);
    }

    /// Asks for the symbols of the excerpts of which they are missing or out of date. Of an
    /// excerpt only the answer to the last request is taken.
    pub fn fetch_outdated_outlines(&mut self, open_buffers: &VecSet<BufferId>) -> (r: OutlineFetch)
        requires
            old(self).wf(),
        ensures
            final(self).wf(),
            r.ranges.wf(),
            r.number == old(self).next_outline_fetch,
            r.ranges@ == fetch_ranges(*old(self), open_buffers@, old(self).fs_entries@),
            final(self).outline_fetches@ == fetching(
                old(self).outline_fetches@,
                r.ranges@.dom(),
                r.number,
            ),
            final(self).next_outline_fetch == number_after(r.number),
            *final(self) == (OutlinePanel {
                outline_fetches: final(self).outline_fetches,
                next_outline_fetch: final(self).next_outline_fetch,
                ..*old(self)
            }),
    {
        let ranges = self.excerpt_fetch_ranges(open_buffers);
        let number: u64 = self.next_outline_fetch;
        let keys = ranges.keys();
        let ghost before = self.outline_fetches@;
        let ghost start = *self;
        let mut i: usize = 0;
        while i < keys.len()
            invariant
                i <= keys@.len(),
                self.wf(),
                *self == (OutlinePanel { outline_fetches: self.outline_fetches, ..start }),
                forall|key: ExcerptKey| #[trigger]
                    self.outline_fetches@.contains_key(key) == (before.contains_key(key)
                        || keys@.take(i as int).contains(key)),
                forall|key: ExcerptKey| #[trigger]
                    self.outline_fetches@.contains_key(key) ==> self.outline_fetches@[key] == (
                    if keys@.take(i as int).contains(key) {
                        number
                    } else {
                        before[key]
                    }),
            decreases keys.len() - i,
        {
            let key = keys[i];
            proof {
                let done = keys@.take(i as int);
                let next = keys@.take(i + 1);
                assert forall|k: ExcerptKey| #[trigger]
                    next.contains(k) == (done.contains(k) || k == key) by {
                    if done.contains(k) {
                        let a: int = choose|a: int| 0 <= a < done.len() && done[a] == k;
                        assert(next[a] == k);
                    }
                    assert(next[i as int] == key);
                    if next.contains(k) && k != key {
                        let a: int = choose|a: int| 0 <= a < next.len() && next[a] == k;
                        assert(done[a] == k);
                    }
                }
            }
            let _ = self.outline_fetches.insert(key, number);
            i = i + 1;
        }
        proof {
            assert(keys@.take(i as int) =~= keys@);
            assert(self.outline_fetches@ =~= fetching(before, ranges@.dom(), number));
        }
        self.next_outline_fetch = following(number);
        OutlineFetch { number, ranges }
    }

    /// Takes the answer to a request for the symbols of an excerpt, unless the request was
    /// given up or another one came after it. Tells whether the excerpt is still there, so
    /// that the lines are to be made anew.
    pub fn set_outlines(
        &mut self,
        key: ExcerptKey,
        number: u64,
        outlines: Arc<Vec<Arc<OutlineItem>>>,
    ) -> (r: bool)
        requires
            old(self).wf(),
        ensures
            final(self).wf(),
            if awaits(old(self).outline_fetches@, key, number) {
                &&& r == old(self).excerpts.items@.contains_key(key)
                &&& final(self).outline_fetches@ == old(self).outline_fetches@.remove(key)
                &&& final(self).excerpts.buffers@ == old(self).excerpts.buffers@.insert(
                    key.buffer_id,
                )
                &&& final(self).excerpts.items@ == (if r {
                    old(self).excerpts.items@.insert(
                        key,
                        Excerpt {
                            range: old(self).excerpts.items@[key].range,
                            outlines: ExcerptOutlines::Outlines(outlines),
                        },
                    )
                } else {
                    old(self).excerpts.items@
                })
                &&& *final(self) == (OutlinePanel {
                    excerpts: final(self).excerpts,
                    outline_fetches: final(self).outline_fetches,
                    ..*old(self)
                })
            } else {
                !r && *final(self) == *old(self)
            },
    {
        let awaited: bool = match self.outline_fetches.get(&key) {
            Some(last) => *last == number,
            None => false,
        };
        if !awaited {
            return false;
        }
        let _ = self.outline_fetches.remove(&key);
        let _ = self.excerpts.buffers.insert(key.buffer_id);
        let range: Option<ExcerptRange> = match self.excerpts.items.get(&key) {
            Some(excerpt) => Some(excerpt.range),
            None => None,
        };
        match range {
            Some(range) => {
                let _ = self.excerpts.items.insert(
                    key,
                    Excerpt { range, outlines: ExcerptOutlines::Outlines(outlines) },
                );
                true
            },
            None => false,
        }
    }
}

/// Symbols that are asked for.
#[derive(Debug)]
pub struct OutlineFetch {
    /// The number that the answers have to bear.
    pub number: u64,
    /// The excerpts, with the part of the buffer that each shows.
    pub ranges: VecMap<ExcerptKey, ExcerptRange>,
}

/// The requests of which an answer is taken, after one more.
pub open spec fn fetching(
    fetches: Map<ExcerptKey, u64>,
    keys: Set<ExcerptKey>,
    number: u64,
) -> Map<ExcerptKey, u64> {
    Map::new(
        |key: ExcerptKey| fetches.contains_key(key) || keys.contains(key),
        |key: ExcerptKey|
            if keys.contains(key) {
                number
            } else {
                fetches[key]
            },
    )
}

/// Whether the answer to a request for the symbols of an excerpt is taken.
pub open spec fn awaits(fetches: Map<ExcerptKey, u64>, key: ExcerptKey, number: u64) -> bool {
    fetches.contains_key(key) && fetches[key] == number
}

/// What the lines are filtered by: the text of the filter, unless it is blank.
pub fn query(text: &str) -> (r: Option<String>)
    ensures
        match r {
            Some(query) => !is_blank(text@) && query@ == text@,
            None => is_blank(text@),
        },
{
    if blank(text) {
        None
    } else {
        Some(copy_text(text))
    }
}

/// Symbols that were taken are not asked for again until they are out of date.
pub proof fn law_taken_outlines_are_not_wanted(
    panel: OutlinePanel,
    open_buffers: Set<BufferId>,
    entries: Seq<FsEntry>,
    key: ExcerptKey,
)
    requires
        panel.excerpts.items@.contains_key(key),
        panel.excerpts.items@[key].outlines is Outlines,
    ensures
        !fetch_ranges(panel, open_buffers, entries).contains_key(key),
        with_outdated(panel.excerpts.items@, Outdated::All).contains_key(key),
        !(with_outdated(panel.excerpts.items@, Outdated::All)[key].outlines is Outlines),
        with_outdated(panel.excerpts.items@, Outdated::All)[key].outlines.known()
            == panel.excerpts.items@[key].outlines.known(),
{
}

/// Of two requests for the symbols of an excerpt, only the answer to the later one is
/// taken.
pub proof fn law_later_request_counts(
    fetches: Map<ExcerptKey, u64>,
    keys: Set<ExcerptKey>,
    key: ExcerptKey,
    earlier: u64,
    later: u64,
)
    requires
        keys.contains(key),
        earlier != later,
    ensures
        awaits(fetching(fetches, keys, later), key, later),
        !awaits(fetching(fetches, keys, later), key, earlier),
{
}

/// A panel that has forgotten what it showed takes no result of what was begun before.
pub proof fn law_cleared_panel_awaits_nothing(
    before: OutlinePanel,
    after: OutlinePanel,
    key: ExcerptKey,
    number: u64,
)
    requires
        cleared(before, after),
    ensures
        after.pending.fs_entries != Some(number),
        after.pending.cached_entries != Some(number),
        after.pending.reveal != Some(number),
        !awaits(after.outline_fetches@, key, number),
{
}

} // verus!
