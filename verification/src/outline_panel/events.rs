//! How the panel follows the editor and the workspace.

use vstd::prelude::*;

use crate::collections::{item_set, VecSet};
use crate::outline_panel::activity::awaits;
use crate::outline_panel::entries::{BufferId, Excerpt, ExcerptId, PanelEntry};
use crate::outline_panel::location::file_entry;
use crate::outline_panel::panel::{ExcerptKey, Excerpts, OutlinePanel};
use crate::outline_panel::selection::with_selected;

verus! {

/// What the panel tells of.
#[derive(Copy, Clone, Debug, PartialEq, Eq, Structural)]
pub enum Event {
    Focus,
}

/// What an editor tells of.
#[derive(Debug)]
pub enum EditorEvent {
    SelectionsChanged { local: bool },
    ExcerptsAdded(Vec<ExcerptId>),
    ExcerptsRemoved(Vec<ExcerptId>),
    ExcerptsExpanded(Vec<ExcerptId>),
    ExcerptsEdited(Vec<ExcerptId>),
    BufferFoldToggled(Vec<ExcerptId>),
    Reparsed(BufferId),
    Other,
}

/// What is to be done next.
#[derive(Copy, Clone, Debug, PartialEq, Eq, Structural)]
pub enum NextStep {
    Nothing,
    /// The place of the cursor is to be shown.
    RevealSelection,
    /// What the editor shows is to be taken up.
    UpdateFsEntries,
    /// Symbols are to be asked for and matches taken up; if the matches changed,
    /// the lines are to be made anew.
    UpdateNonFsItems,
    /// The panel is to be shown anew.
    Repaint,
}

/// Excerpts whose symbols are out of date.
#[derive(Debug)]
pub enum Outdated {
    Keys(VecSet<ExcerptKey>),
    Buffer(BufferId),
    All,
}

/// Whether the symbols of an excerpt are out of date.
pub open spec fn outdated(which: Outdated, key: ExcerptKey) -> bool {
    match which {
        Outdated::Keys(keys) => keys@.contains(key),
        Outdated::Buffer(buffer_id) => key.buffer_id == buffer_id,
        Outdated::All => true,
    }
}

/// Marks the symbols of some excerpts as out of date.
pub open spec fn with_outdated(items: Map<ExcerptKey, Excerpt>, which: Outdated) -> Map<
    ExcerptKey,
    Excerpt,
> {
    items.map_entries(
        |key: ExcerptKey, excerpt: Excerpt|
            if outdated(which, key) {
                excerpt.invalidated()
            } else {
                excerpt
            },
    )
}

/// Whether some excerpts are one of each id, where there is any with the id.
pub open spec fn one_of_each(
    items: Map<ExcerptKey, Excerpt>,
    ids: Set<ExcerptId>,
    chosen: Set<ExcerptKey>,
) -> bool {
    &&& forall|key: ExcerptKey| #[trigger]
        chosen.contains(key) ==> items.contains_key(key) && ids.contains(key.excerpt_id)
    &&& forall|a: ExcerptKey, b: ExcerptKey| #[trigger]
        chosen.contains(a) && #[trigger] chosen.contains(b) && a.excerpt_id == b.excerpt_id ==> a
            == b
    &&& forall|key: ExcerptKey| #[trigger]
        items.contains_key(key) && ids.contains(key.excerpt_id) ==> exists|other: ExcerptKey|
            other.excerpt_id == key.excerpt_id && #[trigger] chosen.contains(other)
}

/// Marks the symbols of some excerpts as out of date.
pub open spec fn with_chosen_outdated(
    items: Map<ExcerptKey, Excerpt>,
    chosen: Set<ExcerptKey>,
) -> Map<ExcerptKey, Excerpt> {
    items.map_entries(
        |key: ExcerptKey, excerpt: Excerpt|
            if chosen.contains(key) {
                excerpt.invalidated()
            } else {
                excerpt
            },
    )
}

/// Whether the symbols of excerpts with some ids were marked as out of date: of each id
/// one excerpt, where there is any, and nothing else.
pub open spec fn ids_outdated(
    before: Map<ExcerptKey, Excerpt>,
    after: Map<ExcerptKey, Excerpt>,
    ids: Set<ExcerptId>,
) -> bool {
    exists|chosen: Set<ExcerptKey>| #[trigger]
        one_of_each(before, ids, chosen) && after == with_chosen_outdated(before, chosen)
}

/// Whether an excerpt has been left out.
pub open spec fn left_out(
    before: Map<ExcerptKey, Excerpt>,
    after: Map<ExcerptKey, Excerpt>,
    key: ExcerptKey,
) -> bool {
    before.contains_key(key) && !after.contains_key(key)
}

/// Excerpts with some ids have been left out: of each id one, where there is any,
/// and nothing else.
pub open spec fn without_ids(
    before: Map<ExcerptKey, Excerpt>,
    after: Map<ExcerptKey, Excerpt>,
    ids: Set<ExcerptId>,
) -> bool {
    &&& after.submap_of(before)
    &&& forall|key: ExcerptKey| #[trigger]
        left_out(before, after, key) ==> ids.contains(key.excerpt_id)
    &&& forall|a: ExcerptKey, b: ExcerptKey| #[trigger]
        left_out(before, after, a) && #[trigger] left_out(before, after, b) && a.excerpt_id
            == b.excerpt_id ==> a == b
    &&& forall|key: ExcerptKey| #[trigger]
        before.contains_key(key) && ids.contains(key.excerpt_id) ==> exists|gone: ExcerptKey|
            gone.excerpt_id == key.excerpt_id && #[trigger] left_out(before, after, gone)
}

impl Excerpts {
    /// Marks the symbols of some excerpts as out of date.
    pub fn invalidate(&mut self, which: &Outdated)
        requires
            old(self).items.wf(),
        ensures
            final(self).items.wf(),
            final(self).buffers == old(self).buffers,
            final(self).items@ == with_outdated(old(self).items@, *which),
    {
        let keys = self.items.keys();
        let ghost before = self.items@;
        let mut i: usize = 0;
        while i < keys.len()
            invariant
                i <= keys@.len(),
                self.items.wf(),
                self.buffers == old(self).buffers,
                keys@.no_duplicates(),
                forall|key: ExcerptKey| #[trigger]
                    keys@.contains(key) == before.contains_key(key),
                forall|key: ExcerptKey| #[trigger]
                    self.items@.contains_key(key) == before.contains_key(key),
                forall|key: ExcerptKey| #[trigger]
                    self.items@.contains_key(key) ==> self.items@[key] == (if keys@.take(
                        i as int,
                    ).contains(key) && outdated(*which, key) {
                        before[key].invalidated()
                    } else {
                        before[key]
                    }),
            decreases keys.len() - i,
        {
            let key = keys[i];
            let ghost now = self.items@;
            proof {
                assert(keys@.contains(key));
                if keys@.take(i as int).contains(key) {
                    let a: int = choose|a: int|
                        0 <= a < i && keys@.take(i as int)[a] == key;
                    assert(keys@[a] == keys@[i as int]);
                }
            }
            let is_outdated: bool = match which {
                Outdated::Keys(keys) => keys.contains(&key),
                Outdated::Buffer(buffer_id) => key.buffer_id == *buffer_id,
                Outdated::All => true,
            };
            if is_outdated {
                match self.items.remove(&key) {
                    Some(excerpt) => {
                        let mut excerpt = excerpt;
                        excerpt.invalidate_outlines();
                        let _ = self.items.insert(key, excerpt);
                    },
                    None => {},
                }
            }
            proof {
                let here = keys@.take(i as int);
                let next = keys@.take(i + 1);
                assert forall|k: ExcerptKey| next.contains(k) == (here.contains(k) || k == key) by {
                    if here.contains(k) {
                        let a: int = choose|a: int| 0 <= a < here.len() && here[a] == k;
                        assert(next[a] == k);
                    }
                    if k == key {
                        assert(next[i as int] == k);
                    }
                    if next.contains(k) && k != key {
                        let a: int = choose|a: int| 0 <= a < next.len() && next[a] == k;
                        assert(here[a] == k);
                    }
                }
                assert forall|k: ExcerptKey| #[trigger]
                    self.items@.contains_key(k) implies self.items@[k] == (if next.contains(k)
                    && outdated(*which, k) {
                    before[k].invalidated()
                } else {
                    before[k]
                }) by {
                    assert(now.contains_key(k));
                }
            }
            i = i + 1;
        }
        assert(keys@.take(i as int) =~= keys@);
        assert(self.items@ =~= with_outdated(before, *which));
    }

    /// Leaves out excerpts. Of two excerpts with one id, only one is left out.
    pub fn remove_ids(&mut self, ids: &VecSet<ExcerptId>)
        requires
            old(self).items.wf(),
        ensures
            final(self).items.wf(),
            final(self).buffers == old(self).buffers,
            without_ids(old(self).items@, final(self).items@, ids@),
    {
        let keys = self.items.keys();
        let ghost before = self.items@;
        let mut pending: VecSet<ExcerptId> = ids.copy();
        let mut i: usize = 0;
        assert forall|j: int| 0 <= j < keys@.len() implies self.items@.contains_key(
            #[trigger] keys@[j],
        ) by {
            assert(keys@.contains(keys@[j]));
        }
        while i < keys.len()
            invariant
                i <= keys@.len(),
                self.items.wf(),
                self.buffers == old(self).buffers,
                keys@.no_duplicates(),
                forall|key: ExcerptKey| #[trigger]
                    keys@.contains(key) == before.contains_key(key),
                self.items@.submap_of(before),
                pending@.subset_of(ids@),
                forall|j: int|
                    i <= j < keys@.len() ==> self.items@.contains_key(#[trigger] keys@[j]),
                forall|j: int|
                    0 <= j < i ==> !pending@.contains((#[trigger] keys@[j]).excerpt_id),
                forall|key: ExcerptKey| #[trigger]
                    left_out(before, self.items@, key) ==> ids@.contains(key.excerpt_id)
                        && !pending@.contains(key.excerpt_id),
                forall|a: ExcerptKey, b: ExcerptKey| #[trigger]
                    left_out(before, self.items@, a) && #[trigger] left_out(before, self.items@, b)
                        && a.excerpt_id == b.excerpt_id ==> a == b,
                forall|id: ExcerptId| #[trigger]
                    ids@.contains(id) && !pending@.contains(id) ==> exists|gone: ExcerptKey|
                        gone.excerpt_id == id && #[trigger] left_out(before, self.items@, gone),
            decreases keys.len() - i,
        {
            let key = keys[i];
            let ghost now = self.items@;
            let ghost waiting = pending@;
            if pending.remove(&key.excerpt_id) {
                let _ = self.items.remove(&key);
            }
            proof {
                assert(keys@.contains(key));
                assert forall|k: ExcerptKey| #[trigger] left_out(before, self.items@, k) implies (
                left_out(before, now, k) || k == key) by {}
                assert forall|k: ExcerptKey| left_out(before, now, k) implies #[trigger] left_out(
                    before,
                    self.items@,
                    k,
                ) by {}
                assert forall|id: ExcerptId| #[trigger]
                    ids@.contains(id) && !pending@.contains(id) implies exists|gone: ExcerptKey|
                    gone.excerpt_id == id && #[trigger] left_out(before, self.items@, gone) by {
                    if !waiting.contains(id) {
                        let gone = choose|gone: ExcerptKey|
                            gone.excerpt_id == id && #[trigger] left_out(before, now, gone);
                        assert(left_out(before, self.items@, gone));
                    } else {
                        assert(left_out(before, self.items@, key));
                    }
                }
            }
            i = i + 1;
        }
        proof {
            assert forall|key: ExcerptKey| #[trigger]
                before.contains_key(key) && ids@.contains(key.excerpt_id) implies exists|
                gone: ExcerptKey,
            |
                gone.excerpt_id == key.excerpt_id && #[trigger] left_out(
                    before,
                    self.items@,
                    gone,
                ) by {
                assert(keys@.contains(key));
                let a: int = choose|a: int| 0 <= a < keys@.len() && keys@[a] == key;
                assert(!pending@.contains(keys@[a].excerpt_id));
            }
        }
    }

    /// One excerpt of each id, where there is any.
    fn choose_by_id(&self, ids: &VecSet<ExcerptId>) -> (r: VecSet<ExcerptKey>)
        requires
            self.items.wf(),
        ensures
            one_of_each(self.items@, ids@, r@),
    {
        let keys = self.items.keys();
        let mut pending: VecSet<ExcerptId> = ids.copy();
        let mut chosen: VecSet<ExcerptKey> = VecSet::new();
        let mut i: usize = 0;
        while i < keys.len()
            invariant
                i <= keys@.len(),
                forall|key: ExcerptKey| #[trigger]
                    keys@.contains(key) == self.items@.contains_key(key),
                pending@.subset_of(ids@),
                forall|j: int|
                    0 <= j < i ==> !pending@.contains((#[trigger] keys@[j]).excerpt_id),
                forall|key: ExcerptKey| #[trigger]
                    chosen@.contains(key) ==> self.items@.contains_key(key) && ids@.contains(
                        key.excerpt_id,
                    ) && !pending@.contains(key.excerpt_id),
                forall|a: ExcerptKey, b: ExcerptKey| #[trigger]
                    chosen@.contains(a) && #[trigger] chosen@.contains(b) && a.excerpt_id
                        == b.excerpt_id ==> a == b,
                forall|id: ExcerptId| #[trigger]
                    ids@.contains(id) && !pending@.contains(id) ==> exists|other: ExcerptKey|
                        other.excerpt_id == id && #[trigger] chosen@.contains(other),
            decreases keys.len() - i,
        {
            let key = keys[i];
            let ghost waiting = pending@;
            let ghost before = chosen@;
            assert(keys@.contains(key));
            if pending.remove(&key.excerpt_id) {
                let _ = chosen.insert(key);
            }
            proof {
                assert forall|id: ExcerptId| #[trigger]
                    ids@.contains(id) && !pending@.contains(id) implies exists|other: ExcerptKey|
                    other.excerpt_id == id && #[trigger] chosen@.contains(other) by {
                    if !waiting.contains(id) {
                        let other = choose|other: ExcerptKey|
                            other.excerpt_id == id && #[trigger] before.contains(other);
                        assert(chosen@.contains(other));
                    } else {
                        assert(chosen@.contains(key));
                    }
                }
            }
            i = i + 1;
        }
        proof {
            assert forall|key: ExcerptKey| #[trigger]
                self.items@.contains_key(key) && ids@.contains(key.excerpt_id) implies exists|
                other: ExcerptKey,
            |
                other.excerpt_id == key.excerpt_id && #[trigger] chosen@.contains(other) by {
                assert(keys@.contains(key));
                let a: int = choose|a: int| 0 <= a < keys@.len() && keys@[a] == key;
                assert(!pending@.contains(keys@[a].excerpt_id));
            }
        }
        chosen
    }

    fn owner(&self, id: ExcerptId) -> (r: Option<BufferId>)
        requires
            self.items.wf(),
        ensures
            is_owner(self.items@, id, r),
    {
        let keys = self.items.keys();
        let mut i: usize = 0;
        while i < keys.len()
            invariant
                i <= keys@.len(),
                forall|key: ExcerptKey| #[trigger]
                    keys@.contains(key) == self.items@.contains_key(key),
                forall|j: int| 0 <= j < i ==> (#[trigger] keys@[j]).excerpt_id != id,
            decreases keys.len() - i,
        {
            if keys[i].excerpt_id == id {
                assert(keys@.contains(keys@[i as int]));
                assert(keys@[i as int] == (ExcerptKey {
                    buffer_id: keys@[i as int].buffer_id,
                    excerpt_id: id,
                }));
                return Some(keys[i].buffer_id);
            }
            i = i + 1;
        }
        assert forall|b: BufferId| !#[trigger] self.items@.contains_key(
            ExcerptKey { buffer_id: b, excerpt_id: id },
        ) by {
            let key = ExcerptKey { buffer_id: b, excerpt_id: id };
            if self.items@.contains_key(key) {
                assert(keys@.contains(key));
                let a: int = choose|a: int| 0 <= a < keys@.len() && keys@[a] == key;
                assert(keys@[a].excerpt_id != id);
            }
        }
        None
    }
}

/// Whether a buffer is one that an excerpt belongs to.
pub open spec fn is_owner(
    items: Map<ExcerptKey, Excerpt>,
    id: ExcerptId,
    owner: Option<BufferId>,
) -> bool {
    match owner {
        Some(buffer_id) => items.contains_key(ExcerptKey { buffer_id, excerpt_id: id }),
        None => forall|b: BufferId|
            !#[trigger] items.contains_key(ExcerptKey { buffer_id: b, excerpt_id: id }),
    }
}

/// What folding and unfolding buffers leads to.
#[verifier::ext_equal]
pub struct FoldToggles {
    pub preserved: Set<BufferId>,
    pub new_entries: Set<ExcerptId>,
    pub unfolded: Option<BufferId>,
    pub folded: Option<BufferId>,
    pub ignore_selection: bool,
}

/// Takes up the excerpts whose buffers were folded or unfolded. Those that are
/// shown now are new. Where the panel itself folded one of the buffers, the
/// selection stays.
pub open spec fn fold_toggled(
    start: FoldToggles,
    folded_buffers: Set<BufferId>,
    ids: Seq<ExcerptId>,
    owners: Seq<Option<BufferId>>,
) -> FoldToggles
    decreases ids.len(),
{
    if ids.len() == 0 {
        start
    } else {
        let state = fold_toggled(start, folded_buffers, ids.drop_last(), owners);
        let id = ids.last();
        match owners[ids.len() - 1] {
            Some(buffer_id) => {
                let is_folded = folded_buffers.contains(buffer_id);
                FoldToggles {
                    preserved: state.preserved.remove(buffer_id),
                    new_entries: if is_folded {
                        state.new_entries
                    } else {
                        state.new_entries.insert(id)
                    },
                    unfolded: if is_folded {
                        state.unfolded
                    } else {
                        Some(buffer_id)
                    },
                    folded: if is_folded {
                        Some(buffer_id)
                    } else {
                        state.folded
                    },
                    ignore_selection: state.ignore_selection || state.preserved.contains(
                        buffer_id,
                    ),
                }
            },
            None => FoldToggles { new_entries: state.new_entries.insert(id), ..state },
        }
    }
}

/// The panel after buffers were folded or unfolded.
pub open spec fn after_fold_toggles(
    before: OutlinePanel,
    after: OutlinePanel,
    folded_buffers: Set<BufferId>,
    ids: Seq<ExcerptId>,
    owners: Seq<Option<BufferId>>,
) -> bool {
    let toggles = fold_toggled(
        FoldToggles {
            preserved: before.preserve_selection_on_buffer_fold_toggles@,
            new_entries: before.new_entries_for_fs_update@,
            unfolded: None,
            folded: None,
            ignore_selection: false,
        },
        folded_buffers,
        ids,
        owners,
    );
    let buffer = match toggles.unfolded {
        Some(id) => Some(id),
        None => toggles.folded,
    };
    let entry = match buffer {
        Some(id) => if toggles.ignore_selection {
            None
        } else {
            file_entry(before.fs_entries@, id)
        },
        None => None,
    };
    &&& owners.len() == ids.len()
    &&& forall|i: int|
        0 <= i < ids.len() ==> is_owner(
            before.excerpts.items@,
            #[trigger] ids[i],
            owners[i],
        )
    &&& ids_outdated(before.excerpts.items@, after.excerpts.items@, item_set(ids))
    &&& after.excerpts.buffers == before.excerpts.buffers
    &&& after.outline_fetches@ == Map::<ExcerptKey, u64>::empty()
    &&& after.preserve_selection_on_buffer_fold_toggles@ == toggles.preserved
    &&& after.new_entries_for_fs_update@ == toggles.new_entries
    &&& after.selected_entry == (match entry {
        Some(entry) => with_selected(before, PanelEntry::Fs(entry)).selected_entry,
        None => before.selected_entry,
    })
    &&& after == (OutlinePanel {
        excerpts: after.excerpts,
        outline_fetches: after.outline_fetches,
        preserve_selection_on_buffer_fold_toggles: after.preserve_selection_on_buffer_fold_toggles,
        new_entries_for_fs_update: after.new_entries_for_fs_update,
        selected_entry: after.selected_entry,
        ..before
    })
}

/// Panels that differ at most in the excerpts.
pub open spec fn same_but_excerpts(a: OutlinePanel, b: OutlinePanel) -> bool {
    a == (OutlinePanel { excerpts: a.excerpts, ..b }) && a.excerpts.buffers == b.excerpts.buffers
}

/// Whether the symbols of excerpts with some ids were marked as out of date, and all
/// requests for symbols given up.
pub open spec fn outlines_invalidated(
    before: OutlinePanel,
    after: OutlinePanel,
    ids: Set<ExcerptId>,
) -> bool {
    &&& ids_outdated(before.excerpts.items@, after.excerpts.items@, ids)
    &&& after.excerpts.buffers == before.excerpts.buffers
    &&& after.outline_fetches@ == Map::<ExcerptKey, u64>::empty()
    &&& after == (OutlinePanel {
        excerpts: after.excerpts,
        outline_fetches: after.outline_fetches,
        ..before
    })
}

/// What an event leads to.
pub open spec fn handled(
    before: OutlinePanel,
    after: OutlinePanel,
    folded_buffers: Set<BufferId>,
    event: EditorEvent,
    step: NextStep,
) -> bool {
    if !before.active {
        after == before && step == NextStep::Nothing
    } else {
        match event {
            EditorEvent::SelectionsChanged { local } => after == before && step == (if local {
                NextStep::RevealSelection
            } else {
                NextStep::Nothing
            }),
            EditorEvent::ExcerptsAdded(ids) => {
                &&& step == NextStep::UpdateFsEntries
                &&& after.new_entries_for_fs_update@ == before.new_entries_for_fs_update@.union(
                    item_set(ids@),
                )
                &&& after == (OutlinePanel {
                    new_entries_for_fs_update: after.new_entries_for_fs_update,
                    ..before
                })
            },
            EditorEvent::ExcerptsRemoved(ids) => {
                &&& step == NextStep::UpdateFsEntries
                &&& same_but_excerpts(after, before)
                &&& without_ids(
                    before.excerpts.items@,
                    after.excerpts.items@,
                    item_set(ids@),
                )
            },
            EditorEvent::ExcerptsExpanded(ids) => {
                &&& step == NextStep::UpdateNonFsItems
                &&& outlines_invalidated(before, after, item_set(ids@))
            },
            EditorEvent::ExcerptsEdited(ids) => {
                &&& step == NextStep::UpdateNonFsItems
                &&& outlines_invalidated(before, after, item_set(ids@))
            },
            EditorEvent::BufferFoldToggled(ids) => {
                &&& step == NextStep::UpdateFsEntries
                &&& exists|owners: Seq<Option<BufferId>>| #[trigger]
                    after_fold_toggles(before, after, folded_buffers, ids@, owners)
            },
            EditorEvent::Reparsed(buffer_id) => {
                &&& step == NextStep::UpdateNonFsItems
                &&& same_but_excerpts(after, before)
                &&& after.excerpts.items@ == with_outdated(
                    before.excerpts.items@,
                    Outdated::Buffer(buffer_id),
                )
            },
            EditorEvent::Other => after == before && step == NextStep::Nothing,
        }
    }
}

impl OutlinePanel {
    /// Marks the symbols of excerpts as out of date, of each id those of one excerpt, and
    /// gives up all requests for symbols.
    pub fn invalidate_outlines(&mut self, ids: &Vec<ExcerptId>)
        requires
            old(self).wf(),
        ensures
            final(self).wf(),
            outlines_invalidated(*old(self), *final(self), item_set(ids@)),
    {
        self.outline_fetches.clear();
        let chosen = self.excerpts.choose_by_id(&VecSet::from_items(ids));
        let ghost keys = chosen@;
        self.excerpts.invalidate(&Outdated::Keys(chosen));
        assert(one_of_each(old(self).excerpts.items@, item_set(ids@), keys));
        assert(self.excerpts.items@ =~= with_chosen_outdated(old(self).excerpts.items@, keys));
    }

    /// Takes up that the settings have changed. With a new theme the symbols of all
    /// excerpts are out of date, as they hold its colors.
    pub fn on_settings_changed(&mut self, theme_changed: bool, panel_changed: bool) -> (r: NextStep)
        requires
            old(self).wf(),
        ensures
            final(self).wf(),
            if theme_changed {
                &&& r == NextStep::UpdateNonFsItems
                &&& same_but_excerpts(*final(self), *old(self))
                &&& final(self).excerpts.items@ == with_outdated(
                    old(self).excerpts.items@,
                    Outdated::All,
                )
            } else {
                &&& *final(self) == *old(self)
                &&& r == (if panel_changed {
                    NextStep::Repaint
                } else {
                    NextStep::Nothing
                })
            },
    {
        if theme_changed {
            self.excerpts.invalidate(&Outdated::All);
            NextStep::UpdateNonFsItems
        } else if panel_changed {
            NextStep::Repaint
        } else {
            NextStep::Nothing
        }
    }

    fn toggle_folds(&mut self, folded_buffers: &VecSet<BufferId>, ids: &Vec<ExcerptId>)
        requires
            old(self).wf(),
        ensures
            final(self).wf(),
            exists|owners: Seq<Option<BufferId>>| #[trigger]
                after_fold_toggles(*old(self), *final(self), folded_buffers@, ids@, owners),
    {
        let ghost before = *self;
        let mut owners: Vec<Option<BufferId>> = Vec::new();
        let mut k: usize = 0;
        while k < ids.len()
            invariant
                k <= ids@.len(),
                *self == before,
                before.wf(),
                owners@.len() == k,
                forall|i: int|
                    0 <= i < k ==> is_owner(
                        before.excerpts.items@,
                        #[trigger] ids@[i],
                        owners@[i],
                    ),
            decreases ids.len() - k,
        {
            let owner = self.excerpts.owner(ids[k]);
            owners.push(owner);
            k = k + 1;
        }
        self.invalidate_outlines(ids);
        let mut preserved: VecSet<BufferId> =
            self.preserve_selection_on_buffer_fold_toggles.copy();
        let mut new_entries: VecSet<ExcerptId> = self.new_entries_for_fs_update.copy();
        let mut unfolded: Option<BufferId> = None;
        let mut folded: Option<BufferId> = None;
        let mut ignore_selection: bool = false;
        let mut i: usize = 0;
        let ghost start = FoldToggles {
            preserved: before.preserve_selection_on_buffer_fold_toggles@,
            new_entries: before.new_entries_for_fs_update@,
            unfolded: None,
            folded: None,
            ignore_selection: false,
        };
        assert(ids@.take(0) =~= Seq::empty());
        while i < ids.len()
            invariant
                i <= ids@.len(),
                owners@.len() == ids@.len(),
                (FoldToggles {
                    preserved: preserved@,
                    new_entries: new_entries@,
                    unfolded,
                    folded,
                    ignore_selection,
                }) == fold_toggled(start, folded_buffers@, ids@.take(i as int), owners@),
            decreases ids.len() - i,
        {
            proof {
                let next = ids@.take(i + 1);
                assert(next.drop_last() =~= ids@.take(i as int));
                assert(next.last() == ids@[i as int]);
            }
            match owners[i] {
                Some(buffer_id) => {
                    if preserved.remove(&buffer_id) {
                        ignore_selection = true;
                    }
                    if folded_buffers.contains(&buffer_id) {
                        folded = Some(buffer_id);
                    } else {
                        unfolded = Some(buffer_id);
                        let _ = new_entries.insert(ids[i]);
                    }
                },
                None => {
                    let _ = new_entries.insert(ids[i]);
                },
            }
            i = i + 1;
        }
        assert(ids@.take(i as int) =~= ids@);
        self.preserve_selection_on_buffer_fold_toggles = preserved;
        self.new_entries_for_fs_update = new_entries;
        let buffer: Option<BufferId> = match unfolded {
            Some(id) => Some(id),
            None => folded,
        };
        if let Some(id) = buffer {
            if !ignore_selection {
                if let Some(entry) = self.find_file_entry(id) {
                    self.select_entry(PanelEntry::Fs(entry));
                }
            }
        }
        assert(after_fold_toggles(before, *self, folded_buffers@, ids@, owners@));
    }

    /// Takes up what the editor tells of. Returns what is to be done next.
    pub fn on_editor_event(&mut self, folded_buffers: &VecSet<BufferId>, event: &EditorEvent) -> (r:
        NextStep)
        requires
            old(self).wf(),
        ensures
            final(self).wf(),
            handled(*old(self), *final(self), folded_buffers@, *event, r),
    {
        if !self.active {
            return NextStep::Nothing;
        }
        match event {
            EditorEvent::SelectionsChanged { local } => if *local {
                NextStep::RevealSelection
            } else {
                NextStep::Nothing
            },
            EditorEvent::ExcerptsAdded(ids) => {
                self.new_entries_for_fs_update.extend(ids);
                NextStep::UpdateFsEntries
            },
            EditorEvent::ExcerptsRemoved(ids) => {
                self.excerpts.remove_ids(&VecSet::from_items(ids));
                NextStep::UpdateFsEntries
            },
            EditorEvent::ExcerptsExpanded(ids) => {
                self.invalidate_outlines(ids);
                NextStep::UpdateNonFsItems
            },
            EditorEvent::ExcerptsEdited(ids) => {
                self.invalidate_outlines(ids);
                NextStep::UpdateNonFsItems
            },
            EditorEvent::BufferFoldToggled(ids) => {
                self.toggle_folds(folded_buffers, ids);
                NextStep::UpdateFsEntries
            },
            EditorEvent::Reparsed(buffer_id) => {
                self.excerpts.invalidate(&Outdated::Buffer(*buffer_id));
                NextStep::UpdateNonFsItems
            },
            EditorEvent::Other => NextStep::Nothing,
        }
    }
}

/// An answer to a request for symbols that was made before symbols went out of date is not
/// taken.
pub proof fn law_given_up_requests_are_not_answered(
    before: OutlinePanel,
    after: OutlinePanel,
    ids: Set<ExcerptId>,
    key: ExcerptKey,
    number: u64,
)
    requires
        outlines_invalidated(before, after, ids),
    ensures
        !awaits(after.outline_fetches@, key, number),
{
}

} // verus!
