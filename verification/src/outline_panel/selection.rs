//! The selected line and how it moves.

use vstd::prelude::*;
use crate::outline_panel::entries::{
    contains_id, law_same_panel_entry, same_panel_entry, CachedEntry, FsEntry, OutlineEntry,
    PanelEntry, SelectedEntry, WorktreeId,
};
use crate::outline_panel::panel::OutlinePanel;
use crate::path::{is_parent, RelPath};

verus! {

/// The first line that stands for the same thing as another.
pub open spec fn first_line(entries: Seq<CachedEntry>, entry: PanelEntry) -> Option<int>
    decreases entries.len(),
{
    if entries.len() == 0 {
        None
    } else {
        match first_line(entries.drop_last(), entry) {
            Some(i) => Some(i),
            None => if same_panel_entry(entries.last().entry, entry) {
                Some(entries.len() - 1)
            } else {
                None
            },
        }
    }
}

/// The last line that stands for the same thing as another.
pub open spec fn last_line(entries: Seq<CachedEntry>, entry: PanelEntry) -> Option<int>
    decreases entries.len(),
{
    if entries.len() == 0 {
        None
    } else if same_panel_entry(entries.last().entry, entry) {
        Some(entries.len() - 1)
    } else {
        last_line(entries.drop_last(), entry)
    }
}

/// The panel with a line selected.
pub open spec fn with_selected(panel: OutlinePanel, entry: PanelEntry) -> OutlinePanel {
    OutlinePanel {
        selected_entry: SelectedEntry::Valid(
            entry,
            match first_line(panel.cached_entries@, entry) {
                Some(i) => i as usize,
                None => 0,
            },
        ),
        ..panel
    }
}

/// The panel with a line selected, if there is one.
pub open spec fn with_selection(panel: OutlinePanel, entry: Option<PanelEntry>) -> OutlinePanel {
    match entry {
        Some(entry) => with_selected(panel, entry),
        None => panel,
    }
}

/// The first line.
pub open spec fn top_line(panel: OutlinePanel) -> Option<PanelEntry> {
    if panel.cached_entries@.len() > 0 {
        Some(panel.cached_entries@.first().entry)
    } else {
        None
    }
}

/// The last line.
pub open spec fn bottom_line(panel: OutlinePanel) -> Option<PanelEntry> {
    if panel.cached_entries@.len() > 0 {
        Some(panel.cached_entries@.last().entry)
    } else {
        None
    }
}

/// The line below the selected one.
pub open spec fn line_below(panel: OutlinePanel) -> Option<PanelEntry> {
    match panel.selected_entry.entry() {
        Some(selected) => match first_line(panel.cached_entries@, selected) {
            Some(i) => if i + 1 < panel.cached_entries@.len() {
                Some(panel.cached_entries@[i + 1].entry)
            } else {
                None
            },
            None => None,
        },
        None => None,
    }
}

/// The line above the selected one.
pub open spec fn line_above(panel: OutlinePanel) -> Option<PanelEntry> {
    match panel.selected_entry.entry() {
        Some(selected) => match last_line(panel.cached_entries@, selected) {
            Some(i) => if i > 0 {
                Some(panel.cached_entries@[i - 1].entry)
            } else {
                None
            },
            None => None,
        },
        None => None,
    }
}

/// Whether a line is the directory that an entry lies in, or ends with it.
pub open spec fn directory_line(
    line: PanelEntry,
    worktree_id: WorktreeId,
    path: Seq<Seq<char>>,
) -> bool {
    match line {
        PanelEntry::Fs(FsEntry::Directory(directory)) => directory.worktree_id == worktree_id
            && is_parent(directory.entry.path@, path),
        PanelEntry::FoldedDirs(dirs) => dirs.worktree_id == worktree_id && dirs.entries@.len() > 0
            && is_parent(dirs.entries@.last().path@, path),
        _ => false,
    }
}

/// Whether a line is what a line lies in.
pub open spec fn parent_line(line: PanelEntry, of: PanelEntry) -> bool {
    match of {
        PanelEntry::Fs(FsEntry::ExternalFile(_)) => false,
        PanelEntry::Fs(FsEntry::File(file)) => directory_line(
            line,
            file.worktree_id,
            file.entry.path@,
        ),
        PanelEntry::Fs(FsEntry::Directory(directory)) => directory_line(
            line,
            directory.worktree_id,
            directory.entry.path@,
        ),
        PanelEntry::FoldedDirs(dirs) => match line {
            PanelEntry::Fs(FsEntry::Directory(directory)) => dirs.entries@.len() > 0
                && directory.worktree_id == dirs.worktree_id && is_parent(
                directory.entry.path@,
                dirs.entries@.first().path@,
            ),
            _ => false,
        },
        PanelEntry::Outline(OutlineEntry::Excerpt(excerpt)) => match line {
            PanelEntry::Fs(file) => file.buffer() == Some(excerpt.buffer_id)
                && file.shown_excerpts().contains(excerpt.id),
            _ => false,
        },
        PanelEntry::Outline(OutlineEntry::Outline(outline)) => match line {
            PanelEntry::Outline(OutlineEntry::Excerpt(excerpt)) => outline.buffer_id
                == excerpt.buffer_id && outline.excerpt_id == excerpt.id,
            _ => false,
        },
        PanelEntry::Search(_) => !(line is Search),
    }
}

/// The last of some lines that a line lies in.
pub open spec fn nearest_parent(entries: Seq<CachedEntry>, of: PanelEntry) -> Option<PanelEntry>
    decreases entries.len(),
{
    if entries.len() == 0 {
        None
    } else if parent_line(entries.last().entry, of) {
        Some(entries.last().entry)
    } else {
        nearest_parent(entries.drop_last(), of)
    }
}

/// The line that the selected one lies in.
pub open spec fn line_around(panel: OutlinePanel) -> Option<PanelEntry> {
    match panel.selected_entry.entry() {
        Some(selected) => match last_line(panel.cached_entries@, selected) {
            Some(i) => nearest_parent(panel.cached_entries@.take(i), selected),
            None => None,
        },
        None => None,
    }
}

/// One line, or else another.
pub open spec fn or_line(a: Option<PanelEntry>, b: Option<PanelEntry>) -> Option<PanelEntry> {
    match a {
        Some(entry) => Some(entry),
        None => b,
    }
}

proof fn lemma_first_line(entries: Seq<CachedEntry>, entry: PanelEntry)
    ensures
        match first_line(entries, entry) {
            Some(i) => 0 <= i < entries.len() && same_panel_entry(entries[i].entry, entry)
                && forall|j: int|
                0 <= j < i ==> !same_panel_entry((#[trigger] entries[j]).entry, entry),
            None => forall|j: int|
                0 <= j < entries.len() ==> !same_panel_entry((#[trigger] entries[j]).entry, entry),
        },
    decreases entries.len(),
{
    if entries.len() > 0 {
        let rest = entries.drop_last();
        lemma_first_line(rest, entry);
        match first_line(rest, entry) {
            Some(i) => {
                assert(rest[i] == entries[i]);
                assert forall|j: int| 0 <= j < i implies !same_panel_entry(
                    (#[trigger] entries[j]).entry,
                    entry,
                ) by {
                    assert(rest[j] == entries[j]);
                }
            },
            None => {
                assert forall|j: int| 0 <= j < rest.len() implies !same_panel_entry(
                    (#[trigger] entries[j]).entry,
                    entry,
                ) by {
                    assert(rest[j] == entries[j]);
                }
            },
        }
    }
}

proof fn lemma_last_line(entries: Seq<CachedEntry>, entry: PanelEntry)
    ensures
        match last_line(entries, entry) {
            Some(i) => 0 <= i < entries.len() && same_panel_entry(entries[i].entry, entry)
                && forall|j: int|
                i < j < entries.len() ==> !same_panel_entry((#[trigger] entries[j]).entry, entry),
            None => forall|j: int|
                0 <= j < entries.len() ==> !same_panel_entry((#[trigger] entries[j]).entry, entry),
        },
    decreases entries.len(),
{
    if entries.len() > 0 && !same_panel_entry(entries.last().entry, entry) {
        let rest = entries.drop_last();
        lemma_last_line(rest, entry);
        match last_line(rest, entry) {
            Some(i) => {
                assert(rest[i] == entries[i]);
                assert forall|j: int| i < j < entries.len() implies !same_panel_entry(
                    (#[trigger] entries[j]).entry,
                    entry,
                ) by {
                    if j < rest.len() {
                        assert(rest[j] == entries[j]);
                    }
                }
            },
            None => {
                assert forall|j: int| 0 <= j < entries.len() implies !same_panel_entry(
                    (#[trigger] entries[j]).entry,
                    entry,
                ) by {
                    if j < rest.len() {
                        assert(rest[j] == entries[j]);
                    }
                }
            },
        }
    }
}

fn is_directory_line(line: &PanelEntry, worktree_id: WorktreeId, path: &RelPath) -> (r: bool)
    ensures
        r == directory_line(*line, worktree_id, path@),
{
    match line {
        PanelEntry::Fs(FsEntry::Directory(directory)) => directory.worktree_id == worktree_id
            && directory.entry.path.is_parent_of(path),
        PanelEntry::FoldedDirs(dirs) => {
            let n: usize = dirs.entries.len();
            dirs.worktree_id == worktree_id && n > 0 && dirs.entries[n - 1].path.is_parent_of(path)
        },
        _ => false,
    }
}

fn is_parent_line(line: &PanelEntry, of: &PanelEntry) -> (r: bool)
    ensures
        r == parent_line(*line, *of),
{
    match of {
        PanelEntry::Fs(FsEntry::ExternalFile(_)) => false,
        PanelEntry::Fs(FsEntry::File(file)) => is_directory_line(
            line,
            file.worktree_id,
            &*file.entry.path,
        ),
        PanelEntry::Fs(FsEntry::Directory(directory)) => is_directory_line(
            line,
            directory.worktree_id,
            &*directory.entry.path,
        ),
        PanelEntry::FoldedDirs(dirs) => match line {
            PanelEntry::Fs(FsEntry::Directory(directory)) => dirs.entries.len() > 0
                && directory.worktree_id == dirs.worktree_id && directory.entry.path.is_parent_of(
                &*dirs.entries[0].path,
            ),
            _ => false,
        },
        PanelEntry::Outline(OutlineEntry::Excerpt(excerpt)) => match line {
            PanelEntry::Fs(FsEntry::ExternalFile(file)) => file.buffer_id == excerpt.buffer_id
                && contains_id(&file.excerpts, excerpt.id),
            PanelEntry::Fs(FsEntry::File(file)) => file.buffer_id == excerpt.buffer_id
                && contains_id(&file.excerpts, excerpt.id),
            _ => false,
        },
        PanelEntry::Outline(OutlineEntry::Outline(outline)) => match line {
            PanelEntry::Outline(OutlineEntry::Excerpt(excerpt)) => outline.buffer_id
                == excerpt.buffer_id && outline.excerpt_id == excerpt.id,
            _ => false,
        },
        PanelEntry::Search(_) => match line {
            PanelEntry::Search(_) => false,
            _ => true,
        },
    }
}

impl OutlinePanel {
    /// The first line that stands for the same thing as another.
    pub fn position_of(&self, entry: &PanelEntry) -> (r: Option<usize>)
        ensures
            match r {
                Some(i) => first_line(self.cached_entries@, *entry) == Some(i as int) && i
                    < self.cached_entries@.len(),
                None => first_line(self.cached_entries@, *entry) is None,
            },
    {
        let mut i: usize = 0;
        let ghost all = self.cached_entries@;
        proof {
            lemma_first_line(all, *entry);
        }
        while i < self.cached_entries.len()
            invariant
                i <= all.len(),
                all == self.cached_entries@,
                forall|j: int|
                    0 <= j < i ==> !same_panel_entry((#[trigger] all[j]).entry, *entry),
                match first_line(all, *entry) {
                    Some(i) => 0 <= i < all.len() && same_panel_entry(all[i].entry, *entry)
                        && forall|j: int|
                        0 <= j < i ==> !same_panel_entry((#[trigger] all[j]).entry, *entry),
                    None => forall|j: int|
                        0 <= j < all.len() ==> !same_panel_entry(
                            (#[trigger] all[j]).entry,
                            *entry,
                        ),
                },
            decreases self.cached_entries.len() - i,
        {
            if self.cached_entries[i].entry.same(entry) {
                assert(same_panel_entry(all[i as int].entry, *entry));
                return Some(i);
            }
            i = i + 1;
        }
        None
    }

    fn last_position_of(&self, entry: &PanelEntry) -> (r: Option<usize>)
        ensures
            match r {
                Some(i) => last_line(self.cached_entries@, *entry) == Some(i as int) && i
                    < self.cached_entries@.len(),
                None => last_line(self.cached_entries@, *entry) is None,
            },
    {
        let mut i: usize = self.cached_entries.len();
        let ghost all = self.cached_entries@;
        assert(all.take(i as int) =~= all);
        while i > 0
            invariant
                i <= all.len(),
                all == self.cached_entries@,
                last_line(all.take(i as int), *entry) == last_line(all, *entry),
            decreases i,
        {
            proof {
                let here = all.take(i as int);
                assert(here.drop_last() =~= all.take(i - 1));
                assert(here.last() == all[i - 1]);
            }
            if self.cached_entries[i - 1].entry.same(entry) {
                return Some(i - 1);
            }
            i = i - 1;
        }
        None
    }

    /// The selected line.
    pub fn selected_entry(&self) -> (r: Option<&PanelEntry>)
        ensures
            match r {
                Some(entry) => self.selected_entry.entry() == Some(*entry),
                None => self.selected_entry.entry() is None,
            },
    {
        self.selected_entry.get()
    }

    /// Selects a line.
    pub fn select_entry(&mut self, entry: PanelEntry)
        ensures
            *final(self) == with_selected(*old(self), entry),
    {
        let ix: usize = match self.position_of(&entry) {
            Some(i) => i,
            None => 0,
        };
        self.selected_entry = SelectedEntry::Valid(entry, ix);
    }

    /// The line to scroll to: the selected one.
    pub fn autoscroll(&self) -> (r: Option<usize>)
        ensures
            match self.selected_entry.entry() {
                Some(selected) => match first_line(self.cached_entries@, selected) {
                    Some(i) => r is Some && r->0 == i,
                    None => r is None,
                },
                None => r is None,
            },
    {
        match self.selected_entry() {
            Some(selected) => self.position_of(selected),
            None => None,
        }
    }

    /// Selects the first line.
    pub fn select_first(&mut self)
        ensures
            *final(self) == with_selection(*old(self), top_line(*old(self))),
    {
        if self.cached_entries.len() > 0 {
            let entry = self.cached_entries[0].entry.clone();
            self.select_entry(entry);
        }
    }

    /// Selects the last line.
    pub fn select_last(&mut self)
        ensures
            *final(self) == with_selection(*old(self), bottom_line(*old(self))),
    {
        let n: usize = self.cached_entries.len();
        if n > 0 {
            let entry = self.cached_entries[n - 1].entry.clone();
            self.select_entry(entry);
        }
    }

    /// Selects the line below the selected one, or else the first.
    pub fn select_next(&mut self)
        ensures
            *final(self) == with_selection(
                *old(self),
                or_line(line_below(*old(self)), top_line(*old(self))),
            ),
    {
        let next: Option<PanelEntry> = match self.selected_entry() {
            Some(selected) => match self.position_of(selected) {
                Some(i) => if i < self.cached_entries.len() - 1 {
                    Some(self.cached_entries[i + 1].entry.clone())
                } else {
                    None
                },
                None => None,
            },
            None => None,
        };
        match next {
            Some(entry) => self.select_entry(entry),
            None => self.select_first(),
        }
    }

    /// Selects the line above the selected one, or else the last.
    pub fn select_previous(&mut self)
        ensures
            *final(self) == with_selection(
                *old(self),
                or_line(line_above(*old(self)), bottom_line(*old(self))),
            ),
    {
        let previous: Option<PanelEntry> = match self.selected_entry() {
            Some(selected) => match self.last_position_of(selected) {
                Some(i) => if i > 0 {
                    Some(self.cached_entries[i - 1].entry.clone())
                } else {
                    None
                },
                None => None,
            },
            None => None,
        };
        match previous {
            Some(entry) => self.select_entry(entry),
            None => self.select_last(),
        }
    }

    fn find_parent(&self, of: &PanelEntry, upto: usize) -> (r: Option<PanelEntry>)
        requires
            upto <= self.cached_entries@.len(),
        ensures
            r == nearest_parent(self.cached_entries@.take(upto as int), *of),
    {
        let mut i: usize = upto;
        let ghost all = self.cached_entries@;
        while i > 0
            invariant
                i <= upto <= all.len(),
                all == self.cached_entries@,
                nearest_parent(all.take(i as int), *of) == nearest_parent(
                    all.take(upto as int),
                    *of,
                ),
            decreases i,
        {
            proof {
                let here = all.take(i as int);
                assert(here.drop_last() =~= all.take(i - 1));
                assert(here.last() == all[i - 1]);
            }
            let line = &self.cached_entries[i - 1].entry;
            if is_parent_line(line, of) {
                return Some(line.clone());
            }
            i = i - 1;
        }
        None
    }

    /// Selects the line that the selected one lies in, or else the first.
    pub fn select_parent(&mut self)
        ensures
            *final(self) == with_selection(
                *old(self),
                or_line(line_around(*old(self)), top_line(*old(self))),
            ),
    {
        let parent: Option<PanelEntry> = match self.selected_entry() {
            Some(selected) => match self.last_position_of(selected) {
                Some(i) => self.find_parent(selected, i),
                None => None,
            },
            None => None,
        };
        match parent {
            Some(entry) => self.select_entry(entry),
            None => self.select_first(),
        }
    }
}

/// Where a selected line is found again, its index is that of a line that stands
/// for the same thing.
pub proof fn law_selected_is_found(panel: OutlinePanel, entry: PanelEntry, i: int)
    requires
        0 <= i < panel.cached_entries@.len() <= usize::MAX,
        same_panel_entry(panel.cached_entries@[i].entry, entry),
    ensures
        match with_selected(panel, entry).selected_entry {
            SelectedEntry::Valid(selected, ix) => selected == entry && ix
                < panel.cached_entries@.len() && same_panel_entry(
                panel.cached_entries@[ix as int].entry,
                entry,
            ),
            _ => false,
        },
{
    lemma_first_line(panel.cached_entries@, entry);
}

/// Where no two lines stand for the same thing, going down and up again leads
/// back to the selected line, unless it is the last one.
pub proof fn law_next_then_previous(panel: OutlinePanel, i: int)
    requires
        0 <= i < panel.cached_entries@.len() - 1,
        forall|a: int, b: int|
            0 <= a < b < panel.cached_entries@.len() ==> !same_panel_entry(
                (#[trigger] panel.cached_entries@[a]).entry,
                (#[trigger] panel.cached_entries@[b]).entry,
            ),
        panel.selected_entry.entry() == Some(panel.cached_entries@[i].entry),
    ensures
        line_below(panel) == Some(panel.cached_entries@[i + 1].entry),
        line_above(with_selection(panel, line_below(panel))) == Some(
            panel.cached_entries@[i].entry,
        ),
{
    let all = panel.cached_entries@;
    let here = all[i].entry;
    let next = all[i + 1].entry;
    law_same_panel_entry(here, here);
    law_same_panel_entry(next, next);
    lemma_first_line(all, here);
    let f: int = first_line(all, here)->0;
    assert(first_line(all, here) is Some);
    if f < i {
        assert(!same_panel_entry(all[f].entry, all[i].entry));
    } else if f > i {
        assert(!same_panel_entry(all[i].entry, here));
    }
    lemma_last_line(all, next);
    assert(last_line(all, next) is Some);
    let l: int = last_line(all, next)->0;
    if l > i + 1 {
        law_same_panel_entry(all[i + 1].entry, all[l].entry);
        assert(!same_panel_entry(all[i + 1].entry, all[l].entry));
    } else if l < i + 1 {
        assert(!same_panel_entry(all[i + 1].entry, next));
    }
}

} // verus!
