//! What the panel draws, and where it lets the editor scroll.

use vstd::prelude::*;

use crate::collections::VecSet;
use crate::outline_panel::entries::{
    same_entries, same_fs_entry, same_outline, Anchor, AnchorRange, BufferId, CachedEntry, CollapsedEntry,
    ExcerptId, FsEntry, GitEntry, GitSummary, OutlineEntry, PanelEntry, ProjectEntryId,
    SelectedEntry, WorktreeId,
};

use crate::outline_panel::labels::{
    dir_names, dir_names_string, entry_name, entry_name_spec, excerpt_label, excerpt_label_spec,
};
use crate::outline_panel::panel::{ExcerptKey, ItemsDisplayMode, OutlinePanel, PanelEnv};
use crate::outline_panel::selection::with_selected;
use crate::path::{file_name, name_of, AnyPath, Component};
use crate::text::{copy_text, debug_text, format_debug, signed_decimal, signed_decimal_text};

verus! {

/// When a scrollbar is shown.
#[derive(Copy, Clone, Debug, PartialEq, Eq, Structural)]
pub enum ShowScrollbar {
    Auto,
    System,
    Always,
    Never,
}

/// Whether there is a scrollbar. The setting of the panel goes before that of the
/// editor.
pub fn should_show_scrollbar(panel: Option<ShowScrollbar>, editor: ShowScrollbar) -> (r: bool)
    ensures
        r == ((if panel is Some {
            panel->0
        } else {
            editor
        }) != ShowScrollbar::Never),
{
    let show = match panel {
        Some(show) => show,
        None => editor,
    };
    match show {
        ShowScrollbar::Auto => true,
        ShowScrollbar::System => true,
        ShowScrollbar::Always => true,
        ShowScrollbar::Never => false,
    }
}

/// Whether the scrollbar hides itself.
pub fn should_autohide_scrollbar(
    panel: Option<ShowScrollbar>,
    editor: ShowScrollbar,
    system_hides: bool,
) -> (r: bool)
    ensures
        r == match (if panel is Some {
            panel->0
        } else {
            editor
        }) {
            ShowScrollbar::Auto => true,
            ShowScrollbar::System => system_hides,
            ShowScrollbar::Always => false,
            ShowScrollbar::Never => true,
        },
{
    let show = match panel {
        Some(show) => show,
        None => editor,
    };
    match show {
        ShowScrollbar::Auto => true,
        ShowScrollbar::System => system_hides,
        ShowScrollbar::Always => false,
        ShowScrollbar::Never => true,
    }
}

/// A side of the window.
#[derive(Copy, Clone, Debug, PartialEq, Eq, Structural)]
pub enum DockPosition {
    Left,
    Bottom,
    Right,
}

/// The side of the window that the settings name.
#[derive(Copy, Clone, Debug, PartialEq, Eq, Structural)]
pub enum OutlinePanelDockPosition {
    Left,
    Right,
}

impl OutlinePanelDockPosition {
    pub open spec fn side(self) -> DockPosition {
        match self {
            OutlinePanelDockPosition::Left => DockPosition::Left,
            OutlinePanelDockPosition::Right => DockPosition::Right,
        }
    }

    pub fn position(self) -> (r: DockPosition)
        ensures
            r == self.side(),
    {
        match self {
            OutlinePanelDockPosition::Left => DockPosition::Left,
            OutlinePanelDockPosition::Right => DockPosition::Right,
        }
    }

    /// What the settings are to name for a side.
    pub fn from_position(position: DockPosition) -> (r: OutlinePanelDockPosition)
        ensures
            position != DockPosition::Bottom ==> r.side() == position,
            position == DockPosition::Bottom ==> r == OutlinePanelDockPosition::Left,
    {
        match position {
            DockPosition::Left => OutlinePanelDockPosition::Left,
            DockPosition::Bottom => OutlinePanelDockPosition::Left,
            DockPosition::Right => OutlinePanelDockPosition::Right,
        }
    }
}

/// Whether the panel can stand on a side.
pub fn position_is_valid(position: DockPosition) -> (r: bool)
    ensures
        r == (position != DockPosition::Bottom),
{
    match position {
        DockPosition::Left => true,
        DockPosition::Right => true,
        DockPosition::Bottom => false,
    }
}

/// What stands in the panel.
#[derive(Copy, Clone, Debug, PartialEq, Eq, Structural)]
pub enum Contents {
    /// Lines.
    List,
    /// Nothing yet.
    Updating,
    /// No line matches the query.
    NoMatches,
    /// There are no lines.
    NoOutlines,
}

impl Contents {
    /// What is written in place of lines.
    pub fn header(self) -> (r: Option<&'static str>)
        ensures
            match self {
                Contents::NoMatches => r is Some && r->0@ == "No matches for query"@,
                Contents::NoOutlines => r is Some && r->0@ == "No outlines available"@,
                _ => r is None,
            },
    {
        match self {
            Contents::NoMatches => Some("No matches for query"),
            Contents::NoOutlines => Some("No outlines available"),
            _ => None,
        }
    }
}

/// How a line is drawn.
#[derive(Copy, Clone, Debug, PartialEq, Eq, Structural)]
pub enum LineIcon {
    /// No room is left for an icon.
    Missing,
    /// Room is left for an icon.
    Empty,
    Chevron { expanded: bool },
    Folder { expanded: bool },
    File,
}

/// Which icons are drawn.
#[derive(Copy, Clone, Debug, PartialEq, Eq, Structural)]
pub struct ViewOptions {
    pub file_icons: bool,
    pub folder_icons: bool,
    /// The editor shows a single buffer.
    pub is_singleton: bool,
}

/// A line as it is drawn.
#[derive(Debug)]
pub struct LineView {
    pub depth: usize,
    pub label: String,
    pub icon: LineIcon,
    pub is_active: bool,
    pub is_ignored: bool,
    pub git_summary: Option<GitSummary>,
    /// Where the query was found in the line.
    pub highlights: Vec<usize>,
    /// Where the match of a search is in the line, in bytes. It is only highlighted where
    /// the query is not.
    pub match_place: Option<(usize, usize)>,
    /// A mark is drawn in front of the line, or behind it, where there is more of the text.
    pub cut_left: bool,
    pub cut_right: bool,
}

/// A line as it is drawn.
pub struct LineModel {
    pub depth: usize,
    pub label: Seq<char>,
    pub icon: LineIcon,
    pub is_active: bool,
    pub is_ignored: bool,
    pub git_summary: Option<GitSummary>,
    pub highlights: Seq<usize>,
    pub match_place: Option<(usize, usize)>,
    pub cut_left: bool,
    pub cut_right: bool,
}

impl View for LineView {
    type V = LineModel;

    open spec fn view(&self) -> LineModel {
        LineModel {
            depth: self.depth,
            label: self.label@,
            icon: self.icon,
            is_active: self.is_active,
            is_ignored: self.is_ignored,
            git_summary: self.git_summary,
            highlights: self.highlights@,
            match_place: self.match_place,
            cut_left: self.cut_left,
            cut_right: self.cut_right,
        }
    }
}

/// Where the query was found in a line.
pub open spec fn highlights_of(cached: CachedEntry) -> Seq<usize> {
    match cached.string_match {
        Some(found) => found.positions@,
        None => Seq::empty(),
    }
}

fn copy_highlights(cached: &CachedEntry) -> (r: Vec<usize>)
    ensures
        r@ == highlights_of(*cached),
{
    match &cached.string_match {
        Some(found) => found.copy().positions,
        None => {
            let nothing: Vec<usize> = Vec::new();
            assert(nothing@ =~= Seq::empty());
            nothing
        },
    }
}

/// Whether a line is drawn as the selected one.
pub open spec fn is_active_line(panel: OutlinePanel, entry: PanelEntry) -> bool {
    match (panel.selected_entry.entry(), entry) {
        (Some(PanelEntry::Fs(selected)), PanelEntry::Fs(entry)) => same_fs_entry(selected, entry),
        (Some(PanelEntry::FoldedDirs(selected)), PanelEntry::FoldedDirs(dirs)) => {
            selected.worktree_id == dirs.worktree_id && same_entries(
                selected.entries@,
                dirs.entries@,
            )
        },
        (
            Some(PanelEntry::Outline(OutlineEntry::Excerpt(selected))),
            PanelEntry::Outline(OutlineEntry::Excerpt(excerpt)),
        ) => selected.buffer_id == excerpt.buffer_id && selected.id == excerpt.id,
        (
            Some(PanelEntry::Outline(OutlineEntry::Outline(selected))),
            PanelEntry::Outline(OutlineEntry::Outline(outline)),
        ) => same_outline(selected, outline),
        (Some(PanelEntry::Search(selected)), PanelEntry::Search(found)) => selected.match_range
            == found.match_range,
        _ => false,
    }
}

/// The icon of a directory.
pub open spec fn dir_icon(options: ViewOptions, expanded: bool) -> LineIcon {
    if options.folder_icons {
        LineIcon::Folder { expanded }
    } else {
        LineIcon::Chevron { expanded }
    }
}

/// Whether none of some directories is collapsed.
pub open spec fn all_expanded(
    panel: OutlinePanel,
    worktree_id: WorktreeId,
    entries: Seq<GitEntry>,
) -> bool {
    forall|i: int|
        0 <= i < entries.len() ==> !panel.collapsed_entries@.contains(
            CollapsedEntry::Dir(worktree_id, (#[trigger] entries[i]).id),
        )
}

/// Whether one of some entries is ignored.
pub open spec fn any_ignored(entries: Seq<GitEntry>) -> bool {
    exists|i: int| 0 <= i < entries.len() && (#[trigger] entries[i]).is_ignored
}

/// What stands for the file of a buffer outside all worktrees.
pub open spec fn external_label(
    env: PanelEnv,
    open_buffers: Set<BufferId>,
    buffer_id: BufferId,
) -> Seq<char> {
    if env.buffer_paths@.contains_key(buffer_id) {
        name_of(env.buffer_paths@[buffer_id])
    } else if open_buffers.contains(buffer_id) {
        "Untitled"@
    } else {
        "Unknown buffer"@
    }
}

/// Whether symbols of an excerpt are known.
pub open spec fn has_outlines(panel: OutlinePanel, key: ExcerptKey) -> bool {
    panel.excerpts.buffers@.contains(key.buffer_id) && panel.excerpts.items@.contains_key(key)
        && panel.excerpts.items@[key].outlines.known().len() > 0
}

/// How a line is drawn. An excerpt whose buffer is not at hand is not drawn, nor
/// is a match whose text is not.
pub open spec fn drawn(
    panel: OutlinePanel,
    env: PanelEnv,
    open_buffers: Set<BufferId>,
    options: ViewOptions,
    cached: CachedEntry,
) -> Option<LineModel> {
    let is_active = is_active_line(panel, cached.entry);
    let depth = cached.depth;
    match cached.entry {
        PanelEntry::Fs(FsEntry::File(file)) => Some(
            LineModel {
                depth,
                label: entry_name_spec(env, file.worktree_id, file.entry),
                icon: if options.file_icons {
                    LineIcon::File
                } else {
                    LineIcon::Empty
                },
                is_active,
                is_ignored: file.entry.is_ignored,
                git_summary: Some(file.entry.git_summary),
                highlights: highlights_of(cached),
                match_place: None,
                cut_left: false,
                cut_right: false,
            },
        ),
        PanelEntry::Fs(FsEntry::Directory(directory)) => Some(
            LineModel {
                depth,
                label: entry_name_spec(env, directory.worktree_id, directory.entry),
                icon: dir_icon(
                    options,
                    panel.expanded(FsEntry::Directory(directory)),
                ),
                is_active,
                is_ignored: directory.entry.is_ignored,
                git_summary: Some(directory.entry.git_summary),
                highlights: highlights_of(cached),
                match_place: None,
                cut_left: false,
                cut_right: false,
            },
        ),
        PanelEntry::Fs(FsEntry::ExternalFile(file)) => Some(
            LineModel {
                depth,
                label: external_label(env, open_buffers, file.buffer_id),
                icon: if options.file_icons && env.buffer_paths@.contains_key(file.buffer_id) {
                    LineIcon::File
                } else {
                    LineIcon::Empty
                },
                is_active,
                is_ignored: false,
                git_summary: None,
                highlights: highlights_of(cached),
                match_place: None,
                cut_left: false,
                cut_right: false,
            },
        ),
        PanelEntry::FoldedDirs(dirs) => Some(
            LineModel {
                depth,
                label: dir_names(env, dirs.worktree_id, dirs.entries@),
                icon: dir_icon(
                    options,
                    all_expanded(panel, dirs.worktree_id, dirs.entries@),
                ),
                is_active,
                is_ignored: any_ignored(dirs.entries@),
                git_summary: if dirs.entries@.len() > 0 {
                    Some(dirs.entries@.first().git_summary)
                } else {
                    None
                },
                highlights: highlights_of(cached),
                match_place: None,
                cut_left: false,
                cut_right: false,
            },
        ),
        PanelEntry::Outline(OutlineEntry::Excerpt(excerpt)) => match excerpt_label_spec(
            excerpt.range,
        ) {
            Some(label) => Some(
                LineModel {
                    depth,
                    label,
                    icon: if has_outlines(
                        panel,
                        ExcerptKey { buffer_id: excerpt.buffer_id, excerpt_id: excerpt.id },
                    ) {
                        LineIcon::Chevron {
                            expanded: !panel.collapsed_entries@.contains(
                                CollapsedEntry::Excerpt(excerpt.buffer_id, excerpt.id),
                            ),
                        }
                    } else {
                        LineIcon::Empty
                    },
                    is_active,
                    is_ignored: false,
                    git_summary: None,
                    highlights: Seq::empty(),
                    match_place: None,
                    cut_left: false,
                    cut_right: false,
                },
            ),
            None => None,
        },
        PanelEntry::Outline(OutlineEntry::Outline(outline)) => Some(
            LineModel {
                depth,
                label: outline.outline.text@,
                icon: if options.is_singleton {
                    LineIcon::Missing
                } else {
                    LineIcon::Empty
                },
                is_active,
                is_ignored: false,
                git_summary: None,
                highlights: highlights_of(cached),
                match_place: None,
                cut_left: false,
                cut_right: false,
            },
        ),
        PanelEntry::Search(found) => match found.render_data {
            Some(data) => Some(
                LineModel {
                    depth,
                    label: data.context_text@,
                    icon: LineIcon::Missing,
                    is_active,
                    is_ignored: false,
                    git_summary: None,
                    highlights: highlights_of(cached),
                    match_place: if highlights_of(cached).len() == 0 {
                        Some((data.match_start, data.match_end))
                    } else {
                        None
                    },
                    cut_left: data.truncated_left,
                    cut_right: data.truncated_right,
                },
            ),
            None => None,
        },
    }
}

/// The lines that are drawn of some.
pub open spec fn all_drawn(
    panel: OutlinePanel,
    env: PanelEnv,
    open_buffers: Set<BufferId>,
    options: ViewOptions,
    entries: Seq<CachedEntry>,
) -> Seq<LineModel>
    decreases entries.len(),
{
    if entries.len() == 0 {
        Seq::empty()
    } else {
        let rest = all_drawn(panel, env, open_buffers, options, entries.drop_last());
        match drawn(panel, env, open_buffers, options, entries.last()) {
            Some(line) => rest.push(line),
            None => rest,
        }
    }
}

/// The matches among some lines whose texts are not at hand.
pub open spec fn textless(entries: Seq<CachedEntry>) -> Seq<AnchorRange>
    decreases entries.len(),
{
    if entries.len() == 0 {
        Seq::empty()
    } else {
        let rest = textless(entries.drop_last());
        match entries.last().entry {
            PanelEntry::Search(found) => if found.render_data is None {
                rest.push(found.match_range)
            } else {
                rest
            },
            _ => rest,
        }
    }
}

/// Lines as they are drawn.
pub open spec fn line_models(lines: Seq<LineView>) -> Seq<LineModel> {
    Seq::new(lines.len(), |i: int| lines[i]@)
}

/// A line that marks how deep lines are.
#[derive(Copy, Clone, Debug, PartialEq, Eq, Structural)]
pub struct IndentGuide {
    pub column: usize,
    pub row: usize,
    pub length: usize,
}

/// The place of the guide that belongs to the selected line: in front of what is
/// below it, or else in front of it.
pub open spec fn guide_target(panel: OutlinePanel) -> Option<(int, int)> {
    match panel.selected_entry {
        SelectedEntry::Valid(_, ix) => {
            let entries = panel.cached_entries@;
            if ix < entries.len() {
                let depth = entries[ix as int].depth;
                let (row, depth) = if ix + 1 < entries.len() && entries[ix + 1].depth > depth {
                    (ix + 1, entries[ix + 1].depth)
                } else {
                    (ix as int, depth)
                };
                Some(
                    (
                        row,
                        if depth == 0 {
                            0
                        } else {
                            depth - 1
                        },
                    ),
                )
            } else {
                None
            }
        },
        _ => None,
    }
}

/// Whether a guide passes a place.
pub open spec fn guide_at(guide: IndentGuide, place: (int, int)) -> bool {
    guide.row <= place.0 < guide.row + guide.length && guide.column == place.1
}

/// The first guide that passes a place.
pub open spec fn first_guide(guides: Seq<IndentGuide>, place: (int, int)) -> Option<int>
    decreases guides.len(),
{
    if guides.len() == 0 {
        None
    } else {
        match first_guide(guides.drop_last(), place) {
            Some(i) => Some(i),
            None => if guide_at(guides.last(), place) {
                Some(guides.len() - 1)
            } else {
                None
            },
        }
    }
}

/// The guide that belongs to the selected line.
pub fn find_active_indent_guide_ix(panel: &OutlinePanel, candidates: &Vec<IndentGuide>) -> (r:
    Option<usize>)
    ensures
        match guide_target(*panel) {
            Some(place) => match first_guide(candidates@, place) {
                Some(i) => r is Some && r->0 == i,
                None => r is None,
            },
            None => r is None,
        },
{
    let ix: usize = match &panel.selected_entry {
        SelectedEntry::Valid(_, ix) => *ix,
        _ => {
            return None;
        },
    };
    let n: usize = panel.cached_entries.len();
    if ix >= n {
        return None;
    }
    let depth: usize = panel.cached_entries[ix].depth;
    let (row, depth): (usize, usize) = if ix < n - 1 && panel.cached_entries[ix + 1].depth
        > depth {
        (ix + 1, panel.cached_entries[ix + 1].depth)
    } else {
        (ix, depth)
    };
    let column: usize = depth.saturating_sub(1);
    let ghost place = (row as int, column as int);
    assert(guide_target(*panel) == Some(place));
    let mut i: usize = 0;
    let mut found: Option<usize> = None;
    assert(candidates@.take(0) =~= Seq::empty());
    while i < candidates.len()
        invariant
            i <= candidates@.len(),
            place == (row as int, column as int),
            match first_guide(candidates@.take(i as int), place) {
                Some(k) => found is Some && found->0 == k,
                None => found is None,
            },
        decreases candidates.len() - i,
    {
        proof {
            let next = candidates@.take(i + 1);
            assert(next.drop_last() =~= candidates@.take(i as int));
            assert(next.last() == candidates@[i as int]);
        }
        let guide = candidates[i];
        if found.is_none() && guide.column == column && guide.row <= row && row - guide.row
            < guide.length {
            found = Some(i);
        }
        i = i + 1;
    }
    assert(candidates@.take(i as int) =~= candidates@);
    found
}

impl OutlinePanel {
    /// What stands in the panel.
    pub fn render_main_contents(&self, has_query: bool) -> (r: Contents)
        ensures
            r == (if self.cached_entries@.len() > 0 {
                Contents::List
            } else if self.updating_fs_entries || self.updating_cached_entries {
                Contents::Updating
            } else if has_query {
                Contents::NoMatches
            } else {
                Contents::NoOutlines
            }),
    {
        if self.cached_entries.len() > 0 {
            Contents::List
        } else if self.updating_fs_entries || self.updating_cached_entries {
            Contents::Updating
        } else if has_query {
            Contents::NoMatches
        } else {
            Contents::NoOutlines
        }
    }

    fn is_active(&self, entry: &PanelEntry) -> (r: bool)
        ensures
            r == is_active_line(*self, *entry),
    {
        match (self.selected_entry(), entry) {
            (
                Some(PanelEntry::Outline(OutlineEntry::Excerpt(selected))),
                PanelEntry::Outline(OutlineEntry::Excerpt(excerpt)),
            ) => selected.buffer_id == excerpt.buffer_id && selected.id == excerpt.id,
            (Some(PanelEntry::Search(selected)), PanelEntry::Search(found)) => selected.match_range
                == found.match_range,
            (Some(selected), entry) => selected.same(entry),
            (None, _) => false,
        }
    }

    fn dirs_expanded(&self, worktree_id: WorktreeId, entries: &Vec<GitEntry>) -> (r: bool)
        ensures
            r == all_expanded(*self, worktree_id, entries@),
    {
        let mut i: usize = 0;
        while i < entries.len()
            invariant
                i <= entries@.len(),
                forall|j: int|
                    0 <= j < i ==> !self.collapsed_entries@.contains(
                        CollapsedEntry::Dir(worktree_id, (#[trigger] entries@[j]).id),
                    ),
            decreases entries.len() - i,
        {
            if self.collapsed_entries.contains(&CollapsedEntry::Dir(worktree_id, entries[i].id)) {
                assert(self.collapsed_entries@.contains(
                    CollapsedEntry::Dir(worktree_id, entries@[i as int].id),
                ));
                return false;
            }
            i = i + 1;
        }
        true
    }

    /// How a line is drawn.
    pub fn render_line(
        &self,
        env: &PanelEnv,
        open_buffers: &VecSet<BufferId>,
        options: ViewOptions,
        cached: &CachedEntry,
    ) -> (r: Option<LineView>)
        ensures
            match drawn(*self, *env, open_buffers@, options, *cached) {
                Some(line) => r is Some && r->0@ == line,
                None => r is None,
            },
    {
        let is_active: bool = self.is_active(&cached.entry);
        let depth: usize = cached.depth;
        match &cached.entry {
            PanelEntry::Fs(FsEntry::File(file)) => Some(
                LineView {
                    depth,
                    label: entry_name(env, file.worktree_id, &file.entry),
                    icon: if options.file_icons {
                        LineIcon::File
                    } else {
                        LineIcon::Empty
                    },
                    is_active,
                    is_ignored: file.entry.is_ignored,
                    git_summary: Some(file.entry.git_summary),
                    highlights: copy_highlights(cached),
                    match_place: None,
                    cut_left: false,
                    cut_right: false,
                },
            ),
            PanelEntry::Fs(FsEntry::Directory(directory)) => {
                let expanded: bool = !self.collapsed_entries.contains(
                    &CollapsedEntry::Dir(directory.worktree_id, directory.entry.id),
                );
                Some(
                    LineView {
                        depth,
                        label: entry_name(env, directory.worktree_id, &directory.entry),
                        icon: if options.folder_icons {
                            LineIcon::Folder { expanded }
                        } else {
                            LineIcon::Chevron { expanded }
                        },
                        is_active,
                        is_ignored: directory.entry.is_ignored,
                        git_summary: Some(directory.entry.git_summary),
                        highlights: copy_highlights(cached),
                        match_place: None,
                        cut_left: false,
                        cut_right: false,
                    },
                )
            },
            PanelEntry::Fs(FsEntry::ExternalFile(file)) => {
                let (label, icon) = match env.buffer_paths.get(&file.buffer_id) {
                    Some(path) => (
                        file_name(path),
                        if options.file_icons {
                            LineIcon::File
                        } else {
                            LineIcon::Empty
                        },
                    ),
                    None => (
                        if open_buffers.contains(&file.buffer_id) {
                            copy_text("Untitled")
                        } else {
                            copy_text("Unknown buffer")
                        },
                        LineIcon::Empty,
                    ),
                };
                Some(
                    LineView {
                        depth,
                        label,
                        icon,
                        is_active,
                        is_ignored: false,
                        git_summary: None,
                        highlights: copy_highlights(cached),
                        match_place: None,
                        cut_left: false,
                        cut_right: false,
                    },
                )
            },
            PanelEntry::FoldedDirs(dirs) => {
                let expanded: bool = self.dirs_expanded(dirs.worktree_id, &dirs.entries);
                Some(
                    LineView {
                        depth,
                        label: dir_names_string(env, dirs.worktree_id, &dirs.entries),
                        icon: if options.folder_icons {
                            LineIcon::Folder { expanded }
                        } else {
                            LineIcon::Chevron { expanded }
                        },
                        is_active,
                        is_ignored: some_ignored(&dirs.entries),
                        git_summary: if dirs.entries.len() > 0 {
                            Some(dirs.entries[0].git_summary)
                        } else {
                            None
                        },
                        highlights: copy_highlights(cached),
                        match_place: None,
                        cut_left: false,
                        cut_right: false,
                    },
                )
            },
            PanelEntry::Outline(OutlineEntry::Excerpt(excerpt)) => match excerpt_label(
                &excerpt.range,
            ) {
                Some(label) => {
                    let key = ExcerptKey {
                        buffer_id: excerpt.buffer_id,
                        excerpt_id: excerpt.id,
                    };
                    let outlines: bool = self.excerpts.buffers.contains(&excerpt.buffer_id)
                        && match self.excerpts.items.get(&key) {
                        Some(known) => known.outline_count() > 0,
                        None => false,
                    };
                    Some(
                        LineView {
                            depth,
                            label,
                            icon: if outlines {
                                LineIcon::Chevron {
                                    expanded: !self.collapsed_entries.contains(
                                        &CollapsedEntry::Excerpt(excerpt.buffer_id, excerpt.id),
                                    ),
                                }
                            } else {
                                LineIcon::Empty
                            },
                            is_active,
                            is_ignored: false,
                            git_summary: None,
                            highlights: Vec::new(),
                            match_place: None,
                            cut_left: false,
                            cut_right: false,
                        },
                    )
                },
                None => None,
            },
            PanelEntry::Outline(OutlineEntry::Outline(outline)) => Some(
                LineView {
                    depth,
                    label: copy_text(outline.outline.text.as_str()),
                    icon: if options.is_singleton {
                        LineIcon::Missing
                    } else {
                        LineIcon::Empty
                    },
                    is_active,
                    is_ignored: false,
                    git_summary: None,
                    highlights: copy_highlights(cached),
                    match_place: None,
                    cut_left: false,
                    cut_right: false,
                },
            ),
            PanelEntry::Search(found) => match &found.render_data {
                Some(data) => {
                    let highlights = copy_highlights(cached);
                    let match_place: Option<(usize, usize)> = if highlights.len() == 0 {
                        Some((data.match_start, data.match_end))
                    } else {
                        None
                    };
                    Some(
                        LineView {
                            depth,
                            label: copy_text(data.context_text.as_str()),
                            icon: LineIcon::Missing,
                            is_active,
                            is_ignored: false,
                            git_summary: None,
                            highlights,
                            match_place,
                            cut_left: data.truncated_left,
                            cut_right: data.truncated_right,
                        },
                    )
                },
                None => None,
            },
        }
    }

    /// The lines of a part of the panel as they are drawn. A part that does not
    /// lie in the panel has none.
    pub fn render_lines(
        &self,
        env: &PanelEnv,
        open_buffers: &VecSet<BufferId>,
        options: ViewOptions,
        start: usize,
        end: usize,
    ) -> (r: Vec<LineView>)
        ensures
            line_models(r@) == (if start <= end <= self.cached_entries@.len() {
                all_drawn(
                    *self,
                    *env,
                    open_buffers@,
                    options,
                    self.cached_entries@.subrange(start as int, end as int),
                )
            } else {
                Seq::empty()
            }),
    {
        let mut r: Vec<LineView> = Vec::new();
        assert(line_models(r@) =~= Seq::empty());
        if start > end || end > self.cached_entries.len() {
            return r;
        }
        let ghost part = self.cached_entries@.subrange(start as int, end as int);
        let mut i: usize = start;
        assert(part.take(0) =~= Seq::empty());
        while i < end
            invariant
                start <= i <= end <= self.cached_entries@.len(),
                part == self.cached_entries@.subrange(start as int, end as int),
                line_models(r@) == all_drawn(
                    *self,
                    *env,
                    open_buffers@,
                    options,
                    part.take(i - start),
                ),
            decreases end - i,
        {
            proof {
                let next = part.take(i + 1 - start);
                assert(next.drop_last() =~= part.take(i - start));
                assert(next.last() == self.cached_entries@[i as int]);
            }
            let ghost before = r@;
            if let Some(line) = self.render_line(
                env,
                open_buffers,
                options,
                &self.cached_entries[i],
            ) {
                let ghost model = line@;
                r.push(line);
                assert(line_models(r@) =~= line_models(before).push(model));
            }
            i = i + 1;
        }
        assert(part.take(i - start) =~= part);
        r
    }

    /// The matches of a part of the panel whose texts are to be asked for, since
    /// they cannot be drawn without.
    pub fn missing_texts(&self, start: usize, end: usize) -> (r: Vec<AnchorRange>)
        ensures
            r@ == (if self.mode is Search && self.active_item is Some && start <= end
                <= self.cached_entries@.len() {
                textless(self.cached_entries@.subrange(start as int, end as int))
            } else {
                Seq::empty()
            }),
    {
        let mut r: Vec<AnchorRange> = Vec::new();
        assert(r@ =~= Seq::empty());
        let searching: bool = match &self.mode {
            ItemsDisplayMode::Search(_) => true,
            ItemsDisplayMode::Outline => false,
        };
        if !searching || self.active_item.is_none() || start > end || end
            > self.cached_entries.len() {
            return r;
        }
        let ghost part = self.cached_entries@.subrange(start as int, end as int);
        let mut i: usize = start;
        assert(part.take(0) =~= Seq::empty());
        while i < end
            invariant
                start <= i <= end <= self.cached_entries@.len(),
                part == self.cached_entries@.subrange(start as int, end as int),
                r@ == textless(part.take(i - start)),
            decreases end - i,
        {
            proof {
                let next = part.take(i + 1 - start);
                assert(next.drop_last() =~= part.take(i - start));
                assert(next.last() == self.cached_entries@[i as int]);
            }
            if let PanelEntry::Search(found) = &self.cached_entries[i].entry {
                if found.render_data.is_none() {
                    r.push(found.match_range);
                }
            }
            i = i + 1;
        }
        assert(part.take(i - start) =~= part);
        r
    }

    /// How deep the lines of a part of the panel are.
    pub fn indent_depths(&self, start: usize, end: usize) -> (r: Vec<usize>)
        ensures
            r@ == (if start <= end <= self.cached_entries@.len() {
                Seq::new(
                    (end - start) as nat,
                    |i: int| self.cached_entries@[start + i].depth,
                )
            } else {
                Seq::empty()
            }),
    {
        let mut r: Vec<usize> = Vec::new();
        if start <= end && end <= self.cached_entries.len() {
            let mut i: usize = start;
            while i < end
                invariant
                    start <= i <= end <= self.cached_entries@.len(),
                    r@ =~= Seq::new(
                        (i - start) as nat,
                        |i: int| self.cached_entries@[start + i].depth,
                    ),
                decreases end - i,
            {
                r.push(self.cached_entries[i].depth);
                i = i + 1;
            }
        }
        r
    }

    /// The line whose menu a click beside all lines opens: the selected one, or
    /// else the first file or directory.
    pub fn context_menu_target(&self) -> (r: Option<PanelEntry>)
        ensures
            r == match self.selected_entry.entry() {
                Some(selected) => Some(selected),
                None => if self.fs_entries@.len() > 0 {
                    Some(PanelEntry::Fs(self.fs_entries@.first()))
                } else {
                    None
                },
            },
    {
        match self.selected_entry() {
            Some(selected) => Some(selected.clone()),
            None => if self.fs_entries.len() > 0 {
                Some(PanelEntry::Fs(self.fs_entries[0].clone()))
            } else {
                None
            },
        }
    }

    /// Where the editor is to scroll to for a line, and what changes with it. A
    /// panel that follows no item scrolls nothing.
    pub fn scroll_editor_to_entry(
        &self,
        entry: &PanelEntry,
        prefer_selection_change: bool,
        prefer_focus_change: bool,
    ) -> (r: Option<ScrollPlan>)
        ensures
            r == (if self.active_item is None {
                None
            } else {
                Some(planned(*entry, prefer_selection_change, prefer_focus_change))
            }),
    {
        if self.active_item.is_none() {
            return None;
        }
        let plan = match entry {
            PanelEntry::FoldedDirs(_) => ScrollPlan {
                target: ScrollTarget::Nowhere,
                change_selection: prefer_selection_change,
                change_focus: false,
                buffer: None,
            },
            PanelEntry::Fs(FsEntry::Directory(_)) => ScrollPlan {
                target: ScrollTarget::Nowhere,
                change_selection: prefer_selection_change,
                change_focus: false,
                buffer: None,
            },
            PanelEntry::Fs(FsEntry::ExternalFile(file)) => ScrollPlan {
                target: ScrollTarget::BufferStart(file.buffer_id),
                change_selection: false,
                change_focus: prefer_focus_change,
                buffer: Some(file.buffer_id),
            },
            PanelEntry::Fs(FsEntry::File(file)) => ScrollPlan {
                target: ScrollTarget::FileStart(file.entry.id),
                change_selection: false,
                change_focus: prefer_focus_change,
                buffer: Some(file.buffer_id),
            },
            PanelEntry::Outline(OutlineEntry::Outline(outline)) => ScrollPlan {
                target: ScrollTarget::Symbol {
                    excerpt_id: outline.excerpt_id,
                    start: outline.outline.start,
                    end: outline.outline.end,
                },
                change_selection: prefer_selection_change,
                change_focus: prefer_focus_change,
                buffer: None,
            },
            PanelEntry::Outline(OutlineEntry::Excerpt(excerpt)) => ScrollPlan {
                target: ScrollTarget::ExcerptStart {
                    excerpt_id: excerpt.id,
                    start: excerpt.range.start,
                },
                change_selection: false,
                change_focus: false,
                buffer: None,
            },
            PanelEntry::Search(found) => ScrollPlan {
                target: ScrollTarget::Place(found.match_range.start),
                change_selection: prefer_selection_change,
                change_focus: prefer_focus_change,
                buffer: None,
            },
        };
        Some(plan)
    }

    /// Scrolls the editor for a line. Where the place was found and the item is
    /// shown, the line is selected. The cursor goes to the place, or the editor
    /// shows it from some way above.
    pub fn finish_scroll(
        &mut self,
        entry: PanelEntry,
        plan: ScrollPlan,
        is_shown: bool,
        folded_buffers: &VecSet<BufferId>,
        is_singleton: bool,
    ) -> (r: Option<ScrollStep>)
        ensures
            !is_shown ==> r is None && *final(self) == *old(self),
            is_shown ==> *final(self) == with_selected(*old(self), entry) && r == Some(
                ScrollStep {
                    moves: if plan.change_selection {
                        ScrollMove::Cursor
                    } else {
                        ScrollMove::View(
                            offset_for(
                                old(self).fs_entries@,
                                folded_buffers@,
                                plan.buffer,
                                is_singleton,
                            ),
                        )
                    },
                    focus_editor: plan.change_focus,
                },
            ),
    {
        if !is_shown {
            return None;
        }
        self.select_entry(entry);
        let moves = if plan.change_selection {
            ScrollMove::Cursor
        } else {
            ScrollMove::View(self.scroll_offset(folded_buffers, plan.buffer, is_singleton))
        };
        Some(ScrollStep { moves, focus_editor: plan.change_focus })
    }

    fn buffer_before(&self, buffer_id: BufferId) -> (r: Option<BufferId>)
        ensures
            r == previous_buffer(self.fs_entries@, buffer_id, false),
    {
        let mut seen: bool = false;
        let mut i: usize = self.fs_entries.len();
        let ghost all = self.fs_entries@;
        assert(all.take(i as int) =~= all);
        while i > 0
            invariant
                i <= all.len(),
                all == self.fs_entries@,
                previous_buffer(all.take(i as int), buffer_id, seen) == previous_buffer(
                    all,
                    buffer_id,
                    false,
                ),
            decreases i,
        {
            proof {
                let here = all.take(i as int);
                assert(here.drop_last() =~= all.take(i - 1));
                assert(here.last() == all[i - 1]);
            }
            if let Some(id) = self.fs_entries[i - 1].buffer_id() {
                if seen {
                    return Some(id);
                }
                if id == buffer_id {
                    seen = true;
                }
            }
            i = i - 1;
        }
        None
    }

    /// How far above a place the editor is to show, so that what stands above it
    /// is seen too.
    pub fn scroll_offset(
        &self,
        folded_buffers: &VecSet<BufferId>,
        buffer: Option<BufferId>,
        is_singleton: bool,
    ) -> (r: ScrollOffset)
        ensures
            r == offset_for(self.fs_entries@, folded_buffers@, buffer, is_singleton),
    {
        let buffer_id = match buffer {
            Some(id) => id,
            None => {
                return ScrollOffset { headers: 0, controls: 0 };
            },
        };
        if folded_buffers.contains(&buffer_id) {
            match self.buffer_before(buffer_id) {
                Some(previous) => if folded_buffers.contains(&previous) {
                    ScrollOffset { headers: 0, controls: 0 }
                } else {
                    ScrollOffset { headers: 0, controls: 1 }
                },
                None => ScrollOffset { headers: 0, controls: 0 },
            }
        } else {
            ScrollOffset {
                headers: if is_singleton {
                    0
                } else {
                    -1
                },
                controls: -1,
            }
        }
    }

    /// The directory in which a terminal is opened for the selected line: that of
    /// a file, or the directory itself.
    pub fn open_in_terminal(&self, abs_path: Option<AnyPath>) -> (r: Option<AnyPath>)
        ensures
            match (abs_path, r) {
                (Some(path), Some(directory)) => {
                    &&& directory.absolute == path.absolute
                    &&& directory.components@ == (if is_file_line(self.selected_entry.entry()) {
                        path.components@.drop_last()
                    } else {
                        path.components@
                    })
                },
                (Some(path), None) => is_file_line(self.selected_entry.entry())
                    && path.components@.len() == 0,
                (None, directory) => directory is None,
            },
            abs_path is Some && !(is_file_line(self.selected_entry.entry())
                && abs_path->0.components@.len() == 0) ==> r is Some,
    {
        let path = match abs_path {
            Some(path) => path,
            None => {
                return None;
            },
        };
        let is_file: bool = match self.selected_entry() {
            Some(PanelEntry::Fs(FsEntry::File(_))) => true,
            Some(PanelEntry::Fs(FsEntry::ExternalFile(_))) => true,
            _ => false,
        };
        if !is_file {
            return Some(path);
        }
        let AnyPath { absolute, components } = path;
        let mut components: Vec<Component> = components;
        if components.len() == 0 {
            return None;
        }
        let ghost before = components@;
        let _ = components.pop();
        assert(components@ =~= before.drop_last());
        Some(AnyPath { absolute, components })
    }
}

fn some_ignored(entries: &Vec<GitEntry>) -> (r: bool)
    ensures
        r == any_ignored(entries@),
{
    let mut i: usize = 0;
    while i < entries.len()
        invariant
            i <= entries@.len(),
            forall|j: int| 0 <= j < i ==> !(#[trigger] entries@[j]).is_ignored,
        decreases entries.len() - i,
    {
        if entries[i].is_ignored {
            assert(entries@[i as int].is_ignored);
            return true;
        }
        i = i + 1;
    }
    false
}

/// Whether a line is of a file.
pub open spec fn is_file_line(entry: Option<PanelEntry>) -> bool {
    match entry {
        Some(PanelEntry::Fs(FsEntry::File(_))) => true,
        Some(PanelEntry::Fs(FsEntry::ExternalFile(_))) => true,
        _ => false,
    }
}

/// A place to scroll to.
#[derive(Copy, Clone, Debug, PartialEq, Eq, Structural)]
pub enum ScrollTarget {
    Nowhere,
    /// The start of the first excerpt of a buffer.
    BufferStart(BufferId),
    /// The start of the first excerpt of the open buffer of an entry.
    FileStart(ProjectEntryId),
    /// The start of a symbol, or its end where the excerpt does not hold its
    /// start.
    Symbol { excerpt_id: ExcerptId, start: u64, end: u64 },
    ExcerptStart { excerpt_id: ExcerptId, start: u64 },
    Place(Anchor),
}

/// Where the editor is to scroll to, and what changes with it.
#[derive(Copy, Clone, Debug, PartialEq, Eq, Structural)]
pub struct ScrollPlan {
    pub target: ScrollTarget,
    pub change_selection: bool,
    pub change_focus: bool,
    pub buffer: Option<BufferId>,
}

/// How the editor scrolls.
#[derive(Copy, Clone, Debug, PartialEq, Eq, Structural)]
pub enum ScrollMove {
    /// The cursor goes to the place.
    Cursor,
    /// The place is shown with what stands above it.
    View(ScrollOffset),
}

/// What the editor is to do, and whether it gets the focus. Otherwise the panel
/// does.
#[derive(Copy, Clone, Debug, PartialEq, Eq, Structural)]
pub struct ScrollStep {
    pub moves: ScrollMove,
    pub focus_editor: bool,
}

/// How far from a place the editor is to show: in headers of files, and in heights
/// of the controls that stand between excerpts.
#[derive(Copy, Clone, Debug, PartialEq, Eq, Structural)]
pub struct ScrollOffset {
    pub headers: i8,
    pub controls: i8,
}

/// Where the editor is to scroll to for a line. A file leaves the cursor where it
/// is, an excerpt the focus too, and a directory leads nowhere.
pub open spec fn planned(
    entry: PanelEntry,
    prefer_selection_change: bool,
    prefer_focus_change: bool,
) -> ScrollPlan {
    match entry {
        PanelEntry::Fs(FsEntry::ExternalFile(file)) => ScrollPlan {
            target: ScrollTarget::BufferStart(file.buffer_id),
            change_selection: false,
            change_focus: prefer_focus_change,
            buffer: Some(file.buffer_id),
        },
        PanelEntry::Fs(FsEntry::File(file)) => ScrollPlan {
            target: ScrollTarget::FileStart(file.entry.id),
            change_selection: false,
            change_focus: prefer_focus_change,
            buffer: Some(file.buffer_id),
        },
        PanelEntry::Outline(OutlineEntry::Outline(outline)) => ScrollPlan {
            target: ScrollTarget::Symbol {
                excerpt_id: outline.excerpt_id,
                start: outline.outline.start,
                end: outline.outline.end,
            },
            change_selection: prefer_selection_change,
            change_focus: prefer_focus_change,
            buffer: None,
        },
        PanelEntry::Outline(OutlineEntry::Excerpt(excerpt)) => ScrollPlan {
            target: ScrollTarget::ExcerptStart {
                excerpt_id: excerpt.id,
                start: excerpt.range.start,
            },
            change_selection: false,
            change_focus: false,
            buffer: None,
        },
        PanelEntry::Search(found) => ScrollPlan {
            target: ScrollTarget::Place(found.match_range.start),
            change_selection: prefer_selection_change,
            change_focus: prefer_focus_change,
            buffer: None,
        },
        _ => ScrollPlan {
            target: ScrollTarget::Nowhere,
            change_selection: prefer_selection_change,
            change_focus: false,
            buffer: None,
        },
    }
}

/// The buffer of the file listed before the one of a buffer.
pub open spec fn previous_buffer(
    entries: Seq<FsEntry>,
    buffer_id: BufferId,
    seen: bool,
) -> Option<BufferId>
    decreases entries.len(),
{
    if entries.len() == 0 {
        None
    } else {
        match entries.last().buffer() {
            Some(id) => if seen {
                Some(id)
            } else {
                previous_buffer(entries.drop_last(), buffer_id, id == buffer_id)
            },
            None => previous_buffer(entries.drop_last(), buffer_id, seen),
        }
    }
}

/// How far above a place the editor is to show.
pub open spec fn offset_for(
    entries: Seq<FsEntry>,
    folded_buffers: Set<BufferId>,
    buffer: Option<BufferId>,
    is_singleton: bool,
) -> ScrollOffset {
    match buffer {
        None => ScrollOffset { headers: 0, controls: 0 },
        Some(id) => if folded_buffers.contains(id) {
            match previous_buffer(entries, id, false) {
                Some(previous) => ScrollOffset {
                    headers: 0,
                    controls: if folded_buffers.contains(previous) {
                        0
                    } else {
                        1
                    },
                },
                None => ScrollOffset { headers: 0, controls: 0 },
            }
        } else {
            ScrollOffset {
                headers: if is_singleton {
                    0
                } else {
                    -1i8
                },
                controls: -1i8,
            }
        },
    }
}

/// What the state of a panel is stored under: the number of the workspace, or else
/// the name of the session.
pub fn serialization_key(database_id: Option<i64>, session_id: Option<String>) -> (r: Option<
    String,
>)
    ensures
        match (database_id, session_id) {
            (Some(id), _) => r is Some && r->0@ == "OutlinePanel-"@ + debug_text(
                signed_decimal(id as int),
            ),
            (None, Some(session)) => r is Some && r->0@ == "OutlinePanel-"@ + debug_text(session@),
            (None, None) => r is None,
        },
{
    let id: String = match database_id {
        Some(id) => signed_decimal_text(id),
        None => match session_id {
            Some(session) => session,
            None => {
                return None;
            },
        },
    };
    let mut key = copy_text("OutlinePanel-");
    key.push_str(format_debug(id.as_str()).as_str());
    Some(key)
}

/// A click on a line. One with the right button, or that only brings the window to
/// the front, does nothing. A second click gives the focus to the editor.
pub fn click_changes_focus(is_right: bool, is_first_mouse: bool, count: usize) -> (r: Option<bool>)
    ensures
        r == (if is_right || is_first_mouse {
            None
        } else {
            Some(count > 1)
        }),
{
    if is_right || is_first_mouse {
        None
    } else {
        Some(count > 1)
    }
}

/// The panel stands on the side that the settings name, and the settings name the side that it
/// is put on.
pub proof fn law_panel_stands_where_it_is_put(
    named: OutlinePanelDockPosition,
    at: DockPosition,
    put: DockPosition,
    kept: OutlinePanelDockPosition,
)
    requires
        call_ensures(OutlinePanelDockPosition::position, (named,), at),
        call_ensures(OutlinePanelDockPosition::from_position, (put,), kept),
    ensures
        named is Left ==> at is Left,
        named is Right ==> at is Right,
        put is Right <==> kept is Right,
{
}

} // verus!
