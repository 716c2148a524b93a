//! What the panel lists.

use vstd::prelude::*;
use std::sync::Arc;
use crate::collections::Same;
use crate::path::RelPath;
use crate::shared::arc_clone;
use crate::text::str_eq;

verus! {

pub type WorktreeId = u64;

pub type ProjectEntryId = u64;

pub type BufferId = u64;

pub type ExcerptId = u64;

/// What the version control knows of a file, as a number.
#[derive(Copy, Clone, Debug, PartialEq, Eq, Structural)]
pub struct GitSummary(pub u64);

/// A file or a directory of a worktree.
#[derive(Debug)]
pub struct GitEntry {
    pub id: ProjectEntryId,
    pub path: Arc<RelPath>,
    pub is_dir: bool,
    pub is_ignored: bool,
    pub git_summary: GitSummary,
}

/// Whether two entries agree in all that is known of them.
pub open spec fn same_entry(a: GitEntry, b: GitEntry) -> bool {
    &&& a.id == b.id
    &&& a.path@ == b.path@
    &&& a.is_dir == b.is_dir
    &&& a.is_ignored == b.is_ignored
    &&& a.git_summary == b.git_summary
}

impl GitEntry {
    pub fn same(&self, other: &GitEntry) -> (r: bool)
        ensures
            r == same_entry(*self, *other),
    {
        self.id == other.id && self.path.same(&*other.path) && self.is_dir == other.is_dir
            && self.is_ignored == other.is_ignored && self.git_summary == other.git_summary
    }
}

impl Clone for GitEntry {
    fn clone(&self) -> (copy: GitEntry)
        ensures
            copy == *self,
    {
        GitEntry {
            id: self.id,
            path: arc_clone(&self.path),
            is_dir: self.is_dir,
            is_ignored: self.is_ignored,
            git_summary: self.git_summary,
        }
    }
}

/// How many files and directories are shown below a directory.
#[derive(Copy, Clone, Debug, PartialEq, Eq, Structural)]
pub struct FsChildren {
    pub files: usize,
    pub dirs: usize,
}

impl Default for FsChildren {
    fn default() -> (children: FsChildren)
        ensures
            children == (FsChildren { files: 0, dirs: 0 }),
    {
        FsChildren { files: 0, dirs: 0 }
    }
}

impl FsChildren {
    /// Whether a directory can be shown in one line with the one above it.
    pub open spec fn foldable(self) -> bool {
        self.dirs == 0 || (self.dirs == 1 && self.files == 0)
    }

    /// Whether a directory can be shown in one line with the one above it: it has
    /// no directories below it, or one and no files.
    pub fn may_be_fold_part(&self) -> (r: bool)
        ensures
            r == self.foldable(),
    {
        self.dirs == 0 || (self.dirs == 1 && self.files == 0)
    }
}

/// A line of the panel whose contents are hidden.
#[derive(Copy, Clone, Debug, PartialEq, Eq, Structural)]
pub enum CollapsedEntry {
    Dir(WorktreeId, ProjectEntryId),
    File(WorktreeId, BufferId),
    ExternalFile(BufferId),
    Excerpt(BufferId, ExcerptId),
}

impl Same for CollapsedEntry {
    fn same(&self, other: &CollapsedEntry) -> (r: bool) {
        *self == *other
    }
}

/// A worktree and one of its entries.
#[derive(Copy, Clone, Debug, PartialEq, Eq, Structural)]
pub struct EntryKey {
    pub worktree_id: WorktreeId,
    pub entry_id: ProjectEntryId,
}

impl Same for EntryKey {
    fn same(&self, other: &EntryKey) -> (r: bool) {
        *self == *other
    }
}

/// A place in a text that moves with it.
#[derive(Copy, Clone, Debug, PartialEq, Eq, Structural)]
pub struct Anchor {
    pub buffer_id: Option<BufferId>,
    pub excerpt_id: ExcerptId,
    pub token: u64,
}

#[derive(Copy, Clone, Debug, PartialEq, Eq, Structural)]
pub struct AnchorRange {
    pub start: Anchor,
    pub end: Anchor,
}

/// Rows of a buffer, both included.
#[derive(Copy, Clone, Debug, PartialEq, Eq, Structural)]
pub struct Rows {
    pub start: u32,
    pub end: u32,
}

/// The part of a buffer that an excerpt shows.
#[derive(Copy, Clone, Debug, PartialEq, Eq, Structural)]
pub struct ExcerptRange {
    pub start: u64,
    pub end: u64,
    /// The rows, where the buffer is at hand.
    pub rows: Option<Rows>,
}

/// A symbol of a buffer.
#[derive(Debug)]
pub struct OutlineItem {
    pub depth: usize,
    pub start: u64,
    pub end: u64,
    pub text: String,
}

/// The symbols of an excerpt.
#[derive(Debug)]
pub enum ExcerptOutlines {
    Outlines(Arc<Vec<Arc<OutlineItem>>>),
    Invalidated(Arc<Vec<Arc<OutlineItem>>>),
    NotFetched,
}

impl ExcerptOutlines {
    /// The symbols that are known, even if they are out of date.
    pub open spec fn known(self) -> Seq<Arc<OutlineItem>> {
        match self {
            ExcerptOutlines::Outlines(outlines) => outlines@,
            ExcerptOutlines::Invalidated(outlines) => outlines@,
            ExcerptOutlines::NotFetched => Seq::empty(),
        }
    }
}

impl Clone for ExcerptOutlines {
    fn clone(&self) -> (copy: ExcerptOutlines)
        ensures
            copy == *self,
    {
        match self {
            ExcerptOutlines::Outlines(outlines) => ExcerptOutlines::Outlines(arc_clone(outlines)),
            ExcerptOutlines::Invalidated(outlines) => ExcerptOutlines::Invalidated(
                arc_clone(outlines),
            ),
            ExcerptOutlines::NotFetched => ExcerptOutlines::NotFetched,
        }
    }
}

/// An excerpt of a buffer.
#[derive(Debug)]
pub struct Excerpt {
    pub range: ExcerptRange,
    pub outlines: ExcerptOutlines,
}

impl Excerpt {
    /// Marks the symbols as out of date.
    pub open spec fn invalidated(self) -> Excerpt {
        Excerpt {
            range: self.range,
            outlines: match self.outlines {
                ExcerptOutlines::Outlines(outlines) => ExcerptOutlines::Invalidated(outlines),
                other => other,
            },
        }
    }

    /// Marks the symbols as out of date. They stay known until new ones come.
    pub fn invalidate_outlines(&mut self)
        ensures
            *final(self) == old(self).invalidated(),
    {
        let marked = match &self.outlines {
            ExcerptOutlines::Outlines(outlines) => Some(
                ExcerptOutlines::Invalidated(arc_clone(outlines)),
            ),
            _ => None,
        };
        if let Some(outlines) = marked {
            self.outlines = outlines;
        }
    }

    /// How many symbols are known.
    pub fn outline_count(&self) -> (r: usize)
        ensures
            r == self.outlines.known().len(),
    {
        match &self.outlines {
            ExcerptOutlines::Outlines(outlines) => outlines.len(),
            ExcerptOutlines::Invalidated(outlines) => outlines.len(),
            ExcerptOutlines::NotFetched => 0,
        }
    }

    /// One of the symbols that are known, even if they are out of date.
    pub fn outline_at(&self, i: usize) -> (r: Option<&Arc<OutlineItem>>)
        ensures
            match r {
                Some(outline) => i < self.outlines.known().len() && *outline
                    == self.outlines.known()[i as int],
                None => i >= self.outlines.known().len(),
            },
    {
        let outlines = match &self.outlines {
            ExcerptOutlines::Outlines(outlines) => outlines,
            ExcerptOutlines::Invalidated(outlines) => outlines,
            ExcerptOutlines::NotFetched => {
                return None;
            },
        };
        if i < outlines.len() {
            Some(&outlines[i])
        } else {
            None
        }
    }

    /// Whether the symbols have to be asked for: they are missing or out of date.
    pub fn should_fetch_outlines(&self) -> (r: bool)
        ensures
            r == !(self.outlines is Outlines),
    {
        match &self.outlines {
            ExcerptOutlines::Outlines(_) => false,
            ExcerptOutlines::Invalidated(_) => true,
            ExcerptOutlines::NotFetched => true,
        }
    }
}

/// A file of a worktree that the editor shows.
#[derive(Debug)]
pub struct FsEntryFile {
    pub worktree_id: WorktreeId,
    pub entry: GitEntry,
    pub buffer_id: BufferId,
    pub excerpts: Arc<Vec<ExcerptId>>,
}

/// A directory of a worktree with files below it that the editor shows.
#[derive(Debug)]
pub struct FsEntryDirectory {
    pub worktree_id: WorktreeId,
    pub entry: GitEntry,
}

/// A buffer outside all worktrees that the editor shows.
#[derive(Debug)]
pub struct FsEntryExternalFile {
    pub buffer_id: BufferId,
    pub excerpts: Arc<Vec<ExcerptId>>,
}

#[derive(Debug)]
pub enum FsEntry {
    ExternalFile(FsEntryExternalFile),
    Directory(FsEntryDirectory),
    File(FsEntryFile),
}

impl Clone for FsEntryFile {
    fn clone(&self) -> (copy: FsEntryFile)
        ensures
            copy == *self,
    {
        FsEntryFile {
            worktree_id: self.worktree_id,
            entry: self.entry.clone(),
            buffer_id: self.buffer_id,
            excerpts: arc_clone(&self.excerpts),
        }
    }
}

impl Clone for FsEntryDirectory {
    fn clone(&self) -> (copy: FsEntryDirectory)
        ensures
            copy == *self,
    {
        FsEntryDirectory { worktree_id: self.worktree_id, entry: self.entry.clone() }
    }
}

impl Clone for FsEntryExternalFile {
    fn clone(&self) -> (copy: FsEntryExternalFile)
        ensures
            copy == *self,
    {
        FsEntryExternalFile { buffer_id: self.buffer_id, excerpts: arc_clone(&self.excerpts) }
    }
}

impl Clone for FsEntry {
    fn clone(&self) -> (copy: FsEntry)
        ensures
            copy == *self,
    {
        match self {
            FsEntry::ExternalFile(file) => FsEntry::ExternalFile(file.clone()),
            FsEntry::Directory(directory) => FsEntry::Directory(directory.clone()),
            FsEntry::File(file) => FsEntry::File(file.clone()),
        }
    }
}

/// Whether two entries stand for the same file or directory.
pub open spec fn same_fs_entry(a: FsEntry, b: FsEntry) -> bool {
    match (a, b) {
        (FsEntry::ExternalFile(x), FsEntry::ExternalFile(y)) => x.buffer_id == y.buffer_id,
        (FsEntry::Directory(x), FsEntry::Directory(y)) => x.worktree_id == y.worktree_id
            && x.entry.id == y.entry.id,
        (FsEntry::File(x), FsEntry::File(y)) => x.worktree_id == y.worktree_id && x.entry.id
            == y.entry.id && x.buffer_id == y.buffer_id,
        _ => false,
    }
}

impl FsEntry {
    /// Whether two entries stand for the same file or directory.
    pub fn same(&self, other: &FsEntry) -> (r: bool)
        ensures
            r == same_fs_entry(*self, *other),
    {
        match (self, other) {
            (FsEntry::ExternalFile(a), FsEntry::ExternalFile(b)) => a.buffer_id == b.buffer_id,
            (FsEntry::Directory(a), FsEntry::Directory(b)) => a.worktree_id == b.worktree_id
                && a.entry.id == b.entry.id,
            (FsEntry::File(a), FsEntry::File(b)) => a.worktree_id == b.worktree_id && a.entry.id
                == b.entry.id && a.buffer_id == b.buffer_id,
            _ => false,
        }
    }

    /// The buffer of a file.
    pub open spec fn buffer(self) -> Option<BufferId> {
        match self {
            FsEntry::ExternalFile(file) => Some(file.buffer_id),
            FsEntry::File(file) => Some(file.buffer_id),
            FsEntry::Directory(_) => None,
        }
    }

    /// The buffer of a file.
    pub fn buffer_id(&self) -> (r: Option<BufferId>)
        ensures
            r == self.buffer(),
    {
        match self {
            FsEntry::ExternalFile(file) => Some(file.buffer_id),
            FsEntry::File(file) => Some(file.buffer_id),
            FsEntry::Directory(_) => None,
        }
    }

    /// The excerpts of a file.
    pub open spec fn shown_excerpts(self) -> Seq<ExcerptId> {
        match self {
            FsEntry::ExternalFile(file) => file.excerpts@,
            FsEntry::File(file) => file.excerpts@,
            FsEntry::Directory(_) => Seq::empty(),
        }
    }

    /// What hides the contents of the entry.
    pub open spec fn collapse_key(self) -> CollapsedEntry {
        match self {
            FsEntry::ExternalFile(file) => CollapsedEntry::ExternalFile(file.buffer_id),
            FsEntry::File(file) => CollapsedEntry::File(file.worktree_id, file.buffer_id),
            FsEntry::Directory(directory) => CollapsedEntry::Dir(
                directory.worktree_id,
                directory.entry.id,
            ),
        }
    }

    /// What hides the contents of the entry.
    pub fn collapsed_entry(&self) -> (r: CollapsedEntry)
        ensures
            r == self.collapse_key(),
    {
        match self {
            FsEntry::ExternalFile(file) => CollapsedEntry::ExternalFile(file.buffer_id),
            FsEntry::File(file) => CollapsedEntry::File(file.worktree_id, file.buffer_id),
            FsEntry::Directory(directory) => CollapsedEntry::Dir(
                directory.worktree_id,
                directory.entry.id,
            ),
        }
    }
}

/// Whether an id occurs among some ids.
pub fn contains_id(ids: &Vec<u64>, id: u64) -> (r: bool)
    ensures
        r == ids@.contains(id),
{
    let mut i: usize = 0;
    while i < ids.len()
        invariant
            i <= ids@.len(),
            forall|j: int| 0 <= j < i ==> ids@[j] != id,
        decreases ids.len() - i,
    {
        if ids[i] == id {
            assert(ids@[i as int] == id);
            return true;
        }
        i = i + 1;
    }
    false
}

/// Directories that are shown in one line.
#[derive(Debug)]
pub struct FoldedDirsEntry {
    pub worktree_id: WorktreeId,
    pub entries: Arc<Vec<GitEntry>>,
}

impl Clone for FoldedDirsEntry {
    fn clone(&self) -> (copy: FoldedDirsEntry)
        ensures
            copy == *self,
    {
        FoldedDirsEntry { worktree_id: self.worktree_id, entries: arc_clone(&self.entries) }
    }
}

/// Where a search looks.
#[derive(Copy, Clone, Debug, PartialEq, Eq, Structural)]
pub enum SearchKind {
    Project,
    Buffer,
}

/// The text around a match as it is shown.
#[derive(Debug)]
pub struct SearchData {
    pub context_start: usize,
    pub context_end: usize,
    pub context_text: String,
    /// The line goes on to the left, or to the right, of the text.
    pub truncated_left: bool,
    pub truncated_right: bool,
    /// Where the match is in the text, in bytes.
    pub match_start: usize,
    pub match_end: usize,
}

/// A match of a search.
#[derive(Debug)]
pub struct SearchEntry {
    pub match_range: AnchorRange,
    pub kind: SearchKind,
    /// The text around the match as it is shown, where it is at hand.
    pub render_data: Option<Arc<SearchData>>,
}

impl Clone for SearchEntry {
    fn clone(&self) -> (copy: SearchEntry)
        ensures
            copy == *self,
    {
        SearchEntry {
            match_range: self.match_range,
            kind: self.kind,
            render_data: match &self.render_data {
                Some(data) => Some(arc_clone(data)),
                None => None,
            },
        }
    }
}

#[derive(Copy, Clone, Debug, PartialEq, Eq, Structural)]
pub struct OutlineEntryExcerpt {
    pub id: ExcerptId,
    pub buffer_id: BufferId,
    pub range: ExcerptRange,
}

#[derive(Debug)]
pub struct OutlineEntryOutline {
    pub buffer_id: BufferId,
    pub excerpt_id: ExcerptId,
    pub outline: Arc<OutlineItem>,
}

impl Clone for OutlineEntryOutline {
    fn clone(&self) -> (copy: OutlineEntryOutline)
        ensures
            copy == *self,
    {
        OutlineEntryOutline {
            buffer_id: self.buffer_id,
            excerpt_id: self.excerpt_id,
            outline: arc_clone(&self.outline),
        }
    }
}

/// Whether two symbols are the same one.
pub open spec fn same_outline(a: OutlineEntryOutline, b: OutlineEntryOutline) -> bool {
    &&& a.buffer_id == b.buffer_id
    &&& a.excerpt_id == b.excerpt_id
    &&& a.outline.depth == b.outline.depth
    &&& a.outline.start == b.outline.start
    &&& a.outline.end == b.outline.end
    &&& a.outline.text@ == b.outline.text@
}

impl OutlineEntryOutline {
    pub fn same(&self, other: &OutlineEntryOutline) -> (r: bool)
        ensures
            r == same_outline(*self, *other),
    {
        self.buffer_id == other.buffer_id && self.excerpt_id == other.excerpt_id
            && self.outline.depth == other.outline.depth && self.outline.start
            == other.outline.start && self.outline.end == other.outline.end && str_eq(
            self.outline.text.as_str(),
            other.outline.text.as_str(),
        )
    }
}

#[derive(Debug)]
pub enum OutlineEntry {
    Excerpt(OutlineEntryExcerpt),
    Outline(OutlineEntryOutline),
}

impl OutlineEntry {
    /// The buffer and the excerpt that the entry is in.
    pub fn ids(&self) -> (r: (BufferId, ExcerptId))
        ensures
            r == match *self {
                OutlineEntry::Excerpt(excerpt) => (excerpt.buffer_id, excerpt.id),
                OutlineEntry::Outline(outline) => (outline.buffer_id, outline.excerpt_id),
            },
    {
        match self {
            OutlineEntry::Excerpt(excerpt) => (excerpt.buffer_id, excerpt.id),
            OutlineEntry::Outline(outline) => (outline.buffer_id, outline.excerpt_id),
        }
    }
}

impl Clone for OutlineEntry {
    fn clone(&self) -> (copy: OutlineEntry)
        ensures
            copy == *self,
    {
        match self {
            OutlineEntry::Excerpt(excerpt) => OutlineEntry::Excerpt(*excerpt),
            OutlineEntry::Outline(outline) => OutlineEntry::Outline(outline.clone()),
        }
    }
}

/// A line of the panel.
#[derive(Debug)]
pub enum PanelEntry {
    Fs(FsEntry),
    FoldedDirs(FoldedDirsEntry),
    Outline(OutlineEntry),
    Search(SearchEntry),
}

impl Clone for PanelEntry {
    fn clone(&self) -> (copy: PanelEntry)
        ensures
            copy == *self,
    {
        match self {
            PanelEntry::Fs(entry) => PanelEntry::Fs(entry.clone()),
            PanelEntry::FoldedDirs(entry) => PanelEntry::FoldedDirs(entry.clone()),
            PanelEntry::Outline(entry) => PanelEntry::Outline(entry.clone()),
            PanelEntry::Search(entry) => PanelEntry::Search(entry.clone()),
        }
    }
}

/// Whether two sequences of entries agree in all that is known of them.
pub open spec fn same_entries(a: Seq<GitEntry>, b: Seq<GitEntry>) -> bool {
    a.len() == b.len() && forall|i: int|
        0 <= i < a.len() ==> same_entry(#[trigger] a[i], b[i])
}

/// Whether two lines stand for the same thing.
pub open spec fn same_panel_entry(a: PanelEntry, b: PanelEntry) -> bool {
    match (a, b) {
        (PanelEntry::Fs(x), PanelEntry::Fs(y)) => same_fs_entry(x, y),
        (PanelEntry::FoldedDirs(x), PanelEntry::FoldedDirs(y)) => x.worktree_id == y.worktree_id
            && same_entries(x.entries@, y.entries@),
        (PanelEntry::Outline(x), PanelEntry::Outline(y)) => match (x, y) {
            (OutlineEntry::Excerpt(p), OutlineEntry::Excerpt(q)) => p == q,
            (OutlineEntry::Outline(p), OutlineEntry::Outline(q)) => same_outline(p, q),
            _ => false,
        },
        (PanelEntry::Search(x), PanelEntry::Search(y)) => x.match_range == y.match_range && x.kind
            == y.kind,
        _ => false,
    }
}

impl PanelEntry {
    /// Whether two lines stand for the same thing.
    pub fn same(&self, other: &PanelEntry) -> (r: bool)
        ensures
            r == same_panel_entry(*self, *other),
    {
        match (self, other) {
            (PanelEntry::Fs(a), PanelEntry::Fs(b)) => a.same(b),
            (PanelEntry::FoldedDirs(a), PanelEntry::FoldedDirs(b)) => {
                if a.worktree_id != b.worktree_id || a.entries.len() != b.entries.len() {
                    return false;
                }
                let mut i: usize = 0;
                while i < a.entries.len()
                    invariant
                        i <= a.entries@.len(),
                        a.entries@.len() == b.entries@.len(),
                        *self == PanelEntry::FoldedDirs(*a),
                        *other == PanelEntry::FoldedDirs(*b),
                        forall|j: int|
                            0 <= j < i ==> same_entry(#[trigger] a.entries@[j], b.entries@[j]),
                    decreases a.entries.len() - i,
                {
                    if !a.entries[i].same(&b.entries[i]) {
                        assert(!same_entry(a.entries@[i as int], b.entries@[i as int]));
                        return false;
                    }
                    i = i + 1;
                }
                true
            },
            (PanelEntry::Outline(a), PanelEntry::Outline(b)) => match (a, b) {
                (OutlineEntry::Excerpt(p), OutlineEntry::Excerpt(q)) => *p == *q,
                (OutlineEntry::Outline(p), OutlineEntry::Outline(q)) => p.same(q),
                _ => false,
            },
            (PanelEntry::Search(a), PanelEntry::Search(b)) => a.match_range == b.match_range
                && a.kind == b.kind,
            _ => false,
        }
    }
}

/// Standing for the same thing is reflexive and symmetric.
pub proof fn law_same_panel_entry(a: PanelEntry, b: PanelEntry)
    ensures
        same_panel_entry(a, a),
        same_panel_entry(a, b) == same_panel_entry(b, a),
{
    if let (PanelEntry::FoldedDirs(x), PanelEntry::FoldedDirs(y)) = (a, b) {
        if same_entries(x.entries@, y.entries@) {
            assert forall|i: int| 0 <= i < y.entries@.len() implies same_entry(
                #[trigger] y.entries@[i],
                x.entries@[i],
            ) by {
                assert(same_entry(x.entries@[i], y.entries@[i]));
            }
        }
        if same_entries(y.entries@, x.entries@) {
            assert forall|i: int| 0 <= i < x.entries@.len() implies same_entry(
                #[trigger] x.entries@[i],
                y.entries@[i],
            ) by {
                assert(same_entry(y.entries@[i], x.entries@[i]));
            }
        }
    }
}

/// What a search for a query found in a line.
#[derive(Debug)]
pub struct StringMatch {
    pub candidate_id: usize,
    pub positions: Vec<usize>,
}

/// A line of the panel with its indentation.
#[derive(Debug)]
pub struct CachedEntry {
    pub depth: usize,
    pub string_match: Option<StringMatch>,
    pub entry: PanelEntry,
}

/// The line that is selected.
#[derive(Debug)]
pub enum SelectedEntry {
    Invalidated(Option<PanelEntry>),
    Valid(PanelEntry, usize),
    Nothing,
}

impl SelectedEntry {
    /// The selection marked as to be found anew.
    pub open spec fn invalidated(self) -> SelectedEntry {
        match self {
            SelectedEntry::Valid(entry, _) => SelectedEntry::Invalidated(Some(entry)),
            SelectedEntry::Nothing => SelectedEntry::Invalidated(None),
            SelectedEntry::Invalidated(entry) => SelectedEntry::Invalidated(entry),
        }
    }

    /// The line that is or was selected.
    pub open spec fn entry(self) -> Option<PanelEntry> {
        match self {
            SelectedEntry::Valid(entry, _) => Some(entry),
            SelectedEntry::Invalidated(entry) => entry,
            SelectedEntry::Nothing => None,
        }
    }

    /// Marks the selection as to be found anew.
    pub fn invalidate(&mut self)
        ensures
            *final(self) == old(self).invalidated(),
    {
        let mut taken = SelectedEntry::Nothing;
        std::mem::swap(&mut taken, self);
        *self = match taken {
            SelectedEntry::Valid(entry, _) => SelectedEntry::Invalidated(Some(entry)),
            SelectedEntry::Nothing => SelectedEntry::Invalidated(None),
            SelectedEntry::Invalidated(entry) => SelectedEntry::Invalidated(entry),
        };
    }

    pub fn is_invalidated(&self) -> (r: bool)
        ensures
            r == (*self is Invalidated),
    {
        match self {
            SelectedEntry::Invalidated(_) => true,
            _ => false,
        }
    }

    /// The line that is or was selected.
    pub fn get(&self) -> (r: Option<&PanelEntry>)
        ensures
            match r {
                Some(entry) => self.entry() == Some(*entry),
                None => self.entry() is None,
            },
    {
        match self {
            SelectedEntry::Invalidated(entry) => match entry {
                Some(entry) => Some(entry),
                None => None,
            },
            SelectedEntry::Valid(entry, _) => Some(entry),
            SelectedEntry::Nothing => None,
        }
    }
}

} // verus!
