//! The files and directories that the panel shows, from the excerpts of the
//! editor.

use vstd::prelude::*;
use std::sync::Arc;
use crate::collections::{VecMap, VecSet};
use crate::outline_panel::entries::{
    BufferId, CollapsedEntry, EntryKey, Excerpt, ExcerptId, ExcerptOutlines, ExcerptRange,
    FsChildren, FsEntryExternalFile, GitEntry, ProjectEntryId, WorktreeId,
};
use crate::outline_panel::panel::{
    children_at, ChildCount, ExcerptKey, Excerpts, OutlinePanel, UnfoldedDirs,
};
use crate::path::{parent_of, path_before, RelPath};
use crate::shared::arc_clone;

verus! {

/// Where the file of a buffer lies.
#[derive(Debug)]
pub struct WorktreeFile {
    pub worktree_id: WorktreeId,
    pub root_entry_id: Option<ProjectEntryId>,
    /// The entry of the file and of the directories above it, from the file up.
    /// It is empty where the worktree has no entry for the file.
    pub chain: Arc<Vec<GitEntry>>,
}

impl Clone for WorktreeFile {
    fn clone(&self) -> (copy: WorktreeFile)
        ensures
            copy == *self,
    {
        WorktreeFile {
            worktree_id: self.worktree_id,
            root_entry_id: self.root_entry_id,
            chain: arc_clone(&self.chain),
        }
    }
}

/// An excerpt that the editor shows.
#[derive(Debug)]
pub struct ExcerptSnapshot {
    pub excerpt_id: ExcerptId,
    pub buffer_id: BufferId,
    pub range: ExcerptRange,
    /// The editor shows the buffer folded.
    pub is_folded: bool,
    pub file: Option<WorktreeFile>,
}

/// A buffer that the editor shows.
#[derive(Debug)]
pub struct BufferExcerpts {
    pub buffer_id: BufferId,
    pub is_new: bool,
    pub is_folded: bool,
    pub excerpts: Arc<Vec<ExcerptId>>,
    pub file: Option<WorktreeFile>,
}

/// A buffer that the editor shows.
pub struct BufferModel {
    pub buffer_id: BufferId,
    pub is_new: bool,
    pub is_folded: bool,
    pub excerpts: Seq<ExcerptId>,
    pub file: Option<WorktreeFile>,
}

/// Buffers and their excerpts.
pub open spec fn buffer_models(buffers: Seq<BufferExcerpts>) -> Seq<BufferModel> {
    Seq::new(
        buffers.len(),
        |i: int|
            BufferModel {
                buffer_id: buffers[i].buffer_id,
                is_new: buffers[i].is_new,
                is_folded: buffers[i].is_folded,
                excerpts: buffers[i].excerpts@,
                file: buffers[i].file,
            },
    )
}

/// Where a buffer stands among some, or how many there are.
pub open spec fn buffer_index(buffers: Seq<BufferModel>, buffer_id: BufferId) -> int
    decreases buffers.len(),
{
    if buffers.len() == 0 || buffers.first().buffer_id == buffer_id {
        0
    } else {
        1 + buffer_index(buffers.drop_first(), buffer_id)
    }
}

/// The buffers of some excerpts in the order in which they come, each with its
/// excerpts. A buffer is new if its first excerpt is, or if nothing was known of
/// it.
pub open spec fn grouped(
    known: Set<BufferId>,
    new_entries: Set<ExcerptId>,
    snapshots: Seq<ExcerptSnapshot>,
) -> Seq<BufferModel>
    decreases snapshots.len(),
{
    if snapshots.len() == 0 {
        Seq::empty()
    } else {
        let groups = grouped(known, new_entries, snapshots.drop_last());
        let snapshot = snapshots.last();
        let i: int = buffer_index(groups, snapshot.buffer_id);
        if i < groups.len() {
            groups.update(
                i,
                BufferModel {
                    excerpts: groups[i].excerpts.push(snapshot.excerpt_id),
                    ..groups[i]
                },
            )
        } else {
            groups.push(
                BufferModel {
                    buffer_id: snapshot.buffer_id,
                    is_new: new_entries.contains(snapshot.excerpt_id) || !known.contains(
                        snapshot.buffer_id,
                    ),
                    is_folded: snapshot.is_folded,
                    excerpts: seq![snapshot.excerpt_id],
                    file: snapshot.file,
                },
            )
        }
    }
}

/// The symbols that an excerpt starts with: those known of it if they are up to
/// date.
pub open spec fn kept_outlines(known: Map<ExcerptKey, Excerpt>, key: ExcerptKey) -> ExcerptOutlines {
    if known.contains_key(key) {
        match known[key].outlines {
            ExcerptOutlines::Outlines(outlines) => ExcerptOutlines::Outlines(outlines),
            _ => ExcerptOutlines::NotFetched,
        }
    } else {
        ExcerptOutlines::NotFetched
    }
}

/// The excerpts of the editor by buffer.
pub open spec fn excerpt_map(
    known: Map<ExcerptKey, Excerpt>,
    snapshots: Seq<ExcerptSnapshot>,
) -> Map<ExcerptKey, Excerpt>
    decreases snapshots.len(),
{
    if snapshots.len() == 0 {
        Map::empty()
    } else {
        let snapshot = snapshots.last();
        let key = ExcerptKey { buffer_id: snapshot.buffer_id, excerpt_id: snapshot.excerpt_id };
        excerpt_map(known, snapshots.drop_last()).insert(
            key,
            Excerpt { range: snapshot.range, outlines: kept_outlines(known, key) },
        )
    }
}

/// The buffers of some excerpts.
pub open spec fn buffer_set(snapshots: Seq<ExcerptSnapshot>) -> Set<BufferId>
    decreases snapshots.len(),
{
    if snapshots.len() == 0 {
        Set::empty()
    } else {
        buffer_set(snapshots.drop_last()).insert(snapshots.last().buffer_id)
    }
}

struct BufferGroup {
    buffer_id: BufferId,
    is_new: bool,
    is_folded: bool,
    excerpts: Vec<ExcerptId>,
    file: Option<WorktreeFile>,
}

spec fn group_models(groups: Seq<BufferGroup>) -> Seq<BufferModel> {
    Seq::new(
        groups.len(),
        |i: int|
            BufferModel {
                buffer_id: groups[i].buffer_id,
                is_new: groups[i].is_new,
                is_folded: groups[i].is_folded,
                excerpts: groups[i].excerpts@,
                file: groups[i].file,
            },
    )
}

fn find_group(groups: &Vec<BufferGroup>, buffer_id: BufferId) -> (r: usize)
    ensures
        r == buffer_index(group_models(groups@), buffer_id),
        r <= groups@.len(),
{
    let mut i: usize = 0;
    let ghost all = group_models(groups@);
    assert(all.skip(0) =~= all);
    while i < groups.len() && groups[i].buffer_id != buffer_id
        invariant
            i <= groups@.len(),
            all == group_models(groups@),
            i + buffer_index(all.skip(i as int), buffer_id) == buffer_index(all, buffer_id),
        decreases groups.len() - i,
    {
        proof {
            let here = all.skip(i as int);
            assert(here.drop_first() =~= all.skip(i + 1));
            assert(here.first() == all[i as int]);
        }
        i = i + 1;
    }
    assert(i < groups@.len() ==> all.skip(i as int).first() == all[i as int]);
    i
}

fn copy_ids(ids: &Vec<ExcerptId>) -> (r: Vec<ExcerptId>)
    ensures
        r@ == ids@,
{
    let mut r: Vec<ExcerptId> = Vec::new();
    let mut i: usize = 0;
    while i < ids.len()
        invariant
            i <= ids@.len(),
            r@ =~= ids@.take(i as int),
        decreases ids.len() - i,
    {
        r.push(ids[i]);
        i = i + 1;
    }
    assert(r@ =~= ids@);
    r
}

impl OutlinePanel {
    fn group(&self, new_entries: &VecSet<ExcerptId>, snapshots: &Vec<ExcerptSnapshot>) -> (groups:
        Vec<BufferGroup>)
        ensures
            group_models(groups@) == grouped(
                self.excerpts.buffers@,
                new_entries@,
                snapshots@,
            ),
    {
        let mut groups: Vec<BufferGroup> = Vec::new();
        let mut i: usize = 0;
        let ghost known = self.excerpts.buffers@;
        assert(snapshots@.take(0) =~= Seq::empty());
        assert(group_models(groups@) =~= Seq::empty());
        while i < snapshots.len()
            invariant
                i <= snapshots@.len(),
                known == self.excerpts.buffers@,
                group_models(groups@) == grouped(known, new_entries@, snapshots@.take(i as int)),
            decreases snapshots.len() - i,
        {
            let snapshot = &snapshots[i];
            let ghost before = groups@;
            let at: usize = find_group(&groups, snapshot.buffer_id);
            proof {
                let next = snapshots@.take(i + 1);
                assert(next.drop_last() =~= snapshots@.take(i as int));
                assert(next.last() == snapshots@[i as int]);
            }
            if at < groups.len() {
                let mut excerpts: Vec<ExcerptId> = copy_ids(&groups[at].excerpts);
                excerpts.push(snapshot.excerpt_id);
                let group = BufferGroup {
                    buffer_id: groups[at].buffer_id,
                    is_new: groups[at].is_new,
                    is_folded: groups[at].is_folded,
                    excerpts,
                    file: match &groups[at].file {
                        Some(file) => Some(file.clone()),
                        None => None,
                    },
                };
                groups.set(at, group);
                assert(group_models(groups@) =~= group_models(before).update(
                    at as int,
                    BufferModel {
                        excerpts: group_models(before)[at as int].excerpts.push(
                            snapshot.excerpt_id,
                        ),
                        ..group_models(before)[at as int]
                    },
                ));
            } else {
                let mut excerpts: Vec<ExcerptId> = Vec::new();
                excerpts.push(snapshot.excerpt_id);
                let is_new: bool = new_entries.contains(&snapshot.excerpt_id)
                    || !self.excerpts.buffers.contains(&snapshot.buffer_id);
                assert(excerpts@ =~= seq![snapshot.excerpt_id]);
                groups.push(
                    BufferGroup {
                        buffer_id: snapshot.buffer_id,
                        is_new,
                        is_folded: snapshot.is_folded,
                        excerpts,
                        file: match &snapshot.file {
                            Some(file) => Some(file.clone()),
                            None => None,
                        },
                    },
                );
                assert(group_models(groups@) =~= group_models(before).push(
                    BufferModel {
                        buffer_id: snapshot.buffer_id,
                        is_new,
                        is_folded: snapshot.is_folded,
                        excerpts: seq![snapshot.excerpt_id],
                        file: snapshot.file,
                    },
                ));
            }
            i = i + 1;
        }
        assert(snapshots@.take(i as int) =~= snapshots@);
        groups
    }

    /// The buffers of the excerpts of the editor in the order in which they come,
    /// each with its excerpts.
    pub fn group_excerpts(
        &self,
        new_entries: &VecSet<ExcerptId>,
        snapshots: &Vec<ExcerptSnapshot>,
    ) -> (buffers: Vec<BufferExcerpts>)
        ensures
            buffer_models(buffers@) == grouped(
                self.excerpts.buffers@,
                new_entries@,
                snapshots@,
            ),
    {
        let groups = self.group(new_entries, snapshots);
        let mut buffers: Vec<BufferExcerpts> = Vec::new();
        let mut i: usize = 0;
        while i < groups.len()
            invariant
                i <= groups@.len(),
                buffers@.len() == i,
                forall|j: int|
                    0 <= j < i ==> #[trigger] buffer_models(buffers@)[j] == group_models(
                        groups@,
                    )[j],
            decreases groups.len() - i,
        {
            let group = &groups[i];
            let ghost before = buffers@;
            buffers.push(
                BufferExcerpts {
                    buffer_id: group.buffer_id,
                    is_new: group.is_new,
                    is_folded: group.is_folded,
                    excerpts: Arc::new(copy_ids(&group.excerpts)),
                    file: match &group.file {
                        Some(file) => Some(file.clone()),
                        None => None,
                    },
                },
            );
            proof {
                assert forall|j: int| 0 <= j < i + 1 implies #[trigger] buffer_models(
                    buffers@,
                )[j] == group_models(groups@)[j] by {
                    if j < i {
                        assert(buffer_models(before)[j] == group_models(groups@)[j]);
                        assert(buffers@[j] == before[j]);
                    }
                }
            }
            i = i + 1;
        }
        assert(buffer_models(buffers@) =~= group_models(groups@));
        buffers
    }

    /// The excerpts of the editor by buffer. What is known of their symbols stays
    /// where it is up to date.
    pub fn refreshed_excerpts(&self, snapshots: &Vec<ExcerptSnapshot>) -> (r: Excerpts)
        ensures
            r.items.wf(),
            r.items@ == excerpt_map(self.excerpts.items@, snapshots@),
            r.buffers@ == buffer_set(snapshots@),
    {
        let mut items: VecMap<ExcerptKey, Excerpt> = VecMap::new();
        let mut buffers: VecSet<BufferId> = VecSet::new();
        let mut i: usize = 0;
        assert(snapshots@.take(0) =~= Seq::empty());
        while i < snapshots.len()
            invariant
                i <= snapshots@.len(),
                items.wf(),
                items@ == excerpt_map(self.excerpts.items@, snapshots@.take(i as int)),
                buffers@ == buffer_set(snapshots@.take(i as int)),
            decreases snapshots.len() - i,
        {
            let snapshot = &snapshots[i];
            proof {
                let next = snapshots@.take(i + 1);
                assert(next.drop_last() =~= snapshots@.take(i as int));
                assert(next.last() == snapshots@[i as int]);
            }
            let key = ExcerptKey {
                buffer_id: snapshot.buffer_id,
                excerpt_id: snapshot.excerpt_id,
            };
            let outlines = match self.excerpts.items.get(&key) {
                Some(excerpt) => match &excerpt.outlines {
                    ExcerptOutlines::Outlines(outlines) => ExcerptOutlines::Outlines(
                        arc_clone(outlines),
                    ),
                    _ => ExcerptOutlines::NotFetched,
                },
                None => ExcerptOutlines::NotFetched,
            };
            let _ = items.insert(key, Excerpt { range: snapshot.range, outlines });
            let _ = buffers.insert(snapshot.buffer_id);
            i = i + 1;
        }
        assert(snapshots@.take(i as int) =~= snapshots@);
        Excerpts { buffers, items }
    }
}

/// An entry of a worktree.
#[derive(Debug)]
pub struct WorktreeEntry {
    pub worktree_id: WorktreeId,
    pub entry: GitEntry,
}

/// A file that the editor shows.
#[derive(Debug)]
pub struct FileExcerpts {
    pub buffer_id: BufferId,
    pub excerpts: Arc<Vec<ExcerptId>>,
}

/// The files and directories found so far.
#[derive(Debug)]
pub struct Gathering {
    pub collapsed: VecSet<CollapsedEntry>,
    pub unfolded: UnfoldedDirs,
    pub roots: VecSet<ProjectEntryId>,
    /// By worktree and path.
    pub entries: Vec<WorktreeEntry>,
    pub files: VecMap<EntryKey, FileExcerpts>,
    /// By buffer.
    pub external: Vec<FsEntryExternalFile>,
}

/// The files and directories found so far.
#[verifier::ext_equal]
pub struct Gathered {
    pub collapsed: Set<CollapsedEntry>,
    pub unfolded_worktrees: Set<WorktreeId>,
    pub unfolded_dirs: Set<EntryKey>,
    pub roots: Set<ProjectEntryId>,
    pub entries: Seq<WorktreeEntry>,
    pub files: Map<EntryKey, FileExcerpts>,
    pub external: Seq<FsEntryExternalFile>,
}

impl View for Gathering {
    type V = Gathered;

    open spec fn view(&self) -> Gathered {
        Gathered {
            collapsed: self.collapsed@,
            unfolded_worktrees: self.unfolded.worktrees@,
            unfolded_dirs: self.unfolded.dirs@,
            roots: self.roots@,
            entries: self.entries@,
            files: self.files@,
            external: self.external@,
        }
    }
}

/// Whether an entry is listed before another: by worktree, then by path.
pub open spec fn listed_before(a: WorktreeEntry, b: WorktreeEntry) -> bool {
    a.worktree_id < b.worktree_id || (a.worktree_id == b.worktree_id && path_before(
        a.entry.path@,
        b.entry.path@,
    ))
}

/// Where an entry stands among some, or how many there are.
pub open spec fn entry_index(
    entries: Seq<WorktreeEntry>,
    worktree_id: WorktreeId,
    id: ProjectEntryId,
) -> int
    decreases entries.len(),
{
    if entries.len() == 0 || (entries.first().worktree_id == worktree_id
        && entries.first().entry.id == id) {
        0
    } else {
        1 + entry_index(entries.drop_first(), worktree_id, id)
    }
}

/// Where an entry is to be put: ahead of the first that is listed after it.
pub open spec fn slot(entries: Seq<WorktreeEntry>, new: WorktreeEntry) -> int
    decreases entries.len(),
{
    if entries.len() == 0 || listed_before(new, entries.first()) {
        0
    } else {
        1 + slot(entries.drop_first(), new)
    }
}

/// Entries without the one that has the worktree and the id of another.
pub open spec fn without_entry(
    entries: Seq<WorktreeEntry>,
    worktree_id: WorktreeId,
    id: ProjectEntryId,
) -> Seq<WorktreeEntry> {
    let i: int = entry_index(entries, worktree_id, id);
    if i < entries.len() {
        entries.remove(i)
    } else {
        entries
    }
}

/// Puts an entry in its place, instead of the one with its worktree and id.
pub open spec fn upserted(entries: Seq<WorktreeEntry>, new: WorktreeEntry) -> Seq<WorktreeEntry> {
    let rest = without_entry(entries, new.worktree_id, new.entry.id);
    rest.insert(slot(rest, new), new)
}

/// Where a buffer outside all worktrees is to be put.
pub open spec fn external_slot(external: Seq<FsEntryExternalFile>, buffer_id: BufferId) -> int
    decreases external.len(),
{
    if external.len() == 0 || buffer_id <= external.first().buffer_id {
        0
    } else {
        1 + external_slot(external.drop_first(), buffer_id)
    }
}

/// Puts a buffer outside all worktrees in its place, if it is not there yet.
pub open spec fn with_external(
    external: Seq<FsEntryExternalFile>,
    file: FsEntryExternalFile,
) -> Seq<FsEntryExternalFile> {
    let i: int = external_slot(external, file.buffer_id);
    if i < external.len() && external[i].buffer_id == file.buffer_id {
        external
    } else {
        external.insert(i, file)
    }
}

/// The entry of a file and of the directories above it. The root of a worktree
/// is never shown in one line with others, and what is new is not collapsed.
pub open spec fn climbed(
    gathered: Gathered,
    auto_fold_dirs: bool,
    file: WorktreeFile,
    is_new: bool,
    chain: Seq<GitEntry>,
    seen: Set<ProjectEntryId>,
) -> Gathered
    decreases chain.len(),
{
    if chain.len() == 0 {
        gathered
    } else {
        let entry = chain.first();
        let key = EntryKey { worktree_id: file.worktree_id, entry_id: entry.id };
        let is_root = entry.is_dir && file.root_entry_id == Some(entry.id);
        let next = Gathered {
            roots: if is_root {
                gathered.roots.insert(entry.id)
            } else {
                gathered.roots
            },
            unfolded_dirs: if is_root && auto_fold_dirs {
                gathered.unfolded_dirs.insert(key)
            } else {
                gathered.unfolded_dirs
            },
            collapsed: if entry.is_dir && is_new {
                gathered.collapsed.remove(CollapsedEntry::Dir(file.worktree_id, entry.id))
            } else {
                gathered.collapsed
            },
            entries: upserted(
                gathered.entries,
                WorktreeEntry { worktree_id: file.worktree_id, entry },
            ),
            ..gathered
        };
        if seen.contains(entry.id) {
            next
        } else {
            climbed(
                next,
                auto_fold_dirs,
                file,
                is_new,
                chain.drop_first(),
                seen.insert(entry.id),
            )
        }
    }
}

/// What hides the contents of a buffer.
pub open spec fn buffer_key(buffer: BufferExcerpts) -> CollapsedEntry {
    match buffer.file {
        Some(file) => CollapsedEntry::File(file.worktree_id, buffer.buffer_id),
        None => CollapsedEntry::ExternalFile(buffer.buffer_id),
    }
}

/// Adds a buffer. One that the editor shows folded is collapsed.
pub open spec fn with_buffer(
    gathered: Gathered,
    auto_fold_dirs: bool,
    buffer: BufferExcerpts,
) -> Gathered {
    let key = buffer_key(buffer);
    let start = Gathered {
        collapsed: if buffer.is_folded {
            gathered.collapsed.insert(key)
        } else if buffer.is_new {
            gathered.collapsed.remove(key)
        } else {
            gathered.collapsed
        },
        unfolded_worktrees: match buffer.file {
            Some(file) => gathered.unfolded_worktrees.insert(file.worktree_id),
            None => gathered.unfolded_worktrees,
        },
        ..gathered
    };
    if buffer.file is Some && buffer.file->0.chain@.len() > 0 {
        let file = buffer.file->0;
        climbed(
            Gathered {
                files: start.files.insert(
                    EntryKey { worktree_id: file.worktree_id, entry_id: file.chain@[0].id },
                    FileExcerpts { buffer_id: buffer.buffer_id, excerpts: buffer.excerpts },
                ),
                ..start
            },
            auto_fold_dirs,
            file,
            buffer.is_new,
            file.chain@,
            Set::empty(),
        )
    } else {
        Gathered {
            external: with_external(
                start.external,
                FsEntryExternalFile { buffer_id: buffer.buffer_id, excerpts: buffer.excerpts },
            ),
            ..start
        }
    }
}

/// All that some buffers add.
pub open spec fn with_buffers(
    start: Gathered,
    auto_fold_dirs: bool,
    buffers: Seq<BufferExcerpts>,
) -> Gathered
    decreases buffers.len(),
{
    if buffers.len() == 0 {
        start
    } else {
        with_buffer(
            with_buffers(start, auto_fold_dirs, buffers.drop_last()),
            auto_fold_dirs,
            buffers.last(),
        )
    }
}

impl WorktreeEntry {
    pub fn comes_before(&self, other: &WorktreeEntry) -> (r: bool)
        ensures
            r == listed_before(*self, *other),
    {
        self.worktree_id < other.worktree_id || (self.worktree_id == other.worktree_id
            && self.entry.path.comes_before(&*other.entry.path))
    }
}

fn find_entry(entries: &Vec<WorktreeEntry>, worktree_id: WorktreeId, id: ProjectEntryId) -> (r:
    usize)
    ensures
        r == entry_index(entries@, worktree_id, id),
        r <= entries@.len(),
{
    let mut i: usize = 0;
    assert(entries@.skip(0) =~= entries@);
    while i < entries.len() && !(entries[i].worktree_id == worktree_id && entries[i].entry.id
        == id)
        invariant
            i <= entries@.len(),
            i + entry_index(entries@.skip(i as int), worktree_id, id) == entry_index(
                entries@,
                worktree_id,
                id,
            ),
        decreases entries.len() - i,
    {
        proof {
            let here = entries@.skip(i as int);
            assert(here.drop_first() =~= entries@.skip(i + 1));
            assert(here.first() == entries@[i as int]);
        }
        i = i + 1;
    }
    assert(i < entries@.len() ==> entries@.skip(i as int).first() == entries@[i as int]);
    i
}

fn find_slot(entries: &Vec<WorktreeEntry>, new: &WorktreeEntry) -> (r: usize)
    ensures
        r == slot(entries@, *new),
        r <= entries@.len(),
{
    let mut i: usize = 0;
    assert(entries@.skip(0) =~= entries@);
    while i < entries.len() && !new.comes_before(&entries[i])
        invariant
            i <= entries@.len(),
            i + slot(entries@.skip(i as int), *new) == slot(entries@, *new),
        decreases entries.len() - i,
    {
        proof {
            let here = entries@.skip(i as int);
            assert(here.drop_first() =~= entries@.skip(i + 1));
            assert(here.first() == entries@[i as int]);
        }
        i = i + 1;
    }
    assert(i < entries@.len() ==> entries@.skip(i as int).first() == entries@[i as int]);
    i
}

/// Puts an entry in its place, instead of the one with its worktree and id.
pub fn upsert(entries: &mut Vec<WorktreeEntry>, new: WorktreeEntry)
    ensures
        final(entries)@ == upserted(old(entries)@, new),
{
    let at: usize = find_entry(entries, new.worktree_id, new.entry.id);
    if at < entries.len() {
        let _ = entries.remove(at);
    }
    let to: usize = find_slot(entries, &new);
    entries.insert(to, new);
}

fn find_external(external: &Vec<FsEntryExternalFile>, buffer_id: BufferId) -> (r: usize)
    ensures
        r == external_slot(external@, buffer_id),
        r <= external@.len(),
{
    let mut i: usize = 0;
    assert(external@.skip(0) =~= external@);
    while i < external.len() && external[i].buffer_id < buffer_id
        invariant
            i <= external@.len(),
            i + external_slot(external@.skip(i as int), buffer_id) == external_slot(
                external@,
                buffer_id,
            ),
        decreases external.len() - i,
    {
        proof {
            let here = external@.skip(i as int);
            assert(here.drop_first() =~= external@.skip(i + 1));
            assert(here.first() == external@[i as int]);
        }
        i = i + 1;
    }
    assert(i < external@.len() ==> external@.skip(i as int).first() == external@[i as int]);
    i
}

impl Gathering {
    fn climb(&mut self, auto_fold_dirs: bool, file: &WorktreeFile, is_new: bool)
        requires
            old(self).files.wf(),
        ensures
            final(self).files.wf(),
            final(self)@ == climbed(
                old(self)@,
                auto_fold_dirs,
                *file,
                is_new,
                file.chain@,
                Set::empty(),
            ),
    {
        let mut seen: VecSet<ProjectEntryId> = VecSet::new();
        let mut i: usize = 0;
        let ghost goal = climbed(
            self@,
            auto_fold_dirs,
            *file,
            is_new,
            file.chain@,
            Set::empty(),
        );
        assert(file.chain@.skip(0) =~= file.chain@);
        while i < file.chain.len()
            invariant
                i <= file.chain@.len(),
                self.files.wf(),
                goal == climbed(
                    old(self)@,
                    auto_fold_dirs,
                    *file,
                    is_new,
                    file.chain@,
                    Set::empty(),
                ),
                climbed(
                    self@,
                    auto_fold_dirs,
                    *file,
                    is_new,
                    file.chain@.skip(i as int),
                    seen@,
                ) == goal,
            decreases file.chain.len() - i,
        {
            let entry = &file.chain[i];
            proof {
                let here = file.chain@.skip(i as int);
                assert(here.drop_first() =~= file.chain@.skip(i + 1));
                assert(here.first() == file.chain@[i as int]);
            }
            let ghost before = self@;
            if entry.is_dir {
                let is_root: bool = match file.root_entry_id {
                    Some(root) => root == entry.id,
                    None => false,
                };
                if is_root {
                    let _ = self.roots.insert(entry.id);
                    if auto_fold_dirs {
                        let _ = self.unfolded.dirs.insert(
                            EntryKey { worktree_id: file.worktree_id, entry_id: entry.id },
                        );
                    }
                }
                if is_new {
                    let _ = self.collapsed.remove(
                        &CollapsedEntry::Dir(file.worktree_id, entry.id),
                    );
                }
            }
            upsert(
                &mut self.entries,
                WorktreeEntry { worktree_id: file.worktree_id, entry: entry.clone() },
            );
            let added: bool = seen.insert(entry.id);
            if !added {
                assert(self@ =~= goal);
                return;
            }
            i = i + 1;
        }
    }

    fn add_external(&mut self, buffer: &BufferExcerpts)
        requires
            old(self).files.wf(),
        ensures
            final(self).files.wf(),
            final(self)@ == (Gathered {
                external: with_external(
                    old(self)@.external,
                    FsEntryExternalFile { buffer_id: buffer.buffer_id, excerpts: buffer.excerpts },
                ),
                ..old(self)@
            }),
    {
        let at: usize = find_external(&self.external, buffer.buffer_id);
        if at < self.external.len() && self.external[at].buffer_id == buffer.buffer_id {
            return;
        }
        self.external.insert(
            at,
            FsEntryExternalFile {
                buffer_id: buffer.buffer_id,
                excerpts: arc_clone(&buffer.excerpts),
            },
        );
    }

    /// Adds a buffer. One that the editor shows folded is collapsed.
    pub fn add_buffer(&mut self, auto_fold_dirs: bool, buffer: &BufferExcerpts)
        requires
            old(self).files.wf(),
        ensures
            final(self).files.wf(),
            final(self)@ == with_buffer(old(self)@, auto_fold_dirs, *buffer),
    {
        let key = match &buffer.file {
            Some(file) => CollapsedEntry::File(file.worktree_id, buffer.buffer_id),
            None => CollapsedEntry::ExternalFile(buffer.buffer_id),
        };
        if buffer.is_folded {
            let _ = self.collapsed.insert(key);
        } else if buffer.is_new {
            let _ = self.collapsed.remove(&key);
        }
        match &buffer.file {
            Some(file) => {
                let _ = self.unfolded.worktrees.insert(file.worktree_id);
                if file.chain.len() > 0 {
                    let _ = self.files.insert(
                        EntryKey { worktree_id: file.worktree_id, entry_id: file.chain[0].id },
                        FileExcerpts {
                            buffer_id: buffer.buffer_id,
                            excerpts: arc_clone(&buffer.excerpts),
                        },
                    );
                    self.climb(auto_fold_dirs, file, buffer.is_new);
                } else {
                    self.add_external(buffer);
                }
            },
            None => {
                self.add_external(buffer);
            },
        }
    }

    /// Adds buffers.
    pub fn add_buffers(&mut self, auto_fold_dirs: bool, buffers: &Vec<BufferExcerpts>)
        requires
            old(self).files.wf(),
        ensures
            final(self).files.wf(),
            final(self)@ == with_buffers(old(self)@, auto_fold_dirs, buffers@),
    {
        let mut i: usize = 0;
        let ghost start = self@;
        assert(buffers@.take(0) =~= Seq::empty());
        while i < buffers.len()
            invariant
                i <= buffers@.len(),
                self.files.wf(),
                self@ == with_buffers(start, auto_fold_dirs, buffers@.take(i as int)),
            decreases buffers.len() - i,
        {
            proof {
                let next = buffers@.take(i + 1);
                assert(next.drop_last() =~= buffers@.take(i as int));
                assert(next.last() == buffers@[i as int]);
            }
            self.add_buffer(auto_fold_dirs, &buffers[i]);
            i = i + 1;
        }
        assert(buffers@.take(i as int) =~= buffers@);
    }
}

/// How many of some entries lie directly in a directory.
pub open spec fn counted(
    entries: Seq<WorktreeEntry>,
    worktree_id: WorktreeId,
    path: Seq<Seq<char>>,
) -> FsChildren
    decreases entries.len(),
{
    if entries.len() == 0 {
        FsChildren { files: 0, dirs: 0 }
    } else {
        let rest = counted(entries.drop_last(), worktree_id, path);
        let last = entries.last();
        if last.worktree_id == worktree_id && parent_of(last.entry.path@) == Some(path) {
            if last.entry.is_dir {
                FsChildren { files: rest.files, dirs: (rest.dirs + 1) as usize }
            } else {
                FsChildren { files: (rest.files + 1) as usize, dirs: rest.dirs }
            }
        } else {
            rest
        }
    }
}

proof fn lemma_counted_bound(
    entries: Seq<WorktreeEntry>,
    worktree_id: WorktreeId,
    path: Seq<Seq<char>>,
)
    requires
        entries.len() <= usize::MAX,
    ensures
        counted(entries, worktree_id, path).files + counted(entries, worktree_id, path).dirs
            <= entries.len(),
    decreases entries.len(),
{
    if entries.len() > 0 {
        lemma_counted_bound(entries.drop_last(), worktree_id, path);
    }
}

/// Changing one count changes it for its directory alone.
proof fn lemma_children_update(
    counts: Seq<ChildCount>,
    i: int,
    new: ChildCount,
    worktree_id: WorktreeId,
    path: Seq<Seq<char>>,
)
    requires
        0 <= i < counts.len(),
        new.worktree_id == counts[i].worktree_id,
        new.path@ == counts[i].path@,
        forall|j: int|
            i < j < counts.len() ==> !((#[trigger] counts[j]).worktree_id == new.worktree_id
                && counts[j].path@ == new.path@),
    ensures
        children_at(counts.update(i, new), worktree_id, path) == (if new.worktree_id
            == worktree_id && new.path@ == path {
            new.children
        } else {
            children_at(counts, worktree_id, path)
        }),
    decreases counts.len(),
{
    let now = counts.update(i, new);
    if i == counts.len() - 1 {
        assert(now.drop_last() =~= counts.drop_last());
    } else {
        assert(now.drop_last() =~= counts.drop_last().update(i, new));
        assert(now.last() == counts.last());
        let rest = counts.drop_last();
        assert forall|j: int| i < j < rest.len() implies !((#[trigger] rest[j]).worktree_id
            == new.worktree_id && rest[j].path@ == new.path@) by {
            assert(rest[j] == counts[j]);
        }
        lemma_children_update(rest, i, new, worktree_id, path);
    }
}

proof fn lemma_children_push(
    counts: Seq<ChildCount>,
    new: ChildCount,
    worktree_id: WorktreeId,
    path: Seq<Seq<char>>,
)
    ensures
        children_at(counts.push(new), worktree_id, path) == (if new.worktree_id == worktree_id
            && new.path@ == path {
            new.children
        } else {
            children_at(counts, worktree_id, path)
        }),
{
    assert(counts.push(new).drop_last() =~= counts);
}

/// A directory without a count has nothing counted.
proof fn lemma_children_absent(
    counts: Seq<ChildCount>,
    worktree_id: WorktreeId,
    path: Seq<Seq<char>>,
)
    requires
        forall|j: int|
            0 <= j < counts.len() ==> !((#[trigger] counts[j]).worktree_id == worktree_id
                && counts[j].path@ == path),
    ensures
        children_at(counts, worktree_id, path) == (FsChildren { files: 0, dirs: 0 }),
    decreases counts.len(),
{
    if counts.len() > 0 {
        let rest = counts.drop_last();
        assert(counts.last() == counts[counts.len() - 1]);
        assert forall|j: int| 0 <= j < rest.len() implies !((#[trigger] rest[j]).worktree_id
            == worktree_id && rest[j].path@ == path) by {
            assert(rest[j] == counts[j]);
        }
        lemma_children_absent(rest, worktree_id, path);
    }
}

proof fn lemma_children_found(
    counts: Seq<ChildCount>,
    i: int,
    worktree_id: WorktreeId,
    path: Seq<Seq<char>>,
)
    requires
        0 <= i < counts.len(),
        counts[i].worktree_id == worktree_id,
        counts[i].path@ == path,
        forall|j: int|
            i < j < counts.len() ==> !((#[trigger] counts[j]).worktree_id == worktree_id
                && counts[j].path@ == path),
    ensures
        children_at(counts, worktree_id, path) == counts[i].children,
    decreases counts.len(),
{
    if i < counts.len() - 1 {
        let rest = counts.drop_last();
        assert(counts.last() == counts[counts.len() - 1]);
        assert forall|j: int| i < j < rest.len() implies !((#[trigger] rest[j]).worktree_id
            == worktree_id && rest[j].path@ == path) by {
            assert(rest[j] == counts[j]);
        }
        lemma_children_found(rest, i, worktree_id, path);
    }
}

/// One more file or directory.
pub open spec fn one_more(children: FsChildren, is_dir: bool) -> FsChildren {
    if is_dir {
        FsChildren { files: children.files, dirs: (children.dirs + 1) as usize }
    } else {
        FsChildren { files: (children.files + 1) as usize, dirs: children.dirs }
    }
}

fn count_child(
    counts: &mut Vec<ChildCount>,
    worktree_id: WorktreeId,
    parent: RelPath,
    is_dir: bool,
)
    requires
        children_at(old(counts)@, worktree_id, parent@).files < usize::MAX,
        children_at(old(counts)@, worktree_id, parent@).dirs < usize::MAX,
    ensures
        forall|w: WorktreeId, p: Seq<Seq<char>>| #[trigger]
            children_at(final(counts)@, w, p) == (if w == worktree_id && p == parent@ {
                one_more(children_at(old(counts)@, w, p), is_dir)
            } else {
                children_at(old(counts)@, w, p)
            }),
{
    let mut i: usize = counts.len();
    let ghost before = counts@;
    while i > 0
        invariant
            i <= counts@.len(),
            counts@ == before,
            before == old(counts)@,
            children_at(before, worktree_id, parent@).files < usize::MAX,
            children_at(before, worktree_id, parent@).dirs < usize::MAX,
            forall|j: int|
                i <= j < before.len() ==> !((#[trigger] before[j]).worktree_id == worktree_id
                    && before[j].path@ == parent@),
        decreases i,
    {
        let at: usize = i - 1;
        if counts[at].worktree_id == worktree_id && counts[at].path.same(&parent) {
            proof {
                lemma_children_found(before, at as int, worktree_id, parent@);
            }
            let children = counts[at].children;
            let new = ChildCount {
                worktree_id,
                path: arc_clone(&counts[at].path),
                children: if is_dir {
                    FsChildren { files: children.files, dirs: children.dirs + 1 }
                } else {
                    FsChildren { files: children.files + 1, dirs: children.dirs }
                },
            };
            let ghost now = new;
            counts.set(at, new);
            proof {
                assert forall|w: WorktreeId, p: Seq<Seq<char>>| #[trigger]
                    children_at(counts@, w, p) == (if w == worktree_id && p == parent@ {
                        one_more(children_at(before, w, p), is_dir)
                    } else {
                        children_at(before, w, p)
                    }) by {
                    lemma_children_update(before, at as int, now, w, p);
                }
            }
            return;
        }
        i = at;
    }
    proof {
        lemma_children_absent(before, worktree_id, parent@);
    }
    let new = ChildCount {
        worktree_id,
        path: Arc::new(parent),
        children: if is_dir {
            FsChildren { files: 0, dirs: 1 }
        } else {
            FsChildren { files: 1, dirs: 0 }
        },
    };
    let ghost now = new;
    counts.push(new);
    proof {
        assert forall|w: WorktreeId, p: Seq<Seq<char>>| #[trigger]
            children_at(counts@, w, p) == (if w == worktree_id && p == parent@ {
                one_more(children_at(before, w, p), is_dir)
            } else {
                children_at(before, w, p)
            }) by {
            lemma_children_push(before, now, w, p);
        }
    }
}

/// How many files and directories lie directly in each directory.
pub fn count_children(entries: &Vec<WorktreeEntry>) -> (counts: Vec<ChildCount>)
    ensures
        forall|w: WorktreeId, p: Seq<Seq<char>>| #[trigger]
            children_at(counts@, w, p) == counted(entries@, w, p),
{
    let mut counts: Vec<ChildCount> = Vec::new();
    let mut i: usize = 0;
    assert(entries@.take(0) =~= Seq::empty());
    while i < entries.len()
        invariant
            i <= entries@.len(),
            forall|w: WorktreeId, p: Seq<Seq<char>>| #[trigger]
                children_at(counts@, w, p) == counted(entries@.take(i as int), w, p),
        decreases entries.len() - i,
    {
        let entry = &entries[i];
        proof {
            let next = entries@.take(i + 1);
            assert(next.drop_last() =~= entries@.take(i as int));
            assert(next.last() == entries@[i as int]);
        }
        match entry.entry.path.parent() {
            Some(parent) => {
                proof {
                    lemma_counted_bound(entries@.take(i as int), entry.worktree_id, parent@);
                }
                count_child(&mut counts, entry.worktree_id, parent, entry.entry.is_dir);
            },
            None => {},
        }
        i = i + 1;
    }
    assert(entries@.take(i as int) =~= entries@);
    counts
}

} // verus!
