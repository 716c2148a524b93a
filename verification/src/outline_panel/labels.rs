//! The texts of the lines of the panel and how wide they are.

use vstd::prelude::*;
use crate::outline_panel::entries::{
    ExcerptRange, FsEntry, GitEntry, OutlineEntry, OutlineEntryExcerpt, OutlineEntryOutline,
    PanelEntry, SearchEntry, WorktreeId,
};
use crate::outline_panel::panel::{worktree_at, PanelEnv};
use crate::path::{file_name, name_of, push_path, pushed_path, AnyPath, Component};
use crate::text::{byte_len, copy_text, decimal, push_decimal, text_len};

verus! {

/// A line of the panel, by what it shows.
pub enum Line {
    Fs(FsEntry),
    Folded(WorktreeId, Seq<GitEntry>),
    Excerpt(OutlineEntryExcerpt),
    Outline(OutlineEntryOutline),
    Search(SearchEntry),
}

/// What a line shows.
pub open spec fn line_of(entry: PanelEntry) -> Line {
    match entry {
        PanelEntry::Fs(entry) => Line::Fs(entry),
        PanelEntry::FoldedDirs(dirs) => Line::Folded(dirs.worktree_id, dirs.entries@),
        PanelEntry::Outline(OutlineEntry::Excerpt(excerpt)) => Line::Excerpt(excerpt),
        PanelEntry::Outline(OutlineEntry::Outline(outline)) => Line::Outline(outline),
        PanelEntry::Search(entry) => Line::Search(entry),
    }
}

/// The last name of the path of an entry, if it has one.
pub open spec fn own_name(entry: GitEntry) -> Seq<char> {
    if entry.path@.len() == 0 {
        Seq::empty()
    } else {
        entry.path@.last()
    }
}

/// The name to show for an entry of a worktree: that of the worktree for its
/// root, else the last name of its path.
pub open spec fn entry_name_spec(
    env: PanelEnv,
    worktree_id: WorktreeId,
    entry: GitEntry,
) -> Seq<char> {
    match worktree_at(env.worktrees@, worktree_id) {
        Some(worktree) => if (worktree.root_entry is Some && worktree.root_entry->0.id == entry.id)
            || entry.path@.len() == 0 {
            name_of(worktree.abs_path)
        } else {
            entry.path@.last()
        },
        None => own_name(entry),
    }
}

/// The name to show for an entry of a worktree.
pub fn entry_name(env: &PanelEnv, worktree_id: WorktreeId, entry: &GitEntry) -> (r: String)
    ensures
        r@ == entry_name_spec(*env, worktree_id, *entry),
{
    match env.worktree(worktree_id) {
        Some(worktree) => {
            let is_root: bool = match &worktree.root_entry {
                Some(root) => root.id == entry.id,
                None => false,
            };
            match entry.path.file_name() {
                Some(name) => if is_root {
                    file_name(&worktree.abs_path)
                } else {
                    copy_text(name.as_str())
                },
                None => file_name(&worktree.abs_path),
            }
        },
        None => match entry.path.file_name() {
            Some(name) => copy_text(name.as_str()),
            None => String::new(),
        },
    }
}

/// The names of some directories, one below the other, as a path.
pub open spec fn dir_names(env: PanelEnv, worktree_id: WorktreeId, entries: Seq<GitEntry>) -> Seq<
    char,
>
    decreases entries.len(),
{
    if entries.len() == 0 {
        Seq::empty()
    } else {
        pushed_path(
            dir_names(env, worktree_id, entries.drop_last()),
            entry_name_spec(env, worktree_id, entries.last()),
            env.os,
        )
    }
}

/// The names of some directories, one below the other, as a path.
pub fn dir_names_string(env: &PanelEnv, worktree_id: WorktreeId, entries: &Vec<GitEntry>) -> (r:
    String)
    ensures
        r@ == dir_names(*env, worktree_id, entries@),
{
    let mut path: String = String::new();
    let mut i: usize = 0;
    assert(entries@.take(0) =~= Seq::empty());
    while i < entries.len()
        invariant
            i <= entries@.len(),
            path@ == dir_names(*env, worktree_id, entries@.take(i as int)),
        decreases entries.len() - i,
    {
        let name: String = entry_name(env, worktree_id, &entries[i]);
        proof {
            let next = entries@.take(i + 1);
            assert(next.drop_last() =~= entries@.take(i as int));
            assert(next.last() == entries@[i as int]);
        }
        path = push_path(path.as_str(), name.as_str(), env.os);
        i = i + 1;
    }
    assert(entries@.take(i as int) =~= entries@);
    path
}

/// The label of an excerpt: the rows it shows, counted from one.
pub open spec fn excerpt_label_spec(range: ExcerptRange) -> Option<Seq<char>> {
    match range.rows {
        Some(rows) => Some(
            seq!['L', 'i', 'n', 'e', 's', ' '] + decimal((rows.start + 1) as nat) + seq!['-', ' ']
                + decimal((rows.end + 1) as nat),
        ),
        None => None,
    }
}

/// The label of an excerpt: the rows it shows, counted from one.
pub fn excerpt_label(range: &ExcerptRange) -> (r: Option<String>)
    ensures
        match r {
            Some(label) => excerpt_label_spec(*range) == Some(label@),
            None => excerpt_label_spec(*range) is None,
        },
{
    match range.rows {
        Some(rows) => {
            let mut label: String = String::new();
            label.push_str("Lines ");
            push_decimal(&mut label, rows.start as u64 + 1);
            label.push_str("- ");
            push_decimal(&mut label, rows.end as u64 + 1);
            proof {
                reveal_strlit("Lines ");
                reveal_strlit("- ");
                assert("Lines "@ =~= seq!['L', 'i', 'n', 'e', 's', ' ']);
                assert("- "@ =~= seq!['-', ' ']);
                assert(label@ =~= seq!['L', 'i', 'n', 'e', 's', ' '] + decimal(
                    (rows.start + 1) as nat,
                ) + seq!['-', ' '] + decimal((rows.end + 1) as nat));
            }
            Some(label)
        },
        None => None,
    }
}

/// The last name of a path, if the path ends with one.
pub open spec fn final_name(path: AnyPath) -> Seq<char> {
    if path.components@.len() == 0 {
        Seq::empty()
    } else {
        match path.components@.last() {
            Component::Normal(name) => name@,
            _ => Seq::empty(),
        }
    }
}

/// The sum of the lengths of the names of some directories.
pub open spec fn names_len(entries: Seq<GitEntry>) -> nat
    decreases entries.len(),
{
    if entries.len() == 0 {
        0
    } else {
        names_len(entries.drop_last()) + byte_len(own_name(entries.last()))
    }
}

/// The length of the text of a line.
pub open spec fn line_len(env: PanelEnv, line: Line) -> nat {
    match line {
        Line::Fs(FsEntry::ExternalFile(file)) => if env.buffer_paths@.contains_key(
            file.buffer_id,
        ) {
            byte_len(final_name(env.buffer_paths@[file.buffer_id]))
        } else {
            0
        },
        Line::Fs(FsEntry::Directory(directory)) => byte_len(own_name(directory.entry)),
        Line::Fs(FsEntry::File(file)) => byte_len(own_name(file.entry)),
        Line::Folded(_, entries) => names_len(entries) + (if entries.len() == 0 {
            0
        } else {
            (entries.len() - 1) as nat
        }),
        Line::Excerpt(excerpt) => match excerpt_label_spec(excerpt.range) {
            Some(label) => byte_len(label),
            None => 0,
        },
        Line::Outline(outline) => byte_len(outline.outline.text@),
        Line::Search(search) => match search.render_data {
            Some(data) => byte_len(data.context_text@),
            None => 0,
        },
    }
}

/// A number, or the largest that fits.
pub open spec fn saturated(n: nat) -> usize {
    if n > usize::MAX {
        usize::MAX
    } else {
        n as usize
    }
}

/// How wide a line is: its text and its indentation, counted in characters.
pub open spec fn width_of(env: PanelEnv, line: Line, depth: usize) -> u64 {
    saturated(saturated(line_len(env, line)) as nat + depth as nat) as u64
}

fn names_len_of(entries: &Vec<GitEntry>) -> (r: usize)
    ensures
        r == saturated(names_len(entries@)),
{
    let mut total: usize = 0;
    let mut i: usize = 0;
    assert(entries@.take(0) =~= Seq::empty());
    while i < entries.len()
        invariant
            i <= entries@.len(),
            total == saturated(names_len(entries@.take(i as int))),
        decreases entries.len() - i,
    {
        proof {
            let next = entries@.take(i + 1);
            assert(next.drop_last() =~= entries@.take(i as int));
            assert(next.last() == entries@[i as int]);
        }
        total = total.saturating_add(entry_name_len(&entries[i]));
        i = i + 1;
    }
    assert(entries@.take(i as int) =~= entries@);
    total
}

fn entry_name_len(entry: &GitEntry) -> (r: usize)
    ensures
        r == byte_len(own_name(*entry)),
{
    match entry.path.file_name() {
        Some(name) => text_len(name.as_str()),
        None => {
            assert(vstd::utf8::encode_utf8(Seq::<char>::empty()) =~= Seq::empty());
            0
        },
    }
}

fn final_name_len(path: &AnyPath) -> (r: usize)
    ensures
        r == byte_len(final_name(*path)),
{
    assert(vstd::utf8::encode_utf8(Seq::<char>::empty()) =~= Seq::empty());
    let n: usize = path.components.len();
    if n == 0 {
        return 0;
    }
    match &path.components[n - 1] {
        Component::Normal(name) => text_len(name.as_str()),
        _ => 0,
    }
}

/// How wide a line is: its text and its indentation, counted in characters.
pub fn width_estimate(env: &PanelEnv, depth: usize, entry: &PanelEntry) -> (r: u64)
    ensures
        r == width_of(*env, line_of(*entry), depth),
{
    let item_text_chars: usize = match entry {
        PanelEntry::Fs(FsEntry::ExternalFile(file)) => match env.buffer_paths.get(
            &file.buffer_id,
        ) {
            Some(path) => final_name_len(path),
            None => 0,
        },
        PanelEntry::Fs(FsEntry::Directory(directory)) => entry_name_len(&directory.entry),
        PanelEntry::Fs(FsEntry::File(file)) => entry_name_len(&file.entry),
        PanelEntry::FoldedDirs(dirs) => {
            let names: usize = names_len_of(&dirs.entries);
            names.saturating_add(dirs.entries.len().saturating_sub(1))
        },
        PanelEntry::Outline(OutlineEntry::Excerpt(excerpt)) => match excerpt_label(
            &excerpt.range,
        ) {
            Some(label) => text_len(label.as_str()),
            None => 0,
        },
        PanelEntry::Outline(OutlineEntry::Outline(outline)) => text_len(
            outline.outline.text.as_str(),
        ),
        PanelEntry::Search(search) => match &search.render_data {
            Some(data) => text_len(data.context_text.as_str()),
            None => 0,
        },
    };
    item_text_chars.saturating_add(depth) as u64
}

} // verus!
