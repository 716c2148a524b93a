//! The lines of the panel, made from the files and directories it shows.

use vstd::prelude::*;
use std::sync::Arc;
use crate::outline_panel::entries::{
    contains_id, BufferId, CachedEntry, CollapsedEntry, ExcerptId, FsEntry, FsEntryDirectory,
    GitEntry, OutlineEntry, OutlineEntryExcerpt, OutlineEntryOutline, PanelEntry, SearchEntry,
    SearchKind,
};
use crate::outline_panel::labels::{
    dir_names, dir_names_string, line_of, own_name, width_estimate, width_of, Line,
};
use crate::outline_panel::panel::{ExcerptKey, OutlinePanel, PanelEnv, SearchMatch};
use crate::path::{file_name, name_of};
use crate::shared::arc_clone;
use crate::text::copy_text;

verus! {

/// A text to look for a query in, and the line that it stands for.
#[derive(Debug)]
pub struct StringMatchCandidate {
    pub id: usize,
    pub string: String,
}

/// The lines made so far.
#[derive(Debug)]
pub struct GenerationState {
    pub entries: Vec<CachedEntry>,
    pub match_candidates: Vec<StringMatchCandidate>,
    pub max_width_estimate_and_index: Option<(u64, usize)>,
}

/// The lines made so far: each with its indentation, the texts to look for a
/// query in, and the first of the widest lines.
#[verifier::ext_equal]
pub struct Lines {
    pub lines: Seq<(usize, Line)>,
    pub candidates: Seq<(usize, Seq<char>)>,
    pub widest: Option<(u64, usize)>,
}

pub open spec fn no_lines() -> Lines {
    Lines { lines: Seq::empty(), candidates: Seq::empty(), widest: None }
}

impl View for GenerationState {
    type V = Lines;

    open spec fn view(&self) -> Lines {
        Lines {
            lines: Seq::new(
                self.entries@.len(),
                |i: int| (self.entries@[i].depth, line_of(self.entries@[i].entry)),
            ),
            candidates: Seq::new(
                self.match_candidates@.len(),
                |i: int| (self.match_candidates@[i].id, self.match_candidates@[i].string@),
            ),
            widest: self.max_width_estimate_and_index,
        }
    }
}

/// The text of a line in which a query is looked for.
pub open spec fn searched_text(env: PanelEnv, line: Line) -> Option<Seq<char>> {
    match line {
        Line::Fs(FsEntry::ExternalFile(file)) => if env.buffer_paths@.contains_key(
            file.buffer_id,
        ) {
            Some(name_of(env.buffer_paths@[file.buffer_id]))
        } else {
            None
        },
        Line::Fs(FsEntry::Directory(directory)) => Some(own_name(directory.entry)),
        Line::Fs(FsEntry::File(file)) => Some(own_name(file.entry)),
        Line::Folded(worktree_id, entries) => Some(dir_names(env, worktree_id, entries)),
        Line::Excerpt(_) => None,
        Line::Outline(outline) => Some(outline.outline.text@),
        Line::Search(search) => match search.render_data {
            Some(data) => Some(data.context_text@),
            None => None,
        },
    }
}

/// Directories in one line that are a single one are shown as that one.
pub open spec fn plain_line(line: Line) -> Option<Line> {
    match line {
        Line::Folded(worktree_id, entries) => if entries.len() == 0 {
            None
        } else if entries.len() == 1 {
            Some(
                Line::Fs(
                    FsEntry::Directory(FsEntryDirectory { worktree_id, entry: entries[0] }),
                ),
            )
        } else {
            Some(line)
        },
        _ => Some(line),
    }
}

/// Adds a line. Its text is noted where a query is to be looked for.
pub open spec fn with_line(
    env: PanelEnv,
    state: Lines,
    track_matches: bool,
    line: Line,
    depth: usize,
) -> Lines {
    match plain_line(line) {
        None => state,
        Some(line) => {
            let width = width_of(env, line, depth);
            Lines {
                lines: state.lines.push((depth, line)),
                candidates: match searched_text(env, line) {
                    Some(text) => if track_matches {
                        state.candidates.push((state.lines.len() as usize, text))
                    } else {
                        state.candidates
                    },
                    None => state.candidates,
                },
                widest: match state.widest {
                    Some((widest, _)) => if width > widest {
                        Some((width, state.lines.len() as usize))
                    } else {
                        state.widest
                    },
                    None => Some((width, state.lines.len() as usize)),
                },
            }
        },
    }
}

impl GenerationState {
    pub fn new() -> (state: GenerationState)
        ensures
            state@ == no_lines(),
            state.no_matches(),
    {
        let state = GenerationState {
            entries: Vec::new(),
            match_candidates: Vec::new(),
            max_width_estimate_and_index: None,
        };
        assert(state@ =~= no_lines());
        state
    }

    /// No line has been matched with a query yet.
    pub open spec fn no_matches(&self) -> bool {
        forall|i: int|
            0 <= i < self.entries@.len() ==> (#[trigger] self.entries@[i]).string_match is None
    }

    pub fn clear(&mut self)
        ensures
            final(self)@ == no_lines(),
            final(self).no_matches(),
    {
        self.entries = Vec::new();
        self.match_candidates = Vec::new();
        self.max_width_estimate_and_index = None;
        assert(self@ =~= no_lines());
    }

    /// Adds a line. Its text is noted where a query is to be looked for.
    pub fn push_entry(
        &mut self,
        env: &PanelEnv,
        track_matches: bool,
        entry: PanelEntry,
        depth: usize,
    )
        requires
            old(self).no_matches(),
        ensures
            final(self)@ == with_line(*env, old(self)@, track_matches, line_of(entry), depth),
            final(self).no_matches(),
    {
        let ghost before = self@;
        let plain = match &entry {
            PanelEntry::FoldedDirs(dirs) => {
                if dirs.entries.len() == 0 {
                    return;
                }
                if dirs.entries.len() == 1 {
                    Some(
                        FsEntryDirectory {
                            worktree_id: dirs.worktree_id,
                            entry: dirs.entries[0].clone(),
                        },
                    )
                } else {
                    None
                }
            },
            _ => None,
        };
        let entry = match plain {
            Some(directory) => PanelEntry::Fs(FsEntry::Directory(directory)),
            None => entry,
        };
        let id: usize = self.entries.len();
        if track_matches {
            let text: Option<String> = match &entry {
                PanelEntry::Fs(FsEntry::ExternalFile(file)) => match env.buffer_paths.get(
                    &file.buffer_id,
                ) {
                    Some(path) => Some(file_name(path)),
                    None => None,
                },
                PanelEntry::Fs(FsEntry::Directory(directory)) => Some(
                    entry_own_name(&directory.entry),
                ),
                PanelEntry::Fs(FsEntry::File(file)) => Some(entry_own_name(&file.entry)),
                PanelEntry::FoldedDirs(dirs) => Some(
                    dir_names_string(env, dirs.worktree_id, &dirs.entries),
                ),
                PanelEntry::Outline(OutlineEntry::Outline(outline)) => Some(
                    copy_text(outline.outline.text.as_str()),
                ),
                PanelEntry::Outline(OutlineEntry::Excerpt(_)) => None,
                PanelEntry::Search(search) => match &search.render_data {
                    Some(data) => Some(copy_text(data.context_text.as_str())),
                    None => None,
                },
            };
            if let Some(string) = text {
                self.match_candidates.push(StringMatchCandidate { id, string });
            }
        }
        let width: u64 = width_estimate(env, depth, &entry);
        let wider: bool = match self.max_width_estimate_and_index {
            Some((widest, _)) => width > widest,
            None => true,
        };
        if wider {
            self.max_width_estimate_and_index = Some((width, id));
        }
        self.entries.push(CachedEntry { depth, entry, string_match: None });
        proof {
            let line = line_of(entry);
            assert(self@.lines =~= before.lines.push((depth, line)));
            if track_matches && searched_text(*env, line) is Some {
                assert(self@.candidates =~= before.candidates.push(
                    (id, searched_text(*env, line)->0),
                ));
            } else {
                assert(self@.candidates =~= before.candidates);
            }
        }
    }
}

fn entry_own_name(entry: &GitEntry) -> (r: String)
    ensures
        r@ == own_name(*entry),
{
    match entry.path.file_name() {
        Some(name) => copy_text(name.as_str()),
        None => String::new(),
    }
}

/// How the lines are to be made.
#[derive(Copy, Clone, Debug, PartialEq, Eq, Structural)]
pub struct GenerationOptions {
    /// The editor shows a single buffer.
    pub is_singleton: bool,
    /// There is a query to filter the lines by.
    pub has_query: bool,
}

/// One more, or the largest number.
pub open spec fn deeper(depth: usize, by: usize) -> usize {
    if depth + by > usize::MAX {
        usize::MAX
    } else {
        (depth + by) as usize
    }
}

/// The symbols of an excerpt as lines.
pub open spec fn with_outlines(
    env: PanelEnv,
    options: GenerationOptions,
    state: Lines,
    key: ExcerptKey,
    outlines: Seq<Arc<crate::outline_panel::entries::OutlineItem>>,
    base: usize,
) -> Lines
    decreases outlines.len(),
{
    if outlines.len() == 0 {
        state
    } else {
        let outline = outlines.last();
        with_line(
            env,
            with_outlines(env, options, state, key, outlines.drop_last(), base),
            options.has_query,
            Line::Outline(
                OutlineEntryOutline {
                    buffer_id: key.buffer_id,
                    excerpt_id: key.excerpt_id,
                    outline,
                },
            ),
            deeper(base, outline.depth),
        )
    }
}

/// An excerpt and its symbols as lines. For a single buffer the excerpt itself
/// is not shown, nor anything before it. A collapsed excerpt hides its symbols
/// unless there is a query.
pub open spec fn with_excerpt(
    panel: OutlinePanel,
    env: PanelEnv,
    options: GenerationOptions,
    state: Lines,
    key: ExcerptKey,
    parent_depth: usize,
) -> Lines {
    if !panel.excerpts.items@.contains_key(key) {
        state
    } else {
        let excerpt = panel.excerpts.items@[key];
        let depth = deeper(parent_depth, 1);
        if options.is_singleton {
            with_outlines(env, options, no_lines(), key, excerpt.outlines.known(), 0)
        } else {
            let shown = with_line(
                env,
                state,
                options.has_query,
                Line::Excerpt(
                    OutlineEntryExcerpt {
                        buffer_id: key.buffer_id,
                        id: key.excerpt_id,
                        range: excerpt.range,
                    },
                ),
                depth,
            );
            if !options.has_query && panel.collapsed_entries@.contains(
                CollapsedEntry::Excerpt(key.buffer_id, key.excerpt_id),
            ) {
                shown
            } else {
                with_outlines(
                    env,
                    options,
                    shown,
                    key,
                    excerpt.outlines.known(),
                    deeper(depth, 1),
                )
            }
        }
    }
}

/// The excerpts of a buffer as lines.
pub open spec fn with_excerpts(
    panel: OutlinePanel,
    env: PanelEnv,
    options: GenerationOptions,
    state: Lines,
    buffer_id: BufferId,
    ids: Seq<ExcerptId>,
    parent_depth: usize,
) -> Lines
    decreases ids.len(),
{
    if ids.len() == 0 || !panel.excerpts.buffers@.contains(buffer_id) {
        state
    } else {
        with_excerpt(
            panel,
            env,
            options,
            with_excerpts(panel, env, options, state, buffer_id, ids.drop_last(), parent_depth),
            ExcerptKey { buffer_id, excerpt_id: ids.last() },
            parent_depth,
        )
    }
}

/// Whether a match lies in one of some excerpts, and in no folded buffer.
pub open spec fn match_shown(env: PanelEnv, excerpts: Seq<ExcerptId>, found: SearchMatch) -> bool {
    &&& excerpts.contains(found.range.start.excerpt_id) || excerpts.contains(
        found.range.end.excerpt_id,
    )
    &&& match found.range.start.buffer_id {
        Some(buffer_id) => !env.folded_buffers@.contains(buffer_id),
        None => true,
    }
}

/// The matches in some excerpts as lines.
pub open spec fn with_matches(
    env: PanelEnv,
    options: GenerationOptions,
    state: Lines,
    kind: SearchKind,
    matches: Seq<SearchMatch>,
    excerpts: Seq<ExcerptId>,
    depth: usize,
) -> Lines
    decreases matches.len(),
{
    if matches.len() == 0 {
        state
    } else {
        let rest = with_matches(
            env,
            options,
            state,
            kind,
            matches.drop_last(),
            excerpts,
            depth,
        );
        let found = matches.last();
        if match_shown(env, excerpts, found) {
            with_line(
                env,
                rest,
                options.has_query,
                Line::Search(
                    SearchEntry {
                        match_range: found.range,
                        kind,
                        render_data: found.render_data,
                    },
                ),
                depth,
            )
        } else {
            rest
        }
    }
}

impl OutlinePanel {
    fn add_outlines(
        &self,
        state: &mut GenerationState,
        env: &PanelEnv,
        options: GenerationOptions,
        key: ExcerptKey,
        excerpt: &crate::outline_panel::entries::Excerpt,
        base: usize,
    )
        requires
            old(state).no_matches(),
        ensures
            final(state).no_matches(),
            final(state)@ == with_outlines(
                *env,
                options,
                old(state)@,
                key,
                excerpt.outlines.known(),
                base,
            ),
    {
        let ghost start = state@;
        let ghost all = excerpt.outlines.known();
        let count: usize = excerpt.outline_count();
        let mut i: usize = 0;
        assert(all.take(0) =~= Seq::empty());
        while i < count
            invariant
                i <= count,
                count == all.len(),
                all == excerpt.outlines.known(),
                state.no_matches(),
                state@ == with_outlines(*env, options, start, key, all.take(i as int), base),
            decreases count - i,
        {
            if let Some(outline) = excerpt.outline_at(i) {
                proof {
                    let next = all.take(i + 1);
                    assert(next.drop_last() =~= all.take(i as int));
                    assert(next.last() == all[i as int]);
                }
                state.push_entry(
                    env,
                    options.has_query,
                    PanelEntry::Outline(
                        OutlineEntry::Outline(
                            OutlineEntryOutline {
                                buffer_id: key.buffer_id,
                                excerpt_id: key.excerpt_id,
                                outline: arc_clone(outline),
                            },
                        ),
                    ),
                    base.saturating_add(outline.depth),
                );
            }
            i = i + 1;
        }
        assert(all.take(i as int) =~= all);
    }

    /// Adds the excerpts of a buffer, with their symbols, as lines.
    pub fn add_excerpt_entries(
        &self,
        state: &mut GenerationState,
        env: &PanelEnv,
        options: GenerationOptions,
        buffer_id: BufferId,
        entries_to_add: &Vec<ExcerptId>,
        parent_depth: usize,
    )
        requires
            old(state).no_matches(),
        ensures
            final(state).no_matches(),
            final(state)@ == with_excerpts(
                *self,
                *env,
                options,
                old(state)@,
                buffer_id,
                entries_to_add@,
                parent_depth,
            ),
    {
        if !self.excerpts.buffers.contains(&buffer_id) {
            return;
        }
        let ghost start = state@;
        let ghost ids = entries_to_add@;
        let mut i: usize = 0;
        assert(ids.take(0) =~= Seq::empty());
        while i < entries_to_add.len()
            invariant
                i <= ids.len(),
                ids == entries_to_add@,
                self.excerpts.buffers@.contains(buffer_id),
                state.no_matches(),
                state@ == with_excerpts(
                    *self,
                    *env,
                    options,
                    start,
                    buffer_id,
                    ids.take(i as int),
                    parent_depth,
                ),
            decreases entries_to_add.len() - i,
        {
            let excerpt_id: ExcerptId = entries_to_add[i];
            let key = ExcerptKey { buffer_id, excerpt_id };
            proof {
                let next = ids.take(i + 1);
                assert(next.drop_last() =~= ids.take(i as int));
                assert(next.last() == excerpt_id);
            }
            if let Some(excerpt) = self.excerpts.items.get(&key) {
                let excerpt_depth: usize = parent_depth.saturating_add(1);
                if options.is_singleton {
                    state.clear();
                    self.add_outlines(state, env, options, key, excerpt, 0);
                } else {
                    state.push_entry(
                        env,
                        options.has_query,
                        PanelEntry::Outline(
                            OutlineEntry::Excerpt(
                                OutlineEntryExcerpt {
                                    buffer_id,
                                    id: excerpt_id,
                                    range: excerpt.range,
                                },
                            ),
                        ),
                        excerpt_depth,
                    );
                    let hidden: bool = !options.has_query && self.collapsed_entries.contains(
                        &CollapsedEntry::Excerpt(buffer_id, excerpt_id),
                    );
                    if !hidden {
                        self.add_outlines(
                            state,
                            env,
                            options,
                            key,
                            excerpt,
                            excerpt_depth.saturating_add(1),
                        );
                    }
                }
            }
            i = i + 1;
        }
        assert(ids.take(i as int) =~= ids);
    }

    /// Adds the matches in some excerpts as lines.
    pub fn add_search_entries(
        &self,
        state: &mut GenerationState,
        env: &PanelEnv,
        options: GenerationOptions,
        kind: SearchKind,
        matches: &Vec<SearchMatch>,
        related_excerpts: &Vec<ExcerptId>,
        depth: usize,
    )
        requires
            old(state).no_matches(),
        ensures
            final(state).no_matches(),
            final(state)@ == with_matches(
                *env,
                options,
                old(state)@,
                kind,
                matches@,
                related_excerpts@,
                depth,
            ),
    {
        let ghost start = state@;
        let ghost all = matches@;
        let mut i: usize = 0;
        assert(all.take(0) =~= Seq::empty());
        while i < matches.len()
            invariant
                i <= all.len(),
                all == matches@,
                state.no_matches(),
                state@ == with_matches(
                    *env,
                    options,
                    start,
                    kind,
                    all.take(i as int),
                    related_excerpts@,
                    depth,
                ),
            decreases matches.len() - i,
        {
            let found: &SearchMatch = &matches[i];
            proof {
                let next = all.take(i + 1);
                assert(next.drop_last() =~= all.take(i as int));
                assert(next.last() == *found);
            }
            let related: bool = contains_id(related_excerpts, found.range.start.excerpt_id)
                || contains_id(related_excerpts, found.range.end.excerpt_id);
            let visible: bool = match found.range.start.buffer_id {
                Some(buffer_id) => !env.folded_buffers.contains(&buffer_id),
                None => true,
            };
            if related && visible {
                let found_copy: SearchMatch = found.clone();
                state.push_entry(
                    env,
                    options.has_query,
                    PanelEntry::Search(
                        SearchEntry {
                            match_range: found_copy.range,
                            kind,
                            render_data: found_copy.render_data,
                        },
                    ),
                    depth,
                );
            }
            i = i + 1;
        }
        assert(all.take(i as int) =~= all);
    }
}

/// The widest line is kept in mind: a line that is wider than all before becomes the widest.
pub proof fn law_widest_line_is_known(
    state: &mut GenerationState,
    env: PanelEnv,
    track_matches: bool,
    entry: PanelEntry,
    depth: usize,
    width: u64,
)
    requires
        !(entry is FoldedDirs),
        call_ensures(GenerationState::push_entry, (state, &env, track_matches, entry, depth), ()),
        call_ensures(width_estimate, (&env, depth, &entry), width),
    ensures
        final(state).entries@.len() == old(state).entries@.len() + 1,
        final(state).entries@.last().depth == depth,
        line_of(final(state).entries@.last().entry) == line_of(entry),
        old(state).max_width_estimate_and_index is None ==> final(
            state
        ).max_width_estimate_and_index == Some((width, old(state).entries@.len() as usize)),
        old(state).max_width_estimate_and_index matches Some((widest, at)) ==> final(
            state
        ).max_width_estimate_and_index == (if width > widest {
            Some((width, old(state).entries@.len() as usize))
        } else {
            Some((widest, at))
        }),
{
    let before = old(state)@.lines;
    let after = final(state)@.lines;
    assert(after.len() == final(state).entries@.len());
    assert(before.len() == old(state).entries@.len());
    assert(after.last() == (depth, line_of(entry)));
}

/// A directory that stands alone in a line of several is listed as itself, and none is no line.
pub proof fn law_single_directory_is_itself(
    state: &mut GenerationState,
    env: PanelEnv,
    track_matches: bool,
    dirs: crate::outline_panel::entries::FoldedDirsEntry,
    depth: usize,
)
    requires
        call_ensures(
            GenerationState::push_entry,
            (state, &env, track_matches, PanelEntry::FoldedDirs(dirs), depth),
            (),
        ),
    ensures
        dirs.entries@.len() == 0 ==> final(state).entries@.len() == old(state).entries@.len(),
        dirs.entries@.len() > 0 ==> final(state).entries@.len() == old(state).entries@.len() + 1,
        dirs.entries@.len() == 1 ==> (final(state).entries@.last().entry matches PanelEntry::Fs(
            FsEntry::Directory(dir),
        ) && dir.worktree_id == dirs.worktree_id && dir.entry == dirs.entries@[0]),
        dirs.entries@.len() > 1 ==> (final(state).entries@.last().entry matches
            PanelEntry::FoldedDirs(same) && same.worktree_id == dirs.worktree_id && same.entries@
            == dirs.entries@),
{
    let before = old(state)@.lines;
    let after = final(state)@.lines;
    assert(after.len() == final(state).entries@.len());
    assert(before.len() == old(state).entries@.len());
    if dirs.entries@.len() > 0 {
        assert(after.last().1 == line_of(final(state).entries@.last().entry));
    }
}

/// Matches are listed one by one where they are in one of the excerpts, unless their buffer is
/// folded.
pub proof fn law_matches_of_the_excerpts_are_listed(
    panel: OutlinePanel,
    fewer: &mut GenerationState,
    state: &mut GenerationState,
    env: PanelEnv,
    options: GenerationOptions,
    kind: SearchKind,
    matches: Vec<SearchMatch>,
    more: Vec<SearchMatch>,
    last: SearchMatch,
    excerpts: Vec<ExcerptId>,
    depth: usize,
)
    requires
        more@ == matches@.push(last),
        old(fewer)@ == old(state)@,
        call_ensures(
            OutlinePanel::add_search_entries,
            (&panel, fewer, &env, options, kind, &matches, &excerpts, depth),
            (),
        ),
        call_ensures(
            OutlinePanel::add_search_entries,
            (&panel, state, &env, options, kind, &more, &excerpts, depth),
            (),
        ),
    ensures
        matches@.len() == 0 ==> final(fewer)@ == old(fewer)@,
        ({
            let shown = (excerpts@.contains(last.range.start.excerpt_id) || excerpts@.contains(
                last.range.end.excerpt_id,
            )) && !(last.range.start.buffer_id matches Some(id) && env.folded_buffers@.contains(
                id,
            ));
            &&& !shown ==> final(state)@ == final(fewer)@
            &&& shown ==> final(state).entries@.len() == final(fewer).entries@.len() + 1
                && final(state).entries@.last().depth == depth && (final(
                state
            ).entries@.last().entry matches PanelEntry::Search(line) && line.match_range
                == last.range && line.kind == kind && line.render_data == last.render_data)
        }),
{
    assert(more@.drop_last() =~= matches@);
    assert(more@.last() == last);
    let before = final(fewer)@.lines;
    let after = final(state)@.lines;
    assert(after.len() == final(state).entries@.len());
    assert(before.len() == final(fewer).entries@.len());
    if match_shown(env, excerpts@, last) {
        assert(after.last().1 == line_of(final(state).entries@.last().entry));
        assert(after.last().0 == final(state).entries@.last().depth);
    }
}

} // verus!
