//! What holds of the lines of the panel as a whole.

use vstd::prelude::*;
use std::sync::Arc;
use crate::outline_panel::cached::{
    no_lines, plain_line, searched_text, with_excerpt, with_excerpts, with_line, with_matches,
    with_outlines, GenerationOptions, GenerationState, Lines, StringMatchCandidate,
};
use crate::outline_panel::entries::{
    BufferId, CachedEntry, CollapsedEntry, Excerpt, ExcerptId, ExcerptOutlines, FsEntry, GitEntry,
    OutlineEntry, OutlineEntryExcerpt, OutlineEntryOutline, OutlineItem, PanelEntry, SearchKind,
    StringMatch,
};
use crate::outline_panel::filter::{
    filter_entries, match_at, matched, shown_lines, unmatched,
};
use crate::outline_panel::labels::{dir_names, line_of, width_of, Line};
use crate::outline_panel::panel::{
    ExcerptKey, ItemsDisplayMode, OutlinePanel, PanelEnv, SearchMatch,
};
use crate::path::name_of;
use crate::outline_panel::walk::{
    all_lines, flushed, placed, walked_over, with_entry, Pending, Placed, Walked,
};

verus! {

/// Whether a query is looked for in the text of a line: a symbol is found by its text, a
/// match by the text around it, and a file or directory by its name.
pub open spec fn noted(
    env: PanelEnv,
    candidates: Seq<(usize, Seq<char>)>,
    i: int,
    line: Line,
) -> bool {
    match line {
        Line::Outline(outline) => candidates.contains((i as usize, outline.outline.text@)),
        Line::Search(search) => search.render_data is Some ==> candidates.contains(
            (i as usize, search.render_data->0.context_text@),
        ),
        Line::Fs(FsEntry::File(file)) => candidates.contains(
            (
                i as usize,
                if file.entry.path@.len() > 0 {
                    file.entry.path@.last()
                } else {
                    Seq::empty()
                },
            ),
        ),
        Line::Fs(FsEntry::Directory(directory)) => candidates.contains(
            (
                i as usize,
                if directory.entry.path@.len() > 0 {
                    directory.entry.path@.last()
                } else {
                    Seq::empty()
                },
            ),
        ),
        Line::Fs(FsEntry::ExternalFile(file)) => env.buffer_paths@.contains_key(file.buffer_id)
            ==> candidates.contains((i as usize, name_of(env.buffer_paths@[file.buffer_id]))),
        Line::Folded(worktree_id, entries) => candidates.contains(
            (i as usize, dir_names(env, worktree_id, entries)),
        ),
        Line::Excerpt(_) => true,
    }
}

/// Every noted text is that of the line it is noted for, with a query the text of every
/// line is noted and without one none is, and the widest line is the first of those than
/// which none is wider.
pub open spec fn consistent(env: PanelEnv, track: bool, state: Lines) -> bool {
    &&& track ==> forall|i: int|
        0 <= i < state.lines.len() ==> noted(
            env,
            state.candidates,
            i,
            (#[trigger] state.lines[i]).1,
        )
    &&& !track ==> state.candidates.len() == 0
    &&& forall|i: int, j: int|
        0 <= i < j < state.candidates.len() ==> (#[trigger] state.candidates[i]).0 < (
        #[trigger] state.candidates[j]).0
    &&& forall|i: int|
        0 <= i < state.candidates.len() ==> (#[trigger] state.candidates[i]).0 < state.lines.len()
            && searched_text(env, state.lines[state.candidates[i].0 as int].1) == Some(
            state.candidates[i].1,
        )
    &&& match state.widest {
        None => state.lines.len() == 0,
        Some((width, ix)) => {
            &&& ix < state.lines.len()
            &&& width == width_of(env, state.lines[ix as int].1, state.lines[ix as int].0)
            &&& forall|i: int|
                0 <= i < state.lines.len() ==> width_of(
                    env,
                    (#[trigger] state.lines[i]).1,
                    state.lines[i].0,
                ) <= width
            &&& forall|i: int|
                0 <= i < ix ==> width_of(env, (#[trigger] state.lines[i]).1, state.lines[i].0)
                    < width
        },
    }
}

/// The lines that a machine can count, as far as they go.
pub open spec fn countable(state: Lines) -> bool {
    state.lines.len() <= usize::MAX
}

proof fn lemma_line_consistent(
    env: PanelEnv,
    state: Lines,
    track: bool,
    line: Line,
    depth: usize,
)
    requires
        countable(with_line(env, state, track, line, depth)),
        countable(state) ==> consistent(env, track, state),
    ensures
        consistent(env, track, with_line(env, state, track, line, depth)),
        state.lines.len() <= with_line(env, state, track, line, depth).lines.len(),
{
    let next = with_line(env, state, track, line, depth);
    if plain_line(line) is Some {
        let n: int = state.lines.len() as int;
        assert forall|i: int| 0 <= i < next.candidates.len() implies (
        #[trigger] next.candidates[i]).0 < next.lines.len() && searched_text(
            env,
            next.lines[next.candidates[i].0 as int].1,
        ) == Some(next.candidates[i].1) by {
            if i < state.candidates.len() {
                assert(next.candidates[i] == state.candidates[i]);
            }
        }
        assert forall|i: int| 0 <= i < n implies next.lines[i] == state.lines[i] by {}
        assert forall|i: int, j: int| 0 <= i < j < next.candidates.len() implies (
        #[trigger] next.candidates[i]).0 < (#[trigger] next.candidates[j]).0 by {
            assert(next.candidates[i] == state.candidates[i]);
            if j < state.candidates.len() {
                assert(next.candidates[j] == state.candidates[j]);
            }
        }
        assert forall|i: int| track && 0 <= i < next.lines.len() implies noted(
            env,
            next.candidates,
            i,
            (#[trigger] next.lines[i]).1,
        ) by {
            if i < n {
                assert(next.lines[i] == state.lines[i]);
                assert(noted(env, state.candidates, i, state.lines[i].1));
                assert forall|text: Seq<char>| #[trigger]
                    state.candidates.contains((i as usize, text)) implies next.candidates.contains(
                    (i as usize, text),
                ) by {
                    let k: int = choose|k: int|
                        0 <= k < state.candidates.len() && state.candidates[k] == (
                            i as usize,
                            text,
                        );
                    assert(next.candidates[k] == (i as usize, text));
                }
            } else if next.candidates.len() > state.candidates.len() {
                assert(next.candidates.last() == next.candidates[state.candidates.len() as int]);
                assert(next.candidates.contains(next.candidates.last()));
            }
        }
    }
}

proof fn lemma_outlines_consistent(
    env: PanelEnv,
    options: GenerationOptions,
    state: Lines,
    key: ExcerptKey,
    outlines: Seq<Arc<OutlineItem>>,
    base: usize,
)
    requires
        countable(with_outlines(env, options, state, key, outlines, base)),
        countable(state) ==> consistent(env, options.has_query, state),
    ensures
        consistent(env, options.has_query, with_outlines(env, options, state, key, outlines, base)),
        state.lines.len() <= with_outlines(env, options, state, key, outlines, base).lines.len(),
    decreases outlines.len(),
{
    if outlines.len() > 0 {
        let rest = with_outlines(env, options, state, key, outlines.drop_last(), base);
        assert(rest.lines.len() <= with_outlines(env, options, state, key, outlines, base).lines.len());
        lemma_outlines_consistent(env, options, state, key, outlines.drop_last(), base);
        let outline = outlines.last();
        lemma_line_consistent(
            env,
            rest,
            options.has_query,
            Line::Outline(
                crate::outline_panel::entries::OutlineEntryOutline {
                    buffer_id: key.buffer_id,
                    excerpt_id: key.excerpt_id,
                    outline,
                },
            ),
            crate::outline_panel::cached::deeper(base, outline.depth),
        );
    }
}

proof fn lemma_excerpts_consistent(
    panel: OutlinePanel,
    env: PanelEnv,
    options: GenerationOptions,
    state: Lines,
    buffer_id: BufferId,
    ids: Seq<ExcerptId>,
    depth: usize,
)
    requires
        countable(state) ==> consistent(env, options.has_query, state),
    ensures
        countable(with_excerpts(panel, env, options, state, buffer_id, ids, depth)) ==> consistent(
            env,
            options.has_query,
            with_excerpts(panel, env, options, state, buffer_id, ids, depth),
        ),
    decreases ids.len(),
{
    if ids.len() > 0 && panel.excerpts.buffers@.contains(buffer_id) {
        let rest = with_excerpts(panel, env, options, state, buffer_id, ids.drop_last(), depth);
        lemma_excerpts_consistent(panel, env, options, state, buffer_id, ids.drop_last(), depth);
        let key = ExcerptKey { buffer_id, excerpt_id: ids.last() };
        let next = with_excerpt(panel, env, options, rest, key, depth);
        if countable(next) && panel.excerpts.items@.contains_key(key) {
            let excerpt = panel.excerpts.items@[key];
            let own_depth = crate::outline_panel::cached::deeper(depth, 1);
            if options.is_singleton {
                lemma_outlines_consistent(
                    env,
                    options,
                    no_lines(),
                    key,
                    excerpt.outlines.known(),
                    0,
                );
            } else {
                let line = Line::Excerpt(
                    crate::outline_panel::entries::OutlineEntryExcerpt {
                        buffer_id: key.buffer_id,
                        id: key.excerpt_id,
                        range: excerpt.range,
                    },
                );
                let shown = with_line(env, rest, options.has_query, line, own_depth);
                let base = crate::outline_panel::cached::deeper(own_depth, 1);
                lemma_outlines_grow(env, options, shown, key, excerpt.outlines.known(), base);
                lemma_line_consistent(env, rest, options.has_query, line, own_depth);
                if next != shown {
                    lemma_outlines_consistent(
                        env,
                        options,
                        shown,
                        key,
                        excerpt.outlines.known(),
                        base,
                    );
                }
            }
        }
    }
}

proof fn lemma_matches_consistent(
    env: PanelEnv,
    options: GenerationOptions,
    state: Lines,
    kind: SearchKind,
    matches: Seq<SearchMatch>,
    excerpts: Seq<ExcerptId>,
    depth: usize,
)
    requires
        countable(state) ==> consistent(env, options.has_query, state),
    ensures
        countable(with_matches(env, options, state, kind, matches, excerpts, depth)) ==> consistent(
            env,
            options.has_query,
            with_matches(env, options, state, kind, matches, excerpts, depth),
        ),
    decreases matches.len(),
{
    if matches.len() > 0 {
        let rest = with_matches(
            env,
            options,
            state,
            kind,
            matches.drop_last(),
            excerpts,
            depth,
        );
        lemma_matches_consistent(
            env,
            options,
            state,
            kind,
            matches.drop_last(),
            excerpts,
            depth,
        );
        let next = with_matches(env, options, state, kind, matches, excerpts, depth);
        let found = matches.last();
        if countable(next) && crate::outline_panel::cached::match_shown(env, excerpts, found) {
            lemma_line_consistent(
                env,
                rest,
                options.has_query,
                Line::Search(
                    crate::outline_panel::entries::SearchEntry {
                        match_range: found.range,
                        kind,
                        render_data: found.render_data,
                    },
                ),
                depth,
            );
        }
    }
}

/// Adding a line keeps the lines before.
pub open spec fn extends(next: Lines, state: Lines) -> bool {
    state.lines.len() <= next.lines.len() && forall|i: int|
        0 <= i < state.lines.len() ==> #[trigger] state.lines[i] == next.lines[i]
}

proof fn lemma_outlines_grow(
    env: PanelEnv,
    options: GenerationOptions,
    state: Lines,
    key: ExcerptKey,
    outlines: Seq<Arc<OutlineItem>>,
    base: usize,
)
    ensures
        extends(with_outlines(env, options, state, key, outlines, base), state),
    decreases outlines.len(),
{
    if outlines.len() > 0 {
        lemma_outlines_grow(env, options, state, key, outlines.drop_last(), base);
        let rest = with_outlines(env, options, state, key, outlines.drop_last(), base);
        let next = with_outlines(env, options, state, key, outlines, base);
        assert forall|i: int| 0 <= i < state.lines.len() implies #[trigger] state.lines[i]
            == next.lines[i] by {
            assert(state.lines[i] == rest.lines[i]);
        }
    }
}

proof fn lemma_excerpts_grow(
    panel: OutlinePanel,
    env: PanelEnv,
    options: GenerationOptions,
    state: Lines,
    buffer_id: BufferId,
    ids: Seq<ExcerptId>,
    depth: usize,
)
    requires
        !options.is_singleton,
    ensures
        extends(with_excerpts(panel, env, options, state, buffer_id, ids, depth), state),
    decreases ids.len(),
{
    if ids.len() > 0 && panel.excerpts.buffers@.contains(buffer_id) {
        let rest = with_excerpts(panel, env, options, state, buffer_id, ids.drop_last(), depth);
        lemma_excerpts_grow(panel, env, options, state, buffer_id, ids.drop_last(), depth);
        let key = ExcerptKey { buffer_id, excerpt_id: ids.last() };
        let next = with_excerpt(panel, env, options, rest, key, depth);
        if panel.excerpts.items@.contains_key(key) {
            let excerpt = panel.excerpts.items@[key];
            let own_depth = crate::outline_panel::cached::deeper(depth, 1);
            let line = Line::Excerpt(
                crate::outline_panel::entries::OutlineEntryExcerpt {
                    buffer_id: key.buffer_id,
                    id: key.excerpt_id,
                    range: excerpt.range,
                },
            );
            let shown = with_line(env, rest, options.has_query, line, own_depth);
            let base = crate::outline_panel::cached::deeper(own_depth, 1);
            lemma_outlines_grow(env, options, shown, key, excerpt.outlines.known(), base);
            assert forall|i: int| 0 <= i < state.lines.len() implies #[trigger] state.lines[i]
                == next.lines[i] by {
                assert(state.lines[i] == rest.lines[i]);
                assert(rest.lines[i] == shown.lines[i]);
            }
        }
    }
}

proof fn lemma_matches_grow(
    env: PanelEnv,
    options: GenerationOptions,
    state: Lines,
    kind: SearchKind,
    matches: Seq<SearchMatch>,
    excerpts: Seq<ExcerptId>,
    depth: usize,
)
    ensures
        extends(with_matches(env, options, state, kind, matches, excerpts, depth), state),
    decreases matches.len(),
{
    if matches.len() > 0 {
        let rest = with_matches(
            env,
            options,
            state,
            kind,
            matches.drop_last(),
            excerpts,
            depth,
        );
        lemma_matches_grow(env, options, state, kind, matches.drop_last(), excerpts, depth);
        let next = with_matches(env, options, state, kind, matches, excerpts, depth);
        assert forall|i: int| 0 <= i < state.lines.len() implies #[trigger] state.lines[i]
            == next.lines[i] by {
            assert(state.lines[i] == rest.lines[i]);
        }
    }
}

/// The lines of an entry come after those before, unless a single buffer starts
/// over.
proof fn lemma_entry_grows(
    panel: OutlinePanel,
    env: PanelEnv,
    options: GenerationOptions,
    place: Placed,
    entry: FsEntry,
)
    requires
        !options.is_singleton,
    ensures
        extends(with_entry(panel, env, options, place, entry), place.walked.state),
        place.should_add || (options.has_query && place.walked.pending is None) ==> exists|i: int|
            0 <= i < with_entry(panel, env, options, place, entry).lines.len() && (
            #[trigger] with_entry(panel, env, options, place, entry).lines[i]).1 == Line::Fs(entry),
{
    let state = place.walked.state;
    let add = place.should_add || (options.has_query && place.walked.pending is None);
    let own = if add {
        with_line(env, state, options.has_query, Line::Fs(entry), place.depth)
    } else {
        state
    };
    let next = with_entry(panel, env, options, place, entry);
    match panel.mode {
        ItemsDisplayMode::Search(search) => {
            lemma_matches_grow(
                env,
                options,
                own,
                search.kind,
                search.matches@,
                entry.shown_excerpts(),
                crate::outline_panel::cached::deeper(place.depth, 1),
            );
        },
        ItemsDisplayMode::Outline => {
            if let Some(buffer_id) = entry.buffer() {
                lemma_excerpts_grow(
                    panel,
                    env,
                    options,
                    own,
                    buffer_id,
                    entry.shown_excerpts(),
                    place.depth,
                );
            }
        },
    }
    assert(extends(next, own));
    assert forall|i: int| 0 <= i < state.lines.len() implies #[trigger] state.lines[i]
        == next.lines[i] by {
        assert(state.lines[i] == own.lines[i]);
    }
    if add {
        assert(own.lines[state.lines.len() as int].1 == Line::Fs(entry));
        assert(next.lines[state.lines.len() as int].1 == Line::Fs(entry));
    }
}

/// Whether a line shows an entry, by itself or with other directories.
pub open spec fn shows(line: Line, entry: FsEntry) -> bool {
    match line {
        Line::Fs(own) => own == entry,
        Line::Folded(worktree_id, entries) => match entry {
            FsEntry::Directory(directory) => directory.worktree_id == worktree_id
                && entries.contains(directory.entry),
            _ => false,
        },
        _ => false,
    }
}

/// Whether some line shows an entry.
pub open spec fn shown(state: Lines, entry: FsEntry) -> bool {
    exists|i: int| 0 <= i < state.lines.len() && shows((#[trigger] state.lines[i]).1, entry)
}

/// Whether an entry waits to be shown with other directories.
pub open spec fn waits(pending: Option<Pending>, entry: FsEntry) -> bool {
    match (pending, entry) {
        (Some(pending), FsEntry::Directory(directory)) => directory.worktree_id
            == pending.worktree_id && pending.entries.contains(directory.entry),
        _ => false,
    }
}

proof fn lemma_shown_stays(next: Lines, state: Lines, entry: FsEntry)
    requires
        extends(next, state),
        shown(state, entry),
    ensures
        shown(next, entry),
{
    let i: int = choose|i: int|
        0 <= i < state.lines.len() && shows((#[trigger] state.lines[i]).1, entry);
    assert(state.lines[i] == next.lines[i]);
}

/// A line of several directories shows each of them.
proof fn lemma_folded_shown(
    env: PanelEnv,
    state: Lines,
    track: bool,
    worktree_id: u64,
    entries: Seq<GitEntry>,
    depth: usize,
    entry: FsEntry,
)
    requires
        shows(Line::Folded(worktree_id, entries), entry),
    ensures
        shown(with_line(env, state, track, Line::Folded(worktree_id, entries), depth), entry),
{
    let next = with_line(env, state, track, Line::Folded(worktree_id, entries), depth);
    if let FsEntry::Directory(directory) = entry {
        let k: int = choose|k: int| 0 <= k < entries.len() && entries[k] == directory.entry;
        assert(entries[k] == directory.entry);
        assert(shows(next.lines[state.lines.len() as int].1, entry));
    }
}

proof fn lemma_flushed_shows(
    env: PanelEnv,
    options: GenerationOptions,
    walked: Walked,
    at_end: bool,
    entry: FsEntry,
)
    requires
        options.has_query,
        !options.is_singleton,
        shown(walked.state, entry) || waits(walked.pending, entry),
    ensures
        shown(flushed(env, options, walked, at_end).state, entry),
{
    let next = flushed(env, options, walked, at_end).state;
    if let Some(pending) = walked.pending {
        if waits(walked.pending, entry) {
            lemma_folded_shown(
                env,
                walked.state,
                options.has_query,
                pending.worktree_id,
                pending.entries,
                pending.depth,
                entry,
            );
        } else {
            assert(extends(next, walked.state));
            lemma_shown_stays(next, walked.state, entry);
        }
    }
}

proof fn lemma_placed_shows(
    panel: OutlinePanel,
    env: PanelEnv,
    options: GenerationOptions,
    walked: Walked,
    current: FsEntry,
    entry: FsEntry,
)
    requires
        options.has_query,
        !options.is_singleton,
        shown(walked.state, entry) || waits(walked.pending, entry),
    ensures
        ({
            let place = placed(panel, env, options, walked, current);
            shown(place.walked.state, entry) || waits(place.walked.pending, entry)
        }),
{
    let place = placed(panel, env, options, walked, current);
    match current {
        FsEntry::Directory(directory) => {
            if let Some(waiting) = walked.pending {
                if let Some(now) = place.walked.pending {
                    if now.entries == waiting.entries.push(directory.entry) && waits(
                        walked.pending,
                        entry,
                    ) && entry is Directory {
                        let k: int = choose|k: int|
                            0 <= k < waiting.entries.len() && waiting.entries[k]
                                == entry->Directory_0.entry;
                        assert(now.entries[k] == entry->Directory_0.entry);
                    }
                }
                if place.walked.state != walked.state {
                    let entries = if place.walked.pending is None {
                        waiting.entries.push(directory.entry)
                    } else {
                        waiting.entries
                    };
                    assert(extends(place.walked.state, walked.state));
                    if shown(walked.state, entry) {
                        lemma_shown_stays(place.walked.state, walked.state, entry);
                    } else {
                        let k: int = choose|k: int|
                            0 <= k < waiting.entries.len() && waiting.entries[k]
                                == entry->Directory_0.entry;
                        assert(entries[k] == entry->Directory_0.entry);
                        lemma_folded_shown(
                            env,
                            walked.state,
                            options.has_query,
                            waiting.worktree_id,
                            entries,
                            waiting.depth,
                            entry,
                        );
                    }
                }
            }
        },
        _ => {
            lemma_flushed_shows(env, options, walked, false, entry);
        },
    }
}

/// The current entry waits, or is shown with those that waited, or gets a line.
proof fn lemma_current_shown(
    panel: OutlinePanel,
    env: PanelEnv,
    options: GenerationOptions,
    walked: Walked,
    entry: FsEntry,
)
    requires
        options.has_query,
        !options.is_singleton,
    ensures
        ({
            let place = placed(panel, env, options, walked, entry);
            let state = with_entry(panel, env, options, place, entry);
            shown(state, entry) || waits(place.walked.pending, entry)
        }),
{
    let place = placed(panel, env, options, walked, entry);
    let state = with_entry(panel, env, options, place, entry);
    lemma_entry_grows(panel, env, options, place, entry);
    if place.walked.pending is None {
        let i: int = choose|i: int|
            0 <= i < state.lines.len() && (#[trigger] state.lines[i]).1 == Line::Fs(entry);
        assert(shows(state.lines[i].1, entry));
    } else if let FsEntry::Directory(directory) = entry {
        let now = place.walked.pending->0;
        if walked.pending is Some && now.entries == walked.pending->0.entries.push(
            directory.entry,
        ) {
            assert(now.entries[now.entries.len() - 1] == directory.entry);
        } else {
            assert(now.entries[0] == directory.entry);
        }
    }
}

proof fn lemma_walked_shows(
    panel: OutlinePanel,
    env: PanelEnv,
    options: GenerationOptions,
    entries: Seq<FsEntry>,
    k: int,
)
    requires
        options.has_query,
        !options.is_singleton,
        0 <= k < entries.len(),
    ensures
        ({
            let walked = walked_over(panel, env, options, entries);
            shown(walked.state, entries[k]) || waits(walked.pending, entries[k])
        }),
    decreases entries.len(),
{
    let before = walked_over(panel, env, options, entries.drop_last());
    let current = entries.last();
    let place = placed(panel, env, options, before, current);
    if k == entries.len() - 1 {
        lemma_current_shown(panel, env, options, before, current);
    } else {
        lemma_walked_shows(panel, env, options, entries.drop_last(), k);
        assert(entries.drop_last()[k] == entries[k]);
        lemma_placed_shows(panel, env, options, before, current, entries[k]);
        lemma_entry_grows(panel, env, options, place, current);
        if shown(place.walked.state, entries[k]) {
            lemma_shown_stays(
                with_entry(panel, env, options, place, current),
                place.walked.state,
                entries[k],
            );
        }
    }
}

/// While there is a query, every file and directory of an editor of several
/// buffers is among the lines that the query is looked for in, whatever is
/// collapsed.
pub proof fn law_query_reaches_every_entry(
    panel: OutlinePanel,
    env: PanelEnv,
    options: GenerationOptions,
    k: int,
)
    requires
        options.has_query,
        !options.is_singleton,
        0 <= k < panel.fs_entries@.len(),
    ensures
        shown(all_lines(panel, env, options), panel.fs_entries@[k]),
{
    lemma_walked_shows(panel, env, options, panel.fs_entries@, k);
    lemma_flushed_shows(
        env,
        options,
        walked_over(panel, env, options, panel.fs_entries@),
        true,
        panel.fs_entries@[k],
    );
}

proof fn lemma_flushed_consistent(
    env: PanelEnv,
    options: GenerationOptions,
    walked: Walked,
    at_end: bool,
)
    requires
        countable(walked.state) ==> consistent(env, options.has_query, walked.state),
    ensures
        countable(flushed(env, options, walked, at_end).state) ==> consistent(
            env,
            options.has_query,
            flushed(env, options, walked, at_end).state,
        ),
{
    if let Some(pending) = walked.pending {
        let next = flushed(env, options, walked, at_end).state;
        if countable(next) && next != walked.state {
            lemma_line_consistent(
                env,
                walked.state,
                options.has_query,
                Line::Folded(pending.worktree_id, pending.entries),
                pending.depth,
            );
        }
    }
}

proof fn lemma_placed_consistent(
    panel: OutlinePanel,
    env: PanelEnv,
    options: GenerationOptions,
    walked: Walked,
    entry: FsEntry,
)
    requires
        countable(walked.state) ==> consistent(env, options.has_query, walked.state),
    ensures
        ({
            let state = placed(panel, env, options, walked, entry).walked.state;
            countable(state) ==> consistent(env, options.has_query, state)
        }),
{
    let place = placed(panel, env, options, walked, entry);
    match entry {
        FsEntry::Directory(directory) => {
            if let Some(waiting) = walked.pending {
                if countable(place.walked.state) && place.walked.state != walked.state {
                    let entries = if place.walked.pending is None {
                        waiting.entries.push(directory.entry)
                    } else {
                        waiting.entries
                    };
                    lemma_line_consistent(
                        env,
                        walked.state,
                        options.has_query,
                        Line::Folded(waiting.worktree_id, entries),
                        waiting.depth,
                    );
                }
            }
        },
        _ => {
            lemma_flushed_consistent(env, options, walked, false);
        },
    }
}

proof fn lemma_entry_consistent(
    panel: OutlinePanel,
    env: PanelEnv,
    options: GenerationOptions,
    place: Placed,
    entry: FsEntry,
)
    requires
        countable(place.walked.state) ==> consistent(env, options.has_query, place.walked.state),
    ensures
        countable(with_entry(panel, env, options, place, entry)) ==> consistent(
            env,
            options.has_query,
            with_entry(panel, env, options, place, entry),
        ),
{
    let state = place.walked.state;
    let own = if !options.is_singleton && (place.should_add || (options.has_query
        && place.walked.pending is None)) {
        with_line(env, state, options.has_query, Line::Fs(entry), place.depth)
    } else {
        state
    };
    if countable(own) && own != state {
        lemma_line_consistent(env, state, options.has_query, Line::Fs(entry), place.depth);
    }
    let depth: usize = if options.is_singleton {
        0
    } else {
        crate::outline_panel::cached::deeper(place.depth, 1)
    };
    let open = options.is_singleton || options.has_query || (place.should_add && panel.expanded(
        entry,
    ));
    let items = match panel.mode {
        ItemsDisplayMode::Search(search) => if open && !(entry is Directory) {
            with_matches(
                env,
                options,
                own,
                search.kind,
                search.matches@,
                entry.shown_excerpts(),
                depth,
            )
        } else {
            own
        },
        ItemsDisplayMode::Outline => match entry.buffer() {
            Some(buffer_id) => if open && !env.folded_buffers@.contains(buffer_id) {
                with_excerpts(
                    panel,
                    env,
                    options,
                    own,
                    buffer_id,
                    entry.shown_excerpts(),
                    place.depth,
                )
            } else {
                own
            },
            None => own,
        },
    };
    match panel.mode {
        ItemsDisplayMode::Search(search) => {
            lemma_matches_consistent(
                env,
                options,
                own,
                search.kind,
                search.matches@,
                entry.shown_excerpts(),
                depth,
            );
        },
        ItemsDisplayMode::Outline => {
            if let Some(buffer_id) = entry.buffer() {
                lemma_excerpts_consistent(
                    panel,
                    env,
                    options,
                    own,
                    buffer_id,
                    entry.shown_excerpts(),
                    place.depth,
                );
            }
        },
    }
    let next = with_entry(panel, env, options, place, entry);
    if countable(next) && next != items {
        lemma_line_consistent(env, items, options.has_query, Line::Fs(entry), 0);
    }
}

proof fn lemma_walked_consistent(
    panel: OutlinePanel,
    env: PanelEnv,
    options: GenerationOptions,
    entries: Seq<FsEntry>,
)
    ensures
        ({
            let state = walked_over(panel, env, options, entries).state;
            countable(state) ==> consistent(env, options.has_query, state)
        }),
    decreases entries.len(),
{
    if entries.len() > 0 {
        lemma_walked_consistent(panel, env, options, entries.drop_last());
        let before = walked_over(panel, env, options, entries.drop_last());
        lemma_placed_consistent(panel, env, options, before, entries.last());
        let place = placed(panel, env, options, before, entries.last());
        lemma_entry_consistent(panel, env, options, place, entries.last());
    }
}

/// Whatever lines the panel makes: the texts noted for a query are those of the
/// lines they are noted for, and the widest line is the first of the widest.
pub proof fn law_lines_are_consistent(
    panel: OutlinePanel,
    env: PanelEnv,
    options: GenerationOptions,
)
    requires
        countable(all_lines(panel, env, options)),
    ensures
        consistent(env, options.has_query, all_lines(panel, env, options)),
{
    lemma_walked_consistent(panel, env, options, panel.fs_entries@);
    lemma_flushed_consistent(
        env,
        options,
        walked_over(panel, env, options, panel.fs_entries@),
        true,
    );
}

/// Whether a text is noted for the line with an index.
pub open spec fn is_noted(candidates: Seq<StringMatchCandidate>, i: int, text: Seq<char>) -> bool {
    exists|k: int|
        0 <= k < candidates.len() && (#[trigger] candidates[k]).id == i && candidates[k].string@
            == text
}

/// With a query, every symbol is found by its text, every match by the text around it, and
/// every file and directory by its name, at the very line that shows it. Without a query
/// nothing is looked for.
pub proof fn law_query_is_looked_for_everywhere(
    panel: OutlinePanel,
    env: PanelEnv,
    options: GenerationOptions,
    state: GenerationState,
)
    requires
        call_ensures(OutlinePanel::generate_cached_entries, (&panel, &env, options), state),
        state.entries@.len() <= usize::MAX,
    ensures
        !options.has_query ==> state.match_candidates@.len() == 0,
        options.has_query ==> forall|i: int|
            0 <= i < state.entries@.len() ==> match (#[trigger] state.entries@[i]).entry {
                PanelEntry::Outline(OutlineEntry::Outline(symbol)) => is_noted(
                    state.match_candidates@,
                    i,
                    symbol.outline.text@,
                ),
                PanelEntry::Search(found) => found.render_data is Some ==> is_noted(
                    state.match_candidates@,
                    i,
                    found.render_data->0.context_text@,
                ),
                PanelEntry::Fs(FsEntry::File(file)) => file.entry.path@.len() > 0 ==> is_noted(
                    state.match_candidates@,
                    i,
                    file.entry.path@.last(),
                ),
                PanelEntry::Fs(FsEntry::Directory(directory)) => directory.entry.path@.len() > 0
                    ==> is_noted(state.match_candidates@, i, directory.entry.path@.last()),
                _ => true,
            },
        forall|a: int, b: int|
            0 <= a < b < state.match_candidates@.len() ==> (#[trigger] state.match_candidates@[a]).id
                < (#[trigger] state.match_candidates@[b]).id,
{
    let lines = state@;
    if panel.active_item is Some {
        law_lines_are_consistent(panel, env, options);
    }
    assert(consistent(env, options.has_query, lines));
    assert(lines.candidates.len() == state.match_candidates@.len());
    assert forall|a: int, b: int| 0 <= a < b < state.match_candidates@.len() implies (
    #[trigger] state.match_candidates@[a]).id < (#[trigger] state.match_candidates@[b]).id by {
        assert(lines.candidates[a].0 == state.match_candidates@[a].id);
        assert(lines.candidates[b].0 == state.match_candidates@[b].id);
    }
    if options.has_query {
        assert forall|i: int, text: Seq<char>|
            0 <= i < state.entries@.len() && #[trigger] lines.candidates.contains(
                (i as usize, text),
            ) implies is_noted(state.match_candidates@, i, text) by {
            let k: int = choose|k: int|
                0 <= k < lines.candidates.len() && lines.candidates[k] == (i as usize, text);
            assert(state.match_candidates@[k].id == i);
            assert(state.match_candidates@[k].string@ == text);
        }
        assert forall|i: int| 0 <= i < state.entries@.len() implies match (
        #[trigger] state.entries@[i]).entry {
            PanelEntry::Outline(OutlineEntry::Outline(symbol)) => is_noted(
                state.match_candidates@,
                i,
                symbol.outline.text@,
            ),
            PanelEntry::Search(found) => found.render_data is Some ==> is_noted(
                state.match_candidates@,
                i,
                found.render_data->0.context_text@,
            ),
            PanelEntry::Fs(FsEntry::File(file)) => file.entry.path@.len() > 0 ==> is_noted(
                state.match_candidates@,
                i,
                file.entry.path@.last(),
            ),
            PanelEntry::Fs(FsEntry::Directory(directory)) => directory.entry.path@.len() > 0
                ==> is_noted(state.match_candidates@, i, directory.entry.path@.last()),
            _ => true,
        } by {
            assert(noted(env, lines.candidates, i, lines.lines[i].1));
        }
    }
}

/// Whether lines are some of those that were made, in their order, each with what was found
/// in it last.
pub open spec fn picked(
    kept: Seq<CachedEntry>,
    made: Seq<CachedEntry>,
    hits: Seq<StringMatch>,
    places: Seq<int>,
) -> bool {
    &&& places.len() == kept.len()
    &&& forall|k: int|
        0 <= k < kept.len() ==> {
            let i = #[trigger] places[k];
            &&& 0 <= i < made.len()
            &&& kept[k].depth == made[i].depth
            &&& line_of(kept[k].entry) == line_of(made[i].entry)
            &&& kept[k].string_match is Some
            &&& kept[k].string_match->0.candidate_id == i
            &&& exists|h: int|
                0 <= h < hits.len() && (#[trigger] hits[h]).candidate_id == i
                    && hits[h].positions@ == kept[k].string_match->0.positions@ && forall|g: int|
                    h < g < hits.len() ==> (#[trigger] hits[g]).candidate_id != i
        }
    &&& forall|a: int, b: int|
        0 <= a < b < places.len() ==> #[trigger] places[a] < #[trigger] places[b]
    &&& forall|h: int|
        0 <= h < hits.len() && (#[trigger] hits[h]).candidate_id < made.len() ==> places.contains(
            hits[h].candidate_id as int,
        )
}

proof fn lemma_match_at(hits: Seq<StringMatch>, i: int)
    ensures
        match match_at(hits, i) {
            Some((id, positions)) => id == i && exists|h: int|
                0 <= h < hits.len() && (#[trigger] hits[h]).candidate_id == i && hits[h].positions@
                    == positions && forall|g: int|
                    h < g < hits.len() ==> (#[trigger] hits[g]).candidate_id != i,
            None => forall|h: int| 0 <= h < hits.len() ==> (#[trigger] hits[h]).candidate_id != i,
        },
    decreases hits.len(),
{
    if hits.len() > 0 {
        let rest = hits.drop_last();
        if hits.last().candidate_id == i {
            assert(hits[hits.len() - 1].candidate_id == i);
        } else {
            lemma_match_at(rest, i);
            if let Some((id, positions)) = match_at(rest, i) {
                let h: int = choose|h: int|
                    0 <= h < rest.len() && (#[trigger] rest[h]).candidate_id == i
                        && rest[h].positions@ == positions && forall|g: int|
                        h < g < rest.len() ==> (#[trigger] rest[g]).candidate_id != i;
                assert(hits[h] == rest[h]);
                assert forall|g: int| h < g < hits.len() implies (#[trigger] hits[g]).candidate_id
                    != i by {
                    if g < rest.len() {
                        assert(rest[g] == hits[g]);
                    }
                }
            } else {
                assert forall|h: int| 0 <= h < hits.len() implies (#[trigger] hits[h]).candidate_id
                    != i by {
                    if h < rest.len() {
                        assert(rest[h] == hits[h]);
                    }
                }
            }
        }
    }
}

proof fn lemma_matched_places(lines: Seq<(usize, Line)>, hits: Seq<StringMatch>) -> (places: Seq<int>)
    ensures
        places.len() == matched(lines, hits).len(),
        forall|k: int|
            0 <= k < places.len() ==> 0 <= #[trigger] places[k] < lines.len() && matched(
                lines,
                hits,
            )[k] == (
                lines[places[k]].0,
                lines[places[k]].1,
                match_at(hits, places[k]),
            ) && match_at(hits, places[k]) is Some,
        forall|a: int, b: int|
            0 <= a < b < places.len() ==> #[trigger] places[a] < #[trigger] places[b],
        forall|i: int|
            0 <= i < lines.len() && #[trigger] match_at(hits, i) is Some ==> places.contains(i),
    decreases lines.len(),
{
    if lines.len() == 0 {
        Seq::empty()
    } else {
        let rest = lines.drop_last();
        let before = lemma_matched_places(rest, hits);
        let last: int = lines.len() - 1;
        let all = matched(lines, hits);
        if match_at(hits, last) is Some {
            let places = before.push(last);
            assert forall|k: int| 0 <= k < places.len() implies 0 <= #[trigger] places[k]
                < lines.len() && all[k] == (
                lines[places[k]].0,
                lines[places[k]].1,
                match_at(hits, places[k]),
            ) && match_at(hits, places[k]) is Some by {
                if k < before.len() {
                    assert(places[k] == before[k]);
                    assert(rest[before[k]] == lines[before[k]]);
                    assert(all[k] == matched(rest, hits)[k]);
                }
            }
            assert forall|a: int, b: int| 0 <= a < b < places.len() implies #[trigger] places[a]
                < #[trigger] places[b] by {
                assert(places[a] == before[a]);
                if b < before.len() {
                    assert(places[b] == before[b]);
                }
            }
            assert forall|i: int|
                0 <= i < lines.len() && #[trigger] match_at(
                    hits,
                    i,
                ) is Some implies places.contains(i) by {
                if i < last {
                    assert(before.contains(i));
                    let k: int = choose|k: int| 0 <= k < before.len() && before[k] == i;
                    assert(places[k] == i);
                } else {
                    assert(places[before.len() as int] == i);
                }
            }
            places
        } else {
            assert forall|k: int| 0 <= k < before.len() implies 0 <= #[trigger] before[k]
                < lines.len() && all[k] == (
                lines[before[k]].0,
                lines[before[k]].1,
                match_at(hits, before[k]),
            ) && match_at(hits, before[k]) is Some by {
                assert(rest[before[k]] == lines[before[k]]);
            }
            before
        }
    }
}

/// With a query exactly the lines stay in which it was found, in their order and with their
/// indentation, each with the places at which it was found. Without one all lines stay.
pub proof fn law_query_keeps_what_it_is_found_in(
    state: GenerationState,
    hits: Option<Vec<StringMatch>>,
    r: (Vec<CachedEntry>, Option<usize>),
)
    requires
        state.no_matches(),
        call_ensures(filter_entries, (state, hits), r),
    ensures
        hits is Some ==> exists|places: Seq<int>|
            picked(r.0@, state.entries@, hits->0@, places),
        hits is None ==> r.0@.len() == state.entries@.len() && forall|i: int|
            0 <= i < r.0@.len() ==> (#[trigger] r.0@[i]).depth == state.entries@[i].depth && line_of(
                r.0@[i].entry,
            ) == line_of(state.entries@[i].entry) && r.0@[i].string_match is None,
        r.1 is Some <==> state.max_width_estimate_and_index is Some,
        state.max_width_estimate_and_index matches Some((_, widest)) ==> r.1 == Some(widest),
{
    let lines = state@.lines;
    match hits {
        Some(hits) => {
            let places = lemma_matched_places(lines, hits@);
            let all = matched(lines, hits@);
            let kept = r.0@;
            let made = state.entries@;
            assert(shown_lines(kept) == all);
            assert(kept.len() == all.len());
            assert forall|k: int| 0 <= k < kept.len() implies {
                let i = #[trigger] places[k];
                &&& 0 <= i < made.len()
                &&& kept[k].depth == made[i].depth
                &&& line_of(kept[k].entry) == line_of(made[i].entry)
                &&& kept[k].string_match is Some
                &&& kept[k].string_match->0.candidate_id == i
                &&& exists|h: int|
                    0 <= h < hits@.len() && (#[trigger] hits@[h]).candidate_id == i
                        && hits@[h].positions@ == kept[k].string_match->0.positions@ && forall|
                        g: int,
                    |
                        h < g < hits@.len() ==> (#[trigger] hits@[g]).candidate_id != i
            } by {
                assert(shown_lines(kept)[k] == all[k]);
                lemma_match_at(hits@, places[k]);
            }
            assert forall|h: int|
                0 <= h < hits@.len() && (#[trigger] hits@[h]).candidate_id
                    < made.len() implies places.contains(hits@[h].candidate_id as int) by {
                lemma_match_at(hits@, hits@[h].candidate_id as int);
                assert(match_at(hits@, hits@[h].candidate_id as int) is Some);
            }
            assert(picked(kept, made, hits@, places));
        },
        None => {
            assert(shown_lines(r.0@) == unmatched(lines));
            assert(shown_lines(r.0@).len() == unmatched(lines).len());
            assert forall|i: int| 0 <= i < r.0@.len() implies (#[trigger] r.0@[i]).depth
                == state.entries@[i].depth && line_of(r.0@[i].entry) == line_of(
                state.entries@[i].entry,
            ) && r.0@[i].string_match is None by {
                assert(shown_lines(r.0@)[i] == unmatched(lines)[i]);
            }
        },
    }
}

proof fn lemma_outlines_lines(
    env: PanelEnv,
    options: GenerationOptions,
    state: Lines,
    key: ExcerptKey,
    outlines: Seq<Arc<OutlineItem>>,
    base: usize,
)
    ensures
        with_outlines(env, options, state, key, outlines, base).lines == state.lines
            + symbol_lines(key, outlines, base),
    decreases outlines.len(),
{
    let lines = symbol_lines(key, outlines, base);
    if outlines.len() > 0 {
        let init = outlines.drop_last();
        lemma_outlines_lines(env, options, state, key, init, base);
        assert(lines.drop_last() =~= symbol_lines(key, init, base));
        assert(state.lines + lines =~= (state.lines + lines.drop_last()).push(lines.last()));
    } else {
        assert(state.lines + lines =~= state.lines);
    }
}

/// The lines of some symbols of an excerpt, one for each, indented as they are nested.
pub open spec fn symbol_lines(
    key: ExcerptKey,
    outlines: Seq<Arc<OutlineItem>>,
    base: usize,
) -> Seq<(usize, Line)> {
    Seq::new(
        outlines.len(),
        |k: int|
            (
                if base + outlines[k].depth <= usize::MAX {
                    (base + outlines[k].depth) as usize
                } else {
                    usize::MAX
                },
                Line::Outline(
                    OutlineEntryOutline {
                        buffer_id: key.buffer_id,
                        excerpt_id: key.excerpt_id,
                        outline: outlines[k],
                    },
                ),
            ),
    )
}

/// The symbols of an excerpt that are known, be they out of date or not.
pub open spec fn has_symbols(excerpt: Excerpt, outlines: Seq<Arc<OutlineItem>>) -> bool {
    match excerpt.outlines {
        ExcerptOutlines::Outlines(list) => list@ == outlines,
        ExcerptOutlines::Invalidated(list) => list@ == outlines,
        ExcerptOutlines::NotFetched => outlines.len() == 0,
    }
}

/// The panel of an editor that shows a single excerpt of a single buffer lists its symbols,
/// one line for each, in their order and indented as they are nested.
pub proof fn law_single_buffer_lists_its_symbols(
    panel: OutlinePanel,
    env: PanelEnv,
    options: GenerationOptions,
    buffer_id: BufferId,
    excerpt_id: ExcerptId,
    outlines: Seq<Arc<OutlineItem>>,
    state: GenerationState,
)
    requires
        call_ensures(OutlinePanel::generate_cached_entries, (&panel, &env, options), state),
        options.is_singleton,
        panel.active_item is Some,
        panel.mode is Outline,
        panel.fs_entries@.len() == 1,
        match panel.fs_entries@[0] {
            FsEntry::File(file) => file.buffer_id == buffer_id && file.excerpts@ == seq![
                excerpt_id,
            ],
            FsEntry::ExternalFile(file) => file.buffer_id == buffer_id && file.excerpts@ == seq![
                excerpt_id,
            ],
            FsEntry::Directory(_) => false,
        },
        !env.folded_buffers@.contains(buffer_id),
        panel.excerpts.buffers@.contains(buffer_id),
        panel.excerpts.items@.contains_key(ExcerptKey { buffer_id, excerpt_id }),
        has_symbols(panel.excerpts.items@[ExcerptKey { buffer_id, excerpt_id }], outlines),
        outlines.len() > 0,
    ensures
        state.entries@.len() == outlines.len(),
        forall|k: int|
            0 <= k < outlines.len() ==> {
                let line = #[trigger] state.entries@[k];
                &&& line.depth == outlines[k].depth
                &&& line.entry matches PanelEntry::Outline(OutlineEntry::Outline(symbol))
                    && symbol.outline == outlines[k] && symbol.buffer_id == buffer_id
                    && symbol.excerpt_id == excerpt_id
            },
{
    reveal_with_fuel(walked_over, 2);
    reveal_with_fuel(with_excerpts, 2);
    let entries = panel.fs_entries@;
    let entry = entries[0];
    let key = ExcerptKey { buffer_id, excerpt_id };
    assert(entries.drop_last() =~= Seq::empty());
    let begin = walked_over(panel, env, options, entries.drop_last());
    let place = placed(panel, env, options, begin, entry);
    assert(place.walked.pending is None);
    assert(seq![excerpt_id].drop_last() =~= Seq::<ExcerptId>::empty());
    assert(entry.shown_excerpts() == seq![excerpt_id]);
    let known = panel.excerpts.items@[key].outlines.known();
    assert(known =~= outlines);
    lemma_outlines_lines(env, options, no_lines(), key, outlines, 0);
    let items = with_outlines(env, options, no_lines(), key, outlines, 0);
    assert(with_excerpts(
        panel,
        env,
        options,
        place.walked.state,
        buffer_id,
        entry.shown_excerpts(),
        place.depth,
    ) == items);
    assert(items.lines =~= symbol_lines(key, outlines, 0));
    assert(items.lines[0].1 is Outline);
    assert(with_entry(panel, env, options, place, entry) == items);
    assert(all_lines(panel, env, options) == items);
    assert forall|k: int| 0 <= k < outlines.len() implies {
        let line = #[trigger] state.entries@[k];
        &&& line.depth == outlines[k].depth
        &&& line.entry matches PanelEntry::Outline(OutlineEntry::Outline(symbol))
            && symbol.outline == outlines[k] && symbol.buffer_id == buffer_id
            && symbol.excerpt_id == excerpt_id
    } by {
        assert(state@.lines[k] == symbol_lines(key, outlines, 0)[k]);
    }
}

/// Below the line of an excerpt its symbols are listed, one line for each, in their order
/// and indented as they are nested. Only a collapsed excerpt hides them, and not from a
/// query.
pub proof fn law_excerpt_is_followed_by_its_symbols(
    panel: OutlinePanel,
    env: PanelEnv,
    options: GenerationOptions,
    before: Lines,
    buffer_id: BufferId,
    excerpt_id: ExcerptId,
    outlines: Seq<Arc<OutlineItem>>,
    depth: usize,
)
    requires
        !options.is_singleton,
        depth < usize::MAX - 1,
        panel.excerpts.buffers@.contains(buffer_id),
        panel.excerpts.items@.contains_key(ExcerptKey { buffer_id, excerpt_id }),
        has_symbols(panel.excerpts.items@[ExcerptKey { buffer_id, excerpt_id }], outlines),
    ensures
        ({
            let key = ExcerptKey { buffer_id, excerpt_id };
            let own = (
                (depth + 1) as usize,
                Line::Excerpt(
                    OutlineEntryExcerpt {
                        buffer_id,
                        id: excerpt_id,
                        range: panel.excerpts.items@[key].range,
                    },
                ),
            );
            let after = with_excerpts(
                panel,
                env,
                options,
                before,
                buffer_id,
                seq![excerpt_id],
                depth,
            );
            let hidden = !options.has_query && panel.collapsed_entries@.contains(
                CollapsedEntry::Excerpt(buffer_id, excerpt_id),
            );
            after.lines == before.lines.push(own) + (if hidden {
                Seq::empty()
            } else {
                symbol_lines(key, outlines, (depth + 2) as usize)
            })
        }),
{
    reveal_with_fuel(with_excerpts, 2);
    let key = ExcerptKey { buffer_id, excerpt_id };
    assert(seq![excerpt_id].drop_last() =~= Seq::<ExcerptId>::empty());
    let known = panel.excerpts.items@[key].outlines.known();
    assert(known =~= outlines);
    let own = Line::Excerpt(
        OutlineEntryExcerpt {
            buffer_id,
            id: excerpt_id,
            range: panel.excerpts.items@[key].range,
        },
    );
    let shown = with_line(env, before, options.has_query, own, (depth + 1) as usize);
    lemma_outlines_lines(env, options, shown, key, outlines, (depth + 2) as usize);
    assert(before.lines.push(((depth + 1) as usize, own)) + Seq::<(usize, Line)>::empty()
        =~= before.lines.push(((depth + 1) as usize, own)));
}

/// Whether a symbol of an excerpt is among some lines.
pub open spec fn lists_symbol(lines: Seq<(usize, Line)>, key: ExcerptKey, outline: Arc<OutlineItem>)
    -> bool {
    exists|i: int|
        0 <= i < lines.len() && (#[trigger] lines[i]).1 == Line::Outline(
            OutlineEntryOutline {
                buffer_id: key.buffer_id,
                excerpt_id: key.excerpt_id,
                outline,
            },
        )
}

proof fn lemma_listed_stays(next: Lines, state: Lines, key: ExcerptKey, outline: Arc<OutlineItem>)
    requires
        extends(next, state),
        lists_symbol(state.lines, key, outline),
    ensures
        lists_symbol(next.lines, key, outline),
{
    let line = Line::Outline(
        OutlineEntryOutline { buffer_id: key.buffer_id, excerpt_id: key.excerpt_id, outline },
    );
    let i: int = choose|i: int| 0 <= i < state.lines.len() && (#[trigger] state.lines[i]).1 == line;
    assert(state.lines[i] == next.lines[i]);
}

proof fn lemma_flushed_grows(
    env: PanelEnv,
    options: GenerationOptions,
    walked: Walked,
    at_end: bool,
)
    ensures
        extends(flushed(env, options, walked, at_end).state, walked.state),
{
}

proof fn lemma_placed_grows(
    panel: OutlinePanel,
    env: PanelEnv,
    options: GenerationOptions,
    walked: Walked,
    entry: FsEntry,
)
    ensures
        extends(placed(panel, env, options, walked, entry).walked.state, walked.state),
{
    lemma_flushed_grows(env, options, walked, false);
}

proof fn lemma_excerpts_list_symbols(
    panel: OutlinePanel,
    env: PanelEnv,
    options: GenerationOptions,
    state: Lines,
    buffer_id: BufferId,
    ids: Seq<ExcerptId>,
    e: int,
    k: int,
    depth: usize,
)
    requires
        !options.is_singleton,
        panel.excerpts.buffers@.contains(buffer_id),
        0 <= e < ids.len(),
        panel.excerpts.items@.contains_key(ExcerptKey { buffer_id, excerpt_id: ids[e] }),
        options.has_query || !panel.collapsed_entries@.contains(
            CollapsedEntry::Excerpt(buffer_id, ids[e]),
        ),
        0 <= k < panel.excerpts.items@[ExcerptKey {
            buffer_id,
            excerpt_id: ids[e],
        }].outlines.known().len(),
    ensures
        lists_symbol(
            with_excerpts(panel, env, options, state, buffer_id, ids, depth).lines,
            ExcerptKey { buffer_id, excerpt_id: ids[e] },
            panel.excerpts.items@[ExcerptKey {
                buffer_id,
                excerpt_id: ids[e],
            }].outlines.known()[k],
        ),
    decreases ids.len(),
{
    let key = ExcerptKey { buffer_id, excerpt_id: ids[e] };
    let outlines = panel.excerpts.items@[key].outlines.known();
    let init = ids.drop_last();
    let rest = with_excerpts(panel, env, options, state, buffer_id, init, depth);
    let all = with_excerpts(panel, env, options, state, buffer_id, ids, depth);
    if e == ids.len() - 1 {
        let own_depth = crate::outline_panel::cached::deeper(depth, 1);
        let base = crate::outline_panel::cached::deeper(own_depth, 1);
        let own = Line::Excerpt(
            OutlineEntryExcerpt {
                buffer_id,
                id: ids[e],
                range: panel.excerpts.items@[key].range,
            },
        );
        let shown = with_line(env, rest, options.has_query, own, own_depth);
        lemma_outlines_lines(env, options, shown, key, outlines, base);
        let lines = symbol_lines(key, outlines, base);
        assert(all.lines == shown.lines + lines);
        assert(all.lines[shown.lines.len() + k] == lines[k]);
    } else {
        assert(init[e] == ids[e]);
        lemma_excerpts_list_symbols(
            panel,
            env,
            options,
            state,
            buffer_id,
            init,
            e,
            k,
            depth,
        );
        let last = seq![ids.last()];
        lemma_excerpts_grow(panel, env, options, rest, buffer_id, last, depth);
        reveal_with_fuel(with_excerpts, 2);
        assert(last.drop_last() =~= Seq::<ExcerptId>::empty());
        assert(with_excerpts(panel, env, options, rest, buffer_id, last, depth) == all);
        lemma_listed_stays(all, rest, key, outlines[k]);
    }
}

proof fn lemma_entry_lists_symbols(
    panel: OutlinePanel,
    env: PanelEnv,
    options: GenerationOptions,
    place: Placed,
    entry: FsEntry,
    e: int,
    k: int,
)
    requires
        symbol_is_open(panel, env, options, entry, e, k),
        options.has_query || (place.should_add && panel.expanded(entry)),
    ensures
        lists_symbol(
            with_entry(panel, env, options, place, entry).lines,
            ExcerptKey { buffer_id: entry.buffer()->0, excerpt_id: entry.shown_excerpts()[e] },
            panel.excerpts.items@[ExcerptKey {
                buffer_id: entry.buffer()->0,
                excerpt_id: entry.shown_excerpts()[e],
            }].outlines.known()[k],
        ),
{
    let own = if place.should_add || (options.has_query && place.walked.pending is None) {
        with_line(env, place.walked.state, options.has_query, Line::Fs(entry), place.depth)
    } else {
        place.walked.state
    };
    lemma_excerpts_list_symbols(
        panel,
        env,
        options,
        own,
        entry.buffer()->0,
        entry.shown_excerpts(),
        e,
        k,
        place.depth,
    );
}

spec fn symbol_is_open(
    panel: OutlinePanel,
    env: PanelEnv,
    options: GenerationOptions,
    entry: FsEntry,
    e: int,
    k: int,
) -> bool {
    &&& !options.is_singleton
    &&& panel.mode is Outline
    &&& entry.buffer() is Some
    &&& !env.folded_buffers@.contains(entry.buffer()->0)
    &&& panel.excerpts.buffers@.contains(entry.buffer()->0)
    &&& 0 <= e < entry.shown_excerpts().len()
    &&& {
        let key = ExcerptKey {
            buffer_id: entry.buffer()->0,
            excerpt_id: entry.shown_excerpts()[e],
        };
        &&& panel.excerpts.items@.contains_key(key)
        &&& options.has_query || !panel.collapsed_entries@.contains(
            CollapsedEntry::Excerpt(key.buffer_id, key.excerpt_id),
        )
        &&& 0 <= k < panel.excerpts.items@[key].outlines.known().len()
    }
}

proof fn lemma_walk_lists_symbols(
    panel: OutlinePanel,
    env: PanelEnv,
    options: GenerationOptions,
    entries: Seq<FsEntry>,
    i: int,
    e: int,
    k: int,
)
    requires
        0 <= i < entries.len(),
        symbol_is_open(panel, env, options, entries[i], e, k),
        options.has_query || (entries[i] is ExternalFile && panel.expanded(entries[i])),
    ensures
        lists_symbol(
            walked_over(panel, env, options, entries).state.lines,
            ExcerptKey {
                buffer_id: entries[i].buffer()->0,
                excerpt_id: entries[i].shown_excerpts()[e],
            },
            panel.excerpts.items@[ExcerptKey {
                buffer_id: entries[i].buffer()->0,
                excerpt_id: entries[i].shown_excerpts()[e],
            }].outlines.known()[k],
        ),
    decreases entries.len(),
{
    let before = walked_over(panel, env, options, entries.drop_last());
    let current = entries.last();
    let place = placed(panel, env, options, before, current);
    if i == entries.len() - 1 {
        lemma_entry_lists_symbols(panel, env, options, place, current, e, k);
    } else {
        assert(entries.drop_last()[i] == entries[i]);
        lemma_walk_lists_symbols(panel, env, options, entries.drop_last(), i, e, k);
        lemma_placed_grows(panel, env, options, before, current);
        lemma_entry_grows(panel, env, options, place, current);
        let key = ExcerptKey {
            buffer_id: entries[i].buffer()->0,
            excerpt_id: entries[i].shown_excerpts()[e],
        };
        let outline = panel.excerpts.items@[key].outlines.known()[k];
        lemma_listed_stays(place.walked.state, before.state, key, outline);
        lemma_listed_stays(
            with_entry(panel, env, options, place, current),
            place.walked.state,
            key,
            outline,
        );
    }
}

/// With a query every known symbol of every file that is not folded is among the lines,
/// whatever is collapsed. Without one, so is every symbol of an expanded file outside all
/// worktrees whose excerpt is not collapsed.
pub proof fn law_symbols_are_lines(
    panel: OutlinePanel,
    env: PanelEnv,
    options: GenerationOptions,
    i: int,
    buffer_id: BufferId,
    excerpt_id: ExcerptId,
    outlines: Seq<Arc<OutlineItem>>,
    k: int,
    state: GenerationState,
)
    requires
        call_ensures(OutlinePanel::generate_cached_entries, (&panel, &env, options), state),
        panel.active_item is Some,
        !options.is_singleton,
        panel.mode is Outline,
        0 <= i < panel.fs_entries@.len(),
        match panel.fs_entries@[i] {
            FsEntry::File(file) => file.buffer_id == buffer_id && file.excerpts@.contains(
                excerpt_id,
            ) && options.has_query,
            FsEntry::ExternalFile(file) => file.buffer_id == buffer_id && file.excerpts@.contains(
                excerpt_id,
            ) && (options.has_query || (!panel.collapsed_entries@.contains(
                CollapsedEntry::ExternalFile(buffer_id),
            ) && !panel.collapsed_entries@.contains(
                CollapsedEntry::Excerpt(buffer_id, excerpt_id),
            ))),
            FsEntry::Directory(_) => false,
        },
        !env.folded_buffers@.contains(buffer_id),
        panel.excerpts.buffers@.contains(buffer_id),
        panel.excerpts.items@.contains_key(ExcerptKey { buffer_id, excerpt_id }),
        has_symbols(panel.excerpts.items@[ExcerptKey { buffer_id, excerpt_id }], outlines),
        0 <= k < outlines.len(),
    ensures
        exists|l: int|
            0 <= l < state.entries@.len() && ((#[trigger] state.entries@[l]).entry matches
                PanelEntry::Outline(OutlineEntry::Outline(symbol)) && symbol.outline
                == outlines[k] && symbol.buffer_id == buffer_id && symbol.excerpt_id
                == excerpt_id),
{
    let entry = panel.fs_entries@[i];
    let ids = entry.shown_excerpts();
    let key = ExcerptKey { buffer_id, excerpt_id };
    let e: int = choose|e: int| 0 <= e < ids.len() && ids[e] == excerpt_id;
    assert(panel.excerpts.items@[key].outlines.known() =~= outlines);
    assert(symbol_is_open(panel, env, options, entry, e, k));
    lemma_walk_lists_symbols(panel, env, options, panel.fs_entries@, i, e, k);
    let walked = walked_over(panel, env, options, panel.fs_entries@);
    lemma_flushed_grows(env, options, walked, true);
    let all = all_lines(panel, env, options);
    lemma_listed_stays(all, walked.state, key, outlines[k]);
    let line = Line::Outline(OutlineEntryOutline { buffer_id, excerpt_id, outline: outlines[k] });
    let l: int = choose|l: int| 0 <= l < all.lines.len() && (#[trigger] all.lines[l]).1 == line;
    assert(state@.lines[l].1 == line_of(state.entries@[l].entry));
}

} // verus!
