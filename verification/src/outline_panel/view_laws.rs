//! Laws of the matches that are shown, of what is drawn and of where the editor scrolls.

use vstd::prelude::*;
use std::sync::Arc;
use crate::collections::VecSet;
use crate::outline_panel::entries::{
    AnchorRange, BufferId, CachedEntry, CollapsedEntry, ExcerptRange, FsEntry, GitEntry,
    OutlineEntry, PanelEntry, SearchData, SearchKind, SelectedEntry, WorktreeId,
};
use crate::outline_panel::labels::{dir_names_string, entry_name, excerpt_label};
use crate::outline_panel::panel::{
    worktree_at, ItemsDisplayMode, OutlinePanel, PanelEnv, SearchMatch, WorktreeInfo,
};
use crate::outline_panel::place_laws::is_of_buffer;
use crate::outline_panel::search::{
    all_bytes, context_borders, extended_borders, known_data, leading_blanks, match_highlights,
    with_chunk, with_chunks, FoundMatches, Highlight, HighlightChunk, MatchContext,
};
use crate::outline_panel::view::{
    click_changes_focus, find_active_indent_guide_ix, first_guide, guide_at, line_models,
    previous_buffer, textless, Contents, IndentGuide, LineIcon, LineView, ScrollMove, ScrollOffset,
    ScrollPlan, ScrollStep, ScrollTarget, ViewOptions,
};
use crate::path::{file_name, push_path};
use crate::rope::position::Point;
use crate::text::{byte_len, decimal, whitespace};

verus! {

proof fn lemma_known_data(previous: Seq<SearchMatch>, i: int)
    requires
        0 <= i < previous.len(),
        forall|j: int|
            i < j < previous.len() ==> (#[trigger] previous[j]).range != previous[i].range,
    ensures
        known_data(previous, previous[i].range) == previous[i].render_data,
    decreases previous.len(),
{
    if i < previous.len() - 1 {
        assert(previous[previous.len() - 1].range != previous[i].range);
        let init = previous.drop_last();
        assert(init[i] == previous[i]);
        assert forall|j: int| i < j < init.len() implies (#[trigger] init[j]).range
            != init[i].range by {
            assert(init[j] == previous[j]);
        }
        lemma_known_data(init, i);
    }
}

proof fn lemma_unknown_data(previous: Seq<SearchMatch>, range: AnchorRange)
    requires
        forall|j: int| 0 <= j < previous.len() ==> (#[trigger] previous[j]).range != range,
    ensures
        known_data(previous, range) is None,
    decreases previous.len(),
{
    if previous.len() > 0 {
        assert(previous[previous.len() - 1].range != range);
        let init = previous.drop_last();
        assert forall|j: int| 0 <= j < init.len() implies (#[trigger] init[j]).range
            != range by {
            assert(init[j] == previous[j]);
        }
        lemma_unknown_data(init, range);
    }
}

/// What a search shows: the matches in the buffer, or else those in the project, all of them
/// and in their order. The text of a match that was shown before is kept. Without matches the
/// outline is shown, and a panel that is not active shows what it did.
pub proof fn law_matches_are_shown(
    panel: &mut OutlinePanel,
    found: FoundMatches,
    r: bool,
    i: int,
    k: int,
)
    requires
        call_ensures(OutlinePanel::update_search_matches, (panel, &found), r),
    ensures
        !old(panel).active ==> !r && final(panel).mode == old(panel).mode,
        old(panel).active && found.buffer@.len() == 0 && found.project@.len() == 0 ==> final(
            panel
        ).mode is Outline && r == old(panel).mode is Search,
        old(panel).active && (found.buffer@.len() > 0 || found.project@.len() > 0) ==> {
            let kind = if found.buffer@.len() > 0 {
                SearchKind::Buffer
            } else {
                SearchKind::Project
            };
            let ranges = if found.buffer@.len() > 0 {
                found.buffer@
            } else {
                found.project@
            };
            &&& final(panel).mode is Search
            &&& final(panel).mode->Search_0.kind == kind
            &&& final(panel).mode->Search_0.query@ == (if found.buffer@.len() > 0 {
                found.buffer_query@
            } else {
                found.project_query@
            })
            &&& final(panel).mode->Search_0.matches@.len() == ranges.len()
            &&& 0 <= i < ranges.len() ==> final(panel).mode->Search_0.matches@[i].range
                == ranges[i]
            &&& 0 <= i < ranges.len() && old(panel).mode is Outline ==> final(
                panel
            ).mode->Search_0.matches@[i].render_data is None
            &&& 0 <= i < ranges.len() && old(panel).mode is Search
                && old(panel).mode->Search_0.kind == kind && 0 <= k
                < old(panel).mode->Search_0.matches@.len()
                && old(panel).mode->Search_0.matches@[k].range == ranges[i] && (forall|j: int|
                k < j < old(panel).mode->Search_0.matches@.len() ==> (
                #[trigger] old(panel).mode->Search_0.matches@[j]).range != ranges[i]) ==> final(
                panel
            ).mode->Search_0.matches@[i].render_data
                == old(panel).mode->Search_0.matches@[k].render_data
            &&& old(panel).mode is Outline ==> r
            &&& old(panel).mode matches ItemsDisplayMode::Search(before) ==> !r
                ==> before.kind == kind && before.query@ == final(panel).mode->Search_0.query@
                && before.matches@.len() <= ranges.len() && (0 <= i < before.matches@.len()
                ==> before.matches@[i].range == ranges[i])
        },
{
    let ranges = if found.buffer@.len() > 0 {
        found.buffer@
    } else {
        found.project@
    };
    if let ItemsDisplayMode::Search(before) = old(panel).mode {
        if 0 <= i < ranges.len() && 0 <= k < before.matches@.len() && before.matches@[k].range
            == ranges[i] && (forall|j: int|
            k < j < before.matches@.len() ==> (#[trigger] before.matches@[j]).range
                != ranges[i]) {
            lemma_known_data(before.matches@, k);
        }
        if old(panel).active && ranges.len() > 0 && !r {
            assert(before.matches@.len() <= ranges.len()) by {
                if before.matches@.len() > ranges.len() {
                    let extra = before.matches@[ranges.len() as int];
                }
            }
        }
    }
}

/// The text of a match that was read is shown in its line, and in no other.
pub proof fn law_text_of_a_match_is_shown(
    panel: &mut OutlinePanel,
    range: AnchorRange,
    data: Arc<SearchData>,
    i: int,
)
    requires
        call_ensures(OutlinePanel::set_search_data, (panel, range, data), ()),
        old(panel).mode is Search,
        0 <= i < old(panel).cached_entries@.len(),
    ensures
        final(panel).cached_entries@.len() == old(panel).cached_entries@.len(),
        ({
            let before = old(panel).cached_entries@[i];
            let after = final(panel).cached_entries@[i];
            let is_it = before.entry matches PanelEntry::Search(line) && line.match_range == range
                && line.kind == old(panel).mode->Search_0.kind && line.render_data is None;
            &&& is_it ==> (after.entry matches PanelEntry::Search(line) && line.render_data
                == Some(data) && line.match_range == range)
            &&& !is_it ==> after == before
            &&& after.depth == before.depth
        }),
{
}

proof fn lemma_leading_blanks(text: Seq<char>)
    ensures
        leading_blanks(text) <= text.len(),
        forall|k: int| 0 <= k < leading_blanks(text) ==> whitespace(#[trigger] text[k]),
        leading_blanks(text) < text.len() ==> !whitespace(text[leading_blanks(text) as int]),
    decreases text.len(),
{
    if text.len() > 0 && whitespace(text.first()) {
        let rest = text.drop_first();
        lemma_leading_blanks(rest);
        assert forall|k: int| 0 <= k < leading_blanks(text) implies whitespace(
            #[trigger] text[k],
        ) by {
            if k > 0 {
                assert(rest[k - 1] == text[k]);
            }
        }
    }
}

/// The context of a match is shown without the white space before it. It is marked as cut off
/// where a word goes on to the left or to the right of it.
pub proof fn law_context_of_a_match(
    context: MatchContext,
    start: usize,
    end: usize,
    data: SearchData,
    blanks: int,
    place: (usize, usize),
)
    requires
        call_ensures(SearchData::new, (&context, start, end), data),
        call_ensures(MatchContext::match_without_blanks, (&context,), place),
        0 <= blanks <= context.text@.len(),
        forall|k: int| 0 <= k < blanks ==> whitespace(#[trigger] context.text@[k]),
        blanks < context.text@.len() ==> !whitespace(context.text@[blanks]),
    ensures
        data.context_text@ == context.text@.skip(blanks),
        data.context_start == context.start + byte_len(context.text@.take(blanks)),
        data.context_end == context.end,
        data.match_start == start && data.match_end == end,
        context.match_start >= byte_len(context.text@.take(blanks)) ==> place.0
            == context.match_start - byte_len(context.text@.take(blanks)),
        context.match_end >= byte_len(context.text@.take(blanks)) ==> place.1 == context.match_end
            - byte_len(context.text@.take(blanks)),
        data.truncated_left <==> blanks == 0 && context.more_left && context.outer_left is Some
            && !whitespace(context.outer_left->0),
        data.truncated_right <==> context.more_right && context.outer_right is Some && !whitespace(
            context.outer_right->0,
        ) && (context.text@.len() == 0 || !whitespace(context.text@.last())),
{
    lemma_leading_blanks(context.text@);
    let found: int = leading_blanks(context.text@) as int;
    assert(found == blanks) by {
        if found < blanks {
            assert(whitespace(context.text@[found]));
        } else if blanks < found {
            assert(whitespace(context.text@[blanks]));
        }
    }
}

/// The context of a match reaches forty columns to both sides, as far as the row does to the
/// left. It is looked at one column farther to see whether it is cut off.
pub proof fn law_how_far_a_context_reaches(
    match_start: Point,
    match_end: Point,
    r: (Point, Point),
    left: Point,
    right: Point,
    more: (Point, Point),
)
    requires
        match_end.column + 40 <= u32::MAX,
        call_ensures(context_borders, (match_start, match_end), r),
        right.column < u32::MAX,
        call_ensures(extended_borders, (left, right), more),
    ensures
        r.0.row == match_start.row && r.1.row == match_end.row,
        match_start.column >= 40 ==> r.0.column == match_start.column - 40,
        match_start.column < 40 ==> r.0.column == 0,
        r.1.column == match_end.column + 40,
        more.0.row == left.row && more.1.row == right.row,
        left.column > 0 ==> more.0.column == left.column - 1,
        left.column == 0 ==> more.0.column == 0,
        more.1.column == right.column + 1,
{
}

proof fn lemma_chunks(chunks: Seq<HighlightChunk>, length: nat)
    requires
        chunks.len() > 0,
        chunks[0].text@.len() > 0,
        !whitespace(chunks[0].text@[0]),
        all_bytes(chunks) < length,
    ensures
        ({
            let state = with_chunks(chunks, length);
            &&& state.covered == all_bytes(chunks)
            &&& state.blank_bytes == 0
            &&& state.text_seen
        }),
    decreases chunks.len(),
{
    let init = chunks.drop_last();
    if chunks.len() == 1 {
        let first = chunks[0].text@;
        assert(with_chunks(init, length).covered == 0);
        assert(leading_blanks(first) == 0);
        assert(first.take(0) =~= Seq::empty());
        assert(byte_len(first.take(0)) == 0) by {
            reveal_with_fuel(vstd::utf8::encode_utf8, 1);
        }
        assert(chunks.last() == chunks[0]);
        assert(all_bytes(init) == 0);
    } else {
        assert(init[0] == chunks[0]);
        lemma_chunks(init, length);
    }
}

/// The parts of a match that are highlighted are as wide as their chunks and follow one
/// another: a chunk with a style adds a part from where the chunks before end to where it ends
/// itself, and one without a style adds none.
pub proof fn law_chunks_are_highlighted(
    chunks: Vec<HighlightChunk>,
    more: Vec<HighlightChunk>,
    last: HighlightChunk,
    length: usize,
    r: Vec<Highlight>,
    with_last: Vec<Highlight>,
)
    requires
        chunks@.len() > 0,
        chunks@[0].text@.len() > 0,
        !whitespace(chunks@[0].text@[0]),
        more@ == chunks@.push(last),
        all_bytes(more@) < length,
        call_ensures(match_highlights, (&chunks, length), r),
        call_ensures(match_highlights, (&more, length), with_last),
    ensures
        last.style is None ==> with_last@ == r@,
        last.style is Some ==> with_last@ == r@.push(
            Highlight {
                start: all_bytes(chunks@) as usize,
                end: (all_bytes(chunks@) + byte_len(last.text@)) as usize,
                style: last.style->0,
            },
        ),
{
    assert(more@.drop_last() =~= chunks@);
    assert(more@.last() == last);
    assert(more@[0] == chunks@[0]);
    assert(all_bytes(more@) == all_bytes(chunks@) + byte_len(last.text@));
    lemma_chunks(chunks@, length as nat);
    lemma_chunks(more@, length as nat);
    let before = with_chunks(chunks@, length as nat);
    let after = with_chunks(more@, length as nat);
    assert(after == with_chunk(before, last, length as nat));
    assert(r@ =~= before.ranges);
    assert(with_last@ =~= after.ranges);
}

/// How a line is drawn: a file and a directory by their names and with what is known of them,
/// a symbol by its text, and a match by its context. Where a query found something is marked.
pub proof fn law_how_lines_are_drawn(
    panel: OutlinePanel,
    env: PanelEnv,
    open_buffers: VecSet<BufferId>,
    options: ViewOptions,
    cached: CachedEntry,
    r: Option<LineView>,
    name: String,
    worktree_id: WorktreeId,
    entry: GitEntry,
)
    requires
        call_ensures(
            OutlinePanel::render_line,
            (&panel, &env, &open_buffers, options, &cached),
            r,
        ),
        call_ensures(entry_name, (&env, worktree_id, &entry), name),
    ensures
        r matches Some(line) ==> line.depth == cached.depth,
        r matches Some(line) ==> !(cached.entry matches PanelEntry::Outline(
            OutlineEntry::Excerpt(_),
        )) ==> (cached.string_match is None ==> line.highlights@.len() == 0) && (
        cached.string_match is Some ==> line.highlights@ == cached.string_match->0.positions@),
        cached.entry matches PanelEntry::Fs(FsEntry::File(file)) ==> {
            &&& r is Some && r->0.is_ignored == file.entry.is_ignored && r->0.git_summary == Some(
                file.entry.git_summary,
            )
            &&& file.worktree_id == worktree_id && file.entry == entry ==> r->0.label@ == name@
            &&& r->0.icon is File <==> options.file_icons
        },
        cached.entry matches PanelEntry::Fs(FsEntry::Directory(dir)) ==> {
            let shown = !panel.collapsed_entries@.contains(
                CollapsedEntry::Dir(dir.worktree_id, dir.entry.id),
            );
            &&& r is Some && r->0.is_ignored == dir.entry.is_ignored && r->0.git_summary == Some(
                dir.entry.git_summary,
            )
            &&& dir.worktree_id == worktree_id && dir.entry == entry ==> r->0.label@ == name@
            &&& options.folder_icons ==> r->0.icon == (LineIcon::Folder { expanded: shown })
            &&& !options.folder_icons ==> r->0.icon == (LineIcon::Chevron { expanded: shown })
        },
        cached.entry matches PanelEntry::Fs(FsEntry::ExternalFile(file))
            ==> !env.buffer_paths@.contains_key(file.buffer_id) ==> r is Some && r->0.label@ == (
        if open_buffers@.contains(file.buffer_id) {
            "Untitled"@
        } else {
            "Unknown buffer"@
        }) && r->0.icon is Empty,
        cached.entry matches PanelEntry::Outline(OutlineEntry::Outline(symbol)) ==> r is Some
            && r->0.label@ == symbol.outline.text@ && (r->0.icon is Missing
            <==> options.is_singleton),
        cached.entry matches PanelEntry::Search(found) ==> {
            &&& r is Some <==> found.render_data is Some
            &&& r matches Some(line) ==> line.label@ == found.render_data->0.context_text@
                && line.cut_left == found.render_data->0.truncated_left && line.cut_right
                == found.render_data->0.truncated_right
            &&& r is Some && cached.string_match is None ==> r->0.match_place == Some(
                (found.render_data->0.match_start, found.render_data->0.match_end),
            )
        },
{
}

/// The line that is selected is drawn as active.
pub proof fn law_selected_line_is_active(
    panel: OutlinePanel,
    env: PanelEnv,
    open_buffers: VecSet<BufferId>,
    options: ViewOptions,
    cached: CachedEntry,
    r: Option<LineView>,
    same: bool,
    selected: PanelEntry,
)
    requires
        call_ensures(
            OutlinePanel::render_line,
            (&panel, &env, &open_buffers, options, &cached),
            r,
        ),
        panel.selected_entry.entry() == Some(selected),
        call_ensures(PanelEntry::same, (&selected, &cached.entry), same),
    ensures
        r is Some && same ==> r->0.is_active,
        r is Some && cached.entry is Fs ==> r->0.is_active == same,
        r is Some && r->0.is_active ==> (selected is Fs == cached.entry is Fs) && (selected
            is Search == cached.entry is Search) && (selected is Outline == cached.entry
            is Outline),
{
}

/// Nothing is active where nothing is selected.
pub proof fn law_nothing_selected_nothing_active(
    panel: OutlinePanel,
    env: PanelEnv,
    open_buffers: VecSet<BufferId>,
    options: ViewOptions,
    cached: CachedEntry,
    r: Option<LineView>,
)
    requires
        call_ensures(
            OutlinePanel::render_line,
            (&panel, &env, &open_buffers, options, &cached),
            r,
        ),
        panel.selected_entry.entry() is None,
    ensures
        r is Some ==> !r->0.is_active,
{
}

/// Lines are drawn one after the other. Those that cannot be drawn yet are left out.
pub proof fn law_lines_are_drawn_in_order(
    panel: OutlinePanel,
    env: PanelEnv,
    open_buffers: VecSet<BufferId>,
    options: ViewOptions,
    start: usize,
    end: usize,
    before: Vec<LineView>,
    last: Option<LineView>,
    r: Vec<LineView>,
)
    requires
        start < end <= panel.cached_entries@.len(),
        call_ensures(
            OutlinePanel::render_lines,
            (&panel, &env, &open_buffers, options, start, (end - 1) as usize),
            before,
        ),
        call_ensures(
            OutlinePanel::render_line,
            (&panel, &env, &open_buffers, options, &panel.cached_entries@[end - 1]),
            last,
        ),
        call_ensures(
            OutlinePanel::render_lines,
            (&panel, &env, &open_buffers, options, start, end),
            r,
        ),
    ensures
        last is None ==> line_models(r@) == line_models(before@),
        last is Some ==> line_models(r@) == line_models(before@).push(last->0@),
        start == end - 1 ==> before@.len() == 0,
{
    let lines = panel.cached_entries@.subrange(start as int, end as int);
    assert(lines.drop_last() =~= panel.cached_entries@.subrange(start as int, end - 1));
    assert(lines.last() == panel.cached_entries@[end - 1]);
    if start == end - 1 {
        assert(line_models(before@).len() == before@.len());
        assert(panel.cached_entries@.subrange(start as int, end - 1).len() == 0);
    }
}

proof fn lemma_textless(lines: Seq<CachedEntry>, range: AnchorRange)
    ensures
        textless(lines).contains(range) <==> exists|i: int|
            0 <= i < lines.len() && is_without_text((#[trigger] lines[i]).entry, range),
    decreases lines.len(),
{
    if lines.len() > 0 {
        let init = lines.drop_last();
        let n: int = lines.len() - 1;
        lemma_textless(init, range);
        let before = textless(init);
        let all = textless(lines);
        if all.contains(range) {
            let k: int = choose|k: int| 0 <= k < all.len() && all[k] == range;
            if k < before.len() {
                assert(before[k] == range);
                let i: int = choose|i: int|
                    0 <= i < init.len() && is_without_text((#[trigger] init[i]).entry, range);
                assert(lines[i] == init[i]);
            } else {
                assert(is_without_text(lines[n].entry, range));
            }
        }
        if exists|i: int|
            0 <= i < lines.len() && is_without_text((#[trigger] lines[i]).entry, range) {
            let i: int = choose|i: int|
                0 <= i < lines.len() && is_without_text((#[trigger] lines[i]).entry, range);
            if i < n {
                assert(init[i] == lines[i]);
                let k: int = choose|k: int| 0 <= k < before.len() && before[k] == range;
                assert(all[k] == range);
            } else {
                assert(all[all.len() - 1] == range);
            }
        }
    }
}

/// Whether a line is that of a match whose text is not known.
pub open spec fn is_without_text(line: PanelEntry, range: AnchorRange) -> bool {
    line matches PanelEntry::Search(found) && found.match_range == range && found.render_data
        is None
}

/// The texts that are missing are those of the matches that are to be drawn and have none.
pub proof fn law_missing_texts_are_asked_for(
    panel: OutlinePanel,
    start: usize,
    end: usize,
    r: Vec<AnchorRange>,
    range: AnchorRange,
)
    requires
        panel.mode is Search,
        panel.active_item is Some,
        start <= end <= panel.cached_entries@.len(),
        call_ensures(OutlinePanel::missing_texts, (&panel, start, end), r),
    ensures
        r@.contains(range) <==> exists|i: int|
            start <= i < end && is_without_text((#[trigger] panel.cached_entries@[i]).entry, range),
{
    let lines = panel.cached_entries@.subrange(start as int, end as int);
    lemma_textless(lines, range);
    if r@.contains(range) {
        let i: int = choose|i: int|
            0 <= i < lines.len() && is_without_text((#[trigger] lines[i]).entry, range);
        assert(panel.cached_entries@[start + i] == lines[i]);
    }
    if exists|i: int|
        start <= i < end && is_without_text((#[trigger] panel.cached_entries@[i]).entry, range) {
        let i: int = choose|i: int|
            start <= i < end && is_without_text(
                (#[trigger] panel.cached_entries@[i]).entry,
                range,
            );
        assert(lines[i - start] == panel.cached_entries@[i]);
    }
}

/// Where the editor scrolls for a line: to the start of a file or an excerpt, to a symbol or to
/// a match. Only symbols and matches are selected in it, and an excerpt or a directory never
/// takes the focus.
pub proof fn law_where_the_editor_scrolls(
    panel: OutlinePanel,
    entry: PanelEntry,
    select: bool,
    focus: bool,
    r: Option<ScrollPlan>,
)
    requires
        call_ensures(OutlinePanel::scroll_editor_to_entry, (&panel, &entry, select, focus), r),
    ensures
        r is Some == panel.active_item is Some,
        r matches Some(plan) ==> {
            &&& entry matches PanelEntry::Fs(FsEntry::File(file)) ==> plan.target
                == ScrollTarget::FileStart(file.entry.id) && plan.buffer == Some(file.buffer_id)
                && !plan.change_selection && plan.change_focus == focus
            &&& entry matches PanelEntry::Fs(FsEntry::ExternalFile(file)) ==> plan.target
                == ScrollTarget::BufferStart(file.buffer_id) && plan.buffer == Some(
                file.buffer_id,
            ) && !plan.change_selection && plan.change_focus == focus
            &&& entry matches PanelEntry::Outline(OutlineEntry::Outline(symbol)) ==> plan.target
                == (ScrollTarget::Symbol {
                excerpt_id: symbol.excerpt_id,
                start: symbol.outline.start,
                end: symbol.outline.end,
            }) && plan.change_selection == select && plan.change_focus == focus && plan.buffer
                is None
            &&& entry matches PanelEntry::Outline(OutlineEntry::Excerpt(excerpt)) ==> plan.target
                == (ScrollTarget::ExcerptStart {
                excerpt_id: excerpt.id,
                start: excerpt.range.start,
            }) && !plan.change_selection && !plan.change_focus && plan.buffer is None
            &&& entry matches PanelEntry::Search(found) ==> plan.target == ScrollTarget::Place(
                found.match_range.start,
            ) && plan.change_selection == select && plan.change_focus == focus && plan.buffer
                is None
            &&& (entry is FoldedDirs || entry matches PanelEntry::Fs(FsEntry::Directory(_)))
                ==> plan.target is Nowhere && !plan.change_focus && plan.buffer is None
        },
{
}

/// After the editor has scrolled, the line is selected. The cursor moves where the selection is
/// to change, and otherwise the view does. It leaves room for the header of a buffer that is
/// not folded.
pub proof fn law_how_scrolling_ends(
    panel: &mut OutlinePanel,
    entry: PanelEntry,
    plan: ScrollPlan,
    is_shown: bool,
    folded: VecSet<BufferId>,
    is_singleton: bool,
    r: Option<ScrollStep>,
)
    requires
        call_ensures(
            OutlinePanel::finish_scroll,
            (panel, entry, plan, is_shown, &folded, is_singleton),
            r,
        ),
    ensures
        r is Some == is_shown,
        !is_shown ==> *final(panel) == *old(panel),
        is_shown ==> final(panel).selected_entry.entry() == Some(entry),
        r matches Some(step) ==> {
            &&& step.focus_editor == plan.change_focus
            &&& step.moves is Cursor <==> plan.change_selection
            &&& step.moves matches ScrollMove::View(offset) ==> {
                &&& plan.buffer is None ==> offset.headers == 0 && offset.controls == 0
                &&& plan.buffer is Some && !folded@.contains(plan.buffer->0) ==> offset.controls
                    == -1 && offset.headers == (if is_singleton {
                    0int
                } else {
                    -1int
                })
                &&& plan.buffer is Some && folded@.contains(plan.buffer->0) ==> offset.headers
                    == 0 && 0 <= offset.controls <= 1
            }
        },
{
}

proof fn lemma_previous_buffer(entries: Seq<FsEntry>, i: int, j: int, a: BufferId, b: BufferId)
    requires
        0 <= i < j < entries.len(),
        is_of_buffer(entries[i], a),
        is_of_buffer(entries[j], b),
        forall|k: int| i < k < j ==> (#[trigger] entries[k]) is Directory,
        forall|k: int| j < k < entries.len() ==> !is_of_buffer(#[trigger] entries[k], b),
    ensures
        previous_buffer(entries, b, false) == Some(a),
    decreases entries.len(),
{
    let init = entries.drop_last();
    assert(init[i] == entries[i]);
    if j < entries.len() - 1 {
        assert(init[j] == entries[j]);
        assert(!is_of_buffer(entries[entries.len() - 1], b));
        assert forall|k: int| i < k < j implies (#[trigger] init[k]) is Directory by {
            assert(init[k] == entries[k]);
        }
        assert forall|k: int| j < k < init.len() implies !is_of_buffer(#[trigger] init[k], b) by {
            assert(init[k] == entries[k]);
        }
        lemma_previous_buffer(init, i, j, a, b);
    } else {
        assert forall|k: int| i < k < init.len() implies (#[trigger] init[k]) is Directory by {
            assert(init[k] == entries[k]);
        }
        lemma_seen_buffer(init, i, a, b);
    }
}

proof fn lemma_seen_buffer(entries: Seq<FsEntry>, i: int, a: BufferId, b: BufferId)
    requires
        0 <= i < entries.len(),
        is_of_buffer(entries[i], a),
        forall|k: int| i < k < entries.len() ==> (#[trigger] entries[k]) is Directory,
    ensures
        previous_buffer(entries, b, true) == Some(a),
    decreases entries.len(),
{
    if i < entries.len() - 1 {
        let init = entries.drop_last();
        assert(entries[entries.len() - 1] is Directory);
        assert(init[i] == entries[i]);
        assert forall|k: int| i < k < init.len() implies (#[trigger] init[k]) is Directory by {
            assert(init[k] == entries[k]);
        }
        lemma_seen_buffer(init, i, a, b);
    }
}

/// Before a buffer that is folded there is room for the controls of the buffer listed before
/// it, unless that one is folded too.
pub proof fn law_room_before_a_folded_buffer(
    panel: OutlinePanel,
    folded: VecSet<BufferId>,
    is_singleton: bool,
    i: int,
    j: int,
    a: BufferId,
    b: BufferId,
    r: ScrollOffset,
)
    requires
        call_ensures(OutlinePanel::scroll_offset, (&panel, &folded, Some(b), is_singleton), r),
        folded@.contains(b),
        0 <= i < j < panel.fs_entries@.len(),
        is_of_buffer(panel.fs_entries@[i], a),
        is_of_buffer(panel.fs_entries@[j], b),
        forall|k: int| i < k < j ==> (#[trigger] panel.fs_entries@[k]) is Directory,
        forall|k: int|
            j < k < panel.fs_entries@.len() ==> !is_of_buffer(#[trigger] panel.fs_entries@[k], b),
    ensures
        r.headers == 0,
        folded@.contains(a) ==> r.controls == 0,
        !folded@.contains(a) ==> r.controls == 1,
{
    lemma_previous_buffer(panel.fs_entries@, i, j, a, b);
}

proof fn lemma_first_guide(guides: Seq<IndentGuide>, place: (int, int), i: int)
    requires
        0 <= i < guides.len(),
        guide_at(guides[i], place),
        forall|k: int| 0 <= k < i ==> !guide_at(#[trigger] guides[k], place),
    ensures
        first_guide(guides, place) == Some(i),
    decreases guides.len(),
{
    let init = guides.drop_last();
    if i < guides.len() - 1 {
        assert(init[i] == guides[i]);
        assert forall|k: int| 0 <= k < i implies !guide_at(#[trigger] init[k], place) by {
            assert(init[k] == guides[k]);
        }
        lemma_first_guide(init, place, i);
    } else {
        assert forall|k: int| 0 <= k < init.len() implies !guide_at(#[trigger] init[k], place) by {
            assert(init[k] == guides[k]);
        }
        lemma_no_guide(init, place);
    }
}

proof fn lemma_no_guide(guides: Seq<IndentGuide>, place: (int, int))
    requires
        forall|k: int| 0 <= k < guides.len() ==> !guide_at(#[trigger] guides[k], place),
    ensures
        first_guide(guides, place) is None,
    decreases guides.len(),
{
    if guides.len() > 0 {
        assert(!guide_at(guides[guides.len() - 1], place));
        let init = guides.drop_last();
        assert forall|k: int| 0 <= k < init.len() implies !guide_at(#[trigger] init[k], place) by {
            assert(init[k] == guides[k]);
        }
        lemma_no_guide(init, place);
    }
}

/// The guide that is active is the one that leads down what the selected line holds, or else
/// the one that leads down to the line itself.
pub proof fn law_active_guide(
    panel: OutlinePanel,
    guides: Vec<IndentGuide>,
    r: Option<usize>,
    ix: usize,
    row: int,
    i: int,
)
    requires
        call_ensures(find_active_indent_guide_ix, (&panel, &guides), r),
        panel.selected_entry matches SelectedEntry::Valid(_, at) && at == ix,
        ix < panel.cached_entries@.len(),
        row == (if ix + 1 < panel.cached_entries@.len() && panel.cached_entries@[ix + 1].depth
            > panel.cached_entries@[ix as int].depth {
            ix + 1
        } else {
            ix as int
        }),
        panel.cached_entries@[row].depth > 0,
        0 <= i < guides@.len(),
        guides@[i].row <= row < guides@[i].row + guides@[i].length,
        guides@[i].column == panel.cached_entries@[row].depth - 1,
        forall|k: int|
            0 <= k < i ==> !((#[trigger] guides@[k]).row <= row && row < guides@[k].row
                + guides@[k].length && guides@[k].column == panel.cached_entries@[row].depth - 1),
    ensures
        r is Some && r->0 == i,
{
    let place = (row, panel.cached_entries@[row].depth - 1);
    lemma_first_guide(guides@, place, i);
}

proof fn lemma_worktree_at(worktrees: Seq<WorktreeInfo>, i: int)
    requires
        0 <= i < worktrees.len(),
        forall|j: int| 0 <= j < i ==> (#[trigger] worktrees[j]).id != worktrees[i].id,
    ensures
        worktree_at(worktrees, worktrees[i].id) == Some(worktrees[i]),
    decreases i,
{
    if i > 0 {
        let rest = worktrees.drop_first();
        assert(worktrees[0].id != worktrees[i].id);
        assert forall|j: int| 0 <= j < i - 1 implies (#[trigger] rest[j]).id != rest[i
            - 1].id by {
            assert(rest[j] == worktrees[j + 1]);
        }
        lemma_worktree_at(rest, i - 1);
    }
}

/// An entry goes by the last name of its path, but the root of a worktree goes by the name of
/// the worktree. Lines are counted from one in the label of an excerpt.
pub proof fn law_names_of_entries(
    env: PanelEnv,
    i: int,
    entry: GitEntry,
    name: String,
    root_name: String,
    range: ExcerptRange,
    label: Option<String>,
)
    requires
        0 <= i < env.worktrees@.len(),
        forall|j: int|
            0 <= j < i ==> (#[trigger] env.worktrees@[j]).id != env.worktrees@[i].id,
        call_ensures(entry_name, (&env, env.worktrees@[i].id, &entry), name),
        call_ensures(file_name, (&env.worktrees@[i].abs_path,), root_name),
        call_ensures(excerpt_label, (&range,), label),
    ensures
        entry.path@.len() == 0 || (env.worktrees@[i].root_entry matches Some(root) && root.id
            == entry.id) ==> name@ == root_name@,
        entry.path@.len() > 0 && !(env.worktrees@[i].root_entry matches Some(root) && root.id
            == entry.id) ==> name@ == entry.path@.last(),
        label is Some == range.rows is Some,
        label matches Some(text) ==> text@ == seq!['L', 'i', 'n', 'e', 's', ' '] + decimal(
            (range.rows->0.start + 1) as nat,
        ) + seq!['-', ' '] + decimal((range.rows->0.end + 1) as nat),
{
    lemma_worktree_at(env.worktrees@, i);
}

/// Directories in one line are named by the path through all of them.
pub proof fn law_names_of_folded_directories(
    env: PanelEnv,
    worktree_id: WorktreeId,
    entries: Vec<GitEntry>,
    more: Vec<GitEntry>,
    last: GitEntry,
    names: String,
    name: String,
    base: &str,
    part: &str,
    r: String,
    joined: String,
)
    requires
        more@ == entries@.push(last),
        call_ensures(dir_names_string, (&env, worktree_id, &entries), names),
        call_ensures(entry_name, (&env, worktree_id, &last), name),
        call_ensures(dir_names_string, (&env, worktree_id, &more), r),
        base@ == names@,
        part@ == name@,
        call_ensures(push_path, (base, part, env.os), joined),
    ensures
        r@ == joined@,
        entries@.len() == 0 ==> names@.len() == 0,
{
    assert(more@.drop_last() =~= entries@);
    assert(more@.last() == last);
}

/// What stands in the panel: its lines, or why it has none. A click opens what was clicked, and
/// a second one also goes there.
pub proof fn law_what_the_panel_holds(
    panel: OutlinePanel,
    has_query: bool,
    r: Contents,
    is_right: bool,
    is_first_mouse: bool,
    count: usize,
    focus: Option<bool>,
    target: Option<PanelEntry>,
)
    requires
        call_ensures(OutlinePanel::render_main_contents, (&panel, has_query), r),
        call_ensures(click_changes_focus, (is_right, is_first_mouse, count), focus),
        call_ensures(OutlinePanel::context_menu_target, (&panel,), target),
    ensures
        r is List <==> panel.cached_entries@.len() > 0,
        r is Updating <==> panel.cached_entries@.len() == 0 && (panel.updating_fs_entries
            || panel.updating_cached_entries),
        r is NoMatches ==> has_query,
        r is NoOutlines ==> !has_query,
        focus is None <==> is_right || is_first_mouse,
        focus matches Some(goes) ==> goes == (count > 1),
        panel.selected_entry.entry() is Some ==> target == panel.selected_entry.entry(),
        panel.selected_entry.entry() is None && panel.fs_entries@.len() > 0 ==> target == Some(
            PanelEntry::Fs(panel.fs_entries@[0]),
        ),
        panel.selected_entry.entry() is None && panel.fs_entries@.len() == 0 ==> target is None,
{
}

} // verus!
