//! The matches of a search that the panel shows.

use vstd::prelude::*;
use std::sync::Arc;
use crate::outline_panel::entries::{
    AnchorRange, CachedEntry, PanelEntry, SearchData, SearchEntry, SearchKind,
};
use crate::outline_panel::panel::{ItemsDisplayMode, OutlinePanel, SearchMatch, SearchState};
use crate::outline_panel::view::textless;
use crate::rope::position::Point;
use crate::shared::arc_clone;
use crate::text::{
    byte_len, chars_of, copy_text, is_whitespace, len_utf8, lemma_byte_len_concat,
    lemma_byte_len_push, str_eq, text_len, text_of, whitespace,
};

verus! {

/// How much of a line is shown on either side of a match.
pub const SEARCH_MATCH_CONTEXT_SIZE: u32 = 40;

/// What the searches of the project and of the editor found.
#[derive(Debug)]
pub struct FoundMatches {
    pub project: Vec<AnchorRange>,
    pub project_query: String,
    pub buffer: Vec<AnchorRange>,
    pub buffer_query: String,
}

/// The matches to show: those of the editor, or else those of the project.
pub open spec fn shown_kind(found: FoundMatches) -> SearchKind {
    if found.buffer@.len() == 0 {
        SearchKind::Project
    } else {
        SearchKind::Buffer
    }
}

/// The ranges to show.
pub open spec fn shown_ranges(found: FoundMatches) -> Seq<AnchorRange> {
    if found.buffer@.len() == 0 {
        found.project@
    } else {
        found.buffer@
    }
}

/// What was searched for.
pub open spec fn shown_query(found: FoundMatches) -> Seq<char> {
    if found.buffer@.len() == 0 {
        found.project_query@
    } else {
        found.buffer_query@
    }
}

/// The text around a match, if it is known from before.
pub open spec fn known_data(previous: Seq<SearchMatch>, range: AnchorRange) -> Option<Arc<SearchData>>
    decreases previous.len(),
{
    if previous.len() == 0 {
        None
    } else if previous.last().range == range {
        previous.last().render_data
    } else {
        known_data(previous.drop_last(), range)
    }
}

/// New matches with what is known of them from before.
pub open spec fn carried_over(previous: Seq<SearchMatch>, ranges: Seq<AnchorRange>) -> Seq<
    SearchMatch,
> {
    Seq::new(
        ranges.len(),
        |i: int| SearchMatch { range: ranges[i], render_data: known_data(previous, ranges[i]) },
    )
}

/// Whether what is shown of a search differs from what was found.
pub open spec fn search_changed(state: SearchState, found: FoundMatches) -> bool {
    let ranges = shown_ranges(found);
    ||| state.query@ != shown_query(found)
    ||| state.kind != shown_kind(found)
    ||| state.matches@.len() == 0
    ||| exists|i: int|
        0 <= i < state.matches@.len() && !(i < ranges.len() && (
        #[trigger] state.matches@[i]).range == ranges[i])
}

/// What is known of the matches before, where they are of the same kind.
pub open spec fn previous_matches(mode: ItemsDisplayMode, kind: SearchKind) -> Seq<SearchMatch> {
    match mode {
        ItemsDisplayMode::Search(state) => if state.kind == kind {
            state.matches@
        } else {
            Seq::empty()
        },
        ItemsDisplayMode::Outline => Seq::empty(),
    }
}

/// Whether the panel shows the matches that were found.
pub open spec fn shows_found(
    before: ItemsDisplayMode,
    after: ItemsDisplayMode,
    found: FoundMatches,
) -> bool {
    match after {
        ItemsDisplayMode::Search(state) => {
            &&& state.kind == shown_kind(found)
            &&& state.query@ == shown_query(found)
            &&& state.matches@ == carried_over(
                previous_matches(before, shown_kind(found)),
                shown_ranges(found),
            )
        },
        ItemsDisplayMode::Outline => false,
    }
}

fn find_data(previous: &Vec<SearchMatch>, range: AnchorRange) -> (r: Option<Arc<SearchData>>)
    ensures
        r == known_data(previous@, range),
{
    let mut i: usize = previous.len();
    assert(previous@.take(i as int) =~= previous@);
    while i > 0
        invariant
            i <= previous@.len(),
            known_data(previous@.take(i as int), range) == known_data(previous@, range),
        decreases i,
    {
        proof {
            let here = previous@.take(i as int);
            assert(here.drop_last() =~= previous@.take(i - 1));
            assert(here.last() == previous@[i - 1]);
        }
        if previous[i - 1].range == range {
            return match &previous[i - 1].render_data {
                Some(data) => Some(arc_clone(data)),
                None => None,
            };
        }
        i = i - 1;
    }
    None
}

impl SearchState {
    /// A search whose matches keep what is known of them from before.
    pub fn new(
        kind: SearchKind,
        query: String,
        previous_matches: &Vec<SearchMatch>,
        new_matches: &Vec<AnchorRange>,
    ) -> (state: SearchState)
        ensures
            state.kind == kind,
            state.query == query,
            state.matches@ == carried_over(previous_matches@, new_matches@),
    {
        let mut carried: Vec<SearchMatch> = Vec::new();
        let mut i: usize = 0;
        while i < new_matches.len()
            invariant
                i <= new_matches@.len(),
                carried@ == carried_over(previous_matches@, new_matches@).take(i as int),
            decreases new_matches.len() - i,
        {
            let range = new_matches[i];
            carried.push(
                SearchMatch { range, render_data: find_data(previous_matches, range) },
            );
            i = i + 1;
            assert(carried@ =~= carried_over(previous_matches@, new_matches@).take(i as int));
        }
        assert(carried@ =~= carried_over(previous_matches@, new_matches@));
        SearchState { kind, query, matches: carried }
    }

    fn differs(&self, kind: SearchKind, query: &str, ranges: &Vec<AnchorRange>) -> (r: bool)
        ensures
            r == (self.query@ != query@ || self.kind != kind || self.matches@.len() == 0
                || exists|i: int|
                0 <= i < self.matches@.len() && !(i < ranges@.len() && (
                #[trigger] self.matches@[i]).range == ranges@[i])),
    {
        if !str_eq(self.query.as_str(), query) || self.kind != kind || self.matches.len() == 0 {
            return true;
        }
        let mut i: usize = 0;
        while i < self.matches.len()
            invariant
                i <= self.matches@.len(),
                forall|j: int|
                    0 <= j < i ==> j < ranges@.len() && (#[trigger] self.matches@[j]).range
                        == ranges@[j],
            decreases self.matches.len() - i,
        {
            if i >= ranges.len() || self.matches[i].range != ranges[i] {
                assert(!(i < ranges@.len() && self.matches@[i as int].range == ranges@[i as int]));
                return true;
            }
            i = i + 1;
        }
        false
    }
}

impl OutlinePanel {
    /// Shows the matches that were found, or symbols where there are none. Tells
    /// whether the lines are to be made anew.
    pub fn update_search_matches(&mut self, found: &FoundMatches) -> (r: bool)
        ensures
            *final(self) == (OutlinePanel { mode: final(self).mode, ..*old(self) }),
            if !old(self).active {
                !r && final(self).mode == old(self).mode
            } else if found.buffer@.len() == 0 && found.project@.len() == 0 {
                r == (old(self).mode is Search) && final(self).mode is Outline
            } else {
                shows_found(old(self).mode, final(self).mode, *found) && r == match old(
                    self,
                ).mode {
                    ItemsDisplayMode::Search(state) => search_changed(state, *found),
                    ItemsDisplayMode::Outline => true,
                }
            },
    {
        if !self.active {
            return false;
        }
        if found.buffer.len() == 0 && found.project.len() == 0 {
            let searching: bool = match &self.mode {
                ItemsDisplayMode::Search(_) => true,
                ItemsDisplayMode::Outline => false,
            };
            if searching {
                self.mode = ItemsDisplayMode::Outline;
            }
            return searching;
        }
        let (kind, ranges, query): (SearchKind, &Vec<AnchorRange>, &String) =
            if found.buffer.len() == 0 {
            (SearchKind::Project, &found.project, &found.project_query)
        } else {
            (SearchKind::Buffer, &found.buffer, &found.buffer_query)
        };
        let mut mode = ItemsDisplayMode::Outline;
        std::mem::swap(&mut mode, &mut self.mode);
        let nothing: Vec<SearchMatch> = Vec::new();
        let (update, state) = match &mode {
            ItemsDisplayMode::Search(current) => {
                let update: bool = current.differs(kind, query.as_str(), ranges);
                let previous: &Vec<SearchMatch> = if current.kind == kind {
                    &current.matches
                } else {
                    &nothing
                };
                assert(previous@ =~= previous_matches(old(self).mode, kind));
                (update, SearchState::new(kind, copy_text(query.as_str()), previous, ranges))
            },
            ItemsDisplayMode::Outline => {
                assert(nothing@ =~= previous_matches(old(self).mode, kind));
                (true, SearchState::new(kind, copy_text(query.as_str()), &nothing, ranges))
            },
        };
        self.mode = ItemsDisplayMode::Search(state);
        update
    }

    /// Takes up what was found. Where that changes what is shown, the selection
    /// is to be found anew and the lines are to be made anew.
    pub fn update_non_fs_items(&mut self, found: &FoundMatches) -> (r: bool)
        ensures
            !old(self).active ==> !r && *final(self) == *old(self),
            *final(self) == (OutlinePanel {
                mode: final(self).mode,
                selected_entry: if r {
                    old(self).selected_entry.invalidated()
                } else {
                    old(self).selected_entry
                },
                ..*old(self)
            }),
            old(self).active && found.buffer@.len() == 0 && found.project@.len() == 0 ==> r == (
            old(self).mode is Search) && final(self).mode is Outline,
            old(self).active && !(found.buffer@.len() == 0 && found.project@.len() == 0)
                ==> shows_found(old(self).mode, final(self).mode, *found) && r == match old(
                self,
            ).mode {
                ItemsDisplayMode::Search(state) => search_changed(state, *found),
                ItemsDisplayMode::Outline => true,
            },
    {
        if !self.active {
            return false;
        }
        let update: bool = self.update_search_matches(found);
        if update {
            self.selected_entry.invalidate();
        }
        update
    }
}

/// Matches with the text around one of them, where it was missing.
pub open spec fn filled_matches(
    matches: Seq<SearchMatch>,
    range: AnchorRange,
    data: Arc<SearchData>,
) -> Seq<SearchMatch> {
    Seq::new(
        matches.len(),
        |i: int|
            if matches[i].range == range && matches[i].render_data is None {
                SearchMatch { range, render_data: Some(data) }
            } else {
                matches[i]
            },
    )
}

/// A line with the text around its match, where it was missing.
pub open spec fn filled_line(
    cached: CachedEntry,
    kind: SearchKind,
    range: AnchorRange,
    data: Arc<SearchData>,
) -> CachedEntry {
    match cached.entry {
        PanelEntry::Search(found) => if found.kind == kind && found.match_range == range
            && found.render_data is None {
            CachedEntry {
                entry: PanelEntry::Search(SearchEntry { render_data: Some(data), ..found }),
                ..cached
            }
        } else {
            cached
        },
        _ => cached,
    }
}

/// Lines with the text around a match, where it was missing.
pub open spec fn filled_lines(
    entries: Seq<CachedEntry>,
    kind: SearchKind,
    range: AnchorRange,
    data: Arc<SearchData>,
) -> Seq<CachedEntry> {
    Seq::new(entries.len(), |i: int| filled_line(entries[i], kind, range, data))
}

impl SearchState {
    fn fill(&mut self, range: AnchorRange, data: &Arc<SearchData>)
        ensures
            final(self).kind == old(self).kind,
            final(self).query == old(self).query,
            final(self).matches@ == filled_matches(old(self).matches@, range, *data),
    {
        let ghost before = self.matches@;
        let mut i: usize = 0;
        while i < self.matches.len()
            invariant
                i <= self.matches@.len(),
                self.kind == old(self).kind,
                self.query == old(self).query,
                self.matches@.len() == before.len(),
                forall|j: int|
                    0 <= j < i ==> #[trigger] self.matches@[j] == filled_matches(
                        before,
                        range,
                        *data,
                    )[j],
                forall|j: int| i <= j < before.len() ==> #[trigger] self.matches@[j] == before[j],
            decreases self.matches.len() - i,
        {
            if self.matches[i].range == range && self.matches[i].render_data.is_none() {
                self.matches.set(i, SearchMatch { range, render_data: Some(arc_clone(data)) });
            }
            i = i + 1;
        }
        assert(self.matches@ =~= filled_matches(before, range, *data));
    }
}

impl OutlinePanel {
    /// Takes the text around a match that was asked for. A match that has one
    /// keeps it.
    pub fn set_search_data(&mut self, range: AnchorRange, data: Arc<SearchData>)
        ensures
            match old(self).mode {
                ItemsDisplayMode::Outline => *final(self) == *old(self),
                ItemsDisplayMode::Search(before) => match final(self).mode {
                    ItemsDisplayMode::Search(after) => {
                        &&& after.kind == before.kind
                        &&& after.query == before.query
                        &&& after.matches@ == filled_matches(before.matches@, range, data)
                        &&& final(self).cached_entries@ == filled_lines(
                            old(self).cached_entries@,
                            before.kind,
                            range,
                            data,
                        )
                        &&& *final(self) == (OutlinePanel {
                            mode: final(self).mode,
                            cached_entries: final(self).cached_entries,
                            ..*old(self)
                        })
                    },
                    ItemsDisplayMode::Outline => false,
                },
            },
    {
        let mut mode = ItemsDisplayMode::Outline;
        std::mem::swap(&mut mode, &mut self.mode);
        let mut state: SearchState = match mode {
            ItemsDisplayMode::Search(state) => state,
            ItemsDisplayMode::Outline => {
                return;
            },
        };
        state.fill(range, &data);
        let kind = state.kind;
        self.mode = ItemsDisplayMode::Search(state);
        let ghost filled = *self;
        let ghost before = self.cached_entries@;
        let mut i: usize = 0;
        while i < self.cached_entries.len()
            invariant
                i <= self.cached_entries@.len(),
                *self == (OutlinePanel { cached_entries: self.cached_entries, ..filled }),
                self.cached_entries@.len() == before.len(),
                forall|j: int|
                    0 <= j < i ==> #[trigger] self.cached_entries@[j] == filled_lines(
                        before,
                        kind,
                        range,
                        data,
                    )[j],
                forall|j: int|
                    i <= j < before.len() ==> #[trigger] self.cached_entries@[j] == before[j],
            decreases self.cached_entries.len() - i,
        {
            let wanted: bool = match &self.cached_entries[i].entry {
                PanelEntry::Search(found) => found.kind == kind && found.match_range == range
                    && found.render_data.is_none(),
                _ => false,
            };
            if wanted {
                let mut cached = self.cached_entries.remove(i);
                cached.entry =
                PanelEntry::Search(
                    SearchEntry { match_range: range, kind, render_data: Some(arc_clone(&data)) },
                );
                self.cached_entries.insert(i, cached);
            }
            i = i + 1;
        }
        assert(self.cached_entries@ =~= filled_lines(before, kind, range, data));
    }
}

/// The part of the lines of a match that is shown with it.
pub fn context_borders(match_start: Point, match_end: Point) -> (r: (Point, Point))
    requires
        match_end.column + SEARCH_MATCH_CONTEXT_SIZE <= u32::MAX,
    ensures
        r.0.row == match_start.row,
        r.0.column == (if match_start.column < SEARCH_MATCH_CONTEXT_SIZE {
            0
        } else {
            match_start.column - SEARCH_MATCH_CONTEXT_SIZE
        }),
        r.1.row == match_end.row,
        r.1.column == match_end.column + SEARCH_MATCH_CONTEXT_SIZE,
{
    (
        Point {
            row: match_start.row,
            column: match_start.column.saturating_sub(SEARCH_MATCH_CONTEXT_SIZE),
        },
        Point { row: match_end.row, column: match_end.column + SEARCH_MATCH_CONTEXT_SIZE },
    )
}

/// The part that is shown with a match and one more place on either side.
pub fn extended_borders(left: Point, right: Point) -> (r: (Point, Point))
    requires
        right.column < u32::MAX,
    ensures
        r.0.row == left.row,
        r.0.column == (if left.column == 0 {
            0
        } else {
            left.column - 1
        }),
        r.1.row == right.row,
        r.1.column == right.column + 1,
{
    (
        Point { row: left.row, column: left.column.saturating_sub(1) },
        Point { row: right.row, column: right.column + 1 },
    )
}

/// How many characters at the start of a text are white space.
pub open spec fn leading_blanks(text: Seq<char>) -> nat
    decreases text.len(),
{
    if text.len() == 0 || !whitespace(text.first()) {
        0
    } else {
        1 + leading_blanks(text.drop_first())
    }
}

/// What a buffer says of the text around a match.
#[derive(Debug)]
pub struct MatchContext {
    pub text: String,
    /// Where the text starts and ends in the buffer.
    pub start: usize,
    pub end: usize,
    /// The match, counted from the start of the text, as the buffer clips it.
    pub match_start: usize,
    pub match_end: usize,
    /// There is more of the line to the left, and to the right.
    pub more_left: bool,
    pub more_right: bool,
    /// The last character that the buffer yields from one place further left.
    pub outer_left: Option<char>,
    /// The character one place further right.
    pub outer_right: Option<char>,
}

/// One number less another, but not less than nothing.
pub open spec fn less(a: usize, b: nat) -> nat {
    if a < b {
        0
    } else {
        (a - b) as nat
    }
}

/// Where a match is in the text around it, without the white space that the text starts
/// with.
pub open spec fn match_in_text(context: MatchContext) -> (nat, nat) {
    let offset = byte_len(context.text@.take(leading_blanks(context.text@) as int));
    (less(context.match_start, offset), less(context.match_end, offset))
}

/// The text around a match without the white space that it starts with. It is
/// marked as cut off on a side where there is more of the line, neither end of
/// the text being white space. The match is where the buffer clips it.
pub open spec fn is_shown_context(
    context: MatchContext,
    clipped_start: usize,
    clipped_end: usize,
    data: SearchData,
) -> bool {
    let blanks = leading_blanks(context.text@);
    let offset = byte_len(context.text@.take(blanks as int));
    &&& data.context_text@ == context.text@.skip(blanks as int)
    &&& data.context_start == context.start + offset
    &&& data.context_end == context.end
    &&& data.truncated_left == (blanks == 0 && context.more_left && context.outer_left is Some
        && !whitespace(context.outer_left->0))
    &&& data.truncated_right == ((context.text@.len() == 0 || !whitespace(context.text@.last()))
        && context.more_right && context.outer_right is Some && !whitespace(
        context.outer_right->0,
    ))
    &&& data.match_start == clipped_start
    &&& data.match_end == clipped_end
}

proof fn lemma_leading_blanks(text: Seq<char>, n: nat)
    requires
        n <= text.len(),
        forall|j: int| 0 <= j < n ==> whitespace(#[trigger] text[j]),
        n < text.len() ==> !whitespace(text[n as int]),
    ensures
        leading_blanks(text) == n,
    decreases text.len(),
{
    if n > 0 {
        let rest = text.drop_first();
        assert(whitespace(text[0]));
        assert forall|j: int| 0 <= j < n - 1 implies whitespace(#[trigger] rest[j]) by {
            assert(whitespace(text[j + 1]));
        }
        lemma_leading_blanks(rest, (n - 1) as nat);
    }
}

impl MatchContext {
    /// Where the match is in the text without the white space that it starts with: what
    /// the buffer has to clip, the start to the left and the end to the right.
    pub fn match_without_blanks(&self) -> (r: (usize, usize))
        ensures
            (r.0 as nat, r.1 as nat) == match_in_text(*self),
    {
        let (offset, _) = count_blanks(self.text.as_str());
        (self.match_start.saturating_sub(offset), self.match_end.saturating_sub(offset))
    }
}

impl SearchData {
    /// The text around a match without the white space that it starts with, and the match
    /// in it, as the buffer clips what `match_without_blanks` gives.
    pub fn new(context: &MatchContext, clipped_start: usize, clipped_end: usize) -> (data:
        SearchData)
        requires
            context.start + byte_len(context.text@) <= usize::MAX,
        ensures
            is_shown_context(*context, clipped_start, clipped_end, data),
    {
        let chars = chars_of(context.text.as_str());
        let n: usize = chars.len();
        let total: usize = text_len(context.text.as_str());
        let mut blanks: usize = 0;
        let mut offset: usize = 0;
        assert(chars@.take(0) =~= Seq::empty());
        assert(byte_len(chars@.take(0)) == 0) by {
            lemma_byte_len_concat(chars@.take(0), chars@.take(0));
            assert(chars@.take(0) + chars@.take(0) =~= chars@.take(0));
        }
        while blanks < n && is_whitespace(chars[blanks])
            invariant
                blanks <= n,
                n == chars@.len(),
                chars@ == context.text@,
                total == byte_len(context.text@),
                offset == byte_len(chars@.take(blanks as int)),
                offset <= total,
                forall|j: int| 0 <= j < blanks ==> whitespace(#[trigger] chars@[j]),
            decreases n - blanks,
        {
            proof {
                let next = chars@.take(blanks + 1);
                lemma_byte_len_push(chars@.take(blanks as int), chars@[blanks as int]);
                assert(next =~= chars@.take(blanks as int).push(chars@[blanks as int]));
                lemma_byte_len_concat(next, chars@.skip(blanks + 1));
                assert(next + chars@.skip(blanks + 1) =~= chars@);
            }
            offset = offset + len_utf8(chars[blanks]);
            blanks = blanks + 1;
        }
        proof {
            lemma_leading_blanks(chars@, blanks as nat);
        }
        let context_text = text_of(&chars, blanks, n);
        assert(context_text@ =~= context.text@.skip(blanks as int));
        let truncated_left: bool = blanks == 0 && context.more_left && match context.outer_left {
            Some(c) => !is_whitespace(c),
            None => false,
        };
        let ends_blank: bool = n > 0 && is_whitespace(chars[n - 1]);
        let truncated_right: bool = !ends_blank && context.more_right
            && match context.outer_right {
            Some(c) => !is_whitespace(c),
            None => false,
        };
        SearchData {
            context_start: context.start + offset,
            context_end: context.end,
            context_text,
            truncated_left,
            truncated_right,
            match_start: clipped_start,
            match_end: clipped_end,
        }
    }
}

/// A piece of text and how it is highlighted.
#[derive(Debug)]
pub struct HighlightChunk {
    pub text: String,
    pub style: Option<u64>,
}

/// A highlighted part of a text.
#[derive(Copy, Clone, Debug, PartialEq, Eq, Structural)]
pub struct Highlight {
    pub start: usize,
    pub end: usize,
    pub style: u64,
}

/// The highlights of pieces of a text, how much of it they cover, the bytes of
/// white space that it starts with, and whether anything else has come.
#[verifier::ext_equal]
pub struct Highlighted {
    pub ranges: Seq<Highlight>,
    pub covered: nat,
    pub blank_bytes: nat,
    pub text_seen: bool,
}

/// Adds a piece, as far as it belongs to a text of a length.
pub open spec fn with_chunk(state: Highlighted, chunk: HighlightChunk, length: nat) -> Highlighted {
    let size = byte_len(chunk.text@);
    let left = (length - state.covered) as nat;
    let used = if size > left {
        left
    } else {
        size
    };
    let blanks = leading_blanks(chunk.text@);
    Highlighted {
        ranges: match chunk.style {
            Some(style) => state.ranges.push(
                Highlight {
                    start: state.covered as usize,
                    end: (state.covered + used) as usize,
                    style,
                },
            ),
            None => state.ranges,
        },
        covered: state.covered + used,
        blank_bytes: if state.text_seen {
            state.blank_bytes
        } else {
            state.blank_bytes + byte_len(chunk.text@.take(blanks as int))
        },
        text_seen: state.text_seen || blanks < chunk.text@.len(),
    }
}

/// Adds pieces until a text of a length is covered.
pub open spec fn with_chunks(chunks: Seq<HighlightChunk>, length: nat) -> Highlighted
    decreases chunks.len(),
{
    if chunks.len() == 0 {
        Highlighted { ranges: Seq::empty(), covered: 0, blank_bytes: 0, text_seen: false }
    } else {
        let state = with_chunks(chunks.drop_last(), length);
        if chunks.len() > 1 && state.covered >= length {
            state
        } else {
            with_chunk(state, chunks.last(), length)
        }
    }
}

/// Highlights moved back by some bytes.
pub open spec fn moved_back(ranges: Seq<Highlight>, by: nat) -> Seq<Highlight> {
    Seq::new(
        ranges.len(),
        |i: int|
            Highlight {
                start: less(ranges[i].start, by) as usize,
                end: less(ranges[i].end, by) as usize,
                style: ranges[i].style,
            },
    )
}

fn count_blanks(text: &str) -> (r: (usize, bool))
    ensures
        r.0 == byte_len(text@.take(leading_blanks(text@) as int)),
        r.1 == (leading_blanks(text@) < text@.len()),
        r.0 <= byte_len(text@),
{
    let chars = chars_of(text);
    let total: usize = text_len(text);
    let mut blanks: usize = 0;
    let mut offset: usize = 0;
    assert(byte_len(chars@.take(0)) == 0) by {
        lemma_byte_len_concat(chars@.take(0), chars@.take(0));
        assert(chars@.take(0) + chars@.take(0) =~= chars@.take(0));
    }
    while blanks < chars.len() && is_whitespace(chars[blanks])
        invariant
            blanks <= chars@.len(),
            chars@ == text@,
            total == byte_len(text@),
            offset == byte_len(chars@.take(blanks as int)),
            offset <= total,
            forall|j: int| 0 <= j < blanks ==> whitespace(#[trigger] chars@[j]),
        decreases chars.len() - blanks,
    {
        proof {
            let next = chars@.take(blanks + 1);
            lemma_byte_len_push(chars@.take(blanks as int), chars@[blanks as int]);
            assert(next =~= chars@.take(blanks as int).push(chars@[blanks as int]));
            lemma_byte_len_concat(next, chars@.skip(blanks + 1));
            assert(next + chars@.skip(blanks + 1) =~= chars@);
        }
        offset = offset + len_utf8(chars[blanks]);
        blanks = blanks + 1;
    }
    proof {
        lemma_leading_blanks(chars@, blanks as nat);
    }
    (offset, blanks < chars.len())
}

/// All bytes of some pieces.
pub open spec fn all_bytes(chunks: Seq<HighlightChunk>) -> nat
    decreases chunks.len(),
{
    if chunks.len() == 0 {
        0
    } else {
        all_bytes(chunks.drop_last()) + byte_len(chunks.last().text@)
    }
}

proof fn lemma_all_bytes_take(chunks: Seq<HighlightChunk>, n: int)
    requires
        0 <= n <= chunks.len(),
    ensures
        all_bytes(chunks.take(n)) <= all_bytes(chunks),
    decreases chunks.len(),
{
    if n < chunks.len() {
        lemma_all_bytes_take(chunks.drop_last(), n);
        assert(chunks.drop_last().take(n) =~= chunks.take(n));
    } else {
        assert(chunks.take(n) =~= chunks);
    }
}

/// Once a text is covered, more pieces change nothing.
proof fn lemma_covered(chunks: Seq<HighlightChunk>, length: nat, n: int)
    requires
        0 < n <= chunks.len(),
        with_chunks(chunks.take(n), length).covered >= length,
    ensures
        with_chunks(chunks, length) == with_chunks(chunks.take(n), length),
    decreases chunks.len(),
{
    if n < chunks.len() {
        assert(chunks.drop_last().take(n) =~= chunks.take(n));
        lemma_covered(chunks.drop_last(), length, n);
    } else {
        assert(chunks.take(n) =~= chunks);
    }
}

/// The highlights of the text around a match, counted from where the text that is
/// shown starts.
pub fn match_highlights(chunks: &Vec<HighlightChunk>, length: usize) -> (r: Vec<Highlight>)
    requires
        all_bytes(chunks@) <= usize::MAX,
    ensures
        r@ == moved_back(
            with_chunks(chunks@, length as nat).ranges,
            with_chunks(chunks@, length as nat).blank_bytes,
        ),
{
    let mut ranges: Vec<Highlight> = Vec::new();
    let mut covered: usize = 0;
    let mut blank_bytes: usize = 0;
    let mut text_seen: bool = false;
    let mut i: usize = 0;
    let ghost all = chunks@;
    assert(all.take(0) =~= Seq::empty());
    assert(all.take(all.len() as int) =~= all);
    while i < chunks.len()
        invariant_except_break
            i > 0 ==> covered < length,
            all.take(all.len() as int) == all,
        invariant
            i <= all.len(),
            all == chunks@,
            all_bytes(all) <= usize::MAX,
            covered <= length,
            blank_bytes <= all_bytes(all.take(i as int)),
            (Highlighted {
                ranges: ranges@,
                covered: covered as nat,
                blank_bytes: blank_bytes as nat,
                text_seen,
            }) == with_chunks(all.take(i as int), length as nat),
        ensures
            (Highlighted {
                ranges: ranges@,
                covered: covered as nat,
                blank_bytes: blank_bytes as nat,
                text_seen,
            }) == with_chunks(all, length as nat),
        decreases chunks.len() - i,
    {
        let chunk = &chunks[i];
        proof {
            let next = all.take(i + 1);
            assert(next.drop_last() =~= all.take(i as int));
            assert(next.last() == all[i as int]);
            lemma_all_bytes_take(all, i + 1);
        }
        if !text_seen {
            let (bytes, more) = count_blanks(chunk.text.as_str());
            blank_bytes = blank_bytes + bytes;
            if more {
                text_seen = true;
            }
        }
        let size: usize = text_len(chunk.text.as_str());
        let left: usize = length - covered;
        let used: usize = if size > left {
            left
        } else {
            size
        };
        if let Some(style) = chunk.style {
            ranges.push(Highlight { start: covered, end: covered + used, style });
        }
        covered = covered + used;
        i = i + 1;
        if covered >= length {
            proof {
                lemma_covered(all, length as nat, i as int);
            }
            break;
        }
    }
    let mut r: Vec<Highlight> = Vec::new();
    let mut k: usize = 0;
    while k < ranges.len()
        invariant
            k <= ranges@.len(),
            r@ == moved_back(ranges@, blank_bytes as nat).take(k as int),
        decreases ranges.len() - k,
    {
        r.push(
            Highlight {
                start: ranges[k].start.saturating_sub(blank_bytes),
                end: ranges[k].end.saturating_sub(blank_bytes),
                style: ranges[k].style,
            },
        );
        k = k + 1;
        assert(r@ =~= moved_back(ranges@, blank_bytes as nat).take(k as int));
    }
    assert(r@ =~= moved_back(ranges@, blank_bytes as nat));
    r
}

/// A match whose text was asked for and has come is drawn: its text is not asked
/// for again.
pub proof fn law_taken_texts_are_not_missing(
    entries: Seq<CachedEntry>,
    kind: SearchKind,
    range: AnchorRange,
    data: Arc<SearchData>,
)
    requires
        forall|i: int|
            0 <= i < entries.len() ==> ((#[trigger] entries[i]).entry matches PanelEntry::Search(
                found,
            ) ==> found.kind == kind),
    ensures
        !textless(filled_lines(entries, kind, range, data)).contains(range),
    decreases entries.len(),
{
    let all = filled_lines(entries, kind, range, data);
    if entries.len() > 0 {
        let rest = entries.drop_last();
        assert(all.drop_last() =~= filled_lines(rest, kind, range, data));
        assert forall|i: int| 0 <= i < rest.len() implies ((
        #[trigger] rest[i]).entry matches PanelEntry::Search(found) ==> found.kind == kind) by {
            assert(rest[i] == entries[i]);
        }
        assert(entries[entries.len() - 1] == entries.last());
        law_taken_texts_are_not_missing(rest, kind, range, data);
        let before = textless(all.drop_last());
        if textless(all).contains(range) {
            let k: int = choose|k: int| 0 <= k < textless(all).len() && textless(all)[k] == range;
            if k < before.len() {
                assert(before[k] == range);
            }
        }
    }
}

/// A search that has not changed keeps all that is known of its matches.
pub proof fn law_unchanged_search_keeps_its_texts(
    state: SearchState,
    found: FoundMatches,
    i: int,
)
    requires
        !search_changed(state, found),
        state.matches@.len() == shown_ranges(found).len(),
        0 <= i < state.matches@.len(),
        forall|a: int, b: int|
            0 <= a < b < state.matches@.len() ==> (#[trigger] state.matches@[a]).range != (
            #[trigger] state.matches@[b]).range,
    ensures
        carried_over(state.matches@, shown_ranges(found))[i] == state.matches@[i],
{
    lemma_known_data(state.matches@, i);
    assert(state.matches@[i].range == shown_ranges(found)[i]);
}

proof fn lemma_known_data(previous: Seq<SearchMatch>, i: int)
    requires
        0 <= i < previous.len(),
        forall|a: int, b: int|
            0 <= a < b < previous.len() ==> (#[trigger] previous[a]).range != (
            #[trigger] previous[b]).range,
    ensures
        known_data(previous, previous[i].range) == previous[i].render_data,
    decreases previous.len(),
{
    if i < previous.len() - 1 {
        let rest = previous.drop_last();
        assert(previous[i].range != previous[previous.len() - 1].range);
        assert forall|a: int, b: int| 0 <= a < b < rest.len() implies (
        #[trigger] rest[a]).range != (#[trigger] rest[b]).range by {
            assert(rest[a] == previous[a] && rest[b] == previous[b]);
        }
        lemma_known_data(rest, i);
    }
}

} // verus!
