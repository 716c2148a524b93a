//! The line that stands for the place of the cursor.

use vstd::prelude::*;
use std::sync::Arc;
use crate::outline_panel::entries::{
    contains_id, AnchorRange, BufferId, CachedEntry, Excerpt, ExcerptId, FsEntry, OutlineEntry,
    OutlineEntryOutline, OutlineItem, PanelEntry,
};
use crate::outline_panel::panel::{ExcerptKey, ItemsDisplayMode, OutlinePanel};
use crate::shared::arc_clone;

verus! {

/// A place on the screen.
#[derive(Copy, Clone, Debug, PartialEq, Eq, Structural)]
pub struct DisplayPoint {
    pub row: u32,
    pub column: u32,
}

/// Whether a place comes before another.
pub open spec fn point_before(a: DisplayPoint, b: DisplayPoint) -> bool {
    a.row < b.row || (a.row == b.row && a.column < b.column)
}

impl DisplayPoint {
    pub fn is_before(&self, other: &DisplayPoint) -> (r: bool)
        ensures
            r == point_before(*self, *other),
    {
        self.row < other.row || (self.row == other.row && self.column < other.column)
    }
}

/// Where a symbol or a match stands on the screen.
#[derive(Copy, Clone, Debug, PartialEq, Eq, Structural)]
pub struct OutlineSpan {
    pub start: DisplayPoint,
    pub end: DisplayPoint,
}

/// How far a place is from an earlier one: the columns between them in one row, or
/// else the rows and the column in the last of them.
pub open spec fn place_after(later: DisplayPoint, earlier: DisplayPoint) -> (int, int) {
    if later.row == earlier.row {
        (0, later.column - earlier.column)
    } else {
        (later.row - earlier.row, later.column as int)
    }
}

/// How far two places are from each other.
pub open spec fn gap(a: DisplayPoint, b: DisplayPoint) -> (int, int) {
    if point_before(a, b) {
        place_after(b, a)
    } else {
        place_after(a, b)
    }
}

/// How far its start and its end are from the cursor, both together.
pub open spec fn distance(span: OutlineSpan, cursor: DisplayPoint) -> (int, int) {
    let from_start = gap(span.start, cursor);
    let from_end = gap(span.end, cursor);
    if from_end.0 == 0 {
        (from_start.0, from_start.1 + from_end.1)
    } else {
        (from_start.0 + from_end.0, from_end.1)
    }
}

/// Whether one distance is less than another.
pub open spec fn nearer(a: (int, int), b: (int, int)) -> bool {
    a.0 < b.0 || (a.0 == b.0 && a.1 < b.1)
}

impl DisplayPoint {
    fn gap(&self, other: &DisplayPoint) -> (r: (u64, u64))
        ensures
            (r.0 as int, r.1 as int) == gap(*self, *other),
            r.0 <= u32::MAX,
            r.1 <= u32::MAX,
    {
        let (later, earlier) = if self.is_before(other) {
            (other, self)
        } else {
            (self, other)
        };
        if later.row == earlier.row {
            (0, (later.column - earlier.column) as u64)
        } else {
            ((later.row - earlier.row) as u64, later.column as u64)
        }
    }
}

impl OutlineSpan {
    fn distance(&self, cursor: &DisplayPoint) -> (r: (u64, u64))
        ensures
            (r.0 as int, r.1 as int) == distance(*self, *cursor),
    {
        let from_start = self.start.gap(cursor);
        let from_end = self.end.gap(cursor);
        if from_end.0 == 0 {
            (from_start.0, from_start.1 + from_end.1)
        } else {
            (from_start.0 + from_end.0, from_end.1)
        }
    }

    /// Whether the span is nearer to the cursor than another.
    fn is_nearer(&self, other: &OutlineSpan, cursor: &DisplayPoint) -> (r: bool)
        ensures
            r == nearer(distance(*self, *cursor), distance(*other, *cursor)),
    {
        let a = self.distance(cursor);
        let b = other.distance(cursor);
        a.0 < b.0 || (a.0 == b.0 && a.1 < b.1)
    }
}

/// A symbol and where it stands.
#[derive(Debug)]
pub struct LocatedOutline {
    pub span: OutlineSpan,
    pub outline: Arc<OutlineItem>,
}

/// The symbols that stand somewhere.
pub open spec fn located(outlines: Seq<Arc<OutlineItem>>, spans: Seq<Option<OutlineSpan>>) -> Seq<
    LocatedOutline,
>
    decreases outlines.len(),
{
    if outlines.len() == 0 {
        Seq::empty()
    } else {
        let rest = located(outlines.drop_last(), spans);
        let i: int = outlines.len() - 1;
        if i < spans.len() && spans[i] is Some {
            rest.push(LocatedOutline { span: spans[i]->0, outline: outlines.last() })
        } else {
            rest
        }
    }
}

/// Whether the cursor is in a symbol or in one of its rows.
pub open spec fn at_cursor(span: OutlineSpan, cursor: DisplayPoint) -> bool {
    (!point_before(cursor, span.start) && !point_before(span.end, cursor)) || span.start.row
        <= cursor.row <= span.end.row
}

/// Whether a symbol contains another that comes after it: it is less deep, and
/// the other starts in it.
pub open spec fn encloses(outer: LocatedOutline, inner: LocatedOutline) -> bool {
    outer.outline.depth < inner.outline.depth && !point_before(inner.span.start, outer.span.start)
        && point_before(inner.span.start, outer.span.end)
}

/// The open symbols up to the innermost one that contains another.
pub open spec fn enclosing(items: Seq<LocatedOutline>, open: Seq<usize>, i: int) -> Seq<usize>
    decreases open.len(),
{
    if open.len() == 0 || encloses(items[open.last() as int], items[i]) {
        open
    } else {
        enclosing(items, open.drop_last(), i)
    }
}

/// The symbols that are open behind the first `n`, one in the other.
pub open spec fn open_after(items: Seq<LocatedOutline>, n: nat) -> Seq<usize>
    decreases n,
{
    if n == 0 {
        Seq::empty()
    } else {
        enclosing(items, open_after(items, (n - 1) as nat), n - 1).push((n - 1) as usize)
    }
}

/// The symbol that a symbol lies directly in.
pub open spec fn outline_parent(items: Seq<LocatedOutline>, i: int) -> Option<int> {
    let open = enclosing(items, open_after(items, i as nat), i);
    if open.len() > 0 {
        Some(open.last() as int)
    } else {
        None
    }
}

/// Whether one of the first `n` symbols lies directly in a symbol and does not
/// start behind the cursor.
pub open spec fn child_started(
    items: Seq<LocatedOutline>,
    cursor: DisplayPoint,
    parent: int,
    n: int,
) -> bool {
    exists|c: int|
        0 <= c < n && #[trigger] outline_parent(items, c) == Some(parent) && !point_before(
            cursor,
            items[c].span.start,
        )
}

/// Whether a symbol can stand for the cursor: the cursor is in it, and no symbol
/// directly in it has started.
pub open spec fn candidate(items: Seq<LocatedOutline>, cursor: DisplayPoint, i: int) -> bool {
    at_cursor(items[i].span, cursor) && !child_started(items, cursor, i, items.len() as int)
}

/// Whether a symbol stands for the cursor rather than another: it is deeper, or
/// as deep and nearer.
pub open spec fn better(a: LocatedOutline, b: LocatedOutline, cursor: DisplayPoint) -> bool {
    a.outline.depth > b.outline.depth || (a.outline.depth == b.outline.depth && nearer(
        distance(a.span, cursor),
        distance(b.span, cursor),
    ))
}

/// The first of the best of the first `n` symbols.
pub open spec fn best_outline(items: Seq<LocatedOutline>, cursor: DisplayPoint, n: nat) -> Option<
    int,
>
    decreases n,
{
    if n == 0 {
        None
    } else {
        let i: int = n - 1;
        let best = best_outline(items, cursor, (n - 1) as nat);
        if candidate(items, cursor, i) && (best is None || better(items[i], items[best->0], cursor)) {
            Some(i)
        } else {
            best
        }
    }
}

/// Whether a line stands for an excerpt or for the file that shows it.
pub open spec fn holds_excerpt(
    entry: PanelEntry,
    buffer_id: BufferId,
    excerpt_id: ExcerptId,
) -> bool {
    match entry {
        PanelEntry::Outline(OutlineEntry::Excerpt(excerpt)) => excerpt.buffer_id == buffer_id
            && excerpt.id == excerpt_id,
        PanelEntry::Fs(file) => file.buffer() == Some(buffer_id) && file.shown_excerpts().contains(
            excerpt_id,
        ),
        _ => false,
    }
}

/// The last line that stands for an excerpt or for the file that shows it.
pub open spec fn container(
    entries: Seq<CachedEntry>,
    buffer_id: BufferId,
    excerpt_id: ExcerptId,
) -> Option<PanelEntry>
    decreases entries.len(),
{
    if entries.len() == 0 {
        None
    } else if holds_excerpt(entries.last().entry, buffer_id, excerpt_id) {
        Some(entries.last().entry)
    } else {
        container(entries.drop_last(), buffer_id, excerpt_id)
    }
}

/// The symbols of an excerpt.
pub open spec fn outlines_of(panel: OutlinePanel, key: ExcerptKey) -> Seq<Arc<OutlineItem>> {
    if panel.excerpts.buffers@.contains(key.buffer_id) && panel.excerpts.items@.contains_key(key) {
        panel.excerpts.items@[key].outlines.known()
    } else {
        Seq::empty()
    }
}

/// The line for the cursor in an excerpt: the symbol that it is in, or else the
/// excerpt or the file.
pub open spec fn outline_place(
    panel: OutlinePanel,
    buffer_id: BufferId,
    excerpt_id: ExcerptId,
    spans: Seq<Option<OutlineSpan>>,
    cursor: DisplayPoint,
) -> Option<PanelEntry> {
    let items = located(outlines_of(panel, ExcerptKey { buffer_id, excerpt_id }), spans);
    match best_outline(items, cursor, items.len()) {
        Some(i) => Some(
            PanelEntry::Outline(
                OutlineEntry::Outline(
                    OutlineEntryOutline { buffer_id, excerpt_id, outline: items[i].outline },
                ),
            ),
        ),
        None => container(panel.cached_entries@, buffer_id, excerpt_id),
    }
}

/// The last of the spans that are nearest to the cursor.
pub open spec fn nearest(spans: Seq<OutlineSpan>, cursor: DisplayPoint) -> Option<int>
    decreases spans.len(),
{
    if spans.len() == 0 {
        None
    } else {
        match nearest(spans.drop_last(), cursor) {
            Some(i) => if nearer(distance(spans[i], cursor), distance(spans.last(), cursor)) {
                Some(i)
            } else {
                Some(spans.len() - 1)
            },
            None => Some(spans.len() - 1),
        }
    }
}

/// The first line for a match of a search.
pub open spec fn match_line(entries: Seq<CachedEntry>, range: AnchorRange) -> Option<PanelEntry>
    decreases entries.len(),
{
    if entries.len() == 0 {
        None
    } else {
        match entries.first().entry {
            PanelEntry::Search(found) => if found.match_range == range {
                Some(entries.first().entry)
            } else {
                match_line(entries.drop_first(), range)
            },
            _ => match_line(entries.drop_first(), range),
        }
    }
}

/// The first entry for a buffer.
pub open spec fn file_entry(entries: Seq<FsEntry>, buffer_id: BufferId) -> Option<FsEntry>
    decreases entries.len(),
{
    if entries.len() == 0 {
        None
    } else if entries.first().buffer() == Some(buffer_id) {
        Some(entries.first())
    } else {
        file_entry(entries.drop_first(), buffer_id)
    }
}

/// Where the cursor is.
#[derive(Debug)]
pub struct CursorPlace {
    pub buffer_id: BufferId,
    pub excerpt_id: ExcerptId,
    /// The editor shows the buffer folded.
    pub is_folded: bool,
    pub cursor: DisplayPoint,
    /// Where the symbols of the excerpt stand, as far as they do.
    pub spans: Vec<Option<OutlineSpan>>,
    /// Where the matches of the search stand.
    pub match_spans: Vec<OutlineSpan>,
}

/// The line for the place of the cursor.
pub open spec fn place_line(panel: OutlinePanel, place: CursorPlace) -> Option<PanelEntry> {
    if place.is_folded {
        match file_entry(panel.fs_entries@, place.buffer_id) {
            Some(entry) => Some(PanelEntry::Fs(entry)),
            None => None,
        }
    } else {
        match panel.mode {
            ItemsDisplayMode::Search(search) => match nearest(
                place.match_spans@,
                place.cursor,
            ) {
                Some(i) => if i < search.matches@.len() {
                    match_line(panel.cached_entries@, search.matches@[i].range)
                } else {
                    None
                },
                None => None,
            },
            ItemsDisplayMode::Outline => outline_place(
                panel,
                place.buffer_id,
                place.excerpt_id,
                place.spans@,
                place.cursor,
            ),
        }
    }
}

fn locate(outlines: &Vec<Arc<OutlineItem>>, spans: &Vec<Option<OutlineSpan>>) -> (r: Vec<
    LocatedOutline,
>)
    ensures
        r@ == located(outlines@, spans@),
{
    let mut r: Vec<LocatedOutline> = Vec::new();
    let mut i: usize = 0;
    assert(outlines@.take(0) =~= Seq::empty());
    while i < outlines.len()
        invariant
            i <= outlines@.len(),
            r@ == located(outlines@.take(i as int), spans@),
        decreases outlines.len() - i,
    {
        proof {
            let next = outlines@.take(i + 1);
            assert(next.drop_last() =~= outlines@.take(i as int));
            assert(next.last() == outlines@[i as int]);
        }
        if i < spans.len() {
            if let Some(span) = spans[i] {
                r.push(LocatedOutline { span, outline: arc_clone(&outlines[i]) });
            }
        }
        i = i + 1;
    }
    assert(outlines@.take(i as int) =~= outlines@);
    r
}

/// Which symbols have one directly in them that does not start behind the
/// cursor.
fn started_children(items: &Vec<LocatedOutline>, cursor: DisplayPoint) -> (started: Vec<bool>)
    ensures
        started@.len() == items@.len(),
        forall|p: int|
            0 <= p < items@.len() ==> #[trigger] started@[p] == child_started(
                items@,
                cursor,
                p,
                items@.len() as int,
            ),
{
    let n: usize = items.len();
    let mut started: Vec<bool> = Vec::new();
    let mut k: usize = 0;
    while k < n
        invariant
            k <= n,
            started@.len() == k,
            forall|p: int| 0 <= p < k ==> #[trigger] started@[p] == false,
        decreases n - k,
    {
        started.push(false);
        k = k + 1;
    }
    let mut open: Vec<usize> = Vec::new();
    let mut i: usize = 0;
    assert(open@ =~= open_after(items@, 0));
    while i < n
        invariant
            i <= n,
            n == items@.len(),
            started@.len() == n,
            open@ == open_after(items@, i as nat),
            forall|k: int| 0 <= k < open@.len() ==> #[trigger] open@[k] < i,
            forall|p: int|
                0 <= p < n ==> #[trigger] started@[p] == child_started(
                    items@,
                    cursor,
                    p,
                    i as int,
                ),
        decreases n - i,
    {
        let item = &items[i];
        let ghost opened = open@;
        while open.len() > 0
            invariant
                i < n,
                n == items@.len(),
                *item == items@[i as int],
                enclosing(items@, open@, i as int) == enclosing(items@, opened, i as int),
                forall|k: int| 0 <= k < open@.len() ==> #[trigger] open@[k] < i,
            ensures
                open@ == enclosing(items@, opened, i as int),
                forall|k: int| 0 <= k < open@.len() ==> #[trigger] open@[k] < i,
            decreases open.len(),
        {
            let m: usize = open.len();
            let top: usize = open[m - 1];
            let outer = &items[top];
            let inside: bool = outer.outline.depth < item.outline.depth
                && !item.span.start.is_before(&outer.span.start) && item.span.start.is_before(
                &outer.span.end,
            );
            if inside {
                break;
            }
            let ghost before = open@;
            let _ = open.pop();
            assert(open@ =~= before.drop_last());
        }
        let ghost was = started@;
        let m: usize = open.len();
        if m > 0 && !cursor.is_before(&item.span.start) {
            let parent: usize = open[m - 1];
            started.set(parent, true);
        }
        proof {
            assert(open_after(items@, i as nat) == opened);
            assert forall|p: int| 0 <= p < n implies #[trigger] started@[p] == child_started(
                items@,
                cursor,
                p,
                i + 1,
            ) by {
                if child_started(items@, cursor, p, i as int) {
                    let c: int = choose|c: int|
                        0 <= c < i && #[trigger] outline_parent(items@, c) == Some(p)
                            && !point_before(cursor, items@[c].span.start);
                    assert(0 <= c < i + 1 && outline_parent(items@, c) == Some(p));
                }
                if child_started(items@, cursor, p, i + 1) && !child_started(
                    items@,
                    cursor,
                    p,
                    i as int,
                ) {
                    assert(outline_parent(items@, i as int) == Some(p));
                }
                if m > 0 && p == open@.last() && !point_before(cursor, item.span.start) {
                    assert(outline_parent(items@, i as int) == Some(p));
                }
            }
        }
        open.push(i);
        i = i + 1;
    }
    started
}

fn find_best(items: &Vec<LocatedOutline>, cursor: DisplayPoint) -> (r: Option<usize>)
    ensures
        match r {
            Some(i) => best_outline(items@, cursor, items@.len()) == Some(i as int) && i
                < items@.len(),
            None => best_outline(items@, cursor, items@.len()) is None,
        },
{
    let started = started_children(items, cursor);
    let mut best: Option<usize> = None;
    let mut i: usize = 0;
    while i < items.len()
        invariant
            i <= items@.len(),
            started@.len() == items@.len(),
            forall|p: int|
                0 <= p < items@.len() ==> #[trigger] started@[p] == child_started(
                    items@,
                    cursor,
                    p,
                    items@.len() as int,
                ),
            match best {
                Some(b) => best_outline(items@, cursor, i as nat) == Some(b as int) && b < i,
                None => best_outline(items@, cursor, i as nat) is None,
            },
        decreases items.len() - i,
    {
        let item = &items[i];
        let here: bool = (!cursor.is_before(&item.span.start) && !item.span.end.is_before(&cursor))
            || (item.span.start.row <= cursor.row && cursor.row <= item.span.end.row);
        if here && !started[i] {
            let wins: bool = match best {
                None => true,
                Some(b) => item.outline.depth > items[b].outline.depth || (item.outline.depth
                    == items[b].outline.depth && item.span.is_nearer(&items[b].span, &cursor)),
            };
            if wins {
                best = Some(i);
            }
        }
        i = i + 1;
    }
    best
}

impl OutlinePanel {
    fn find_container(&self, buffer_id: BufferId, excerpt_id: ExcerptId) -> (r: Option<PanelEntry>)
        ensures
            r == container(self.cached_entries@, buffer_id, excerpt_id),
    {
        let entries = &self.cached_entries;
        let mut i: usize = entries.len();
        assert(entries@.take(i as int) =~= entries@);
        while i > 0
            invariant
                i <= entries@.len(),
                entries@ == self.cached_entries@,
                container(entries@.take(i as int), buffer_id, excerpt_id) == container(
                    entries@,
                    buffer_id,
                    excerpt_id,
                ),
            decreases i,
        {
            proof {
                let here = entries@.take(i as int);
                assert(here.drop_last() =~= entries@.take(i - 1));
                assert(here.last() == entries@[i - 1]);
            }
            let entry = &entries[i - 1].entry;
            let holds: bool = match entry {
                PanelEntry::Outline(OutlineEntry::Excerpt(excerpt)) => excerpt.buffer_id
                    == buffer_id && excerpt.id == excerpt_id,
                PanelEntry::Fs(FsEntry::ExternalFile(file)) => file.buffer_id == buffer_id
                    && contains_id(&file.excerpts, excerpt_id),
                PanelEntry::Fs(FsEntry::File(file)) => file.buffer_id == buffer_id && contains_id(
                    &file.excerpts,
                    excerpt_id,
                ),
                _ => false,
            };
            if holds {
                return Some(entry.clone());
            }
            i = i - 1;
        }
        None
    }

    /// The line for the cursor in an excerpt: the symbol that it is in, or else
    /// the excerpt or the file.
    pub fn outline_location(
        &self,
        buffer_id: BufferId,
        excerpt_id: ExcerptId,
        spans: &Vec<Option<OutlineSpan>>,
        cursor: DisplayPoint,
    ) -> (r: Option<PanelEntry>)
        ensures
            r == outline_place(*self, buffer_id, excerpt_id, spans@, cursor),
    {
        let key = ExcerptKey { buffer_id, excerpt_id };
        let items: Vec<LocatedOutline> = if self.excerpts.buffers.contains(&buffer_id) {
            match self.excerpts.items.get(&key) {
                Some(excerpt) => match &excerpt.outlines {
                    crate::outline_panel::entries::ExcerptOutlines::Outlines(outlines) => locate(
                        &**outlines,
                        spans,
                    ),
                    crate::outline_panel::entries::ExcerptOutlines::Invalidated(
                        outlines,
                    ) => locate(&**outlines, spans),
                    crate::outline_panel::entries::ExcerptOutlines::NotFetched => Vec::new(),
                },
                None => Vec::new(),
            }
        } else {
            Vec::new()
        };
        assert(items@ =~= located(outlines_of(*self, key), spans@));
        match find_best(&items, cursor) {
            Some(i) => Some(
                PanelEntry::Outline(
                    OutlineEntry::Outline(
                        OutlineEntryOutline {
                            buffer_id,
                            excerpt_id,
                            outline: arc_clone(&items[i].outline),
                        },
                    ),
                ),
            ),
            None => self.find_container(buffer_id, excerpt_id),
        }
    }

    /// The line for the place of the cursor.
    pub fn location_for_editor_selection(&self, place: &Option<CursorPlace>) -> (r: Option<
        PanelEntry,
    >)
        ensures
            r == match *place {
                Some(place) => place_line(*self, place),
                None => None,
            },
    {
        let place = match place {
            Some(place) => place,
            None => {
                return None;
            },
        };
        if place.is_folded {
            return match self.find_file_entry(place.buffer_id) {
                Some(entry) => Some(PanelEntry::Fs(entry)),
                None => None,
            };
        }
        match &self.mode {
            ItemsDisplayMode::Search(search) => match find_nearest(
                &place.match_spans,
                place.cursor,
            ) {
                Some(i) => if i < search.matches.len() {
                    self.find_match_line(search.matches[i].range)
                } else {
                    None
                },
                None => None,
            },
            ItemsDisplayMode::Outline => self.outline_location(
                place.buffer_id,
                place.excerpt_id,
                &place.spans,
                place.cursor,
            ),
        }
    }

    pub fn find_file_entry(&self, buffer_id: BufferId) -> (r: Option<FsEntry>)
        ensures
            r == file_entry(self.fs_entries@, buffer_id),
    {
        let mut i: usize = 0;
        let ghost all = self.fs_entries@;
        assert(all.skip(0) =~= all);
        while i < self.fs_entries.len()
            invariant
                i <= all.len(),
                all == self.fs_entries@,
                file_entry(all.skip(i as int), buffer_id) == file_entry(all, buffer_id),
            decreases self.fs_entries.len() - i,
        {
            proof {
                let here = all.skip(i as int);
                assert(here.drop_first() =~= all.skip(i + 1));
                assert(here.first() == all[i as int]);
            }
            if let Some(id) = self.fs_entries[i].buffer_id() {
                if id == buffer_id {
                    return Some(self.fs_entries[i].clone());
                }
            }
            i = i + 1;
        }
        None
    }

    fn find_match_line(&self, range: AnchorRange) -> (r: Option<PanelEntry>)
        ensures
            r == match_line(self.cached_entries@, range),
    {
        let mut i: usize = 0;
        let ghost all = self.cached_entries@;
        assert(all.skip(0) =~= all);
        while i < self.cached_entries.len()
            invariant
                i <= all.len(),
                all == self.cached_entries@,
                match_line(all.skip(i as int), range) == match_line(all, range),
            decreases self.cached_entries.len() - i,
        {
            proof {
                let here = all.skip(i as int);
                assert(here.drop_first() =~= all.skip(i + 1));
                assert(here.first() == all[i as int]);
            }
            let entry = &self.cached_entries[i].entry;
            if let PanelEntry::Search(found) = entry {
                if found.match_range == range {
                    return Some(entry.clone());
                }
            }
            i = i + 1;
        }
        None
    }
}

fn find_nearest(spans: &Vec<OutlineSpan>, cursor: DisplayPoint) -> (r: Option<usize>)
    ensures
        match r {
            Some(i) => nearest(spans@, cursor) == Some(i as int) && i < spans@.len(),
            None => nearest(spans@, cursor) is None,
        },
{
    let mut best: Option<usize> = None;
    let mut i: usize = 0;
    assert(spans@.take(0) =~= Seq::empty());
    while i < spans.len()
        invariant
            i <= spans@.len(),
            match best {
                Some(b) => nearest(spans@.take(i as int), cursor) == Some(b as int) && b < i,
                None => nearest(spans@.take(i as int), cursor) is None,
            },
        decreases spans.len() - i,
    {
        proof {
            let next = spans@.take(i + 1);
            assert(next.drop_last() =~= spans@.take(i as int));
            assert(next.last() == spans@[i as int]);
        }
        best = match best {
            Some(b) => if spans[b].is_nearer(&spans[i], &cursor) {
                Some(b)
            } else {
                Some(i)
            },
            None => Some(i),
        };
        i = i + 1;
    }
    assert(spans@.take(i as int) =~= spans@);
    best
}

/// No symbol that the cursor is in, with none in it that has started, is deeper
/// than the one chosen, or as deep and nearer.
pub proof fn law_best_outline(
    items: Seq<LocatedOutline>,
    cursor: DisplayPoint,
    n: nat,
    k: int,
)
    requires
        n <= items.len(),
        0 <= k < n,
        candidate(items, cursor, k),
    ensures
        best_outline(items, cursor, n) is Some,
        ({
            let best: int = best_outline(items, cursor, n)->0;
            0 <= best < n && candidate(items, cursor, best) && !better(items[k], items[best], cursor)
        }),
    decreases n,
{
    lemma_best_is_candidate(items, cursor, n);
    let i: int = n - 1;
    if k < i {
        law_best_outline(items, cursor, (n - 1) as nat, k);
    } else {
        lemma_best_is_candidate(items, cursor, (n - 1) as nat);
    }
}

proof fn lemma_best_is_candidate(items: Seq<LocatedOutline>, cursor: DisplayPoint, n: nat)
    requires
        n <= items.len(),
    ensures
        match best_outline(items, cursor, n) {
            Some(best) => 0 <= best < n && candidate(items, cursor, best),
            None => true,
        },
    decreases n,
{
    if n > 0 {
        lemma_best_is_candidate(items, cursor, (n - 1) as nat);
    }
}

} // verus!
