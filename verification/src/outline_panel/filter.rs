//! The lines that a query leaves.

use vstd::prelude::*;
use crate::numbers::{following, number_after};
use crate::outline_panel::cached::GenerationState;
use crate::outline_panel::entries::{CachedEntry, SelectedEntry, StringMatch};
use crate::outline_panel::labels::{line_of, Line};
use crate::outline_panel::panel::{OutlinePanel, PendingWork};

verus! {

/// What was found in a line.
pub open spec fn found_of(found: Option<StringMatch>) -> Option<(usize, Seq<usize>)> {
    match found {
        Some(found) => Some((found.candidate_id, found.positions@)),
        None => None,
    }
}

/// What was last found in the line with an index.
pub open spec fn match_at(hits: Seq<StringMatch>, id: int) -> Option<(usize, Seq<usize>)>
    decreases hits.len(),
{
    if hits.len() == 0 {
        None
    } else if hits.last().candidate_id == id {
        found_of(Some(hits.last()))
    } else {
        match_at(hits.drop_last(), id)
    }
}

/// Lines with their indentation and what was found in them.
pub open spec fn shown_lines(entries: Seq<CachedEntry>) -> Seq<
    (usize, Line, Option<(usize, Seq<usize>)>),
> {
    Seq::new(
        entries.len(),
        |i: int| (entries[i].depth, line_of(entries[i].entry), found_of(entries[i].string_match)),
    )
}

/// The lines in which something was found, with what it was.
pub open spec fn matched(lines: Seq<(usize, Line)>, hits: Seq<StringMatch>) -> Seq<
    (usize, Line, Option<(usize, Seq<usize>)>),
>
    decreases lines.len(),
{
    if lines.len() == 0 {
        Seq::empty()
    } else {
        let before = matched(lines.drop_last(), hits);
        let found = match_at(hits, lines.len() - 1);
        if found is Some {
            before.push((lines.last().0, lines.last().1, found))
        } else {
            before
        }
    }
}

/// Lines in which nothing has been looked for.
pub open spec fn unmatched(lines: Seq<(usize, Line)>) -> Seq<
    (usize, Line, Option<(usize, Seq<usize>)>),
> {
    Seq::new(lines.len(), |i: int| (lines[i].0, lines[i].1, None))
}

impl StringMatch {
    pub fn copy(&self) -> (r: StringMatch)
        ensures
            found_of(Some(r)) == found_of(Some(*self)),
    {
        let mut positions: Vec<usize> = Vec::new();
        let mut i: usize = 0;
        while i < self.positions.len()
            invariant
                i <= self.positions@.len(),
                positions@ == self.positions@.take(i as int),
            decreases self.positions.len() - i,
        {
            positions.push(self.positions[i]);
            i = i + 1;
            assert(positions@ =~= self.positions@.take(i as int));
        }
        assert(positions@ =~= self.positions@);
        StringMatch { candidate_id: self.candidate_id, positions }
    }
}

fn find_match(hits: &Vec<StringMatch>, id: usize) -> (r: Option<StringMatch>)
    ensures
        found_of(r) == match_at(hits@, id as int),
{
    let mut i: usize = hits.len();
    assert(hits@.take(i as int) =~= hits@);
    while i > 0
        invariant
            i <= hits@.len(),
            match_at(hits@.take(i as int), id as int) == match_at(hits@, id as int),
        decreases i,
    {
        proof {
            let here = hits@.take(i as int);
            assert(here.drop_last() =~= hits@.take(i - 1));
            assert(here.last() == hits@[i - 1]);
        }
        if hits[i - 1].candidate_id == id {
            return Some(hits[i - 1].copy());
        }
        i = i - 1;
    }
    None
}

/// The lines to show, and the index of the widest one. Without a query all lines
/// are shown. With one, those stay in which it was found. The widest line is
/// that of all lines, counted before any of them is left out.
pub fn filter_entries(state: GenerationState, hits: Option<Vec<StringMatch>>) -> (r: (
    Vec<CachedEntry>,
    Option<usize>,
))
    requires
        state.no_matches(),
    ensures
        shown_lines(r.0@) == match hits {
            None => unmatched(state@.lines),
            Some(hits) => matched(state@.lines, hits@),
        },
        r.1 == match state@.widest {
            Some((_, ix)) => Some(ix),
            None => None::<usize>,
        },
{
    let widest: Option<usize> = match state.max_width_estimate_and_index {
        Some((_, ix)) => Some(ix),
        None => None,
    };
    match hits {
        None => {
            assert(shown_lines(state.entries@) =~= unmatched(state@.lines));
            (state.entries, widest)
        },
        Some(hits) => {
            let mut kept: Vec<CachedEntry> = Vec::new();
            let mut id: usize = 0;
            let ghost lines = state@.lines;
            assert(lines.take(0) =~= Seq::empty());
            assert(shown_lines(kept@) =~= Seq::empty());
            while id < state.entries.len()
                invariant
                    id <= state.entries@.len(),
                    lines == state@.lines,
                    shown_lines(kept@) == matched(lines.take(id as int), hits@),
                decreases state.entries.len() - id,
            {
                let ghost before = kept@;
                proof {
                    let next = lines.take(id + 1);
                    assert(next.drop_last() =~= lines.take(id as int));
                    assert(next.last() == lines[id as int]);
                }
                let entry = &state.entries[id];
                let found = find_match(&hits, id);
                if found.is_some() {
                    kept.push(
                        CachedEntry {
                            depth: entry.depth,
                            string_match: found,
                            entry: entry.entry.clone(),
                        },
                    );
                    assert(shown_lines(kept@) =~= shown_lines(before).push(
                        (
                            lines[id as int].0,
                            lines[id as int].1,
                            match_at(hits@, id as int),
                        ),
                    ));
                }
                id = id + 1;
            }
            assert(lines.take(id as int) =~= lines);
            (kept, widest)
        },
    }
}

impl OutlinePanel {
    /// Whether the lines are to be made anew, and the number that they then bear: only
    /// for a panel that is open. Lines that were being made are given up.
    pub fn update_cached_entries(&mut self) -> (r: Option<u64>)
        ensures
            match r {
                Some(number) => {
                    &&& old(self).active
                    &&& number == old(self).pending.next
                    &&& *final(self) == (OutlinePanel {
                        updating_cached_entries: true,
                        pending: PendingWork {
                            cached_entries: Some(number),
                            next: number_after(number),
                            ..old(self).pending
                        },
                        ..*old(self)
                    })
                },
                None => !old(self).active && *final(self) == *old(self),
            },
    {
        if !self.active {
            return None;
        }
        let number: u64 = self.pending.next;
        self.updating_cached_entries = true;
        self.pending.cached_entries = Some(number);
        self.pending.next = following(number);
        Some(number)
    }

    /// Takes new lines, unless they were given up. Tells whether a line is to be selected
    /// for the place of the cursor: where none is selected, or the selection is out of
    /// date.
    pub fn finish_cached_entries_update(
        &mut self,
        number: u64,
        entries: Vec<CachedEntry>,
        max_width_item_index: Option<usize>,
    ) -> (r: bool)
        ensures
            if old(self).pending.cached_entries == Some(number) {
                &&& *final(self) == (OutlinePanel {
                    cached_entries: entries,
                    max_width_item_index,
                    updating_cached_entries: false,
                    pending: PendingWork { cached_entries: None, ..old(self).pending },
                    ..*old(self)
                })
                &&& r == !(old(self).selected_entry is Valid)
            } else {
                *final(self) == *old(self) && !r
            },
    {
        let awaited: bool = match self.pending.cached_entries {
            Some(last) => last == number,
            None => false,
        };
        if !awaited {
            return false;
        }
        self.pending.cached_entries = None;
        self.cached_entries = entries;
        self.max_width_item_index = max_width_item_index;
        self.updating_cached_entries = false;
        match self.selected_entry {
            SelectedEntry::Valid(..) => false,
            _ => true,
        }
    }
}

/// With a query, no more lines are shown than without.
pub proof fn law_query_only_removes(lines: Seq<(usize, Line)>, hits: Seq<StringMatch>)
    ensures
        matched(lines, hits).len() <= lines.len(),
        forall|k: int|
            0 <= k < matched(lines, hits).len() ==> exists|i: int|
                0 <= i < lines.len() && (#[trigger] lines[i]).0 == (#[trigger] matched(
                    lines,
                    hits,
                )[k]).0 && lines[i].1 == matched(lines, hits)[k].1 && match_at(hits, i)
                    == matched(lines, hits)[k].2,
    decreases lines.len(),
{
    if lines.len() > 0 {
        let rest = lines.drop_last();
        law_query_only_removes(rest, hits);
        let all = matched(lines, hits);
        assert forall|k: int| 0 <= k < all.len() implies exists|i: int|
            0 <= i < lines.len() && (#[trigger] lines[i]).0 == (#[trigger] all[k]).0 && lines[i].1
                == all[k].1 && match_at(hits, i) == all[k].2 by {
            if k < matched(rest, hits).len() {
                assert(all[k] == matched(rest, hits)[k]);
                let i: int = choose|i: int|
                    0 <= i < rest.len() && (#[trigger] rest[i]).0 == matched(rest, hits)[k].0
                        && rest[i].1 == matched(rest, hits)[k].1 && match_at(hits, i)
                        == matched(rest, hits)[k].2;
                assert(lines[i] == rest[i]);
            } else {
                assert(lines[lines.len() - 1] == lines.last());
            }
        }
    }
}

} // verus!
