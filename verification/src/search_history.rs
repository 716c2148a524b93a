//! Queries that were searched for, and a way back to them.

use vstd::prelude::*;
use std::collections::VecDeque;
use crate::text::{chars_of, copy_text, find_text, occurrence, str_eq};

verus! {

/// What to do with a new query.
#[derive(Copy, Clone, Debug, PartialEq, Eq, Structural)]
pub enum QueryInsertionBehavior {
    /// Always insert the query to the search history.
    AlwaysInsert,
    /// Replace the previous query in the search history, if the new query contains the
    /// previous query.
    ReplacePreviousIfContains,
}

impl Default for QueryInsertionBehavior {
    fn default() -> (r: QueryInsertionBehavior)
        ensures
            r == QueryInsertionBehavior::AlwaysInsert,
    {
        QueryInsertionBehavior::AlwaysInsert
    }
}

/// Which query of a history is selected, by its place.
///
/// Where a history is full a new query takes the place of an old one: the cursor can
/// then point to the wrong query.
#[derive(Debug, PartialEq, Eq, Hash, Structural)]
pub struct SearchHistoryCursor {
    selection: Option<usize>,
}

impl Clone for SearchHistoryCursor {
    fn clone(&self) -> (r: SearchHistoryCursor)
        ensures
            r@ == self@,
    {
        SearchHistoryCursor { selection: self.selection }
    }
}

impl Default for SearchHistoryCursor {
    fn default() -> (r: SearchHistoryCursor)
        ensures
            r@ is None,
    {
        SearchHistoryCursor { selection: None }
    }
}

impl View for SearchHistoryCursor {
    type V = Option<int>;

    closed spec fn view(&self) -> Option<int> {
        match self.selection {
            Some(i) => Some(i as int),
            None => None,
        }
    }
}

impl SearchHistoryCursor {
    /// Selects nothing.
    pub fn reset(&mut self)
        ensures
            final(self)@ is None,
    {
        self.selection = None;
    }
}

/// Queries, the oldest first.
#[derive(Debug)]
pub struct SearchHistory {
    history: VecDeque<String>,
    max_history_len: Option<usize>,
    insertion_behavior: QueryInsertionBehavior,
}

/// What a history is.
#[verifier::ext_equal]
pub struct HistoryModel {
    pub queries: Seq<Seq<char>>,
    pub max_history_len: Option<usize>,
    pub insertion_behavior: QueryInsertionBehavior,
}

spec fn query_texts(history: Seq<String>) -> Seq<Seq<char>> {
    Seq::new(history.len(), |i: int| history[i]@)
}

impl View for SearchHistory {
    type V = HistoryModel;

    closed spec fn view(&self) -> HistoryModel {
        HistoryModel {
            queries: query_texts(self.history@),
            max_history_len: self.max_history_len,
            insertion_behavior: self.insertion_behavior,
        }
    }
}

/// Whether a query is the selected one.
pub open spec fn is_selected(history: HistoryModel, selection: Option<int>, query: Seq<char>) -> bool {
    selection is Some && 0 <= selection->0 < history.queries.len()
        && history.queries[selection->0] == query
}

/// Whether a query is not added, since it is the selected one and queries are not always
/// inserted.
pub open spec fn stays(history: HistoryModel, selection: Option<int>, query: Seq<char>) -> bool {
    history.insertion_behavior == QueryInsertionBehavior::ReplacePreviousIfContains
        && is_selected(history, selection, query)
}

/// Whether a query takes the place of the one before.
pub open spec fn replaces_previous(history: HistoryModel, query: Seq<char>) -> bool {
    history.insertion_behavior == QueryInsertionBehavior::ReplacePreviousIfContains
        && history.queries.len() > 0 && occurrence(query, history.queries.last()) is Some
}

/// Whether no query can be added without one being forgotten.
pub open spec fn is_full(history: HistoryModel) -> bool {
    history.max_history_len is Some && history.queries.len() >= history.max_history_len->0
}

/// The queries after one was added.
pub open spec fn queries_after(
    history: HistoryModel,
    selection: Option<int>,
    query: Seq<char>,
) -> Seq<Seq<char>> {
    if stays(history, selection, query) {
        history.queries
    } else if replaces_previous(history, query) {
        history.queries.drop_last().push(query)
    } else if is_full(history) && history.queries.len() > 0 {
        history.queries.drop_first().push(query)
    } else {
        history.queries.push(query)
    }
}

/// What is selected after a query was added: the query.
pub open spec fn selection_after(
    history: HistoryModel,
    selection: Option<int>,
    query: Seq<char>,
) -> Option<int> {
    if stays(history, selection, query) {
        selection
    } else {
        Some(queries_after(history, selection, query).len() - 1)
    }
}

/// The selection one step on, if there is one.
pub open spec fn next_selection(history: HistoryModel, selection: Option<int>) -> Option<int> {
    if history.queries.len() == 0 || selection is None || selection->0 == history.queries.len()
        - 1 {
        None
    } else {
        Some(selection->0 + 1)
    }
}

/// The selection one step back, if there is one. The way back starts at the newest
/// query.
pub open spec fn previous_selection(history: HistoryModel, selection: Option<int>) -> Option<int> {
    if history.queries.len() == 0 || selection == Some(0int) {
        None
    } else if selection is None {
        Some(history.queries.len() - 1)
    } else {
        Some(selection->0 - 1)
    }
}

impl Clone for SearchHistory {
    fn clone(&self) -> (r: SearchHistory)
        ensures
            r@ == self@,
    {
        let mut history: VecDeque<String> = VecDeque::new();
        let mut i: usize = 0;
        while i < self.history.len()
            invariant
                i <= self.history@.len(),
                query_texts(history@) == query_texts(self.history@).take(i as int),
            decreases self.history.len() - i,
        {
            let ghost before = history@;
            history.push_back(copy_text(self.history[i].as_str()));
            i = i + 1;
            assert(query_texts(history@) =~= query_texts(before).push(self.history@[i - 1]@));
            assert(query_texts(history@) =~= query_texts(self.history@).take(i as int));
        }
        assert(query_texts(self.history@).take(i as int) =~= query_texts(self.history@));
        SearchHistory {
            history,
            max_history_len: self.max_history_len,
            insertion_behavior: self.insertion_behavior,
        }
    }
}

impl SearchHistory {
    pub fn new(
        max_history_len: Option<usize>,
        insertion_behavior: QueryInsertionBehavior,
    ) -> (r: SearchHistory)
        ensures
            r@ == (HistoryModel { queries: Seq::empty(), max_history_len, insertion_behavior }),
    {
        let r = SearchHistory { max_history_len, insertion_behavior, history: VecDeque::new() };
        assert(r@.queries =~= Seq::empty());
        r
    }

    /// Adds a query and selects it.
    pub fn add(&mut self, cursor: &mut SearchHistoryCursor, search_string: String)
        ensures
            final(self)@ == (HistoryModel {
                queries: queries_after(old(self)@, old(cursor)@, search_string@),
                ..old(self)@
            }),
            final(cursor)@ == selection_after(old(self)@, old(cursor)@, search_string@),
    {
        let ghost before = self@;
        let ghost query = search_string@;
        let replaces = self.insertion_behavior == QueryInsertionBehavior::ReplacePreviousIfContains;
        if let Some(selected) = cursor.selection {
            if replaces && selected < self.history.len() && str_eq(
                self.history[selected].as_str(),
                search_string.as_str(),
            ) {
                return ;
            }
        }
        let len: usize = self.history.len();
        if replaces && len > 0 {
            let chars = chars_of(search_string.as_str());
            if find_text(&chars, self.history[len - 1].as_str()).is_some() {
                let _ = self.history.pop_back();
                self.history.push_back(search_string);
                assert(self@.queries =~= before.queries.drop_last().push(query));
                cursor.selection = Some(len - 1);
                return ;
            }
        }
        if let Some(max_history_len) = self.max_history_len {
            if len >= max_history_len {
                let _ = self.history.pop_front();
            }
        }
        self.history.push_back(search_string);
        assert(self@.queries =~= queries_after(before, old(cursor)@, query));
        cursor.selection = Some(self.history.len() - 1);
    }

    /// Selects the query after the selected one. What is selected must be there.
    pub fn next(&self, cursor: &mut SearchHistoryCursor) -> (r: Option<&str>)
        requires
            self@.queries.len() > 0 ==> (old(cursor)@ matches Some(i) ==> i
                < self@.queries.len()),
        ensures
            match next_selection(self@, old(cursor)@) {
                Some(i) => r is Some && r->0@ == self@.queries[i] && final(cursor)@ == Some(i),
                None => r is None && final(cursor)@ == old(cursor)@,
            },
    {
        let history_size: usize = self.history.len();
        if history_size == 0 {
            return None;
        }
        let selected: usize = match cursor.selection {
            Some(selected) => selected,
            None => {
                return None;
            },
        };
        if selected == history_size - 1 {
            return None;
        }
        let next_index: usize = selected + 1;
        cursor.selection = Some(next_index);
        Some(self.history[next_index].as_str())
    }

    /// The selected query, if it is there.
    pub fn current(&self, cursor: &SearchHistoryCursor) -> (r: Option<&str>)
        ensures
            match cursor@ {
                Some(i) => if i < self@.queries.len() {
                    r is Some && r->0@ == self@.queries[i]
                } else {
                    r is None
                },
                None => r is None,
            },
    {
        match cursor.selection {
            Some(selected) => if selected < self.history.len() {
                Some(self.history[selected].as_str())
            } else {
                None
            },
            None => None,
        }
    }

    /// Selects the query before the selected one. What is selected must be there, or come
    /// right after what is.
    pub fn previous(&self, cursor: &mut SearchHistoryCursor) -> (r: Option<&str>)
        requires
            self@.queries.len() > 0 ==> (old(cursor)@ matches Some(i) ==> i
                <= self@.queries.len()),
        ensures
            match previous_selection(self@, old(cursor)@) {
                Some(i) => r is Some && r->0@ == self@.queries[i] && final(cursor)@ == Some(i),
                None => r is None && final(cursor)@ == old(cursor)@,
            },
    {
        let history_size: usize = self.history.len();
        if history_size == 0 {
            return None;
        }
        let prev_index: usize = match cursor.selection {
            Some(selected) => {
                if selected == 0 {
                    return None;
                }
                selected - 1
            },
            None => history_size - 1,
        };
        cursor.selection = Some(prev_index);
        Some(self.history[prev_index].as_str())
    }
}

/// A query that was added is the selected one.
pub proof fn law_added_query_is_selected(
    history: HistoryModel,
    selection: Option<int>,
    query: Seq<char>,
)
    ensures
        ({
            let after = HistoryModel {
                queries: queries_after(history, selection, query),
                ..history
            };
            is_selected(after, selection_after(history, selection, query), query)
        }),
{
}

/// Where queries are always inserted, each one is, also if it is the selected one.
pub proof fn law_always_inserted(history: HistoryModel, selection: Option<int>, query: Seq<char>)
    requires
        history.insertion_behavior == QueryInsertionBehavior::AlwaysInsert,
    ensures
        queries_after(history, selection, query).last() == query,
        !is_full(history) ==> queries_after(history, selection, query) == history.queries.push(
            query,
        ),
{
}

/// A history never holds more queries than it may, but for the newest one. At most one
/// query leaves it: the oldest one, or the newest one where the new query takes its
/// place. All others stay, in the order that they had.
pub proof fn law_history_is_bounded(
    history: HistoryModel,
    selection: Option<int>,
    query: Seq<char>,
    max_history_len: usize,
)
    requires
        history.max_history_len == Some(max_history_len),
        history.queries.len() <= max_history_len || history.queries.len() <= 1,
    ensures
        ({
            let after = queries_after(history, selection, query);
            let before = history.queries;
            &&& after.len() <= max_history_len || after.len() <= 1
            &&& after == before || after == before.push(query) || after
                == before.drop_first().push(query) || (history.insertion_behavior
                == QueryInsertionBehavior::ReplacePreviousIfContains && after
                == before.drop_last().push(query))
        }),
{
}

/// A step back and a step on lead to where they started.
pub proof fn law_back_and_forth(history: HistoryModel, i: int)
    requires
        0 < i < history.queries.len(),
    ensures
        next_selection(history, previous_selection(history, Some(i))) == Some(i),
{
}

/// A step on and a step back lead to where they started.
pub proof fn law_forth_and_back(history: HistoryModel, i: int)
    requires
        0 <= i < history.queries.len() - 1,
    ensures
        previous_selection(history, next_selection(history, Some(i))) == Some(i),
{
}

/// What is selected stays in the history as long as nothing is added, whatever steps are
/// made.
pub proof fn law_steps_stay_in_the_history(history: HistoryModel, selection: Option<int>)
    requires
        selection matches Some(i) ==> 0 <= i < history.queries.len(),
    ensures
        next_selection(history, selection) matches Some(i) ==> 0 <= i < history.queries.len(),
        previous_selection(history, selection) matches Some(i) ==> 0 <= i < history.queries.len(),
{
}

/// Whether a text holds another one somewhere.
pub open spec fn holds(text: Seq<char>, part: Seq<char>) -> bool {
    exists|k: int|
        0 <= k && k + part.len() <= text.len() && #[trigger] text.subrange(k, k + part.len())
            == part
}

proof fn lemma_occurrence(text: Seq<char>, part: Seq<char>)
    ensures
        occurrence(text, part) is Some <==> holds(text, part),
    decreases text.len(),
{
    if crate::text::starts_with(text, part) {
        assert(text.subrange(0, 0 + part.len() as int) =~= text.take(part.len() as int));
    } else if text.len() == 0 {
        if holds(text, part) {
            let k: int = choose|k: int|
                0 <= k && k + part.len() <= text.len() && #[trigger] text.subrange(
                    k,
                    k + part.len(),
                ) == part;
            assert(text.take(part.len() as int) =~= text.subrange(k, k + part.len()));
        }
    } else {
        let rest = text.drop_first();
        lemma_occurrence(rest, part);
        if holds(rest, part) {
            let k: int = choose|k: int|
                0 <= k && k + part.len() <= rest.len() && #[trigger] rest.subrange(
                    k,
                    k + part.len(),
                ) == part;
            assert(text.subrange(k + 1, k + 1 + part.len()) =~= rest.subrange(
                k,
                k + part.len(),
            ));
        }
        if holds(text, part) {
            let k: int = choose|k: int|
                0 <= k && k + part.len() <= text.len() && #[trigger] text.subrange(
                    k,
                    k + part.len(),
                ) == part;
            if k == 0 {
                assert(text.take(part.len() as int) =~= text.subrange(0, part.len() as int));
            } else {
                assert(rest.subrange(k - 1, k - 1 + part.len()) =~= text.subrange(
                    k,
                    k + part.len(),
                ));
            }
        }
    }
}

/// What a search adds to a history: the query comes last and is selected. It takes the place
/// of the one before only where that is wanted and it holds the one before, and a full
/// history loses its oldest query.
pub proof fn law_search_is_remembered(
    history: &mut SearchHistory,
    cursor: &mut SearchHistoryCursor,
    query: String,
    r: (),
)
    requires
        call_ensures(SearchHistory::add, (history, cursor, query), r),
    ensures
        ({
            let before = old(history)@.queries;
            let after = final(history)@.queries;
            let replaces = old(history)@.insertion_behavior
                == QueryInsertionBehavior::ReplacePreviousIfContains;
            let selected = old(cursor)@ is Some && 0 <= old(cursor)@->0 < before.len()
                && before[old(cursor)@->0] == query@;
            let full = old(history)@.max_history_len is Some && before.len()
                >= old(history)@.max_history_len->0;
            let grows = before.len() > 0 && holds(query@, before.last());
            &&& final(cursor)@ is Some && 0 <= final(cursor)@->0 < after.len()
                && after[final(cursor)@->0] == query@
            &&& replaces && selected ==> after == before && final(cursor)@ == old(cursor)@
            &&& replaces && !selected && grows ==> after == before.drop_last().push(query@)
            &&& (!replaces || (!selected && !grows)) && (!full || before.len() == 0) ==> after
                == before.push(query@)
            &&& (!replaces || (!selected && !grows)) && full && before.len() > 0 ==> after
                == before.drop_first().push(query@)
            &&& !(replaces && selected) ==> final(cursor)@->0 == after.len() - 1
            &&& final(history)@.max_history_len == old(history)@.max_history_len
            &&& final(history)@.insertion_behavior == old(history)@.insertion_behavior
        }),
{
    if old(history)@.queries.len() > 0 {
        lemma_occurrence(query@, old(history)@.queries.last());
    }
}

/// A step back leads to the query before the selected one, and from nowhere to the newest
/// one. A step on leads to the query after it. At the ends, and in an empty history, a step
/// leads nowhere.
pub proof fn law_steps_through_the_history(
    history: SearchHistory,
    back: &mut SearchHistoryCursor,
    on: &mut SearchHistoryCursor,
    earlier: Option<&str>,
    later: Option<&str>,
)
    requires
        call_ensures(SearchHistory::previous, (&history, back), earlier),
        call_ensures(SearchHistory::next, (&history, on), later),
        old(back)@ matches Some(i) ==> 0 <= i < history@.queries.len(),
        old(on)@ matches Some(i) ==> 0 <= i < history@.queries.len(),
    ensures
        ({
            let queries = history@.queries;
            &&& queries.len() == 0 ==> earlier is None && later is None
            &&& old(back)@ is None && queries.len() > 0 ==> earlier is Some && earlier->0@
                == queries.last() && final(back)@ == Some(queries.len() - 1)
            &&& old(back)@ matches Some(i) ==> if i == 0 {
                earlier is None && final(back)@ == old(back)@
            } else {
                earlier is Some && earlier->0@ == queries[i - 1] && final(back)@ == Some(i - 1)
            }
            &&& old(on)@ is None ==> later is None && final(on)@ is None
            &&& old(on)@ matches Some(i) ==> if i == queries.len() - 1 {
                later is None && final(on)@ == old(on)@
            } else {
                later is Some && later->0@ == queries[i + 1] && final(on)@ == Some(i + 1)
            }
        }),
{
}

} // verus!
