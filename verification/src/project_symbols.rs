//! A search for symbols in a project.

use vstd::prelude::*;
use crate::text::{
    copy_text, lemma_text_before_total, lemma_text_before_transitive, str_before, text_before,
};

verus! {

/// How many matches are shown.
pub const MAX_MATCHES: usize = 100;

/// A symbol.
#[derive(Debug)]
pub struct Symbol {
    pub label: String,
    /// The part of the label that is searched.
    pub filter_text: String,
    /// Where that part starts.
    pub filter_start: usize,
    pub worktree_id: u64,
    pub path: String,
}

/// A symbol that is searched, by its place.
#[derive(Debug)]
pub struct Candidate {
    pub id: usize,
    pub text: String,
}

/// A match. A higher rank is a better match.
#[derive(Debug)]
pub struct StringMatch {
    pub candidate_id: usize,
    pub rank: u64,
    pub positions: Vec<usize>,
}

/// A search for symbols.
#[derive(Debug)]
pub struct ProjectSymbolsDelegate {
    pub selected_match_index: usize,
    pub symbols: Vec<Symbol>,
    pub visible_match_candidates: Vec<Candidate>,
    pub external_match_candidates: Vec<Candidate>,
    pub show_worktree_root_name: bool,
    pub matches: Vec<StringMatch>,
}

/// Whether a match is shown before another: it is better, or as good and its text comes
/// first.
pub open spec fn shown_before(symbols: Seq<Symbol>, a: StringMatch, b: StringMatch) -> bool {
    a.rank > b.rank || (a.rank == b.rank && text_before(
        symbols[a.candidate_id as int].filter_text@,
        symbols[b.candidate_id as int].filter_text@,
    ))
}

/// Whether matches are in the order in which they are shown.
pub open spec fn in_shown_order(symbols: Seq<Symbol>, hits: Seq<StringMatch>) -> bool {
    forall|i: int, j: int|
        0 <= i < j < hits.len() ==> !shown_before(symbols, #[trigger] hits[j], #[trigger] hits[i])
}

/// Whether some matches are other ones in the order in which they are shown.
pub open spec fn is_ordered_version(
    symbols: Seq<Symbol>,
    ordered: Seq<StringMatch>,
    hits: Seq<StringMatch>,
) -> bool {
    in_shown_order(symbols, ordered) && ordered.to_multiset() == hits.to_multiset()
}

/// Whether the matches are of symbols that are there.
pub open spec fn are_of(symbols: Seq<Symbol>, hits: Seq<StringMatch>) -> bool {
    forall|i: int| 0 <= i < hits.len() ==> (#[trigger] hits[i]).candidate_id < symbols.len()
}

/// Places, each moved on.
pub open spec fn moved(positions: Seq<usize>, by: usize) -> Seq<usize> {
    Seq::new(positions.len(), |i: int| (positions[i] + by) as usize)
}

/// Whether the places of a match can be counted in the label.
pub open spec fn can_be_moved(symbols: Seq<Symbol>, hit: StringMatch) -> bool {
    forall|i: int|
        0 <= i < hit.positions@.len() ==> #[trigger] hit.positions@[i]
            + symbols[hit.candidate_id as int].filter_start <= usize::MAX
}

/// Whether a match is another one with its places counted in the label.
pub open spec fn is_moved(symbols: Seq<Symbol>, hit: StringMatch, from: StringMatch) -> bool {
    hit.candidate_id == from.candidate_id && hit.rank == from.rank && hit.positions@ == moved(
        from.positions@,
        symbols[from.candidate_id as int].filter_start,
    )
}

proof fn lemma_shown_before_order(
    symbols: Seq<Symbol>,
    a: StringMatch,
    b: StringMatch,
    c: StringMatch,
)
    ensures
        shown_before(symbols, a, b) ==> !shown_before(symbols, b, a),
        !shown_before(symbols, b, a) && !shown_before(symbols, c, b) ==> !shown_before(
            symbols,
            c,
            a,
        ),
{
    let x = symbols[a.candidate_id as int].filter_text@;
    let y = symbols[b.candidate_id as int].filter_text@;
    let z = symbols[c.candidate_id as int].filter_text@;
    lemma_text_before_total(x, y);
    lemma_text_before_total(y, z);
    lemma_text_before_total(x, z);
    if text_before(z, x) && !text_before(y, x) && !text_before(z, y) {
        if x == y {
        } else if y == z {
        } else {
            lemma_text_before_transitive(x, y, z);
        }
    }
}

impl ProjectSymbolsDelegate {
    pub fn new() -> (r: ProjectSymbolsDelegate)
        ensures
            r.selected_match_index == 0,
            r.symbols@.len() == 0,
            r.visible_match_candidates@.len() == 0,
            r.external_match_candidates@.len() == 0,
            r.matches@.len() == 0,
            !r.show_worktree_root_name,
    {
        ProjectSymbolsDelegate {
            selected_match_index: 0,
            symbols: Vec::new(),
            visible_match_candidates: Vec::new(),
            external_match_candidates: Vec::new(),
            matches: Vec::new(),
            show_worktree_root_name: false,
        }
    }

    fn is_before(&self, a: &StringMatch, b: &StringMatch) -> (r: bool)
        requires
            a.candidate_id < self.symbols@.len(),
            b.candidate_id < self.symbols@.len(),
        ensures
            r == shown_before(self.symbols@, *a, *b),
    {
        a.rank > b.rank || (a.rank == b.rank && str_before(
            self.symbols[a.candidate_id].filter_text.as_str(),
            self.symbols[b.candidate_id].filter_text.as_str(),
        ))
    }

    /// Matches in the order in which they are shown.
    pub fn sort_matches(&self, hits: Vec<StringMatch>) -> (r: Vec<StringMatch>)
        requires
            are_of(self.symbols@, hits@),
        ensures
            is_ordered_version(self.symbols@, r@, hits@),
    {
        let mut left = hits;
        let mut r: Vec<StringMatch> = Vec::new();
        let ghost all = hits@;
        proof {
            broadcast use vstd::seq_lib::group_to_multiset_ensures;

            assert(r@.to_multiset().add(left@.to_multiset()) =~= all.to_multiset());
        }
        while left.len() > 0
            invariant
                are_of(self.symbols@, left@),
                are_of(self.symbols@, r@),
                in_shown_order(self.symbols@, r@),
                r@.to_multiset().add(left@.to_multiset()) == all.to_multiset(),
            decreases left.len(),
        {
            let ghost before_left = left@;
            let hit = left.remove(0);
            let ghost before = r@;
            assert(hit == before_left[0]);
            let mut at: usize = r.len();
            while at > 0 && self.is_before(&hit, &r[at - 1])
                invariant
                    at <= r@.len(),
                    r@ == before,
                    hit.candidate_id < self.symbols@.len(),
                    are_of(self.symbols@, r@),
                    forall|k: int|
                        at <= k < r@.len() ==> shown_before(
                            self.symbols@,
                            hit,
                            #[trigger] r@[k],
                        ),
                decreases at,
            {
                at = at - 1;
            }
            let ghost one = hit;
            r.insert(at, hit);
            proof {
                let now = r@;
                assert forall|i: int, j: int| 0 <= i < j < now.len() implies !shown_before(
                    self.symbols@,
                    #[trigger] now[j],
                    #[trigger] now[i],
                ) by {
                    if i == at {
                        assert(now[j] == before[j - 1]);
                        lemma_shown_before_order(self.symbols@, one, before[j - 1], one);
                    } else if j == at {
                        assert(now[i] == before[i]);
                        if at > 0 {
                            if i < at - 1 {
                                assert(!shown_before(self.symbols@, before[at - 1], before[i]));
                            }
                            lemma_shown_before_order(
                                self.symbols@,
                                before[i],
                                before[at - 1],
                                one,
                            );
                            lemma_shown_before_order(
                                self.symbols@,
                                before[at - 1],
                                before[at - 1],
                                one,
                            );
                        }
                    } else {
                        let i0: int = if i < at {
                            i
                        } else {
                            i - 1
                        };
                        let j0: int = if j < at {
                            j
                        } else {
                            j - 1
                        };
                        assert(now[i] == before[i0] && now[j] == before[j0]);
                    }
                }
                assert(are_of(self.symbols@, now)) by {
                    assert forall|i: int| 0 <= i < now.len() implies (
                    #[trigger] now[i]).candidate_id < self.symbols@.len() by {
                        if i < at {
                            assert(now[i] == before[i]);
                        } else if i > at {
                            assert(now[i] == before[i - 1]);
                        }
                    }
                }
                assert(are_of(self.symbols@, left@)) by {
                    assert forall|i: int| 0 <= i < left@.len() implies (
                    #[trigger] left@[i]).candidate_id < self.symbols@.len() by {
                        assert(left@[i] == before_left[i + 1]);
                    }
                }
                broadcast use vstd::seq_lib::group_to_multiset_ensures;

                vstd::seq_lib::to_multiset_remove(before_left, 0);
                vstd::seq_lib::to_multiset_insert(before, at as int, one);
                assert(now =~= before.insert(at as int, one));
                assert(left@ =~= before_left.remove(0));
                assert(before_left.to_multiset().contains(one)) by {
                    assert(before_left.contains(before_left[0]));
                }
                assert(now.to_multiset().add(left@.to_multiset()) =~= all.to_multiset());
            }
        }
        proof {
            broadcast use vstd::seq_lib::group_to_multiset_ensures;

            assert(left@ =~= Seq::empty());
            assert(r@.to_multiset() =~= all.to_multiset());
        }
        r
    }

    fn move_positions(&self, hits: Vec<StringMatch>) -> (r: Vec<StringMatch>)
        requires
            are_of(self.symbols@, hits@),
            forall|i: int|
                0 <= i < hits@.len() ==> can_be_moved(self.symbols@, #[trigger] hits@[i]),
        ensures
            r@.len() == hits@.len(),
            forall|i: int|
                0 <= i < hits@.len() ==> is_moved(self.symbols@, #[trigger] r@[i], hits@[i]),
    {
        let mut r: Vec<StringMatch> = Vec::new();
        let mut i: usize = 0;
        while i < hits.len()
            invariant
                i <= hits@.len(),
                r@.len() == i,
                are_of(self.symbols@, hits@),
                forall|k: int|
                    0 <= k < hits@.len() ==> can_be_moved(self.symbols@, #[trigger] hits@[k]),
                forall|k: int|
                    0 <= k < i ==> is_moved(self.symbols@, #[trigger] r@[k], hits@[k]),
            decreases hits.len() - i,
        {
            let hit = &hits[i];
            let by: usize = self.symbols[hit.candidate_id].filter_start;
            let mut positions: Vec<usize> = Vec::new();
            let mut j: usize = 0;
            assert(can_be_moved(self.symbols@, hits@[i as int]));
            while j < hit.positions.len()
                invariant
                    j <= hit.positions@.len(),
                    positions@.len() == j,
                    hit.candidate_id < self.symbols@.len(),
                    by == self.symbols@[hit.candidate_id as int].filter_start,
                    can_be_moved(self.symbols@, *hit),
                    forall|k: int|
                        0 <= k < j ==> #[trigger] positions@[k] == hit.positions@[k] + by,
                decreases hit.positions.len() - j,
            {
                assert(hit.positions@[j as int] + by <= usize::MAX);
                positions.push(hit.positions[j] + by);
                j = j + 1;
            }
            assert(positions@ =~= moved(hit.positions@, by));
            r.push(StringMatch { candidate_id: hit.candidate_id, rank: hit.rank, positions });
            i = i + 1;
        }
        r
    }

    /// How many matches outside the project are asked for, from how many there are in it.
    pub fn external_limit(visible_count: usize) -> (r: usize)
        ensures
            r == (if visible_count < MAX_MATCHES {
                MAX_MATCHES - visible_count
            } else {
                0
            }),
    {
        if visible_count < MAX_MATCHES {
            MAX_MATCHES - visible_count
        } else {
            0
        }
    }

    /// Shows matches: first those in the project, then those outside of it, each in their
    /// order, with their places counted in the labels. The first one is selected.
    pub fn filter(&mut self, visible: Vec<StringMatch>, external: Vec<StringMatch>)
        requires
            are_of(old(self).symbols@, visible@),
            are_of(old(self).symbols@, external@),
            forall|i: int|
                0 <= i < visible@.len() ==> can_be_moved(
                    old(self).symbols@,
                    #[trigger] visible@[i],
                ),
            forall|i: int|
                0 <= i < external@.len() ==> can_be_moved(
                    old(self).symbols@,
                    #[trigger] external@[i],
                ),
        ensures
            final(self).symbols == old(self).symbols,
            final(self).visible_match_candidates == old(self).visible_match_candidates,
            final(self).external_match_candidates == old(self).external_match_candidates,
            final(self).show_worktree_root_name == old(self).show_worktree_root_name,
            final(self).selected_match_index == 0,
            final(self).matches@.len() == visible@.len() + external@.len(),
            exists|ordered: Seq<StringMatch>|
                #![trigger is_shown(old(self).symbols@, final(self).matches@, ordered)]
                is_shown(old(self).symbols@, final(self).matches@, ordered)
                    && is_ordered_version(
                    old(self).symbols@,
                    ordered.take(visible@.len() as int),
                    visible@,
                ) && is_ordered_version(
                    old(self).symbols@,
                    ordered.skip(visible@.len() as int),
                    external@,
                ),
    {
        let ghost symbols = self.symbols@;
        let visible_sorted = self.sort_matches(visible);
        let external_sorted = self.sort_matches(external);
        proof {
            lemma_same_items(symbols, visible_sorted@, visible@);
            lemma_same_items(symbols, external_sorted@, external@);
        }
        let ghost ordered = visible_sorted@ + external_sorted@;
        let mut hits = self.move_positions(visible_sorted);
        let mut more = self.move_positions(external_sorted);
        let ghost first = hits@;
        let ghost second = more@;
        hits.append(&mut more);
        proof {
            assert(hits@ =~= first + second);
            assert forall|i: int| 0 <= i < ordered.len() implies is_moved(
                symbols,
                #[trigger] hits@[i],
                ordered[i],
            ) by {
                if i < first.len() {
                    assert(hits@[i] == first[i]);
                } else {
                    assert(hits@[i] == second[i - first.len()]);
                }
            }
            assert(ordered.take(visible@.len() as int) =~= visible_sorted@);
            assert(ordered.skip(visible@.len() as int) =~= external_sorted@);
            assert(is_shown(symbols, hits@, ordered));
        }
        self.matches = hits;
        self.selected_match_index = 0;
        assert(is_shown(old(self).symbols@, self.matches@, ordered));
        assert(is_ordered_version(
            old(self).symbols@,
            ordered.take(visible@.len() as int),
            visible@,
        ));
        assert(is_ordered_version(
            old(self).symbols@,
            ordered.skip(visible@.len() as int),
            external@,
        ));
    }

    /// Takes symbols to be searched. Those at paths that are in the project and not ignored
    /// are told apart from the others.
    pub fn take_symbols(&mut self, symbols: Vec<Symbol>, in_project: &Vec<bool>)
        requires
            symbols@.len() == in_project@.len(),
        ensures
            final(self).symbols == symbols,
            final(self).matches == old(self).matches,
            final(self).selected_match_index == old(self).selected_match_index,
            final(self).show_worktree_root_name == old(self).show_worktree_root_name,
            are_candidates(final(self).visible_match_candidates@, symbols@, in_project@, true),
            are_candidates(final(self).external_match_candidates@, symbols@, in_project@, false),
    {
        let mut visible: Vec<Candidate> = Vec::new();
        let mut external: Vec<Candidate> = Vec::new();
        let mut i: usize = 0;
        assert(chosen(in_project@.take(0), true) =~= Seq::empty());
        assert(chosen(in_project@.take(0), false) =~= Seq::empty());
        while i < symbols.len()
            invariant
                i <= symbols@.len(),
                symbols@.len() == in_project@.len(),
                candidate_ids(visible@) =~= chosen(in_project@.take(i as int), true),
                candidate_ids(external@) =~= chosen(in_project@.take(i as int), false),
                forall|k: int|
                    0 <= k < visible@.len() ==> (#[trigger] visible@[k]).id < i
                        && visible@[k].text@ == symbols@[visible@[k].id as int].filter_text@,
                forall|k: int|
                    0 <= k < external@.len() ==> (#[trigger] external@[k]).id < i
                        && external@[k].text@ == symbols@[external@[k].id as int].filter_text@,
            decreases symbols.len() - i,
        {
            proof {
                let next = in_project@.take(i + 1);
                assert(next.drop_last() =~= in_project@.take(i as int));
                assert(next.last() == in_project@[i as int]);
            }
            let candidate = Candidate {
                id: i,
                text: copy_text(symbols[i].filter_text.as_str()),
            };
            if in_project[i] {
                visible.push(candidate);
            } else {
                external.push(candidate);
            }
            i = i + 1;
        }
        assert(in_project@.take(i as int) =~= in_project@);
        self.visible_match_candidates = visible;
        self.external_match_candidates = external;
        self.symbols = symbols;
    }

    /// Notes how many worktrees are visible.
    pub fn set_worktree_count(&mut self, visible_worktrees: usize)
        ensures
            *final(self) == (ProjectSymbolsDelegate {
                show_worktree_root_name: visible_worktrees > 1,
                ..*old(self)
            }),
    {
        self.show_worktree_root_name = visible_worktrees > 1;
    }

    /// The symbol to be opened: that of the selected match.
    pub fn confirm(&self) -> (r: Option<usize>)
        ensures
            r == (if self.selected_match_index < self.matches@.len() {
                Some(self.matches@[self.selected_match_index as int].candidate_id)
            } else {
                None
            }),
    {
        if self.selected_match_index < self.matches.len() {
            Some(self.matches[self.selected_match_index].candidate_id)
        } else {
            None
        }
    }

    pub fn match_count(&self) -> (r: usize)
        ensures
            r == self.matches@.len(),
    {
        self.matches.len()
    }

    pub fn selected_index(&self) -> (r: usize)
        ensures
            r == self.selected_match_index,
    {
        self.selected_match_index
    }

    pub fn set_selected_index(&mut self, ix: usize)
        ensures
            *final(self) == (ProjectSymbolsDelegate { selected_match_index: ix, ..*old(self) }),
    {
        self.selected_match_index = ix;
    }

    /// The path that is shown for a match. With more than one worktree the name of the one
    /// it is in comes first, if it is known, and then what separates names in paths.
    pub fn path_text(&self, ix: usize, root_name: Option<&str>, separator: char) -> (r: String)
        requires
            ix < self.matches@.len(),
            are_of(self.symbols@, self.matches@),
        ensures
            r@ == ({
                let path = self.symbols@[self.matches@[ix as int].candidate_id as int].path@;
                match root_name {
                    Some(name) => if self.show_worktree_root_name {
                        name@ + seq![separator] + path
                    } else {
                        path
                    },
                    None => path,
                }
            }),
    {
        assert(self.matches@[ix as int].candidate_id < self.symbols@.len());
        let path = &self.symbols[self.matches[ix].candidate_id].path;
        match root_name {
            Some(name) => {
                if self.show_worktree_root_name {
                    let mut text = copy_text(name);
                    text.push(separator);
                    text.push_str(path.as_str());
                    assert(text@ =~= name@ + seq![separator] + path@);
                    return text;
                }
                copy_text(path.as_str())
            },
            None => copy_text(path.as_str()),
        }
    }
}

/// Whether matches are other ones with their places counted in the labels.
pub open spec fn is_shown(
    symbols: Seq<Symbol>,
    hits: Seq<StringMatch>,
    ordered: Seq<StringMatch>,
) -> bool {
    hits.len() == ordered.len() && forall|i: int|
        0 <= i < ordered.len() ==> is_moved(symbols, #[trigger] hits[i], ordered[i])
}

/// The places at which something holds, or does not.
pub open spec fn chosen(flags: Seq<bool>, wanted: bool) -> Seq<int>
    decreases flags.len(),
{
    if flags.len() == 0 {
        Seq::empty()
    } else if flags.last() == wanted {
        chosen(flags.drop_last(), wanted).push(flags.len() - 1)
    } else {
        chosen(flags.drop_last(), wanted)
    }
}

/// The symbols that candidates stand for.
pub open spec fn candidate_ids(candidates: Seq<Candidate>) -> Seq<int> {
    Seq::new(candidates.len(), |i: int| candidates[i].id as int)
}

/// Whether candidates are those of some symbols that are in the project, or those that are
/// not.
pub open spec fn are_candidates(
    candidates: Seq<Candidate>,
    symbols: Seq<Symbol>,
    in_project: Seq<bool>,
    wanted: bool,
) -> bool {
    candidate_ids(candidates) == chosen(in_project, wanted) && forall|i: int|
        0 <= i < candidates.len() ==> (#[trigger] candidates[i]).id < symbols.len()
            && candidates[i].text@ == symbols[candidates[i].id as int].filter_text@
}

proof fn lemma_same_items(symbols: Seq<Symbol>, ordered: Seq<StringMatch>, hits: Seq<StringMatch>)
    requires
        ordered.to_multiset() == hits.to_multiset(),
        are_of(symbols, hits),
        forall|i: int| 0 <= i < hits.len() ==> can_be_moved(symbols, #[trigger] hits[i]),
    ensures
        ordered.len() == hits.len(),
        are_of(symbols, ordered),
        forall|i: int| 0 <= i < ordered.len() ==> can_be_moved(symbols, #[trigger] ordered[i]),
{
    broadcast use vstd::seq_lib::group_to_multiset_ensures;

    assert(ordered.len() == ordered.to_multiset().len());
    assert(hits.len() == hits.to_multiset().len());
    assert forall|i: int| 0 <= i < ordered.len() implies (#[trigger] ordered[i]).candidate_id
        < symbols.len() && can_be_moved(symbols, ordered[i]) by {
        assert(ordered.contains(ordered[i]));
        assert(ordered.to_multiset().count(ordered[i]) > 0);
        assert(hits.to_multiset().count(ordered[i]) > 0);
        assert(hits.contains(ordered[i]));
        let k: int = choose|k: int| 0 <= k < hits.len() && hits[k] == ordered[i];
        assert(hits[k].candidate_id < symbols.len());
        assert(can_be_moved(symbols, hits[k]));
    }
}

/// Symbols are shown from the best match to the worst. Among equal ones they come in the
/// order of their texts. Every match is shown, and as often as it was found.
pub proof fn law_best_matches_come_first(
    delegate: ProjectSymbolsDelegate,
    hits: Vec<StringMatch>,
    r: Vec<StringMatch>,
)
    requires
        are_of(delegate.symbols@, hits@),
        call_ensures(ProjectSymbolsDelegate::sort_matches, (&delegate, hits), r),
    ensures
        r@.to_multiset() == hits@.to_multiset(),
        forall|i: int, j: int|
            0 <= i < j < r@.len() ==> (#[trigger] r@[i]).rank >= (#[trigger] r@[j]).rank,
        forall|i: int, j: int|
            0 <= i < j < r@.len() && (#[trigger] r@[i]).rank == (#[trigger] r@[j]).rank
                ==> !text_before(
                delegate.symbols@[r@[j].candidate_id as int].filter_text@,
                delegate.symbols@[r@[i].candidate_id as int].filter_text@,
            ),
{
    assert forall|i: int, j: int| 0 <= i < j < r@.len() implies (#[trigger] r@[i]).rank >= (
    #[trigger] r@[j]).rank by {
        assert(!shown_before(delegate.symbols@, r@[j], r@[i]));
    }
    assert forall|i: int, j: int|
        0 <= i < j < r@.len() && (#[trigger] r@[i]).rank == (#[trigger] r@[j]).rank implies !text_before(
        delegate.symbols@[r@[j].candidate_id as int].filter_text@,
        delegate.symbols@[r@[i].candidate_id as int].filter_text@,
    ) by {
        assert(!shown_before(delegate.symbols@, r@[j], r@[i]));
    }
}

/// What is shown for a query: first the matches among the symbols of the project, then those
/// outside of it, each from the best to the worst. The first one is selected. What is marked
/// in a label is what was found, moved to where the searched part of the label starts.
pub proof fn law_symbols_of_the_project_come_first(
    delegate: &mut ProjectSymbolsDelegate,
    visible: Vec<StringMatch>,
    external: Vec<StringMatch>,
    r: (),
)
    requires
        are_of(old(delegate).symbols@, visible@),
        are_of(old(delegate).symbols@, external@),
        call_ensures(ProjectSymbolsDelegate::filter, (delegate, visible, external), r),
    ensures
        final(delegate).selected_match_index == 0,
        final(delegate).matches@.len() == visible@.len() + external@.len(),
        exists|ordered: Seq<StringMatch>|
            {
                let shown = final(delegate).matches@;
                let symbols = old(delegate).symbols@;
                &&& ordered.len() == shown.len()
                &&& (#[trigger] ordered.take(visible@.len() as int)).to_multiset()
                    == visible@.to_multiset()
                &&& ordered.skip(visible@.len() as int).to_multiset() == external@.to_multiset()
                &&& forall|i: int, j: int|
                    0 <= i < j < shown.len() && (j < visible@.len() || i >= visible@.len()) ==> (
                    #[trigger] shown[i]).rank >= (#[trigger] shown[j]).rank
                &&& forall|i: int|
                    0 <= i < shown.len() ==> (#[trigger] shown[i]).candidate_id
                        == ordered[i].candidate_id && shown[i].rank == ordered[i].rank
                        && shown[i].positions@.len() == ordered[i].positions@.len()
                &&& forall|i: int, k: int|
                    0 <= i < shown.len() && 0 <= k < shown[i].positions@.len() ==> (
                    #[trigger] shown[i].positions@[k]) == (ordered[i].positions@[k]
                        + symbols[ordered[i].candidate_id as int].filter_start) as usize
            },
{
    let symbols = old(delegate).symbols@;
    let shown = final(delegate).matches@;
    let n: int = visible@.len() as int;
    let ordered = choose|ordered: Seq<StringMatch>|
        #![trigger is_shown(symbols, shown, ordered)]
        is_shown(symbols, shown, ordered) && is_ordered_version(
            symbols,
            ordered.take(n),
            visible@,
        ) && is_ordered_version(symbols, ordered.skip(n), external@);
    assert(is_shown(symbols, shown, ordered));
    assert(ordered.len() == shown.len());
    assert forall|i: int, j: int|
        0 <= i < j < shown.len() && (j < n || i >= n) implies (#[trigger] shown[i]).rank >= (
    #[trigger] shown[j]).rank by {
        assert(is_moved(symbols, shown[i], ordered[i]));
        assert(is_moved(symbols, shown[j], ordered[j]));
        if j < n {
            assert(ordered.take(n)[i] == ordered[i] && ordered.take(n)[j] == ordered[j]);
            assert(!shown_before(symbols, ordered.take(n)[j], ordered.take(n)[i]));
        } else {
            let rest = ordered.skip(n);
            assert(rest[i - n] == ordered[i] && rest[j - n] == ordered[j]);
            assert(!shown_before(symbols, rest[j - n], rest[i - n]));
        }
    }
    assert forall|i: int| 0 <= i < shown.len() implies (#[trigger] shown[i]).candidate_id
        == ordered[i].candidate_id && shown[i].rank == ordered[i].rank && shown[i].positions@.len()
        == ordered[i].positions@.len() by {
        assert(is_moved(symbols, shown[i], ordered[i]));
    }
    assert forall|i: int, k: int|
        0 <= i < shown.len() && 0 <= k < shown[i].positions@.len() implies (
    #[trigger] shown[i].positions@[k]) == (ordered[i].positions@[k]
        + symbols[ordered[i].candidate_id as int].filter_start) as usize by {
        assert(is_moved(symbols, shown[i], ordered[i]));
    }
}

proof fn lemma_chosen(flags: Seq<bool>, wanted: bool)
    ensures
        forall|k: int|
            0 <= k < chosen(flags, wanted).len() ==> 0 <= #[trigger] chosen(flags, wanted)[k]
                < flags.len() && flags[chosen(flags, wanted)[k]] == wanted,
        forall|i: int|
            0 <= i < flags.len() && #[trigger] flags[i] == wanted ==> chosen(
                flags,
                wanted,
            ).contains(i),
        forall|a: int, b: int|
            0 <= a < b < chosen(flags, wanted).len() ==> #[trigger] chosen(flags, wanted)[a]
                < #[trigger] chosen(flags, wanted)[b],
    decreases flags.len(),
{
    if flags.len() > 0 {
        let init = flags.drop_last();
        lemma_chosen(init, wanted);
        let rest = chosen(init, wanted);
        let all = chosen(flags, wanted);
        assert forall|k: int| 0 <= k < all.len() implies 0 <= #[trigger] all[k] < flags.len()
            && flags[all[k]] == wanted by {
            if k < rest.len() {
                assert(all[k] == rest[k]);
                assert(init[rest[k]] == flags[rest[k]]);
            }
        }
        assert forall|i: int|
            0 <= i < flags.len() && #[trigger] flags[i] == wanted implies all.contains(i) by {
            if i < init.len() {
                assert(init[i] == flags[i]);
                let k: int = choose|k: int| 0 <= k < rest.len() && rest[k] == i;
                assert(all[k] == i);
            } else {
                assert(all[rest.len() as int] == i);
            }
        }
        assert forall|a: int, b: int| 0 <= a < b < all.len() implies #[trigger] all[a]
            < #[trigger] all[b] by {
            assert(all[a] == rest[a]);
            if b < rest.len() {
                assert(all[b] == rest[b]);
            }
        }
    }
}

/// Whether one of the candidates stands for an item, by its text.
pub open spec fn is_searched(candidates: Seq<Candidate>, item: int, text: Seq<char>) -> bool {
    exists|k: int|
        0 <= k < candidates.len() && (#[trigger] candidates[k]).id == item && candidates[k].text@
            == text
}

proof fn lemma_searched(
    candidates: Seq<Candidate>,
    symbols: Seq<Symbol>,
    flags: Seq<bool>,
    wanted: bool,
    i: int,
)
    requires
        symbols.len() == flags.len(),
        0 <= i < symbols.len(),
        are_candidates(candidates, symbols, flags, wanted),
    ensures
        flags[i] == wanted ==> is_searched(candidates, i, symbols[i].filter_text@),
        flags[i] != wanted ==> forall|k: int|
            0 <= k < candidates.len() ==> (#[trigger] candidates[k]).id != i,
{
    lemma_chosen(flags, wanted);
    let ids = candidate_ids(candidates);
    if flags[i] == wanted {
        let k: int = choose|k: int| 0 <= k < ids.len() && ids[k] == i;
        assert(candidates[k].id == i);
    } else {
        assert forall|k: int| 0 <= k < candidates.len() implies (#[trigger] candidates[k]).id
            != i by {
            assert(ids[k] == candidates[k].id);
            assert(flags[chosen(flags, wanted)[k]] == wanted);
        }
    }
}

/// A query is looked for in every symbol, by the text of the symbol: in those of the project
/// and, apart from them, in the others.
pub proof fn law_every_symbol_is_searched(
    delegate: &mut ProjectSymbolsDelegate,
    symbols: Vec<Symbol>,
    in_project: Vec<bool>,
    r: (),
    i: int,
)
    requires
        symbols@.len() == in_project@.len(),
        0 <= i < symbols@.len(),
        call_ensures(ProjectSymbolsDelegate::take_symbols, (delegate, symbols, &in_project), r),
    ensures
        final(delegate).symbols == symbols,
        is_searched(
            final(delegate).visible_match_candidates@,
            i,
            symbols@[i].filter_text@,
        ) == in_project@[i],
        is_searched(
            final(delegate).external_match_candidates@,
            i,
            symbols@[i].filter_text@,
        ) == !in_project@[i],
{
    let flags = in_project@;
    lemma_searched(final(delegate).visible_match_candidates@, symbols@, flags, true, i);
    lemma_searched(final(delegate).external_match_candidates@, symbols@, flags, false, i);
}

} // verus!
