//! Maps from texts to texts.

use vstd::prelude::*;
use crate::collections::lookup;
use crate::text::{copy_text, str_eq};

verus! {

/// A map from texts to texts that keeps its entries in the order in which their
/// keys came.
#[derive(Debug)]
pub struct TextMap {
    entries: Vec<(String, String)>,
}

/// A key and its value.
pub open spec fn pair(entry: (String, String)) -> (Seq<char>, Seq<char>) {
    (entry.0@, entry.1@)
}

/// The entries of a map, in their order.
pub open spec fn pairs(entries: Seq<(String, String)>) -> Seq<(Seq<char>, Seq<char>)> {
    Seq::new(entries.len(), |i: int| pair(entries[i]))
}

/// The map of some entries. Of two entries with one key the first counts.
pub open spec fn pair_map(entries: Seq<(Seq<char>, Seq<char>)>) -> Map<Seq<char>, Seq<char>> {
    Map::new(
        |key: Seq<char>| lookup(entries, key) is Some,
        |key: Seq<char>| lookup(entries, key)->0,
    )
}

/// Whether no key occurs twice.
pub open spec fn keys_differ(entries: Seq<(Seq<char>, Seq<char>)>) -> bool {
    forall|i: int, j: int|
        #![trigger entries[i], entries[j]]
        0 <= i < j < entries.len() ==> entries[i].0 != entries[j].0
}

/// The entries after one more: a new key goes behind the others, a value for an old
/// key takes the place of the one before.
pub open spec fn with_entry(
    entries: Seq<(Seq<char>, Seq<char>)>,
    key: Seq<char>,
    value: Seq<char>,
) -> Seq<(Seq<char>, Seq<char>)>
    decreases entries.len(),
{
    if entries.len() == 0 {
        seq![(key, value)]
    } else if entries.first().0 == key {
        seq![(key, value)] + entries.drop_first()
    } else {
        seq![entries.first()] + with_entry(entries.drop_first(), key, value)
    }
}

/// The entries after more entries, one after the other.
pub open spec fn with_entries(
    entries: Seq<(Seq<char>, Seq<char>)>,
    more: Seq<(Seq<char>, Seq<char>)>,
) -> Seq<(Seq<char>, Seq<char>)>
    decreases more.len(),
{
    if more.len() == 0 {
        entries
    } else {
        with_entry(with_entries(entries, more.drop_last()), more.last().0, more.last().1)
    }
}

/// An entry more is an insertion.
pub proof fn lemma_with_entry_inserts(
    entries: Seq<(Seq<char>, Seq<char>)>,
    key: Seq<char>,
    value: Seq<char>,
)
    ensures
        pair_map(with_entry(entries, key, value)) == pair_map(entries).insert(key, value),
    decreases entries.len(),
{
    let after = with_entry(entries, key, value);
    if entries.len() == 0 {
        reveal_with_fuel(lookup, 2);
        assert(after.drop_first() =~= Seq::empty());
    } else if entries.first().0 == key {
        assert(after.drop_first() =~= entries.drop_first());
    } else {
        let rest = entries.drop_first();
        lemma_with_entry_inserts(rest, key, value);
        assert(after.drop_first() =~= with_entry(rest, key, value));
        assert forall|k: Seq<char>| #[trigger]
            lookup(after, k) == (if k == key {
                Some(value)
            } else {
                lookup(entries, k)
            }) by {
            let m = pair_map(with_entry(rest, key, value));
            assert(m == pair_map(rest).insert(key, value));
            if k == key {
                assert(m.contains_key(k) && m[k] == value);
            } else {
                assert(m.contains_key(k) == pair_map(rest).contains_key(k));
                if m.contains_key(k) {
                    assert(m[k] == pair_map(rest)[k]);
                }
            }
        }
    }
    assert(pair_map(after) =~= pair_map(entries).insert(key, value));
}

proof fn lemma_with_entry_at(
    entries: Seq<(Seq<char>, Seq<char>)>,
    key: Seq<char>,
    value: Seq<char>,
    i: int,
)
    requires
        0 <= i <= entries.len(),
        i < entries.len() ==> entries[i].0 == key,
        forall|j: int| 0 <= j < i ==> (#[trigger] entries[j]).0 != key,
    ensures
        with_entry(entries, key, value) == (if i < entries.len() {
            entries.update(i, (key, value))
        } else {
            entries.push((key, value))
        }),
        lookup(entries, key) == (if i < entries.len() {
            Some(entries[i].1)
        } else {
            None
        }),
    decreases entries.len(),
{
    if entries.len() > 0 {
        let rest = entries.drop_first();
        if i == 0 {
            assert(with_entry(entries, key, value) =~= entries.update(0, (key, value)));
        } else {
            assert(entries[0].0 != key);
            assert forall|j: int| 0 <= j < i - 1 implies (#[trigger] rest[j]).0 != key by {
                assert(rest[j] == entries[j + 1]);
            }
            lemma_with_entry_at(rest, key, value, i - 1);
            assert(with_entry(entries, key, value) =~= (if i < entries.len() {
                entries.update(i, (key, value))
            } else {
                entries.push((key, value))
            }));
        }
    } else {
        assert(with_entry(entries, key, value) =~= entries.push((key, value)));
    }
}

/// A key that no entry has goes behind the others.
pub proof fn lemma_new_key_comes_last(
    entries: Seq<(Seq<char>, Seq<char>)>,
    key: Seq<char>,
    value: Seq<char>,
)
    requires
        forall|j: int| 0 <= j < entries.len() ==> (#[trigger] entries[j]).0 != key,
    ensures
        with_entry(entries, key, value) == entries.push((key, value)),
{
    lemma_with_entry_at(entries, key, value, entries.len() as int);
}

/// Where a key stands among some entries, or their end.
proof fn lemma_place_of(entries: Seq<(Seq<char>, Seq<char>)>, key: Seq<char>) -> (i: int)
    ensures
        0 <= i <= entries.len(),
        i < entries.len() ==> entries[i].0 == key,
        forall|j: int| 0 <= j < i ==> (#[trigger] entries[j]).0 != key,
    decreases entries.len(),
{
    if entries.len() == 0 || entries[0].0 == key {
        0
    } else {
        let rest = entries.drop_first();
        let i: int = lemma_place_of(rest, key);
        assert forall|j: int| 0 <= j < i + 1 implies (#[trigger] entries[j]).0 != key by {
            if j > 0 {
                assert(rest[j - 1] == entries[j]);
            }
        }
        i + 1
    }
}

/// Entries that are put in one after the other have different keys.
pub proof fn lemma_keys_differ(
    entries: Seq<(Seq<char>, Seq<char>)>,
    more: Seq<(Seq<char>, Seq<char>)>,
)
    requires
        keys_differ(entries),
    ensures
        keys_differ(with_entries(entries, more)),
    decreases more.len(),
{
    if more.len() > 0 {
        let before = with_entries(entries, more.drop_last());
        lemma_keys_differ(entries, more.drop_last());
        let i: int = lemma_place_of(before, more.last().0);
        lemma_with_entry_at(before, more.last().0, more.last().1, i);
    }
}

/// Putting in entries with different keys unites two maps.
pub proof fn lemma_with_entries_unites(
    entries: Seq<(Seq<char>, Seq<char>)>,
    more: Seq<(Seq<char>, Seq<char>)>,
)
    requires
        keys_differ(more),
    ensures
        pair_map(with_entries(entries, more)) == pair_map(entries).union_prefer_right(
            pair_map(more),
        ),
    decreases more.len(),
{
    if more.len() == 0 {
        assert(pair_map(entries) =~= pair_map(entries).union_prefer_right(pair_map(more)));
    } else {
        let rest = more.drop_last();
        let (key, value) = more.last();
        assert forall|j: int| 0 <= j < rest.len() implies (#[trigger] rest[j]).0 != key by {
            assert(more[j].0 != more[more.len() - 1].0);
        }
        lemma_with_entries_unites(entries, rest);
        lemma_with_entry_inserts(with_entries(entries, rest), key, value);
        lemma_with_entry_inserts(rest, key, value);
        lemma_new_key_comes_last(rest, key, value);
        assert(rest.push((key, value)) =~= more);
        assert(pair_map(with_entries(entries, more)) =~= pair_map(entries).union_prefer_right(
            pair_map(more),
        ));
    }
}

impl TextMap {
    /// The entries, in their order.
    pub closed spec fn pairs(&self) -> Seq<(Seq<char>, Seq<char>)> {
        pairs(self.entries@)
    }

    /// No key is stored twice.
    pub open spec fn wf(&self) -> bool {
        keys_differ(self.pairs())
    }

    pub fn new() -> (map: TextMap)
        ensures
            map.wf(),
            map.pairs() == Seq::<(Seq<char>, Seq<char>)>::empty(),
    {
        let map = TextMap { entries: Vec::new() };
        assert(map.pairs() =~= Seq::empty());
        map
    }

    fn find(&self, key: &str) -> (r: usize)
        ensures
            r <= self.entries@.len(),
            r < self.entries@.len() ==> self.pairs()[r as int].0 == key@,
            forall|j: int| 0 <= j < r ==> (#[trigger] self.pairs()[j]).0 != key@,
            lookup(self.pairs(), key@) == (if r < self.pairs().len() {
                Some(self.pairs()[r as int].1)
            } else {
                None
            }),
    {
        let mut i: usize = 0;
        while i < self.entries.len() && !str_eq(self.entries[i].0.as_str(), key)
            invariant
                i <= self.entries@.len(),
                forall|j: int| 0 <= j < i ==> (#[trigger] self.pairs()[j]).0 != key@,
            decreases self.entries.len() - i,
        {
            i = i + 1;
        }
        proof {
            lemma_with_entry_at(self.pairs(), key@, Seq::empty(), i as int);
        }
        i
    }

    pub fn get(&self, key: &str) -> (r: Option<&String>)
        ensures
            match r {
                Some(value) => self@.contains_key(key@) && value@ == self@[key@],
                None => !self@.contains_key(key@),
            },
    {
        let i: usize = self.find(key);
        if i < self.entries.len() {
            Some(&self.entries[i].1)
        } else {
            None
        }
    }

    /// Stores a value under a key in place of the one before.
    pub fn insert(&mut self, key: String, value: String)
        requires
            old(self).wf(),
        ensures
            final(self).wf(),
            final(self).pairs() == with_entry(old(self).pairs(), key@, value@),
            final(self)@ == old(self)@.insert(key@, value@),
    {
        let i: usize = self.find(key.as_str());
        let ghost before = self.pairs();
        let ghost entry = (key@, value@);
        proof {
            lemma_with_entry_at(before, key@, value@, i as int);
            lemma_with_entry_inserts(before, key@, value@);
        }
        if i < self.entries.len() {
            self.entries.set(i, (key, value));
            assert(self.pairs() =~= before.update(i as int, entry));
        } else {
            self.entries.push((key, value));
            assert(self.pairs() =~= before.push(entry));
        }
    }

    pub fn len(&self) -> (r: usize)
        ensures
            r == self.pairs().len(),
    {
        self.entries.len()
    }

    /// The entry at a place.
    pub fn entry(&self, i: usize) -> (r: (&String, &String))
        requires
            i < self.pairs().len(),
        ensures
            (r.0@, r.1@) == self.pairs()[i as int],
    {
        (&self.entries[i].0, &self.entries[i].1)
    }

    /// Puts in the entries of another map.
    pub fn extend(&mut self, other: &TextMap)
        requires
            old(self).wf(),
        ensures
            final(self).wf(),
            final(self).pairs() == with_entries(old(self).pairs(), other.pairs()),
    {
        let mut i: usize = 0;
        let ghost start = self.pairs();
        let ghost more = other.pairs();
        assert(more.take(0) =~= Seq::empty());
        while i < other.entries.len()
            invariant
                i <= more.len(),
                more == other.pairs(),
                more.len() == other.entries@.len(),
                self.wf(),
                self.pairs() == with_entries(start, more.take(i as int)),
            decreases other.entries.len() - i,
        {
            proof {
                let next = more.take(i + 1);
                assert(next.drop_last() =~= more.take(i as int));
                assert(next.last() == pair(other.entries@[i as int]));
            }
            self.insert(
                copy_text(other.entries[i].0.as_str()),
                copy_text(other.entries[i].1.as_str()),
            );
            i = i + 1;
        }
        assert(more.take(i as int) =~= more);
    }

    pub fn copy(&self) -> (r: TextMap)
        ensures
            r.pairs() == self.pairs(),
    {
        let mut entries: Vec<(String, String)> = Vec::new();
        let mut i: usize = 0;
        while i < self.entries.len()
            invariant
                i <= self.entries@.len(),
                entries@.len() == i,
                forall|k: int| 0 <= k < i ==> pair(#[trigger] entries@[k]) == self.pairs()[k],
            decreases self.entries.len() - i,
        {
            entries.push(
                (copy_text(self.entries[i].0.as_str()), copy_text(self.entries[i].1.as_str())),
            );
            assert(pair(entries@[i as int]) == self.pairs()[i as int]);
            i = i + 1;
        }
        assert(pairs(entries@) =~= self.pairs());
        TextMap { entries }
    }
}

impl View for TextMap {
    type V = Map<Seq<char>, Seq<char>>;

    open spec fn view(&self) -> Map<Seq<char>, Seq<char>> {
        pair_map(self.pairs())
    }
}

proof fn lemma_with_entries_get(
    entries: Seq<(Seq<char>, Seq<char>)>,
    more: Seq<(Seq<char>, Seq<char>)>,
    key: Seq<char>,
)
    requires
        keys_differ(more),
    ensures
        forall|i: int|
            0 <= i < more.len() && (#[trigger] more[i]).0 == key ==> pair_map(
                with_entries(entries, more),
            ).contains_key(key) && pair_map(with_entries(entries, more))[key] == more[i].1,
        (forall|i: int| 0 <= i < more.len() ==> (#[trigger] more[i]).0 != key) ==> (pair_map(
            with_entries(entries, more),
        ).contains_key(key) == pair_map(entries).contains_key(key) && pair_map(
            with_entries(entries, more),
        )[key] == pair_map(entries)[key]),
    decreases more.len(),
{
    if more.len() > 0 {
        let less = more.drop_last();
        assert forall|i: int, j: int|
            #![trigger less[i], less[j]]
            0 <= i < j < less.len() implies less[i].0 != less[j].0 by {
            assert(less[i] == more[i] && less[j] == more[j]);
        }
        lemma_with_entries_get(entries, less, key);
        let before = with_entries(entries, less);
        lemma_with_entry_inserts(before, more.last().0, more.last().1);
        assert forall|i: int| 0 <= i < more.len() && (#[trigger] more[i]).0 == key implies pair_map(
            with_entries(entries, more),
        ).contains_key(key) && pair_map(with_entries(entries, more))[key] == more[i].1 by {
            if i < less.len() {
                assert(less[i] == more[i]);
                assert(more[i].0 != more[more.len() - 1].0);
            }
        }
        if forall|i: int| 0 <= i < more.len() ==> (#[trigger] more[i]).0 != key {
            assert forall|i: int| 0 <= i < less.len() implies (#[trigger] less[i]).0 != key by {
                assert(less[i] == more[i]);
            }
            assert(more[more.len() - 1].0 != key);
        }
    }
}

proof fn lemma_pair_map_get(entries: Seq<(Seq<char>, Seq<char>)>, key: Seq<char>)
    requires
        keys_differ(entries),
    ensures
        forall|i: int|
            0 <= i < entries.len() && (#[trigger] entries[i]).0 == key ==> pair_map(
                entries,
            ).contains_key(key) && pair_map(entries)[key] == entries[i].1,
        (forall|i: int| 0 <= i < entries.len() ==> (#[trigger] entries[i]).0 != key)
            ==> !pair_map(entries).contains_key(key),
{
    let i: int = lemma_place_of(entries, key);
    lemma_with_entry_at(entries, key, key, i);
    assert forall|k: int| 0 <= k < entries.len() && (#[trigger] entries[k]).0
        == key implies pair_map(entries).contains_key(key) && pair_map(entries)[key]
        == entries[k].1 by {
        if k > i {
            assert(entries[i].0 != entries[k].0);
        } else if k < i {
            assert(entries[k].0 != key);
        }
    }
}

/// What entries have after more entries.
pub proof fn lemma_extended(
    entries: Seq<(Seq<char>, Seq<char>)>,
    more: Seq<(Seq<char>, Seq<char>)>,
    key: Seq<char>,
)
    requires
        keys_differ(more),
    ensures
        ({
            let after = pair_map(with_entries(entries, more));
            &&& pair_map(more).contains_key(key) ==> after.contains_key(key) && after[key]
                == pair_map(more)[key]
            &&& !pair_map(more).contains_key(key) ==> after.contains_key(key) == pair_map(
                entries,
            ).contains_key(key) && after[key] == pair_map(entries)[key]
        }),
{
    lemma_with_entries_get(entries, more, key);
    lemma_pair_map_get(more, key);
    let i: int = lemma_place_of(more, key);
    if i < more.len() {
        assert(more[i].0 == key);
    }
}

/// A map that takes up another has the values of the other, and its own for the other keys.
pub proof fn law_later_values_count(map: &mut TextMap, other: TextMap, key: Seq<char>)
    requires
        old(map).wf(),
        other.wf(),
        call_ensures(TextMap::extend, (map, &other), ()),
    ensures
        other@.contains_key(key) ==> final(map)@.contains_key(key) && final(map)@[key]
            == other@[key],
        !other@.contains_key(key) ==> final(map)@.contains_key(key) == old(map)@.contains_key(key)
            && final(map)@[key] == old(map)@[key],
{
    lemma_extended(old(map).pairs(), other.pairs(), key);
}

/// A new key goes behind the others, and an old one stays where it is.
pub proof fn law_keys_keep_their_order(map: &mut TextMap, key: String, value: String, i: int)
    requires
        old(map).wf(),
        call_ensures(TextMap::insert, (map, key, value), ()),
        0 <= i < old(map).pairs().len(),
    ensures
        final(map).pairs()[i].0 == old(map).pairs()[i].0,
        old(map).pairs()[i].0 != key@ ==> final(map).pairs()[i].1 == old(map).pairs()[i].1,
        old(map).pairs()[i].0 == key@ ==> final(map).pairs()[i].1 == value@
            && final(map).pairs().len() == old(map).pairs().len(),
        !old(map)@.contains_key(key@) ==> final(map).pairs() == old(map).pairs().push(
            (key@, value@),
        ),
{
    let all = old(map).pairs();
    let k: int = lemma_place_of(all, key@);
    lemma_with_entry_at(all, key@, value@, k);
    if k < all.len() && i != k && all[i].0 == key@ {
        if i < k {
            assert(all[i].0 != key@);
        } else {
            assert(all[k].0 != all[i].0);
        }
    }
}

} // verus!
