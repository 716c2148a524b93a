//! Small sets and maps that are searched by comparing.

use vstd::prelude::*;

verus! {

/// Values that can be told apart.
pub trait Same: Sized {
    fn same(&self, other: &Self) -> (r: bool)
        ensures
            r == (*self == *other),
    ;
}

impl Same for u64 {
    fn same(&self, other: &u64) -> (r: bool) {
        *self == *other
    }
}

impl Same for u32 {
    fn same(&self, other: &u32) -> (r: bool) {
        *self == *other
    }
}

/// A set.
#[derive(Debug)]
pub struct VecSet<T> {
    items: Vec<T>,
}

/// The first of the values that are stored under a key.
pub open spec fn lookup<K, V>(entries: Seq<(K, V)>, key: K) -> Option<V>
    decreases entries.len(),
{
    if entries.len() == 0 {
        None
    } else if entries.first().0 == key {
        Some(entries.first().1)
    } else {
        lookup(entries.drop_first(), key)
    }
}

/// A map.
#[derive(Debug)]
pub struct VecMap<K, V> {
    entries: Vec<(K, V)>,
}

impl<T> View for VecSet<T> {
    type V = Set<T>;

    closed spec fn view(&self) -> Set<T> {
        Set::new(|item: T| self.items@.contains(item))
    }
}

impl<K, V> View for VecMap<K, V> {
    type V = Map<K, V>;

    closed spec fn view(&self) -> Map<K, V> {
        Map::new(
            |key: K| lookup(self.entries@, key) is Some,
            |key: K| lookup(self.entries@, key)->0,
        )
    }
}

impl<T: Same> VecSet<T> {
    pub fn new() -> (set: VecSet<T>)
        ensures
            set@ == Set::<T>::empty(),
    {
        let set = VecSet { items: Vec::new() };
        assert(set@ =~= Set::<T>::empty());
        set
    }

    pub fn contains(&self, item: &T) -> (r: bool)
        ensures
            r == self@.contains(*item),
    {
        let mut i: usize = 0;
        while i < self.items.len()
            invariant
                i <= self.items@.len(),
                forall|j: int| 0 <= j < i ==> #[trigger] self.items@[j] != *item,
            decreases self.items.len() - i,
        {
            if self.items[i].same(item) {
                assert(self.items@[i as int] == *item);
                return true;
            }
            i = i + 1;
        }
        false
    }

    /// Puts in an item and tells whether it was missing.
    pub fn insert(&mut self, item: T) -> (added: bool)
        ensures
            added == !old(self)@.contains(item),
            final(self)@ == old(self)@.insert(item),
    {
        if self.contains(&item) {
            assert(self@ =~= self@.insert(item));
            false
        } else {
            let ghost before = self.items@;
            self.items.push(item);
            proof {
                let now = self.items@;
                assert forall|x: T| now.contains(x) == (x == item || before.contains(x)) by {
                    if before.contains(x) {
                        let i: int = choose|i: int| 0 <= i < before.len() && before[i] == x;
                        assert(now[i] == x);
                    }
                    if x == item {
                        assert(now[before.len() as int] == x);
                    }
                    if now.contains(x) && x != item {
                        let i: int = choose|i: int| 0 <= i < now.len() && now[i] == x;
                        assert(before[i] == x);
                    }
                }
                assert(self@ =~= old(self)@.insert(item));
            }
            true
        }
    }

    /// Takes out an item and tells whether it was there.
    pub fn remove(&mut self, item: &T) -> (removed: bool)
        ensures
            removed == old(self)@.contains(*item),
            final(self)@ == old(self)@.remove(*item),
    {
        let ghost all = self.items@;
        let removed: bool = self.contains(item);
        let mut kept: Vec<T> = Vec::new();
        while self.items.len() > 0
            invariant
                forall|x: T| #[trigger]
                    all.contains(x) && x != *item ==> self.items@.contains(x) || kept@.contains(x),
                forall|j: int|
                    0 <= j < self.items@.len() ==> all.contains(#[trigger] self.items@[j]),
                forall|j: int|
                    0 <= j < kept@.len() ==> all.contains(#[trigger] kept@[j]) && kept@[j] != *item,
            decreases self.items.len(),
        {
            let ghost before = self.items@;
            let ghost kept_before = kept@;
            match self.items.pop() {
                None => {},
                Some(last) => {
                    assert(before[before.len() - 1] == last);
                    let same: bool = last.same(item);
                    if !same {
                        kept.push(last);
                    }
                    proof {
                        assert forall|x: T| #[trigger] all.contains(x) && x != *item implies (
                        self.items@.contains(x) || kept@.contains(x)) by {
                            if before.contains(x) {
                                let i: int = choose|i: int| 0 <= i < before.len() && before[i] == x;
                                if i < before.len() - 1 {
                                    assert(self.items@[i] == x);
                                } else {
                                    assert(kept@[kept@.len() - 1] == x);
                                }
                            } else {
                                let i: int = choose|i: int|
                                    0 <= i < kept_before.len() && kept_before[i] == x;
                                assert(kept@[i] == x);
                            }
                        }
                        assert forall|j: int| 0 <= j < self.items@.len() implies all.contains(
                            #[trigger] self.items@[j],
                        ) by {
                            assert(self.items@[j] == before[j]);
                        }
                        assert forall|j: int| 0 <= j < kept@.len() implies all.contains(
                            #[trigger] kept@[j],
                        ) && kept@[j] != *item by {
                            if j < kept_before.len() {
                                assert(kept@[j] == kept_before[j]);
                            }
                        }
                    }
                },
            }
        }
        self.items = kept;
        proof {
            assert forall|x: T| self.items@.contains(x) == (all.contains(x) && x != *item) by {
                if self.items@.contains(x) {
                    let i: int = choose|i: int|
                        0 <= i < self.items@.len() && self.items@[i] == x;
                    assert(all.contains(self.items@[i]));
                }
            }
            assert(self@ =~= old(self)@.remove(*item));
        }
        removed
    }

    pub fn clear(&mut self)
        ensures
            final(self)@ == Set::<T>::empty(),
    {
        self.items = Vec::new();
        assert(self@ =~= Set::<T>::empty());
    }

    pub fn is_empty(&self) -> (r: bool)
        ensures
            r == (self@ == Set::<T>::empty()),
    {
        proof {
            if self.items@.len() > 0 {
                assert(self.items@.contains(self.items@[0]));
                assert(self@.contains(self.items@[0]));
            } else {
                assert(self@ =~= Set::<T>::empty());
            }
        }
        self.items.len() == 0
    }
}

/// The items of a sequence.
pub open spec fn item_set<T>(items: Seq<T>) -> Set<T> {
    Set::new(|item: T| items.contains(item))
}

impl<T: Same + Copy> VecSet<T> {
    /// The set of some items.
    pub fn from_items(items: &Vec<T>) -> (set: VecSet<T>)
        ensures
            set@ == item_set(items@),
    {
        let mut set: VecSet<T> = VecSet::new();
        set.extend(items);
        assert(set@ =~= item_set(items@));
        set
    }

    /// Puts in items.
    pub fn extend(&mut self, items: &Vec<T>)
        ensures
            final(self)@ == old(self)@.union(item_set(items@)),
    {
        let mut i: usize = 0;
        let ghost start = self@;
        assert(self@ =~= start.union(item_set(items@.take(0))));
        while i < items.len()
            invariant
                i <= items@.len(),
                self@ == start.union(item_set(items@.take(i as int))),
            decreases items.len() - i,
        {
            let _ = self.insert(items[i]);
            proof {
                let here = items@.take(i as int);
                let next = items@.take(i + 1);
                assert forall|x: T| next.contains(x) == (here.contains(x) || x
                    == items@[i as int]) by {
                    if here.contains(x) {
                        let k: int = choose|k: int| 0 <= k < here.len() && here[k] == x;
                        assert(next[k] == x);
                    }
                    if x == items@[i as int] {
                        assert(next[i as int] == x);
                    }
                    if next.contains(x) && x != items@[i as int] {
                        let k: int = choose|k: int| 0 <= k < next.len() && next[k] == x;
                        assert(here[k] == x);
                    }
                }
                assert(self@ =~= start.union(item_set(next)));
            }
            i = i + 1;
        }
        assert(items@.take(i as int) =~= items@);
    }

    /// The items that are in another set, or those that are not.
    pub fn filtered(&self, other: &VecSet<T>, inside: bool) -> (r: VecSet<T>)
        ensures
            r@ == self@.filter(|item: T| other@.contains(item) == inside),
    {
        let mut r: VecSet<T> = VecSet::new();
        let mut i: usize = 0;
        let ghost keep = |item: T| other@.contains(item) == inside;
        assert(r@ =~= item_set(self.items@.take(0)).filter(keep));
        while i < self.items.len()
            invariant
                i <= self.items@.len(),
                keep == (|item: T| other@.contains(item) == inside),
                r@ == item_set(self.items@.take(i as int)).filter(keep),
            decreases self.items.len() - i,
        {
            let item = self.items[i];
            if other.contains(&item) == inside {
                let _ = r.insert(item);
            }
            proof {
                let here = self.items@.take(i as int);
                let next = self.items@.take(i + 1);
                assert forall|x: T| next.contains(x) == (here.contains(x) || x == item) by {
                    if here.contains(x) {
                        let k: int = choose|k: int| 0 <= k < here.len() && here[k] == x;
                        assert(next[k] == x);
                    }
                    if x == item {
                        assert(next[i as int] == x);
                    }
                    if next.contains(x) && x != item {
                        let k: int = choose|k: int| 0 <= k < next.len() && next[k] == x;
                        assert(here[k] == x);
                    }
                }
                assert(r@ =~= item_set(next).filter(keep));
            }
            i = i + 1;
        }
        assert(self.items@.take(i as int) =~= self.items@);
        assert(item_set(self.items@) =~= self@);
        r
    }

    /// The items, in some order, each once or more often.
    pub fn to_vec(&self) -> (r: Vec<T>)
        ensures
            forall|item: T| #[trigger] r@.contains(item) == self@.contains(item),
    {
        self.copy_items()
    }

    pub fn copy(&self) -> (r: VecSet<T>)
        ensures
            r@ == self@,
    {
        VecSet { items: self.copy_items() }
    }

    fn copy_items(&self) -> (r: Vec<T>)
        ensures
            r@ == self.items@,
    {
        let mut r: Vec<T> = Vec::new();
        let mut i: usize = 0;
        while i < self.items.len()
            invariant
                i <= self.items@.len(),
                r@ =~= self.items@.take(i as int),
            decreases self.items.len() - i,
        {
            r.push(self.items[i]);
            i = i + 1;
        }
        assert(r@ =~= self.items@);
        r
    }
}

proof fn lemma_lookup<K, V>(entries: Seq<(K, V)>, key: K)
    ensures
        lookup(entries, key) is Some <==> exists|i: int|
            0 <= i < entries.len() && (#[trigger] entries[i]).0 == key,
    decreases entries.len(),
{
    if entries.len() > 0 {
        let rest = entries.drop_first();
        lemma_lookup(rest, key);
        if lookup(entries, key) is Some {
            if entries[0].0 != key {
                let i: int = choose|i: int| 0 <= i < rest.len() && (#[trigger] rest[i]).0 == key;
                assert(entries[i + 1].0 == key);
            }
        }
        if exists|i: int| 0 <= i < entries.len() && (#[trigger] entries[i]).0 == key {
            let i: int = choose|i: int| 0 <= i < entries.len() && (#[trigger] entries[i]).0 == key;
            if i > 0 {
                assert(rest[i - 1].0 == key);
            }
        }
    }
}

proof fn lemma_lookup_at<K, V>(entries: Seq<(K, V)>, key: K, i: int)
    requires
        0 <= i < entries.len(),
        entries[i].0 == key,
        forall|j: int| 0 <= j < i ==> (#[trigger] entries[j]).0 != key,
    ensures
        lookup(entries, key) == Some(entries[i].1),
    decreases entries.len(),
{
    if i > 0 {
        let rest = entries.drop_first();
        assert(entries[0].0 != key);
        assert forall|j: int| 0 <= j < i - 1 implies (#[trigger] rest[j]).0 != key by {
            assert(rest[j] == entries[j + 1]);
        }
        lemma_lookup_at(rest, key, i - 1);
    }
}

proof fn lemma_lookup_push<K, V>(entries: Seq<(K, V)>, entry: (K, V), key: K)
    ensures
        lookup(entries.push(entry), key) == (if lookup(entries, key) is Some {
            lookup(entries, key)
        } else if entry.0 == key {
            Some(entry.1)
        } else {
            None
        }),
    decreases entries.len(),
{
    if entries.len() == 0 {
        reveal_with_fuel(lookup, 2);
        assert(entries.push(entry).drop_first() =~= Seq::empty());
    } else {
        assert(entries.push(entry).drop_first() =~= entries.drop_first().push(entry));
        assert(entries.push(entry).first() == entries.first());
        lemma_lookup_push(entries.drop_first(), entry, key);
    }
}

/// Leaving out what is stored under a key leaves the other keys alone.
proof fn lemma_lookup_remove<K, V>(entries: Seq<(K, V)>, i: int, key: K)
    requires
        0 <= i < entries.len(),
        entries[i].0 != key,
    ensures
        lookup(entries.remove(i), key) == lookup(entries, key),
    decreases entries.len(),
{
    if i == 0 {
        assert(entries.remove(0) =~= entries.drop_first());
    } else {
        let rest = entries.drop_first();
        assert(entries.remove(i).drop_first() =~= rest.remove(i - 1));
        assert(entries.remove(i).first() == entries.first());
        lemma_lookup_remove(rest, i - 1, key);
    }
}

impl<K: Same + Copy, V> VecMap<K, V> {
    /// The keys, each once.
    pub fn keys(&self) -> (r: Vec<K>)
        requires
            self.wf(),
        ensures
            forall|key: K| #[trigger] r@.contains(key) == self@.contains_key(key),
            r@.no_duplicates(),
    {
        let mut r: Vec<K> = Vec::new();
        let mut i: usize = 0;
        while i < self.entries.len()
            invariant
                i <= self.entries@.len(),
                r@.len() == i,
                forall|j: int| 0 <= j < i ==> #[trigger] r@[j] == self.entries@[j].0,
            decreases self.entries.len() - i,
        {
            r.push(self.entries[i].0);
            i = i + 1;
        }
        proof {
            assert forall|key: K| #[trigger] r@.contains(key) == self@.contains_key(key) by {
                lemma_lookup(self.entries@, key);
                if r@.contains(key) {
                    let j: int = choose|j: int| 0 <= j < r@.len() && r@[j] == key;
                    assert(self.entries@[j].0 == key);
                }
                if self@.contains_key(key) {
                    let j: int = choose|j: int|
                        0 <= j < self.entries@.len() && (#[trigger] self.entries@[j]).0 == key;
                    assert(r@[j] == key);
                }
            }
            assert forall|a: int, b: int| 0 <= a < r@.len() && 0 <= b < r@.len() && a
                != b implies r@[a] != r@[b] by {
                assert(r@[a] == self.entries@[a].0 && r@[b] == self.entries@[b].0);
                if a < b {
                    assert(self.entries@[a].0 != self.entries@[b].0);
                } else {
                    assert(self.entries@[b].0 != self.entries@[a].0);
                }
            }
        }
        r
    }
}

impl<K: Same, V> VecMap<K, V> {
    /// No key is stored twice.
    pub closed spec fn wf(&self) -> bool {
        forall|i: int, j: int|
            #![trigger self.entries@[i], self.entries@[j]]
            0 <= i < j < self.entries@.len() ==> self.entries@[i].0 != self.entries@[j].0
    }

    pub fn new() -> (map: VecMap<K, V>)
        ensures
            map.wf(),
            map@ == Map::<K, V>::empty(),
    {
        let map = VecMap { entries: Vec::new() };
        assert(map@ =~= Map::<K, V>::empty());
        map
    }

    fn find(&self, key: &K) -> (r: Option<usize>)
        ensures
            match r {
                Some(i) => i < self.entries@.len() && self.entries@[i as int].0 == *key && lookup(
                    self.entries@,
                    *key,
                ) == Some(self.entries@[i as int].1),
                None => lookup(self.entries@, *key) is None && forall|j: int|
                    0 <= j < self.entries@.len() ==> (#[trigger] self.entries@[j]).0 != *key,
            },
    {
        let mut i: usize = 0;
        while i < self.entries.len()
            invariant
                i <= self.entries@.len(),
                forall|j: int| 0 <= j < i ==> (#[trigger] self.entries@[j]).0 != *key,
            decreases self.entries.len() - i,
        {
            if self.entries[i].0.same(key) {
                proof {
                    lemma_lookup_at(self.entries@, *key, i as int);
                }
                return Some(i);
            }
            i = i + 1;
        }
        proof {
            lemma_lookup(self.entries@, *key);
        }
        None
    }

    pub fn contains_key(&self, key: &K) -> (r: bool)
        ensures
            r == self@.contains_key(*key),
    {
        self.find(key).is_some()
    }

    pub fn get(&self, key: &K) -> (r: Option<&V>)
        ensures
            match r {
                Some(value) => self@.contains_key(*key) && *value == self@[*key],
                None => !self@.contains_key(*key),
            },
    {
        match self.find(key) {
            Some(i) => Some(&self.entries[i].1),
            None => None,
        }
    }

    /// Takes out what is stored under a key.
    pub fn remove(&mut self, key: &K) -> (r: Option<V>)
        requires
            old(self).wf(),
        ensures
            final(self).wf(),
            final(self)@ == old(self)@.remove(*key),
            r == (if old(self)@.contains_key(*key) {
                Some(old(self)@[*key])
            } else {
                None::<V>
            }),
    {
        match self.find(key) {
            None => {
                assert(self@ =~= self@.remove(*key));
                None
            },
            Some(i) => {
                let ghost before = self.entries@;
                let (_key, value) = self.entries.remove(i);
                proof {
                    let now = self.entries@;
                    assert forall|k: K| k != *key implies lookup(now, k) == lookup(before, k) by {
                        lemma_lookup_remove(before, i as int, k);
                    }
                    assert forall|a: int| 0 <= a < now.len() implies now[a].0 != *key by {
                        let a0: int = if a < i {
                            a
                        } else {
                            a + 1
                        };
                        assert(now[a] == before[a0]);
                        assert(before[i as int].0 == *key);
                        if a0 < i {
                            assert(before[a0].0 != before[i as int].0);
                        } else {
                            assert(before[i as int].0 != before[a0].0);
                        }
                    }
                    lemma_lookup(now, *key);
                    assert forall|a: int, b: int|
                        #![trigger now[a], now[b]]
                        0 <= a < b < now.len() implies now[a].0 != now[b].0 by {
                        let a0: int = if a < i {
                            a
                        } else {
                            a + 1
                        };
                        let b0: int = if b < i {
                            b
                        } else {
                            b + 1
                        };
                        assert(now[a] == before[a0] && now[b] == before[b0]);
                    }
                    assert(self@ =~= old(self)@.remove(*key));
                }
                Some(value)
            },
        }
    }

    /// Stores a value under a key in place of the one before.
    pub fn insert(&mut self, key: K, value: V) -> (r: Option<V>)
        requires
            old(self).wf(),
        ensures
            final(self).wf(),
            final(self)@ == old(self)@.insert(key, value),
            r == (if old(self)@.contains_key(key) {
                Some(old(self)@[key])
            } else {
                None::<V>
            }),
    {
        let replaced = self.remove(&key);
        let ghost before = self.entries@;
        let ghost map = self@;
        proof {
            assert(!map.contains_key(key));
            lemma_lookup(before, key);
        }
        self.entries.push((key, value));
        proof {
            let now = self.entries@;
            assert forall|k: K| #[trigger]
                lookup(now, k) == (if k == key {
                    Some(value)
                } else {
                    lookup(before, k)
                }) by {
                lemma_lookup_push(before, (key, value), k);
            }
            assert forall|a: int, b: int|
                #![trigger now[a], now[b]]
                0 <= a < b < now.len() implies now[a].0 != now[b].0 by {
                assert(now[a] == before[a]);
                if b < before.len() {
                    assert(now[b] == before[b]);
                }
            }
            assert(self@ =~= map.insert(key, value));
            assert(self@ =~= old(self)@.insert(key, value));
        }
        replaced
    }

    pub fn clear(&mut self)
        ensures
            final(self).wf(),
            final(self)@ == Map::<K, V>::empty(),
    {
        self.entries = Vec::new();
        assert(self@ =~= Map::<K, V>::empty());
    }
}

} // verus!
