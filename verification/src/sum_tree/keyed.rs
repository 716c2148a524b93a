//! Trees whose items have keys.

use vstd::multiset::Multiset;
use vstd::prelude::*;
use crate::sum_tree::dimension::{Item, Key, KeyedItem, Summary};
use crate::sum_tree::tree::SumTree;

verus! {

/// Whether the keys of some items increase.
pub open spec fn sorted<T: KeyedItem>(items: Seq<T>) -> bool {
    forall|i: int, j: int|
        #![trigger items[i], items[j]]
        0 <= i < j < items.len() ==> items[i].key_spec().before(&items[j].key_spec())
}

/// Whether the keys of some items never decrease.
pub open spec fn weakly_sorted<T: KeyedItem>(items: Seq<T>) -> bool {
    forall|i: int, j: int|
        #![trigger items[i], items[j]]
        0 <= i < j < items.len() ==> !items[j].key_spec().before(&items[i].key_spec())
}

/// The first place at which an item does not come before a key.
pub open spec fn position<T: KeyedItem>(items: Seq<T>, key: T::Key) -> int
    decreases items.len(),
{
    if items.len() == 0 {
        0
    } else if items.first().key_spec().before(&key) {
        1 + position(items.drop_first(), key)
    } else {
        0
    }
}

/// Whether an item with a key stands at the place that the key has.
pub open spec fn present<T: KeyedItem>(items: Seq<T>, key: T::Key) -> bool {
    position(items, key) < items.len() && items[position(items, key)].key_spec() == key
}

proof fn lemma_position<T: KeyedItem>(items: Seq<T>, key: T::Key, p: int)
    requires
        0 <= p <= items.len(),
        forall|i: int| 0 <= i < p ==> (#[trigger] items[i]).key_spec().before(&key),
        p < items.len() ==> !items[p].key_spec().before(&key),
    ensures
        position(items, key) == p,
    decreases items.len(),
{
    if p > 0 {
        assert(items[0].key_spec().before(&key));
        let rest = items.drop_first();
        assert forall|i: int| 0 <= i < p - 1 implies (#[trigger] rest[i]).key_spec().before(
            &key,
        ) by {
            assert(rest[i] == items[i + 1]);
        }
        if p < items.len() {
            assert(rest[p - 1] == items[p]);
        }
        lemma_position(rest, key, p - 1);
    }
}

/// Whether two keys are the same.
fn same_key<K: Key>(a: &K, b: &K) -> (r: bool)
    ensures
        r == (*a == *b),
{
    proof {
        K::before_is_total(*a, *b);
    }
    !a.is_before(b) && !b.is_before(a)
}

/// The first place at which an item does not come before a key.
fn lower_bound<T: KeyedItem>(items: &Vec<T>, key: &T::Key) -> (p: usize)
    ensures
        p == position(items@, *key),
        p <= items@.len(),
        forall|i: int| 0 <= i < p ==> (#[trigger] items@[i]).key_spec().before(key),
        p < items@.len() ==> !items@[p as int].key_spec().before(key),
{
    let mut p: usize = 0;
    while p < items.len()
        invariant_except_break
            p <= items@.len(),
            forall|i: int| 0 <= i < p ==> (#[trigger] items@[i]).key_spec().before(key),
        ensures
            p <= items@.len(),
            forall|i: int| 0 <= i < p ==> (#[trigger] items@[i]).key_spec().before(key),
            p < items@.len() ==> !items@[p as int].key_spec().before(key),
        decreases items.len() - p,
    {
        if !items[p].key().is_before(key) {
            break;
        }
        p = p + 1;
    }
    proof {
        lemma_position(items@, *key, p as int);
    }
    p
}

/// Putting an item at the place of its key keeps the keys increasing.
proof fn lemma_place<T: KeyedItem>(items: Seq<T>, item: T, p: int)
    requires
        sorted(items),
        0 <= p <= items.len(),
        forall|i: int| 0 <= i < p ==> (#[trigger] items[i]).key_spec().before(&item.key_spec()),
        p < items.len() ==> !items[p].key_spec().before(&item.key_spec()),
    ensures
        p < items.len() && items[p].key_spec() == item.key_spec() ==> sorted(items.update(p, item)),
        p == items.len() || items[p].key_spec() != item.key_spec() ==> sorted(
            items.insert(p, item),
        ),
{
    let key = item.key_spec();
    if p < items.len() && items[p].key_spec() == key {
        let r = items.update(p, item);
        assert forall|i: int, j: int|
            #![trigger r[i], r[j]]
            0 <= i < j < r.len() implies r[i].key_spec().before(&r[j].key_spec()) by {
            assert(items[i].key_spec().before(&items[j].key_spec()));
        }
    } else {
        let r = items.insert(p, item);
        assert forall|i: int, j: int|
            #![trigger r[i], r[j]]
            0 <= i < j < r.len() implies r[i].key_spec().before(&r[j].key_spec()) by {
            if j < p {
                assert(r[i] == items[i] && r[j] == items[j]);
            } else if j == p {
                assert(r[i] == items[i]);
            } else {
                assert(r[j] == items[j - 1]);
                if i < p {
                    assert(r[i] == items[i]);
                } else if i > p {
                    assert(r[i] == items[i - 1]);
                } else {
                    T::Key::before_is_total(items[p].key_spec(), key);
                    if j - 1 > p {
                        assert(items[p].key_spec().before(&items[j - 1].key_spec()));
                        T::Key::before_is_transitive(
                            key,
                            items[p].key_spec(),
                            items[j - 1].key_spec(),
                        );
                    }
                }
            }
        }
    }
}

/// A change to the items of a tree.
pub enum Edit<T: KeyedItem> {
    /// Puts in an item in place of those with its key.
    Insert(T),
    /// Takes out the items with a key.
    Remove(T::Key),
}

impl<T: KeyedItem> Edit<T> {
    /// The key that the edit is about.
    pub open spec fn key(&self) -> T::Key {
        match self {
            Edit::Insert(item) => item.key_spec(),
            Edit::Remove(key) => *key,
        }
    }

    /// Whether the edit is about a key.
    fn is_about(&self, key: &T::Key) -> (r: bool)
        ensures
            r == (self.key() == *key),
    {
        match self {
            Edit::Insert(item) => same_key(&item.key(), key),
            Edit::Remove(own_key) => same_key(own_key, key),
        }
    }
}

/// Whether some edit is about the key of an item.
pub open spec fn edited<T: KeyedItem>(edits: Seq<Edit<T>>, item: T) -> bool {
    exists|i: int| 0 <= i < edits.len() && (#[trigger] edits[i]).key() == item.key_spec()
}

/// The items whose keys some edit is about (`hit`), or the others.
pub open spec fn touched<T: KeyedItem>(items: Seq<T>, edits: Seq<Edit<T>>, hit: bool) -> Seq<T>
    decreases items.len(),
{
    if items.len() == 0 {
        Seq::empty()
    } else {
        let rest = touched(items.drop_last(), edits, hit);
        if edited(edits, items.last()) == hit {
            rest.push(items.last())
        } else {
            rest
        }
    }
}

/// The items that some edits put in.
pub open spec fn inserted<T: KeyedItem>(edits: Seq<Edit<T>>) -> Multiset<T>
    decreases edits.len(),
{
    if edits.len() == 0 {
        Multiset::empty()
    } else {
        match edits.last() {
            Edit::Insert(item) => inserted(edits.drop_last()).insert(item),
            Edit::Remove(_) => inserted(edits.drop_last()),
        }
    }
}

proof fn lemma_touched_member<T: KeyedItem>(
    items: Seq<T>,
    edits: Seq<Edit<T>>,
    hit: bool,
    k: int,
) -> (m: int)
    requires
        0 <= k < touched(items, edits, hit).len(),
    ensures
        0 <= m < items.len(),
        items[m] == touched(items, edits, hit)[k],
        k < touched(items.take(m + 1), edits, hit).len(),
    decreases items.len(),
{
    let init = items.drop_last();
    let rest = touched(init, edits, hit);
    if k < rest.len() {
        let m: int = lemma_touched_member(init, edits, hit, k);
        assert(init.take(m + 1) =~= items.take(m + 1));
        m
    } else {
        assert(items.take(items.len() as int) =~= items);
        items.len() - 1
    }
}

/// What is left of items with increasing keys has increasing keys.
proof fn lemma_touched_sorted<T: KeyedItem>(items: Seq<T>, edits: Seq<Edit<T>>, hit: bool)
    requires
        sorted(items),
    ensures
        sorted(touched(items, edits, hit)),
    decreases items.len(),
{
    if items.len() > 0 {
        let init = items.drop_last();
        assert forall|i: int, j: int|
            #![trigger init[i], init[j]]
            0 <= i < j < init.len() implies init[i].key_spec().before(&init[j].key_spec()) by {
            assert(init[i] == items[i] && init[j] == items[j]);
        }
        lemma_touched_sorted(init, edits, hit);
        let rest = touched(init, edits, hit);
        let all = touched(items, edits, hit);
        assert forall|i: int, j: int|
            #![trigger all[i], all[j]]
            0 <= i < j < all.len() implies all[i].key_spec().before(&all[j].key_spec()) by {
            if j < rest.len() {
                assert(all[i] == rest[i] && all[j] == rest[j]);
            } else {
                let m: int = lemma_touched_member(init, edits, hit, i);
                assert(all[i] == rest[i]);
                assert(items[m] == init[m]);
                assert(items[m].key_spec().before(&items[items.len() - 1].key_spec()));
            }
        }
    }
}

/// Puts an item behind those whose keys do not come after its own.
fn insert_sorted<T: KeyedItem>(items: &mut Vec<T>, item: T)
    requires
        weakly_sorted(old(items)@),
    ensures
        weakly_sorted(final(items)@),
        final(items)@.to_multiset() == old(items)@.to_multiset().insert(item),
{
    let ghost start = items@;
    let key = item.key();
    let mut p: usize = items.len();
    while p > 0
        invariant_except_break
            p <= items@.len(),
            items@ == start,
            key == item.key_spec(),
            forall|i: int| p <= i < start.len() ==> key.before(&(#[trigger] start[i]).key_spec()),
        ensures
            p <= items@.len(),
            items@ == start,
            key == item.key_spec(),
            forall|i: int| p <= i < start.len() ==> key.before(&(#[trigger] start[i]).key_spec()),
            p > 0 ==> !key.before(&start[p - 1].key_spec()),
        decreases p,
    {
        if !key.is_before(&items[p - 1].key()) {
            break;
        }
        p = p - 1;
    }
    items.insert(p, item);
    proof {
        let r = items@;
        assert forall|i: int, j: int|
            #![trigger r[i], r[j]]
            0 <= i < j < r.len() implies !r[j].key_spec().before(&r[i].key_spec()) by {
            if j < p {
                assert(r[i] == start[i] && r[j] == start[j]);
            } else if j > p && i < p {
                assert(r[i] == start[i] && r[j] == start[j - 1]);
            } else if j > p && i > p {
                assert(r[i] == start[i - 1] && r[j] == start[j - 1]);
            } else if j == p {
                assert(r[i] == start[i]);
                // key does not come before start[p - 1], which does not come before start[i].
                if key.before(&start[i].key_spec()) {
                    let a = start[i].key_spec();
                    let b = start[p - 1].key_spec();
                    T::Key::before_is_total(a, b);
                    if i < p - 1 {
                        assert(!start[p - 1].key_spec().before(&start[i].key_spec()));
                        if a.before(&b) {
                            T::Key::before_is_transitive(key, a, b);
                        }
                    }
                }
            } else {
                // i == p: key comes before start[j - 1].
                assert(r[j] == start[j - 1]);
                let b = start[j - 1].key_spec();
                if b.before(&key) {
                    T::Key::before_is_transitive(key, b, key);
                    T::Key::before_is_total(key, key);
                }
            }
        }
        let head = start.take(p as int);
        let tail = start.skip(p as int);
        assert(r =~= head.push(item) + tail);
        assert(start =~= head + tail);
        vstd::seq_lib::lemma_multiset_commutative(head.push(item), tail);
        vstd::seq_lib::lemma_multiset_commutative(head, tail);
        vstd::seq_lib::to_multiset_build(head, item);
        assert(r.to_multiset() =~= start.to_multiset().insert(item));
    }
}

/// The items for which a test holds, where `keep` is what it said of each.
pub open spec fn kept<T>(items: Seq<T>, keep: Seq<bool>) -> Seq<T>
    decreases items.len(),
{
    if items.len() == 0 {
        Seq::empty()
    } else {
        let rest = kept(items.drop_last(), keep);
        if keep[items.len() - 1] {
            rest.push(items.last())
        } else {
            rest
        }
    }
}

proof fn lemma_kept_prefix<T>(items: Seq<T>, a: Seq<bool>, b: Seq<bool>)
    requires
        forall|i: int| 0 <= i < items.len() ==> #[trigger] a[i] == b[i],
    ensures
        kept(items, a) == kept(items, b),
    decreases items.len(),
{
    if items.len() > 0 {
        lemma_kept_prefix(items.drop_last(), a, b);
        assert(a[items.len() - 1] == b[items.len() - 1]);
    }
}

impl<T: KeyedItem> SumTree<T> {
    /// Puts in an item at the place of its key, and hands back the item that had
    /// the key before.
    pub fn insert_or_replace(
        &mut self,
        item: T,
        cx: &<T::Summary as Summary>::Context,
    ) -> (replaced: Option<T>)
        requires
            old(self).wf(cx),
            sorted(old(self)@),
        ensures
            final(self).wf(cx),
            sorted(final(self)@),
            final(self).height() <= 64,
            final(self)@ == with_item(old(self)@, item),
            replaced == (if present(old(self)@, item.key_spec()) {
                Some(old(self)@[position(old(self)@, item.key_spec())])
            } else {
                None::<T>
            }),
    {
        proof {
            self.lemma_wf(cx);
        }
        let mut items: Vec<T> = self.items(cx);
        let key = item.key();
        let p: usize = lower_bound(&items, &key);
        proof {
            lemma_place(items@, item, p as int);
        }
        if p < items.len() && same_key(&items[p].key(), &key) {
            let ghost start = items@;
            let replaced = items.remove(p);
            items.insert(p, item);
            assert(items@ =~= start.update(p as int, item));
            *self = SumTree::from_iter(items, cx);
            Some(replaced)
        } else {
            items.insert(p, item);
            *self = SumTree::from_iter(items, cx);
            None
        }
    }

    /// Takes out the item with a key.
    pub fn remove(
        &mut self,
        key: &T::Key,
        cx: &<T::Summary as Summary>::Context,
    ) -> (removed: Option<T>)
        requires
            old(self).wf(cx),
            sorted(old(self)@),
        ensures
            final(self).wf(cx),
            sorted(final(self)@),
            final(self)@ == without_key(old(self)@, *key),
            removed == (if present(old(self)@, *key) {
                Some(old(self)@[position(old(self)@, *key)])
            } else {
                None::<T>
            }),
    {
        proof {
            self.lemma_wf(cx);
        }
        let mut items: Vec<T> = self.items(cx);
        let p: usize = lower_bound(&items, key);
        if p < items.len() && same_key(&items[p].key(), key) {
            let ghost start = items@;
            let removed = items.remove(p);
            proof {
                let r = items@;
                assert forall|i: int, j: int|
                    #![trigger r[i], r[j]]
                    0 <= i < j < r.len() implies r[i].key_spec().before(&r[j].key_spec()) by {
                    let i0: int = if i < p {
                        i
                    } else {
                        i + 1
                    };
                    let j0: int = if j < p {
                        j
                    } else {
                        j + 1
                    };
                    assert(r[i] == start[i0] && r[j] == start[j0]);
                }
            }
            *self = SumTree::from_iter(items, cx);
            Some(removed)
        } else {
            None
        }
    }

    /// Applies some edits, in any order, and hands back the items whose keys they
    /// are about.
    pub fn edit(
        &mut self,
        edits: Vec<Edit<T>>,
        cx: &<T::Summary as Summary>::Context,
    ) -> (removed: Vec<T>)
        requires
            old(self).wf(cx),
            sorted(old(self)@),
        ensures
            final(self).wf(cx),
            weakly_sorted(final(self)@),
            removed@ == touched(old(self)@, edits@, true),
            final(self)@.to_multiset() == touched(old(self)@, edits@, false).to_multiset().add(
                inserted(edits@),
            ),
            edits@.len() == 0 ==> final(self)@ == old(self)@,
    {
        let ghost all = self@;
        proof {
            self.lemma_wf(cx);
        }
        if edits.len() == 0 {
            proof {
                lemma_untouched(all, edits@);
                lemma_sorted_weakly(all);
                assert(inserted(edits@) =~= Multiset::empty());
                assert(all.to_multiset() =~= all.to_multiset().add(Multiset::empty()));
            }
            return Vec::new();
        }
        let ghost all_edits = edits@;
        let items: Vec<T> = self.items(cx);
        let mut rest: Vec<T> = Vec::new();
        let mut removed: Vec<T> = Vec::new();
        let mut i: usize = 0;
        assert(items@.take(0) =~= Seq::empty());
        while i < items.len()
            invariant
                i <= items@.len(),
                edits@ == all_edits,
                rest@ == touched(items@.take(i as int), all_edits, false),
                removed@ == touched(items@.take(i as int), all_edits, true),
            decreases items.len() - i,
        {
            let key = items[i].key();
            let mut hit: bool = false;
            let mut e: usize = 0;
            while e < edits.len()
                invariant
                    e <= edits@.len(),
                    key == items@[i as int].key_spec(),
                    hit == exists|j: int| 0 <= j < e && (#[trigger] edits@[j]).key() == key,
                decreases edits.len() - e,
            {
                if edits[e].is_about(&key) {
                    hit = true;
                }
                e = e + 1;
            }
            let copy = items[i].clone();
            proof {
                T::clone_is_equal(items@[i as int], copy);
                let next = items@.take(i + 1);
                assert(next.drop_last() =~= items@.take(i as int));
                assert(next.last() == items@[i as int]);
                assert(hit == edited(all_edits, next.last()));
            }
            if hit {
                removed.push(copy);
            } else {
                rest.push(copy);
            }
            i = i + 1;
        }
        assert(items@.take(i as int) =~= all);
        let ghost base = rest@.to_multiset();
        proof {
            lemma_touched_sorted(all, all_edits, false);
            lemma_sorted_weakly(rest@);
            assert(base =~= base.add(Multiset::empty()));
        }
        let mut edits = edits;
        let ghost mut put: Multiset<T> = Multiset::empty();
        while edits.len() > 0
            invariant
                weakly_sorted(rest@),
                rest@.to_multiset() == base.add(put),
                inserted(edits@).add(put) == inserted(all_edits),
            decreases edits.len(),
        {
            let ghost before = edits@;
            match edits.pop() {
                None => {},
                Some(edit) => {
                    assert(before.drop_last() =~= edits@);
                    assert(before.last() == edit);
                    match edit {
                        Edit::Insert(item) => {
                            insert_sorted(&mut rest, item);
                            proof {
                                assert(base.add(put).insert(item) =~= base.add(put.insert(item)));
                                put = put.insert(item);
                                assert(inserted(edits@).add(put) =~= inserted(all_edits));
                            }
                        },
                        Edit::Remove(_) => {},
                    }
                },
            }
        }
        proof {
            assert(inserted(edits@) =~= Multiset::empty());
            assert(put =~= inserted(all_edits));
        }
        *self = SumTree::from_iter(rest, cx);
        removed
    }

    /// The item with a key.
    pub fn get(&self, key: &T::Key, cx: &<T::Summary as Summary>::Context) -> (r: Option<&T>)
        requires
            self.wf(cx),
        ensures
            match r {
                Some(item) => present(self@, *key) && *item == self@[position(self@, *key)],
                None => !present(self@, *key),
            },
    {
        proof {
            self.lemma_wf(cx);
        }
        match self.seek(key) {
            None => {
                proof {
                    lemma_position(self@, *key, self@.len() as int);
                }
                None
            },
            Some(item) => {
                proof {
                    let p: int = choose|p: int|
                        #![trigger self@[p]]
                        0 <= p < self@.len() && self@[p] == *item && !item.key_spec().before(key)
                            && forall|j: int|
                            0 <= j < p ==> (#[trigger] self@[j]).key_spec().before(key);
                    lemma_position(self@, *key, p);
                }
                if same_key(&item.key(), key) {
                    Some(item)
                } else {
                    None
                }
            },
        }
    }

    /// Whether the tree has an item with a key.
    pub fn contains(&self, key: &T::Key, cx: &<T::Summary as Summary>::Context) -> (r: bool)
        requires
            self.wf(cx),
        ensures
            r == present(self@, *key),
    {
        self.get(key, cx).is_some()
    }

    /// Replaces the item with a key by what `f` makes of it, and hands back what
    /// else `f` gives.
    pub fn update<R, F: FnOnce(&T) -> (T, R)>(
        &mut self,
        key: &T::Key,
        cx: &<T::Summary as Summary>::Context,
        f: F,
    ) -> (r: Option<R>)
        requires
            old(self).wf(cx),
            present(old(self)@, *key) ==> call_requires(
                f,
                (&old(self)@[position(old(self)@, *key)],),
            ),
        ensures
            final(self).wf(cx),
            ({
                let items = old(self)@;
                let p = position(items, *key);
                if present(items, *key) {
                    r is Some && exists|item: T| #[trigger]
                        call_ensures(f, (&items[p],), (item, r->0)) && final(self)@
                            == items.update(p, item)
                } else {
                    r is None && final(self)@ == items
                }
            }),
    {
        proof {
            self.lemma_wf(cx);
        }
        let mut items: Vec<T> = self.items(cx);
        let p: usize = lower_bound(&items, key);
        if p < items.len() && same_key(&items[p].key(), key) {
            let ghost start = items@;
            let (item, result) = f(&items[p]);
            assert(call_ensures(f, (&start[p as int],), (item, result)));
            let _old = items.remove(p);
            items.insert(p, item);
            assert(items@ =~= start.update(p as int, item));
            *self = SumTree::from_iter(items, cx);
            let r = Some(result);
            assert(call_ensures(f, (&start[position(start, *key)],), (item, r->0)));
            r
        } else {
            None
        }
    }

    /// Keeps the items for which a test holds.
    pub fn retain<F: Fn(&T) -> bool>(
        &mut self,
        cx: &<T::Summary as Summary>::Context,
        predicate: F,
    )
        requires
            old(self).wf(cx),
            forall|i: int|
                0 <= i < old(self)@.len() ==> call_requires(predicate, (&#[trigger] old(self)@[i],)),
        ensures
            final(self).wf(cx),
            exists|keep: Seq<bool>|
                {
                    &&& keep.len() == old(self)@.len()
                    &&& forall|i: int|
                        0 <= i < keep.len() ==> call_ensures(
                            predicate,
                            (&old(self)@[i],),
                            #[trigger] keep[i],
                        )
                    &&& final(self)@ == #[trigger] kept(old(self)@, keep)
                },
    {
        proof {
            self.lemma_wf(cx);
        }
        let items: Vec<T> = self.items(cx);
        let mut rest: Vec<T> = Vec::new();
        let ghost mut keep: Seq<bool> = Seq::empty();
        let mut i: usize = 0;
        assert(items@.take(0) =~= Seq::empty());
        while i < items.len()
            invariant
                i <= items@.len(),
                keep.len() == i,
                rest@ == kept(items@.take(i as int), keep),
                forall|j: int|
                    0 <= j < items@.len() ==> call_requires(predicate, (&#[trigger] items@[j],)),
                forall|j: int|
                    0 <= j < i ==> call_ensures(predicate, (&items@[j],), #[trigger] keep[j]),
            decreases items.len() - i,
        {
            let hit: bool = predicate(&items[i]);
            let copy = items[i].clone();
            proof {
                T::clone_is_equal(items@[i as int], copy);
                let next = items@.take(i + 1);
                assert(next.drop_last() =~= items@.take(i as int));
                assert(next.last() == items@[i as int]);
                lemma_kept_prefix(items@.take(i as int), keep, keep.push(hit));
                keep = keep.push(hit);
            }
            if hit {
                rest.push(copy);
            }
            i = i + 1;
        }
        assert(items@.take(i as int) =~= items@);
        *self = SumTree::from_iter(rest, cx);
    }
}

proof fn lemma_untouched<T: KeyedItem>(items: Seq<T>, edits: Seq<Edit<T>>)
    requires
        edits.len() == 0,
    ensures
        touched(items, edits, false) == items,
        touched(items, edits, true) == Seq::<T>::empty(),
    decreases items.len(),
{
    if items.len() > 0 {
        lemma_untouched(items.drop_last(), edits);
        assert(!edited(edits, items.last()));
        assert(items.drop_last().push(items.last()) =~= items);
    }
}

proof fn lemma_sorted_weakly<T: KeyedItem>(items: Seq<T>)
    requires
        sorted(items),
    ensures
        weakly_sorted(items),
{
    assert forall|i: int, j: int|
        #![trigger items[i], items[j]]
        0 <= i < j < items.len() implies !items[j].key_spec().before(&items[i].key_spec()) by {
        let a = items[i].key_spec();
        let b = items[j].key_spec();
        if b.before(&a) {
            T::Key::before_is_transitive(a, b, a);
            T::Key::before_is_total(a, a);
        }
    }
}

/// The place of a key tells what comes before it.
proof fn lemma_position_bounds<T: KeyedItem>(items: Seq<T>, key: T::Key)
    ensures
        0 <= position(items, key) <= items.len(),
        forall|i: int| 0 <= i < position(items, key) ==> (#[trigger] items[i]).key_spec().before(
            &key,
        ),
        position(items, key) < items.len() ==> !items[position(items, key)].key_spec().before(&key),
    decreases items.len(),
{
    if items.len() > 0 && items.first().key_spec().before(&key) {
        let rest = items.drop_first();
        lemma_position_bounds(rest, key);
        assert forall|i: int| 0 <= i < position(items, key) implies (
        #[trigger] items[i]).key_spec().before(&key) by {
            if i > 0 {
                assert(items[i] == rest[i - 1]);
            }
        }
        let p: int = position(items, key);
        if p < items.len() {
            assert(items[p] == rest[p - 1]);
        }
    }
}

/// The items after an item has been put in.
pub open spec fn with_item<T: KeyedItem>(items: Seq<T>, item: T) -> Seq<T> {
    let p = position(items, item.key_spec());
    if present(items, item.key_spec()) {
        items.update(p, item)
    } else {
        items.insert(p, item)
    }
}

/// The items after the item with a key has been taken out.
pub open spec fn without_key<T: KeyedItem>(items: Seq<T>, key: T::Key) -> Seq<T> {
    if present(items, key) {
        items.remove(position(items, key))
    } else {
        items
    }
}

/// An item that has been put in is found by its key.
pub proof fn law_inserted_is_found<T: KeyedItem>(items: Seq<T>, item: T)
    requires
        sorted(items),
    ensures
        present(with_item(items, item), item.key_spec()),
        with_item(items, item)[position(with_item(items, item), item.key_spec())] == item,
        sorted(with_item(items, item)),
{
    let key = item.key_spec();
    let p: int = position(items, key);
    let r = with_item(items, item);
    lemma_position_bounds(items, key);
    lemma_place(items, item, p);
    T::Key::before_is_total(key, key);
    assert forall|i: int| 0 <= i < p implies (#[trigger] r[i]).key_spec().before(&key) by {
        assert(r[i] == items[i]);
    }
    lemma_position(r, key, p);
}

/// Taking out what was put in under a new key gives back the items.
pub proof fn law_remove_undoes_insert<T: KeyedItem>(items: Seq<T>, item: T)
    requires
        sorted(items),
        !present(items, item.key_spec()),
    ensures
        without_key(with_item(items, item), item.key_spec()) == items,
{
    let key = item.key_spec();
    let p: int = position(items, key);
    let r = with_item(items, item);
    law_inserted_is_found(items, item);
    lemma_position_bounds(items, key);
    assert forall|i: int| 0 <= i < p implies (#[trigger] r[i]).key_spec().before(&key) by {
        assert(r[i] == items[i]);
    }
    T::Key::before_is_total(key, key);
    lemma_position(r, key, p);
    assert(r.remove(p) =~= items);
}

/// A key that has been taken out is not found.
pub proof fn law_removed_is_gone<T: KeyedItem>(items: Seq<T>, key: T::Key)
    requires
        sorted(items),
    ensures
        !present(without_key(items, key), key),
{
    let p: int = position(items, key);
    lemma_position_bounds(items, key);
    if present(items, key) {
        let r = items.remove(p);
        assert forall|i: int| 0 <= i < p implies (#[trigger] r[i]).key_spec().before(&key) by {
            assert(r[i] == items[i]);
        }
        if p < r.len() {
            assert(r[p] == items[p + 1]);
            assert(items[p].key_spec().before(&items[p + 1].key_spec()));
            T::Key::before_is_total(key, key);
            if r[p].key_spec().before(&key) {
                T::Key::before_is_transitive(key, r[p].key_spec(), key);
            }
        }
        lemma_position(r, key, p);
    }
}

/// Whether an edit of a list puts in or takes out what has a key.
pub open spec fn names_key<T: KeyedItem>(edit: Edit<T>, key: T::Key) -> bool {
    match edit {
        Edit::Insert(item) => item.key_spec() == key,
        Edit::Remove(gone) => gone == key,
    }
}

proof fn lemma_present<T: KeyedItem>(items: Seq<T>, key: T::Key, i: int)
    requires
        sorted(items),
        0 <= i < items.len(),
        items[i].key_spec() == key,
    ensures
        position(items, key) == i,
{
    T::Key::before_is_total(key, key);
    assert forall|j: int| 0 <= j < i implies (#[trigger] items[j]).key_spec().before(&key) by {
        assert(items[j].key_spec().before(&items[i].key_spec()));
    }
    lemma_position(items, key, i);
}

/// An item is found by its key, and where no item has a key nothing is.
pub proof fn law_items_are_found_by_their_keys<T: KeyedItem>(
    tree: SumTree<T>,
    key: T::Key,
    cx: &<T::Summary as Summary>::Context,
    r: Option<&T>,
    has: bool,
    i: int,
)
    requires
        sorted(tree@),
        call_ensures(SumTree::<T>::get, (&tree, &key, cx), r),
        call_ensures(SumTree::<T>::contains, (&tree, &key, cx), has),
        0 <= i < tree@.len(),
    ensures
        tree@[i].key_spec() == key ==> has && r == Some(&tree@[i]),
        has == (r is Some),
        r is Some ==> r->0.key_spec() == key && tree@.contains(*r->0),
{
    if tree@[i].key_spec() == key {
        lemma_present(tree@, key, i);
    }
    lemma_position_bounds(tree@, key);
    if r is Some {
        assert(tree@[position(tree@, key)] == *r->0);
    }
}

/// An item that is put in takes the place of the one with its key, which is handed back, or
/// else comes between the items around its key. The others stay.
pub proof fn law_put_in_by_key<T: KeyedItem>(
    tree: &mut SumTree<T>,
    item: T,
    cx: &<T::Summary as Summary>::Context,
    replaced: Option<T>,
    i: int,
)
    requires
        sorted(old(tree)@),
        call_ensures(SumTree::<T>::insert_or_replace, (tree, item, cx), replaced),
        0 <= i < old(tree)@.len(),
    ensures
        final(tree)@.contains(item),
        old(tree)@[i].key_spec() == item.key_spec() ==> replaced == Some(old(tree)@[i]) && final(tree)@ == old(tree)@.update(i, item),
        old(tree)@[i].key_spec() != item.key_spec() ==> final(tree)@.contains(old(tree)@[i]),
        replaced is None ==> final(tree)@.len() == old(tree)@.len() + 1,
        replaced is Some ==> final(tree)@.len() == old(tree)@.len() && replaced->0.key_spec()
            == item.key_spec(),
        forall|a: int, b: int|
            #![trigger final(tree)@[a], final(tree)@[b]]
            0 <= a < b < final(tree)@.len() ==> final(tree)@[a].key_spec().before(
                &final(tree)@[b].key_spec(),
            ),
{
    let items = old(tree)@;
    let r = final(tree)@;
    let key = item.key_spec();
    let p: int = position(items, key);
    lemma_position_bounds(items, key);
    assert(r[p] == item);
    if items[i].key_spec() == key {
        lemma_present(items, key, i);
    } else if present(items, key) {
        assert(r[i] == items[i]);
    } else if i < p {
        assert(r[i] == items[i]);
    } else {
        assert(r[i + 1] == items[i]);
    }
}

/// What is taken out is the item with the key, and the others stay in their order.
pub proof fn law_taken_out_by_key<T: KeyedItem>(
    tree: &mut SumTree<T>,
    key: T::Key,
    cx: &<T::Summary as Summary>::Context,
    removed: Option<T>,
    i: int,
)
    requires
        sorted(old(tree)@),
        call_ensures(SumTree::<T>::remove, (tree, &key, cx), removed),
        0 <= i < old(tree)@.len(),
    ensures
        old(tree)@[i].key_spec() == key ==> removed == Some(old(tree)@[i]) && final(tree)@ == old(tree)@.remove(i),
        removed is None ==> final(tree)@ == old(tree)@ && old(tree)@[i].key_spec() != key,
        removed is Some ==> removed->0.key_spec() == key,
{
    lemma_position_bounds(old(tree)@, key);
    if old(tree)@[i].key_spec() == key {
        lemma_present(old(tree)@, key, i);
    }
}

proof fn lemma_touched_has<T: KeyedItem>(items: Seq<T>, edits: Seq<Edit<T>>, hit: bool, x: T)
    ensures
        touched(items, edits, hit).contains(x) <==> items.contains(x) && edited(edits, x) == hit,
    decreases items.len(),
{
    if items.len() > 0 {
        let less = items.drop_last();
        lemma_touched_has(less, edits, hit, x);
        let t = touched(items, edits, hit);
        let before = touched(less, edits, hit);
        if before.contains(x) {
            let k: int = choose|k: int| 0 <= k < before.len() && before[k] == x;
            assert(t[k] == x);
        }
        if less.contains(x) {
            let k: int = choose|k: int| 0 <= k < less.len() && less[k] == x;
            assert(items[k] == x);
        }
        if t.contains(x) {
            let k: int = choose|k: int| 0 <= k < t.len() && t[k] == x;
            if k < before.len() {
                assert(before[k] == x);
            } else {
                assert(items[items.len() - 1] == x);
            }
        }
        if items.contains(x) && edited(edits, x) == hit {
            let k: int = choose|k: int| 0 <= k < items.len() && items[k] == x;
            if k < less.len() {
                assert(less[k] == x);
            } else {
                assert(t.last() == x);
            }
        }
    }
}

proof fn lemma_inserted_has<T: KeyedItem>(edits: Seq<Edit<T>>, x: T)
    ensures
        inserted(edits).count(x) > 0 <==> exists|i: int|
            0 <= i < edits.len() && #[trigger] edits[i] == Edit::Insert(x),
    decreases edits.len(),
{
    broadcast use vstd::multiset::group_multiset_axioms;

    if edits.len() > 0 {
        let less = edits.drop_last();
        lemma_inserted_has(less, x);
        if exists|i: int| 0 <= i < edits.len() && #[trigger] edits[i] == Edit::Insert(x) {
            let i: int = choose|i: int|
                0 <= i < edits.len() && #[trigger] edits[i] == Edit::Insert(x);
            if i < less.len() {
                assert(less[i] == Edit::Insert(x));
            }
        }
        if exists|i: int| 0 <= i < less.len() && #[trigger] less[i] == Edit::Insert(x) {
            let i: int = choose|i: int|
                0 <= i < less.len() && #[trigger] less[i] == Edit::Insert(x);
            assert(edits[i] == Edit::Insert(x));
        }
        if edits.last() == Edit::Insert(x) {
            assert(edits[edits.len() - 1] == Edit::Insert(x));
        }
    }
}

/// After a list of edits a tree holds what they put in, and of its own items those that none
/// of them names. It hands back the items that one of them names.
pub proof fn law_edits_are_carried_out<T: KeyedItem>(
    tree: &mut SumTree<T>,
    edits: Vec<Edit<T>>,
    cx: &<T::Summary as Summary>::Context,
    removed: Vec<T>,
    x: T,
)
    requires
        sorted(old(tree)@),
        call_ensures(SumTree::<T>::edit, (tree, edits, cx), removed),
    ensures
        final(tree)@.contains(x) <==> {
            ||| old(tree)@.contains(x) && forall|i: int|
                0 <= i < edits@.len() ==> !names_key(#[trigger] edits@[i], x.key_spec())
            ||| exists|i: int| 0 <= i < edits@.len() && #[trigger] edits@[i] == Edit::Insert(x)
        },
        removed@.contains(x) <==> old(tree)@.contains(x) && exists|i: int|
            0 <= i < edits@.len() && names_key(#[trigger] edits@[i], x.key_spec()),
        forall|a: int, b: int|
            #![trigger final(tree)@[a], final(tree)@[b]]
            0 <= a < b < final(tree)@.len() ==> !final(tree)@[b].key_spec().before(
                &final(tree)@[a].key_spec(),
            ),
        forall|a: int, b: int|
            #![trigger removed@[a], removed@[b]]
            0 <= a < b < removed@.len() ==> removed@[a].key_spec().before(
                &removed@[b].key_spec(),
            ),
{
    broadcast use vstd::multiset::group_multiset_axioms;

    let items = old(tree)@;
    let all = edits@;
    lemma_touched_has(items, all, true, x);
    lemma_touched_has(items, all, false, x);
    lemma_touched_sorted(items, all, true);
    lemma_inserted_has(all, x);
    let left = touched(items, all, false);
    left.to_multiset_ensures();
    final(tree)@.to_multiset_ensures();
    assert(edited(all, x) <==> exists|i: int|
        0 <= i < all.len() && names_key(#[trigger] all[i], x.key_spec())) by {
        if edited(all, x) {
            let i: int = choose|i: int|
                0 <= i < all.len() && (#[trigger] all[i]).key() == x.key_spec();
            assert(names_key(all[i], x.key_spec()));
        }
        if exists|i: int| 0 <= i < all.len() && names_key(#[trigger] all[i], x.key_spec()) {
            let i: int = choose|i: int|
                0 <= i < all.len() && names_key(#[trigger] all[i], x.key_spec());
            assert(all[i].key() == x.key_spec());
        }
    }
    assert(final(tree)@.to_multiset().count(x) == left.to_multiset().count(x) + inserted(
        all,
    ).count(x));
}

proof fn lemma_kept<T>(items: Seq<T>, keep: Seq<bool>, wanted: spec_fn(T) -> bool)
    requires
        keep.len() == items.len(),
        forall|i: int| 0 <= i < keep.len() ==> #[trigger] keep[i] == wanted(items[i]),
    ensures
        kept(items, keep) == items.filter(wanted),
    decreases items.len(),
{
    reveal(Seq::filter);
    if items.len() > 0 {
        let some = keep.drop_last();
        assert forall|i: int| 0 <= i < some.len() implies #[trigger] some[i] == wanted(
            items.drop_last()[i],
        ) by {
            assert(some[i] == keep[i]);
        }
        lemma_kept(items.drop_last(), some, wanted);
        lemma_kept_prefix(items.drop_last(), keep, some);
        assert(keep[items.len() - 1] == wanted(items.last()));
    }
}

/// What a test keeps of a tree are the items that pass it, in their order.
pub proof fn law_only_what_passes_is_kept<T: KeyedItem, F: Fn(&T) -> bool>(
    tree: &mut SumTree<T>,
    cx: &<T::Summary as Summary>::Context,
    predicate: F,
    wanted: spec_fn(T) -> bool,
)
    requires
        forall|item: T, b: bool| #[trigger]
            call_ensures(predicate, (&item,), b) ==> b == wanted(item),
        call_ensures(SumTree::<T>::retain::<F>, (tree, cx, predicate), ()),
    ensures
        final(tree)@ == old(tree)@.filter(wanted),
{
    let items = old(tree)@;
    let keep = choose|keep: Seq<bool>|
        {
            &&& keep.len() == items.len()
            &&& forall|i: int|
                0 <= i < keep.len() ==> call_ensures(predicate, (&items[i],), #[trigger] keep[i])
            &&& final(tree)@ == #[trigger] kept(items, keep)
        };
    assert forall|i: int| 0 <= i < keep.len() implies #[trigger] keep[i] == wanted(items[i]) by {
        assert(call_ensures(predicate, (&items[i],), keep[i]));
    }
    lemma_kept(items, keep, wanted);
}

} // verus!
