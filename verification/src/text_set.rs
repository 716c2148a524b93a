//! Sets of texts.

use vstd::prelude::*;
use crate::text::{
    lemma_text_before_total, lemma_text_before_transitive, str_before, str_eq, text_before, texts,
};

verus! {

/// A set of texts that keeps them in order.
#[derive(Debug)]
pub struct TextSet {
    items: Vec<String>,
}

/// Whether some texts are in order, each once.
pub open spec fn in_order(items: Seq<Seq<char>>) -> bool {
    forall|i: int, j: int|
        0 <= i < j < items.len() ==> text_before(#[trigger] items[i], #[trigger] items[j])
}

impl View for TextSet {
    type V = Set<Seq<char>>;

    closed spec fn view(&self) -> Set<Seq<char>> {
        Set::new(|item: Seq<char>| texts(self.items@).contains(item))
    }
}

impl TextSet {
    /// The texts are in order.
    pub closed spec fn wf(&self) -> bool {
        in_order(texts(self.items@))
    }

    pub fn new() -> (set: TextSet)
        ensures
            set.wf(),
            set@ == Set::<Seq<char>>::empty(),
    {
        let set = TextSet { items: Vec::new() };
        assert(set@ =~= Set::<Seq<char>>::empty());
        set
    }

    /// Puts in a text.
    pub fn insert(&mut self, item: String)
        requires
            old(self).wf(),
        ensures
            final(self).wf(),
            final(self)@ == old(self)@.insert(item@),
    {
        let ghost all = texts(self.items@);
        let mut i: usize = 0;
        while i < self.items.len() && str_before(self.items[i].as_str(), item.as_str())
            invariant
                i <= self.items@.len(),
                *self == *old(self),
                all == texts(self.items@),
                forall|k: int| 0 <= k < i ==> text_before(#[trigger] all[k], item@),
            decreases self.items.len() - i,
        {
            assert(all[i as int] == self.items@[i as int]@);
            i = i + 1;
        }
        if i < self.items.len() && str_eq(self.items[i].as_str(), item.as_str()) {
            assert(all[i as int] == item@);
            assert(self@ =~= self@.insert(item@));
            return ;
        }
        let ghost new = item@;
        self.items.insert(i, item);
        proof {
            let now = texts(self.items@);
            assert(now =~= all.insert(i as int, new));
            if i < all.len() {
                assert(all[i as int] == old(self).items@[i as int]@);
                lemma_text_before_total(all[i as int], new);
            }
            assert forall|a: int, b: int| 0 <= a < b < now.len() implies text_before(
                #[trigger] now[a],
                #[trigger] now[b],
            ) by {
                if b == i {
                    assert(now[a] == all[a]);
                } else if a == i {
                    assert(now[b] == all[b - 1]);
                    if b - 1 > i {
                        assert(text_before(all[i as int], all[b - 1]));
                        lemma_text_before_transitive(new, all[i as int], all[b - 1]);
                    }
                } else {
                    let a0: int = if a < i {
                        a
                    } else {
                        a - 1
                    };
                    let b0: int = if b < i {
                        b
                    } else {
                        b - 1
                    };
                    assert(now[a] == all[a0] && now[b] == all[b0]);
                    assert(text_before(all[a0], all[b0]));
                }
            }
            assert forall|x: Seq<char>| now.contains(x) == (x == new || all.contains(x)) by {
                if x == new {
                    assert(now[i as int] == x);
                }
                if all.contains(x) {
                    let k: int = choose|k: int| 0 <= k < all.len() && all[k] == x;
                    if k < i {
                        assert(now[k] == x);
                    } else {
                        assert(now[k + 1] == x);
                    }
                }
                if now.contains(x) && x != new {
                    let k: int = choose|k: int| 0 <= k < now.len() && now[k] == x;
                    if k < i {
                        assert(all[k] == x);
                    } else {
                        assert(all[k - 1] == x);
                    }
                }
            }
            assert(self@ =~= old(self)@.insert(new));
        }
    }

    /// The texts, in order.
    pub fn into_texts(self) -> (r: Vec<String>)
        requires
            self.wf(),
        ensures
            in_order(texts(r@)),
            forall|item: Seq<char>| #[trigger] texts(r@).contains(item) == self@.contains(item),
    {
        self.items
    }
}

} // verus!
