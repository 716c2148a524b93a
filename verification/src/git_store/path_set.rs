//! Sets of paths, kept in order.

use vstd::prelude::*;
use std::sync::Arc;
use crate::path::{lemma_path_before_total, lemma_path_before_transitive, path_before, RelPath};
use crate::shared::arc_clone;

verus! {

/// Paths in increasing order.
pub open spec fn increasing(paths: Seq<Arc<RelPath>>) -> bool {
    forall|i: int, j: int|
        0 <= i < j < paths.len() ==> path_before((#[trigger] paths[i])@, (#[trigger] paths[j])@)
}

/// Whether a path is among some.
pub open spec fn has_path(paths: Seq<Arc<RelPath>>, path: Seq<Seq<char>>) -> bool {
    exists|i: int| 0 <= i < paths.len() && (#[trigger] paths[i])@ == path
}

/// A set of paths.
#[derive(Debug)]
pub struct PathSet {
    pub paths: Vec<Arc<RelPath>>,
}

impl View for PathSet {
    type V = Set<Seq<Seq<char>>>;

    open spec fn view(&self) -> Set<Seq<Seq<char>>> {
        Set::new(|path: Seq<Seq<char>>| has_path(self.paths@, path))
    }
}

impl PathSet {
    /// The paths are in order.
    pub open spec fn wf(&self) -> bool {
        increasing(self.paths@)
    }

    pub fn new() -> (set: PathSet)
        ensures
            set.wf(),
            set@ == Set::<Seq<Seq<char>>>::empty(),
    {
        let set = PathSet { paths: Vec::new() };
        assert(set@ =~= Set::<Seq<Seq<char>>>::empty());
        set
    }

    pub fn contains(&self, path: &RelPath) -> (r: bool)
        ensures
            r == self@.contains(path@),
    {
        let mut i: usize = 0;
        while i < self.paths.len()
            invariant
                i <= self.paths@.len(),
                forall|j: int| 0 <= j < i ==> (#[trigger] self.paths@[j])@ != path@,
            decreases self.paths.len() - i,
        {
            if self.paths[i].same(path) {
                assert(self.paths@[i as int]@ == path@);
                return true;
            }
            i = i + 1;
        }
        false
    }

    /// Puts in a path.
    pub fn insert(&mut self, path: Arc<RelPath>)
        requires
            old(self).wf(),
        ensures
            final(self).wf(),
            final(self)@ == old(self)@.insert(path@),
    {
        let ghost before = self.paths@;
        let mut i: usize = 0;
        while i < self.paths.len() && self.paths[i].comes_before(&*path)
            invariant
                i <= self.paths@.len(),
                self.paths@ == before,
                forall|j: int| 0 <= j < i ==> path_before((#[trigger] before[j])@, path@),
            decreases self.paths.len() - i,
        {
            i = i + 1;
        }
        if i < self.paths.len() && self.paths[i].same(&*path) {
            assert(before[i as int]@ == path@);
            assert(self@ =~= self@.insert(path@));
            return;
        }
        self.paths.insert(i, path);
        proof {
            let now = self.paths@;
            assert(now[i as int] == path);
            if i < before.len() {
                lemma_path_before_total(path@, before[i as int]@);
            }
            assert forall|k: int| i <= k < before.len() implies path_before(
                path@,
                (#[trigger] before[k])@,
            ) by {
                if k > i {
                    lemma_path_before_transitive(path@, before[i as int]@, before[k]@);
                }
            }
            assert forall|a: int, b: int| 0 <= a < b < now.len() implies path_before(
                (#[trigger] now[a])@,
                (#[trigger] now[b])@,
            ) by {
                let x: int = if a < i {
                    a
                } else {
                    a - 1
                };
                let y: int = if b < i {
                    b
                } else {
                    b - 1
                };
                if a != i {
                    assert(now[a] == before[x]);
                }
                if b != i {
                    assert(now[b] == before[y]);
                }
            }
            assert forall|p: Seq<Seq<char>>| has_path(now, p) == (p == path@ || has_path(
                before,
                p,
            )) by {
                if has_path(before, p) {
                    let k: int = choose|k: int| 0 <= k < before.len() && (#[trigger] before[k])@
                        == p;
                    let to: int = if k < i {
                        k
                    } else {
                        k + 1
                    };
                    assert(now[to]@ == p);
                }
                if has_path(now, p) && p != path@ {
                    let k: int = choose|k: int| 0 <= k < now.len() && (#[trigger] now[k])@ == p;
                    let from: int = if k < i {
                        k
                    } else {
                        k - 1
                    };
                    assert(before[from]@ == p);
                }
            }
            assert(self@ =~= old(self)@.insert(path@));
        }
    }

    /// Puts in paths.
    pub fn extend(&mut self, paths: &Vec<Arc<RelPath>>)
        requires
            old(self).wf(),
        ensures
            final(self).wf(),
            final(self)@ == old(self)@.union(
                Set::new(|path: Seq<Seq<char>>| has_path(paths@, path)),
            ),
    {
        let ghost start = self@;
        let mut i: usize = 0;
        assert(self@ =~= start.union(
            Set::new(|path: Seq<Seq<char>>| has_path(paths@.take(0), path)),
        ));
        while i < paths.len()
            invariant
                i <= paths@.len(),
                self.wf(),
                self@ == start.union(
                    Set::new(|path: Seq<Seq<char>>| has_path(paths@.take(i as int), path)),
                ),
            decreases paths.len() - i,
        {
            self.insert(arc_clone(&paths[i]));
            proof {
                let here = paths@.take(i as int);
                let next = paths@.take(i + 1);
                assert forall|p: Seq<Seq<char>>| has_path(next, p) == (has_path(here, p) || p
                    == paths@[i as int]@) by {
                    if has_path(here, p) {
                        let k: int = choose|k: int| 0 <= k < here.len() && (#[trigger] here[k])@
                            == p;
                        assert(next[k]@ == p);
                    }
                    if p == paths@[i as int]@ {
                        assert(next[i as int]@ == p);
                    }
                    if has_path(next, p) && p != paths@[i as int]@ {
                        let k: int = choose|k: int| 0 <= k < next.len() && (#[trigger] next[k])@
                            == p;
                        assert(here[k]@ == p);
                    }
                }
                assert(self@ =~= start.union(
                    Set::new(|path: Seq<Seq<char>>| has_path(next, path)),
                ));
            }
            i = i + 1;
        }
        assert(paths@.take(i as int) =~= paths@);
    }

    /// Takes out all paths.
    pub fn take(&mut self) -> (r: Vec<Arc<RelPath>>)
        ensures
            r@ == old(self).paths@,
            final(self).wf(),
            final(self)@ == Set::<Seq<Seq<char>>>::empty(),
    {
        let mut r: Vec<Arc<RelPath>> = Vec::new();
        std::mem::swap(&mut r, &mut self.paths);
        assert(self@ =~= Set::<Seq<Seq<char>>>::empty());
        r
    }
}

} // verus!
