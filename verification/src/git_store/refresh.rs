//! Taking up the status of files that have changed.

use vstd::prelude::*;
use std::sync::Arc;
use crate::git_store::path_set::has_path;
use crate::git_store::snapshot::{
    by_path, lemma_status_absent, lemma_status_found, lemma_status_index, status_at,
    RepositorySnapshot,
};
use crate::git_store::status::{FileStatus, StatusEntry};
use crate::path::{lemma_path_before_total, lemma_path_before_transitive, path_before, RelPath};

verus! {

/// A list that says of one path what is new, and of the others what another list
/// says.
pub open spec fn differs_at(
    now: Seq<StatusEntry>,
    before: Seq<StatusEntry>,
    path: Seq<Seq<char>>,
    status: Option<FileStatus>,
) -> bool {
    forall|p: Seq<Seq<char>>| #[trigger]
        status_at(now, p) == (if p == path {
            status
        } else {
            status_at(before, p)
        })
}

proof fn lemma_differs(
    now: Seq<StatusEntry>,
    before: Seq<StatusEntry>,
    path: Seq<Seq<char>>,
    status: Option<FileStatus>,
)
    requires
        by_path(now),
        by_path(before),
        forall|k: int|
            0 <= k < now.len() && (#[trigger] now[k]).repo_path@ != path ==> exists|j: int|
                0 <= j < before.len() && #[trigger] before[j] == now[k],
        forall|j: int|
            0 <= j < before.len() && (#[trigger] before[j]).repo_path@ != path ==> exists|k: int|
                0 <= k < now.len() && #[trigger] now[k] == before[j],
        status is Some ==> exists|k: int|
            0 <= k < now.len() && (#[trigger] now[k]).repo_path@ == path && now[k].status
                == status->0,
        status is None ==> forall|k: int|
            0 <= k < now.len() ==> (#[trigger] now[k]).repo_path@ != path,
    ensures
        differs_at(now, before, path, status),
{
    assert forall|p: Seq<Seq<char>>| #[trigger]
        status_at(now, p) == (if p == path {
            status
        } else {
            status_at(before, p)
        }) by {
        if p == path {
            if status is Some {
                let k: int = choose|k: int|
                    0 <= k < now.len() && (#[trigger] now[k]).repo_path@ == path && now[k].status
                        == status->0;
                lemma_status_found(now, k);
            } else {
                lemma_status_absent(now, path);
            }
        } else if status_at(before, p) is Some {
            lemma_status_index(before, p);
            let j: int = choose|j: int|
                0 <= j < before.len() && (#[trigger] before[j]).repo_path@ == p
                    && before[j].status == status_at(before, p)->0;
            let k: int = choose|k: int| 0 <= k < now.len() && #[trigger] now[k] == before[j];
            lemma_status_found(now, k);
        } else {
            assert forall|k: int| 0 <= k < now.len() implies (#[trigger] now[k]).repo_path@ != p by {
                if now[k].repo_path@ == p {
                    let j: int = choose|j: int|
                        0 <= j < before.len() && #[trigger] before[j] == now[k];
                    lemma_status_found(before, j);
                }
            }
            lemma_status_absent(now, p);
        }
    }
}

/// Where a path stands among some, or where it would stand.
fn find_slot(entries: &Vec<StatusEntry>, path: &RelPath) -> (r: usize)
    requires
        by_path(entries@),
    ensures
        r <= entries@.len(),
        forall|k: int| 0 <= k < r ==> path_before((#[trigger] entries@[k]).repo_path@, path@),
        forall|k: int|
            r <= k < entries@.len() ==> !path_before((#[trigger] entries@[k]).repo_path@, path@),
        forall|k: int|
            r < k < entries@.len() ==> path_before(path@, (#[trigger] entries@[k]).repo_path@),
{
    let mut i: usize = 0;
    while i < entries.len() && entries[i].repo_path.comes_before(path)
        invariant
            i <= entries@.len(),
            forall|k: int| 0 <= k < i ==> path_before((#[trigger] entries@[k]).repo_path@, path@),
        decreases entries.len() - i,
    {
        i = i + 1;
    }
    proof {
        assert forall|k: int| i < k < entries@.len() implies path_before(
            path@,
            (#[trigger] entries@[k]).repo_path@,
        ) by {
            lemma_path_before_total(entries@[i as int].repo_path@, path@);
            assert(path_before(entries@[i as int].repo_path@, entries@[k].repo_path@));
            if entries@[i as int].repo_path@ != path@ {
                lemma_path_before_transitive(
                    path@,
                    entries@[i as int].repo_path@,
                    entries@[k].repo_path@,
                );
            }
        }
        assert forall|k: int| i <= k < entries@.len() implies !path_before(
            (#[trigger] entries@[k]).repo_path@,
            path@,
        ) by {
            if k > i {
                lemma_path_before_total(path@, entries@[k].repo_path@);
            }
        }
    }
    i
}

/// Gives a file a status.
pub fn insert_status(entries: &mut Vec<StatusEntry>, new: StatusEntry)
    requires
        by_path(old(entries)@),
    ensures
        by_path(final(entries)@),
        differs_at(final(entries)@, old(entries)@, new.repo_path@, Some(new.status)),
{
    let ghost before = entries@;
    let i: usize = find_slot(entries, &*new.repo_path);
    let ghost entry = new;
    if i < entries.len() && entries[i].repo_path.same(&*new.repo_path) {
        entries.set(i, new);
        proof {
            let now = entries@;
            assert(now[i as int] == entry);
            assert forall|a: int, b: int| 0 <= a < b < now.len() implies path_before(
                (#[trigger] now[a]).repo_path@,
                (#[trigger] now[b]).repo_path@,
            ) by {
                assert(path_before(before[a].repo_path@, before[b].repo_path@));
            }
            assert forall|k: int|
                0 <= k < now.len() && (#[trigger] now[k]).repo_path@
                    != entry.repo_path@ implies exists|j: int|
                0 <= j < before.len() && #[trigger] before[j] == now[k] by {
                assert(before[k] == now[k]);
            }
            assert forall|j: int|
                0 <= j < before.len() && (#[trigger] before[j]).repo_path@
                    != entry.repo_path@ implies exists|k: int|
                0 <= k < now.len() && #[trigger] now[k] == before[j] by {
                assert(now[j] == before[j]);
            }
            lemma_differs(now, before, entry.repo_path@, Some(entry.status));
        }
        return;
    }
    entries.insert(i, new);
    proof {
        let now = entries@;
        assert(now[i as int] == entry);
        if i < before.len() {
            lemma_path_before_total(entry.repo_path@, before[i as int].repo_path@);
        }
        assert forall|a: int, b: int| 0 <= a < b < now.len() implies path_before(
            (#[trigger] now[a]).repo_path@,
            (#[trigger] now[b]).repo_path@,
        ) by {
            let x: int = if a < i {
                a
            } else {
                a - 1
            };
            let y: int = if b < i {
                b
            } else {
                b - 1
            };
            if a != i {
                assert(now[a] == before[x]);
            }
            if b != i {
                assert(now[b] == before[y]);
            }
        }
        assert forall|k: int|
            0 <= k < now.len() && (#[trigger] now[k]).repo_path@
                != entry.repo_path@ implies exists|j: int|
            0 <= j < before.len() && #[trigger] before[j] == now[k] by {
            let j: int = if k < i {
                k
            } else {
                k - 1
            };
            assert(before[j] == now[k]);
        }
        assert forall|j: int|
            0 <= j < before.len() && (#[trigger] before[j]).repo_path@
                != entry.repo_path@ implies exists|k: int|
            0 <= k < now.len() && #[trigger] now[k] == before[j] by {
            let k: int = if j < i {
                j
            } else {
                j + 1
            };
            assert(now[k] == before[j]);
        }
        lemma_differs(now, before, entry.repo_path@, Some(entry.status));
    }
}

/// Takes the status from a file. Tells whether it had one.
pub fn remove_status(entries: &mut Vec<StatusEntry>, path: &RelPath) -> (r: bool)
    requires
        by_path(old(entries)@),
    ensures
        by_path(final(entries)@),
        differs_at(final(entries)@, old(entries)@, path@, None),
        r == (status_at(old(entries)@, path@) is Some),
{
    let ghost before = entries@;
    let i: usize = find_slot(entries, path);
    if i < entries.len() && entries[i].repo_path.same(path) {
        proof {
            lemma_status_found(before, i as int);
        }
        let _ = entries.remove(i);
        proof {
            let now = entries@;
            assert forall|a: int, b: int| 0 <= a < b < now.len() implies path_before(
                (#[trigger] now[a]).repo_path@,
                (#[trigger] now[b]).repo_path@,
            ) by {
                let x: int = if a < i {
                    a
                } else {
                    a + 1
                };
                let y: int = if b < i {
                    b
                } else {
                    b + 1
                };
                assert(now[a] == before[x] && now[b] == before[y]);
            }
            assert forall|k: int| 0 <= k < now.len() implies (#[trigger] now[k]).repo_path@
                != path@ by {
                let x: int = if k < i {
                    k
                } else {
                    k + 1
                };
                assert(now[k] == before[x]);
                lemma_path_before_total(path@, path@);
            }
            assert forall|k: int|
                0 <= k < now.len() && (#[trigger] now[k]).repo_path@ != path@ implies exists|
                j: int,
            | 0 <= j < before.len() && #[trigger] before[j] == now[k] by {
                let x: int = if k < i {
                    k
                } else {
                    k + 1
                };
                assert(now[k] == before[x]);
            }
            assert forall|j: int|
                0 <= j < before.len() && (#[trigger] before[j]).repo_path@
                    != path@ implies exists|k: int|
                0 <= k < now.len() && #[trigger] now[k] == before[j] by {
                let k: int = if j < i {
                    j
                } else {
                    j - 1
                };
                assert(now[k] == before[j]);
            }
            lemma_differs(now, before, path@, None);
        }
        return true;
    }
    proof {
        assert forall|k: int| 0 <= k < before.len() implies (#[trigger] before[k]).repo_path@
            != path@ by {
            lemma_path_before_total(path@, path@);
        }
        lemma_status_absent(before, path@);
    }
    false
}

/// What is known of a file after it was examined: its new status, none if it was
/// examined and has none, or what was known before.
pub open spec fn refreshed_status(
    before: Seq<StatusEntry>,
    examined: Seq<Arc<RelPath>>,
    statuses: Seq<StatusEntry>,
    path: Seq<Seq<char>>,
) -> Option<FileStatus> {
    if status_at(statuses, path) is Some {
        status_at(statuses, path)
    } else if has_path(examined, path) {
        None
    } else {
        status_at(before, path)
    }
}

/// Whether examining files shows anything new.
pub open spec fn shows_news(
    before: Seq<StatusEntry>,
    examined: Seq<Arc<RelPath>>,
    statuses: Seq<StatusEntry>,
) -> bool {
    exists|path: Seq<Seq<char>>|
        status_at(before, path) != #[trigger] refreshed_status(before, examined, statuses, path)
}

impl RepositorySnapshot {
    /// Takes up the status of files that were examined. Those of them that have no
    /// status any more lose theirs. Tells whether anything has changed; if so, the
    /// repository counts as scanned anew.
    pub fn refresh_statuses(
        &mut self,
        examined: &Vec<Arc<RelPath>>,
        statuses: &Vec<StatusEntry>,
    ) -> (r: bool)
        requires
            old(self).wf(),
            by_path(statuses@),
            old(self).scan_id < u64::MAX,
        ensures
            final(self).wf(),
            r == shows_news(old(self).statuses_by_path@, examined@, statuses@),
            forall|path: Seq<Seq<char>>| #[trigger]
                status_at(final(self).statuses_by_path@, path) == refreshed_status(
                    old(self).statuses_by_path@,
                    examined@,
                    statuses@,
                    path,
                ),
            final(self).scan_id == (if r {
                old(self).scan_id + 1
            } else {
                old(self).scan_id as int
            }),
            *final(self) == (RepositorySnapshot {
                statuses_by_path: final(self).statuses_by_path,
                scan_id: final(self).scan_id,
                ..*old(self)
            }),
    {
        let ghost before = self.statuses_by_path@;
        let mut changed: bool = false;
        let mut i: usize = 0;
        assert(statuses@.take(0) =~= Seq::empty());
        while i < statuses.len()
            invariant
                i <= statuses@.len(),
                by_path(statuses@),
                self.wf(),
                *self == (RepositorySnapshot {
                    statuses_by_path: self.statuses_by_path,
                    ..*old(self)
                }),
                forall|path: Seq<Seq<char>>| #[trigger]
                    status_at(self.statuses_by_path@, path) == refreshed_status(
                        before,
                        Seq::empty(),
                        statuses@.take(i as int),
                        path,
                    ),
                changed == exists|path: Seq<Seq<char>>|
                    status_at(before, path) != #[trigger] refreshed_status(
                        before,
                        Seq::empty(),
                        statuses@.take(i as int),
                        path,
                    ),
            decreases statuses.len() - i,
        {
            let entry = &statuses[i];
            let ghost here = statuses@.take(i as int);
            let ghost next = statuses@.take(i + 1);
            let ghost now = self.statuses_by_path@;
            proof {
                assert(next.drop_last() =~= here);
                assert(next.last() == statuses@[i as int]);
                assert(status_at(here, entry.repo_path@) is None) by {
                    assert forall|k: int| 0 <= k < here.len() implies (
                    #[trigger] here[k]).repo_path@ != entry.repo_path@ by {
                        assert(path_before(
                            statuses@[k].repo_path@,
                            statuses@[i as int].repo_path@,
                        ));
                        lemma_path_before_total(entry.repo_path@, entry.repo_path@);
                    }
                    lemma_status_absent(here, entry.repo_path@);
                }
                assert(!has_path(Seq::<Arc<RelPath>>::empty(), entry.repo_path@));
            }
            let same: bool = match self.status_for_path(&*entry.repo_path) {
                Some(known) => known.status == entry.status,
                None => false,
            };
            if !same {
                changed = true;
                insert_status(&mut self.statuses_by_path, entry.clone());
            }
            proof {
                let path = entry.repo_path@;
                assert(status_at(now, path) == status_at(before, path));
                assert forall|p: Seq<Seq<char>>| #[trigger]
                    status_at(self.statuses_by_path@, p) == refreshed_status(
                        before,
                        Seq::empty(),
                        next,
                        p,
                    ) by {
                    assert(status_at(now, p) == refreshed_status(
                        before,
                        Seq::empty(),
                        here,
                        p,
                    ));
                }
                if !same {
                    assert(status_at(before, path) != refreshed_status(
                        before,
                        Seq::empty(),
                        next,
                        path,
                    ));
                } else {
                    assert forall|p: Seq<Seq<char>>| #[trigger]
                        refreshed_status(before, Seq::empty(), next, p) == refreshed_status(
                            before,
                            Seq::empty(),
                            here,
                            p,
                        ) by {
                        assert(status_at(now, p) == refreshed_status(
                            before,
                            Seq::empty(),
                            here,
                            p,
                        ));
                    }
                    if changed {
                        let p = choose|p: Seq<Seq<char>>|
                            status_at(before, p) != #[trigger] refreshed_status(
                                before,
                                Seq::empty(),
                                here,
                                p,
                            );
                        assert(status_at(before, p) != refreshed_status(
                            before,
                            Seq::empty(),
                            next,
                            p,
                        ));
                    }
                }
            }
            i = i + 1;
        }
        assert(statuses@.take(i as int) =~= statuses@);
        let mut j: usize = 0;
        let ghost mid = self.statuses_by_path@;
        assert(examined@.take(0) =~= Seq::empty());
        while j < examined.len()
            invariant
                j <= examined@.len(),
                by_path(statuses@),
                self.wf(),
                *self == (RepositorySnapshot {
                    statuses_by_path: self.statuses_by_path,
                    ..*old(self)
                }),
                forall|path: Seq<Seq<char>>| #[trigger]
                    status_at(self.statuses_by_path@, path) == refreshed_status(
                        before,
                        examined@.take(j as int),
                        statuses@,
                        path,
                    ),
                changed == exists|path: Seq<Seq<char>>|
                    status_at(before, path) != #[trigger] refreshed_status(
                        before,
                        examined@.take(j as int),
                        statuses@,
                        path,
                    ),
            decreases examined.len() - j,
        {
            let path = &examined[j];
            let ghost here = examined@.take(j as int);
            let ghost next = examined@.take(j + 1);
            let ghost now = self.statuses_by_path@;
            let found: bool = has_status(statuses, &**path);
            let mut lost: bool = false;
            if !found {
                lost = remove_status(&mut self.statuses_by_path, &**path);
                if lost {
                    changed = true;
                }
            }
            proof {
                assert forall|p: Seq<Seq<char>>| has_path(next, p) == (has_path(here, p) || p
                    == path@) by {
                    if has_path(here, p) {
                        let k: int = choose|k: int| 0 <= k < here.len() && (#[trigger] here[k])@
                            == p;
                        assert(next[k]@ == p);
                    }
                    if p == path@ {
                        assert(next[j as int]@ == p);
                    }
                    if has_path(next, p) && p != path@ {
                        let k: int = choose|k: int| 0 <= k < next.len() && (#[trigger] next[k])@
                            == p;
                        assert(here[k]@ == p);
                    }
                }
                assert forall|p: Seq<Seq<char>>| #[trigger]
                    status_at(self.statuses_by_path@, p) == refreshed_status(
                        before,
                        next,
                        statuses@,
                        p,
                    ) by {
                    assert(status_at(now, p) == refreshed_status(before, here, statuses@, p));
                }
                if lost {
                    assert(status_at(now, path@) == refreshed_status(
                        before,
                        here,
                        statuses@,
                        path@,
                    ));
                    assert(status_at(before, path@) != refreshed_status(
                        before,
                        next,
                        statuses@,
                        path@,
                    ));
                } else {
                    assert forall|p: Seq<Seq<char>>| #[trigger]
                        refreshed_status(before, next, statuses@, p) == refreshed_status(
                            before,
                            here,
                            statuses@,
                            p,
                        ) by {
                        assert(status_at(now, p) == refreshed_status(before, here, statuses@, p));
                    }
                    if changed {
                        let p = choose|p: Seq<Seq<char>>|
                            status_at(before, p) != #[trigger] refreshed_status(
                                before,
                                here,
                                statuses@,
                                p,
                            );
                        assert(status_at(before, p) != refreshed_status(
                            before,
                            next,
                            statuses@,
                            p,
                        ));
                    }
                }
            }
            j = j + 1;
        }
        assert(examined@.take(j as int) =~= examined@);
        if changed {
            self.scan_id = self.scan_id + 1;
        }
        changed
    }
}

fn has_status(entries: &Vec<StatusEntry>, path: &RelPath) -> (r: bool)
    requires
        by_path(entries@),
    ensures
        r == (status_at(entries@, path@) is Some),
{
    let mut i: usize = 0;
    while i < entries.len()
        invariant
            i <= entries@.len(),
            by_path(entries@),
            forall|k: int| 0 <= k < i ==> (#[trigger] entries@[k]).repo_path@ != path@,
        decreases entries.len() - i,
    {
        if entries[i].repo_path.same(path) {
            proof {
                lemma_status_found(entries@, i as int);
            }
            return true;
        }
        i = i + 1;
    }
    proof {
        lemma_status_absent(entries@, path@);
    }
    false
}

} // verus!
