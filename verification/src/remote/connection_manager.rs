//! The projects whose connection is kept.

use vstd::prelude::*;

verus! {

/// How long to try to connect again, in seconds.
pub const RECONNECT_TIMEOUT: u64 = 30;

/// The projects whose connection is kept, and the task that keeps it.
#[derive(Debug)]
pub struct Manager {
    pub maintain_connection: Option<u64>,
    /// Each once.
    pub projects: Vec<u64>,
}

/// Whether a project is kept when another one, or itself, is released: it must still be
/// there and be another one on the remote side.
pub open spec fn is_kept(remote_id: Option<Option<u64>>, released: Option<u64>) -> bool {
    remote_id is Some && remote_id->0 != released
}

/// The projects that are kept.
pub open spec fn kept_projects(
    projects: Seq<u64>,
    remote_ids: Seq<Option<Option<u64>>>,
    released: Option<u64>,
) -> Seq<u64>
    decreases projects.len(),
{
    if projects.len() == 0 {
        Seq::empty()
    } else {
        let before = kept_projects(projects.drop_last(), remote_ids.drop_last(), released);
        if is_kept(remote_ids.last(), released) {
            before.push(projects.last())
        } else {
            before
        }
    }
}

fn same_id(a: Option<u64>, b: Option<u64>) -> (r: bool)
    ensures
        r == (a == b),
{
    match (a, b) {
        (Some(a), Some(b)) => a == b,
        (None, None) => true,
        _ => false,
    }
}

impl Manager {
    pub fn new() -> (r: Manager)
        ensures
            r.maintain_connection is None,
            r.projects@ == Seq::<u64>::empty(),
    {
        Manager { maintain_connection: None, projects: Vec::new() }
    }

    /// Keeps the connection of a project.
    pub fn maintain_project_connection(&mut self, project: u64)
        ensures
            final(self).maintain_connection == old(self).maintain_connection,
            final(self).projects@ == (if old(self).projects@.contains(project) {
                old(self).projects@
            } else {
                old(self).projects@.push(project)
            }),
    {
        let mut i: usize = 0;
        while i < self.projects.len()
            invariant
                i <= self.projects@.len(),
                *self == *old(self),
                forall|k: int| 0 <= k < i ==> #[trigger] self.projects@[k] != project,
            decreases self.projects.len() - i,
        {
            if self.projects[i] == project {
                assert(self.projects@[i as int] == project);
                return ;
            }
            i = i + 1;
        }
        self.projects.push(project);
    }

    /// Notes that a project was released. For each project it is told whether it is still
    /// there, and its id on the remote side. With no project left no connection is kept.
    pub fn project_released(
        &mut self,
        remote_ids: &Vec<Option<Option<u64>>>,
        released: Option<u64>,
    )
        requires
            old(self).projects@.len() == remote_ids@.len(),
        ensures
            final(self).projects@ == kept_projects(old(self).projects@, remote_ids@, released),
            final(self).maintain_connection == (if final(self).projects@.len() == 0 {
                None
            } else {
                old(self).maintain_connection
            }),
    {
        let mut kept: Vec<u64> = Vec::new();
        let mut i: usize = 0;
        let ghost all = self.projects@;
        assert(kept@ =~= kept_projects(all.take(0), remote_ids@.take(0), released));
        while i < self.projects.len()
            invariant
                i <= all.len(),
                all == self.projects@,
                *self == *old(self),
                all.len() == remote_ids@.len(),
                kept@ == kept_projects(all.take(i as int), remote_ids@.take(i as int), released),
            decreases all.len() - i,
        {
            proof {
                assert(all.take(i + 1).drop_last() =~= all.take(i as int));
                assert(remote_ids@.take(i + 1).drop_last() =~= remote_ids@.take(i as int));
                assert(all.take(i + 1).last() == all[i as int]);
                assert(remote_ids@.take(i + 1).last() == remote_ids@[i as int]);
            }
            if let Some(remote_id) = remote_ids[i] {
                if !same_id(remote_id, released) {
                    kept.push(self.projects[i]);
                }
            }
            i = i + 1;
        }
        assert(all.take(i as int) =~= all);
        assert(remote_ids@.take(i as int) =~= remote_ids@);
        self.projects = kept;
        if self.projects.len() == 0 {
            self.maintain_connection = None;
        }
    }
}

proof fn lemma_kept(
    projects: Seq<u64>,
    remote_ids: Seq<Option<Option<u64>>>,
    released: Option<u64>,
    i: int,
)
    requires
        projects.len() == remote_ids.len(),
        0 <= i < projects.len(),
        remote_ids[i] is Some,
        remote_ids[i]->0 != released,
    ensures
        kept_projects(projects, remote_ids, released).contains(projects[i]),
    decreases projects.len(),
{
    let rest = kept_projects(projects.drop_last(), remote_ids.drop_last(), released);
    let all = kept_projects(projects, remote_ids, released);
    if i == projects.len() - 1 {
        assert(all[rest.len() as int] == projects[i]);
    } else {
        assert(remote_ids.drop_last()[i] == remote_ids[i]);
        lemma_kept(projects.drop_last(), remote_ids.drop_last(), released, i);
        let k: int = choose|k: int| 0 <= k < rest.len() && rest[k] == projects[i];
        assert(all[k] == projects[i]);
    }
}

proof fn lemma_kept_was_there(
    projects: Seq<u64>,
    remote_ids: Seq<Option<Option<u64>>>,
    released: Option<u64>,
    k: int,
)
    requires
        projects.len() == remote_ids.len(),
        0 <= k < kept_projects(projects, remote_ids, released).len(),
    ensures
        is_connected(
            projects,
            remote_ids,
            released,
            kept_projects(projects, remote_ids, released)[k],
        ),
    decreases projects.len(),
{
    let init = projects.drop_last();
    let rest = kept_projects(init, remote_ids.drop_last(), released);
    let all = kept_projects(projects, remote_ids, released);
    if k < rest.len() {
        lemma_kept_was_there(init, remote_ids.drop_last(), released, k);
        let i: int = choose|i: int|
            0 <= i < init.len() && #[trigger] init[i] == rest[k] && remote_ids.drop_last()[i]
                is Some && remote_ids.drop_last()[i]->0 != released;
        assert(projects[i] == all[k]);
    } else {
        assert(projects[projects.len() - 1] == all[k]);
    }
}

/// Whether a project is still there under another remote id than the one that was released.
pub open spec fn is_connected(
    projects: Seq<u64>,
    remote_ids: Seq<Option<Option<u64>>>,
    released: Option<u64>,
    project: u64,
) -> bool {
    exists|i: int|
        0 <= i < projects.len() && #[trigger] projects[i] == project && remote_ids[i] is Some
            && remote_ids[i]->0 != released
}

/// Once a project was released, the connections of all others that are still there are kept,
/// and none but those. Without any there is no connection to keep.
pub proof fn law_other_projects_stay_connected(
    manager: &mut Manager,
    remote_ids: Vec<Option<Option<u64>>>,
    released: Option<u64>,
    r: (),
)
    requires
        old(manager).projects@.len() == remote_ids@.len(),
        call_ensures(Manager::project_released, (manager, &remote_ids, released), r),
    ensures
        forall|i: int|
            0 <= i < old(manager).projects@.len() && remote_ids@[i] is Some && remote_ids@[i]->0
                != released ==> final(manager).projects@.contains(
                #[trigger] old(manager).projects@[i],
            ),
        forall|k: int|
            0 <= k < final(manager).projects@.len() ==> is_connected(
                old(manager).projects@,
                remote_ids@,
                released,
                #[trigger] final(manager).projects@[k],
            ),
        final(manager).projects@.len() == 0 ==> final(manager).maintain_connection is None,
        final(manager).projects@.len() > 0 ==> final(manager).maintain_connection == old(
            manager,
        ).maintain_connection,
{
    let before = old(manager).projects@;
    assert forall|i: int|
        0 <= i < before.len() && remote_ids@[i] is Some && remote_ids@[i]->0
            != released implies final(manager).projects@.contains(#[trigger] before[i]) by {
        lemma_kept(before, remote_ids@, released, i);
    }
    assert forall|k: int| 0 <= k < final(manager).projects@.len() implies is_connected(
        before,
        remote_ids@,
        released,
        #[trigger] final(manager).projects@[k],
    ) by {
        lemma_kept_was_there(before, remote_ids@, released, k);
    }
}

} // verus!
