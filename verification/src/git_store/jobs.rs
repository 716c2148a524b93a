//! The jobs that wait to run on a repository.

use vstd::prelude::*;
use std::sync::Arc;
use crate::collections::VecMap;
use crate::path::RelPath;

verus! {

/// What a job does, for jobs that make earlier ones of the same kind needless.
#[derive(Debug)]
pub enum GitJobKey {
    WriteIndex(Arc<RelPath>),
    ReloadBufferDiffBases,
    RefreshStatuses,
}

/// Whether two jobs do the same.
pub open spec fn same_job(a: GitJobKey, b: GitJobKey) -> bool {
    match (a, b) {
        (GitJobKey::WriteIndex(x), GitJobKey::WriteIndex(y)) => x@ == y@,
        (GitJobKey::ReloadBufferDiffBases, GitJobKey::ReloadBufferDiffBases) => true,
        (GitJobKey::RefreshStatuses, GitJobKey::RefreshStatuses) => true,
        _ => false,
    }
}

impl GitJobKey {
    pub fn same(&self, other: &GitJobKey) -> (r: bool)
        ensures
            r == same_job(*self, *other),
    {
        match (self, other) {
            (GitJobKey::WriteIndex(a), GitJobKey::WriteIndex(b)) => a.same(&**b),
            (GitJobKey::ReloadBufferDiffBases, GitJobKey::ReloadBufferDiffBases) => true,
            (GitJobKey::RefreshStatuses, GitJobKey::RefreshStatuses) => true,
            _ => false,
        }
    }
}

/// A job.
#[derive(Debug)]
pub struct GitJob {
    pub id: u64,
    pub key: Option<GitJobKey>,
}

/// Jobs that wait, the next first.
#[derive(Debug)]
pub struct GitJobQueue {
    pub jobs: Vec<GitJob>,
}

/// Whether a job is made needless by one of some that come after it.
pub open spec fn superseded(job: GitJob, later: Seq<GitJob>) -> bool {
    job.key is Some && exists|i: int|
        0 <= i < later.len() && (#[trigger] later[i]).key is Some && same_job(
            job.key->0,
            later[i].key->0,
        )
}

/// The first job that no later one makes needless, and what waits after it.
pub open spec fn next_of(jobs: Seq<GitJob>) -> (Option<GitJob>, Seq<GitJob>)
    decreases jobs.len(),
{
    if jobs.len() == 0 {
        (None, jobs)
    } else if superseded(jobs.first(), jobs.drop_first()) {
        next_of(jobs.drop_first())
    } else {
        (Some(jobs.first()), jobs.drop_first())
    }
}

impl GitJobQueue {
    pub fn new() -> (queue: GitJobQueue)
        ensures
            queue.jobs@.len() == 0,
    {
        GitJobQueue { jobs: Vec::new() }
    }

    pub fn push(&mut self, job: GitJob)
        ensures
            final(self).jobs@ == old(self).jobs@.push(job),
    {
        self.jobs.push(job);
    }

    fn is_superseded(&self, job: &GitJob) -> (r: bool)
        ensures
            r == superseded(*job, self.jobs@),
    {
        match &job.key {
            None => false,
            Some(key) => {
                let mut i: usize = 0;
                while i < self.jobs.len()
                    invariant
                        i <= self.jobs@.len(),
                        job.key == Some(*key),
                        forall|j: int|
                            0 <= j < i ==> !((#[trigger] self.jobs@[j]).key is Some && same_job(
                                *key,
                                self.jobs@[j].key->0,
                            )),
                    decreases self.jobs.len() - i,
                {
                    if let Some(other) = &self.jobs[i].key {
                        if key.same(other) {
                            assert(self.jobs@[i as int].key is Some);
                            return true;
                        }
                    }
                    i = i + 1;
                }
                false
            },
        }
    }

    /// Takes the next job to run. Jobs that a later one makes needless are dropped.
    pub fn next(&mut self) -> (r: Option<GitJob>)
        ensures
            r == next_of(old(self).jobs@).0,
            final(self).jobs@ == next_of(old(self).jobs@).1,
    {
        let ghost all = self.jobs@;
        while self.jobs.len() > 0
            invariant
                all == old(self).jobs@,
                next_of(self.jobs@) == next_of(all),
            decreases self.jobs.len(),
        {
            let ghost before = self.jobs@;
            let job = self.jobs.remove(0);
            assert(self.jobs@ =~= before.drop_first());
            if !self.is_superseded(&job) {
                return Some(job);
            }
        }
        None
    }
}

/// A job that runs and has a message to show.
#[derive(Debug)]
pub struct JobInfo {
    /// When the job started, in the units of the clock that is used.
    pub start: u64,
    pub message: Arc<String>,
}

/// The jobs that run, and the number of the next one.
#[derive(Debug)]
pub struct ActiveJobs {
    pub jobs: VecMap<u64, JobInfo>,
    pub next_id: u64,
}

impl ActiveJobs {
    pub fn new() -> (r: ActiveJobs)
        ensures
            r.jobs.wf(),
            r.jobs@ == Map::<u64, JobInfo>::empty(),
            r.next_id == 0,
    {
        ActiveJobs { jobs: VecMap::new(), next_id: 0 }
    }

    /// A number for a job that no job before had.
    pub fn assign_id(&mut self) -> (r: u64)
        requires
            old(self).next_id < u64::MAX,
        ensures
            r == old(self).next_id,
            *final(self) == (ActiveJobs { next_id: (r + 1) as u64, ..*old(self) }),
    {
        let id: u64 = self.next_id;
        self.next_id = id + 1;
        id
    }

    /// Takes up that a job starts. One without a message is not shown.
    pub fn started(&mut self, id: u64, start: u64, message: Option<Arc<String>>)
        requires
            old(self).jobs.wf(),
        ensures
            final(self).jobs.wf(),
            final(self).next_id == old(self).next_id,
            final(self).jobs@ == match message {
                Some(message) => old(self).jobs@.insert(id, JobInfo { start, message }),
                None => old(self).jobs@,
            },
    {
        if let Some(message) = message {
            let _ = self.jobs.insert(id, JobInfo { start, message });
        }
    }

    /// A job that runs and is shown, if there is one.
    pub fn current_job(&self) -> (r: Option<&JobInfo>)
        requires
            self.jobs.wf(),
        ensures
            match r {
                Some(job) => exists|id: u64| #[trigger]
                    self.jobs@.contains_key(id) && *job == self.jobs@[id],
                None => self.jobs@ == Map::<u64, JobInfo>::empty(),
            },
    {
        let ids = self.jobs.keys();
        if ids.len() == 0 {
            proof {
                assert forall|id: u64| !(#[trigger] self.jobs@.contains_key(id)) by {
                    assert(!ids@.contains(id));
                }
            }
            assert(self.jobs@ =~= Map::<u64, JobInfo>::empty());
            None
        } else {
            assert(ids@.contains(ids@[0]));
            self.jobs.get(&ids[0])
        }
    }

    /// Takes up that a job has ended.
    pub fn finished(&mut self, id: u64)
        requires
            old(self).jobs.wf(),
        ensures
            final(self).jobs.wf(),
            final(self).next_id == old(self).next_id,
            final(self).jobs@ == old(self).jobs@.remove(id),
    {
        let _ = self.jobs.remove(&id);
    }
}

/// All jobs that run when those that wait are taken one after the other.
pub open spec fn run_order(jobs: Seq<GitJob>) -> Seq<GitJob>
    decreases jobs.len(),
{
    if jobs.len() == 0 {
        Seq::empty()
    } else {
        let rest = run_order(jobs.drop_first());
        if superseded(jobs.first(), jobs.drop_first()) {
            rest
        } else {
            seq![jobs.first()] + rest
        }
    }
}

/// Taking the next job takes the first of those that run.
pub proof fn law_next_is_first_to_run(jobs: Seq<GitJob>)
    ensures
        match next_of(jobs).0 {
            Some(job) => run_order(jobs) == seq![job] + run_order(next_of(jobs).1),
            None => run_order(jobs).len() == 0,
        },
    decreases jobs.len(),
{
    if jobs.len() > 0 && superseded(jobs.first(), jobs.drop_first()) {
        law_next_is_first_to_run(jobs.drop_first());
    }
}

/// A job without a key always runs.
pub proof fn law_job_without_key_runs(jobs: Seq<GitJob>, k: int)
    requires
        0 <= k < jobs.len(),
        jobs[k].key is None,
    ensures
        run_order(jobs).contains(jobs[k]),
    decreases jobs.len(),
{
    let rest = jobs.drop_first();
    if k == 0 {
        assert(run_order(jobs)[0] == jobs[0]);
    } else {
        assert(rest[k - 1] == jobs[k]);
        law_job_without_key_runs(rest, k - 1);
        let i: int = choose|i: int|
            0 <= i < run_order(rest).len() && run_order(rest)[i] == jobs[k];
        if superseded(jobs.first(), rest) {
            assert(run_order(jobs)[i] == jobs[k]);
        } else {
            assert(run_order(jobs)[i + 1] == jobs[k]);
        }
    }
}

/// Of jobs that do the same the last one runs.
pub proof fn law_last_of_a_kind_runs(jobs: Seq<GitJob>, k: int)
    requires
        0 <= k < jobs.len(),
        !superseded(jobs[k], jobs.skip(k + 1)),
    ensures
        run_order(jobs).contains(jobs[k]),
    decreases jobs.len(),
{
    let rest = jobs.drop_first();
    if k == 0 {
        assert(jobs.skip(1) =~= rest);
        assert(run_order(jobs)[0] == jobs[0]);
    } else {
        assert(rest[k - 1] == jobs[k]);
        assert(rest.skip(k) =~= jobs.skip(k + 1));
        law_last_of_a_kind_runs(rest, k - 1);
        let i: int = choose|i: int|
            0 <= i < run_order(rest).len() && run_order(rest)[i] == jobs[k];
        if superseded(jobs.first(), rest) {
            assert(run_order(jobs)[i] == jobs[k]);
        } else {
            assert(run_order(jobs)[i + 1] == jobs[k]);
        }
    }
}

/// Whether a job is done by another one too: both write the index of the same file, or both
/// read the texts of buffers again, or both look for changed files.
pub open spec fn does_the_same(a: GitJob, b: GitJob) -> bool {
    match (a.key, b.key) {
        (Some(GitJobKey::WriteIndex(x)), Some(GitJobKey::WriteIndex(y))) => x@ == y@,
        (
            Some(GitJobKey::ReloadBufferDiffBases),
            Some(GitJobKey::ReloadBufferDiffBases),
        ) => true,
        (Some(GitJobKey::RefreshStatuses), Some(GitJobKey::RefreshStatuses)) => true,
        _ => false,
    }
}

proof fn lemma_next_of(jobs: Seq<GitJob>, k: int)
    requires
        0 <= k < jobs.len(),
        forall|later: int|
            k < later < jobs.len() ==> !does_the_same(jobs[k], #[trigger] jobs[later]),
        forall|i: int|
            0 <= i < k ==> exists|later: int|
                i < later < jobs.len() && does_the_same(
                    #[trigger] jobs[i],
                    #[trigger] jobs[later],
                ),
    ensures
        next_of(jobs) == (Some(jobs[k]), jobs.skip(k + 1)),
    decreases k,
{
    let rest = jobs.drop_first();
    if k == 0 {
        assert(!superseded(jobs.first(), rest)) by {
            if superseded(jobs.first(), rest) {
                let i: int = choose|i: int|
                    0 <= i < rest.len() && (#[trigger] rest[i]).key is Some && same_job(
                        jobs.first().key->0,
                        rest[i].key->0,
                    );
                assert(rest[i] == jobs[i + 1]);
                assert(does_the_same(jobs[0], jobs[i + 1]));
            }
        }
        assert(jobs.skip(1) =~= rest);
    } else {
        let later: int = choose|later: int|
            0 < later < jobs.len() && does_the_same(jobs[0], #[trigger] jobs[later]);
        assert(jobs[0] == jobs.first());
        assert(rest[later - 1] == jobs[later]);
        assert(superseded(jobs.first(), rest));
        assert forall|i: int| k - 1 < i < rest.len() implies !does_the_same(
            rest[k - 1],
            #[trigger] rest[i],
        ) by {
            assert(rest[i] == jobs[i + 1]);
        }
        assert forall|i: int| 0 <= i < k - 1 implies exists|later: int|
            i < later < rest.len() && does_the_same(
                #[trigger] rest[i],
                #[trigger] rest[later],
            ) by {
            assert(rest[i] == jobs[i + 1]);
            let later: int = choose|later: int|
                i + 1 < later < jobs.len() && does_the_same(jobs[i + 1], #[trigger] jobs[later]);
            assert(rest[later - 1] == jobs[later]);
        }
        lemma_next_of(rest, k - 1);
        assert(rest.skip(k) =~= jobs.skip(k + 1));
    }
}

/// The next job is the first one that no later job does too. Those before it are left out, and
/// those after it wait.
pub proof fn law_jobs_are_done_once(queue: &mut GitJobQueue, r: Option<GitJob>, k: int)
    requires
        call_ensures(GitJobQueue::next, (queue,), r),
        0 <= k < old(queue).jobs@.len(),
        forall|later: int|
            k < later < old(queue).jobs@.len() ==> !does_the_same(
                old(queue).jobs@[k],
                #[trigger] old(queue).jobs@[later],
            ),
        forall|i: int|
            0 <= i < k ==> exists|later: int|
                i < later < old(queue).jobs@.len() && does_the_same(
                    #[trigger] old(queue).jobs@[i],
                    #[trigger] old(queue).jobs@[later],
                ),
    ensures
        r == Some(old(queue).jobs@[k]),
        final(queue).jobs@ == old(queue).jobs@.skip(k + 1),
{
    lemma_next_of(old(queue).jobs@, k);
}

} // verus!
