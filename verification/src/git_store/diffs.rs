//! The comparisons of buffers that are open: which exist, which are being loaded, and
//! who they are shared with.

use vstd::prelude::*;
use crate::collections::{Same, VecMap, VecSet};
use crate::git_store::diff_state::{
    bases_from_proto, carried, change_model, plan_for, started, text_model, with_bases,
    BufferGitState, DiffBasesChange, DiffKind, RecalculationPlan, UpdateDiffBases,
};
use crate::git_store::snapshot::{status_at, RepositoryId, RepositorySnapshot};
use crate::numbers::{following, number_after};
use crate::path::RelPath;
use crate::rpc::peer::PeerId;

verus! {

/// What is known of a buffer. A comparison or a set of conflicts goes by its number, and
/// lives only as long as someone uses it.
#[derive(Debug)]
pub struct BufferDiffs {
    pub unstaged_diff: Option<u64>,
    pub uncommitted_diff: Option<u64>,
    pub conflict_set: Option<u64>,
    /// Who waits for the conflicts to be looked for.
    pub conflict_waiters: Vec<u64>,
    /// The number of the search for conflicts that was started last. Only its result is
    /// used.
    pub conflict_search: u64,
    pub state: BufferGitState,
}

/// The comparisons of a buffer that a peer uses.
#[derive(Copy, Clone, Debug, PartialEq, Eq, Structural)]
pub struct SharedDiffs {
    pub unstaged: Option<u64>,
    pub uncommitted: Option<u64>,
}

/// A comparison that is being loaded.
#[derive(Copy, Clone, Debug, PartialEq, Eq, Structural)]
pub struct LoadingDiff {
    pub buffer_id: u64,
    pub kind: DiffKind,
}

impl Same for LoadingDiff {
    fn same(&self, other: &LoadingDiff) -> (r: bool) {
        *self == *other
    }
}

/// A buffer that a peer uses.
#[derive(Copy, Clone, Debug, PartialEq, Eq, Structural)]
pub struct SharedKey {
    pub peer_id: PeerId,
    pub buffer_id: u64,
}

impl Same for SharedKey {
    fn same(&self, other: &SharedKey) -> (r: bool) {
        *self == *other
    }
}

/// The comparisons of all buffers.
#[derive(Debug)]
pub struct DiffStore {
    pub diffs: VecMap<u64, BufferDiffs>,
    pub loading_diffs: VecSet<LoadingDiff>,
    pub shared_diffs: VecMap<SharedKey, SharedDiffs>,
}

/// What comes of opening a comparison.
#[derive(Copy, Clone, Debug, PartialEq, Eq, Structural)]
pub enum OpenedDiff {
    /// There is one.
    Ready(u64),
    /// There is one, which is being recalculated.
    AfterRecalculation(u64),
    /// The buffer lies in no repository.
    NoRepository,
    /// The texts are already being read.
    Loading,
    /// The texts are to be read.
    Load,
}

/// Why a comparison cannot be opened.
pub const NO_REPOSITORY: &'static str = "failed to find git repository for buffer";

/// What a number stands for, if it still lives.
pub open spec fn live_one(id: Option<u64>, live: Set<u64>) -> Option<u64> {
    match id {
        Some(id) => if live.contains(id) {
            Some(id)
        } else {
            None
        },
        None => None,
    }
}

pub(crate) fn upgrade(id: Option<u64>, live: &VecSet<u64>) -> (r: Option<u64>)
    ensures
        r == live_one(id, live@),
{
    match id {
        Some(id) => if live.contains(&id) {
            Some(id)
        } else {
            None
        },
        None => None,
    }
}

/// The comparison of a kind.
pub open spec fn diff_of(diffs: BufferDiffs, kind: DiffKind) -> Option<u64> {
    match kind {
        DiffKind::Unstaged => diffs.unstaged_diff,
        DiffKind::Uncommitted => diffs.uncommitted_diff,
    }
}

/// The comparison of a buffer that lives.
pub open spec fn open_diff_of(
    diffs: Map<u64, BufferDiffs>,
    buffer_id: u64,
    kind: DiffKind,
    live: Set<u64>,
) -> Option<u64> {
    if diffs.contains_key(buffer_id) {
        live_one(diff_of(diffs[buffer_id], kind), live)
    } else {
        None
    }
}

/// What comes of opening a comparison.
pub open spec fn opened(
    diffs: Map<u64, BufferDiffs>,
    loading: Set<LoadingDiff>,
    buffer_id: u64,
    kind: DiffKind,
    live: Set<u64>,
    in_repository: bool,
) -> OpenedDiff {
    match open_diff_of(diffs, buffer_id, kind, live) {
        Some(diff) => if diffs[buffer_id].state.recalculating {
            OpenedDiff::AfterRecalculation(diff)
        } else {
            OpenedDiff::Ready(diff)
        },
        None => if !in_repository {
            OpenedDiff::NoRepository
        } else if loading.contains(LoadingDiff { buffer_id, kind }) {
            OpenedDiff::Loading
        } else {
            OpenedDiff::Load
        },
    }
}

/// The buffer of which nothing is known.
pub open spec fn no_diffs(diffs: BufferDiffs) -> bool {
    &&& diffs.unstaged_diff is None
    &&& diffs.uncommitted_diff is None
    &&& diffs.conflict_set is None
    &&& diffs.conflict_waiters@ == Seq::<u64>::empty()
    &&& diffs.state == (BufferGitState {
        head_text: None,
        index_text: None,
        index_is_head: false,
        head_changed: false,
        index_changed: false,
        language_changed: false,
        hunk_staging_operation_count: 0,
        hunk_staging_operation_count_as_of_write: 0,
        recalculating: false,
        recalculation: 0,
    })
    &&& diffs.conflict_search == 0
}

/// What is known of a buffer, or nothing.
pub open spec fn known(diffs: Map<u64, BufferDiffs>, buffer_id: u64, d: BufferDiffs) -> bool {
    if diffs.contains_key(buffer_id) {
        d == diffs[buffer_id]
    } else {
        no_diffs(d)
    }
}

/// A comparison that was put in place.
#[derive(Copy, Clone, Debug, PartialEq, Eq, Structural)]
pub struct InstalledDiff {
    /// The comparison with the index that the comparison with the last commit refers to.
    pub secondary: Option<u64>,
    /// Whether that one is new.
    pub is_new_secondary: bool,
    /// What is to be compared.
    pub plan: RecalculationPlan,
}

/// The comparison with the index that goes with a new comparison.
pub open spec fn unstaged_beside(
    before: BufferDiffs,
    kind: DiffKind,
    diff: u64,
    new_unstaged: u64,
    live: Set<u64>,
) -> u64 {
    match kind {
        DiffKind::Unstaged => diff,
        DiffKind::Uncommitted => match live_one(before.unstaged_diff, live) {
            Some(unstaged) => unstaged,
            None => new_unstaged,
        },
    }
}

/// What is known of a buffer once a comparison is in place.
pub open spec fn installed(
    before: BufferDiffs,
    after: BufferDiffs,
    kind: DiffKind,
    change: DiffBasesChange,
    diff: u64,
    new_unstaged: u64,
    live: Set<u64>,
) -> bool {
    &&& after.unstaged_diff == Some(unstaged_beside(before, kind, diff, new_unstaged, live))
    &&& after.uncommitted_diff == match kind {
        DiffKind::Unstaged => before.uncommitted_diff,
        DiffKind::Uncommitted => Some(diff),
    }
    &&& after.conflict_set == before.conflict_set
    &&& after.conflict_waiters == before.conflict_waiters
    &&& after.conflict_search == before.conflict_search
    &&& with_bases(
        started(before.state),
        after.state,
        Some(change@),
    )
}

/// What a comparison that was put in place asks for.
pub open spec fn asked(
    before: BufferDiffs,
    after: BufferDiffs,
    kind: DiffKind,
    diff: u64,
    new_unstaged: u64,
    live: Set<u64>,
) -> InstalledDiff {
    match kind {
        DiffKind::Unstaged => InstalledDiff {
            secondary: None,
            is_new_secondary: false,
            plan: plan_for(after.state, true, live_one(before.uncommitted_diff, live) is Some),
        },
        DiffKind::Uncommitted => InstalledDiff {
            secondary: Some(unstaged_beside(before, kind, diff, new_unstaged, live)),
            is_new_secondary: live_one(before.unstaged_diff, live) is None,
            plan: plan_for(after.state, true, true),
        },
    }
}

/// The number of the last search for conflicts, after one that may have been started.
pub open spec fn search_after(diffs: BufferDiffs, search: Option<u64>) -> u64 {
    match search {
        Some(number) => number,
        None => diffs.conflict_search,
    }
}

impl BufferDiffs {
    pub fn new() -> (r: BufferDiffs)
        ensures
            no_diffs(r),
    {
        BufferDiffs {
            unstaged_diff: None,
            uncommitted_diff: None,
            conflict_set: None,
            conflict_waiters: Vec::new(),
            conflict_search: 0,
            state: BufferGitState::new(),
        }
    }

    /// Takes up new texts and starts to compare the buffer with them.
    pub fn diff_bases_changed(&mut self, change: Option<DiffBasesChange>, live: &VecSet<u64>) -> (r:
        RecalculationPlan)
        ensures
            with_bases(
                started(old(self).state),
                final(self).state,
                change_model(change),
            ),
            *final(self) == (BufferDiffs { state: final(self).state, ..*old(self) }),
            r == plan_for(
                final(self).state,
                live_one(old(self).unstaged_diff, live@) is Some,
                live_one(old(self).uncommitted_diff, live@) is Some,
            ),
    {
        self.state.diff_bases_changed(change);
        let has_unstaged: bool = upgrade(self.unstaged_diff, live).is_some();
        let has_uncommitted: bool = upgrade(self.uncommitted_diff, live).is_some();
        self.state.recalculate_diffs(has_unstaged, has_uncommitted)
    }

    /// Asks for the conflicts to be looked for, if the set of conflicts lives and the
    /// file is in conflict. The one who waits is told once that was done. Returns the
    /// number of the search, if there is to be one. A search that was started before is
    /// given up.
    pub fn reparse_conflict_markers(&mut self, waiter: u64, has_conflict: bool, live: &VecSet<u64>)
        -> (r: Option<u64>)
        ensures
            r == (if live_one(old(self).conflict_set, live@) is Some && has_conflict {
                Some(number_after(old(self).conflict_search))
            } else {
                None
            }),
            final(self).conflict_waiters@ == (if r is Some {
                old(self).conflict_waiters@.push(waiter)
            } else {
                old(self).conflict_waiters@
            }),
            *final(self) == (BufferDiffs {
                conflict_waiters: final(self).conflict_waiters,
                conflict_search: search_after(*old(self), r),
                ..*old(self)
            }),
    {
        if upgrade(self.conflict_set, live).is_some() && has_conflict {
            self.conflict_waiters.push(waiter);
            self.conflict_search = following(self.conflict_search);
            Some(self.conflict_search)
        } else {
            None
        }
    }

    /// Takes up that the conflicts were looked for. Returns who waited for it, if what was
    /// found is used: not if another search was started.
    pub fn conflict_markers_parsed(&mut self, number: u64) -> (r: Option<Vec<u64>>)
        ensures
            match r {
                Some(waiters) => {
                    &&& number == old(self).conflict_search
                    &&& waiters@ == old(self).conflict_waiters@
                    &&& final(self).conflict_waiters@ == Seq::<u64>::empty()
                    &&& *final(self) == (BufferDiffs {
                        conflict_waiters: final(self).conflict_waiters,
                        ..*old(self)
                    })
                },
                None => number != old(self).conflict_search && *final(self) == *old(self),
            },
    {
        if number != self.conflict_search {
            return None;
        }
        let mut waiters: Vec<u64> = Vec::new();
        std::mem::swap(&mut waiters, &mut self.conflict_waiters);
        Some(waiters)
    }
}

/// What is shared with others than a peer, or of another buffer.
pub open spec fn still_shared(
    shared: Map<SharedKey, SharedDiffs>,
    peer_id: Option<PeerId>,
    buffer_id: Option<u64>,
) -> Map<SharedKey, SharedDiffs> {
    shared.restrict(Set::new(|key: SharedKey| !is_meant(key, peer_id, buffer_id)))
}

/// Whether a peer and a buffer are meant. Without a name, all are.
pub open spec fn is_meant(key: SharedKey, peer_id: Option<PeerId>, buffer_id: Option<u64>) -> bool {
    &&& peer_id matches Some(id) ==> key.peer_id == id
    &&& buffer_id matches Some(id) ==> key.buffer_id == id
}

/// What is shared with a peer once it uses another comparison.
pub open spec fn also_shared(
    shared: Map<SharedKey, SharedDiffs>,
    key: SharedKey,
    kind: DiffKind,
    diff: u64,
) -> SharedDiffs {
    let before = if shared.contains_key(key) {
        shared[key]
    } else {
        SharedDiffs { unstaged: None, uncommitted: None }
    };
    match kind {
        DiffKind::Unstaged => SharedDiffs { unstaged: Some(diff), ..before },
        DiffKind::Uncommitted => SharedDiffs { uncommitted: Some(diff), ..before },
    }
}

impl DiffStore {
    pub open spec fn wf(&self) -> bool {
        &&& self.diffs.wf()
        &&& self.shared_diffs.wf()
    }

    pub fn new() -> (r: DiffStore)
        ensures
            r.wf(),
            r.diffs@ == Map::<u64, BufferDiffs>::empty(),
            r.loading_diffs@ == Set::<LoadingDiff>::empty(),
            r.shared_diffs@ == Map::<SharedKey, SharedDiffs>::empty(),
    {
        DiffStore {
            diffs: VecMap::new(),
            loading_diffs: VecSet::new(),
            shared_diffs: VecMap::new(),
        }
    }

    fn get_diff(&self, buffer_id: u64, kind: DiffKind, live: &VecSet<u64>) -> (r: Option<u64>)
        ensures
            r == open_diff_of(self.diffs@, buffer_id, kind, live@),
    {
        match self.diffs.get(&buffer_id) {
            Some(diffs) => match kind {
                DiffKind::Unstaged => upgrade(diffs.unstaged_diff, live),
                DiffKind::Uncommitted => upgrade(diffs.uncommitted_diff, live),
            },
            None => None,
        }
    }

    /// The comparison of a buffer with the index, if it is open.
    pub fn get_unstaged_diff(&self, buffer_id: u64, live: &VecSet<u64>) -> (r: Option<u64>)
        ensures
            r == open_diff_of(self.diffs@, buffer_id, DiffKind::Unstaged, live@),
    {
        self.get_diff(buffer_id, DiffKind::Unstaged, live)
    }

    /// The comparison of a buffer with the last commit, if it is open.
    pub fn get_uncommitted_diff(&self, buffer_id: u64, live: &VecSet<u64>) -> (r: Option<u64>)
        ensures
            r == open_diff_of(self.diffs@, buffer_id, DiffKind::Uncommitted, live@),
    {
        self.get_diff(buffer_id, DiffKind::Uncommitted, live)
    }

    fn open_diff(
        &mut self,
        buffer_id: u64,
        kind: DiffKind,
        live: &VecSet<u64>,
        in_repository: bool,
    ) -> (r: OpenedDiff)
        ensures
            r == opened(
                old(self).diffs@,
                old(self).loading_diffs@,
                buffer_id,
                kind,
                live@,
                in_repository,
            ),
            final(self).loading_diffs@ == if r is Load {
                old(self).loading_diffs@.insert(LoadingDiff { buffer_id, kind })
            } else {
                old(self).loading_diffs@
            },
            final(self).diffs == old(self).diffs,
            final(self).shared_diffs == old(self).shared_diffs,
    {
        if let Some(diff) = self.get_diff(buffer_id, kind, live) {
            if let Some(diffs) = self.diffs.get(&buffer_id) {
                if diffs.state.recalculating {
                    return OpenedDiff::AfterRecalculation(diff);
                }
            }
            return OpenedDiff::Ready(diff);
        }
        if !in_repository {
            return OpenedDiff::NoRepository;
        }
        if self.loading_diffs.insert(LoadingDiff { buffer_id, kind }) {
            OpenedDiff::Load
        } else {
            assert(old(self).loading_diffs@.insert(LoadingDiff { buffer_id, kind }) =~= old(
                self,
            ).loading_diffs@);
            OpenedDiff::Loading
        }
    }

    /// Opens the comparison of a buffer with the index. Its text is read once, however
    /// often the comparison is asked for meanwhile.
    pub fn open_unstaged_diff(&mut self, buffer_id: u64, live: &VecSet<u64>, in_repository: bool)
        -> (r: OpenedDiff)
        ensures
            r == opened(
                old(self).diffs@,
                old(self).loading_diffs@,
                buffer_id,
                DiffKind::Unstaged,
                live@,
                in_repository,
            ),
            final(self).loading_diffs@ == if r is Load {
                old(self).loading_diffs@.insert(
                    LoadingDiff { buffer_id, kind: DiffKind::Unstaged },
                )
            } else {
                old(self).loading_diffs@
            },
            final(self).diffs == old(self).diffs,
            final(self).shared_diffs == old(self).shared_diffs,
    {
        self.open_diff(buffer_id, DiffKind::Unstaged, live, in_repository)
    }

    /// Opens the comparison of a buffer with the last commit. Its texts are read once,
    /// however often the comparison is asked for meanwhile.
    pub fn open_uncommitted_diff(&mut self, buffer_id: u64, live: &VecSet<u64>, in_repository: bool)
        -> (r: OpenedDiff)
        ensures
            r == opened(
                old(self).diffs@,
                old(self).loading_diffs@,
                buffer_id,
                DiffKind::Uncommitted,
                live@,
                in_repository,
            ),
            final(self).loading_diffs@ == if r is Load {
                old(self).loading_diffs@.insert(
                    LoadingDiff { buffer_id, kind: DiffKind::Uncommitted },
                )
            } else {
                old(self).loading_diffs@
            },
            final(self).diffs == old(self).diffs,
            final(self).shared_diffs == old(self).shared_diffs,
    {
        self.open_diff(buffer_id, DiffKind::Uncommitted, live, in_repository)
    }

    pub(crate) fn take_diffs(&mut self, buffer_id: u64) -> (r: BufferDiffs)
        requires
            old(self).wf(),
        ensures
            known(old(self).diffs@, buffer_id, r),
            final(self).wf(),
            final(self).diffs@ == old(self).diffs@.remove(buffer_id),
            final(self).loading_diffs == old(self).loading_diffs,
            final(self).shared_diffs == old(self).shared_diffs,
    {
        match self.diffs.remove(&buffer_id) {
            Some(diffs) => diffs,
            None => BufferDiffs::new(),
        }
    }

    /// Puts a new comparison in place once the texts were read, or drops it if they could
    /// not be. A comparison with the last commit refers to one with the index, which is
    /// made if there is none.
    pub fn open_diff_internal(
        &mut self,
        buffer_id: u64,
        kind: DiffKind,
        texts: Result<DiffBasesChange, String>,
        diff: u64,
        new_unstaged: u64,
        live: &VecSet<u64>,
    ) -> (r: Result<InstalledDiff, String>)
        requires
            old(self).wf(),
        ensures
            final(self).wf(),
            final(self).loading_diffs@ == old(self).loading_diffs@.remove(
                LoadingDiff { buffer_id, kind },
            ),
            final(self).shared_diffs == old(self).shared_diffs,
            match texts {
                Err(error) => r == Err::<InstalledDiff, String>(error) && final(self).diffs@ == old(
                    self,
                ).diffs@,
                Ok(change) => exists|before: BufferDiffs, after: BufferDiffs|
                    {
                        &&& #[trigger] known(old(self).diffs@, buffer_id, before)
                        &&& #[trigger] installed(
                            before,
                            after,
                            kind,
                            change,
                            diff,
                            new_unstaged,
                            live@,
                        )
                        &&& final(self).diffs@ == old(self).diffs@.insert(buffer_id, after)
                        &&& r == Ok::<InstalledDiff, String>(
                            asked(before, after, kind, diff, new_unstaged, live@),
                        )
                    },
            },
    {
        let _ = self.loading_diffs.remove(&LoadingDiff { buffer_id, kind });
        let change = match texts {
            Ok(change) => change,
            Err(error) => {
                return Err(error);
            },
        };
        let ghost all = self.diffs@;
        let ghost model = change@;
        let mut diffs = self.take_diffs(buffer_id);
        let ghost before = diffs;
        let mut secondary: Option<u64> = None;
        let mut is_new_secondary: bool = false;
        let has_uncommitted: bool;
        match kind {
            DiffKind::Unstaged => {
                has_uncommitted = upgrade(diffs.uncommitted_diff, live).is_some();
                diffs.unstaged_diff = Some(diff);
            },
            DiffKind::Uncommitted => {
                has_uncommitted = true;
                match upgrade(diffs.unstaged_diff, live) {
                    Some(unstaged) => {
                        secondary = Some(unstaged);
                    },
                    None => {
                        diffs.unstaged_diff = Some(new_unstaged);
                        secondary = Some(new_unstaged);
                        is_new_secondary = true;
                    },
                }
                diffs.uncommitted_diff = Some(diff);
            },
        }
        diffs.state.diff_bases_changed(Some(change));
        let plan = diffs.state.recalculate_diffs(true, has_uncommitted);
        let ghost after = diffs;
        let _ = self.diffs.insert(buffer_id, diffs);
        assert(self.diffs@ =~= all.insert(buffer_id, after));
        assert(known(old(self).diffs@, buffer_id, before));
        assert(installed(before, after, kind, change, diff, new_unstaged, live@));
        Ok(InstalledDiff { secondary, is_new_secondary, plan })
    }

    /// Takes up that a comparison is used by a peer.
    pub fn share_diff(&mut self, peer_id: PeerId, buffer_id: u64, kind: DiffKind, diff: u64)
        requires
            old(self).wf(),
        ensures
            final(self).wf(),
            final(self).shared_diffs@ == old(self).shared_diffs@.insert(
                SharedKey { peer_id, buffer_id },
                also_shared(
                    old(self).shared_diffs@,
                    SharedKey { peer_id, buffer_id },
                    kind,
                    diff,
                ),
            ),
            final(self).diffs == old(self).diffs,
            final(self).loading_diffs == old(self).loading_diffs,
    {
        let key = SharedKey { peer_id, buffer_id };
        let mut shared = match self.shared_diffs.get(&key) {
            Some(shared) => *shared,
            None => SharedDiffs { unstaged: None, uncommitted: None },
        };
        match kind {
            DiffKind::Unstaged => {
                shared.unstaged = Some(diff);
            },
            DiffKind::Uncommitted => {
                shared.uncommitted = Some(diff);
            },
        }
        let _ = self.shared_diffs.insert(key, shared);
    }

    fn unshare(&mut self, peer_id: Option<PeerId>, buffer_id: Option<u64>)
        requires
            old(self).wf(),
        ensures
            final(self).wf(),
            final(self).shared_diffs@ == still_shared(old(self).shared_diffs@, peer_id, buffer_id),
            final(self).diffs == old(self).diffs,
            final(self).loading_diffs == old(self).loading_diffs,
    {
        let keys = self.shared_diffs.keys();
        let ghost all = self.shared_diffs@;
        let mut i: usize = 0;
        while i < keys.len()
            invariant
                i <= keys@.len(),
                self.wf(),
                self.diffs == old(self).diffs,
                self.loading_diffs == old(self).loading_diffs,
                all == old(self).shared_diffs@,
                forall|key: SharedKey| #[trigger] keys@.contains(key) == all.contains_key(key),
                self.shared_diffs@.dom().subset_of(all.dom()),
                forall|key: SharedKey| #[trigger]
                    self.shared_diffs@.contains_key(key) ==> self.shared_diffs@[key] == all[key],
                forall|key: SharedKey|
                    !is_meant(key, peer_id, buffer_id) ==> (#[trigger] self.shared_diffs@.contains_key(
                        key,
                    ) == all.contains_key(key)),
                forall|j: int|
                    0 <= j < i && is_meant(#[trigger] keys@[j], peer_id, buffer_id)
                        ==> !self.shared_diffs@.contains_key(keys@[j]),
            decreases keys.len() - i,
        {
            let key: SharedKey = keys[i];
            let is_peer: bool = match peer_id {
                Some(id) => key.peer_id == id,
                None => true,
            };
            let is_buffer: bool = match buffer_id {
                Some(id) => key.buffer_id == id,
                None => true,
            };
            if is_peer && is_buffer {
                let _ = self.shared_diffs.remove(&key);
            }
            i = i + 1;
        }
        proof {
            let left = still_shared(all, peer_id, buffer_id);
            assert forall|key: SharedKey|
                #[trigger] self.shared_diffs@.contains_key(key) == left.contains_key(key) by {
                if self.shared_diffs@.contains_key(key) && is_meant(key, peer_id, buffer_id) {
                    assert(all.dom().contains(key));
                    assert(keys@.contains(key));
                    let j: int = choose|j: int| 0 <= j < keys@.len() && keys@[j] == key;
                    assert(is_meant(keys@[j], peer_id, buffer_id));
                }
            }
            assert(self.shared_diffs@ =~= left);
        }
    }

    /// Takes up that a peer has left.
    pub fn forget_shared_diffs_for(&mut self, peer_id: PeerId)
        requires
            old(self).wf(),
        ensures
            final(self).wf(),
            final(self).shared_diffs@ == still_shared(
                old(self).shared_diffs@,
                Some(peer_id),
                None,
            ),
            final(self).diffs == old(self).diffs,
            final(self).loading_diffs == old(self).loading_diffs,
    {
        self.unshare(Some(peer_id), None);
    }

    /// Takes up that nothing is shared any more.
    pub fn unshared(&mut self)
        ensures
            old(self).wf() ==> final(self).wf(),
            final(self).shared_diffs@ == Map::<SharedKey, SharedDiffs>::empty(),
            final(self).diffs == old(self).diffs,
            final(self).loading_diffs == old(self).loading_diffs,
    {
        self.shared_diffs.clear();
    }

    /// Takes up what has happened to a buffer. A buffer whose language has changed is
    /// compared anew.
    pub fn on_buffer_store_event(&mut self, event: BufferStoreEvent, live: &VecSet<u64>) -> (r:
        Option<RecalculationPlan>)
        requires
            old(self).wf(),
        ensures
            final(self).wf(),
            final(self).diffs@ == match event {
                BufferStoreEvent::BufferDropped(id) => old(self).diffs@.remove(id),
                BufferStoreEvent::LanguageChanged(id) if old(self).diffs@.contains_key(id) => old(
                    self,
                ).diffs@.insert(id, with_new_language(old(self).diffs@[id])),
                _ => old(self).diffs@,
            },
            final(self).shared_diffs@ == match event {
                BufferStoreEvent::SharedBufferClosed(peer, id) => old(self).shared_diffs@.remove(
                    SharedKey { peer_id: peer, buffer_id: id },
                ),
                BufferStoreEvent::BufferDropped(id) => still_shared(
                    old(self).shared_diffs@,
                    None,
                    Some(id),
                ),
                _ => old(self).shared_diffs@,
            },
            final(self).loading_diffs == old(self).loading_diffs,
            r == match event {
                BufferStoreEvent::LanguageChanged(id) if old(self).diffs@.contains_key(id) => Some(
                    plan_for(
                        with_new_language(old(self).diffs@[id]).state,
                        live_one(old(self).diffs@[id].unstaged_diff, live@) is Some,
                        live_one(old(self).diffs@[id].uncommitted_diff, live@) is Some,
                    ),
                ),
                _ => None,
            },
    {
        match event {
            BufferStoreEvent::LanguageChanged(id) => {
                let ghost all = self.diffs@;
                match self.diffs.remove(&id) {
                    Some(mut diffs) => {
                        diffs.state.buffer_language_changed();
                        let has_unstaged: bool = upgrade(diffs.unstaged_diff, live).is_some();
                        let has_uncommitted: bool = upgrade(diffs.uncommitted_diff, live).is_some();
                        let plan = diffs.state.recalculate_diffs(has_unstaged, has_uncommitted);
                        let ghost after = diffs;
                        let _ = self.diffs.insert(id, diffs);
                        assert(self.diffs@ =~= all.insert(id, after));
                        Some(plan)
                    },
                    None => {
                        assert(self.diffs@ =~= all);
                        None
                    },
                }
            },
            BufferStoreEvent::SharedBufferClosed(peer, id) => {
                let _ = self.shared_diffs.remove(&SharedKey { peer_id: peer, buffer_id: id });
                None
            },
            BufferStoreEvent::BufferDropped(id) => {
                let _ = self.diffs.remove(&id);
                self.unshare(None, Some(id));
                None
            },
            BufferStoreEvent::BufferAdded(_) => None,
        }
    }

    /// Takes up texts that were sent. They are left out if the buffer is not compared, if
    /// it is not open, or if it is not known which texts they are.
    pub fn handle_update_diff_bases(
        &mut self,
        buffer_id: u64,
        message: Option<UpdateDiffBases>,
        is_open: bool,
        live: &VecSet<u64>,
    ) -> (r: Option<RecalculationPlan>)
        requires
            old(self).wf(),
        ensures
            final(self).wf(),
            final(self).loading_diffs == old(self).loading_diffs,
            final(self).shared_diffs == old(self).shared_diffs,
            if old(self).diffs@.contains_key(buffer_id) && is_open && message is Some {
                let before = old(self).diffs@[buffer_id];
                exists|state: BufferGitState|
                    {
                        &&& #[trigger] with_bases(
                            started(before.state),
                            state,
                            Some(
                                carried(
                                    message->0.mode,
                                    text_model(message->0.staged_text),
                                    text_model(message->0.committed_text),
                                ),
                            ),
                        )
                        &&& final(self).diffs@ == old(self).diffs@.insert(
                            buffer_id,
                            BufferDiffs { state, ..before },
                        )
                        &&& r == Some(
                            plan_for(
                                state,
                                live_one(before.unstaged_diff, live@) is Some,
                                live_one(before.uncommitted_diff, live@) is Some,
                            ),
                        )
                    }
            } else {
                r is None && final(self).diffs@ == old(self).diffs@
            },
    {
        if !is_open || !self.diffs.contains_key(&buffer_id) {
            return None;
        }
        let message = match message {
            Some(message) => message,
            None => {
                return None;
            },
        };
        let ghost all = self.diffs@;
        let change = bases_from_proto(message);
        let mut diffs = self.take_diffs(buffer_id);
        let plan = diffs.diff_bases_changed(Some(change), live);
        let ghost after = diffs;
        let _ = self.diffs.insert(buffer_id, diffs);
        assert(self.diffs@ =~= all.insert(buffer_id, after));
        assert(with_bases(
            started(all[buffer_id].state),
            after.state,
            Some(change@),
        ));
        Some(plan)
    }

    /// Takes up that hunks were staged or unstaged. The text of the index is to be written
    /// if the buffer is compared and lies in a repository. Returns how often hunks of the
    /// buffer were staged or unstaged.
    pub fn on_buffer_diff_event(&mut self, buffer_id: u64, in_repository: bool) -> (r: Option<
        usize,
    >)
        requires
            old(self).wf(),
            old(self).diffs@.contains_key(buffer_id) ==> old(
                self,
            ).diffs@[buffer_id].state.hunk_staging_operation_count < usize::MAX,
        ensures
            final(self).wf(),
            final(self).loading_diffs == old(self).loading_diffs,
            final(self).shared_diffs == old(self).shared_diffs,
            if old(self).diffs@.contains_key(buffer_id) {
                let before = old(self).diffs@[buffer_id];
                let count = (before.state.hunk_staging_operation_count + 1) as usize;
                &&& final(self).diffs@ == old(self).diffs@.insert(
                    buffer_id,
                    BufferDiffs {
                        state: BufferGitState {
                            hunk_staging_operation_count: count,
                            ..before.state
                        },
                        ..before
                    },
                )
                &&& r == if in_repository {
                    Some(count)
                } else {
                    None
                }
            } else {
                r is None && final(self).diffs@ == old(self).diffs@
            },
    {
        if !self.diffs.contains_key(&buffer_id) {
            return None;
        }
        let ghost all = self.diffs@;
        let mut diffs = self.take_diffs(buffer_id);
        let count: usize = diffs.state.hunks_staged_or_unstaged();
        let ghost after = diffs;
        let _ = self.diffs.insert(buffer_id, diffs);
        assert(self.diffs@ =~= all.insert(buffer_id, after));
        if in_repository {
            Some(count)
        } else {
            None
        }
    }

    /// Takes up that the text of the index was written.
    pub fn index_text_written(&mut self, buffer_id: u64, operation_count: usize)
        requires
            old(self).wf(),
        ensures
            final(self).wf(),
            final(self).loading_diffs == old(self).loading_diffs,
            final(self).shared_diffs == old(self).shared_diffs,
            final(self).diffs@ == if old(self).diffs@.contains_key(buffer_id) {
                let before = old(self).diffs@[buffer_id];
                old(self).diffs@.insert(
                    buffer_id,
                    BufferDiffs {
                        state: BufferGitState {
                            hunk_staging_operation_count_as_of_write: operation_count,
                            ..before.state
                        },
                        ..before
                    },
                )
            } else {
                old(self).diffs@
            },
    {
        if !self.diffs.contains_key(&buffer_id) {
            return;
        }
        let ghost all = self.diffs@;
        let mut diffs = self.take_diffs(buffer_id);
        diffs.state.index_written(operation_count);
        let ghost after = diffs;
        let _ = self.diffs.insert(buffer_id, diffs);
        assert(self.diffs@ =~= all.insert(buffer_id, after));
    }

    /// Starts to compare buffers anew, and to look for their conflicts where the set of
    /// conflicts lives and the file is in conflict. Buffers that are not compared are left
    /// out.
    pub fn recalculate_buffer_diffs(&mut self, buffers: &Vec<BufferToCompare>, live: &VecSet<u64>)
        -> (r: Vec<Recalculation>)
        requires
            old(self).wf(),
        ensures
            final(self).wf(),
            final(self).loading_diffs == old(self).loading_diffs,
            final(self).shared_diffs == old(self).shared_diffs,
            r@ == recalculations(old(self).diffs@, buffers@, live@),
            final(self).diffs@.dom() == old(self).diffs@.dom(),
            forall|id: u64| #[trigger]
                final(self).diffs@.contains_key(id) ==> is_recalculated(
                    old(self).diffs@[id],
                    final(self).diffs@[id],
                    buffers@,
                    id,
                    live@,
                ),
    {
        let mut r: Vec<Recalculation> = Vec::new();
        let mut i: usize = 0;
        let ghost all = self.diffs@;
        assert(buffers@.take(0) =~= Seq::<BufferToCompare>::empty());
        proof {
            assert forall|id: u64| #[trigger] all.contains_key(id) implies is_recalculated(
                all[id],
                all[id],
                buffers@.take(0),
                id,
                live@,
            ) by {
                assert(all[id].conflict_waiters@ + Seq::<u64>::empty()
                    =~= all[id].conflict_waiters@);
            }
        }
        while i < buffers.len()
            invariant
                i <= buffers@.len(),
                self.wf(),
                self.loading_diffs == old(self).loading_diffs,
                self.shared_diffs == old(self).shared_diffs,
                all == old(self).diffs@,
                r@ == recalculations(all, buffers@.take(i as int), live@),
                self.diffs@.dom() =~= all.dom(),
                forall|id: u64| #[trigger]
                    self.diffs@.contains_key(id) ==> is_recalculated(
                        all[id],
                        self.diffs@[id],
                        buffers@.take(i as int),
                        id,
                        live@,
                    ),
            decreases buffers.len() - i,
        {
            let buffer = buffers[i];
            let id: u64 = buffer.buffer_id;
            let ghost now = self.diffs@;
            let ghost done = buffers@.take(i as int);
            let ghost next = buffers@.take(i + 1);
            assert(next.drop_last() =~= done);
            assert(next.last() == buffer);
            match self.diffs.remove(&id) {
                Some(mut diffs) => {
                    assert(now.contains_key(id) && diffs == now[id]);
                    let has_unstaged: bool = upgrade(diffs.unstaged_diff, live).is_some();
                    let has_uncommitted: bool = upgrade(diffs.uncommitted_diff, live).is_some();
                    let plan = diffs.state.recalculate_diffs(has_unstaged, has_uncommitted);
                    let reparse: Option<u64> = diffs.reparse_conflict_markers(
                        buffer.waiter,
                        buffer.has_conflict,
                        live,
                    );
                    let ghost after = diffs;
                    proof {
                        assert(added_waiters(all[id], next, id, live@) =~= if reparse is Some {
                            added_waiters(all[id], done, id, live@).push(buffer.waiter)
                        } else {
                            added_waiters(all[id], done, id, live@)
                        });
                        assert(after.conflict_waiters@ =~= all[id].conflict_waiters@
                            + added_waiters(all[id], next, id, live@));
                        assert(is_recalculated(all[id], after, next, id, live@));
                    }
                    let _ = self.diffs.insert(id, diffs);
                    assert(self.diffs@ =~= now.insert(id, after));
                    r.push(Recalculation { buffer_id: id, plan, reparse });
                },
                None => {
                    assert(self.diffs@ =~= now);
                },
            }
            proof {
                assert forall|other: u64| #[trigger]
                    self.diffs@.contains_key(other) implies is_recalculated(
                    all[other],
                    self.diffs@[other],
                    next,
                    other,
                    live@,
                ) by {
                    if other != id {
                        assert(now.contains_key(other) && self.diffs@[other] == now[other]);
                    }
                }
            }
            i = i + 1;
        }
        assert(buffers@.take(i as int) =~= buffers@);
        assert(self.diffs@.dom() =~= old(self).diffs@.dom());
        r
    }

    /// Opens the conflicts of a buffer. If they are not open, a new set takes their place.
    /// Either way they are looked for if the file is in conflict: an open set says itself
    /// whether it is, and a new one takes it from the repository.
    pub fn open_conflict_set(
        &mut self,
        buffer_id: u64,
        new_set: u64,
        waiter: u64,
        has_conflict: bool,
        is_unmerged: bool,
        live: &VecSet<u64>,
    ) -> (r: OpenedConflictSet)
        requires
            old(self).wf(),
            live@.contains(new_set),
        ensures
            final(self).wf(),
            final(self).loading_diffs == old(self).loading_diffs,
            final(self).shared_diffs == old(self).shared_diffs,
            exists|before: BufferDiffs, after: BufferDiffs|
                {
                    &&& #[trigger] known(old(self).diffs@, buffer_id, before)
                    &&& #[trigger] with_conflict_set(before, after, r, waiter)
                    &&& final(self).diffs@ == old(self).diffs@.insert(buffer_id, after)
                    &&& r == match live_one(before.conflict_set, live@) {
                        Some(set) => OpenedConflictSet {
                            set,
                            is_new: false,
                            reparse: search_if(has_conflict, before),
                        },
                        None => OpenedConflictSet {
                            set: new_set,
                            is_new: true,
                            reparse: search_if(is_unmerged, before),
                        },
                    }
                },
    {
        let ghost all = self.diffs@;
        let mut diffs = self.take_diffs(buffer_id);
        let ghost before = diffs;
        let r = match upgrade(diffs.conflict_set, live) {
            Some(set) => {
                let reparse: Option<u64> = diffs.reparse_conflict_markers(waiter, has_conflict, live);
                OpenedConflictSet { set, is_new: false, reparse }
            },
            None => {
                diffs.conflict_set = Some(new_set);
                let reparse: Option<u64> = diffs.reparse_conflict_markers(waiter, is_unmerged, live);
                OpenedConflictSet { set: new_set, is_new: true, reparse }
            },
        };
        let ghost after = diffs;
        let _ = self.diffs.insert(buffer_id, diffs);
        assert(self.diffs@ =~= all.insert(buffer_id, after));
        assert(known(old(self).diffs@, buffer_id, before));
        assert(with_conflict_set(before, after, r, waiter));
        r
    }

    /// Takes up that a repository has changed: which of the buffers that lie in it and have
    /// a set of conflicts are in conflict now.
    pub fn conflict_statuses(&self, snapshot: &RepositorySnapshot, located: &Vec<LocatedBuffer>) -> (r:
        Vec<ConflictStatus>)
        ensures
            r@ == statuses_of(self.diffs@, *snapshot, located@),
    {
        let mut r: Vec<ConflictStatus> = Vec::new();
        let mut i: usize = 0;
        assert(located@.take(0) =~= Seq::<LocatedBuffer>::empty());
        while i < located.len()
            invariant
                i <= located@.len(),
                r@ == statuses_of(self.diffs@, *snapshot, located@.take(i as int)),
            decreases located.len() - i,
        {
            assert(located@.take(i + 1).drop_last() =~= located@.take(i as int));
            assert(located@.take(i + 1).last() == located@[i as int]);
            let buffer = &located[i];
            if buffer.repository_id.0 == snapshot.id.0 {
                if let Some(diffs) = self.diffs.get(&buffer.buffer_id) {
                    if let Some(conflict_set) = diffs.conflict_set {
                        r.push(
                            ConflictStatus {
                                buffer_id: buffer.buffer_id,
                                conflict_set,
                                has_conflict: snapshot.has_conflict(&buffer.repo_path),
                            },
                        );
                    }
                }
            }
            i = i + 1;
        }
        assert(located@.take(i as int) =~= located@);
        r
    }
}

/// What happens to a buffer.
#[derive(Copy, Clone, Debug, PartialEq, Eq, Structural)]
pub enum BufferStoreEvent {
    BufferAdded(u64),
    LanguageChanged(u64),
    /// A peer has closed a buffer.
    SharedBufferClosed(PeerId, u64),
    BufferDropped(u64),
}

/// What is known of a buffer whose language has changed.
pub open spec fn with_new_language(diffs: BufferDiffs) -> BufferDiffs {
    BufferDiffs {
        state: started(BufferGitState { language_changed: true, ..diffs.state }),
        ..diffs
    }
}

/// A buffer that is to be compared anew.
#[derive(Copy, Clone, Debug, PartialEq, Eq, Structural)]
pub struct BufferToCompare {
    pub buffer_id: u64,
    /// Who waits for the conflicts of the buffer to be looked for.
    pub waiter: u64,
    /// Whether the set of conflicts of the buffer says that there are any.
    pub has_conflict: bool,
}

/// What is to be done for a buffer that is compared anew.
#[derive(Copy, Clone, Debug, PartialEq, Eq, Structural)]
pub struct Recalculation {
    pub buffer_id: u64,
    pub plan: RecalculationPlan,
    /// The number of the search for conflicts, if they are to be looked for.
    pub reparse: Option<u64>,
}

/// The state of a buffer after it was compared as often as it is among some.
pub open spec fn started_for(
    state: BufferGitState,
    buffers: Seq<BufferToCompare>,
    id: u64,
) -> BufferGitState
    decreases buffers.len(),
{
    if buffers.len() == 0 {
        state
    } else {
        let before = started_for(state, buffers.drop_last(), id);
        if buffers.last().buffer_id == id {
            started(before)
        } else {
            before
        }
    }
}

/// Whether the conflicts of a buffer are to be looked for.
pub open spec fn is_searched(
    diffs: BufferDiffs,
    buffer: BufferToCompare,
    id: u64,
    live: Set<u64>,
) -> bool {
    buffer.buffer_id == id && buffer.has_conflict && live_one(diffs.conflict_set, live) is Some
}

/// The number of the last search for the conflicts of a buffer.
pub open spec fn searches_for(
    diffs: BufferDiffs,
    buffers: Seq<BufferToCompare>,
    id: u64,
    live: Set<u64>,
) -> u64
    decreases buffers.len(),
{
    if buffers.len() == 0 {
        diffs.conflict_search
    } else {
        let before = searches_for(diffs, buffers.drop_last(), id, live);
        if is_searched(diffs, buffers.last(), id, live) {
            number_after(before)
        } else {
            before
        }
    }
}

/// Those who begin to wait for the conflicts of a buffer.
pub open spec fn added_waiters(
    diffs: BufferDiffs,
    buffers: Seq<BufferToCompare>,
    id: u64,
    live: Set<u64>,
) -> Seq<u64>
    decreases buffers.len(),
{
    if buffers.len() == 0 {
        Seq::empty()
    } else {
        let before = added_waiters(diffs, buffers.drop_last(), id, live);
        if is_searched(diffs, buffers.last(), id, live) {
            before.push(buffers.last().waiter)
        } else {
            before
        }
    }
}

/// Whether a buffer was compared as often as it is among some, and those wait for its
/// conflicts who should.
pub open spec fn is_recalculated(
    before: BufferDiffs,
    after: BufferDiffs,
    buffers: Seq<BufferToCompare>,
    id: u64,
    live: Set<u64>,
) -> bool {
    &&& after == (BufferDiffs {
        state: started_for(before.state, buffers, id),
        conflict_search: searches_for(before, buffers, id, live),
        conflict_waiters: after.conflict_waiters,
        ..before
    })
    &&& after.conflict_waiters@ == before.conflict_waiters@ + added_waiters(
        before,
        buffers,
        id,
        live,
    )
}

/// What is to be done for buffers that are compared anew.
pub open spec fn recalculations(
    diffs: Map<u64, BufferDiffs>,
    buffers: Seq<BufferToCompare>,
    live: Set<u64>,
) -> Seq<Recalculation>
    decreases buffers.len(),
{
    if buffers.len() == 0 {
        Seq::empty()
    } else {
        let before = recalculations(diffs, buffers.drop_last(), live);
        let id = buffers.last().buffer_id;
        if diffs.contains_key(id) {
            before.push(
                Recalculation {
                    buffer_id: id,
                    plan: plan_for(
                        started_for(diffs[id].state, buffers, id),
                        live_one(diffs[id].unstaged_diff, live) is Some,
                        live_one(diffs[id].uncommitted_diff, live) is Some,
                    ),
                    reparse: if is_searched(diffs[id], buffers.last(), id, live) {
                        Some(searches_for(diffs[id], buffers, id, live))
                    } else {
                        None
                    },
                },
            )
        } else {
            before
        }
    }
}

/// A set of conflicts that was opened.
#[derive(Copy, Clone, Debug, PartialEq, Eq, Structural)]
pub struct OpenedConflictSet {
    pub set: u64,
    pub is_new: bool,
    /// The number of the search for conflicts, if they are to be looked for.
    pub reparse: Option<u64>,
}

/// The number of the next search for the conflicts of a buffer, if there is to be one.
pub open spec fn search_if(has_conflict: bool, diffs: BufferDiffs) -> Option<u64> {
    if has_conflict {
        Some(number_after(diffs.conflict_search))
    } else {
        None
    }
}

/// What is known of a buffer once its conflicts are open.
pub open spec fn with_conflict_set(
    before: BufferDiffs,
    after: BufferDiffs,
    opened: OpenedConflictSet,
    waiter: u64,
) -> bool {
    &&& after == (BufferDiffs {
        conflict_set: Some(opened.set),
        conflict_waiters: after.conflict_waiters,
        conflict_search: search_after(before, opened.reparse),
        ..before
    })
    &&& after.conflict_waiters@ == if opened.reparse is Some {
        before.conflict_waiters@.push(waiter)
    } else {
        before.conflict_waiters@
    }
}

/// A buffer and where it lies.
#[derive(Debug)]
pub struct LocatedBuffer {
    pub buffer_id: u64,
    pub repository_id: RepositoryId,
    pub repo_path: RelPath,
}

/// Whether a buffer is in conflict.
#[derive(Copy, Clone, Debug, PartialEq, Eq, Structural)]
pub struct ConflictStatus {
    pub buffer_id: u64,
    pub conflict_set: u64,
    pub has_conflict: bool,
}

/// Which buffers that lie in a repository are in conflict.
pub open spec fn statuses_of(
    diffs: Map<u64, BufferDiffs>,
    snapshot: RepositorySnapshot,
    located: Seq<LocatedBuffer>,
) -> Seq<ConflictStatus>
    decreases located.len(),
{
    if located.len() == 0 {
        Seq::empty()
    } else {
        let before = statuses_of(diffs, snapshot, located.drop_last());
        let buffer = located.last();
        if buffer.repository_id == snapshot.id && diffs.contains_key(buffer.buffer_id)
            && diffs[buffer.buffer_id].conflict_set is Some {
            before.push(
                ConflictStatus {
                    buffer_id: buffer.buffer_id,
                    conflict_set: diffs[buffer.buffer_id].conflict_set->0,
                    has_conflict: snapshot.conflicted_paths@.contains(buffer.repo_path@)
                        || match status_at(snapshot.statuses_by_path@, buffer.repo_path@) {
                        Some(status) => status is Unmerged,
                        None => false,
                    },
                },
            )
        } else {
            before
        }
    }
}

/// A comparison that was put in place is found again as long as it lives, and opening it
/// reads no text. The comparison with the index that a comparison with the last commit
/// refers to is found too.
pub proof fn law_opened_diff_is_found(
    diffs: Map<u64, BufferDiffs>,
    loading: Set<LoadingDiff>,
    buffer_id: u64,
    kind: DiffKind,
    change: DiffBasesChange,
    before: BufferDiffs,
    after: BufferDiffs,
    diff: u64,
    new_unstaged: u64,
    live: Set<u64>,
    later: Set<u64>,
    in_repository: bool,
)
    requires
        installed(before, after, kind, change, diff, new_unstaged, live),
    ensures
        later.contains(diff) ==> {
            &&& open_diff_of(diffs.insert(buffer_id, after), buffer_id, kind, later) == Some(diff)
            &&& opened(
                diffs.insert(buffer_id, after),
                loading,
                buffer_id,
                kind,
                later,
                in_repository,
            ) == OpenedDiff::AfterRecalculation(diff)
        },
        later.contains(unstaged_beside(before, kind, diff, new_unstaged, live)) ==> open_diff_of(
            diffs.insert(buffer_id, after),
            buffer_id,
            DiffKind::Unstaged,
            later,
        ) == Some(unstaged_beside(before, kind, diff, new_unstaged, live)),
{
}

/// The texts of a comparison are read once: as long as they are being read, asking for the
/// comparison again does not lead to reading them.
pub proof fn law_texts_are_read_once(
    diffs: Map<u64, BufferDiffs>,
    loading: Set<LoadingDiff>,
    buffer_id: u64,
    kind: DiffKind,
    live: Set<u64>,
    in_repository: bool,
)
    ensures
        !(opened(
            diffs,
            loading.insert(LoadingDiff { buffer_id, kind }),
            buffer_id,
            kind,
            live,
            in_repository,
        ) is Load),
{
}

/// A peer that has left uses no comparison, and what others use stays.
pub proof fn law_left_peer_shares_nothing(
    shared: Map<SharedKey, SharedDiffs>,
    peer_id: PeerId,
    key: SharedKey,
)
    ensures
        key.peer_id == peer_id ==> !still_shared(shared, Some(peer_id), None).contains_key(key),
        key.peer_id != peer_id ==> {
            &&& still_shared(shared, Some(peer_id), None).contains_key(key) == shared.contains_key(
                key,
            )
            &&& shared.contains_key(key) ==> still_shared(shared, Some(peer_id), None)[key]
                == shared[key]
        },
{
}

} // verus!
