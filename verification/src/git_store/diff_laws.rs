//! Laws of the comparisons that are open and of who they are shared with.

use vstd::prelude::*;
use crate::collections::VecSet;
use crate::git_store::diff_state::{DiffBasesChange, DiffKind, RecalculationPlan};
use crate::git_store::diffs::{
    installed, known, with_conflict_set, BufferDiffs, BufferStoreEvent, BufferToCompare, ConflictStatus,
    DiffStore, InstalledDiff, LoadingDiff, LocatedBuffer, OpenedConflictSet, OpenedDiff,
    Recalculation, SharedKey,
};
use crate::git_store::snapshot::{status_at, RepositorySnapshot};
use crate::rpc::peer::PeerId;

verus! {

/// A comparison that is open is handed out, once it is done where it is being made. One that is
/// not is loaded, but only once at a time and only for a file in a repository.
pub proof fn law_open_comparison_is_handed_out(
    store: &mut DiffStore,
    other: &mut DiffStore,
    buffer_id: u64,
    live: VecSet<u64>,
    in_repository: bool,
    unstaged: OpenedDiff,
    uncommitted: OpenedDiff,
    found: Option<u64>,
)
    requires
        *old(other) == *old(store),
        call_ensures(
            DiffStore::open_unstaged_diff,
            (store, buffer_id, &live, in_repository),
            unstaged,
        ),
        call_ensures(
            DiffStore::open_uncommitted_diff,
            (other, buffer_id, &live, in_repository),
            uncommitted,
        ),
        call_ensures(DiffStore::get_unstaged_diff, (&*old(store), buffer_id, &live), found),
    ensures
        ({
            let diffs = old(store).diffs@;
            let is_known = diffs.contains_key(buffer_id);
            let has_unstaged = is_known && diffs[buffer_id].unstaged_diff is Some
                && live@.contains(diffs[buffer_id].unstaged_diff->0);
            let has_uncommitted = is_known && diffs[buffer_id].uncommitted_diff is Some
                && live@.contains(diffs[buffer_id].uncommitted_diff->0);
            &&& found is Some == has_unstaged
            &&& has_unstaged ==> found == diffs[buffer_id].unstaged_diff
            &&& has_unstaged && !diffs[buffer_id].state.recalculating ==> unstaged
                == OpenedDiff::Ready(diffs[buffer_id].unstaged_diff->0)
            &&& has_unstaged && diffs[buffer_id].state.recalculating ==> unstaged
                == OpenedDiff::AfterRecalculation(diffs[buffer_id].unstaged_diff->0)
            &&& has_uncommitted && !diffs[buffer_id].state.recalculating ==> uncommitted
                == OpenedDiff::Ready(diffs[buffer_id].uncommitted_diff->0)
            &&& has_uncommitted && diffs[buffer_id].state.recalculating ==> uncommitted
                == OpenedDiff::AfterRecalculation(diffs[buffer_id].uncommitted_diff->0)
            &&& !has_unstaged && !in_repository ==> unstaged is NoRepository
            &&& !has_uncommitted && !in_repository ==> uncommitted is NoRepository
            &&& !has_unstaged && in_repository ==> {
                let loading = LoadingDiff { buffer_id, kind: DiffKind::Unstaged };
                &&& unstaged is Loading <==> old(store).loading_diffs@.contains(loading)
                &&& unstaged is Load <==> !old(store).loading_diffs@.contains(loading)
                &&& final(store).loading_diffs@.contains(loading)
            }
            &&& !has_uncommitted && in_repository ==> {
                let loading = LoadingDiff { buffer_id, kind: DiffKind::Uncommitted };
                &&& uncommitted is Loading <==> old(store).loading_diffs@.contains(loading)
                &&& uncommitted is Load <==> !old(store).loading_diffs@.contains(loading)
                &&& final(other).loading_diffs@.contains(loading)
            }
        }),
{
}

/// A comparison that was loaded is kept as the one of its buffer. One with the last commit has
/// one with the index beside it, which is the one that is open where there is one. Where the
/// texts could not be read, all stays as it was.
pub proof fn law_loaded_comparison_is_kept(
    store: &mut DiffStore,
    buffer_id: u64,
    kind: DiffKind,
    texts: Result<DiffBasesChange, String>,
    diff: u64,
    new_unstaged: u64,
    live: VecSet<u64>,
    r: Result<InstalledDiff, String>,
)
    requires
        old(store).diffs@.contains_key(buffer_id),
        call_ensures(
            DiffStore::open_diff_internal,
            (store, buffer_id, kind, texts, diff, new_unstaged, &live),
            r,
        ),
    ensures
        !final(store).loading_diffs@.contains(LoadingDiff { buffer_id, kind }),
        texts matches Err(error) ==> r == Err::<InstalledDiff, String>(error) && final(
            store
        ).diffs@ == old(store).diffs@,
        texts is Ok ==> {
            let before = old(store).diffs@[buffer_id];
            let after = final(store).diffs@[buffer_id];
            let has_unstaged = before.unstaged_diff is Some && live@.contains(
                before.unstaged_diff->0,
            );
            &&& r is Ok && final(store).diffs@.contains_key(buffer_id)
            &&& kind is Unstaged ==> after.unstaged_diff == Some(diff) && after.uncommitted_diff
                == before.uncommitted_diff && r->Ok_0.secondary is None
            &&& kind is Uncommitted ==> after.uncommitted_diff == Some(diff)
                && after.unstaged_diff == (if has_unstaged {
                before.unstaged_diff
            } else {
                Some(new_unstaged)
            }) && r->Ok_0.secondary == after.unstaged_diff && r->Ok_0.is_new_secondary
                == !has_unstaged
            &&& after.conflict_set == before.conflict_set
            &&& forall|other: u64|
                other != buffer_id && #[trigger] old(store).diffs@.contains_key(other) ==> final(
                    store
                ).diffs@[other] == old(store).diffs@[other]
        },
{
    if let Ok(change) = texts {
        let (before, after) = choose|before: BufferDiffs, after: BufferDiffs|
            {
                &&& #[trigger] known(old(store).diffs@, buffer_id, before)
                &&& #[trigger] installed(
                    before,
                    after,
                    kind,
                    change,
                    diff,
                    new_unstaged,
                    live@,
                )
                &&& final(store).diffs@ == old(store).diffs@.insert(buffer_id, after)
                &&& r == Ok::<InstalledDiff, String>(
                    crate::git_store::diffs::asked(before, after, kind, diff, new_unstaged, live@),
                )
            };
        assert(before == old(store).diffs@[buffer_id]);
        assert(final(store).diffs@[buffer_id] == after);
    }
}

/// A comparison is shared with a peer for a buffer beside what was shared before. A peer that
/// leaves shares nothing any more, and the others do.
pub proof fn law_comparisons_are_shared(
    store: &mut DiffStore,
    left: &mut DiffStore,
    peer_id: PeerId,
    buffer_id: u64,
    kind: DiffKind,
    diff: u64,
    other: SharedKey,
)
    requires
        call_ensures(DiffStore::share_diff, (store, peer_id, buffer_id, kind, diff), ()),
        call_ensures(DiffStore::forget_shared_diffs_for, (left, peer_id), ()),
    ensures
        ({
            let key = SharedKey { peer_id, buffer_id };
            let before = old(store).shared_diffs@;
            let after = final(store).shared_diffs@;
            &&& after.contains_key(key)
            &&& kind is Unstaged ==> after[key].unstaged == Some(diff)
            &&& kind is Uncommitted ==> after[key].uncommitted == Some(diff)
            &&& kind is Unstaged && before.contains_key(key) ==> after[key].uncommitted
                == before[key].uncommitted
            &&& kind is Uncommitted && before.contains_key(key) ==> after[key].unstaged
                == before[key].unstaged
            &&& kind is Unstaged && !before.contains_key(key) ==> after[key].uncommitted is None
            &&& kind is Uncommitted && !before.contains_key(key) ==> after[key].unstaged is None
            &&& other != key ==> after.contains_key(other) == before.contains_key(other)
        }),
        final(left).shared_diffs@.contains_key(other) <==> old(
            left,
        ).shared_diffs@.contains_key(other) && other.peer_id != peer_id,
        final(left).shared_diffs@.contains_key(other) ==> final(left).shared_diffs@[other] == old(
            left,
        ).shared_diffs@[other],
{
}

/// A buffer that is dropped is neither compared nor shared any more. One that a peer closes is
/// not shared with the peer. A new language compares the buffer anew.
pub proof fn law_buffers_that_go_are_forgotten(
    dropped: &mut DiffStore,
    closed: &mut DiffStore,
    renamed: &mut DiffStore,
    peer: PeerId,
    id: u64,
    live: VecSet<u64>,
    a: Option<RecalculationPlan>,
    b: Option<RecalculationPlan>,
    c: Option<RecalculationPlan>,
    key: SharedKey,
    other: u64,
)
    requires
        call_ensures(
            DiffStore::on_buffer_store_event,
            (dropped, BufferStoreEvent::BufferDropped(id), &live),
            a,
        ),
        call_ensures(
            DiffStore::on_buffer_store_event,
            (closed, BufferStoreEvent::SharedBufferClosed(peer, id), &live),
            b,
        ),
        call_ensures(
            DiffStore::on_buffer_store_event,
            (renamed, BufferStoreEvent::LanguageChanged(id), &live),
            c,
        ),
    ensures
        final(dropped).diffs@.contains_key(other) <==> old(dropped).diffs@.contains_key(other)
            && other != id,
        final(dropped).shared_diffs@.contains_key(key) <==> old(
            dropped,
        ).shared_diffs@.contains_key(key) && key.buffer_id != id,
        a is None && b is None,
        final(closed).diffs@ == old(closed).diffs@,
        final(closed).shared_diffs@.contains_key(key) <==> old(
            closed,
        ).shared_diffs@.contains_key(key) && !(key.buffer_id == id && key.peer_id == peer),
        c is Some <==> old(renamed).diffs@.contains_key(id),
        c is Some ==> final(renamed).diffs@[id].state.language_changed
            && final(renamed).diffs@[id].state.recalculating
            && final(renamed).diffs@[id].unstaged_diff == old(renamed).diffs@[id].unstaged_diff,
        other != id && old(renamed).diffs@.contains_key(other) ==> final(renamed).diffs@[other]
            == old(renamed).diffs@[other],
{
}

/// Each change of hunks is counted, and written where the file is in a repository. The count
/// that was written is kept apart.
pub proof fn law_changed_hunks_are_counted(
    changed: &mut DiffStore,
    written: &mut DiffStore,
    buffer_id: u64,
    in_repository: bool,
    count: usize,
    r: Option<usize>,
)
    requires
        old(changed).diffs@.contains_key(buffer_id),
        old(changed).diffs@[buffer_id].state.hunk_staging_operation_count < usize::MAX,
        call_ensures(DiffStore::on_buffer_diff_event, (changed, buffer_id, in_repository), r),
        old(written).diffs@.contains_key(buffer_id),
        call_ensures(DiffStore::index_text_written, (written, buffer_id, count), ()),
    ensures
        ({
            let before = old(changed).diffs@[buffer_id].state;
            let after = final(changed).diffs@[buffer_id].state;
            &&& after.hunk_staging_operation_count == before.hunk_staging_operation_count + 1
            &&& after.hunk_staging_operation_count_as_of_write
                == before.hunk_staging_operation_count_as_of_write
            &&& r is Some == in_repository
            &&& r matches Some(n) ==> n == before.hunk_staging_operation_count + 1
        }),
        final(written).diffs@[buffer_id].state.hunk_staging_operation_count_as_of_write == count,
        final(written).diffs@[buffer_id].state.hunk_staging_operation_count
            == old(written).diffs@[buffer_id].state.hunk_staging_operation_count,
{
}

/// Conflict markers are looked for while a conflict set is in use and there is a conflict. All
/// who wait are answered by the last search, and by no earlier one.
pub proof fn law_conflict_markers_are_looked_for(
    diffs: &mut BufferDiffs,
    parsed: &mut BufferDiffs,
    waiter: u64,
    has_conflict: bool,
    live: VecSet<u64>,
    number: u64,
    r: Option<u64>,
    answered: Option<Vec<u64>>,
)
    requires
        call_ensures(
            BufferDiffs::reparse_conflict_markers,
            (diffs, waiter, has_conflict, &live),
            r,
        ),
        call_ensures(BufferDiffs::conflict_markers_parsed, (parsed, number), answered),
    ensures
        r is Some <==> has_conflict && old(diffs).conflict_set is Some && live@.contains(
            old(diffs).conflict_set->0,
        ),
        r is Some ==> final(diffs).conflict_search == r->0 && r->0 != old(diffs).conflict_search
            && final(diffs).conflict_waiters@ == old(diffs).conflict_waiters@.push(waiter),
        r is None ==> final(diffs).conflict_waiters@ == old(diffs).conflict_waiters@
            && final(diffs).conflict_search == old(diffs).conflict_search,
        answered is Some <==> number == old(parsed).conflict_search,
        answered matches Some(all) ==> all@ == old(parsed).conflict_waiters@ && final(
            parsed
        ).conflict_waiters@.len() == 0,
        answered is None ==> *final(parsed) == *old(parsed),
{
}

/// A conflict set that is in use is handed out, and markers are looked for where there is a
/// conflict. Otherwise a new one is made, and markers are looked for where the file is not
/// merged.
pub proof fn law_conflict_set_is_handed_out(
    store: &mut DiffStore,
    buffer_id: u64,
    new_set: u64,
    waiter: u64,
    has_conflict: bool,
    is_unmerged: bool,
    live: VecSet<u64>,
    r: OpenedConflictSet,
)
    requires
        old(store).diffs@.contains_key(buffer_id),
        call_ensures(
            DiffStore::open_conflict_set,
            (store, buffer_id, new_set, waiter, has_conflict, is_unmerged, &live),
            r,
        ),
    ensures
        ({
            let before = old(store).diffs@[buffer_id];
            let after = final(store).diffs@[buffer_id];
            let in_use = before.conflict_set is Some && live@.contains(before.conflict_set->0);
            &&& in_use ==> r.set == before.conflict_set->0 && !r.is_new && r.reparse is Some
                == has_conflict
            &&& !in_use ==> r.set == new_set && r.is_new && r.reparse is Some == is_unmerged
            &&& after.conflict_set == Some(r.set)
            &&& r.reparse matches Some(number) ==> after.conflict_search == number
                && after.conflict_waiters@ == before.conflict_waiters@.push(waiter)
            &&& r.reparse is None ==> after.conflict_waiters@ == before.conflict_waiters@
        }),
{
    let (before, after) = choose|before: BufferDiffs, after: BufferDiffs|
        {
            &&& #[trigger] known(old(store).diffs@, buffer_id, before)
            &&& #[trigger] with_conflict_set(before, after, r, waiter)
            &&& final(store).diffs@ == old(store).diffs@.insert(buffer_id, after)
            &&& r == match crate::git_store::diffs::live_one(before.conflict_set, live@) {
                Some(set) => OpenedConflictSet {
                    set,
                    is_new: false,
                    reparse: crate::git_store::diffs::search_if(has_conflict, before),
                },
                None => OpenedConflictSet {
                    set: new_set,
                    is_new: true,
                    reparse: crate::git_store::diffs::search_if(is_unmerged, before),
                },
            }
        };
    assert(before == old(store).diffs@[buffer_id]);
    assert(final(store).diffs@[buffer_id] == after);
}

/// The conflict sets of a repository are told one by one whether their file has a conflict: it
/// had one when the merge began, or it is not merged.
pub proof fn law_conflict_sets_are_told(
    store: DiffStore,
    snapshot: RepositorySnapshot,
    located: Vec<LocatedBuffer>,
    more: Vec<LocatedBuffer>,
    last: LocatedBuffer,
    before: Vec<ConflictStatus>,
    r: Vec<ConflictStatus>,
)
    requires
        more@ == located@.push(last),
        call_ensures(DiffStore::conflict_statuses, (&store, &snapshot, &located), before),
        call_ensures(DiffStore::conflict_statuses, (&store, &snapshot, &more), r),
    ensures
        located@.len() == 0 ==> before@.len() == 0,
        ({
            let is_told = last.repository_id == snapshot.id && store.diffs@.contains_key(
                last.buffer_id,
            ) && store.diffs@[last.buffer_id].conflict_set is Some;
            let status = status_at(snapshot.statuses_by_path@, last.repo_path@);
            &&& !is_told ==> r@ == before@
            &&& is_told ==> r@.len() == before@.len() + 1 && r@.drop_last() == before@
                && r@.last().buffer_id == last.buffer_id && r@.last().conflict_set
                == store.diffs@[last.buffer_id].conflict_set->0 && (r@.last().has_conflict
                <==> snapshot.conflicted_paths@.contains(last.repo_path@) || status is Some
                && status->0 is Unmerged)
        }),
{
    assert(more@.drop_last() =~= located@);
    assert(more@.last() == last);
}

/// Buffers are compared again one by one, those that are compared at all.
pub proof fn law_buffers_are_compared_again(
    fewer: &mut DiffStore,
    store: &mut DiffStore,
    buffers: Vec<BufferToCompare>,
    more: Vec<BufferToCompare>,
    last: BufferToCompare,
    live: VecSet<u64>,
    before: Vec<Recalculation>,
    r: Vec<Recalculation>,
)
    requires
        more@ == buffers@.push(last),
        *old(fewer) == *old(store),
        call_ensures(DiffStore::recalculate_buffer_diffs, (fewer, &buffers, &live), before),
        call_ensures(DiffStore::recalculate_buffer_diffs, (store, &more, &live), r),
    ensures
        buffers@.len() == 0 ==> before@.len() == 0,
        !old(store).diffs@.contains_key(last.buffer_id) ==> r@ == before@,
        old(store).diffs@.contains_key(last.buffer_id) ==> {
            let known = old(store).diffs@[last.buffer_id];
            &&& r@.len() == before@.len() + 1 && r@.drop_last() == before@
            &&& r@.last().buffer_id == last.buffer_id
            &&& r@.last().reparse is Some <==> last.has_conflict && known.conflict_set is Some
                && live@.contains(known.conflict_set->0)
            &&& final(store).diffs@.contains_key(last.buffer_id)
            &&& final(store).diffs@[last.buffer_id].state.recalculating
            &&& r@.last().reparse matches Some(number)
                ==> final(store).diffs@[last.buffer_id].conflict_search == number
        },
{
    assert(more@.drop_last() =~= buffers@);
    assert(more@.last() == last);
    if old(store).diffs@.contains_key(last.buffer_id) {
        assert(final(store).diffs@.contains_key(last.buffer_id));
    }
}

} // verus!
