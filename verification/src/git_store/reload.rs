//! Reading the texts that buffers are compared with again, once a repository has
//! changed.

use vstd::prelude::*;
use std::sync::Arc;
use crate::collections::VecSet;
use crate::git_store::diff_state::{
    bases_to_proto, carries, change_model, compared, plan_for, shared_model, started, with_bases,
    BufferGitState, DiffBasesChange, RecalculationPlan, UpdateDiffBases,
};
use crate::git_store::diffs::{live_one, upgrade, BufferDiffs, DiffStore};
use crate::git_store::snapshot::RepositorySnapshot;
use crate::path::{is_below, RelPath};
use crate::shared::arc_clone;

verus! {

/// An open buffer and the path of its file.
#[derive(Debug)]
pub struct BufferFile {
    pub buffer_id: u64,
    pub abs_path: RelPath,
}

/// A buffer whose texts are to be read again. A text is given only if the buffer is
/// compared with it, and only then it is to be read.
#[derive(Debug)]
pub struct BasesToReload {
    pub buffer_id: u64,
    pub repo_path: RelPath,
    pub index_text: Option<Option<Arc<String>>>,
    pub head_text: Option<Option<Arc<String>>>,
}

/// A buffer whose texts are to be read again.
pub struct ReloadModel {
    pub buffer_id: u64,
    pub repo_path: Seq<Seq<char>>,
    pub index_text: Option<Option<Seq<char>>>,
    pub head_text: Option<Option<Seq<char>>>,
}

impl View for BasesToReload {
    type V = ReloadModel;

    open spec fn view(&self) -> ReloadModel {
        ReloadModel {
            buffer_id: self.buffer_id,
            repo_path: self.repo_path@,
            index_text: compared(self.index_text),
            head_text: compared(self.head_text),
        }
    }
}

/// Buffers whose texts are to be read again.
pub open spec fn reload_models(bases: Seq<BasesToReload>) -> Seq<ReloadModel> {
    Seq::new(bases.len(), |i: int| bases[i]@)
}

/// A text, if the comparison with it lives.
pub open spec fn text_in_use(diff: Option<u64>, live: Set<u64>, text: Option<Arc<String>>) -> Option<
    Option<Seq<char>>,
> {
    if live_one(diff, live) is Some {
        Some(shared_model(text))
    } else {
        None
    }
}

/// The buffers whose texts are to be read again: those that are known and whose files
/// lie in a directory.
pub open spec fn to_reload(
    diffs: Map<u64, BufferDiffs>,
    work_directory: Seq<Seq<char>>,
    live: Set<u64>,
    files: Seq<BufferFile>,
) -> Seq<ReloadModel>
    decreases files.len(),
{
    if files.len() == 0 {
        Seq::empty()
    } else {
        let rest = to_reload(diffs, work_directory, live, files.drop_last());
        let file = files.last();
        if diffs.contains_key(file.buffer_id) && is_below(file.abs_path@, work_directory) {
            let known = diffs[file.buffer_id];
            rest.push(
                ReloadModel {
                    buffer_id: file.buffer_id,
                    repo_path: file.abs_path@.skip(work_directory.len() as int),
                    index_text: text_in_use(known.unstaged_diff, live, known.state.index_text),
                    head_text: text_in_use(known.uncommitted_diff, live, known.state.head_text),
                },
            )
        } else {
            rest
        }
    }
}

/// What is left to do once texts were read again.
#[derive(Debug)]
pub struct ReloadedBases {
    /// What is sent to those that the project is shared with.
    pub message: Option<UpdateDiffBases>,
    /// What is to be compared.
    pub plan: RecalculationPlan,
}

fn copy_base(text: &Option<Arc<String>>) -> (r: Option<Arc<String>>)
    ensures
        r == *text,
{
    match text {
        Some(text) => Some(arc_clone(text)),
        None => None,
    }
}

impl DiffStore {
    /// The buffers whose texts are to be read again, since a repository has changed that
    /// their files lie in.
    pub fn bases_to_reload(
        &self,
        snapshot: &RepositorySnapshot,
        files: &Vec<BufferFile>,
        live: &VecSet<u64>,
    ) -> (r: Vec<BasesToReload>)
        ensures
            reload_models(r@) == to_reload(
                self.diffs@,
                snapshot.work_directory_abs_path@,
                live@,
                files@,
            ),
    {
        let mut r: Vec<BasesToReload> = Vec::new();
        let ghost root = snapshot.work_directory_abs_path@;
        let mut i: usize = 0;
        assert(files@.take(0) =~= Seq::<BufferFile>::empty());
        assert(reload_models(r@) =~= Seq::<ReloadModel>::empty());
        while i < files.len()
            invariant
                i <= files@.len(),
                root == snapshot.work_directory_abs_path@,
                reload_models(r@) == to_reload(self.diffs@, root, live@, files@.take(i as int)),
            decreases files.len() - i,
        {
            let file = &files[i];
            let ghost before = r@;
            assert(files@.take(i + 1).drop_last() =~= files@.take(i as int));
            assert(files@.take(i + 1).last() == *file);
            if let Some(known) = self.diffs.get(&file.buffer_id) {
                if let Some(repo_path) = snapshot.abs_path_to_repo_path(&file.abs_path) {
                    let index_text = if upgrade(known.unstaged_diff, live).is_some() {
                        Some(copy_base(&known.state.index_text))
                    } else {
                        None
                    };
                    let head_text = if upgrade(known.uncommitted_diff, live).is_some() {
                        Some(copy_base(&known.state.head_text))
                    } else {
                        None
                    };
                    let bases = BasesToReload {
                        buffer_id: file.buffer_id,
                        repo_path,
                        index_text,
                        head_text,
                    };
                    let ghost model = bases@;
                    r.push(bases);
                    assert(reload_models(r@) =~= reload_models(before).push(model));
                }
            }
            i = i + 1;
        }
        assert(files@.take(i as int) =~= files@);
        r
    }

    /// Takes up what has changed of the texts of a buffer, once they were read again. A
    /// buffer that is no longer known is left out. The change is sent on if the project is
    /// shared.
    pub fn bases_reloaded(
        &mut self,
        buffer_id: u64,
        change: Option<DiffBasesChange>,
        is_shared: bool,
        live: &VecSet<u64>,
    ) -> (r: Option<ReloadedBases>)
        requires
            old(self).wf(),
        ensures
            final(self).wf(),
            final(self).loading_diffs == old(self).loading_diffs,
            final(self).shared_diffs == old(self).shared_diffs,
            if old(self).diffs@.contains_key(buffer_id) {
                let before = old(self).diffs@[buffer_id];
                exists|state: BufferGitState|
                    {
                        &&& #[trigger] with_bases(
                            started(before.state),
                            state,
                            change_model(change),
                        )
                        &&& final(self).diffs@ == old(self).diffs@.insert(
                            buffer_id,
                            BufferDiffs { state, ..before },
                        )
                        &&& r is Some
                        &&& r->0.plan == plan_for(
                            state,
                            live_one(before.unstaged_diff, live@) is Some,
                            live_one(before.uncommitted_diff, live@) is Some,
                        )
                        &&& match r->0.message {
                            Some(message) => is_shared && change is Some && carries(
                                message,
                                change->0@,
                            ),
                            None => !is_shared || change is None,
                        }
                    }
            } else {
                r is None && final(self).diffs@ == old(self).diffs@
            },
    {
        if !self.diffs.contains_key(&buffer_id) {
            return None;
        }
        let ghost all = self.diffs@;
        let message = match &change {
            Some(change) => if is_shared {
                Some(bases_to_proto(change.copy()))
            } else {
                None
            },
            None => None,
        };
        let mut diffs = self.take_diffs(buffer_id);
        let plan = diffs.diff_bases_changed(change, live);
        let ghost after = diffs;
        let _ = self.diffs.insert(buffer_id, diffs);
        assert(self.diffs@ =~= all.insert(buffer_id, after));
        assert(with_bases(
            started(all[buffer_id].state),
            after.state,
            change_model(change),
        ));
        Some(ReloadedBases { message, plan })
    }
}

/// A buffer that is compared with nothing has no texts to read again.
pub proof fn law_unused_texts_are_not_read(
    diffs: Map<u64, BufferDiffs>,
    work_directory: Seq<Seq<char>>,
    live: Set<u64>,
    files: Seq<BufferFile>,
    k: int,
)
    requires
        0 <= k < to_reload(diffs, work_directory, live, files).len(),
    ensures
        ({
            let model = to_reload(diffs, work_directory, live, files)[k];
            &&& diffs.contains_key(model.buffer_id)
            &&& model.index_text is Some == live_one(
                diffs[model.buffer_id].unstaged_diff,
                live,
            ) is Some
            &&& model.head_text is Some == live_one(
                diffs[model.buffer_id].uncommitted_diff,
                live,
            ) is Some
        }),
    decreases files.len(),
{
    let rest = files.drop_last();
    if k < to_reload(diffs, work_directory, live, rest).len() {
        law_unused_texts_are_not_read(diffs, work_directory, live, rest, k);
    }
}

/// Texts are read again for each open file of the repository that is compared with something,
/// file by file: the text of the index for a comparison with it, and that of the last commit
/// for one with that. Comparisons that are no longer shown need none.
pub proof fn law_texts_of_open_files_are_read_again(
    store: DiffStore,
    snapshot: RepositorySnapshot,
    files: Vec<BufferFile>,
    more: Vec<BufferFile>,
    last: BufferFile,
    live: VecSet<u64>,
    before: Vec<BasesToReload>,
    r: Vec<BasesToReload>,
)
    requires
        more@ == files@.push(last),
        call_ensures(DiffStore::bases_to_reload, (&store, &snapshot, &files, &live), before),
        call_ensures(DiffStore::bases_to_reload, (&store, &snapshot, &more, &live), r),
    ensures
        files@.len() == 0 ==> before@.len() == 0,
        ({
            let work_directory = snapshot.work_directory_abs_path@;
            let is_in = store.diffs@.contains_key(last.buffer_id) && work_directory.is_prefix_of(
                last.abs_path@,
            );
            &&& !is_in ==> reload_models(r@) == reload_models(before@)
            &&& is_in ==> {
                let known = store.diffs@[last.buffer_id];
                &&& r@.len() == before@.len() + 1
                &&& reload_models(r@).drop_last() == reload_models(before@)
                &&& r@.last().buffer_id == last.buffer_id
                &&& work_directory + r@.last().repo_path@ == last.abs_path@
                &&& r@.last().index_text is Some <==> known.unstaged_diff is Some
                    && live@.contains(known.unstaged_diff->0)
                &&& r@.last().head_text is Some <==> known.uncommitted_diff is Some
                    && live@.contains(known.uncommitted_diff->0)
                &&& r@.last().index_text matches Some(text) ==> shared_model(text) == shared_model(
                    known.state.index_text,
                )
                &&& r@.last().head_text matches Some(text) ==> shared_model(text) == shared_model(
                    known.state.head_text,
                )
            }
        }),
{
    assert(more@.drop_last() =~= files@);
    assert(more@.last() == last);
    let work_directory = snapshot.work_directory_abs_path@;
    let path = last.abs_path@;
    let models = reload_models(r@);
    assert(models.len() == r@.len());
    assert(reload_models(before@).len() == before@.len());
    if work_directory.len() <= path.len() {
        assert(path.take(work_directory.len() as int) == path.subrange(
            0,
            work_directory.len() as int,
        ));
    }
    assert(is_below(path, work_directory) == work_directory.is_prefix_of(path));
    if store.diffs@.contains_key(last.buffer_id) && work_directory.is_prefix_of(path) {
        assert(models.drop_last() =~= reload_models(before@));
        assert(models.last() == r@.last()@);
        assert(work_directory + path.skip(work_directory.len() as int) =~= path);
    }
}

} // verus!
