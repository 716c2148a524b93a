//! The texts that a buffer is compared with, and when they are compared.

use vstd::prelude::*;
use std::sync::Arc;
use crate::numbers::{following, number_after};
use crate::shared::arc_clone;
use crate::text::{
    byte_len, chars_of, copy_text, lemma_line_feeds_stay, normalize_line_endings, str_eq, text_len, text_of,
    with_line_feeds,
};

verus! {

/// Which comparison of a buffer is meant: with the index, or with the last commit.
#[derive(Copy, Clone, Debug, PartialEq, Eq, Structural)]
pub enum DiffKind {
    Unstaged,
    Uncommitted,
}

/// New texts to compare a buffer with.
#[derive(Debug)]
pub enum DiffBasesChange {
    SetIndex(Option<String>),
    SetHead(Option<String>),
    SetEach { index: Option<String>, head: Option<String> },
    SetBoth(Option<String>),
}

/// New texts to compare a buffer with.
pub enum BasesChange {
    SetIndex(Option<Seq<char>>),
    SetHead(Option<Seq<char>>),
    SetEach { index: Option<Seq<char>>, head: Option<Seq<char>> },
    SetBoth(Option<Seq<char>>),
}

/// A text, if there is one.
pub open spec fn text_model(text: Option<String>) -> Option<Seq<char>> {
    match text {
        Some(text) => Some(text@),
        None => None,
    }
}

/// A text, if there is one.
pub open spec fn shared_model(text: Option<Arc<String>>) -> Option<Seq<char>> {
    match text {
        Some(text) => Some(text@),
        None => None,
    }
}

impl View for DiffBasesChange {
    type V = BasesChange;

    open spec fn view(&self) -> BasesChange {
        match *self {
            DiffBasesChange::SetIndex(index) => BasesChange::SetIndex(text_model(index)),
            DiffBasesChange::SetHead(head) => BasesChange::SetHead(text_model(head)),
            DiffBasesChange::SetEach { index, head } => BasesChange::SetEach {
                index: text_model(index),
                head: text_model(head),
            },
            DiffBasesChange::SetBoth(text) => BasesChange::SetBoth(text_model(text)),
        }
    }
}

fn copy_option(text: &Option<String>) -> (r: Option<String>)
    ensures
        text_model(r) == text_model(*text),
{
    match text {
        Some(text) => Some(copy_text(text.as_str())),
        None => None,
    }
}

impl DiffBasesChange {
    pub fn copy(&self) -> (r: DiffBasesChange)
        ensures
            r@ == self@,
    {
        match self {
            DiffBasesChange::SetIndex(index) => DiffBasesChange::SetIndex(copy_option(index)),
            DiffBasesChange::SetHead(head) => DiffBasesChange::SetHead(copy_option(head)),
            DiffBasesChange::SetEach { index, head } => DiffBasesChange::SetEach {
                index: copy_option(index),
                head: copy_option(head),
            },
            DiffBasesChange::SetBoth(text) => DiffBasesChange::SetBoth(copy_option(text)),
        }
    }
}

/// What a change is, if there is one.
pub open spec fn change_model(change: Option<DiffBasesChange>) -> Option<BasesChange> {
    match change {
        Some(change) => Some(change@),
        None => None,
    }
}

/// What has changed of the texts that a buffer is compared with. A text is looked
/// at only if the buffer is compared with it.
pub open spec fn bases_change(
    current_index: Option<Option<Seq<char>>>,
    current_head: Option<Option<Seq<char>>>,
    index: Option<Seq<char>>,
    head: Option<Seq<char>>,
) -> Option<BasesChange> {
    let index_changed = current_index is Some && current_index->0 != index;
    let head_changed = current_head is Some && current_head->0 != head;
    if index_changed && head_changed {
        if index == head {
            Some(BasesChange::SetBoth(head))
        } else {
            Some(BasesChange::SetEach { index, head })
        }
    } else if index_changed {
        Some(BasesChange::SetIndex(index))
    } else if head_changed {
        Some(BasesChange::SetHead(head))
    } else {
        None
    }
}

fn same_text(a: &Option<String>, b: &Option<String>) -> (r: bool)
    ensures
        r == (text_model(*a) == text_model(*b)),
{
    match (a, b) {
        (Some(a), Some(b)) => str_eq(a.as_str(), b.as_str()),
        (None, None) => true,
        _ => false,
    }
}

fn is_current(current: &Option<Arc<String>>, text: &Option<String>) -> (r: bool)
    ensures
        r == (shared_model(*current) == text_model(*text)),
{
    match (current, text) {
        (Some(a), Some(b)) => str_eq(a.as_str(), b.as_str()),
        (None, None) => true,
        _ => false,
    }
}

/// A text that is compared with, if it is.
pub open spec fn compared(current: Option<Option<Arc<String>>>) -> Option<Option<Seq<char>>> {
    match current {
        Some(text) => Some(shared_model(text)),
        None => None,
    }
}

/// What has changed of the texts that a buffer is compared with, once they were
/// read again.
pub fn reload_buffer_diff_bases(
    current_index: &Option<Option<Arc<String>>>,
    current_head: &Option<Option<Arc<String>>>,
    index_text: Option<String>,
    head_text: Option<String>,
) -> (r: Option<DiffBasesChange>)
    ensures
        change_model(r) == bases_change(
            compared(*current_index),
            compared(*current_head),
            text_model(index_text),
            text_model(head_text),
        ),
{
    let index_changed: bool = match current_index {
        Some(current) => !is_current(current, &index_text),
        None => false,
    };
    let head_changed: bool = match current_head {
        Some(current) => !is_current(current, &head_text),
        None => false,
    };
    if index_changed && head_changed {
        if same_text(&index_text, &head_text) {
            Some(DiffBasesChange::SetBoth(head_text))
        } else {
            Some(DiffBasesChange::SetEach { index: index_text, head: head_text })
        }
    } else if index_changed {
        Some(DiffBasesChange::SetIndex(index_text))
    } else if head_changed {
        Some(DiffBasesChange::SetHead(head_text))
    } else {
        None
    }
}

/// The texts of the index and of the last commit, once they were read for the
/// first time.
pub fn loaded_bases(committed_text: Option<String>, staged_text: Option<String>) -> (r:
    DiffBasesChange)
    ensures
        r@ == (if text_model(committed_text) == text_model(staged_text) {
            BasesChange::SetBoth(text_model(committed_text))
        } else {
            BasesChange::SetEach {
                index: text_model(staged_text),
                head: text_model(committed_text),
            }
        }),
{
    if same_text(&committed_text, &staged_text) {
        DiffBasesChange::SetBoth(committed_text)
    } else {
        DiffBasesChange::SetEach { index: staged_text, head: committed_text }
    }
}

/// Which texts a message carries.
#[derive(Copy, Clone, Debug, PartialEq, Eq, Structural)]
pub enum BasesMode {
    HeadOnly,
    IndexOnly,
    IndexMatchesHead,
    IndexAndHead,
}

/// New texts as they are sent.
#[derive(Debug)]
pub struct UpdateDiffBases {
    pub staged_text: Option<String>,
    pub committed_text: Option<String>,
    pub mode: BasesMode,
}

/// Whether a message carries a change.
pub open spec fn carries(message: UpdateDiffBases, change: BasesChange) -> bool {
    let staged = text_model(message.staged_text);
    let committed = text_model(message.committed_text);
    match change {
        BasesChange::SetIndex(index) => message.mode == BasesMode::IndexOnly && staged == index
            && committed is None,
        BasesChange::SetHead(head) => message.mode == BasesMode::HeadOnly && staged is None
            && committed == head,
        BasesChange::SetEach { index, head } => message.mode == BasesMode::IndexAndHead && staged
            == index && committed == head,
        BasesChange::SetBoth(text) => message.mode == BasesMode::IndexMatchesHead && staged is None
            && committed == text,
    }
}

/// The change that a message carries.
pub open spec fn carried(
    mode: BasesMode,
    staged: Option<Seq<char>>,
    committed: Option<Seq<char>>,
) -> BasesChange {
    match mode {
        BasesMode::HeadOnly => BasesChange::SetHead(committed),
        BasesMode::IndexOnly => BasesChange::SetIndex(staged),
        BasesMode::IndexMatchesHead => BasesChange::SetBoth(committed),
        BasesMode::IndexAndHead => BasesChange::SetEach { index: staged, head: committed },
    }
}

/// The change as it is sent.
pub fn bases_to_proto(change: DiffBasesChange) -> (r: UpdateDiffBases)
    ensures
        carries(r, change@),
{
    match change {
        DiffBasesChange::SetIndex(index) => UpdateDiffBases {
            staged_text: index,
            committed_text: None,
            mode: BasesMode::IndexOnly,
        },
        DiffBasesChange::SetHead(head) => UpdateDiffBases {
            staged_text: None,
            committed_text: head,
            mode: BasesMode::HeadOnly,
        },
        DiffBasesChange::SetEach { index, head } => UpdateDiffBases {
            staged_text: index,
            committed_text: head,
            mode: BasesMode::IndexAndHead,
        },
        DiffBasesChange::SetBoth(text) => UpdateDiffBases {
            staged_text: None,
            committed_text: text,
            mode: BasesMode::IndexMatchesHead,
        },
    }
}

/// The change that was sent.
pub fn bases_from_proto(message: UpdateDiffBases) -> (r: DiffBasesChange)
    ensures
        r@ == carried(
            message.mode,
            text_model(message.staged_text),
            text_model(message.committed_text),
        ),
{
    match message.mode {
        BasesMode::HeadOnly => DiffBasesChange::SetHead(message.committed_text),
        BasesMode::IndexOnly => DiffBasesChange::SetIndex(message.staged_text),
        BasesMode::IndexMatchesHead => DiffBasesChange::SetBoth(message.committed_text),
        BasesMode::IndexAndHead => DiffBasesChange::SetEach {
            index: message.staged_text,
            head: message.committed_text,
        },
    }
}

/// A change that is sent comes in as it was.
pub proof fn law_bases_round_trip(message: UpdateDiffBases, change: BasesChange)
    requires
        carries(message, change),
    ensures
        carried(
            message.mode,
            text_model(message.staged_text),
            text_model(message.committed_text),
        ) == change,
{
}

/// A text and what tells it apart from others with the same contents.
#[derive(Debug)]
pub struct BaseText {
    pub id: u64,
    pub text: String,
}

/// What is answered to a peer that opens the comparison with the last commit. The
/// text of the index is left out where it is the very text of the commit.
pub fn uncommitted_diff_response(committed: Option<BaseText>, index: Option<BaseText>) -> (r:
    UpdateDiffBases)
    ensures
        match (committed, index) {
            (Some(head), Some(index)) => if head.id == index.id {
                carries(r, BasesChange::SetBoth(Some(head.text@)))
            } else {
                carries(
                    r,
                    BasesChange::SetEach { index: Some(index.text@), head: Some(head.text@) },
                )
            },
            (Some(head), None) => carries(
                r,
                BasesChange::SetEach { index: None, head: Some(head.text@) },
            ),
            (None, Some(index)) => carries(
                r,
                BasesChange::SetEach { index: Some(index.text@), head: None },
            ),
            (None, None) => carries(r, BasesChange::SetEach { index: None, head: None }),
        },
{
    match (committed, index) {
        (Some(head), Some(index)) => if head.id == index.id {
            UpdateDiffBases {
                staged_text: None,
                committed_text: Some(head.text),
                mode: BasesMode::IndexMatchesHead,
            }
        } else {
            UpdateDiffBases {
                staged_text: Some(index.text),
                committed_text: Some(head.text),
                mode: BasesMode::IndexAndHead,
            }
        },
        (Some(head), None) => UpdateDiffBases {
            staged_text: None,
            committed_text: Some(head.text),
            mode: BasesMode::IndexAndHead,
        },
        (None, Some(index)) => UpdateDiffBases {
            staged_text: Some(index.text),
            committed_text: None,
            mode: BasesMode::IndexAndHead,
        },
        (None, None) => UpdateDiffBases {
            staged_text: None,
            committed_text: None,
            mode: BasesMode::IndexAndHead,
        },
    }
}

/// How much of a difference is sent.
pub const MAX_DIFF_LEN: usize = 1_000_000;

/// The difference as it is sent: all of it, or its start.
pub fn truncated_diff(diff: String) -> (r: String)
    ensures
        r@ == (if byte_len(diff@) > MAX_DIFF_LEN && diff@.len() > MAX_DIFF_LEN {
            diff@.take(MAX_DIFF_LEN as int)
        } else {
            diff@
        }),
{
    if text_len(diff.as_str()) > MAX_DIFF_LEN {
        let chars = chars_of(diff.as_str());
        if chars.len() > MAX_DIFF_LEN {
            let r = text_of(&chars, 0, MAX_DIFF_LEN);
            assert(r@ =~= diff@.take(MAX_DIFF_LEN as int));
            return r;
        }
    }
    diff
}

/// The texts that a buffer is compared with, and what is under way.
#[derive(Debug)]
pub struct BufferGitState {
    pub head_text: Option<Arc<String>>,
    pub index_text: Option<Arc<String>>,
    /// The text of the index is the very text of the last commit.
    pub index_is_head: bool,
    pub head_changed: bool,
    pub index_changed: bool,
    pub language_changed: bool,
    /// How often hunks were staged or unstaged.
    pub hunk_staging_operation_count: usize,
    /// How often they had been when the index was last written.
    pub hunk_staging_operation_count_as_of_write: usize,
    pub recalculating: bool,
    /// The number of the comparison that was started last. Only its result is used.
    pub recalculation: u64,
}

/// What is to be compared.
#[derive(Copy, Clone, Debug, PartialEq, Eq, Structural)]
pub enum UncommittedPlan {
    /// Nothing.
    Skip,
    /// The comparison with the index stands for that with the last commit.
    SameAsUnstaged,
    Compute,
}

/// What is to be compared, and what has changed since the last time.
#[derive(Copy, Clone, Debug, PartialEq, Eq, Structural)]
pub struct RecalculationPlan {
    pub number: u64,
    pub unstaged: bool,
    pub uncommitted: UncommittedPlan,
    pub index_changed: bool,
    pub head_changed: bool,
    pub language_changed: bool,
    pub operation_count: usize,
}

/// Whether the texts of the index and of the last commit are one.
pub open spec fn index_matches_head(state: BufferGitState) -> bool {
    match (state.index_text, state.head_text) {
        (Some(_), Some(_)) => state.index_is_head,
        (None, None) => true,
        _ => false,
    }
}

/// A text, if there is one, as it is compared: with line feeds at the ends of its lines.
pub open spec fn as_compared(text: Option<Seq<char>>) -> Option<Seq<char>> {
    match text {
        Some(text) => Some(with_line_feeds(text)),
        None => None,
    }
}

/// The state after new texts came.
pub open spec fn with_bases(before: BufferGitState, after: BufferGitState, change: Option<BasesChange>)
    -> bool {
    match change {
        None => after == before,
        Some(BasesChange::SetIndex(index)) => {
            &&& shared_model(after.index_text) == as_compared(index)
            &&& after == (BufferGitState {
                index_text: after.index_text,
                index_is_head: false,
                index_changed: true,
                ..before
            })
        },
        Some(BasesChange::SetHead(head)) => {
            &&& shared_model(after.head_text) == as_compared(head)
            &&& after == (BufferGitState {
                head_text: after.head_text,
                index_is_head: false,
                head_changed: true,
                ..before
            })
        },
        Some(BasesChange::SetBoth(text)) => {
            &&& shared_model(after.head_text) == as_compared(text)
            &&& after == (BufferGitState {
                head_text: after.head_text,
                index_text: after.head_text,
                index_is_head: true,
                head_changed: true,
                index_changed: true,
                ..before
            })
        },
        Some(BasesChange::SetEach { index, head }) => {
            &&& shared_model(after.index_text) == as_compared(index)
            &&& shared_model(after.head_text) == as_compared(head)
            &&& after == (BufferGitState {
                head_text: after.head_text,
                index_text: after.index_text,
                index_is_head: false,
                head_changed: true,
                index_changed: true,
                ..before
            })
        },
    }
}

/// The state once a comparison was started.
pub open spec fn started(state: BufferGitState) -> BufferGitState {
    BufferGitState {
        recalculating: true,
        recalculation: number_after(state.recalculation),
        ..state
    }
}

/// What the comparison of a buffer that was started last is to compare.
pub open spec fn plan_for(
    state: BufferGitState,
    has_unstaged_diff: bool,
    has_uncommitted_diff: bool,
) -> RecalculationPlan {
    RecalculationPlan {
        number: state.recalculation,
        unstaged: has_unstaged_diff,
        uncommitted: if !has_uncommitted_diff {
            UncommittedPlan::Skip
        } else if index_matches_head(state) {
            if has_unstaged_diff {
                UncommittedPlan::SameAsUnstaged
            } else {
                UncommittedPlan::Skip
            }
        } else {
            UncommittedPlan::Compute
        },
        index_changed: state.index_changed,
        head_changed: state.head_changed,
        language_changed: state.language_changed,
        operation_count: state.hunk_staging_operation_count_as_of_write,
    }
}

fn share(text: Option<String>) -> (r: Option<Arc<String>>)
    ensures
        shared_model(r) == as_compared(text_model(text)),
{
    match text {
        Some(text) => Some(Arc::new(normalize_line_endings(text.as_str()))),
        None => None,
    }
}

impl BufferGitState {
    pub fn new() -> (state: BufferGitState)
        ensures
            state == (BufferGitState {
                head_text: None,
                index_text: None,
                index_is_head: false,
                head_changed: false,
                index_changed: false,
                language_changed: false,
                hunk_staging_operation_count: 0,
                hunk_staging_operation_count_as_of_write: 0,
                recalculating: false,
                recalculation: 0,
            }),
    {
        BufferGitState {
            head_text: None,
            index_text: None,
            index_is_head: false,
            head_changed: false,
            index_changed: false,
            language_changed: false,
            hunk_staging_operation_count: 0,
            hunk_staging_operation_count_as_of_write: 0,
            recalculating: false,
            recalculation: 0,
        }
    }

    /// Takes new texts. The buffer is to be compared with them next.
    pub fn diff_bases_changed(&mut self, change: Option<DiffBasesChange>)
        ensures
            with_bases(*old(self), *final(self), change_model(change)),
    {
        match change {
            Some(DiffBasesChange::SetIndex(index)) => {
                self.index_text = share(index);
                self.index_is_head = false;
                self.index_changed = true;
            },
            Some(DiffBasesChange::SetHead(head)) => {
                self.head_text = share(head);
                self.index_is_head = false;
                self.head_changed = true;
            },
            Some(DiffBasesChange::SetBoth(text)) => {
                let text = share(text);
                self.index_text = match &text {
                    Some(text) => Some(arc_clone(text)),
                    None => None,
                };
                self.head_text = text;
                self.index_is_head = true;
                self.head_changed = true;
                self.index_changed = true;
            },
            Some(DiffBasesChange::SetEach { index, head }) => {
                self.index_text = share(index);
                self.head_text = share(head);
                self.index_is_head = false;
                self.index_changed = true;
                self.head_changed = true;
            },
            None => {},
        }
    }

    /// Takes up that the language of the buffer has changed.
    pub fn buffer_language_changed(&mut self)
        ensures
            *final(self) == (BufferGitState { language_changed: true, ..*old(self) }),
    {
        self.language_changed = true;
    }

    /// Starts to compare the buffer with its texts. What was started before is given up.
    pub fn recalculate_diffs(&mut self, has_unstaged_diff: bool, has_uncommitted_diff: bool) -> (r:
        RecalculationPlan)
        ensures
            *final(self) == started(*old(self)),
            r == plan_for(*final(self), has_unstaged_diff, has_uncommitted_diff),
    {
        self.recalculating = true;
        self.recalculation = following(self.recalculation);
        let matches_head: bool = match (&self.index_text, &self.head_text) {
            (Some(_), Some(_)) => self.index_is_head,
            (None, None) => true,
            _ => false,
        };
        RecalculationPlan {
            number: self.recalculation,
            unstaged: has_unstaged_diff,
            uncommitted: if !has_uncommitted_diff {
                UncommittedPlan::Skip
            } else if matches_head {
                if has_unstaged_diff {
                    UncommittedPlan::SameAsUnstaged
                } else {
                    UncommittedPlan::Skip
                }
            } else {
                UncommittedPlan::Compute
            },
            index_changed: self.index_changed,
            head_changed: self.head_changed,
            language_changed: self.language_changed,
            operation_count: self.hunk_staging_operation_count_as_of_write,
        }
    }

    /// Whether what was compared can be used: not if it was given up, and not if hunks
    /// were staged or unstaged that the index as it was compared does not hold. Another
    /// comparison comes once they are written.
    pub fn may_finish_recalculation(&mut self, plan: RecalculationPlan) -> (r: bool)
        ensures
            if plan.number == old(self).recalculation {
                &&& r == (old(self).hunk_staging_operation_count <= plan.operation_count)
                &&& *final(self) == (BufferGitState {
                    recalculating: r && old(self).recalculating,
                    ..*old(self)
                })
            } else {
                !r && *final(self) == *old(self)
            },
    {
        if plan.number != self.recalculation {
            return false;
        }
        if self.hunk_staging_operation_count > plan.operation_count {
            self.recalculating = false;
            false
        } else {
            true
        }
    }

    /// Ends a comparison that was used, unless another was started.
    pub fn finish_recalculation(&mut self, plan: RecalculationPlan)
        ensures
            *final(self) == if plan.number == old(self).recalculation {
                BufferGitState {
                    index_changed: false,
                    head_changed: false,
                    language_changed: false,
                    recalculating: false,
                    ..*old(self)
                }
            } else {
                *old(self)
            },
    {
        if plan.number != self.recalculation {
            return ;
        }
        self.index_changed = false;
        self.head_changed = false;
        self.language_changed = false;
        self.recalculating = false;
    }

    /// Takes up that hunks were staged or unstaged. Returns how often they have
    /// been.
    pub fn hunks_staged_or_unstaged(&mut self) -> (r: usize)
        requires
            old(self).hunk_staging_operation_count < usize::MAX,
        ensures
            r == old(self).hunk_staging_operation_count + 1,
            *final(self) == (BufferGitState { hunk_staging_operation_count: r, ..*old(self) }),
    {
        self.hunk_staging_operation_count = self.hunk_staging_operation_count + 1;
        self.hunk_staging_operation_count
    }

    /// Takes up that the index was written.
    pub fn index_written(&mut self, operation_count: usize)
        ensures
            *final(self) == (BufferGitState {
                hunk_staging_operation_count_as_of_write: operation_count,
                ..*old(self)
            }),
    {
        self.hunk_staging_operation_count_as_of_write = operation_count;
    }
}

/// Texts that were read again and have not changed lead to no change, and a change
/// that was taken leads to none when the same texts are read again. The texts must not
/// hold carriage returns, which are not compared.
pub proof fn law_reload_settles(
    before: BufferGitState,
    after: BufferGitState,
    index: Option<Seq<char>>,
    head: Option<Seq<char>>,
)
    requires
        with_bases(
            before,
            after,
            bases_change(
                Some(shared_model(before.index_text)),
                Some(shared_model(before.head_text)),
                index,
                head,
            ),
        ),
        index matches Some(text) ==> !text.contains('\r'),
        head matches Some(text) ==> !text.contains('\r'),
    ensures
        shared_model(after.index_text) == index,
        shared_model(after.head_text) == head,
        bases_change(
            Some(shared_model(after.index_text)),
            Some(shared_model(after.head_text)),
            index,
            head,
        ) is None,
{
    if let Some(text) = index {
        lemma_line_feeds_stay(text);
    }
    if let Some(text) = head {
        lemma_line_feeds_stay(text);
    }
}

/// Where the comparison with the index stands for that with the last commit, the
/// two texts are the same.
pub open spec fn sound(state: BufferGitState) -> bool {
    index_matches_head(state) ==> shared_model(state.index_text) == shared_model(state.head_text)
}

/// New texts never make the comparison with the index stand for that with the last
/// commit where the two texts differ.
pub proof fn law_bases_stay_sound(
    before: BufferGitState,
    after: BufferGitState,
    change: Option<BasesChange>,
)
    requires
        sound(before),
        with_bases(before, after, change),
    ensures
        sound(after),
{
}

/// Once another comparison was started, the one before it is not used.
pub proof fn law_later_comparison_counts(
    state: BufferGitState,
    unstaged: bool,
    uncommitted: bool,
)
    ensures
        plan_for(state, unstaged, uncommitted).number != started(state).recalculation,
{
}

/// A comparison that was started before hunks were staged is not used.
pub proof fn law_pending_hunks_cancel_recalculation(
    state: BufferGitState,
    unstaged: bool,
    uncommitted: bool,
)
    requires
        state.hunk_staging_operation_count_as_of_write <= state.hunk_staging_operation_count,
    ensures
        state.hunk_staging_operation_count + 1 > plan_for(
            state,
            unstaged,
            uncommitted,
        ).operation_count,
{
}

} // verus!
