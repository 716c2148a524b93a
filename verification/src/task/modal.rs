//! The list from which tasks are picked.

use vstd::prelude::*;
use std::sync::Arc;
use crate::shared::arc_clone;
use crate::text::{
    blank, byte_len, chars_of, copy_text, is_blank, join, joined, lemma_text_before_total, lowercase,
    str_before, str_eq, text_before, text_of, texts, to_lowercase, whitespace,
};
use crate::text_map::TextMap;
use super::expansion::{optional_text, TaskContext, UnreadableTemplate};
use super::template::{
    is_resolved, template_readable, HideStrategy, ResolvedTask, RevealStrategy, RevealTarget,
    Shell, ShellModel, TaskTemplate, TemplateModel,
};

verus! {

/// How many characters of the tags of a task are shown.
pub const MAX_TAGS_LINE_LEN: usize = 30;

/// What is changed in a task before it is run.
#[derive(Copy, Clone, Debug, PartialEq, Eq, Structural)]
pub struct TaskOverrides {
    /// Where the terminal of the task is put.
    pub reveal_target: Option<RevealTarget>,
}

impl Default for TaskOverrides {
    fn default() -> (r: TaskOverrides)
        ensures
            r.reveal_target is None,
    {
        TaskOverrides { reveal_target: None }
    }
}

/// Where a task comes from.
#[derive(Debug)]
pub enum TaskSourceKind {
    UserInput,
    AbsPath,
    Worktree,
    Lsp { language_name: String },
    Language { name: String },
}

/// A task that can be picked.
#[derive(Debug)]
pub struct TaskCandidate {
    pub kind: Arc<TaskSourceKind>,
    pub task: Arc<ResolvedTask>,
}

/// A task of a language server, and whether it belongs to a place in a file.
#[derive(Debug)]
pub struct LspTask {
    pub has_location: bool,
    pub task: Arc<ResolvedTask>,
}

/// The tasks of a language server.
#[derive(Debug)]
pub struct LspTasks {
    pub kind: Arc<TaskSourceKind>,
    pub tasks: Vec<LspTask>,
}

/// A task that fits what was typed, by its place among the candidates.
#[derive(Debug)]
pub struct TaskMatch {
    pub candidate_id: usize,
    pub text: String,
    pub positions: Vec<usize>,
}

/// The list from which tasks are picked.
#[derive(Debug)]
pub struct TasksModalDelegate {
    pub candidates: Option<Vec<TaskCandidate>>,
    pub task_overrides: Option<TaskOverrides>,
    /// The last of the candidates that were used before.
    pub last_used_candidate_index: Option<usize>,
    /// The last of the matches that were used before.
    pub divider_index: Option<usize>,
    pub hits: Vec<TaskMatch>,
    pub selected_index: usize,
    pub prompt: String,
}

/// Where the terminal of a task is put, if it is not where the task says.
pub open spec fn overridden_target(overrides: Option<TaskOverrides>) -> Option<RevealTarget> {
    match overrides {
        Some(overrides) => overrides.reveal_target,
        None => None,
    }
}

/// Whether a task of a language server comes before another: one with a place first, then
/// by label.
pub open spec fn lsp_before(a: LspTask, b: LspTask) -> bool {
    (a.has_location && !b.has_location) || (a.has_location == b.has_location && text_before(
        a.task.resolved_label@,
        b.task.resolved_label@,
    ))
}

/// Puts a task of a language server behind those that it does not come before.
pub open spec fn with_lsp_task(tasks: Seq<LspTask>, task: LspTask) -> Seq<LspTask>
    decreases tasks.len(),
{
    if tasks.len() == 0 || !lsp_before(task, tasks.last()) {
        tasks.push(task)
    } else {
        with_lsp_task(tasks.drop_last(), task).push(tasks.last())
    }
}

/// The tasks of a language server in order. Those that are alike keep theirs.
pub open spec fn in_lsp_order(tasks: Seq<LspTask>) -> Seq<LspTask>
    decreases tasks.len(),
{
    if tasks.len() == 0 {
        Seq::empty()
    } else {
        with_lsp_task(in_lsp_order(tasks.drop_last()), tasks.last())
    }
}

/// The tasks of a language server as candidates.
pub open spec fn as_candidates(kind: Arc<TaskSourceKind>, tasks: Seq<LspTask>) -> Seq<
    TaskCandidate,
> {
    Seq::new(tasks.len(), |i: int| TaskCandidate { kind, task: tasks[i].task })
}

/// The tasks of all language servers as candidates.
pub open spec fn lsp_candidates(all: Seq<LspTasks>) -> Seq<TaskCandidate>
    decreases all.len(),
{
    if all.len() == 0 {
        Seq::empty()
    } else {
        lsp_candidates(all.drop_last()) + as_candidates(
            all.last().kind,
            in_lsp_order(all.last().tasks@),
        )
    }
}

/// The candidates without those of languages, if these are not wanted.
pub open spec fn wanted_candidates(candidates: Seq<TaskCandidate>, with_languages: bool) -> Seq<
    TaskCandidate,
>
    decreases candidates.len(),
{
    if candidates.len() == 0 {
        Seq::empty()
    } else {
        let before = wanted_candidates(candidates.drop_last(), with_languages);
        if with_languages || !(*candidates.last().kind is Language) {
            before.push(candidates.last())
        } else {
            before
        }
    }
}

/// The matches among the candidates up to one, or behind it.
pub open spec fn hits_up_to(hits: Seq<TaskMatch>, last: usize, up_to: bool) -> Seq<TaskMatch>
    decreases hits.len(),
{
    if hits.len() == 0 {
        Seq::empty()
    } else {
        let before = hits_up_to(hits.drop_last(), last, up_to);
        if (hits.last().candidate_id <= last) == up_to {
            before.push(hits.last())
        } else {
            before
        }
    }
}

/// Matches, those that were used before first.
pub open spec fn used_first(hits: Seq<TaskMatch>, last_used: Option<usize>) -> Seq<TaskMatch> {
    match last_used {
        Some(last) => hits_up_to(hits, last, true) + hits_up_to(hits, last, false),
        None => hits,
    }
}

/// The last of the matches that were used before.
pub open spec fn divider(hits: Seq<TaskMatch>, last_used: Option<usize>) -> Option<usize> {
    match last_used {
        Some(last) => {
            let used = hits_up_to(hits, last, true).len();
            if used == 0 {
                None
            } else {
                Some((used - 1) as usize)
            }
        },
        None => None,
    }
}

fn copy_lsp_task(task: &LspTask) -> (r: LspTask)
    ensures
        r == *task,
{
    LspTask { has_location: task.has_location, task: arc_clone(&task.task) }
}

fn comes_before(a: &LspTask, b: &LspTask) -> (r: bool)
    ensures
        r == lsp_before(*a, *b),
{
    (a.has_location && !b.has_location) || (a.has_location == b.has_location && str_before(
        a.task.resolved_label.as_str(),
        b.task.resolved_label.as_str(),
    ))
}

proof fn lemma_with_lsp_task(tasks: Seq<LspTask>, task: LspTask, at: int)
    requires
        0 <= at <= tasks.len(),
        at > 0 ==> !lsp_before(task, tasks[at - 1]),
        forall|k: int| at <= k < tasks.len() ==> lsp_before(task, #[trigger] tasks[k]),
    ensures
        with_lsp_task(tasks, task) == tasks.insert(at, task),
    decreases tasks.len(),
{
    if at == tasks.len() {
        assert(tasks.insert(at, task) =~= tasks.push(task));
    } else {
        let init = tasks.drop_last();
        assert(lsp_before(task, tasks[tasks.len() - 1]));
        assert forall|k: int| at <= k < init.len() implies lsp_before(
            task,
            #[trigger] init[k],
        ) by {
            assert(init[k] == tasks[k]);
        }
        lemma_with_lsp_task(init, task, at);
        assert(tasks.insert(at, task) =~= init.insert(at, task).push(tasks.last()));
    }
}

/// The tasks of a language server in order.
pub fn sort_lsp_tasks(tasks: &Vec<LspTask>) -> (r: Vec<LspTask>)
    ensures
        r@ == in_lsp_order(tasks@),
{
    let mut r: Vec<LspTask> = Vec::new();
    let mut i: usize = 0;
    assert(r@ =~= in_lsp_order(tasks@.take(0)));
    while i < tasks.len()
        invariant
            i <= tasks@.len(),
            r@ == in_lsp_order(tasks@.take(i as int)),
        decreases tasks.len() - i,
    {
        proof {
            let next = tasks@.take(i + 1);
            assert(next.drop_last() =~= tasks@.take(i as int));
            assert(next.last() == tasks@[i as int]);
        }
        let task = copy_lsp_task(&tasks[i]);
        let ghost before = r@;
        let mut at: usize = r.len();
        while at > 0 && comes_before(&task, &r[at - 1])
            invariant
                at <= r@.len(),
                r@ == before,
                forall|k: int| at <= k < r@.len() ==> lsp_before(task, #[trigger] r@[k]),
            decreases at,
        {
            at = at - 1;
        }
        proof {
            lemma_with_lsp_task(before, task, at as int);
        }
        r.insert(at, task);
        i = i + 1;
    }
    assert(tasks@.take(i as int) =~= tasks@);
    r
}

fn push_lsp_tasks(r: &mut Vec<TaskCandidate>, tasks: &LspTasks)
    ensures
        final(r)@ == old(r)@ + as_candidates(tasks.kind, in_lsp_order(tasks.tasks@)),
{
    let sorted = sort_lsp_tasks(&tasks.tasks);
    let ghost start = r@;
    let ghost all = as_candidates(tasks.kind, sorted@);
    let mut i: usize = 0;
    assert(r@ =~= start + all.take(0));
    while i < sorted.len()
        invariant
            i <= sorted@.len(),
            all == as_candidates(tasks.kind, sorted@),
            r@ == start + all.take(i as int),
        decreases sorted.len() - i,
    {
        r.push(TaskCandidate { kind: arc_clone(&tasks.kind), task: arc_clone(&sorted[i].task) });
        i = i + 1;
        assert(r@ =~= start + all.take(i as int));
    }
    assert(all.take(i as int) =~= all);
}

fn copy_candidate(candidate: &TaskCandidate) -> (r: TaskCandidate)
    ensures
        r == *candidate,
{
    TaskCandidate { kind: arc_clone(&candidate.kind), task: arc_clone(&candidate.task) }
}

/// The end of a text that is too long is left out.
pub open spec fn trailed_off(text: Seq<char>, max_chars: nat) -> Seq<char> {
    if text.len() > max_chars {
        text.take(max_chars as int).push('…')
    } else {
        text
    }
}

/// The end of a text that is too long is left out.
pub fn truncate_and_trailoff(text: &str, max_chars: usize) -> (r: String)
    ensures
        r@ == trailed_off(text@, max_chars as nat),
{
    let chars = chars_of(text);
    if chars.len() > max_chars {
        let mut r = text_of(&chars, 0, max_chars);
        r.push('…');
        assert(r@ =~= trailed_off(text@, max_chars as nat));
        r
    } else {
        copy_text(text)
    }
}

/// Tags, each behind a mark.
pub open spec fn marked(tags: Seq<Seq<char>>, mark: Seq<char>) -> Seq<Seq<char>> {
    Seq::new(tags.len(), |i: int| mark + tags[i])
}

fn mark_tags(tags: &Vec<String>, mark: &str) -> (r: Vec<String>)
    ensures
        texts(r@) == marked(texts(tags@), mark@),
{
    let mut r: Vec<String> = Vec::new();
    let mut i: usize = 0;
    while i < tags.len()
        invariant
            i <= tags@.len(),
            r@.len() == i,
            forall|k: int| 0 <= k < i ==> (#[trigger] r@[k])@ == mark@ + tags@[k]@,
        decreases tags.len() - i,
    {
        let mut tag = copy_text(mark);
        tag.push_str(tags[i].as_str());
        r.push(tag);
        i = i + 1;
    }
    assert(texts(r@) =~= marked(texts(tags@), mark@));
    r
}

/// What is shown of the tags of a task.
pub fn tags_line(tags: &Vec<String>) -> (r: String)
    ensures
        r@ == trailed_off(
            joined(marked(texts(tags@), "#"@), " "@),
            MAX_TAGS_LINE_LEN as nat,
        ),
{
    let all = mark_tags(tags, "#");
    let line = crate::text::join(&all, " ");
    truncate_and_trailoff(line.as_str(), MAX_TAGS_LINE_LEN)
}

/// What is said of a task that its label does not say: its whole label where it is shown
/// short, its command where that is another text, and its tags.
pub open spec fn tooltip_text(task: ResolvedTask) -> Seq<char> {
    let whole = if task.resolved.label@ != task.original_task.label@ {
        task.resolved_label@
    } else {
        Seq::empty()
    };
    let with_command = if task.resolved.command_label@ != task.resolved_label@ {
        (if is_blank(whole) {
            whole
        } else {
            whole.push('\n')
        }) + task.resolved.command_label@
    } else {
        whole
    };
    if task.original_task.tags@.len() > 0 {
        with_command.push('\n') + joined(
            marked(texts(task.original_task.tags@), "\n#"@),
            ""@,
        )
    } else {
        with_command
    }
}

/// What is said of a task that its label does not say, if anything is.
pub fn tooltip(task: &ResolvedTask) -> (r: Option<String>)
    ensures
        optional_text(r) == (if is_blank(tooltip_text(*task)) {
            None
        } else {
            Some(tooltip_text(*task))
        }),
{
    let mut text = String::new();
    if !str_eq(task.resolved.label.as_str(), task.original_task.label.as_str()) {
        text.push_str(task.resolved_label.as_str());
        assert(text@ =~= task.resolved_label@);
    } else {
        assert(text@ =~= Seq::<char>::empty());
    }
    if !str_eq(task.resolved.command_label.as_str(), task.resolved_label.as_str()) {
        if !blank(text.as_str()) {
            text.push('\n');
        }
        text.push_str(task.resolved.command_label.as_str());
    }
    if task.original_task.tags.len() > 0 {
        text.push('\n');
        let all = mark_tags(&task.original_task.tags, "\n#");
        text.push_str(crate::text::join(&all, "").as_str());
    }
    assert(text@ == tooltip_text(*task));
    if blank(text.as_str()) {
        None
    } else {
        Some(text)
    }
}

/// What a button at the foot of the list does.
#[derive(Copy, Clone, Debug, PartialEq, Eq, Structural)]
pub enum FooterButton {
    SpawnOneshot,
    SpawnOneshotWithoutHistory,
    RerunWithoutHistory,
    SpawnWithoutHistory,
    Rerun,
    Spawn,
}

impl FooterButton {
    /// What is written on the button.
    pub fn label(&self) -> (r: &'static str)
        ensures
            r@ == (match *self {
                FooterButton::SpawnOneshot => "Spawn Oneshot"@,
                FooterButton::SpawnOneshotWithoutHistory => "Spawn Oneshot Without History"@,
                FooterButton::RerunWithoutHistory => "Rerun Without History"@,
                FooterButton::SpawnWithoutHistory => "Spawn Without History"@,
                FooterButton::Rerun => "Rerun"@,
                FooterButton::Spawn => "Spawn"@,
            }),
    {
        match self {
            FooterButton::SpawnOneshot => "Spawn Oneshot",
            FooterButton::SpawnOneshotWithoutHistory => "Spawn Oneshot Without History",
            FooterButton::RerunWithoutHistory => "Rerun Without History",
            FooterButton::SpawnWithoutHistory => "Spawn Without History",
            FooterButton::Rerun => "Rerun",
            FooterButton::Spawn => "Spawn",
        }
    }
}

/// The template of a command that was typed in.
pub open spec fn oneshot_model(prompt: Seq<char>, overrides: Option<TaskOverrides>) -> TemplateModel {
    TemplateModel {
        label: prompt,
        command: prompt,
        args: Seq::empty(),
        env: Seq::empty(),
        cwd: None,
        use_new_terminal: false,
        allow_concurrent_runs: false,
        reveal: RevealStrategy::Always,
        reveal_target: match overridden_target(overrides) {
            Some(target) => target,
            None => RevealTarget::Dock,
        },
        hide: HideStrategy::Never,
        tags: Seq::empty(),
        shell: ShellModel::System,
        show_summary: false,
        show_command: false,
    }
}

impl TasksModalDelegate {
    /// The candidate that is selected.
    pub open spec fn picked(&self) -> Option<TaskCandidate> {
        match self.candidates {
            Some(candidates) => if self.selected_index < self.hits@.len()
                && self.hits@[self.selected_index as int].candidate_id < candidates@.len() {
                Some(candidates@[self.hits@[self.selected_index as int].candidate_id as int])
            } else {
                None
            },
            None => None,
        }
    }

    pub fn new(task_overrides: Option<TaskOverrides>) -> (r: TasksModalDelegate)
        ensures
            r.candidates is None,
            r.hits@.len() == 0,
            r.last_used_candidate_index is None,
            r.divider_index is None,
            r.selected_index == 0,
            r.prompt@ == ""@,
            r.task_overrides == task_overrides,
    {
        TasksModalDelegate {
            candidates: None,
            hits: Vec::new(),
            last_used_candidate_index: None,
            divider_index: None,
            selected_index: 0,
            prompt: copy_text(""),
            task_overrides,
        }
    }

    /// What is written where something is to be typed in.
    pub fn placeholder_text(&self) -> (r: &'static str)
        ensures
            r@ == (if overridden_target(self.task_overrides) == Some(RevealTarget::Center) {
                "Find a task, or run a command in the central pane"@
            } else {
                "Find a task, or run a command"@
            }),
    {
        match self.task_overrides {
            Some(TaskOverrides { reveal_target: Some(RevealTarget::Center) }) => {
                "Find a task, or run a command in the central pane"
            },
            _ => "Find a task, or run a command",
        }
    }

    /// Takes what can be picked: tasks that were used before, those of language servers, and
    /// the current ones. Where those of language servers are preferred and there are any,
    /// those of languages are left out.
    pub fn set_candidates(
        &mut self,
        used: Vec<TaskCandidate>,
        lsp_tasks: &Vec<LspTasks>,
        current: &Vec<TaskCandidate>,
        prefer_lsp: bool,
    )
        ensures
            final(self).candidates is Some,
            final(self).candidates->0@ == used@ + lsp_candidates(lsp_tasks@) + wanted_candidates(
                current@,
                !prefer_lsp || lsp_tasks@.len() == 0,
            ),
            final(self).last_used_candidate_index == (if used@.len() == 0 {
                None
            } else {
                Some((used@.len() - 1) as usize)
            }),
            final(self).task_overrides == old(self).task_overrides,
            final(self).divider_index == old(self).divider_index,
            final(self).hits == old(self).hits,
            final(self).selected_index == old(self).selected_index,
            final(self).prompt == old(self).prompt,
    {
        self.last_used_candidate_index = if used.len() == 0 {
            None
        } else {
            Some(used.len() - 1)
        };
        let with_languages: bool = !prefer_lsp || lsp_tasks.len() == 0;
        let mut all = used;
        let mut i: usize = 0;
        assert(all@ =~= used@ + lsp_candidates(lsp_tasks@.take(0)));
        while i < lsp_tasks.len()
            invariant
                i <= lsp_tasks@.len(),
                all@ == used@ + lsp_candidates(lsp_tasks@.take(i as int)),
            decreases lsp_tasks.len() - i,
        {
            let ghost before = all@;
            proof {
                let next = lsp_tasks@.take(i + 1);
                assert(next.drop_last() =~= lsp_tasks@.take(i as int));
                assert(next.last() == lsp_tasks@[i as int]);
            }
            push_lsp_tasks(&mut all, &lsp_tasks[i]);
            i = i + 1;
            assert(all@ =~= used@ + lsp_candidates(lsp_tasks@.take(i as int)));
        }
        assert(lsp_tasks@.take(i as int) =~= lsp_tasks@);
        let ghost start = all@;
        let mut j: usize = 0;
        assert(all@ =~= start + wanted_candidates(current@.take(0), with_languages));
        while j < current.len()
            invariant
                j <= current@.len(),
                all@ == start + wanted_candidates(current@.take(j as int), with_languages),
            decreases current.len() - j,
        {
            proof {
                let next = current@.take(j + 1);
                assert(next.drop_last() =~= current@.take(j as int));
                assert(next.last() == current@[j as int]);
            }
            let is_language: bool = match &*current[j].kind {
                TaskSourceKind::Language { .. } => true,
                _ => false,
            };
            if with_languages || !is_language {
                all.push(copy_candidate(&current[j]));
            }
            j = j + 1;
            assert(all@ =~= start + wanted_candidates(current@.take(j as int), with_languages));
        }
        assert(current@.take(j as int) =~= current@);
        self.candidates = Some(all);
    }

    /// What each candidate is searched by.
    pub fn string_match_candidates(&self) -> (r: Vec<String>)
        ensures
            match self.candidates {
                Some(candidates) => r@.len() == candidates@.len() && forall|i: int|
                    0 <= i < r@.len() ==> (#[trigger] r@[i])@ == candidates@[i].task.resolved.label@,
                None => r@.len() == 0,
            },
    {
        let mut r: Vec<String> = Vec::new();
        if let Some(candidates) = &self.candidates {
            let mut i: usize = 0;
            while i < candidates.len()
                invariant
                    i <= candidates@.len(),
                    r@.len() == i,
                    forall|k: int|
                        0 <= k < i ==> (#[trigger] r@[k])@ == candidates@[k].task.resolved.label@,
                decreases candidates.len() - i,
            {
                r.push(copy_text(candidates[i].task.resolved.label.as_str()));
                i = i + 1;
            }
        }
        r
    }

    /// Takes the matches of what was typed in. Those that were used before come first, and
    /// the selection stays among the matches.
    pub fn update_matches(&mut self, hits: Vec<TaskMatch>, query: String)
        ensures
            final(self).hits@ == used_first(hits@, old(self).last_used_candidate_index),
            final(self).divider_index == divider(hits@, old(self).last_used_candidate_index),
            final(self).selected_index == (if hits@.len() == 0 {
                0
            } else if old(self).selected_index < hits@.len() {
                old(self).selected_index as int
            } else {
                hits@.len() - 1
            }),
            final(self).prompt == query,
            final(self).candidates == old(self).candidates,
            final(self).last_used_candidate_index == old(self).last_used_candidate_index,
            final(self).task_overrides == old(self).task_overrides,
    {
        let ghost all = hits@;
        let last_used = self.last_used_candidate_index;
        let mut left = hits;
        match last_used {
            Some(last) => {
                let mut used: Vec<TaskMatch> = Vec::new();
                let mut rest: Vec<TaskMatch> = Vec::new();
                let mut done: Ghost<int> = Ghost(0int);
                assert(all.skip(0) =~= all);
                assert(used@ =~= hits_up_to(all.take(0), last, true));
                assert(rest@ =~= hits_up_to(all.take(0), last, false));
                while left.len() > 0
                    invariant
                        0 <= done@ <= all.len(),
                        left@ == all.skip(done@),
                        used@ == hits_up_to(all.take(done@), last, true),
                        rest@ == hits_up_to(all.take(done@), last, false),
                        used@.len() + rest@.len() == done@,
                    decreases left.len(),
                {
                    let ghost here: int = done@;
                    let hit = left.remove(0);
                    proof {
                        assert(hit == all[here]);
                        assert(all.skip(here).remove(0) =~= all.skip(here + 1));
                        let next = all.take(here + 1);
                        assert(next.drop_last() =~= all.take(here));
                        assert(next.last() == hit);
                        done@ = here + 1;
                    }
                    if hit.candidate_id <= last {
                        used.push(hit);
                    } else {
                        rest.push(hit);
                    }
                }
                assert(all.take(done@) =~= all);
                let count: usize = used.len();
                self.divider_index = if count == 0 {
                    None
                } else {
                    Some(count - 1)
                };
                used.append(&mut rest);
                self.hits = used;
                assert(self.hits@ =~= used_first(all, last_used));
                assert(self.hits@.len() == all.len());
            },
            None => {
                self.divider_index = None;
                self.hits = left;
            },
        }
        self.prompt = query;
        let count: usize = self.hits.len();
        if count == 0 {
            self.selected_index = 0;
        } else if self.selected_index > count - 1 {
            self.selected_index = count - 1;
        }
    }

    fn selected_candidate(&self) -> (r: Option<&TaskCandidate>)
        ensures
            match r {
                Some(candidate) => self.picked() == Some(*candidate),
                None => self.picked() is None,
            },
    {
        if self.selected_index >= self.hits.len() {
            return None;
        }
        match &self.candidates {
            Some(candidates) => {
                let id: usize = self.hits[self.selected_index].candidate_id;
                if id < candidates.len() {
                    Some(&candidates[id])
                } else {
                    None
                }
            },
            None => None,
        }
    }

    /// The task to be run, and where its terminal is put if it is not where the task says.
    /// The match that is selected must be of a candidate that is still there.
    pub fn confirm(&self) -> (r: Option<(TaskCandidate, Option<RevealTarget>)>)
        requires
            self.candidates is Some && self.selected_index < self.hits@.len()
                ==> self.hits@[self.selected_index as int].candidate_id
                < self.candidates->0@.len(),
        ensures
            r == match self.picked() {
                Some(candidate) => Some((candidate, overridden_target(self.task_overrides))),
                None => None,
            },
    {
        match self.selected_candidate() {
            Some(candidate) => {
                let target = match self.task_overrides {
                    Some(overrides) => overrides.reveal_target,
                    None => None,
                };
                Some((copy_candidate(candidate), target))
            },
            None => None,
        }
    }

    /// What is typed in in place of a name that was picked: the command of the task.
    pub fn confirm_completion(&self) -> (r: Option<String>)
        ensures
            optional_text(r) == match self.picked() {
                Some(candidate) => Some(candidate.task.resolved.command_label@),
                None => None,
            },
    {
        match self.selected_candidate() {
            Some(candidate) => Some(copy_text(candidate.task.resolved.command_label.as_str())),
            None => None,
        }
    }

    /// Takes up that what tasks refer to has changed: the candidates are to be found anew.
    pub fn task_contexts_loaded(&mut self)
        ensures
            *final(self) == (TasksModalDelegate { candidates: None, ..*old(self) }),
    {
        self.candidates = None;
    }

    /// The template of a command that was typed in, if one was.
    pub fn oneshot_template(&self) -> (r: Option<TaskTemplate>)
        ensures
            match r {
                Some(template) => !is_blank(self.prompt@) && template@ == oneshot_model(
                    self.prompt@,
                    self.task_overrides,
                ),
                None => is_blank(self.prompt@),
            },
    {
        if blank(self.prompt.as_str()) {
            return None;
        }
        let reveal_target = match self.task_overrides {
            Some(TaskOverrides { reveal_target: Some(target) }) => target,
            _ => RevealTarget::Dock,
        };
        let template = TaskTemplate {
            label: copy_text(self.prompt.as_str()),
            command: copy_text(self.prompt.as_str()),
            args: Vec::new(),
            env: TextMap::new(),
            cwd: None,
            use_new_terminal: false,
            allow_concurrent_runs: false,
            reveal: RevealStrategy::Always,
            reveal_target,
            hide: HideStrategy::Never,
            tags: Vec::new(),
            shell: Shell::System,
            show_summary: false,
            show_command: false,
        };
        assert(texts(template.args@) =~= Seq::empty());
        assert(texts(template.tags@) =~= Seq::empty());
        Some(template)
    }

    /// The task of a command that was typed in, if one was and its variables can be
    /// replaced.
    pub fn spawn_oneshot(
        &self,
        id_base: &str,
        cx: &TaskContext,
        task_json: Option<&str>,
        variables_json: Option<&str>,
    ) -> (r: Option<ResolvedTask>)
        requires
            cx.project_env.wf(),
            is_blank(self.prompt@) || template_readable(
                oneshot_model(self.prompt@, self.task_overrides),
                *cx,
            ),
            task_json matches Some(json) ==> byte_len(json@) < 0x2000_0000_0000_0000,
            variables_json matches Some(json) ==> byte_len(json@) < 0x2000_0000_0000_0000,
        ensures
            is_resolved(
                oneshot_model(self.prompt@, self.task_overrides),
                *cx,
                id_base@,
                task_json,
                variables_json,
                r,
            ),
    {
        match self.oneshot_template() {
            Some(template) => template.resolve_task(id_base, cx, task_json, variables_json),
            None => None,
        }
    }

    /// The task of a command that was typed in, if its texts can be read or need not be.
    pub fn try_spawn_oneshot(
        &self,
        id_base: &str,
        cx: &TaskContext,
        task_json: Option<&str>,
        variables_json: Option<&str>,
    ) -> (r: Result<Option<ResolvedTask>, UnreadableTemplate>)
        requires
            cx.project_env.wf(),
            task_json matches Some(json) ==> byte_len(json@) < 0x2000_0000_0000_0000,
            variables_json matches Some(json) ==> byte_len(json@) < 0x2000_0000_0000_0000,
        ensures
            r is Ok <==> is_blank(self.prompt@) || template_readable(
                oneshot_model(self.prompt@, self.task_overrides),
                *cx,
            ),
            r matches Ok(task) ==> is_resolved(
                oneshot_model(self.prompt@, self.task_overrides),
                *cx,
                id_base@,
                task_json,
                variables_json,
                task,
            ),
    {
        let readable: bool = match self.oneshot_template() {
            Some(template) => template.is_readable(cx),
            None => true,
        };
        if readable {
            Ok(self.spawn_oneshot(id_base, cx, task_json, variables_json))
        } else {
            Err(UnreadableTemplate)
        }
    }

    /// Forgets a candidate that was used before, and gives it back.
    pub fn delete_previously_used(&mut self, ix: usize) -> (r: Option<TaskCandidate>)
        ensures
            match r {
                Some(candidate) => old(self).candidates is Some && ix
                    < old(self).candidates->0@.len() && candidate == old(self).candidates->0@[ix as int]
                    && final(self).candidates is Some && final(self).candidates->0@
                    == old(self).candidates->0@.remove(ix as int),
                None => (old(self).candidates is None || ix >= old(self).candidates->0@.len())
                    && final(self).candidates == old(self).candidates,
            },
            final(self).last_used_candidate_index == (match old(self).last_used_candidate_index {
                Some(last) => if last == 0 {
                    None
                } else {
                    Some((last - 1) as usize)
                },
                None => None,
            }),
            final(self).hits == old(self).hits,
            final(self).divider_index == old(self).divider_index,
            final(self).selected_index == old(self).selected_index,
            final(self).prompt == old(self).prompt,
            final(self).task_overrides == old(self).task_overrides,
    {
        self.last_used_candidate_index = match self.last_used_candidate_index {
            Some(last) => if last == 0 {
                None
            } else {
                Some(last - 1)
            },
            None => None,
        };
        match self.candidates.take() {
            None => None,
            Some(mut candidates) => {
                let removed = if ix < candidates.len() {
                    Some(candidates.remove(ix))
                } else {
                    None
                };
                self.candidates = Some(candidates);
                removed
            },
        }
    }

    /// Whether a match was used before.
    pub fn is_used(&self, ix: usize) -> (r: bool)
        ensures
            r == (self.divider_index is Some && ix <= self.divider_index->0),
    {
        match self.divider_index {
            Some(divider) => ix <= divider,
            None => false,
        }
    }

    /// Behind which matches a line is drawn.
    pub fn separators_after_indices(&self) -> (r: Vec<usize>)
        ensures
            r@ == (match self.divider_index {
                Some(i) => seq![i],
                None => Seq::empty(),
            }),
    {
        let mut r: Vec<usize> = Vec::new();
        if let Some(i) = self.divider_index {
            r.push(i);
        }
        r
    }

    /// The button at the foot of the list.
    pub fn footer_button(&self, alt: bool, secondary: bool) -> (r: FooterButton)
        ensures
            r == ({
                let recent = self.divider_index is Some && self.selected_index
                    <= self.divider_index->0;
                if (alt || self.hits@.len() == 0) && self.prompt@.len() > 0 {
                    if secondary {
                        FooterButton::SpawnOneshotWithoutHistory
                    } else {
                        FooterButton::SpawnOneshot
                    }
                } else if secondary {
                    if recent {
                        FooterButton::RerunWithoutHistory
                    } else {
                        FooterButton::SpawnWithoutHistory
                    }
                } else if recent {
                    FooterButton::Rerun
                } else {
                    FooterButton::Spawn
                }
            }),
    {
        let recent: bool = self.is_used(self.selected_index);
        let typed: bool = !str_eq(self.prompt.as_str(), "");
        proof {
            reveal_strlit("");
            if self.prompt@.len() == 0 {
                assert(self.prompt@ =~= ""@);
            }
        }
        if (alt || self.hits.len() == 0) && typed {
            if secondary {
                FooterButton::SpawnOneshotWithoutHistory
            } else {
                FooterButton::SpawnOneshot
            }
        } else if secondary {
            if recent {
                FooterButton::RerunWithoutHistory
            } else {
                FooterButton::SpawnWithoutHistory
            }
        } else if recent {
            FooterButton::Rerun
        } else {
            FooterButton::Spawn
        }
    }
}

/// The picture of a task.
#[derive(Debug)]
pub enum TaskIcon {
    Terminal,
    Settings,
    FileTree,
    /// That of the files of a language, by its name in lower case.
    FileType(String),
}

/// Whether a picture is the one of tasks from somewhere.
pub open spec fn is_icon_of(kind: TaskSourceKind, icon: TaskIcon) -> bool {
    match kind {
        TaskSourceKind::UserInput => icon == TaskIcon::Terminal,
        TaskSourceKind::AbsPath => icon == TaskIcon::Settings,
        TaskSourceKind::Worktree => icon == TaskIcon::FileTree,
        TaskSourceKind::Lsp { language_name } => icon is FileType && icon->FileType_0@
            == lowercase(language_name@),
        TaskSourceKind::Language { name } => icon is FileType && icon->FileType_0@ == lowercase(
            name@,
        ),
    }
}

/// A match as it is shown in the list.
#[derive(Debug)]
pub struct TaskRow {
    pub icon: TaskIcon,
    /// The picture tells that the task comes from a language server.
    pub has_indicator: bool,
    pub label: String,
    /// Where what was typed is in the label.
    pub highlights: Vec<usize>,
    /// How many characters the label has.
    pub char_count: usize,
    pub tags: String,
    /// The task was used before.
    pub used: bool,
    pub tooltip: Option<String>,
    /// The candidate that can be taken off the list here.
    pub delete: Option<usize>,
}

/// The candidate of a match, if it is still there.
pub open spec fn candidate_of(delegate: TasksModalDelegate, ix: int) -> Option<TaskCandidate> {
    match delegate.candidates {
        Some(candidates) => {
            let id = delegate.hits@[ix].candidate_id;
            if id < candidates@.len() {
                Some(candidates@[id as int])
            } else {
                None
            }
        },
        None => None,
    }
}

/// Whether a row shows a match of a candidate.
pub open spec fn is_row(
    delegate: TasksModalDelegate,
    ix: usize,
    candidate: TaskCandidate,
    row: TaskRow,
) -> bool {
    let hit = delegate.hits@[ix as int];
    let task = *candidate.task;
    let used = delegate.divider_index is Some && ix <= delegate.divider_index->0;
    &&& is_icon_of(*candidate.kind, row.icon)
    &&& row.has_indicator == *candidate.kind is Lsp
    &&& row.label@ == hit.text@
    &&& row.highlights@ == hit.positions@
    &&& row.char_count == hit.text@.len()
    &&& row.tags@ == trailed_off(
        joined(marked(texts(task.original_task.tags@), "#"@), " "@),
        MAX_TAGS_LINE_LEN as nat,
    )
    &&& row.used == used
    &&& optional_text(row.tooltip) == (if is_blank(tooltip_text(task)) {
        None
    } else {
        Some(tooltip_text(task))
    })
    &&& row.delete == (if *candidate.kind is UserInput || used {
        Some(hit.candidate_id)
    } else {
        None
    })
}

impl TasksModalDelegate {
    /// A match as it is shown in the list. Nothing is shown where the candidates are not
    /// known, or the candidate of the match is gone.
    pub fn match_row(&self, ix: usize) -> (r: Option<TaskRow>)
        requires
            self.candidates is Some ==> ix < self.hits@.len(),
        ensures
            match candidate_of(*self, ix as int) {
                Some(candidate) => r is Some && is_row(*self, ix, candidate, r->0),
                None => r is None,
            },
    {
        let candidates = match &self.candidates {
            Some(candidates) => candidates,
            None => {
                return None;
            },
        };
        let hit = &self.hits[ix];
        if hit.candidate_id >= candidates.len() {
            return None;
        }
        let candidate = &candidates[hit.candidate_id];
        let used: bool = self.is_used(ix);
        Some(
            TaskRow {
                icon: candidate.kind.icon(),
                has_indicator: candidate.kind.has_indicator(),
                label: copy_text(hit.text.as_str()),
                highlights: copy_positions(&hit.positions),
                char_count: chars_of(hit.text.as_str()).len(),
                tags: tags_line(&candidate.task.original_task.tags),
                used,
                tooltip: tooltip(&candidate.task),
                delete: if candidate.kind.can_be_deleted(used) {
                    Some(hit.candidate_id)
                } else {
                    None
                },
            },
        )
    }
}

fn copy_positions(positions: &Vec<usize>) -> (r: Vec<usize>)
    ensures
        r@ == positions@,
{
    let mut r: Vec<usize> = Vec::new();
    let mut i: usize = 0;
    while i < positions.len()
        invariant
            i <= positions@.len(),
            r@ == positions@.take(i as int),
        decreases positions.len() - i,
    {
        r.push(positions[i]);
        i = i + 1;
        assert(r@ =~= positions@.take(i as int));
    }
    assert(positions@.take(i as int) =~= positions@);
    r
}

impl TaskSourceKind {
    /// The picture of a task from here.
    pub fn icon(&self) -> (r: TaskIcon)
        ensures
            is_icon_of(*self, r),
    {
        match self {
            TaskSourceKind::UserInput => TaskIcon::Terminal,
            TaskSourceKind::AbsPath => TaskIcon::Settings,
            TaskSourceKind::Worktree => TaskIcon::FileTree,
            TaskSourceKind::Lsp { language_name } => TaskIcon::FileType(
                to_lowercase(language_name.as_str()),
            ),
            TaskSourceKind::Language { name } => TaskIcon::FileType(to_lowercase(name.as_str())),
        }
    }

    /// Whether the picture tells that the task comes from a language server.
    pub fn has_indicator(&self) -> (r: bool)
        ensures
            r == *self is Lsp,
    {
        match self {
            TaskSourceKind::Lsp { .. } => true,
            _ => false,
        }
    }

    /// Whether a task can be taken off the list, from whether it was used before.
    pub fn can_be_deleted(&self, used: bool) -> (r: bool)
        ensures
            r == (*self is UserInput || used),
    {
        match self {
            TaskSourceKind::UserInput => true,
            _ => used,
        }
    }
}

proof fn lemma_hits_up_to(hits: Seq<TaskMatch>, last: usize, up_to: bool)
    ensures
        forall|i: int|
            0 <= i < hits_up_to(hits, last, up_to).len() ==> ((
            #[trigger] hits_up_to(hits, last, up_to)[i]).candidate_id <= last) == up_to,
        hits_up_to(hits, last, true).len() + hits_up_to(hits, last, false).len() == hits.len(),
    decreases hits.len(),
{
    if hits.len() > 0 {
        lemma_hits_up_to(hits.drop_last(), last, up_to);
    }
}

/// The line in the list parts the matches that were used before from the others.
pub proof fn law_divider_parts_used_tasks(hits: Seq<TaskMatch>, last: usize, i: int)
    requires
        0 <= i < hits.len(),
        hits.len() <= usize::MAX,
    ensures
        used_first(hits, Some(last)).len() == hits.len(),
        (used_first(hits, Some(last))[i].candidate_id <= last) == (divider(hits, Some(last)) is Some
            && i <= divider(hits, Some(last))->0),
{
    lemma_hits_up_to(hits, last, true);
    lemma_hits_up_to(hits, last, false);
    let used = hits_up_to(hits, last, true);
    let rest = hits_up_to(hits, last, false);
    if i < used.len() {
        assert(used_first(hits, Some(last))[i] == used[i]);
    } else {
        assert(used_first(hits, Some(last))[i] == rest[i - used.len()]);
    }
}

proof fn lemma_hits_are_chosen(hits: Seq<TaskMatch>, last: usize, up_to: bool)
    ensures
        hits_up_to(hits, last, up_to) == hits.filter(
            |hit: TaskMatch| (hit.candidate_id <= last) == up_to,
        ),
    decreases hits.len(),
{
    reveal(Seq::filter);
    if hits.len() > 0 {
        lemma_hits_are_chosen(hits.drop_last(), last, up_to);
    }
}

/// Tasks that were used come first, then the others, both in the order in which they were
/// found. The selection stays in the list.
pub proof fn law_used_tasks_are_listed_first(
    delegate: &mut TasksModalDelegate,
    hits: Vec<TaskMatch>,
    query: String,
    r: (),
)
    requires
        call_ensures(TasksModalDelegate::update_matches, (delegate, hits, query), r),
    ensures
        old(delegate).last_used_candidate_index is None ==> final(delegate).hits@ == hits@
            && final(delegate).divider_index is None,
        old(delegate).last_used_candidate_index matches Some(last) ==> {
            let used = hits@.filter(|hit: TaskMatch| (hit.candidate_id <= last) == true);
            let others = hits@.filter(|hit: TaskMatch| (hit.candidate_id <= last) == false);
            &&& final(delegate).hits@ == used + others
            &&& used.len() == 0 ==> final(delegate).divider_index is None
            &&& used.len() > 0 ==> final(delegate).divider_index is Some
                && final(delegate).divider_index->0 == used.len() - 1
        },
        hits@.len() > 0 ==> final(delegate).selected_index < hits@.len(),
        hits@.len() == 0 ==> final(delegate).selected_index == 0,
        old(delegate).selected_index < hits@.len() ==> final(delegate).selected_index
            == old(delegate).selected_index,
        final(delegate).prompt == query,
{
    if let Some(last) = old(delegate).last_used_candidate_index {
        lemma_hits_are_chosen(hits@, last, true);
        lemma_hits_are_chosen(hits@, last, false);
        lemma_hits_len(hits@, last);
        assert(hits.len() == hits@.len());
    }
}

proof fn lemma_hits_len(hits: Seq<TaskMatch>, last: usize)
    ensures
        hits_up_to(hits, last, true).len() <= hits.len(),
    decreases hits.len(),
{
    if hits.len() > 0 {
        lemma_hits_len(hits.drop_last(), last);
    }
}

/// Whether a task of a language server comes after another one: those with a place come
/// first, and others go by their labels.
pub open spec fn follows(a: LspTask, b: LspTask) -> bool {
    (!a.has_location && b.has_location) || (a.has_location == b.has_location && text_before(
        b.task.resolved_label@,
        a.task.resolved_label@,
    ))
}

proof fn lemma_lsp_order(tasks: Seq<LspTask>, task: LspTask)
    requires
        forall|i: int, j: int|
            0 <= i < j < tasks.len() ==> !follows(#[trigger] tasks[i], #[trigger] tasks[j]),
    ensures
        with_lsp_task(tasks, task).to_multiset() == tasks.to_multiset().insert(task),
        forall|i: int, j: int|
            0 <= i < j < with_lsp_task(tasks, task).len() ==> !follows(
                #[trigger] with_lsp_task(tasks, task)[i],
                #[trigger] with_lsp_task(tasks, task)[j],
            ),
        with_lsp_task(tasks, task).len() == tasks.len() + 1,
        forall|i: int|
            0 <= i < with_lsp_task(tasks, task).len() ==> #[trigger] with_lsp_task(tasks, task)[i]
                == task || tasks.contains(with_lsp_task(tasks, task)[i]),
    decreases tasks.len(),
{
    let all = with_lsp_task(tasks, task);
    broadcast use vstd::seq_lib::group_to_multiset_ensures;
    if tasks.len() == 0 || !lsp_before(task, tasks.last()) {
        assert forall|i: int, j: int| 0 <= i < j < all.len() implies !follows(
            #[trigger] all[i],
            #[trigger] all[j],
        ) by {
            if j == tasks.len() {
                let last = tasks.last();
                lemma_text_before_total(tasks[i].task.resolved_label@, task.task.resolved_label@);
                if follows(tasks[i], task) {
                    if i < tasks.len() - 1 {
                        assert(!follows(tasks[i], last));
                        lemma_follows(tasks[i], last, task);
                    }
                }
            }
        }
        assert forall|i: int| 0 <= i < all.len() implies #[trigger] all[i] == task
            || tasks.contains(all[i]) by {
            if i < tasks.len() {
                assert(tasks[i] == all[i]);
            }
        }
    } else {
        let init = tasks.drop_last();
        let last = tasks.last();
        assert forall|i: int, j: int| 0 <= i < j < init.len() implies !follows(
            #[trigger] init[i],
            #[trigger] init[j],
        ) by {
            assert(init[i] == tasks[i] && init[j] == tasks[j]);
        }
        lemma_lsp_order(init, task);
        let before = with_lsp_task(init, task);
        assert(tasks =~= init.push(last));
        assert(tasks.to_multiset() =~= init.to_multiset().insert(last));
        assert(all.to_multiset() =~= before.to_multiset().insert(last));
        assert(all.to_multiset() =~= tasks.to_multiset().insert(task));
        assert forall|i: int, j: int| 0 <= i < j < all.len() implies !follows(
            #[trigger] all[i],
            #[trigger] all[j],
        ) by {
            assert(all[i] == before[i]);
            if j < before.len() {
                assert(all[j] == before[j]);
            } else if before[i] == task {
                lemma_text_before_total(task.task.resolved_label@, last.task.resolved_label@);
            } else {
                let k: int = choose|k: int| 0 <= k < init.len() && init[k] == before[i];
                assert(tasks[k] == before[i]);
                assert(tasks[tasks.len() - 1] == last);
            }
        }
        assert forall|i: int| 0 <= i < all.len() implies #[trigger] all[i] == task
            || tasks.contains(all[i]) by {
            if i < before.len() {
                assert(all[i] == before[i]);
                if all[i] != task {
                    let k: int = choose|k: int| 0 <= k < init.len() && init[k] == before[i];
                    assert(tasks[k] == all[i]);
                }
            } else {
                assert(tasks[tasks.len() - 1] == all[i]);
            }
        }
    }
}

proof fn lemma_follows(a: LspTask, b: LspTask, c: LspTask)
    requires
        follows(a, c),
        !follows(a, b),
    ensures
        follows(b, c),
{
    let x = a.task.resolved_label@;
    let y = b.task.resolved_label@;
    let z = c.task.resolved_label@;
    lemma_text_before_total(x, y);
    if a.has_location == b.has_location && a.has_location == c.has_location {
        if x != y {
            assert(text_before(x, y));
            crate::text::lemma_text_before_transitive(z, x, y);
        }
    }
}

/// The tasks of a language server are all kept and put in order: those with a place first, and
/// by their labels among themselves.
pub proof fn law_tasks_of_a_server_in_order(tasks: Vec<LspTask>, r: Vec<LspTask>)
    requires
        call_ensures(sort_lsp_tasks, (&tasks,), r),
    ensures
        r@.to_multiset() == tasks@.to_multiset(),
        forall|i: int, j: int|
            0 <= i < j < r@.len() ==> !follows(#[trigger] r@[i], #[trigger] r@[j]),
{
    lemma_in_lsp_order(tasks@);
}

proof fn lemma_in_lsp_order(tasks: Seq<LspTask>)
    ensures
        in_lsp_order(tasks).to_multiset() == tasks.to_multiset(),
        in_lsp_order(tasks).len() == tasks.len(),
        forall|i: int, j: int|
            0 <= i < j < in_lsp_order(tasks).len() ==> !follows(
                #[trigger] in_lsp_order(tasks)[i],
                #[trigger] in_lsp_order(tasks)[j],
            ),
    decreases tasks.len(),
{
    broadcast use vstd::seq_lib::group_to_multiset_ensures;
    if tasks.len() == 0 {
        assert(tasks =~= Seq::empty());
    } else {
        lemma_in_lsp_order(tasks.drop_last());
        lemma_lsp_order(in_lsp_order(tasks.drop_last()), tasks.last());
        assert(tasks =~= tasks.drop_last().push(tasks.last()));
    }
}

proof fn lemma_wanted(candidates: Seq<TaskCandidate>)
    ensures
        wanted_candidates(candidates, true) == candidates,
        wanted_candidates(candidates, false) == candidates.filter(
            |candidate: TaskCandidate| !(*candidate.kind is Language),
        ),
    decreases candidates.len(),
{
    reveal(Seq::filter);
    if candidates.len() > 0 {
        lemma_wanted(candidates.drop_last());
        assert(candidates.drop_last().push(candidates.last()) =~= candidates);
    } else {
        assert(candidates =~= Seq::empty());
    }
}

/// Tasks that can be picked are those that were used, then those of language servers, and then
/// the current ones. Those of a language are left out where servers are preferred and have
/// some.
pub proof fn law_which_tasks_can_be_picked(
    delegate: &mut TasksModalDelegate,
    without: &mut TasksModalDelegate,
    used: Vec<TaskCandidate>,
    lsp_tasks: Vec<LspTasks>,
    none: Vec<LspTasks>,
    current: Vec<TaskCandidate>,
    prefer_lsp: bool,
    r: (),
)
    requires
        call_ensures(
            TasksModalDelegate::set_candidates,
            (delegate, used, &lsp_tasks, &current, prefer_lsp),
            r,
        ),
        none@.len() == 0,
        call_ensures(
            TasksModalDelegate::set_candidates,
            (without, used, &none, &current, prefer_lsp),
            r,
        ),
    ensures
        final(without).candidates is Some && final(without).candidates->0@ == used@ + current@,
        final(delegate).candidates is Some && used@.is_prefix_of(
            final(delegate).candidates->0@,
        ),
        ({
            let all = final(delegate).candidates->0@;
            let last = if prefer_lsp && lsp_tasks@.len() > 0 {
                current@.filter(|candidate: TaskCandidate| !(*candidate.kind is Language))
            } else {
                current@
            };
            last.len() <= all.len() && all.skip(all.len() - last.len()) == last
        }),
        used@.len() == 0 ==> final(delegate).last_used_candidate_index is None,
        used@.len() > 0 ==> final(delegate).last_used_candidate_index is Some
            && final(delegate).last_used_candidate_index->0 == used@.len() - 1,
{
    lemma_wanted(current@);
    let all = final(delegate).candidates->0@;
    assert(all.subrange(0, used@.len() as int) =~= used@);
    let last = if prefer_lsp && lsp_tasks@.len() > 0 {
        current@.filter(|candidate: TaskCandidate| !(*candidate.kind is Language))
    } else {
        current@
    };
    assert(all.skip(all.len() - last.len()) =~= last);
    assert(final(without).candidates->0@ =~= used@ + current@);
    assert(used.len() == used@.len());
}

/// Each server adds its tasks, in order and with its kind, after those of the servers before.
pub proof fn law_servers_add_their_tasks(
    delegate: &mut TasksModalDelegate,
    longer: &mut TasksModalDelegate,
    lsp_tasks: Vec<LspTasks>,
    more: Vec<LspTasks>,
    last: LspTasks,
    sorted: Vec<LspTask>,
    used: Vec<TaskCandidate>,
    current: Vec<TaskCandidate>,
    r: (),
)
    requires
        used@.len() == 0,
        current@.len() == 0,
        more@ == lsp_tasks@.push(last),
        call_ensures(sort_lsp_tasks, (&last.tasks,), sorted),
        call_ensures(
            TasksModalDelegate::set_candidates,
            (delegate, used, &lsp_tasks, &current, false),
            r,
        ),
        call_ensures(
            TasksModalDelegate::set_candidates,
            (longer, used, &more, &current, false),
            r,
        ),
    ensures
        final(longer).candidates->0@.len() == final(delegate).candidates->0@.len() + sorted@.len(),
        final(delegate).candidates->0@.is_prefix_of(final(longer).candidates->0@),
        forall|i: int|
            0 <= i < sorted@.len() ==> (#[trigger] final(longer).candidates->0@[i
                + final(delegate).candidates->0@.len()]) == (TaskCandidate {
                kind: last.kind,
                task: sorted@[i].task,
            }),
{
    assert(more@.drop_last() =~= lsp_tasks@);
    assert(more@.last() == last);
    lemma_wanted(current@);
    let before = final(delegate).candidates->0@;
    let after = final(longer).candidates->0@;
    assert(before =~= lsp_candidates(lsp_tasks@));
    assert(after =~= lsp_candidates(lsp_tasks@) + as_candidates(last.kind, sorted@));
    assert(after.subrange(0, before.len() as int) =~= before);
}

/// The tags of a task are shown with a hash before each and a space between any two of them,
/// in no more than thirty characters and an ellipsis.
pub proof fn law_tags_are_shown(
    tags: Vec<String>,
    hashed: Vec<String>,
    line: String,
    r: String,
    text: &str,
    max_chars: usize,
    cut: String,
)
    requires
        hashed@.len() == tags@.len(),
        forall|i: int| 0 <= i < tags@.len() ==> (#[trigger] hashed@[i])@ == seq!['#'] + tags@[i]@,
        call_ensures(join, (&hashed, " "), line),
        call_ensures(tags_line, (&tags,), r),
        call_ensures(truncate_and_trailoff, (text, max_chars), cut),
    ensures
        line@.len() <= 30 ==> r@ == line@,
        line@.len() > 30 ==> r@ == line@.take(30) + seq!['…'],
        text@.len() <= max_chars ==> cut@ == text@,
        text@.len() > max_chars ==> cut@ == text@.take(max_chars as int) + seq!['…'],
{
    reveal_strlit("#");
    assert("#"@ =~= seq!['#']);
    assert(texts(hashed@) =~= marked(texts(tags@), "#"@));
    if line@.len() > 30 {
        assert(line@.take(30).push('…') =~= line@.take(30) + seq!['…']);
    }
    if text@.len() > max_chars {
        assert(cut@ =~= text@.take(max_chars as int) + seq!['…']);
    }
}

/// What the tooltip of a task tells: its whole label where it is shown otherwise, its command
/// in a line of its own where it is not the label, and then its tags, each in its own line.
pub proof fn law_what_a_tooltip_tells(task: ResolvedTask, r: Option<String>)
    requires
        call_ensures(tooltip, (&task,), r),
        task.original_task.tags@.len() == 0,
    ensures
        task.resolved.label@ == task.original_task.label@ && task.resolved.command_label@
            == task.resolved_label@ ==> r is None,
        task.resolved.label@ == task.original_task.label@ && task.resolved.command_label@
            != task.resolved_label@ && !is_blank(task.resolved.command_label@) ==> r is Some
            && r->0@ == task.resolved.command_label@,
        task.resolved.label@ != task.original_task.label@ && task.resolved.command_label@
            == task.resolved_label@ && !is_blank(task.resolved_label@) ==> r is Some && r->0@
            == task.resolved_label@,
        task.resolved.label@ != task.original_task.label@ && task.resolved.command_label@
            != task.resolved_label@ && !is_blank(task.resolved_label@) ==> r is Some && r->0@
            == task.resolved_label@ + seq!['\n'] + task.resolved.command_label@,
{
    let whole = task.resolved_label@;
    let command = task.resolved.command_label@;
    assert(Seq::<char>::empty() + command =~= command);
    assert(is_blank(Seq::<char>::empty()));
    assert(whole.push('\n') + command =~= whole + seq!['\n'] + command);
    if !is_blank(whole) {
        let i: int = choose|i: int| 0 <= i < whole.len() && !whitespace(#[trigger] whole[i]);
        let both = whole + seq!['\n'] + command;
        assert(both[i] == whole[i]);
        assert(!is_blank(both));
    }
}

/// A prompt that is not blank makes a task that runs it, shown where the override says or else
/// in the dock. It is picked by its place in the list.
pub proof fn law_prompts_become_tasks(
    delegate: TasksModalDelegate,
    r: Option<TaskTemplate>,
    alt: bool,
    secondary: bool,
    button: FooterButton,
    picked: Option<(TaskCandidate, Option<RevealTarget>)>,
    completed: Option<String>,
)
    requires
        call_ensures(TasksModalDelegate::oneshot_template, (&delegate,), r),
        call_ensures(TasksModalDelegate::footer_button, (&delegate, alt, secondary), button),
        call_ensures(TasksModalDelegate::confirm, (&delegate,), picked),
        call_ensures(TasksModalDelegate::confirm_completion, (&delegate,), completed),
    ensures
        r is None <==> is_blank(delegate.prompt@),
        r matches Some(template) ==> {
            let target = if delegate.task_overrides is Some {
                delegate.task_overrides->0.reveal_target
            } else {
                None
            };
            &&& template.label@ == delegate.prompt@ && template.command@ == delegate.prompt@
            &&& template.args@.len() == 0 && template.tags@.len() == 0 && template.cwd is None
            &&& target is Some ==> template.reveal_target == target->0
            &&& target is None ==> template.reveal_target == RevealTarget::Dock
            &&& template.reveal == RevealStrategy::Always && template.hide == HideStrategy::Never
            &&& !template.use_new_terminal && !template.allow_concurrent_runs
        },
        ({
            let oneshot = delegate.prompt@.len() > 0 && (alt || delegate.hits@.len() == 0);
            let again = delegate.divider_index is Some && delegate.selected_index
                <= delegate.divider_index->0;
            &&& oneshot ==> (secondary ==> button is SpawnOneshotWithoutHistory) && (!secondary
                ==> button is SpawnOneshot)
            &&& !oneshot && again ==> (secondary ==> button is RerunWithoutHistory) && (!secondary
                ==> button is Rerun)
            &&& !oneshot && !again ==> (secondary ==> button is SpawnWithoutHistory) && (
            !secondary ==> button is Spawn)
        }),
        delegate.candidates is None || delegate.selected_index >= delegate.hits@.len() ==> picked
            is None && completed is None,
        delegate.candidates is Some && delegate.selected_index < delegate.hits@.len() && (
        delegate.hits@[delegate.selected_index as int].candidate_id
            < delegate.candidates->0@.len()) ==> {
            let chosen = delegate.candidates->0@[delegate.hits@[delegate.selected_index as int].candidate_id as int];
            &&& picked matches Some((candidate, _)) && candidate == chosen
            &&& completed is Some && completed->0@ == chosen.task.resolved.command_label@
        },
{
    if let Some(template) = r {
        assert(texts(template.args@).len() == template.args@.len());
        assert(texts(template.tags@).len() == template.tags@.len());
    }
}

/// Where a task comes from shows in its row: by an icon, by whether a server offers it, and by
/// whether it can be deleted, which those can that were typed or used.
pub proof fn law_rows_show_where_tasks_come_from(
    delegate: TasksModalDelegate,
    ix: usize,
    r: Option<TaskRow>,
)
    requires
        delegate.candidates is Some,
        ix < delegate.hits@.len(),
        delegate.hits@[ix as int].candidate_id < delegate.candidates->0@.len(),
        call_ensures(TasksModalDelegate::match_row, (&delegate, ix), r),
    ensures
        r is Some,
        r matches Some(row) ==> {
            let hit = delegate.hits@[ix as int];
            let kind = *delegate.candidates->0@[hit.candidate_id as int].kind;
            let recent = delegate.divider_index is Some && ix <= delegate.divider_index->0;
            &&& row.icon is Terminal <==> kind is UserInput
            &&& row.icon is Settings <==> kind is AbsPath
            &&& row.icon is FileTree <==> kind is Worktree
            &&& row.has_indicator <==> kind is Lsp
            &&& row.label@ == hit.text@ && row.highlights@ == hit.positions@ && row.char_count
                == hit.text@.len()
            &&& row.used == recent
            &&& row.delete is Some <==> kind is UserInput || recent
            &&& row.delete matches Some(id) ==> id == hit.candidate_id
        },
{
}

} // verus!
