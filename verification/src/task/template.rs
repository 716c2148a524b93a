//! Templates of tasks, and the tasks they stand for in a context.

use vstd::prelude::*;
use sha2::{Digest, Sha256};
use crate::collections::VecSet;
use crate::text::{
    blank, byte_len, copy_text, copy_texts, is_blank, join, joined, lines, lines_of, text_len, texts,
};
use crate::text_map::{
    lemma_keys_differ, lemma_with_entries_unites, pair_map, with_entries, TextMap,
};
use super::expansion::{
    all_expanded, all_readable, are_readable, entries_readable, expanded, expanded_entries,
    has_variable_left, holds_variable, ids_in, ids_in_all, ids_in_entries, is_map_readable,
    is_readable, named_values, optional_text, readable, shortened_values,
    substitute_all_template_variables_in_map, substitute_all_template_variables_in_str,
    substitute_all_template_variables_in_vec, truncate_variables, values_of, variable_values,
    TaskContext, TaskVariable, UnreadableTemplate,
};

verus! {

/// A label with more bytes than this is shown with short values.
pub const TRUNCATION_THRESHOLD: usize = 64;

/// What to do with the terminal pane and tab, after the command was started.
#[derive(Copy, Clone, Debug, PartialEq, Eq, Structural)]
pub enum RevealStrategy {
    /// Always show the task's pane, and focus the corresponding tab in it.
    Always,
    /// Always show the task's pane, add the task's tab in it, but don't focus it.
    NoFocus,
    /// Do not alter focus, but still add or reuse the task's tab in its pane.
    Never,
}

impl Default for RevealStrategy {
    fn default() -> (r: RevealStrategy)
        ensures
            r == RevealStrategy::Always,
    {
        RevealStrategy::Always
    }
}

/// What to do with the terminal pane and tab, after the command has finished.
#[derive(Copy, Clone, Debug, PartialEq, Eq, Structural)]
pub enum HideStrategy {
    /// Do nothing when the command finishes.
    Never,
    /// Always hide the terminal tab, and the pane too if it was the last tab in it.
    Always,
    /// Hide the terminal tab on task success only, otherwise behave as `Always`.
    OnSuccess,
}

impl Default for HideStrategy {
    fn default() -> (r: HideStrategy)
        ensures
            r == HideStrategy::Never,
    {
        HideStrategy::Never
    }
}

/// Where the terminal of a task is put.
#[derive(Copy, Clone, Debug, PartialEq, Eq, Structural)]
pub enum RevealTarget {
    Dock,
    Center,
}

impl Default for RevealTarget {
    fn default() -> (r: RevealTarget)
        ensures
            r == RevealTarget::Dock,
    {
        RevealTarget::Dock
    }
}

/// The shell that runs a task.
#[derive(Debug)]
pub enum Shell {
    System,
    Program(String),
    WithArguments { program: String, args: Vec<String> },
}

/// What a shell is.
pub enum ShellModel {
    System,
    Program(Seq<char>),
    WithArguments { program: Seq<char>, args: Seq<Seq<char>> },
}

impl View for Shell {
    type V = ShellModel;

    open spec fn view(&self) -> ShellModel {
        match *self {
            Shell::System => ShellModel::System,
            Shell::Program(program) => ShellModel::Program(program@),
            Shell::WithArguments { program, args } => ShellModel::WithArguments {
                program: program@,
                args: texts(args@),
            },
        }
    }
}

impl Shell {
    pub fn copy(&self) -> (r: Shell)
        ensures
            r@ == self@,
    {
        match self {
            Shell::System => Shell::System,
            Shell::Program(program) => Shell::Program(copy_text(program.as_str())),
            Shell::WithArguments { program, args } => Shell::WithArguments {
                program: copy_text(program.as_str()),
                args: copy_texts(args),
            },
        }
    }
}

/// A template of a task. Task variables may stand in its texts.
#[derive(Debug)]
pub struct TaskTemplate {
    /// Name of the task to display.
    pub label: String,
    /// Executable command to spawn.
    pub command: String,
    /// Arguments to the command.
    pub args: Vec<String>,
    /// Values for the environment of the command.
    pub env: TextMap,
    /// Directory to spawn the command in.
    pub cwd: Option<String>,
    pub use_new_terminal: bool,
    pub allow_concurrent_runs: bool,
    pub reveal: RevealStrategy,
    pub reveal_target: RevealTarget,
    pub hide: HideStrategy,
    /// The tags by which the task can be run.
    pub tags: Vec<String>,
    pub shell: Shell,
    /// Whether to show the task line in the output.
    pub show_summary: bool,
    /// Whether to show the command line in the output.
    pub show_command: bool,
}

/// A group of templates.
#[derive(Debug)]
pub struct TaskTemplates(pub Vec<TaskTemplate>);

/// What a template is.
pub struct TemplateModel {
    pub label: Seq<char>,
    pub command: Seq<char>,
    pub args: Seq<Seq<char>>,
    pub env: Seq<(Seq<char>, Seq<char>)>,
    pub cwd: Option<Seq<char>>,
    pub use_new_terminal: bool,
    pub allow_concurrent_runs: bool,
    pub reveal: RevealStrategy,
    pub reveal_target: RevealTarget,
    pub hide: HideStrategy,
    pub tags: Seq<Seq<char>>,
    pub shell: ShellModel,
    pub show_summary: bool,
    pub show_command: bool,
}

impl View for TaskTemplate {
    type V = TemplateModel;

    open spec fn view(&self) -> TemplateModel {
        TemplateModel {
            label: self.label@,
            command: self.command@,
            args: texts(self.args@),
            env: self.env.pairs(),
            cwd: optional_text(self.cwd),
            use_new_terminal: self.use_new_terminal,
            allow_concurrent_runs: self.allow_concurrent_runs,
            reveal: self.reveal,
            reveal_target: self.reveal_target,
            hide: self.hide,
            tags: texts(self.tags@),
            shell: self.shell@,
            show_summary: self.show_summary,
            show_command: self.show_command,
        }
    }
}

/// A command that is ready to be spawned.
#[derive(Debug)]
pub struct SpawnInTerminal {
    pub id: String,
    pub full_label: String,
    pub label: String,
    pub command: String,
    pub args: Vec<String>,
    /// The command and its arguments, with the variables replaced.
    pub command_label: String,
    pub cwd: Option<String>,
    pub env: TextMap,
    pub use_new_terminal: bool,
    pub allow_concurrent_runs: bool,
    pub reveal: RevealStrategy,
    pub reveal_target: RevealTarget,
    pub hide: HideStrategy,
    pub shell: Shell,
    pub show_summary: bool,
    pub show_command: bool,
    pub show_rerun: bool,
}

/// What a command is.
pub struct SpawnModel {
    pub id: Seq<char>,
    pub full_label: Seq<char>,
    pub label: Seq<char>,
    pub command: Seq<char>,
    pub args: Seq<Seq<char>>,
    pub command_label: Seq<char>,
    pub cwd: Option<Seq<char>>,
    pub env: Seq<(Seq<char>, Seq<char>)>,
    pub use_new_terminal: bool,
    pub allow_concurrent_runs: bool,
    pub reveal: RevealStrategy,
    pub reveal_target: RevealTarget,
    pub hide: HideStrategy,
    pub shell: ShellModel,
    pub show_summary: bool,
    pub show_command: bool,
    pub show_rerun: bool,
}

impl View for SpawnInTerminal {
    type V = SpawnModel;

    open spec fn view(&self) -> SpawnModel {
        SpawnModel {
            id: self.id@,
            full_label: self.full_label@,
            label: self.label@,
            command: self.command@,
            args: texts(self.args@),
            command_label: self.command_label@,
            cwd: optional_text(self.cwd),
            env: self.env.pairs(),
            use_new_terminal: self.use_new_terminal,
            allow_concurrent_runs: self.allow_concurrent_runs,
            reveal: self.reveal,
            reveal_target: self.reveal_target,
            hide: self.hide,
            shell: self.shell@,
            show_summary: self.show_summary,
            show_command: self.show_command,
            show_rerun: self.show_rerun,
        }
    }
}

/// A task that a template stands for in a context.
#[derive(Debug)]
pub struct ResolvedTask {
    /// The same for every task of one source, template and set of variables.
    pub id: String,
    pub original_task: TaskTemplate,
    pub resolved_label: String,
    /// The variables that the template asked for.
    pub substituted_variables: VecSet<u64>,
    pub resolved: SpawnInTerminal,
}

/// The texts of a template after their variables were replaced.
#[derive(Debug)]
pub struct Substituted {
    pub cwd: Option<String>,
    pub full_label: String,
    /// The label to be shown, with all its lines.
    pub label: String,
    pub command: String,
    pub args: Vec<String>,
    pub env: TextMap,
}

/// What the texts are.
pub struct SubstitutedModel {
    pub cwd: Option<Seq<char>>,
    pub full_label: Seq<char>,
    pub label: Seq<char>,
    pub command: Seq<char>,
    pub args: Seq<Seq<char>>,
    pub env: Seq<(Seq<char>, Seq<char>)>,
}

impl View for Substituted {
    type V = SubstitutedModel;

    open spec fn view(&self) -> SubstitutedModel {
        SubstitutedModel {
            cwd: optional_text(self.cwd),
            full_label: self.full_label@,
            label: self.label@,
            command: self.command@,
            args: texts(self.args@),
            env: self.env.pairs(),
        }
    }
}

/// Some lines in one, with the letters `\n` between them. Empty lines at the start
/// are left out.
pub open spec fn one_line(all: Seq<Seq<char>>) -> Seq<char>
    decreases all.len(),
{
    if all.len() == 0 {
        Seq::empty()
    } else {
        let before = one_line(all.drop_last());
        if before.len() == 0 {
            all.last()
        } else {
            before + seq!['\\', 'n'] + all.last()
        }
    }
}

/// A text in one line.
pub fn in_one_line(text: &str) -> (r: String)
    ensures
        r@ == one_line(lines(text@)),
{
    let all = lines_of(text);
    let mut r = String::new();
    let mut i: usize = 0;
    let ghost model = texts(all@);
    assert(model.take(0) =~= Seq::empty());
    assert(r@ =~= one_line(model.take(0)));
    while i < all.len()
        invariant
            i <= all@.len(),
            model == texts(all@),
            r@ == one_line(model.take(i as int)),
        decreases all.len() - i,
    {
        let ghost next = model.take(i + 1);
        let ghost before = r@;
        proof {
            assert(next.drop_last() =~= model.take(i as int));
            assert(next.last() == all@[i as int]@);
        }
        if text_len(r.as_str()) == 0 {
            proof {
                crate::text::lemma_byte_len_bounds(r@);
            }
            r.push_str(all[i].as_str());
            assert(r@ =~= one_line(next));
        } else {
            proof {
                if before.len() == 0 {
                    assert(before =~= Seq::<char>::empty());
                    crate::text::lemma_byte_len_bounds(before);
                }
            }
            r.push('\\');
            r.push('n');
            r.push_str(all[i].as_str());
            assert(r@ =~= before + seq!['\\', 'n'] + next.last());
        }
        i = i + 1;
    }
    assert(model.take(i as int) =~= model);
    r
}

/// A command and its arguments, with a space before each of them.
pub open spec fn command_line(command: Seq<char>, args: Seq<Seq<char>>) -> Seq<char>
    decreases args.len(),
{
    if args.len() == 0 {
        command
    } else {
        command_line(command, args.drop_last()) + seq![' '] + args.last()
    }
}

fn push_args(command: &str, args: &Vec<String>) -> (r: String)
    ensures
        r@ == command_line(command@, texts(args@)),
{
    let mut r = copy_text(command);
    let mut i: usize = 0;
    let ghost model = texts(args@);
    assert(model.take(0) =~= Seq::empty());
    while i < args.len()
        invariant
            i <= args@.len(),
            model == texts(args@),
            r@ == command_line(command@, model.take(i as int)),
        decreases args.len() - i,
    {
        let ghost next = model.take(i + 1);
        let ghost before = r@;
        proof {
            assert(next.drop_last() =~= model.take(i as int));
            assert(next.last() == args@[i as int]@);
        }
        r.push(' ');
        r.push_str(args[i].as_str());
        assert(r@ =~= before + seq![' '] + next.last());
        i = i + 1;
    }
    assert(model.take(i as int) =~= model);
    r
}

/// What `sha2::Sha256` makes of the bytes of a text.
pub uninterp spec fn sha256_digest(text: Seq<char>) -> Seq<u8>;

/// `sha2::Sha256` computes the digest of the bytes of a text. It counts the bits of
/// its input in 64 bits.
#[verifier::external_body]
fn sha256(text: &str) -> (r: Vec<u8>)
    requires
        byte_len(text@) < 0x2000_0000_0000_0000,
    ensures
        r@ == sha256_digest(text@),
        r@.len() == 32,
{
    let mut hasher = Sha256::new();
    hasher.update(text.as_bytes());
    hasher.finalize().to_vec()
}

/// A digit of a hexadecimal number.
pub open spec fn hex_digit(d: int) -> char {
    if d < 10 {
        ('0' as int + d) as char
    } else {
        ('a' as int + (d - 10)) as char
    }
}

/// Two hexadecimal digits for each byte.
pub open spec fn hex_text(bytes: Seq<u8>) -> Seq<char> {
    Seq::new(
        2 * bytes.len(),
        |i: int|
            if i % 2 == 0 {
                hex_digit(bytes[i / 2] as int / 16)
            } else {
                hex_digit(bytes[i / 2] as int % 16)
            },
    )
}

/// `hex::encode` writes each byte as two lower case hexadecimal digits, the high one
/// first.
#[verifier::external_body]
fn hex_encode(bytes: &Vec<u8>) -> (r: String)
    ensures
        r@ == hex_text(bytes@),
{
    hex::encode(bytes)
}

/// The hash of something that was written as JSON.
pub fn to_hex_hash(json: &str) -> (r: String)
    requires
        byte_len(json@) < 0x2000_0000_0000_0000,
    ensures
        r@ == hex_text(sha256_digest(json@)),
        r@.len() == 64,
{
    let digest = sha256(json);
    hex_encode(&digest)
}

/// The id of a task: where it comes from, its template and its variables.
pub open spec fn task_id(id_base: Seq<char>, task_hash: Seq<char>, variables_hash: Seq<char>) -> Seq<
    char,
> {
    id_base + seq!['_'] + task_hash + seq!['_'] + variables_hash
}

/// The id of a task.
pub fn make_task_id(id_base: &str, task_hash: &str, variables_hash: &str) -> (r: String)
    ensures
        r@ == task_id(id_base@, task_hash@, variables_hash@),
{
    let mut id = copy_text(id_base);
    id.push('_');
    id.push_str(task_hash);
    id.push('_');
    id.push_str(variables_hash);
    assert(id@ =~= task_id(id_base@, task_hash@, variables_hash@));
    id
}

/// The command of a task, from the texts of its template.
pub open spec fn spawn_model(
    template: TemplateModel,
    context: TaskContext,
    id: Seq<char>,
    substituted: SubstitutedModel,
) -> SpawnModel {
    SpawnModel {
        id,
        full_label: substituted.full_label,
        label: one_line(lines(substituted.label)),
        command: substituted.command,
        args: template.args,
        command_label: command_line(substituted.command, substituted.args),
        cwd: if substituted.cwd is Some {
            substituted.cwd
        } else {
            optional_text(context.cwd)
        },
        env: with_entries(substituted.env, variable_values(context.task_variables@)),
        use_new_terminal: template.use_new_terminal,
        allow_concurrent_runs: template.allow_concurrent_runs,
        reveal: template.reveal,
        reveal_target: template.reveal_target,
        hide: template.hide,
        shell: template.shell,
        show_summary: template.show_summary,
        show_command: template.show_command,
        show_rerun: true,
    }
}

/// The environment in which the variables of a template are replaced: that of the
/// project, and over it that of the template.
pub open spec fn base_env(template: TemplateModel, context: TaskContext) -> Seq<
    (Seq<char>, Seq<char>),
> {
    with_entries(context.project_env.pairs(), template.env)
}

/// The values of the task variables.
pub open spec fn values_in(context: TaskContext) -> Map<Seq<char>, Seq<char>> {
    pair_map(variable_values(context.task_variables@))
}

/// The values of the task variables where room is short.
pub open spec fn short_values_in(context: TaskContext) -> Map<Seq<char>, Seq<char>> {
    pair_map(shortened_values(variable_values(context.task_variables@)))
}

/// Whether a label is to be shown with short values.
pub open spec fn label_is_long(label: Seq<char>) -> bool {
    byte_len(label) > TRUNCATION_THRESHOLD
}

/// Whether the texts of a template, and the environment in which its variables are
/// replaced, can be read.
pub open spec fn template_readable(template: TemplateModel, context: TaskContext) -> bool {
    &&& template.cwd is Some ==> readable(template.cwd->0)
    &&& readable(template.label)
    &&& readable(template.command)
    &&& all_readable(template.args)
    &&& entries_readable(template.env)
    &&& entries_readable(base_env(template, context))
}

/// Whether one of the texts of some entries has a task variable left in it.
pub open spec fn variable_left_in(
    entries: Seq<(Seq<char>, Seq<char>)>,
    values: Map<Seq<char>, Seq<char>>,
) -> bool {
    exists|i: int|
        0 <= i < entries.len() && {
            ||| expanded((#[trigger] entries[i]).0, values) matches Some(key)
                && holds_variable(key)
            ||| expanded(entries[i].1, values) matches Some(value) && holds_variable(value)
        }
}

/// Whether one of the texts of a template has a task variable left in it. What the
/// project has in its environment does not count.
pub open spec fn variable_left(
    template: TemplateModel,
    context: TaskContext,
    substituted: SubstitutedModel,
) -> bool {
    ||| substituted.cwd matches Some(cwd) && holds_variable(cwd)
    ||| holds_variable(substituted.full_label)
    ||| holds_variable(substituted.label)
    ||| holds_variable(substituted.command)
    ||| exists|i: int|
        0 <= i < substituted.args.len() && holds_variable(#[trigger] substituted.args[i])
    ||| variable_left_in(template.env, values_in(context))
}

/// The texts of a template in a context, if all of them can be had and none has a task
/// variable left in it.
pub open spec fn substitution(template: TemplateModel, context: TaskContext) -> Option<
    SubstitutedModel,
> {
    match replaced(template, context) {
        Some(substituted) => if variable_left(template, context, substituted) {
            None
        } else {
            Some(substituted)
        },
        None => None,
    }
}

/// The texts of a template in a context, if all of them can be had.
pub open spec fn replaced(template: TemplateModel, context: TaskContext) -> Option<
    SubstitutedModel,
> {
    let values = values_in(context);
    let cwd_fails = template.cwd is Some && expanded(template.cwd->0, values) is None;
    match (
        expanded(template.label, values),
        expanded(template.command, values),
        all_expanded(template.args, values),
        expanded_entries(base_env(template, context), values),
    ) {
        (Some(full_label), Some(command), Some(args), Some(env)) => {
            let label: Option<Seq<char>> = if label_is_long(full_label) {
                expanded(template.label, short_values_in(context))
            } else {
                Some(full_label)
            };
            if cwd_fails || label is None {
                None
            } else {
                Some(
                    SubstitutedModel {
                        cwd: if template.cwd is Some {
                            expanded(template.cwd->0, values)
                        } else {
                            None
                        },
                        full_label,
                        label: label->0,
                        command,
                        args,
                        env,
                    },
                )
            }
        },
        _ => None,
    }
}

/// The variables that the texts of a template ask for.
pub open spec fn template_ids(template: TemplateModel, context: TaskContext) -> Set<u64> {
    let variables = context.task_variables@;
    let values = values_in(context);
    let in_cwd: Set<u64> = if template.cwd is Some {
        ids_in(variables, template.cwd->0, values)
    } else {
        Set::empty()
    };
    let in_short_label: Set<u64> = if label_is_long(expanded(template.label, values)->0) {
        ids_in(variables, template.label, short_values_in(context))
    } else {
        Set::empty()
    };
    in_cwd.union(ids_in(variables, template.label, values)).union(in_short_label).union(
        ids_in(variables, template.command, values),
    ).union(ids_in_all(variables, template.args, values)).union(
        ids_in_entries(variables, base_env(template, context), values),
    )
}

/// Whether something is the task that a template stands for in a context. There is none
/// where the label or the command is blank, where a text cannot be had, or where the
/// template or the variables could not be written as JSON.
pub open spec fn is_resolved(
    template: TemplateModel,
    context: TaskContext,
    id_base: Seq<char>,
    task_json: Option<&str>,
    variables_json: Option<&str>,
    r: Option<ResolvedTask>,
) -> bool {
    &&& r is Some <==> !is_blank(template.label) && !is_blank(template.command) && substitution(
        template,
        context,
    ) is Some && task_json is Some && variables_json is Some
    &&& r matches Some(task) ==> {
        let id = task_id(
            id_base,
            hex_text(sha256_digest(task_json->0@)),
            hex_text(sha256_digest(variables_json->0@)),
        );
        let substituted = substitution(template, context)->0;
        &&& task.id@ == id
        &&& task.original_task@ == template
        &&& task.resolved_label@ == substituted.full_label
        &&& task.substituted_variables@ == template_ids(template, context)
        &&& task.resolved@ == spawn_model(template, context, id, substituted)
        &&& task.resolved.env.wf()
    }
}

impl Substituted {
    /// Whether one of the texts has a task variable left in it, but for the environment.
    fn has_variable_left(&self) -> (r: bool)
        ensures
            r <==> {
                ||| self@.cwd matches Some(cwd) && holds_variable(cwd)
                ||| holds_variable(self@.full_label)
                ||| holds_variable(self@.label)
                ||| holds_variable(self@.command)
                ||| exists|i: int|
                    0 <= i < self@.args.len() && holds_variable(#[trigger] self@.args[i])
            },
    {
        if let Some(cwd) = &self.cwd {
            if has_variable_left(cwd.as_str()) {
                return true;
            }
        }
        let mut i: usize = 0;
        while i < self.args.len()
            invariant
                i <= self.args@.len(),
                forall|j: int| 0 <= j < i ==> !holds_variable(#[trigger] self@.args[j]),
            decreases self.args.len() - i,
        {
            assert(self@.args[i as int] == self.args@[i as int]@);
            if has_variable_left(self.args[i].as_str()) {
                return true;
            }
            i = i + 1;
        }
        has_variable_left(self.full_label.as_str()) || has_variable_left(self.label.as_str())
            || has_variable_left(self.command.as_str())
    }
}

/// Whether one of the texts of a map has a task variable left in it.
fn variable_left_in_map(
    map: &TextMap,
    variables: &Vec<TaskVariable>,
    values: &TextMap,
) -> (r: bool)
    requires
        entries_readable(map.pairs()),
    ensures
        r == variable_left_in(map.pairs(), values@),
{
    let ghost all = map.pairs();
    let mut asked: VecSet<u64> = VecSet::new();
    let mut i: usize = 0;
    while i < map.len()
        invariant
            i <= all.len(),
            all == map.pairs(),
            entries_readable(all),
            !variable_left_in(all.take(i as int), values@),
        decreases all.len() - i,
    {
        let (key, value) = map.entry(i);
        assert(all[i as int] == (key@, value@));
        let new_key = substitute_all_template_variables_in_str(
            key.as_str(),
            variables,
            values,
            &mut asked,
        );
        let new_value = substitute_all_template_variables_in_str(
            value.as_str(),
            variables,
            values,
            &mut asked,
        );
        let in_key: bool = match &new_key {
            Some(text) => has_variable_left(text.as_str()),
            None => false,
        };
        let in_value: bool = match &new_value {
            Some(text) => has_variable_left(text.as_str()),
            None => false,
        };
        if in_key || in_value {
            return true;
        }
        proof {
            let next = all.take(i + 1);
            assert forall|j: int| 0 <= j < next.len() implies {
                &&& !(expanded((#[trigger] next[j]).0, values@) matches Some(key)
                    && holds_variable(key))
                &&& !(expanded(next[j].1, values@) matches Some(value) && holds_variable(value))
            } by {
                if j < i {
                    assert(all.take(i as int)[j] == next[j]);
                }
            }
        }
        i = i + 1;
    }
    assert(all.take(i as int) =~= all);
    false
}

impl TaskTemplate {
    pub fn copy(&self) -> (r: TaskTemplate)
        ensures
            r@ == self@,
    {
        TaskTemplate {
            label: copy_text(self.label.as_str()),
            command: copy_text(self.command.as_str()),
            args: copy_texts(&self.args),
            env: self.env.copy(),
            cwd: copy_optional_text(&self.cwd),
            use_new_terminal: self.use_new_terminal,
            allow_concurrent_runs: self.allow_concurrent_runs,
            reveal: self.reveal,
            reveal_target: self.reveal_target,
            hide: self.hide,
            tags: copy_texts(&self.tags),
            shell: self.shell.copy(),
            show_summary: self.show_summary,
            show_command: self.show_command,
        }
    }

    /// Whether the texts of the template can be read in a context.
    pub fn is_readable(&self, cx: &TaskContext) -> (r: bool)
        requires
            cx.project_env.wf(),
        ensures
            r == template_readable(self@, *cx),
    {
        let mut env = cx.project_env.copy();
        env.extend(&self.env);
        if let Some(cwd) = &self.cwd {
            if !is_readable(cwd.as_str()) {
                return false;
            }
        }
        is_readable(self.label.as_str()) && is_readable(self.command.as_str()) && are_readable(
            &self.args,
        ) && is_map_readable(&self.env) && is_map_readable(&env)
    }

    /// Replaces the task variables in the texts of the template. `None` where one of
    /// them asks for a task variable that is not there and has no default for it, or has
    /// a task variable left in it.
    pub fn substitute(&self, cx: &TaskContext, substituted_variables: &mut VecSet<u64>) -> (r:
        Option<Substituted>)
        requires
            cx.project_env.wf(),
            template_readable(self@, *cx),
        ensures
            match r {
                Some(substituted) => substituted.env.wf() && Some(substituted@) == substitution(
                    self@,
                    *cx,
                ) && final(substituted_variables)@ == old(substituted_variables)@.union(
                    template_ids(self@, *cx),
                ),
                None => substitution(self@, *cx) is None,
            },
    {
        let variables = &cx.task_variables;
        let values = values_of(variables);
        let short_values = truncate_variables(&values);
        let ghost start = substituted_variables@;
        let cwd: Option<String> = match &self.cwd {
            Some(cwd) => match substitute_all_template_variables_in_str(
                cwd.as_str(),
                variables,
                &values,
                substituted_variables,
            ) {
                Some(cwd) => Some(cwd),
                None => {
                    return None;
                },
            },
            None => None,
        };
        let full_label = match substitute_all_template_variables_in_str(
            self.label.as_str(),
            variables,
            &values,
            substituted_variables,
        ) {
            Some(label) => label,
            None => {
                return None;
            },
        };
        let label = if text_len(full_label.as_str()) > TRUNCATION_THRESHOLD {
            match substitute_all_template_variables_in_str(
                self.label.as_str(),
                variables,
                &short_values,
                substituted_variables,
            ) {
                Some(label) => label,
                None => {
                    return None;
                },
            }
        } else {
            copy_text(full_label.as_str())
        };
        let command = match substitute_all_template_variables_in_str(
            self.command.as_str(),
            variables,
            &values,
            substituted_variables,
        ) {
            Some(command) => command,
            None => {
                return None;
            },
        };
        let args = match substitute_all_template_variables_in_vec(
            &self.args,
            variables,
            &values,
            substituted_variables,
        ) {
            Some(args) => args,
            None => {
                return None;
            },
        };
        let mut env = cx.project_env.copy();
        env.extend(&self.env);
        assert(env.pairs() == base_env(self@, *cx));
        let env = match substitute_all_template_variables_in_map(
            &env,
            variables,
            &values,
            substituted_variables,
        ) {
            Some(env) => env,
            None => {
                return None;
            },
        };
        assert(substituted_variables@ =~= start.union(template_ids(self@, *cx)));
        let substituted = Substituted { cwd, full_label, label, command, args, env };
        assert(replaced(self@, *cx) == Some(substituted@));
        if substituted.has_variable_left() || variable_left_in_map(&self.env, variables, &values) {
            return None;
        }
        Some(substituted)
    }

    /// Puts a task together from the texts of the template.
    pub fn assemble(
        &self,
        cx: &TaskContext,
        id: String,
        substituted: Substituted,
        substituted_variables: VecSet<u64>,
    ) -> (r: ResolvedTask)
        requires
            substituted.env.wf(),
        ensures
            r.id@ == id@,
            r.original_task@ == self@,
            r.resolved_label@ == substituted.full_label@,
            r.substituted_variables@ == substituted_variables@,
            r.resolved@ == spawn_model(self@, *cx, id@, substituted@),
            r.resolved.env.wf(),
    {
        let values = values_of(&cx.task_variables);
        let mut env = substituted.env;
        env.extend(&values);
        let label = in_one_line(substituted.label.as_str());
        let command_label = push_args(substituted.command.as_str(), &substituted.args);
        let cwd = match substituted.cwd {
            Some(cwd) => Some(cwd),
            None => copy_optional_text(&cx.cwd),
        };
        ResolvedTask {
            id: copy_text(id.as_str()),
            substituted_variables,
            original_task: self.copy(),
            resolved_label: copy_text(substituted.full_label.as_str()),
            resolved: SpawnInTerminal {
                id,
                cwd,
                full_label: substituted.full_label,
                label,
                command_label,
                command: substituted.command,
                args: copy_texts(&self.args),
                env,
                use_new_terminal: self.use_new_terminal,
                allow_concurrent_runs: self.allow_concurrent_runs,
                reveal: self.reveal,
                reveal_target: self.reveal_target,
                hide: self.hide,
                shell: self.shell.copy(),
                show_summary: self.show_summary,
                show_command: self.show_command,
                show_rerun: true,
            },
        }
    }

    /// The task that the template stands for in a context. `None` where the label or
    /// the command is blank, where a task variable without a default is not there, where
    /// a text has a task variable left in it, or where the template or the variables
    /// could not be written as JSON.
    ///
    /// The id of the task is made of `id_base` and of the hashes of the template and
    /// of the variables.
    pub fn resolve_task(
        &self,
        id_base: &str,
        cx: &TaskContext,
        task_json: Option<&str>,
        variables_json: Option<&str>,
    ) -> (r: Option<ResolvedTask>)
        requires
            cx.project_env.wf(),
            is_blank(self.label@) || is_blank(self.command@) || template_readable(self@, *cx),
            task_json matches Some(json) ==> byte_len(json@) < 0x2000_0000_0000_0000,
            variables_json matches Some(json) ==> byte_len(json@) < 0x2000_0000_0000_0000,
        ensures
            is_resolved(self@, *cx, id_base@, task_json, variables_json, r),
    {
        if blank(self.label.as_str()) || blank(self.command.as_str()) {
            return None;
        }
        let mut substituted_variables: VecSet<u64> = VecSet::new();
        let substituted = match self.substitute(cx, &mut substituted_variables) {
            Some(substituted) => substituted,
            None => {
                return None;
            },
        };
        assert(substituted_variables@ =~= template_ids(self@, *cx));
        match (task_json, variables_json) {
            (Some(task_json), Some(variables_json)) => {
                let task_hash = to_hex_hash(task_json);
                let variables_hash = to_hex_hash(variables_json);
                let id = make_task_id(id_base, task_hash.as_str(), variables_hash.as_str());
                Some(self.assemble(cx, id, substituted, substituted_variables))
            },
            _ => None,
        }
    }

    /// The task that the template stands for in a context, if its texts can be read or
    /// need not be.
    pub fn try_resolve_task(
        &self,
        id_base: &str,
        cx: &TaskContext,
        task_json: Option<&str>,
        variables_json: Option<&str>,
    ) -> (r: Result<Option<ResolvedTask>, UnreadableTemplate>)
        requires
            cx.project_env.wf(),
            task_json matches Some(json) ==> byte_len(json@) < 0x2000_0000_0000_0000,
            variables_json matches Some(json) ==> byte_len(json@) < 0x2000_0000_0000_0000,
        ensures
            r is Ok <==> is_blank(self.label@) || is_blank(self.command@) || template_readable(
                self@,
                *cx,
            ),
            r matches Ok(task) ==> is_resolved(self@, *cx, id_base@, task_json, variables_json, task),
    {
        if blank(self.label.as_str()) || blank(self.command.as_str()) || self.is_readable(cx) {
            Ok(self.resolve_task(id_base, cx, task_json, variables_json))
        } else {
            Err(UnreadableTemplate)
        }
    }
}

/// A copy of a text, if there is one.
pub fn copy_optional_text(text: &Option<String>) -> (r: Option<String>)
    ensures
        optional_text(r) == optional_text(*text),
{
    match text {
        Some(text) => Some(copy_text(text.as_str())),
        None => None,
    }
}

/// The task variables are in the environment of a task with the values that they
/// have, whatever else sets them.
pub proof fn law_task_variables_are_in_the_environment(
    template: TemplateModel,
    context: TaskContext,
    id: Seq<char>,
    substituted: SubstitutedModel,
)
    ensures
        values_in(context).submap_of(
            pair_map(spawn_model(template, context, id, substituted).env),
        ),
{
    let values = variable_values(context.task_variables@);
    lemma_keys_differ(Seq::empty(), named_values(context.task_variables@));
    lemma_with_entries_unites(substituted.env, values);
    assert(values_in(context) == pair_map(values));
}

proof fn lemma_command_line(command: Seq<char>, args: Seq<Seq<char>>)
    ensures
        command_line(command, args) == joined(seq![command] + args, seq![' ']),
    decreases args.len(),
{
    let all = seq![command] + args;
    if args.len() == 0 {
        assert(all =~= seq![command]);
    } else {
        lemma_command_line(command, args.drop_last());
        assert(all.drop_last() =~= seq![command] + args.drop_last());
        assert(all.last() == args.last());
    }
}

proof fn lemma_one_line(all: Seq<Seq<char>>)
    requires
        all.len() > 0,
        all[0].len() > 0,
    ensures
        one_line(all) == joined(all, seq!['\\', 'n']),
        one_line(all).len() > 0,
    decreases all.len(),
{
    if all.len() == 1 {
        assert(one_line(all.drop_last()) =~= Seq::empty());
    } else {
        lemma_one_line(all.drop_last());
    }
}

/// A text in one line is its lines with a visible mark of the line feed between any two of
/// them.
pub proof fn law_lines_become_one(text: &str, parts: Vec<String>, separator: &str, r: String, same: String)
    requires
        call_ensures(lines_of, (text,), parts),
        separator@ == seq!['\\', 'n'],
        call_ensures(join, (&parts, separator), same),
        call_ensures(in_one_line, (text,), r),
    ensures
        parts@.len() == 0 ==> r@.len() == 0,
        parts@.len() > 0 && parts@[0]@.len() > 0 ==> r@ == same@,
{
    let all = lines(text@);
    assert(texts(parts@) == all);
    assert(texts(parts@).len() == parts@.len());
    if parts@.len() > 0 && parts@[0]@.len() > 0 {
        assert(texts(parts@)[0] == parts@[0]@);
        lemma_one_line(all);
    }
}

/// A task that is resolved runs what its template says: its command, expanded, with its own
/// options, in its directory or else in that of the context. It is shown with its arguments
/// expanded, under its label in one line.
pub proof fn law_task_runs_its_template(
    template: TaskTemplate,
    id_base: &str,
    cx: TaskContext,
    task_json: Option<&str>,
    variables_json: Option<&str>,
    r: Option<ResolvedTask>,
)
    requires
        call_ensures(
            TaskTemplate::resolve_task,
            (&template, id_base, &cx, task_json, variables_json),
            r,
        ),
    ensures
        is_blank(template.label@) || is_blank(template.command@) || task_json is None
            || variables_json is None ==> r is None,
        r matches Some(task) ==> {
            let values = pair_map(variable_values(cx.task_variables@));
            let run = task.resolved;
            &&& expanded(template.label@, values) == Some(run.full_label@)
            &&& task.resolved_label@ == run.full_label@
            &&& expanded(template.command@, values) == Some(run.command@)
            &&& texts(run.args@) == texts(template.args@)
            &&& all_expanded(texts(template.args@), values) is Some
            &&& run.command_label@ == joined(
                seq![run.command@] + all_expanded(texts(template.args@), values)->0,
                seq![' '],
            )
            &&& template.cwd is Some ==> optional_text(run.cwd) == expanded(
                template.cwd->0@,
                values,
            )
            &&& template.cwd is None ==> optional_text(run.cwd) == optional_text(cx.cwd)
            &&& run.use_new_terminal == template.use_new_terminal
            &&& run.allow_concurrent_runs == template.allow_concurrent_runs
            &&& run.reveal == template.reveal && run.reveal_target == template.reveal_target
            &&& run.hide == template.hide && run.shell@ == template.shell@
            &&& run.show_summary == template.show_summary && run.show_command
                == template.show_command && run.show_rerun
            &&& run.id@ == task.id@ && task.original_task@ == template@
            &&& task.id@ == id_base@ + seq!['_'] + hex_text(sha256_digest(task_json->0@))
                + seq!['_'] + hex_text(sha256_digest(variables_json->0@))
        },
{
    if let Some(task) = r {
        let substituted = substitution(template@, cx)->0;
        lemma_command_line(substituted.command, substituted.args);
    }
}

/// A label is shown whole while it is short. One of more than 64 bytes is shown with the
/// values of its variables cut.
pub proof fn law_long_labels_are_shown_short(
    template: TaskTemplate,
    cx: TaskContext,
    noted: &mut VecSet<u64>,
    r: Option<Substituted>,
)
    requires
        call_ensures(TaskTemplate::substitute, (&template, &cx, noted), r),
    ensures
        r matches Some(done) ==> {
            let values = variable_values(cx.task_variables@);
            &&& byte_len(done.full_label@) <= 64 ==> done.label@ == done.full_label@
            &&& byte_len(done.full_label@) > 64 ==> expanded(
                template.label@,
                pair_map(shortened_values(values)),
            ) == Some(done.label@)
            &&& !holds_variable(done.full_label@) && !holds_variable(done.label@)
                && !holds_variable(done.command@)
            &&& forall|i: int|
                0 <= i < done.args@.len() ==> !holds_variable((#[trigger] done.args@[i])@)
            &&& done.cwd matches Some(cwd) ==> !holds_variable(cwd@)
        },
{
    if let Some(done) = r {
        assert forall|i: int| 0 <= i < done.args@.len() implies !holds_variable(
            (#[trigger] done.args@[i])@,
        ) by {
            assert(done@.args[i] == done.args@[i]@);
        }
    }
}

} // verus!
