//! The settings of a project.

use vstd::prelude::*;
use crate::path::{join_path, joined_path};
use crate::paths::local_settings_file_relative_path;
use crate::text_map::TextMap;

verus! {

/// Settings for debuggers.
#[derive(Debug)]
pub struct DapSettings {
    pub binary: Option<String>,
}

impl Default for DapSettings {
    fn default() -> (r: DapSettings)
        ensures
            r.binary is None,
    {
        DapSettings { binary: None }
    }
}

/// Settings for Node.
#[derive(Debug)]
pub struct NodeBinarySettings {
    /// Where Node is.
    pub path: Option<String>,
    /// Where npm is, if not beside Node.
    pub npm_path: Option<String>,
    /// Whether a copy of Node is fetched even where there is one.
    pub ignore_system_version: bool,
}

impl Default for NodeBinarySettings {
    fn default() -> (r: NodeBinarySettings)
        ensures
            r.path is None,
            r.npm_path is None,
            !r.ignore_system_version,
    {
        NodeBinarySettings { path: None, npm_path: None, ignore_system_version: false }
    }
}

/// How the configuration of direnv is loaded.
#[derive(Copy, Clone, Debug, PartialEq, Eq, Structural)]
pub enum DirenvSettings {
    /// Through a hook of the shell.
    ShellHook,
    /// By asking direnv.
    Direct,
}

impl Default for DirenvSettings {
    fn default() -> (r: DirenvSettings)
        ensures
            r == DirenvSettings::Direct,
    {
        DirenvSettings::Direct
    }
}

/// Settings for diagnostics.
#[derive(Copy, Clone, Debug, PartialEq, Eq, Structural)]
pub struct DiagnosticsSettings {
    /// Whether to show the project diagnostics button in the status bar.
    pub button: bool,
    /// Whether to include warnings.
    pub include_warnings: bool,
    pub lsp_pull_diagnostics: LspPullDiagnosticsSettings,
    pub inline: InlineDiagnosticsSettings,
    /// Settings for diagnostics of Rust.
    pub cargo: Option<CargoDiagnosticsSettings>,
}

/// Settings for asking language servers for diagnostics.
#[derive(Copy, Clone, Debug, PartialEq, Eq, Structural)]
pub struct LspPullDiagnosticsSettings {
    /// Whether to ask.
    pub enabled: bool,
    /// How long to wait before asking, in milliseconds.
    pub debounce_ms: u64,
}

/// Settings for diagnostics in the text.
#[derive(Copy, Clone, Debug, PartialEq, Eq, Structural)]
pub struct InlineDiagnosticsSettings {
    /// Whether to show them.
    pub enabled: bool,
    /// How long to wait after the last event, in milliseconds.
    pub update_debounce_ms: u64,
    /// How many columns there are between a line and its diagnostic.
    pub padding: u32,
    /// The first column in which a diagnostic is shown.
    pub min_column: u32,
    pub max_severity: Option<DiagnosticSeverity>,
}

/// Settings for diagnostics of Cargo.
#[derive(Copy, Clone, Debug, PartialEq, Eq, Structural)]
pub struct CargoDiagnosticsSettings {
    /// Whether Cargo is asked, in place of the language server.
    pub fetch_cargo_diagnostics: bool,
}

impl Default for CargoDiagnosticsSettings {
    fn default() -> (r: CargoDiagnosticsSettings)
        ensures
            !r.fetch_cargo_diagnostics,
    {
        CargoDiagnosticsSettings { fetch_cargo_diagnostics: false }
    }
}

impl Default for LspPullDiagnosticsSettings {
    fn default() -> (r: LspPullDiagnosticsSettings)
        ensures
            r == (LspPullDiagnosticsSettings { enabled: true, debounce_ms: 50 }),
    {
        LspPullDiagnosticsSettings { enabled: true, debounce_ms: 50 }
    }
}

impl Default for InlineDiagnosticsSettings {
    fn default() -> (r: InlineDiagnosticsSettings)
        ensures
            r == (InlineDiagnosticsSettings {
                enabled: false,
                update_debounce_ms: 150,
                padding: 4,
                min_column: 0,
                max_severity: None,
            }),
    {
        InlineDiagnosticsSettings {
            enabled: false,
            update_debounce_ms: 150,
            padding: 4,
            min_column: 0,
            max_severity: None,
        }
    }
}

impl Default for DiagnosticsSettings {
    fn default() -> (r: DiagnosticsSettings)
        ensures
            r.button,
            r.include_warnings,
            r.lsp_pull_diagnostics == (LspPullDiagnosticsSettings {
                enabled: true,
                debounce_ms: 50,
            }),
            r.inline == (InlineDiagnosticsSettings {
                enabled: false,
                update_debounce_ms: 150,
                padding: 4,
                min_column: 0,
                max_severity: None,
            }),
            r.cargo is None,
    {
        DiagnosticsSettings {
            button: true,
            include_warnings: true,
            lsp_pull_diagnostics: LspPullDiagnosticsSettings::default(),
            inline: InlineDiagnosticsSettings::default(),
            cargo: None,
        }
    }
}

impl DiagnosticsSettings {
    /// Whether Cargo is asked for diagnostics.
    pub fn fetch_cargo_diagnostics(&self) -> (r: bool)
        ensures
            r == (self.cargo is Some && self.cargo->0.fetch_cargo_diagnostics),
    {
        match &self.cargo {
            Some(cargo) => cargo.fetch_cargo_diagnostics,
            None => false,
        }
    }
}

/// How bad something is.
#[derive(Copy, Clone, Debug, PartialEq, Eq, PartialOrd, Ord, Structural)]
pub enum DiagnosticSeverity {
    /// Nothing is shown.
    Off,
    Error,
    Warning,
    Info,
    Hint,
}

/// How bad something is, as language servers tell.
#[derive(Copy, Clone, Debug, PartialEq, Eq, Structural)]
pub enum LspSeverity {
    Error,
    Warning,
    Information,
    Hint,
}

impl DiagnosticSeverity {
    /// How bad something is, as language servers tell. Nothing stands for what is not
    /// shown.
    pub fn into_lsp(self) -> (r: Option<LspSeverity>)
        ensures
            r == (match self {
                DiagnosticSeverity::Off => None,
                DiagnosticSeverity::Error => Some(LspSeverity::Error),
                DiagnosticSeverity::Warning => Some(LspSeverity::Warning),
                DiagnosticSeverity::Info => Some(LspSeverity::Information),
                DiagnosticSeverity::Hint => Some(LspSeverity::Hint),
            }),
    {
        match self {
            DiagnosticSeverity::Off => None,
            DiagnosticSeverity::Error => Some(LspSeverity::Error),
            DiagnosticSeverity::Warning => Some(LspSeverity::Warning),
            DiagnosticSeverity::Info => Some(LspSeverity::Information),
            DiagnosticSeverity::Hint => Some(LspSeverity::Hint),
        }
    }
}

/// Settings for Git.
#[derive(Copy, Clone, Debug, PartialEq, Eq, Structural)]
pub struct GitSettings {
    /// Whether to show changes beside the text.
    pub git_gutter: Option<GitGutterSetting>,
    /// After how many milliseconds changes are shown there.
    pub gutter_debounce: Option<u64>,
    /// Who changed the line of the cursor.
    pub inline_blame: Option<InlineBlameSettings>,
    /// How hunks are shown.
    pub hunk_style: Option<GitHunkStyleSetting>,
}

impl Default for GitSettings {
    fn default() -> (r: GitSettings)
        ensures
            r == (GitSettings {
                git_gutter: None,
                gutter_debounce: None,
                inline_blame: None,
                hunk_style: None,
            }),
    {
        GitSettings { git_gutter: None, gutter_debounce: None, inline_blame: None, hunk_style: None }
    }
}

impl GitSettings {
    /// Whether to show who changed the line of the cursor.
    pub fn inline_blame_enabled(&self) -> (r: bool)
        ensures
            r == (self.inline_blame is Some && self.inline_blame->0.enabled),
    {
        match &self.inline_blame {
            Some(blame) => blame.enabled,
            None => false,
        }
    }

    /// How many milliseconds to wait before that is shown, if at all.
    pub fn inline_blame_delay(&self) -> (r: Option<u64>)
        ensures
            r == (match self.inline_blame {
                Some(blame) => match blame.delay_ms {
                    Some(delay) => if delay > 0 {
                        Some(delay)
                    } else {
                        None
                    },
                    None => None,
                },
                None => None,
            }),
    {
        match &self.inline_blame {
            Some(blame) => match blame.delay_ms {
                Some(delay) => if delay > 0 {
                    Some(delay)
                } else {
                    None
                },
                None => None,
            },
            None => None,
        }
    }

    /// Whether to show what the change was about.
    pub fn show_inline_commit_summary(&self) -> (r: bool)
        ensures
            r == (self.inline_blame is Some && self.inline_blame->0.show_commit_summary),
    {
        match &self.inline_blame {
            Some(blame) => blame.show_commit_summary,
            None => false,
        }
    }
}

/// How hunks are shown.
#[derive(Copy, Clone, Debug, PartialEq, Eq, Structural)]
pub enum GitHunkStyleSetting {
    /// Show unstaged hunks with a filled background and staged hunks hollow.
    StagedHollow,
    /// Show unstaged hunks hollow and staged hunks with a filled background.
    UnstagedHollow,
}

impl Default for GitHunkStyleSetting {
    fn default() -> (r: GitHunkStyleSetting)
        ensures
            r == GitHunkStyleSetting::StagedHollow,
    {
        GitHunkStyleSetting::StagedHollow
    }
}

/// Whether to show changes beside the text.
#[derive(Copy, Clone, Debug, PartialEq, Eq, Structural)]
pub enum GitGutterSetting {
    /// In the files that Git knows.
    TrackedFiles,
    /// Nowhere.
    Hide,
}

impl Default for GitGutterSetting {
    fn default() -> (r: GitGutterSetting)
        ensures
            r == GitGutterSetting::TrackedFiles,
    {
        GitGutterSetting::TrackedFiles
    }
}

/// Settings for showing who changed the line of the cursor.
#[derive(Copy, Clone, Debug, PartialEq, Eq, Structural)]
pub struct InlineBlameSettings {
    /// Whether to show it.
    pub enabled: bool,
    /// How many milliseconds to wait once the cursor stands still.
    pub delay_ms: Option<u64>,
    /// The first column in which it is shown.
    pub min_column: Option<u32>,
    /// Whether to show what the change was about.
    pub show_commit_summary: bool,
}

impl Default for InlineBlameSettings {
    fn default() -> (r: InlineBlameSettings)
        ensures
            r == (InlineBlameSettings {
                enabled: true,
                delay_ms: None,
                min_column: None,
                show_commit_summary: false,
            }),
    {
        InlineBlameSettings {
            enabled: true,
            delay_ms: None,
            min_column: None,
            show_commit_summary: false,
        }
    }
}

/// Settings for a program.
#[derive(Debug)]
pub struct BinarySettings {
    pub path: Option<String>,
    pub arguments: Option<Vec<String>>,
    pub env: Option<TextMap>,
    pub ignore_system_version: Option<bool>,
}

impl Default for BinarySettings {
    fn default() -> (r: BinarySettings)
        ensures
            r.path is None,
            r.arguments is None,
            r.env is None,
            r.ignore_system_version is None,
    {
        BinarySettings { path: None, arguments: None, env: None, ignore_system_version: None }
    }
}

/// Settings for a language server. What only the server understands is kept as JSON.
#[derive(Debug)]
pub struct LspSettings {
    pub binary: Option<BinarySettings>,
    pub initialization_options: Option<String>,
    pub settings: Option<String>,
    /// Whether the tasks of the server are used, if it has any.
    pub enable_lsp_tasks: bool,
}

impl Default for LspSettings {
    fn default() -> (r: LspSettings)
        ensures
            r.binary is None,
            r.initialization_options is None,
            r.settings is None,
            r.enable_lsp_tasks,
    {
        LspSettings {
            binary: None,
            initialization_options: None,
            settings: None,
            enable_lsp_tasks: true,
        }
    }
}

/// The settings of a project.
#[derive(Debug)]
pub struct ProjectSettings {
    /// Settings for language servers, by name.
    pub lsp: Vec<(String, LspSettings)>,
    pub diagnostics: DiagnosticsSettings,
    pub git: GitSettings,
    pub node: NodeBinarySettings,
    pub load_direnv: DirenvSettings,
    pub session: SessionSettings,
}

impl Default for ProjectSettings {
    fn default() -> (r: ProjectSettings)
        ensures
            r.lsp@.len() == 0,
            r.diagnostics == (DiagnosticsSettings {
                button: true,
                include_warnings: true,
                lsp_pull_diagnostics: LspPullDiagnosticsSettings {
                    enabled: true,
                    debounce_ms: 50,
                },
                inline: InlineDiagnosticsSettings {
                    enabled: false,
                    update_debounce_ms: 150,
                    padding: 4,
                    min_column: 0,
                    max_severity: None,
                },
                cargo: None,
            }),
            r.git == (GitSettings {
                git_gutter: None,
                gutter_debounce: None,
                inline_blame: None,
                hunk_style: None,
            }),
            r.node == (NodeBinarySettings {
                path: None,
                npm_path: None,
                ignore_system_version: false,
            }),
            r.load_direnv == DirenvSettings::Direct,
            r.session == (SessionSettings { restore_unsaved_buffers: true }),
    {
        ProjectSettings {
            lsp: Vec::new(),
            diagnostics: DiagnosticsSettings::default(),
            git: GitSettings::default(),
            node: NodeBinarySettings::default(),
            load_direnv: DirenvSettings::default(),
            session: SessionSettings::default(),
        }
    }
}

/// Settings for what is kept from one run of the editor to the next.
#[derive(Copy, Clone, Debug, PartialEq, Eq, Structural)]
pub struct SessionSettings {
    /// Whether texts that were not saved are there again. If so nobody is asked whether to
    /// save them.
    pub restore_unsaved_buffers: bool,
}

impl Default for SessionSettings {
    fn default() -> (r: SessionSettings)
        ensures
            r.restore_unsaved_buffers,
    {
        SessionSettings { restore_unsaved_buffers: true }
    }
}

/// What a file with settings is for.
#[derive(Copy, Clone, Debug, PartialEq, Eq, Structural)]
pub enum LocalSettingsKind {
    Settings,
    Editorconfig,
}

/// What a file with settings is for, as peers tell.
#[derive(Copy, Clone, Debug, PartialEq, Eq, Structural)]
pub enum WireSettingsKind {
    Settings,
    Editorconfig,
    Other,
}

/// What a file is for, as peers tell.
pub open spec fn wire_kind(kind: LocalSettingsKind) -> WireSettingsKind {
    match kind {
        LocalSettingsKind::Settings => WireSettingsKind::Settings,
        LocalSettingsKind::Editorconfig => WireSettingsKind::Editorconfig,
    }
}

/// What a file is for, from what a peer told. It must be for something known.
pub fn local_settings_kind_from_proto(kind: WireSettingsKind) -> (r: LocalSettingsKind)
    requires
        kind != WireSettingsKind::Other,
    ensures
        wire_kind(r) == kind,
{
    match kind {
        WireSettingsKind::Settings => LocalSettingsKind::Settings,
        _ => LocalSettingsKind::Editorconfig,
    }
}

/// What a file is for, as peers tell.
pub fn local_settings_kind_to_proto(kind: LocalSettingsKind) -> (r: WireSettingsKind)
    ensures
        r == wire_kind(kind),
{
    match kind {
        LocalSettingsKind::Settings => WireSettingsKind::Settings,
        LocalSettingsKind::Editorconfig => WireSettingsKind::Editorconfig,
    }
}

/// A peer told of a file for something that is not known.
#[derive(Copy, Clone, Debug, PartialEq, Eq, Structural)]
pub struct UnknownKind(pub i32);

/// What a file that a peer told of is for: settings, unless it says otherwise. `known`
/// is what the number of the kind stands for.
pub fn update_kind(kind: Option<i32>, known: Option<WireSettingsKind>) -> (r: Result<
    WireSettingsKind,
    UnknownKind,
>)
    ensures
        r == (match (kind, known) {
            (None, _) => Ok::<WireSettingsKind, UnknownKind>(WireSettingsKind::Settings),
            (Some(_), Some(known)) => Ok(known),
            (Some(number), None) => Err(UnknownKind(number)),
        }),
{
    match (kind, known) {
        (None, _) => Ok(WireSettingsKind::Settings),
        (Some(_), Some(known)) => Ok(known),
        (Some(number), None) => Err(UnknownKind(number)),
    }
}

/// What a peer is told of a file with settings.
#[derive(Debug)]
pub struct UpdateWorktreeSettings {
    pub project_id: u64,
    pub worktree_id: u64,
    pub path: String,
    pub content: Option<String>,
    pub kind: WireSettingsKind,
}

/// A file with settings: its directory, what it is for, and what it says, if it is still
/// there.
#[derive(Debug)]
pub struct SettingsContent {
    pub directory: String,
    pub kind: LocalSettingsKind,
    pub content: Option<String>,
}

/// The files with settings in a worktree: those with settings, and those for formatting.
#[derive(Debug)]
pub struct WorktreeSettings {
    pub worktree_id: u64,
    pub settings: Vec<(String, String)>,
    pub editorconfig: Vec<(String, String)>,
}

/// What came of taking over settings.
#[derive(Debug)]
pub enum SetResult {
    Done,
    /// A file says something that is not understood.
    InvalidLocal { path: String, message: String },
    /// Something else is wrong.
    Invalid,
}

/// What is told of settings that changed: the file, or what is wrong with it.
#[derive(Debug)]
pub enum SettingsObserverEvent {
    LocalSettingsUpdated(Result<String, (String, String)>),
}

/// Whether an event is the one for what came of taking over a file.
pub open spec fn is_event(
    event: SettingsObserverEvent,
    content: SettingsContent,
    result: SetResult,
) -> bool {
    let updated = event->LocalSettingsUpdated_0;
    match result {
        SetResult::Done => updated is Ok && updated->Ok_0@ == joined_path(
            content.directory@,
            ".zed-min/settings.json"@,
        ),
        SetResult::InvalidLocal { path, message } => updated is Err && updated->Err_0 == (
            path,
            message,
        ),
        SetResult::Invalid => false,
    }
}

/// The files of whose taking over is told, by their places.
pub open spec fn told_of(results: Seq<SetResult>) -> Seq<int>
    decreases results.len(),
{
    if results.len() == 0 {
        Seq::empty()
    } else if results.last() is Invalid {
        told_of(results.drop_last())
    } else {
        told_of(results.drop_last()).push(results.len() - 1)
    }
}

/// Whether events are those for what came of taking over the files at some places.
pub open spec fn are_events(
    events: Seq<SettingsObserverEvent>,
    contents: Seq<SettingsContent>,
    results: Seq<SetResult>,
    places: Seq<int>,
) -> bool {
    events.len() == places.len() && forall|k: int|
        0 <= k < events.len() ==> is_event(
            #[trigger] events[k],
            contents[places[k]],
            results[places[k]],
        )
}

/// Whether a peer is told of a file as it should be.
pub open spec fn is_update(
    update: UpdateWorktreeSettings,
    project_id: u64,
    worktree_id: u64,
    path: String,
    content: Option<String>,
    kind: LocalSettingsKind,
) -> bool {
    update.project_id == project_id && update.worktree_id == worktree_id && update.path == path
        && update.content == content && update.kind == wire_kind(kind)
}

/// Whether a peer is told of the files of some worktrees, one after the other.
pub open spec fn are_updates(
    updates: Seq<UpdateWorktreeSettings>,
    project_id: u64,
    worktree_id: u64,
    files: Seq<(String, String)>,
    kind: LocalSettingsKind,
) -> bool {
    updates.len() == files.len() && forall|i: int|
        0 <= i < files.len() ==> is_update(
            #[trigger] updates[i],
            project_id,
            worktree_id,
            files[i].0,
            Some(files[i].1),
            kind,
        )
}

/// How many files of some worktrees there are.
pub open spec fn file_count(worktrees: Seq<WorktreeSettings>) -> nat
    decreases worktrees.len(),
{
    if worktrees.len() == 0 {
        0
    } else {
        file_count(worktrees.drop_last()) + worktrees.last().settings@.len()
            + worktrees.last().editorconfig@.len()
    }
}

/// Whether a peer is told of all files of some worktrees, in order.
pub open spec fn tells_all(
    updates: Seq<UpdateWorktreeSettings>,
    project_id: u64,
    worktrees: Seq<WorktreeSettings>,
) -> bool
    decreases worktrees.len(),
{
    if worktrees.len() == 0 {
        updates.len() == 0
    } else {
        let before = file_count(worktrees.drop_last()) as int;
        let last = worktrees.last();
        let middle = before + last.settings@.len();
        &&& updates.len() == file_count(worktrees)
        &&& tells_all(updates.take(before), project_id, worktrees.drop_last())
        &&& are_updates(
            updates.subrange(before, middle),
            project_id,
            last.worktree_id,
            last.settings@,
            LocalSettingsKind::Settings,
        )
        &&& are_updates(
            updates.skip(middle),
            project_id,
            last.worktree_id,
            last.editorconfig@,
            LocalSettingsKind::Editorconfig,
        )
    }
}

fn push_updates(
    updates: &mut Vec<UpdateWorktreeSettings>,
    project_id: u64,
    worktree_id: u64,
    files: &Vec<(String, String)>,
    kind: LocalSettingsKind,
)
    ensures
        final(updates)@.len() == old(updates)@.len() + files@.len(),
        final(updates)@.take(old(updates)@.len() as int) == old(updates)@,
        are_updates(
            final(updates)@.skip(old(updates)@.len() as int),
            project_id,
            worktree_id,
            files@,
            kind,
        ),
{
    let ghost start = updates@;
    let mut i: usize = 0;
    while i < files.len()
        invariant
            i <= files@.len(),
            updates@.len() == start.len() + i,
            forall|k: int| 0 <= k < start.len() ==> #[trigger] updates@[k] == start[k],
            forall|k: int|
                start.len() <= k < updates@.len() ==> is_update(
                    #[trigger] updates@[k],
                    project_id,
                    worktree_id,
                    files@[k - start.len()].0,
                    Some(files@[k - start.len()].1),
                    kind,
                ),
        decreases files.len() - i,
    {
        updates.push(
            UpdateWorktreeSettings {
                project_id,
                worktree_id,
                path: files[i].0.clone(),
                content: Some(files[i].1.clone()),
                kind: local_settings_kind_to_proto(kind),
            },
        );
        i = i + 1;
    }
    assert(updates@.take(start.len() as int) =~= start);
    proof {
        let rest = updates@.skip(start.len() as int);
        assert forall|k: int| 0 <= k < files@.len() implies is_update(
            #[trigger] rest[k],
            project_id,
            worktree_id,
            files@[k].0,
            Some(files@[k].1),
            kind,
        ) by {
            assert(rest[k] == updates@[start.len() + k]);
        }
    }
}

/// Tells peers of the settings of a project.
#[derive(Copy, Clone, Debug, PartialEq, Eq, Structural)]
pub struct SettingsObserver {
    pub downstream_client: Option<u64>,
    pub project_id: u64,
}

impl SettingsObserver {
    pub fn new_local() -> (r: SettingsObserver)
        ensures
            r == (SettingsObserver { downstream_client: None, project_id: 0 }),
    {
        SettingsObserver { downstream_client: None, project_id: 0 }
    }

    pub fn new_remote() -> (r: SettingsObserver)
        ensures
            r == (SettingsObserver { downstream_client: None, project_id: 0 }),
    {
        SettingsObserver { downstream_client: None, project_id: 0 }
    }

    /// Starts to tell a peer, first of what is there.
    pub fn shared(
        &mut self,
        project_id: u64,
        downstream_client: u64,
        worktrees: &Vec<WorktreeSettings>,
    ) -> (r: Vec<UpdateWorktreeSettings>)
        ensures
            *final(self) == (SettingsObserver {
                downstream_client: Some(downstream_client),
                project_id,
            }),
            tells_all(r@, project_id, worktrees@),
    {
        self.project_id = project_id;
        self.downstream_client = Some(downstream_client);
        let mut updates: Vec<UpdateWorktreeSettings> = Vec::new();
        let mut i: usize = 0;
        assert(worktrees@.take(0) =~= Seq::empty());
        while i < worktrees.len()
            invariant
                i <= worktrees@.len(),
                *self == (SettingsObserver {
                    downstream_client: Some(downstream_client),
                    project_id,
                }),
                updates@.len() == file_count(worktrees@.take(i as int)),
                tells_all(updates@, project_id, worktrees@.take(i as int)),
            decreases worktrees.len() - i,
        {
            let ghost first = updates@;
            let worktree = &worktrees[i];
            push_updates(
                &mut updates,
                project_id,
                worktree.worktree_id,
                &worktree.settings,
                LocalSettingsKind::Settings,
            );
            let ghost second = updates@;
            push_updates(
                &mut updates,
                project_id,
                worktree.worktree_id,
                &worktree.editorconfig,
                LocalSettingsKind::Editorconfig,
            );
            proof {
                let next = worktrees@.take(i + 1);
                assert(next.drop_last() =~= worktrees@.take(i as int));
                assert(next.last() == worktrees@[i as int]);
                let before: int = first.len() as int;
                let middle: int = second.len() as int;
                assert(updates@.take(middle) == second);
                assert(updates@.take(before) =~= first) by {
                    assert(second.take(before) == first);
                    assert(updates@.take(middle).take(before) =~= updates@.take(before));
                }
                assert(updates@.subrange(before, middle) =~= second.skip(before)) by {
                    assert(updates@.take(middle).skip(before) =~= updates@.subrange(
                        before,
                        middle,
                    ));
                }
            }
            i = i + 1;
        }
        assert(worktrees@.take(i as int) =~= worktrees@);
        updates
    }

    /// Stops to tell a peer.
    pub fn unshared(&mut self)
        ensures
            *final(self) == (SettingsObserver { downstream_client: None, ..*old(self) }),
    {
        self.downstream_client = None;
    }

    /// What is told of files that changed, from what came of taking them over: events here,
    /// and updates to the peer, if there is one.
    pub fn update_settings(
        &self,
        worktree_id: u64,
        contents: &Vec<SettingsContent>,
        results: &Vec<SetResult>,
    ) -> (r: (Vec<SettingsObserverEvent>, Vec<UpdateWorktreeSettings>))
        requires
            contents@.len() == results@.len(),
        ensures
            are_events(r.0@, contents@, results@, told_of(results@)),
            self.downstream_client is None ==> r.1@.len() == 0,
            self.downstream_client is Some ==> r.1@.len() == contents@.len() && forall|i: int|
                0 <= i < contents@.len() ==> is_update(
                    #[trigger] r.1@[i],
                    self.project_id,
                    worktree_id,
                    contents@[i].directory,
                    contents@[i].content,
                    contents@[i].kind,
                ),
    {
        let mut events: Vec<SettingsObserverEvent> = Vec::new();
        let mut updates: Vec<UpdateWorktreeSettings> = Vec::new();
        let mut i: usize = 0;
        let ghost mut places: Seq<int> = Seq::empty();
        assert(told_of(results@.take(0)) =~= Seq::empty());
        while i < contents.len()
            invariant
                i <= contents@.len(),
                contents@.len() == results@.len(),
                places == told_of(results@.take(i as int)),
                are_events(events@, contents@, results@, places),
                self.downstream_client is None ==> updates@.len() == 0,
                self.downstream_client is Some ==> updates@.len() == i && forall|k: int|
                    0 <= k < i ==> is_update(
                        #[trigger] updates@[k],
                        self.project_id,
                        worktree_id,
                        contents@[k].directory,
                        contents@[k].content,
                        contents@[k].kind,
                    ),
            decreases contents.len() - i,
        {
            let ghost old_places = places;
            let ghost old_events = events@;
            proof {
                let next = results@.take(i + 1);
                assert(next.drop_last() =~= results@.take(i as int));
                assert(next.last() == results@[i as int]);
                places = told_of(next);
            }
            let content = &contents[i];
            match &results[i] {
                SetResult::Done => {
                    let path = join_path(
                        content.directory.as_str(),
                        local_settings_file_relative_path(),
                    );
                    events.push(SettingsObserverEvent::LocalSettingsUpdated(Ok(path)));
                },
                SetResult::InvalidLocal { path, message } => {
                    events.push(
                        SettingsObserverEvent::LocalSettingsUpdated(
                            Err((path.clone(), message.clone())),
                        ),
                    );
                },
                SetResult::Invalid => {},
            }
            proof {
                assert forall|k: int| 0 <= k < events@.len() implies is_event(
                    #[trigger] events@[k],
                    contents@[places[k]],
                    results@[places[k]],
                ) by {
                    if k < old_events.len() {
                        assert(events@[k] == old_events[k]);
                        assert(places[k] == old_places[k]);
                    } else {
                        assert(places[k] == i);
                    }
                }
                assert(are_events(events@, contents@, results@, places));
            }
            if self.downstream_client.is_some() {
                updates.push(
                    UpdateWorktreeSettings {
                        project_id: self.project_id,
                        worktree_id,
                        path: content.directory.clone(),
                        content: content.content.clone(),
                        kind: local_settings_kind_to_proto(content.kind),
                    },
                );
            }
            i = i + 1;
        }
        assert(results@.take(i as int) =~= results@);
        (events, updates)
    }
}

/// What a file is for comes back from a peer as it was told.
pub proof fn law_settings_kind_round_trip(kind: LocalSettingsKind, back: LocalSettingsKind)
    requires
        wire_kind(back) == wire_kind(kind),
    ensures
        back == kind,
        wire_kind(kind) != WireSettingsKind::Other,
{
}

proof fn lemma_told_of(results: Seq<SetResult>)
    ensures
        forall|k: int|
            0 <= k < told_of(results).len() ==> 0 <= #[trigger] told_of(results)[k] < results.len()
                && !(results[told_of(results)[k]] is Invalid),
        forall|a: int, b: int|
            0 <= a < b < told_of(results).len() ==> #[trigger] told_of(results)[a]
                < #[trigger] told_of(results)[b],
        forall|i: int|
            0 <= i < results.len() && !(#[trigger] results[i] is Invalid) ==> told_of(
                results,
            ).contains(i),
    decreases results.len(),
{
    if results.len() > 0 {
        let init = results.drop_last();
        lemma_told_of(init);
        let before = told_of(init);
        let all = told_of(results);
        assert forall|k: int| 0 <= k < all.len() implies 0 <= #[trigger] all[k] < results.len()
            && !(results[all[k]] is Invalid) by {
            if k < before.len() {
                assert(all[k] == before[k]);
                assert(init[before[k]] == results[before[k]]);
            }
        }
        assert forall|a: int, b: int| 0 <= a < b < all.len() implies #[trigger] all[a]
            < #[trigger] all[b] by {
            assert(all[a] == before[a]);
            if b < before.len() {
                assert(all[b] == before[b]);
            }
        }
        assert forall|i: int|
            0 <= i < results.len() && !(#[trigger] results[i] is Invalid) implies all.contains(
            i,
        ) by {
            if i < init.len() {
                assert(init[i] == results[i]);
                let k: int = choose|k: int| 0 <= k < before.len() && before[k] == i;
                assert(all[k] == i);
            } else {
                assert(all[all.len() - 1] == i);
            }
        }
    }
}

/// What is told of settings that were taken: the file in their directory that was updated, or
/// where and why they are wrong.
pub open spec fn tells_of(
    event: SettingsObserverEvent,
    content: SettingsContent,
    result: SetResult,
) -> bool {
    match event {
        SettingsObserverEvent::LocalSettingsUpdated(Ok(path)) => result is Done && (content.directory@.len()
            > 0 && content.directory@.last() != '/' ==> path@ == content.directory@
            + "/.zed-min/settings.json"@),
        SettingsObserverEvent::LocalSettingsUpdated(Err((path, message))) => result
            == SetResult::InvalidLocal { path, message },
    }
}

/// Whether events tell of the settings at some places, in their order, and of all that were
/// taken or are wrong in themselves.
pub open spec fn tell_in_order(
    events: Seq<SettingsObserverEvent>,
    contents: Seq<SettingsContent>,
    results: Seq<SetResult>,
    places: Seq<int>,
) -> bool {
    &&& places.len() == events.len()
    &&& forall|a: int, b: int|
        0 <= a < b < places.len() ==> #[trigger] places[a] < #[trigger] places[b]
    &&& forall|k: int|
        0 <= k < places.len() ==> 0 <= #[trigger] places[k] < contents.len() && tells_of(
            events[k],
            contents[places[k]],
            results[places[k]],
        )
    &&& forall|i: int|
        0 <= i < results.len() && !(#[trigger] results[i] is Invalid) ==> places.contains(i)
}

/// Settings that change are told of one by one, in their order: where they were taken, and
/// what is wrong where they are. Others are sent on, each with its own content and kind, but
/// only while the project is shared.
pub proof fn law_changed_settings_are_told_of(
    observer: SettingsObserver,
    worktree_id: u64,
    contents: Vec<SettingsContent>,
    results: Vec<SetResult>,
    r: (Vec<SettingsObserverEvent>, Vec<UpdateWorktreeSettings>),
)
    requires
        contents@.len() == results@.len(),
        call_ensures(
            SettingsObserver::update_settings,
            (&observer, worktree_id, &contents, &results),
            r,
        ),
    ensures
        exists|places: Seq<int>| #[trigger]
            tell_in_order(r.0@, contents@, results@, places),
        observer.downstream_client is None ==> r.1@.len() == 0,
        observer.downstream_client is Some ==> r.1@.len() == contents@.len() && forall|i: int|
            0 <= i < contents@.len() ==> (#[trigger] r.1@[i]).project_id == observer.project_id
                && r.1@[i].worktree_id == worktree_id && r.1@[i].path == contents@[i].directory
                && r.1@[i].content == contents@[i].content && (r.1@[i].kind is Settings
                <==> contents@[i].kind is Settings) && (r.1@[i].kind is Editorconfig
                <==> contents@[i].kind is Editorconfig),
{
    let places = told_of(results@);
    lemma_told_of(results@);
    assert forall|k: int| 0 <= k < places.len() implies 0 <= #[trigger] places[k] < contents@.len()
        && tells_of(r.0@[k], contents@[places[k]], results@[places[k]]) by {
        let content = contents@[places[k]];
        assert(is_event(r.0@[k], content, results@[places[k]]));
        reveal_strlit(".zed-min/settings.json");
        reveal_strlit("/.zed-min/settings.json");
        let at = content.directory@;
        assert(at + seq!['/'] + ".zed-min/settings.json"@ =~= at + "/.zed-min/settings.json"@);
    }
    assert(tell_in_order(r.0@, contents@, results@, places));
    if observer.downstream_client is Some {
        assert forall|i: int| 0 <= i < contents@.len() implies (#[trigger] r.1@[i]).project_id
            == observer.project_id && r.1@[i].worktree_id == worktree_id && r.1@[i].path
            == contents@[i].directory && r.1@[i].content == contents@[i].content && (r.1@[i].kind
            is Settings <==> contents@[i].kind is Settings) && (r.1@[i].kind is Editorconfig
            <==> contents@[i].kind is Editorconfig) by {
            assert(is_update(
                r.1@[i],
                observer.project_id,
                worktree_id,
                contents@[i].directory,
                contents@[i].content,
                contents@[i].kind,
            ));
        }
    }
}

/// Whether a message hands a file of settings on.
pub open spec fn hands_on(
    update: UpdateWorktreeSettings,
    project_id: u64,
    worktree_id: u64,
    file: (String, String),
    kind: WireSettingsKind,
) -> bool {
    update.project_id == project_id && update.worktree_id == worktree_id && update.path == file.0
        && update.content == Some(file.1) && update.kind == kind
}

/// Whether one of some messages hands a file of settings on.
pub open spec fn is_handed_on(
    updates: Seq<UpdateWorktreeSettings>,
    project_id: u64,
    worktree_id: u64,
    file: (String, String),
    kind: WireSettingsKind,
) -> bool {
    exists|k: int|
        0 <= k < updates.len() && hands_on(
            #[trigger] updates[k],
            project_id,
            worktree_id,
            file,
            kind,
        )
}

proof fn lemma_tells_all(
    updates: Seq<UpdateWorktreeSettings>,
    project_id: u64,
    worktrees: Seq<WorktreeSettings>,
    w: int,
    i: int,
)
    requires
        tells_all(updates, project_id, worktrees),
        0 <= w < worktrees.len(),
    ensures
        0 <= i < worktrees[w].settings@.len() ==> is_handed_on(
            updates,
            project_id,
            worktrees[w].worktree_id,
            worktrees[w].settings@[i],
            WireSettingsKind::Settings,
        ),
        0 <= i < worktrees[w].editorconfig@.len() ==> is_handed_on(
            updates,
            project_id,
            worktrees[w].worktree_id,
            worktrees[w].editorconfig@[i],
            WireSettingsKind::Editorconfig,
        ),
    decreases worktrees.len(),
{
    let init = worktrees.drop_last();
    let before: int = file_count(init) as int;
    let last = worktrees.last();
    let middle: int = before + last.settings@.len();
    if w < init.len() {
        lemma_tells_all(updates.take(before), project_id, init, w, i);
        assert(init[w] == worktrees[w]);
        if 0 <= i < worktrees[w].settings@.len() {
            let k: int = choose|k: int|
                0 <= k < before && hands_on(
                    #[trigger] updates.take(before)[k],
                    project_id,
                    worktrees[w].worktree_id,
                    worktrees[w].settings@[i],
                    WireSettingsKind::Settings,
                );
            assert(updates[k] == updates.take(before)[k]);
        }
        if 0 <= i < worktrees[w].editorconfig@.len() {
            let k: int = choose|k: int|
                0 <= k < before && hands_on(
                    #[trigger] updates.take(before)[k],
                    project_id,
                    worktrees[w].worktree_id,
                    worktrees[w].editorconfig@[i],
                    WireSettingsKind::Editorconfig,
                );
            assert(updates[k] == updates.take(before)[k]);
        }
    } else {
        if 0 <= i < last.settings@.len() {
            assert(updates.subrange(before, middle)[i] == updates[before + i]);
            assert(hands_on(
                updates[before + i],
                project_id,
                last.worktree_id,
                last.settings@[i],
                WireSettingsKind::Settings,
            ));
        }
        if 0 <= i < last.editorconfig@.len() {
            assert(updates.skip(middle)[i] == updates[middle + i]);
            assert(hands_on(
                updates[middle + i],
                project_id,
                last.worktree_id,
                last.editorconfig@[i],
                WireSettingsKind::Editorconfig,
            ));
        }
    }
}

/// Who shares a project hands on every file of settings of every worktree, with its kind.
pub proof fn law_shared_settings_are_handed_on(
    observer: &mut SettingsObserver,
    project_id: u64,
    client: u64,
    worktrees: Vec<WorktreeSettings>,
    r: Vec<UpdateWorktreeSettings>,
    w: int,
    i: int,
)
    requires
        call_ensures(SettingsObserver::shared, (observer, project_id, client, &worktrees), r),
        0 <= w < worktrees@.len(),
    ensures
        final(observer).downstream_client == Some(client) && final(observer).project_id
            == project_id,
        0 <= i < worktrees@[w].settings@.len() ==> is_handed_on(
            r@,
            project_id,
            worktrees@[w].worktree_id,
            worktrees@[w].settings@[i],
            WireSettingsKind::Settings,
        ),
        0 <= i < worktrees@[w].editorconfig@.len() ==> is_handed_on(
            r@,
            project_id,
            worktrees@[w].worktree_id,
            worktrees@[w].editorconfig@[i],
            WireSettingsKind::Editorconfig,
        ),
{
    lemma_tells_all(r@, project_id, worktrees@, w, i);
}

/// What is asked of the settings of diagnostics and of blame: a severity keeps its rank, blame
/// waits only for a delay above zero, and what is not set is off.
pub proof fn law_settings_are_as_set(
    severity: DiagnosticSeverity,
    lsp: Option<LspSeverity>,
    git: GitSettings,
    delay: Option<u64>,
    enabled: bool,
    summary: bool,
    kind: Option<i32>,
    known: Option<WireSettingsKind>,
    update: Result<WireSettingsKind, UnknownKind>,
)
    requires
        call_ensures(DiagnosticSeverity::into_lsp, (severity,), lsp),
        call_ensures(GitSettings::inline_blame_delay, (&git,), delay),
        call_ensures(GitSettings::inline_blame_enabled, (&git,), enabled),
        call_ensures(GitSettings::show_inline_commit_summary, (&git,), summary),
        call_ensures(update_kind, (kind, known), update),
    ensures
        lsp is None <==> severity is Off,
        lsp == Some(LspSeverity::Error) <==> severity is Error,
        lsp == Some(LspSeverity::Warning) <==> severity is Warning,
        lsp == Some(LspSeverity::Information) <==> severity is Info,
        lsp == Some(LspSeverity::Hint) <==> severity is Hint,
        delay matches Some(ms) ==> ms > 0 && git.inline_blame is Some
            && git.inline_blame->0.delay_ms == Some(ms),
        delay is None ==> git.inline_blame is None || git.inline_blame->0.delay_ms is None
            || git.inline_blame->0.delay_ms == Some(0u64),
        enabled <==> git.inline_blame is Some && git.inline_blame->0.enabled,
        summary <==> git.inline_blame is Some && git.inline_blame->0.show_commit_summary,
        kind is None ==> update == Ok::<WireSettingsKind, UnknownKind>(WireSettingsKind::Settings),
        kind is Some && known is Some ==> update == Ok::<WireSettingsKind, UnknownKind>(known->0),
        kind is Some && known is None ==> update == Err::<WireSettingsKind, UnknownKind>(
            UnknownKind(kind->0),
        ),
{
}

} // verus!
