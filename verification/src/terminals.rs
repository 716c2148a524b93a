//! Terminals of a project, and the Python environments that are activated in them.

use vstd::prelude::*;
use crate::path::{path_text, push_path, pushed_path, AnyPath, Os};
use crate::task::expansion::optional_text;
use crate::task::template::{copy_optional_text, Shell};
use crate::text::{copy_text, texts};
use crate::text_map::{with_entries, TextMap};

verus! {

/// The terminals that are open, by their ids.
#[derive(Debug)]
pub struct Terminals {
    pub local_handles: Vec<u64>,
}

/// What a terminal is for.
#[derive(Debug)]
pub enum TerminalKind {
    /// A shell in a directory, or in that of the user.
    Shell(Option<String>),
}

/// Which script activates an environment.
#[derive(Copy, Clone, Debug, PartialEq, Eq, Structural)]
pub enum ActivateScript {
    Default,
    Csh,
    Fish,
    Nushell,
    PowerShell,
}

/// Whether, and how, to look for an environment.
#[derive(Debug)]
pub enum VenvSettings {
    Off,
    On { activate_script: ActivateScript, directories: Vec<String> },
}

/// The settings of terminals.
#[derive(Debug)]
pub struct TerminalSettings {
    pub shell: Shell,
    pub env: TextMap,
    pub detect_venv: VenvSettings,
}

/// A worktree of a project.
#[derive(Debug)]
pub struct Worktree {
    pub id: u64,
    pub abs_path: String,
    /// Whether the root is a directory, if there is a root.
    pub root_is_dir: Option<bool>,
    /// The directory of the root, if it has one.
    pub root_dir: Option<String>,
}

/// The first of the directories of some worktrees.
pub open spec fn first_root_dir(worktrees: Seq<Worktree>) -> Option<Seq<char>>
    decreases worktrees.len(),
{
    if worktrees.len() == 0 {
        None
    } else if worktrees.first().root_dir is Some {
        optional_text(worktrees.first().root_dir)
    } else {
        first_root_dir(worktrees.drop_first())
    }
}

/// The directory of the project: that of the active worktree, or else the first one.
pub fn active_project_directory(active: Option<&Worktree>, worktrees: &Vec<Worktree>) -> (r: Option<
    String,
>)
    ensures
        optional_text(r) == (if active is Some && active->0.root_dir is Some {
            optional_text(active->0.root_dir)
        } else {
            first_root_dir(worktrees@)
        }),
{
    if let Some(worktree) = active {
        if worktree.root_dir.is_some() {
            return copy_optional_text(&worktree.root_dir);
        }
    }
    let mut i: usize = 0;
    assert(worktrees@.skip(0) =~= worktrees@);
    while i < worktrees.len()
        invariant
            i <= worktrees@.len(),
            active is None || active->0.root_dir is None,
            first_root_dir(worktrees@.skip(i as int)) == first_root_dir(worktrees@),
        decreases worktrees.len() - i,
    {
        proof {
            let rest = worktrees@.skip(i as int);
            assert(rest.drop_first() =~= worktrees@.skip(i + 1));
            assert(rest.first() == worktrees@[i as int]);
        }
        if worktrees[i].root_dir.is_some() {
            return copy_optional_text(&worktrees[i].root_dir);
        }
        i = i + 1;
    }
    None
}

/// The path of the first worktree, if it is a directory.
pub fn first_project_directory(worktrees: &Vec<Worktree>) -> (r: Option<String>)
    ensures
        optional_text(r) == (if worktrees@.len() > 0 && worktrees@[0].root_is_dir == Some(true) {
            Some(worktrees@[0].abs_path@)
        } else {
            None
        }),
{
    if worktrees.len() == 0 {
        return None;
    }
    match worktrees[0].root_is_dir {
        Some(true) => Some(copy_text(worktrees[0].abs_path.as_str())),
        _ => None,
    }
}

/// Where settings are looked up: in the worktree of a path.
pub fn settings_location(path: &Option<String>, worktree: Option<u64>) -> (r: Option<(u64, String)>)
    ensures
        match r {
            Some((id, at)) => worktree == Some(id) && optional_text(*path) == Some(at@),
            None => worktree is None || path is None,
        },
{
    match (worktree, path) {
        (Some(id), Some(path)) => Some((id, copy_text(path.as_str()))),
        _ => None,
    }
}

/// The environment of a terminal: what was there at the start, and over it the
/// settings.
pub fn terminal_env(cli_environment: Option<TextMap>, settings: &TextMap) -> (r: TextMap)
    requires
        cli_environment matches Some(env) ==> env.wf(),
    ensures
        r.wf(),
        r.pairs() == with_entries(
            (match cli_environment {
                Some(env) => env.pairs(),
                None => Seq::empty(),
            }),
            settings.pairs(),
        ),
{
    let mut env = match cli_environment {
        Some(env) => env,
        None => TextMap::new(),
    };
    env.extend(settings);
    env
}

/// The directory of the programs of an environment.
pub open spec fn bin_dir_name(os: Os) -> Seq<char> {
    match os {
        Os::Windows => "Scripts"@,
        Os::Other => "bin"@,
    }
}

fn bin_dir(os: Os) -> (r: &'static str)
    ensures
        r@ == bin_dir_name(os),
{
    match os {
        Os::Windows => "Scripts",
        Os::Other => "bin",
    }
}

/// The word that runs the script.
pub open spec fn activate_keyword(script: ActivateScript, os: Os) -> Seq<char> {
    match script {
        ActivateScript::Default => match os {
            Os::Windows => "."@,
            Os::Other => "source"@,
        },
        ActivateScript::Nushell => "overlay use"@,
        ActivateScript::PowerShell => "."@,
        _ => "source"@,
    }
}

/// The name of the script.
pub open spec fn activate_script_name(script: ActivateScript) -> Seq<char> {
    match script {
        ActivateScript::Default => "activate"@,
        ActivateScript::Csh => "activate.csh"@,
        ActivateScript::Fish => "activate.fish"@,
        ActivateScript::Nushell => "activate.nu"@,
        ActivateScript::PowerShell => "activate.ps1"@,
    }
}

/// The path of the script of an environment.
pub open spec fn script_path(directory: Seq<char>, script: ActivateScript, os: Os) -> Seq<char> {
    pushed_path(
        pushed_path(directory, bin_dir_name(os), os),
        activate_script_name(script),
        os,
    )
}

/// The path of the script of an environment.
pub fn activate_script_path(directory: &str, script: ActivateScript, os: Os) -> (r: String)
    ensures
        r@ == script_path(directory@, script, os),
{
    let name = match script {
        ActivateScript::Default => "activate",
        ActivateScript::Csh => "activate.csh",
        ActivateScript::Fish => "activate.fish",
        ActivateScript::Nushell => "activate.nu",
        ActivateScript::PowerShell => "activate.ps1",
    };
    let dir = push_path(directory, bin_dir(os), os);
    push_path(dir.as_str(), name, os)
}

/// What `shlex::try_quote` makes of a word.
pub uninterp spec fn shell_quoted(word: Seq<char>) -> Seq<char>;

/// `shlex::try_quote` writes a word so that a shell reads it as one. It fails where the
/// word holds a nul character, and only there.
#[verifier::external_body]
fn shell_quote(word: &str) -> (r: Option<String>)
    ensures
        r is None <==> word@.contains('\0'),
        r matches Some(quoted) ==> quoted@ == shell_quoted(word@),
{
    match shlex::try_quote(word) {
        Ok(quoted) => Some(quoted.into_owned()),
        Err(_) => None,
    }
}

/// The line that activates an environment.
pub open spec fn activate_line(keyword: Seq<char>, quoted: Seq<char>, os: Os) -> Seq<char> {
    keyword + seq![' '] + quoted + " ; clear"@ + (match os {
        Os::Windows => seq!['\r'],
        Os::Other => seq!['\n'],
    })
}

/// The line that activates an environment, from the path of its script as a shell
/// reads it.
pub fn activate_command_line(script: ActivateScript, quoted: &str, os: Os) -> (r: String)
    ensures
        r@ == activate_line(activate_keyword(script, os), quoted@, os),
{
    let keyword = match script {
        ActivateScript::Default => match os {
            Os::Windows => ".",
            Os::Other => "source",
        },
        ActivateScript::Nushell => "overlay use",
        ActivateScript::PowerShell => ".",
        _ => "source",
    };
    let mut r = copy_text(keyword);
    r.push(' ');
    r.push_str(quoted);
    r.push_str(" ; clear");
    r.push(
        match os {
            Os::Windows => '\r',
            Os::Other => '\n',
        },
    );
    assert(r@ =~= activate_line(activate_keyword(script, os), quoted@, os));
    r
}

/// The line that activates the environment in a directory, or nothing where none is
/// looked for, or where its script is not there.
pub open spec fn activation(
    directory: Seq<char>,
    settings: VenvSettings,
    os: Os,
    script_exists: bool,
) -> Option<Seq<char>> {
    match settings {
        VenvSettings::Off => None,
        VenvSettings::On { activate_script, .. } => {
            let path = script_path(directory, activate_script, os);
            if path.contains('\0') || !script_exists {
                None
            } else {
                Some(
                    activate_line(activate_keyword(activate_script, os), shell_quoted(path), os),
                )
            }
        },
    }
}

/// The line that activates the environment in a directory.
pub fn python_activate_command(
    directory: &str,
    settings: &VenvSettings,
    os: Os,
    script_exists: bool,
) -> (r: Option<String>)
    ensures
        optional_text(r) == activation(directory@, *settings, os, script_exists),
{
    match settings {
        VenvSettings::Off => None,
        VenvSettings::On { activate_script, directories: _ } => {
            let path = activate_script_path(directory, *activate_script, os);
            match shell_quote(path.as_str()) {
                Some(quoted) => if script_exists {
                    Some(activate_command_line(*activate_script, quoted.as_str(), os))
                } else {
                    None
                },
                None => None,
            }
        },
    }
}

/// Where to look for environments, and for their programs.
pub fn venv_candidates(abs_path: &str, directories: &Vec<String>, os: Os) -> (r: Vec<
    (String, String),
>)
    ensures
        r@.len() == directories@.len(),
        forall|i: int|
            0 <= i < directories@.len() ==> (#[trigger] r@[i]).0@ == pushed_path(
                abs_path@,
                directories@[i]@,
                os,
            ) && r@[i].1@ == pushed_path(r@[i].0@, bin_dir_name(os), os),
{
    let mut r: Vec<(String, String)> = Vec::new();
    let mut i: usize = 0;
    while i < directories.len()
        invariant
            i <= directories@.len(),
            r@.len() == i,
            forall|k: int|
                0 <= k < i ==> (#[trigger] r@[k]).0@ == pushed_path(
                    abs_path@,
                    directories@[k]@,
                    os,
                ) && r@[k].1@ == pushed_path(r@[k].0@, bin_dir_name(os), os),
        decreases directories.len() - i,
    {
        let venv = push_path(abs_path, directories[i].as_str(), os);
        let bin = push_path(venv.as_str(), bin_dir(os), os);
        r.push((venv, bin));
        i = i + 1;
    }
    r
}

/// The first of some environments whose programs are there.
pub open spec fn first_venv(
    abs_path: Seq<char>,
    directories: Seq<Seq<char>>,
    has_programs: Seq<bool>,
    os: Os,
) -> Option<Seq<char>>
    decreases directories.len(),
{
    if directories.len() == 0 || has_programs.len() == 0 {
        None
    } else if has_programs.first() {
        Some(pushed_path(abs_path, directories.first(), os))
    } else {
        first_venv(abs_path, directories.drop_first(), has_programs.drop_first(), os)
    }
}

/// The first of some environments whose programs are there.
pub fn find_venv(
    abs_path: &str,
    directories: &Vec<String>,
    has_programs: &Vec<bool>,
    os: Os,
) -> (r: Option<String>)
    requires
        directories@.len() == has_programs@.len(),
    ensures
        optional_text(r) == first_venv(abs_path@, texts(directories@), has_programs@, os),
{
    let mut i: usize = 0;
    let ghost all = texts(directories@);
    assert(all.skip(0) =~= all);
    assert(has_programs@.skip(0) =~= has_programs@);
    while i < directories.len()
        invariant
            i <= directories@.len(),
            directories@.len() == has_programs@.len(),
            all == texts(directories@),
            first_venv(abs_path@, all.skip(i as int), has_programs@.skip(i as int), os)
                == first_venv(abs_path@, all, has_programs@, os),
        decreases directories.len() - i,
    {
        proof {
            let rest = all.skip(i as int);
            let flags = has_programs@.skip(i as int);
            assert(rest.drop_first() =~= all.skip(i + 1));
            assert(flags.drop_first() =~= has_programs@.skip(i + 1));
            assert(rest.first() == directories@[i as int]@);
            assert(flags.first() == has_programs@[i as int]);
        }
        if has_programs[i] {
            return Some(push_path(abs_path, directories[i].as_str(), os));
        }
        i = i + 1;
    }
    None
}

/// The environment that a toolchain belongs to.
pub open spec fn toolchain_venv(toolchain: AnyPath) -> Option<Seq<char>> {
    let parts = toolchain.components@;
    if parts.len() < 2 {
        None
    } else {
        Some(path_text(toolchain.absolute, parts.drop_last().drop_last()))
    }
}

/// The environment to be used for a path: that of the toolchain, or else the first one
/// that is found in the worktree, or else the first one that is found on disk.
pub fn python_venv_directory(
    abs_path: &str,
    toolchain: Option<&AnyPath>,
    settings: &VenvSettings,
    in_worktree: &Vec<bool>,
    on_disk: &Vec<bool>,
    os: Os,
) -> (r: Option<String>)
    requires
        settings matches VenvSettings::On { directories, .. } ==> directories@.len()
            == in_worktree@.len() && directories@.len() == on_disk@.len(),
    ensures
        optional_text(r) == (match toolchain {
            Some(toolchain) => toolchain_venv(*toolchain),
            None => match *settings {
                VenvSettings::Off => None,
                VenvSettings::On { directories, .. } => {
                    let found = first_venv(abs_path@, texts(directories@), in_worktree@, os);
                    if found is Some {
                        found
                    } else {
                        first_venv(abs_path@, texts(directories@), on_disk@, os)
                    }
                },
            },
        }),
{
    match toolchain {
        Some(toolchain) => match toolchain.parent() {
            Some(parent) => match parent.parent() {
                Some(venv) => Some(venv.to_text()),
                None => None,
            },
            None => None,
        },
        None => match settings {
            VenvSettings::Off => None,
            VenvSettings::On { activate_script: _, directories } => {
                match find_venv(abs_path, directories, in_worktree, os) {
                    Some(venv) => Some(venv),
                    None => find_venv(abs_path, directories, on_disk, os),
                }
            },
        },
    }
}

/// A terminal that is to be opened.
#[derive(Debug)]
pub struct TerminalRequest {
    pub working_directory: Option<String>,
    pub python_venv_directory: Option<String>,
    pub shell: Shell,
    pub env: TextMap,
    /// What is typed into the terminal first.
    pub activate_command: Option<String>,
}

impl Terminals {
    /// What is needed to open a terminal.
    pub fn create_terminal_with_venv(
        kind: TerminalKind,
        python_venv_directory: Option<String>,
        settings: &TerminalSettings,
        cli_environment: Option<TextMap>,
        os: Os,
        script_exists: bool,
    ) -> (r: TerminalRequest)
        requires
            cli_environment matches Some(env) ==> env.wf(),
        ensures
            optional_text(r.working_directory) == (match kind {
                TerminalKind::Shell(path) => optional_text(path),
            }),
            r.python_venv_directory == python_venv_directory,
            r.shell@ == settings.shell@,
            r.env.wf(),
            r.env.pairs() == with_entries(
                (match cli_environment {
                    Some(env) => env.pairs(),
                    None => Seq::empty(),
                }),
                settings.env.pairs(),
            ),
            optional_text(r.activate_command) == (match python_venv_directory {
                Some(directory) => activation(
                    directory@,
                    settings.detect_venv,
                    os,
                    script_exists,
                ),
                None => None,
            }),
    {
        let env = terminal_env(cli_environment, &settings.env);
        let TerminalKind::Shell(working_directory) = kind;
        let activate_command = match &python_venv_directory {
            Some(directory) => python_activate_command(
                directory.as_str(),
                &settings.detect_venv,
                os,
                script_exists,
            ),
            None => None,
        };
        TerminalRequest {
            working_directory,
            python_venv_directory,
            shell: settings.shell.copy(),
            env,
            activate_command,
        }
    }

    /// Notes that a terminal was opened.
    pub fn opened(&mut self, id: u64)
        ensures
            final(self).local_handles@ == old(self).local_handles@.push(id),
    {
        self.local_handles.push(id);
    }

    /// Notes that a terminal is gone, and tells whether it was known.
    pub fn released(&mut self, id: u64) -> (r: bool)
        ensures
            r == old(self).local_handles@.contains(id),
            !r ==> final(self).local_handles@ == old(self).local_handles@,
            r ==> exists|i: int|
                0 <= i < old(self).local_handles@.len() && old(self).local_handles@[i] == id
                    && !old(self).local_handles@.take(i).contains(id) && final(self).local_handles@
                    == #[trigger] old(self).local_handles@.remove(i),
    {
        let mut i: usize = 0;
        while i < self.local_handles.len()
            invariant
                i <= self.local_handles@.len(),
                *self == *old(self),
                forall|k: int| 0 <= k < i ==> #[trigger] self.local_handles@[k] != id,
            decreases self.local_handles.len() - i,
        {
            if self.local_handles[i] == id {
                let _ = self.local_handles.remove(i);
                proof {
                    let before = old(self).local_handles@;
                    assert(before[i as int] == id);
                    assert(self.local_handles@ == before.remove(i as int));
                }
                return true;
            }
            i = i + 1;
        }
        false
    }

    pub fn local_terminal_handles(&self) -> (r: &Vec<u64>)
        ensures
            *r == self.local_handles,
    {
        &self.local_handles
    }
}

/// A terminal that was opened and is gone leaves the others as they were.
pub proof fn law_released_terminal_leaves_no_trace(handles: Seq<u64>, id: u64)
    requires
        !handles.contains(id),
    ensures
        handles.push(id).remove(handles.len() as int) == handles,
        !handles.push(id).take(handles.len() as int).contains(id),
{
    assert(handles.push(id).remove(handles.len() as int) =~= handles);
    assert(handles.push(id).take(handles.len() as int) =~= handles);
}

proof fn lemma_first_venv(
    abs_path: Seq<char>,
    directories: Seq<Seq<char>>,
    has_programs: Seq<bool>,
    os: Os,
)
    requires
        directories.len() == has_programs.len(),
    ensures
        match first_venv(abs_path, directories, has_programs, os) {
            Some(found) => exists|i: int|
                0 <= i < directories.len() && #[trigger] has_programs[i] && (forall|j: int|
                    0 <= j < i ==> !(#[trigger] has_programs[j])) && found == pushed_path(
                    abs_path,
                    directories[i],
                    os,
                ),
            None => forall|i: int| 0 <= i < directories.len() ==> !(#[trigger] has_programs[i]),
        },
    decreases directories.len(),
{
    if directories.len() > 0 {
        if has_programs.first() {
            assert(has_programs[0]);
        } else {
            let rest = has_programs.drop_first();
            lemma_first_venv(abs_path, directories.drop_first(), rest, os);
            match first_venv(abs_path, directories.drop_first(), rest, os) {
                Some(found) => {
                    let i: int = choose|i: int|
                        0 <= i < rest.len() && #[trigger] rest[i] && (forall|j: int|
                            0 <= j < i ==> !(#[trigger] rest[j])) && found == pushed_path(
                            abs_path,
                            directories.drop_first()[i],
                            os,
                        );
                    assert(has_programs[i + 1]);
                    assert forall|j: int| 0 <= j < i + 1 implies !(#[trigger] has_programs[j]) by {
                        if j > 0 {
                            assert(!rest[j - 1]);
                        }
                    }
                },
                None => {
                    assert forall|i: int| 0 <= i < directories.len() implies !(
                    #[trigger] has_programs[i]) by {
                        if i > 0 {
                            assert(!rest[i - 1]);
                        }
                    }
                },
            }
        }
    }
}

/// The environment of a worktree is the first of the directories that holds programs, below
/// the path of the worktree. There is none where no directory does.
pub proof fn law_first_environment_is_taken(
    abs_path: &str,
    directories: Vec<String>,
    has_programs: Vec<bool>,
    os: Os,
    r: Option<String>,
    i: int,
    path: String,
    directory: &str,
)
    requires
        directories@.len() == has_programs@.len(),
        call_ensures(find_venv, (abs_path, &directories, &has_programs, os), r),
        0 <= i < directories@.len(),
        has_programs@[i],
        forall|j: int| 0 <= j < i ==> !(#[trigger] has_programs@[j]),
        directory@ == directories@[i]@,
        call_ensures(push_path, (abs_path, directory, os), path),
    ensures
        r is Some && r->0@ == path@,
{
    lemma_first_venv(abs_path@, texts(directories@), has_programs@, os);
    let found = first_venv(abs_path@, texts(directories@), has_programs@, os);
    assert(has_programs@[i]);
    assert(found is Some);
    let k: int = choose|k: int|
        0 <= k < directories@.len() && #[trigger] has_programs@[k] && (forall|j: int|
            0 <= j < k ==> !(#[trigger] has_programs@[j])) && found->0 == pushed_path(
            abs_path@,
            texts(directories@)[k],
            os,
        );
    assert(k == i) by {
        if k < i {
            assert(!has_programs@[k]);
        } else if i < k {
            assert(!has_programs@[i]);
        }
    }
}

/// No environment is found where no directory holds programs.
pub proof fn law_no_environment_without_programs(
    abs_path: &str,
    directories: Vec<String>,
    has_programs: Vec<bool>,
    os: Os,
    r: Option<String>,
)
    requires
        directories@.len() == has_programs@.len(),
        call_ensures(find_venv, (abs_path, &directories, &has_programs, os), r),
        forall|j: int| 0 <= j < has_programs@.len() ==> !(#[trigger] has_programs@[j]),
    ensures
        r is None,
{
    lemma_first_venv(abs_path@, texts(directories@), has_programs@, os);
}

/// The environment is that of the toolchain, two names above its program. Without a
/// toolchain it is searched for, unless this is switched off, among what the worktree knows
/// first and on the disk after that.
pub proof fn law_environment_of_a_project(
    abs_path: &str,
    toolchain: AnyPath,
    above: AnyPath,
    above_text: String,
    settings: VenvSettings,
    in_worktree: Vec<bool>,
    on_disk: Vec<bool>,
    os: Os,
    of_toolchain: Option<String>,
    searched: Option<String>,
    known: Option<String>,
    there: Option<String>,
)
    requires
        call_ensures(
            python_venv_directory,
            (abs_path, Some(&toolchain), &settings, &in_worktree, &on_disk, os),
            of_toolchain,
        ),
        call_ensures(
            python_venv_directory,
            (abs_path, None, &settings, &in_worktree, &on_disk, os),
            searched,
        ),
        above.absolute == toolchain.absolute,
        toolchain.components@.len() >= 2 ==> above.components@ == toolchain.components@.take(
            toolchain.components@.len() - 2,
        ),
        call_ensures(AnyPath::to_text, (&above,), above_text),
        settings matches VenvSettings::On { directories, .. } ==> call_ensures(
            find_venv,
            (abs_path, &directories, &in_worktree, os),
            known,
        ) && call_ensures(find_venv, (abs_path, &directories, &on_disk, os), there),
    ensures
        toolchain.components@.len() >= 2 ==> of_toolchain is Some && of_toolchain->0@
            == above_text@,
        toolchain.components@.len() < 2 ==> of_toolchain is None,
        settings is Off ==> searched is None,
        settings is On && known is Some ==> searched is Some && searched->0@ == known->0@,
        settings is On && known is None && there is Some ==> searched is Some && searched->0@
            == there->0@,
        settings is On && known is None && there is None ==> searched is None,
{
    if toolchain.components@.len() >= 2 {
        assert(toolchain.components@.drop_last().drop_last() =~= above.components@);
    }
}

/// The line that activates an environment names the script of the shell in the directory of
/// the programs, quoted, and clears the screen.
pub proof fn law_activation_runs_the_script(
    directory: &str,
    settings: VenvSettings,
    script: ActivateScript,
    directories: Vec<String>,
    script_exists: bool,
    r: Option<String>,
)
    requires
        directory@.len() > 0,
        directory@.last() != '/',
        !directory@.contains('\0'),
        settings == (VenvSettings::On { activate_script: script, directories }),
        call_ensures(python_activate_command, (directory, &settings, Os::Other, script_exists), r),
    ensures
        r is Some == script_exists,
        r matches Some(line) ==> line@ == (match script {
            ActivateScript::Nushell => "overlay use"@,
            ActivateScript::PowerShell => "."@,
            _ => "source"@,
        }) + seq![' '] + shell_quoted(
            directory@ + seq!['/'] + "bin"@ + seq!['/'] + (match script {
                ActivateScript::Default => "activate"@,
                ActivateScript::Csh => "activate.csh"@,
                ActivateScript::Fish => "activate.fish"@,
                ActivateScript::Nushell => "activate.nu"@,
                ActivateScript::PowerShell => "activate.ps1"@,
            }),
        ) + " ; clear"@ + seq!['\n'],
{
    reveal_strlit("bin");
    reveal_strlit("activate");
    reveal_strlit("activate.csh");
    reveal_strlit("activate.fish");
    reveal_strlit("activate.nu");
    reveal_strlit("activate.ps1");
    let name = activate_script_name(script);
    let bin = pushed_path(directory@, "bin"@, Os::Other);
    assert(bin =~= directory@ + seq!['/'] + "bin"@);
    assert(bin.last() == 'n');
    let path = pushed_path(bin, name, Os::Other);
    assert(path =~= directory@ + seq!['/'] + "bin"@ + seq!['/'] + name);
    assert(!name.contains('\0'));
    assert(!path.contains('\0')) by {
        if path.contains('\0') {
            let k: int = choose|k: int| 0 <= k < path.len() && path[k] == '\0';
            let n: int = directory@.len() as int;
            if k < n {
                assert(directory@[k] == '\0');
            } else if k >= n + 5 {
                assert(name[k - n - 5] == '\0');
            } else if n < k < n + 4 {
                assert("bin"@[k - n - 1] == '\0');
            }
        }
    }
}

/// Nothing is activated where environments are switched off.
pub proof fn law_nothing_is_activated_when_off(
    directory: &str,
    os: Os,
    script_exists: bool,
    r: Option<String>,
)
    requires
        call_ensures(
            python_activate_command,
            (directory, &VenvSettings::Off, os, script_exists),
            r,
        ),
    ensures
        r is None,
{
}

proof fn lemma_first_root_dir(worktrees: Seq<Worktree>)
    ensures
        match first_root_dir(worktrees) {
            Some(dir) => exists|i: int|
                0 <= i < worktrees.len() && (#[trigger] worktrees[i]).root_dir is Some
                    && worktrees[i].root_dir->0@ == dir && forall|j: int|
                    0 <= j < i ==> (#[trigger] worktrees[j]).root_dir is None,
            None => forall|i: int|
                0 <= i < worktrees.len() ==> (#[trigger] worktrees[i]).root_dir is None,
        },
    decreases worktrees.len(),
{
    if worktrees.len() > 0 {
        if worktrees.first().root_dir is Some {
            assert(worktrees[0].root_dir is Some);
        } else {
            let rest = worktrees.drop_first();
            lemma_first_root_dir(rest);
            match first_root_dir(rest) {
                Some(dir) => {
                    let i: int = choose|i: int|
                        0 <= i < rest.len() && (#[trigger] rest[i]).root_dir is Some
                            && rest[i].root_dir->0@ == dir && forall|j: int|
                            0 <= j < i ==> (#[trigger] rest[j]).root_dir is None;
                    assert(worktrees[i + 1] == rest[i]);
                    assert forall|j: int| 0 <= j < i + 1 implies (
                    #[trigger] worktrees[j]).root_dir is None by {
                        if j > 0 {
                            assert(rest[j - 1].root_dir is None);
                        }
                    }
                },
                None => {
                    assert forall|i: int| 0 <= i < worktrees.len() implies (
                    #[trigger] worktrees[i]).root_dir is None by {
                        if i > 0 {
                            assert(rest[i - 1].root_dir is None);
                        }
                    }
                },
            }
        }
    }
}

/// A terminal opens in the root directory of the active worktree, or else in that of the
/// first worktree that has one.
pub proof fn law_terminal_opens_in_a_root_directory(
    active: Option<&Worktree>,
    worktrees: Vec<Worktree>,
    r: Option<String>,
    first: Option<String>,
)
    requires
        call_ensures(active_project_directory, (active, &worktrees), r),
        call_ensures(first_project_directory, (&worktrees,), first),
    ensures
        active is Some && active->0.root_dir is Some ==> r is Some && r->0@
            == active->0.root_dir->0@,
        !(active is Some && active->0.root_dir is Some) && r is Some ==> exists|i: int|
            0 <= i < worktrees@.len() && (#[trigger] worktrees@[i]).root_dir is Some
                && worktrees@[i].root_dir->0@ == r->0@ && forall|j: int|
                0 <= j < i ==> (#[trigger] worktrees@[j]).root_dir is None,
        r is None ==> forall|i: int|
            0 <= i < worktrees@.len() ==> (#[trigger] worktrees@[i]).root_dir is None,
        first is Some <==> worktrees@.len() > 0 && worktrees@[0].root_is_dir == Some(true),
        first is Some ==> first->0@ == worktrees@[0].abs_path@,
{
    lemma_first_root_dir(worktrees@);
}

/// A terminal has the variables of the settings, and those of the shell that are not set there.
pub proof fn law_settings_override_the_environment(
    cli: Option<TextMap>,
    settings: TextMap,
    r: TextMap,
    key: Seq<char>,
)
    requires
        cli matches Some(env) ==> env.wf(),
        settings.wf(),
        call_ensures(terminal_env, (cli, &settings), r),
    ensures
        settings@.contains_key(key) ==> r@.contains_key(key) && r@[key] == settings@[key],
        !settings@.contains_key(key) ==> (r@.contains_key(key) <==> (cli is Some
            && cli->0@.contains_key(key))),
        !settings@.contains_key(key) && r@.contains_key(key) ==> r@[key] == cli->0@[key],
{
    let start = match cli {
        Some(env) => env.pairs(),
        None => Seq::empty(),
    };
    crate::text_map::lemma_extended(start, settings.pairs(), key);
}

} // verus!
