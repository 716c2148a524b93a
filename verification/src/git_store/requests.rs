//! What peers ask of repositories, and the commands that answer it.

use vstd::prelude::*;
use std::sync::Arc;
use crate::collections::VecMap;
use crate::git_store::jobs::{superseded, GitJob, GitJobKey};
use crate::git_store::snapshot::RepositoryId;
use crate::git_store::staging::{stage_entries, unstage_entries, OpenBuffer, StagePlan};
use crate::git_store::store::{repository_index, GitStore};
use crate::path::RelPath;
use crate::rpc::peer::PeerId;
use crate::shared::arc_clone;
use crate::text::copy_text;

verus! {

/// How much a reset takes back.
#[derive(Copy, Clone, Debug, PartialEq, Eq, Structural)]
pub enum ResetMode {
    Soft,
    Mixed,
}

/// What is compared.
#[derive(Copy, Clone, Debug, PartialEq, Eq, Structural)]
pub enum DiffType {
    HeadToIndex,
    HeadToWorktree,
}

/// What a peer asks of a repository.
#[derive(Debug)]
pub enum GitRequest {
    Stage(Vec<RelPath>),
    Unstage(Vec<RelPath>),
    SetIndexText { path: Arc<RelPath>, text: Option<String> },
    Commit {
        message: String,
        name: Option<String>,
        email: Option<String>,
        /// Whether the last commit is amended. Without a word on it, it is not.
        amend: Option<bool>,
    },
    GetBranches,
    CreateBranch(String),
    ChangeBranch(String),
    Show(String),
    LoadCommitDiff(String),
    Reset { commit: String, mode: ResetMode },
    CheckoutFiles { commit: String, paths: Vec<RelPath> },
    OpenCommitMessageBuffer,
    CheckForPushedCommits,
    Diff(DiffType),
}

/// A command that runs on a repository.
#[derive(Debug)]
pub enum GitCommand {
    StagePaths(Vec<RelPath>),
    UnstagePaths(Vec<RelPath>),
    SetIndexText { path: Arc<RelPath>, content: Option<String> },
    Commit { message: String, name_and_email: Option<(String, String)>, amend: bool },
    Branches,
    CreateBranch(String),
    ChangeBranch(String),
    Show(String),
    LoadCommitDiff(String),
    Reset { commit: String, mode: ResetMode },
    CheckoutFiles { commit: String, paths: Vec<RelPath> },
    OpenCommitBuffer,
    CheckForPushedCommits,
    Diff(DiffType),
    LoadStagedText(Arc<RelPath>),
    LoadCommittedText(Arc<RelPath>),
    RefreshStatuses,
    ReloadBufferDiffBases,
    Checkpoint,
    RestoreCheckpoint(u64),
    CompareCheckpoints(u64, u64),
    DiffCheckpoints(u64, u64),
    Barrier,
}

/// Why a request cannot be answered.
#[derive(Copy, Clone, Debug, PartialEq, Eq, Structural)]
pub enum GitRequestError {
    MissingRepository,
    NoAskPass,
}

impl GitRequestError {
    /// The error in words.
    pub fn text(self) -> (r: &'static str)
        ensures
            r@ == match self {
                GitRequestError::MissingRepository => "missing repository handle"@,
                GitRequestError::NoAskPass => "no askpass found"@,
            },
    {
        match self {
            GitRequestError::MissingRepository => "missing repository handle",
            GitRequestError::NoAskPass => "no askpass found",
        }
    }
}

/// A name and an address, if there are both.
pub open spec fn both(name: Option<String>, email: Option<String>) -> Option<(String, String)> {
    match (name, email) {
        (Some(name), Some(email)) => Some((name, email)),
        _ => None,
    }
}

/// The command that answers a request.
pub open spec fn command_for(request: GitRequest) -> GitCommand {
    match request {
        GitRequest::Stage(paths) => GitCommand::StagePaths(paths),
        GitRequest::Unstage(paths) => GitCommand::UnstagePaths(paths),
        GitRequest::SetIndexText { path, text } => GitCommand::SetIndexText { path, content: text },
        GitRequest::Commit { message, name, email, amend } => GitCommand::Commit {
            message,
            name_and_email: both(name, email),
            amend: amend == Some(true),
        },
        GitRequest::GetBranches => GitCommand::Branches,
        GitRequest::CreateBranch(name) => GitCommand::CreateBranch(name),
        GitRequest::ChangeBranch(name) => GitCommand::ChangeBranch(name),
        GitRequest::Show(commit) => GitCommand::Show(commit),
        GitRequest::LoadCommitDiff(commit) => GitCommand::LoadCommitDiff(commit),
        GitRequest::Reset { commit, mode } => GitCommand::Reset { commit, mode },
        GitRequest::CheckoutFiles { commit, paths } => GitCommand::CheckoutFiles { commit, paths },
        GitRequest::OpenCommitMessageBuffer => GitCommand::OpenCommitBuffer,
        GitRequest::CheckForPushedCommits => GitCommand::CheckForPushedCommits,
        GitRequest::Diff(diff_type) => GitCommand::Diff(diff_type),
    }
}

/// The command that answers a request.
pub fn command_of(request: GitRequest) -> (r: GitCommand)
    ensures
        r == command_for(request),
        request matches GitRequest::Stage(paths) ==> r == GitCommand::StagePaths(paths),
        request matches GitRequest::Unstage(paths) ==> r == GitCommand::UnstagePaths(paths),
{
    match request {
        GitRequest::Stage(paths) => GitCommand::StagePaths(paths),
        GitRequest::Unstage(paths) => GitCommand::UnstagePaths(paths),
        GitRequest::SetIndexText { path, text } => GitCommand::SetIndexText { path, content: text },
        GitRequest::Commit { message, name, email, amend } => GitCommand::Commit {
            message,
            name_and_email: match (name, email) {
                (Some(name), Some(email)) => Some((name, email)),
                _ => None,
            },
            amend: match amend {
                Some(amend) => amend,
                None => false,
            },
        },
        GitRequest::GetBranches => GitCommand::Branches,
        GitRequest::CreateBranch(name) => GitCommand::CreateBranch(name),
        GitRequest::ChangeBranch(name) => GitCommand::ChangeBranch(name),
        GitRequest::Show(commit) => GitCommand::Show(commit),
        GitRequest::LoadCommitDiff(commit) => GitCommand::LoadCommitDiff(commit),
        GitRequest::Reset { commit, mode } => GitCommand::Reset { commit, mode },
        GitRequest::CheckoutFiles { commit, paths } => GitCommand::CheckoutFiles { commit, paths },
        GitRequest::OpenCommitMessageBuffer => GitCommand::OpenCommitBuffer,
        GitRequest::CheckForPushedCommits => GitCommand::CheckForPushedCommits,
        GitRequest::Diff(diff_type) => GitCommand::Diff(diff_type),
    }
}

/// What is shown while a command runs.
pub open spec fn status_of(command: GitCommand) -> Option<Seq<char>> {
    match command {
        GitCommand::Commit { .. } => Some("git commit"@),
        GitCommand::CheckoutFiles { commit, .. } => Some("git checkout "@ + commit@),
        GitCommand::CreateBranch(name) => Some("git switch -c "@ + name@),
        GitCommand::ChangeBranch(name) => Some("git switch "@ + name@),
        _ => None,
    }
}

/// What a command makes needless of the commands before it.
pub open spec fn key_of(command: GitCommand) -> Option<GitJobKey> {
    match command {
        GitCommand::SetIndexText { path, .. } => Some(GitJobKey::WriteIndex(path)),
        GitCommand::RefreshStatuses => Some(GitJobKey::RefreshStatuses),
        GitCommand::ReloadBufferDiffBases => Some(GitJobKey::ReloadBufferDiffBases),
        _ => None,
    }
}

fn followed_by(start: &str, end: &str) -> (r: String)
    ensures
        r@ == start@ + end@,
{
    let mut r = copy_text(start);
    r.push_str(end);
    r
}

impl GitCommand {
    /// What is shown while the command runs.
    pub fn status(&self) -> (r: Option<String>)
        ensures
            match r {
                Some(text) => status_of(*self) == Some(text@),
                None => status_of(*self) is None,
            },
    {
        match self {
            GitCommand::Commit { .. } => Some("git commit".to_string()),
            GitCommand::CheckoutFiles { commit, .. } => Some(
                followed_by("git checkout ", commit.as_str()),
            ),
            GitCommand::CreateBranch(name) => Some(followed_by("git switch -c ", name.as_str())),
            GitCommand::ChangeBranch(name) => Some(followed_by("git switch ", name.as_str())),
            _ => None,
        }
    }

    /// The command as a job that waits to run.
    pub fn job(&self, id: u64) -> (r: GitJob)
        ensures
            r.id == id,
            r.key == key_of(*self),
    {
        let key: Option<GitJobKey> = match self {
            GitCommand::SetIndexText { path, .. } => Some(GitJobKey::WriteIndex(arc_clone(path))),
            GitCommand::RefreshStatuses => Some(GitJobKey::RefreshStatuses),
            GitCommand::ReloadBufferDiffBases => Some(GitJobKey::ReloadBufferDiffBases),
            _ => None,
        };
        GitJob { id, key }
    }
}

/// Who a request comes from: the peer that sent it first, if it was passed on.
pub fn requester(sender_id: PeerId, original_sender_id: Option<PeerId>) -> (r: PeerId)
    ensures
        r == match original_sender_id {
            Some(id) => id,
            None => sender_id,
        },
{
    match original_sender_id {
        Some(id) => id,
        None => sender_id,
    }
}

impl GitStore {
    /// The place of the repository that a request is about.
    pub fn repository_for_request(&self, id: RepositoryId) -> (r: Result<usize, GitRequestError>)
        ensures
            match r {
                Ok(i) => i == repository_index(self.repositories@, id) && i
                    < self.repositories@.len() && self.repositories@[i as int].id == id,
                Err(error) => error == GitRequestError::MissingRepository && forall|k: int|
                    0 <= k < self.repositories@.len() ==> (#[trigger] self.repositories@[k]).id
                        != id,
            },
    {
        let i: usize = self.find_repository(id);
        if i < self.repositories.len() {
            Ok(i)
        } else {
            Err(GitRequestError::MissingRepository)
        }
    }
}

/// Those who can be asked for a password, by number. One that is being asked is not
/// among them.
#[derive(Debug)]
pub struct AskPassDelegates<D> {
    pub delegates: VecMap<u64, D>,
}

impl<D> AskPassDelegates<D> {
    /// Takes out the one to ask.
    pub fn begin_askpass(&mut self, askpass_id: u64) -> (r: Result<D, GitRequestError>)
        requires
            old(self).delegates.wf(),
        ensures
            final(self).delegates.wf(),
            final(self).delegates@ == old(self).delegates@.remove(askpass_id),
            match r {
                Ok(delegate) => old(self).delegates@.contains_key(askpass_id) && delegate == old(
                    self,
                ).delegates@[askpass_id],
                Err(error) => error == GitRequestError::NoAskPass && !old(
                    self,
                ).delegates@.contains_key(askpass_id),
            },
    {
        match self.delegates.remove(&askpass_id) {
            Some(delegate) => Ok(delegate),
            None => Err(GitRequestError::NoAskPass),
        }
    }

    /// Puts back the one that was asked.
    pub fn end_askpass(&mut self, askpass_id: u64, delegate: D)
        requires
            old(self).delegates.wf(),
        ensures
            final(self).delegates.wf(),
            final(self).delegates@ == old(self).delegates@.insert(askpass_id, delegate),
    {
        let _ = self.delegates.insert(askpass_id, delegate);
    }
}

/// One that was asked and answered can be asked again.
pub proof fn law_asked_delegate_comes_back<D>(delegates: Map<u64, D>, askpass_id: u64)
    requires
        delegates.contains_key(askpass_id),
    ensures
        delegates.remove(askpass_id).insert(askpass_id, delegates[askpass_id]) == delegates,
{
    assert(delegates.remove(askpass_id).insert(askpass_id, delegates[askpass_id]) =~= delegates);
}

/// Files that a peer asks to stage are staged, as by the command that stages them here, and
/// those that it asks to unstage are unstaged.
pub proof fn law_asked_files_are_staged(
    paths: Vec<RelPath>,
    open: Vec<Option<OpenBuffer>>,
    staging: GitCommand,
    unstaging: GitCommand,
    stage_plan: Option<StagePlan>,
    unstage_plan: Option<StagePlan>,
)
    requires
        open@.len() == paths@.len(),
        call_ensures(command_of, (GitRequest::Stage(paths),), staging),
        call_ensures(command_of, (GitRequest::Unstage(paths),), unstaging),
        call_ensures(stage_entries, (paths, &open), stage_plan),
        call_ensures(unstage_entries, (paths, &open), unstage_plan),
    ensures
        staging == GitCommand::StagePaths(paths),
        unstaging == GitCommand::UnstagePaths(paths),
        paths@.len() > 0 ==> stage_plan is Some && stage_plan->0.command == staging,
        paths@.len() > 0 ==> unstage_plan is Some && unstage_plan->0.command == unstaging,
        paths@.len() == 0 ==> stage_plan is None && unstage_plan is None,
{
}

/// The author of a commit is named only where both the name and the address are known, and
/// the last commit is amended only where that is said.
pub proof fn law_commit_is_as_asked(
    message: String,
    name: Option<String>,
    email: Option<String>,
    amend: Option<bool>,
    command: GitCommand,
)
    requires
        call_ensures(
            command_of,
            (GitRequest::Commit { message, name, email, amend },),
            command,
        ),
    ensures
        command matches GitCommand::Commit { message: told, name_and_email, amend: amends } && {
            &&& told == message
            &&& amends <==> amend == Some(true)
            &&& name_and_email is Some <==> name is Some && email is Some
            &&& name_and_email matches Some((known, address)) ==> name == Some(known) && email
                == Some(address)
        },
{
}

/// What a peer asks of branches, commits, files and texts is done with the very names, paths
/// and texts that it gave.
pub proof fn law_requests_keep_what_they_name(
    name: String,
    paths: Vec<RelPath>,
    path: Arc<RelPath>,
    text: Option<String>,
    mode: ResetMode,
    diff_type: DiffType,
    r: GitCommand,
)
    ensures
        call_ensures(command_of, (GitRequest::CreateBranch(name),), r) ==> r
            == GitCommand::CreateBranch(name),
        call_ensures(command_of, (GitRequest::ChangeBranch(name),), r) ==> r
            == GitCommand::ChangeBranch(name),
        call_ensures(command_of, (GitRequest::Show(name),), r) ==> r == GitCommand::Show(name),
        call_ensures(command_of, (GitRequest::LoadCommitDiff(name),), r) ==> r
            == GitCommand::LoadCommitDiff(name),
        call_ensures(command_of, (GitRequest::Reset { commit: name, mode },), r) ==> r
            == (GitCommand::Reset { commit: name, mode }),
        call_ensures(command_of, (GitRequest::CheckoutFiles { commit: name, paths },), r) ==> r
            == (GitCommand::CheckoutFiles { commit: name, paths }),
        call_ensures(command_of, (GitRequest::SetIndexText { path, text },), r) ==> r
            == (GitCommand::SetIndexText { path, content: text }),
        call_ensures(command_of, (GitRequest::Diff(diff_type),), r) ==> r == GitCommand::Diff(
            diff_type,
        ),
        call_ensures(command_of, (GitRequest::GetBranches,), r) ==> r == GitCommand::Branches,
        call_ensures(command_of, (GitRequest::OpenCommitMessageBuffer,), r) ==> r
            == GitCommand::OpenCommitBuffer,
        call_ensures(command_of, (GitRequest::CheckForPushedCommits,), r) ==> r
            == GitCommand::CheckForPushedCommits,
{
}

/// What is shown while a command runs is the git command that it stands for. Only commits,
/// checkouts and switches of branches are shown.
pub proof fn law_shown_commands(
    command: GitCommand,
    shown: Option<String>,
)
    requires
        call_ensures(GitCommand::status, (&command,), shown),
    ensures
        shown is Some <==> (command is Commit || command is CheckoutFiles || command is CreateBranch
            || command is ChangeBranch),
        command is Commit ==> shown->0@ == "git commit"@,
        command matches GitCommand::CheckoutFiles { commit, .. } ==> shown->0@
            == "git checkout "@ + commit@,
        command matches GitCommand::CreateBranch(name) ==> shown->0@ == "git switch -c "@ + name@,
        command matches GitCommand::ChangeBranch(name) ==> shown->0@ == "git switch "@ + name@,
{
}

/// A command makes one before it needless only where both write the text of one file to the
/// index, both refresh the statuses, or both read the texts again that buffers are compared
/// with.
pub proof fn law_needless_commands(
    earlier: GitCommand,
    later: GitCommand,
    a: u64,
    b: u64,
    first: GitJob,
    second: GitJob,
)
    requires
        call_ensures(GitCommand::job, (&earlier, a), first),
        call_ensures(GitCommand::job, (&later, b), second),
    ensures
        first.id == a,
        superseded(first, seq![second]) <==> match (earlier, later) {
            (
                GitCommand::SetIndexText { path: one, .. },
                GitCommand::SetIndexText { path: other, .. },
            ) => one@ == other@,
            (GitCommand::RefreshStatuses, GitCommand::RefreshStatuses) => true,
            (GitCommand::ReloadBufferDiffBases, GitCommand::ReloadBufferDiffBases) => true,
            _ => false,
        },
{
    assert(seq![second][0] == second);
}

} // verus!
