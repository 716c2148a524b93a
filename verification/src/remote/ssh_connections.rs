//! Connections over SSH, and what is asked while one is made.

use vstd::prelude::*;
use crate::path::path_before;
use crate::task::expansion::optional_text;
use crate::text::{copy_text, copy_texts, texts};

verus! {

/// The settings for connections over SSH.
#[derive(Debug)]
pub struct SshSettings {
    pub ssh_connections: Option<Vec<SshConnection>>,
    /// Whether the configuration of SSH is read for connections.
    pub read_ssh_config: bool,
}

/// A connection over SSH.
#[derive(Debug)]
pub struct SshConnection {
    pub host: String,
    pub username: Option<String>,
    pub port: Option<u16>,
    pub args: Vec<String>,
    pub projects: Vec<SshProject>,
    /// What the server is called.
    pub nickname: Option<String>,
    /// Whether the program for the server goes over this connection, in place of being
    /// fetched by the server.
    pub upload_binary_over_ssh: Option<bool>,
}

/// A project on another machine.
#[derive(Debug)]
pub struct SshProject {
    pub paths: Vec<String>,
}

/// Whether projects are in order, by their paths, and each there once.
pub open spec fn projects_in_order(projects: Seq<SshProject>) -> bool {
    forall|i: int, j: int|
        #![trigger projects[i], projects[j]]
        0 <= i < j < projects.len() ==> path_before(
            texts(projects[i].paths@),
            texts(projects[j].paths@),
        )
}

impl SshConnection {
    /// The projects are in order, each there once.
    pub open spec fn wf(&self) -> bool {
        projects_in_order(self.projects@)
    }
}

/// Whether the connections that are set are as they should be.
pub open spec fn connections_wf(connections: Option<Vec<SshConnection>>) -> bool {
    connections matches Some(all) ==> forall|i: int|
        0 <= i < all@.len() ==> (#[trigger] all@[i]).wf()
}

/// What a file says of connections over SSH.
#[derive(Debug)]
pub struct RemoteSettingsContent {
    pub ssh_connections: Option<Vec<SshConnection>>,
    pub read_ssh_config: Option<bool>,
}

impl SshSettings {
    /// The projects of each connection are in order, each there once.
    pub open spec fn wf(&self) -> bool {
        connections_wf(self.ssh_connections)
    }

    /// The settings that a file stands for. The configuration of SSH is read unless the
    /// file says otherwise.
    pub fn load(content: RemoteSettingsContent) -> (r: SshSettings)
        requires
            connections_wf(content.ssh_connections),
        ensures
            r.ssh_connections == content.ssh_connections,
            r.wf(),
            r.read_ssh_config == (content.read_ssh_config != Some(false)),
    {
        SshSettings {
            ssh_connections: content.ssh_connections,
            read_ssh_config: match content.read_ssh_config {
                Some(read) => read,
                None => true,
            },
        }
    }

    /// The connections, none where none are set.
    pub fn ssh_connections(&self) -> (r: &[SshConnection])
        ensures
            r@ == (match self.ssh_connections {
                Some(connections) => connections@,
                None => Seq::empty(),
            }),
    {
        match &self.ssh_connections {
            Some(connections) => connections.as_slice(),
            None => &[],
        }
    }
}

/// What is asked while a connection is made.
#[derive(Debug)]
pub struct SshPrompt {
    pub connection_string: String,
    pub nickname: Option<String>,
    pub status_message: Option<String>,
    /// Who waits for an answer.
    pub prompt: Option<u64>,
    /// Who waits to be told that the connection is given up.
    pub cancellation: Option<u64>,
}

impl SshPrompt {
    /// Answers with what was written. Gives back who gets it, if somebody waits for it:
    /// only then is what was written cleared.
    pub fn confirm(&mut self) -> (r: Option<u64>)
        ensures
            r == old(self).prompt,
            final(self).prompt is None,
            final(self).cancellation == old(self).cancellation,
            final(self).connection_string == old(self).connection_string,
            final(self).nickname == old(self).nickname,
            optional_text(final(self).status_message) == (if r is Some {
                Some("Connecting"@)
            } else {
                optional_text(old(self).status_message)
            }),
    {
        match self.prompt.take() {
            Some(waiting) => {
                self.status_message = Some(copy_text("Connecting"));
                Some(waiting)
            },
            None => None,
        }
    }

    /// Gives the connection up. Gives back who is to be told, once.
    pub fn cancel(&mut self) -> (r: Option<u64>)
        ensures
            r == old(self).cancellation,
            *final(self) == (SshPrompt { cancellation: None, ..*old(self) }),
    {
        self.cancellation.take()
    }

    /// What is shown of how far the connection has come.
    pub fn status_text(&self) -> (r: Option<String>)
        ensures
            optional_text(r) == (match self.status_message {
                Some(message) => Some(message@ + seq!['…']),
                None => None,
            }),
    {
        match &self.status_message {
            Some(message) => {
                let mut text = copy_text(message.as_str());
                text.push('…');
                assert(text@ =~= message@ + seq!['…']);
                Some(text)
            },
            None => None,
        }
    }
}

/// What stands above a question: what the server is called, what it is where it is called
/// otherwise, and the paths that are to be opened.
#[derive(Debug)]
pub struct SshConnectionHeader {
    pub main_label: String,
    pub meta_label: Option<String>,
    pub paths: Vec<String>,
}

/// The window in which is asked.
#[derive(Debug)]
pub struct SshConnectionModal {
    pub prompt: SshPrompt,
    pub paths: Vec<String>,
    pub finished: bool,
}

impl SshConnectionModal {
    /// Lets the window go away.
    pub fn finished(&mut self)
        ensures
            *final(self) == (SshConnectionModal { finished: true, ..*old(self) }),
    {
        self.finished = true;
    }

    /// Gives the connection up and lets the window go away. Gives back who is to be told.
    pub fn dismiss(&mut self) -> (r: Option<u64>)
        ensures
            r == old(self).prompt.cancellation,
            final(self).finished,
            final(self).prompt == (SshPrompt { cancellation: None, ..old(self).prompt }),
            final(self).paths == old(self).paths,
    {
        let told = self.prompt.cancel();
        self.finished();
        told
    }

    /// Whether the window may go away.
    pub fn on_before_dismiss(&self) -> (r: bool)
        ensures
            r == self.finished,
    {
        self.finished
    }

    /// What stands above the question.
    pub fn header(&self) -> (r: SshConnectionHeader)
        ensures
            match self.prompt.nickname {
                Some(nickname) => r.main_label@ == nickname@ && optional_text(r.meta_label)
                    == Some(seq!['('] + self.prompt.connection_string@ + seq![')']),
                None => r.main_label@ == self.prompt.connection_string@ && r.meta_label is None,
            },
            texts(r.paths@) == texts(self.paths@),
    {
        let (main_label, meta_label) = match &self.prompt.nickname {
            Some(nickname) => {
                let mut meta = String::new();
                meta.push('(');
                meta.push_str(self.prompt.connection_string.as_str());
                meta.push(')');
                assert(meta@ =~= seq!['('] + self.prompt.connection_string@ + seq![')']);
                (copy_text(nickname.as_str()), Some(meta))
            },
            None => (copy_text(self.prompt.connection_string.as_str()), None),
        };
        SshConnectionHeader { main_label, meta_label, paths: copy_texts(&self.paths) }
    }
}

/// Whether a connection over SSH is being made.
pub fn is_connecting_over_ssh(active_modal: Option<&SshConnectionModal>) -> (r: bool)
    ensures
        r == active_modal is Some,
{
    active_modal.is_some()
}

/// The heading of a connection shows its nickname, with the address in brackets, or else the
/// address alone. A status is shown as going on.
pub proof fn law_what_a_connection_shows(
    modal: SshConnectionModal,
    header: SshConnectionHeader,
    status: Option<String>,
    content: RemoteSettingsContent,
    settings: SshSettings,
)
    requires
        call_ensures(SshConnectionModal::header, (&modal,), header),
        call_ensures(SshPrompt::status_text, (&modal.prompt,), status),
        call_ensures(SshSettings::load, (content,), settings),
    ensures
        modal.prompt.nickname is None ==> header.main_label@ == modal.prompt.connection_string@
            && header.meta_label is None,
        modal.prompt.nickname is Some ==> header.main_label@ == modal.prompt.nickname->0@
            && header.meta_label is Some && header.meta_label->0@ == seq!['(']
            + modal.prompt.connection_string@ + seq![')'],
        header.paths@.len() == modal.paths@.len(),
        forall|i: int|
            0 <= i < header.paths@.len() ==> (#[trigger] header.paths@[i])@ == modal.paths@[i]@,
        status is Some == modal.prompt.status_message is Some,
        status matches Some(text) ==> text@ == modal.prompt.status_message->0@.push('…'),
        settings.ssh_connections == content.ssh_connections,
        settings.read_ssh_config == false <==> content.read_ssh_config == Some(false),
{
    assert(texts(header.paths@).len() == texts(modal.paths@).len());
    assert forall|i: int| 0 <= i < header.paths@.len() implies (#[trigger] header.paths@[i])@
        == modal.paths@[i]@ by {
        assert(texts(header.paths@)[i] == texts(modal.paths@)[i]);
    }
    if let Some(text) = status {
        assert(text@ =~= modal.prompt.status_message->0@.push('…'));
    }
}

/// What was asked is answered once, and what can be cancelled is cancelled once.
pub proof fn law_prompts_are_answered_once(
    prompt: &mut SshPrompt,
    again: &mut SshPrompt,
    modal: &mut SshConnectionModal,
    answered: Option<u64>,
    twice: Option<u64>,
    cancelled: Option<u64>,
)
    requires
        call_ensures(SshPrompt::confirm, (prompt,), answered),
        *old(again) == *final(prompt),
        call_ensures(SshPrompt::confirm, (again,), twice),
        call_ensures(SshConnectionModal::dismiss, (modal,), cancelled),
    ensures
        answered == old(prompt).prompt,
        answered is Some ==> final(prompt).status_message is Some
            && final(prompt).status_message->0@ == "Connecting"@,
        twice is None,
        cancelled == old(modal).prompt.cancellation,
        final(modal).finished && final(modal).prompt.cancellation is None,
        final(modal).prompt.prompt == old(modal).prompt.prompt,
{
}

} // verus!
