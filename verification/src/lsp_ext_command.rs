//! What some language servers can do beyond the common protocol.

use vstd::prelude::*;
use crate::rope::position::PointUtf16;
use crate::text::{copy_text, str_eq};
use crate::text_map::TextMap;

verus! {

/// Asks what a macro stands for.
pub struct LspExtExpandMacro {}

impl LspExtExpandMacro {
    /// What the server knows it by.
    pub fn method() -> (r: &'static str)
        ensures
            r@ == "rust-analyzer/expandMacro"@,
    {
        "rust-analyzer/expandMacro"
    }
}

/// What a macro stands for.
#[derive(Debug)]
pub struct ExpandedMacro {
    pub name: String,
    pub expansion: String,
}

impl Default for ExpandedMacro {
    fn default() -> (r: ExpandedMacro)
        ensures
            r.name@ == ""@,
            r.expansion@ == ""@,
    {
        ExpandedMacro { name: copy_text(""), expansion: copy_text("") }
    }
}

fn is_empty_text(text: &str) -> (r: bool)
    ensures
        r == (text@.len() == 0),
{
    proof {
        reveal_strlit("");
        if text@.len() == 0 {
            assert(text@ =~= ""@);
        }
    }
    str_eq(text, "")
}

impl ExpandedMacro {
    /// Whether there is nothing that the macro stands for.
    pub fn is_empty(&self) -> (r: bool)
        ensures
            r == (self.name@.len() == 0 && self.expansion@.len() == 0),
    {
        is_empty_text(self.name.as_str()) && is_empty_text(self.expansion.as_str())
    }
}

/// A request on a place in a buffer, as a peer is told of it. The place is one that moves
/// with the text.
#[derive(Debug)]
pub struct PositionRequest {
    pub project_id: u64,
    pub buffer_id: u64,
    pub position: Option<u64>,
}

/// A peer told of a request on no place.
#[derive(Copy, Clone, Debug, PartialEq, Eq, Structural)]
pub struct InvalidPosition;

/// A request on a place, as a peer is told of it.
pub fn position_to_proto(project_id: u64, buffer_id: u64, anchor: u64) -> (r: PositionRequest)
    ensures
        r == (PositionRequest { project_id, buffer_id, position: Some(anchor) }),
{
    PositionRequest { project_id, buffer_id, position: Some(anchor) }
}

/// The place of a request that a peer told of. `resolved` is where it is in the buffer.
pub fn position_from_proto(message: &PositionRequest, resolved: PointUtf16) -> (r: Result<
    PointUtf16,
    InvalidPosition,
>)
    ensures
        r == (if message.position is Some {
            Ok::<PointUtf16, InvalidPosition>(resolved)
        } else {
            Err(InvalidPosition)
        }),
{
    match message.position {
        Some(_) => Ok(resolved),
        None => Err(InvalidPosition),
    }
}

/// Asks what a macro stands for.
#[derive(Copy, Clone, Debug, PartialEq, Eq, Structural)]
pub struct ExpandMacro {
    pub position: PointUtf16,
}

/// What a macro stands for, as a peer is told of it.
#[derive(Debug)]
pub struct ExpandMacroResponse {
    pub name: String,
    pub expansion: String,
}

impl ExpandMacro {
    pub fn display_name(&self) -> (r: &'static str)
        ensures
            r@ == "Expand macro"@,
    {
        "Expand macro"
    }

    /// What the server said. Where it said nothing the macro stands for nothing.
    pub fn response_from_lsp(self, message: Option<ExpandedMacro>) -> (r: ExpandedMacro)
        ensures
            match message {
                Some(message) => r == message,
                None => r.name@ == ""@ && r.expansion@ == ""@,
            },
    {
        match message {
            Some(message) => ExpandedMacro { name: message.name, expansion: message.expansion },
            None => ExpandedMacro::default(),
        }
    }

    pub fn response_to_proto(response: ExpandedMacro) -> (r: ExpandMacroResponse)
        ensures
            r == (ExpandMacroResponse { name: response.name, expansion: response.expansion }),
    {
        ExpandMacroResponse { name: response.name, expansion: response.expansion }
    }

    pub fn response_from_proto(self, message: ExpandMacroResponse) -> (r: ExpandedMacro)
        ensures
            r == (ExpandedMacro { name: message.name, expansion: message.expansion }),
    {
        ExpandedMacro { name: message.name, expansion: message.expansion }
    }
}

/// Asks where the documentation of something is.
pub struct LspOpenDocs {}

impl LspOpenDocs {
    /// What the server knows it by.
    pub fn method() -> (r: &'static str)
        ensures
            r@ == "experimental/externalDocs"@,
    {
        "experimental/externalDocs"
    }
}

/// Where the documentation of something is.
#[derive(Debug)]
pub struct DocsUrls {
    pub web: Option<String>,
    pub local: Option<String>,
}

impl Default for DocsUrls {
    fn default() -> (r: DocsUrls)
        ensures
            r == (DocsUrls { web: None, local: None }),
    {
        DocsUrls { web: None, local: None }
    }
}

impl DocsUrls {
    /// Whether there is no documentation.
    pub fn is_empty(&self) -> (r: bool)
        ensures
            r == (self.web is None && self.local is None),
    {
        self.web.is_none() && self.local.is_none()
    }
}

/// Asks where the documentation of something is.
#[derive(Copy, Clone, Debug, PartialEq, Eq, Structural)]
pub struct OpenDocs {
    pub position: PointUtf16,
}

/// Where the documentation of something is, as a peer is told of it.
#[derive(Debug)]
pub struct OpenDocsResponse {
    pub web: Option<String>,
    pub local: Option<String>,
}

impl OpenDocs {
    pub fn display_name(&self) -> (r: &'static str)
        ensures
            r@ == "Open docs"@,
    {
        "Open docs"
    }

    /// What the server said. Where it said nothing there is no documentation.
    pub fn response_from_lsp(self, message: Option<DocsUrls>) -> (r: DocsUrls)
        ensures
            r == (match message {
                Some(message) => message,
                None => DocsUrls { web: None, local: None },
            }),
    {
        match message {
            Some(message) => DocsUrls { web: message.web, local: message.local },
            None => DocsUrls::default(),
        }
    }

    pub fn response_to_proto(response: DocsUrls) -> (r: OpenDocsResponse)
        ensures
            r == (OpenDocsResponse { web: response.web, local: response.local }),
    {
        OpenDocsResponse { web: response.web, local: response.local }
    }

    pub fn response_from_proto(self, message: OpenDocsResponse) -> (r: DocsUrls)
        ensures
            r == (DocsUrls { web: message.web, local: message.local }),
    {
        DocsUrls { web: message.web, local: message.local }
    }
}

/// Asks for the other file of a source and its header.
pub struct LspSwitchSourceHeader {}

impl LspSwitchSourceHeader {
    /// What the server knows it by.
    pub fn method() -> (r: &'static str)
        ensures
            r@ == "textDocument/switchSourceHeader"@,
    {
        "textDocument/switchSourceHeader"
    }
}

/// The other file of a source and its header.
#[derive(Debug)]
pub struct SwitchSourceHeaderResult(pub String);

impl Default for SwitchSourceHeaderResult {
    fn default() -> (r: SwitchSourceHeaderResult)
        ensures
            r.0@ == ""@,
    {
        SwitchSourceHeaderResult(copy_text(""))
    }
}

/// Asks for the other file of a source and its header.
#[derive(Copy, Clone, Debug, PartialEq, Eq, Structural)]
pub struct SwitchSourceHeader;

impl Default for SwitchSourceHeader {
    fn default() -> (r: SwitchSourceHeader)
        ensures
            r == SwitchSourceHeader,
    {
        SwitchSourceHeader
    }
}

/// A request on a buffer, as a peer is told of it.
#[derive(Copy, Clone, Debug, PartialEq, Eq, Structural)]
pub struct BufferRequest {
    pub project_id: u64,
    pub buffer_id: u64,
}

impl SwitchSourceHeader {
    pub fn display_name(&self) -> (r: &'static str)
        ensures
            r@ == "Switch source header"@,
    {
        "Switch source header"
    }

    /// What the server said. Where it said nothing the file has no name.
    pub fn response_from_lsp(self, message: Option<SwitchSourceHeaderResult>) -> (r:
        SwitchSourceHeaderResult)
        ensures
            match message {
                Some(message) => r == message,
                None => r.0@ == ""@,
            },
    {
        match message {
            Some(message) => SwitchSourceHeaderResult(message.0),
            None => SwitchSourceHeaderResult::default(),
        }
    }

    pub fn to_proto(&self, project_id: u64, buffer_id: u64) -> (r: BufferRequest)
        ensures
            r == (BufferRequest { project_id, buffer_id }),
    {
        BufferRequest { project_id, buffer_id }
    }

    /// The file, as a peer is told of it.
    pub fn response_to_proto(response: SwitchSourceHeaderResult) -> (target_file: String)
        ensures
            target_file == response.0,
    {
        response.0
    }

    pub fn response_from_proto(self, target_file: String) -> (r: SwitchSourceHeaderResult)
        ensures
            r == SwitchSourceHeaderResult(target_file),
    {
        SwitchSourceHeaderResult(target_file)
    }
}

/// Asks where the module is that holds another.
#[derive(Copy, Clone, Debug, PartialEq, Eq, Structural)]
pub struct GoToParentModule {
    pub position: PointUtf16,
}

impl GoToParentModule {
    pub fn display_name(&self) -> (r: &'static str)
        ensures
            r@ == "Go to parent module"@,
    {
        "Go to parent module"
    }
}

/// Asks where the module is that holds another.
pub struct LspGoToParentModule {}

impl LspGoToParentModule {
    /// What the server knows it by.
    pub fn method() -> (r: &'static str)
        ensures
            r@ == "experimental/parentModule"@,
    {
        "experimental/parentModule"
    }
}

/// Asks what can be run in a file.
pub struct Runnables {}

impl Runnables {
    /// What the server knows it by.
    pub fn method() -> (r: &'static str)
        ensures
            r@ == "experimental/runnables"@,
    {
        "experimental/runnables"
    }
}

/// Something that can be run.
#[derive(Debug)]
pub struct Runnable {
    pub label: String,
    pub kind: RunnableKind,
    pub args: RunnableArgs,
}

/// How something is run.
#[derive(Copy, Clone, Debug, PartialEq, Eq, Structural)]
pub enum RunnableKind {
    Cargo,
    Shell,
}

/// How something is run, with all that is needed for it.
#[derive(Debug)]
pub enum RunnableArgs {
    Cargo(CargoRunnableArgs),
    Shell(ShellRunnableArgs),
}

/// What is needed to run something with Cargo.
#[derive(Debug)]
pub struct CargoRunnableArgs {
    pub environment: TextMap,
    pub cwd: String,
    /// The command that is run in place of Cargo.
    pub override_cargo: Option<String>,
    pub workspace_root: Option<String>,
    /// The arguments for Cargo.
    pub cargo_args: Vec<String>,
    /// The arguments for what Cargo runs.
    pub executable_args: Vec<String>,
}

/// What is needed to run something in a shell.
#[derive(Debug)]
pub struct ShellRunnableArgs {
    pub environment: TextMap,
    pub cwd: String,
    pub program: String,
    pub args: Vec<String>,
}

/// Asks what can be run, at a place or in all of a buffer.
#[derive(Copy, Clone, Debug, PartialEq, Eq, Structural)]
pub struct GetLspRunnables {
    pub buffer_id: u64,
    pub position: Option<u64>,
}

/// Tells the server to stop checking.
#[derive(Debug)]
pub struct LspExtCancelFlycheck {}

impl LspExtCancelFlycheck {
    /// What the server knows it by.
    pub fn method() -> (r: &'static str)
        ensures
            r@ == "rust-analyzer/cancelFlycheck"@,
    {
        "rust-analyzer/cancelFlycheck"
    }
}

/// Tells the server to check.
#[derive(Debug)]
pub struct LspExtRunFlycheck {}

impl LspExtRunFlycheck {
    /// What the server knows it by.
    pub fn method() -> (r: &'static str)
        ensures
            r@ == "rust-analyzer/runFlycheck"@,
    {
        "rust-analyzer/runFlycheck"
    }
}

/// Tells the server to forget what it found.
#[derive(Debug)]
pub struct LspExtClearFlycheck {}

impl LspExtClearFlycheck {
    /// What the server knows it by.
    pub fn method() -> (r: &'static str)
        ensures
            r@ == "rust-analyzer/clearFlycheck"@,
    {
        "rust-analyzer/clearFlycheck"
    }
}

} // verus!
