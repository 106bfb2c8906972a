//! What every agent has in common: a prompt, a command line, a preview that
//! grows with each line the agent prints, and a message when it fails.
//!
//! The agent itself runs as a process outside this library. The library
//! says what to run and what to make of the output.

use vstd::prelude::*;
use crate::amp;
use crate::amp::AmpClient;
use crate::config::{BackendType, CURRENT_BACKEND};
use crate::opencode;
use crate::opencode::OpenCodeClient;
use crate::text::{newline, push_text, trim, trim_str};

verus! {

/// A program and the arguments to run it with.
pub struct AgentCommand {
    pub program: String,
    pub args: Vec<String>,
}

/// A command, as a mathematical value.
pub struct CommandView {
    pub program: Seq<char>,
    pub args: Seq<Seq<char>>,
}

impl View for AgentCommand {
    type V = CommandView;

    open spec fn view(&self) -> CommandView {
        CommandView {
            program: self.program@,
            args: Seq::new(self.args@.len(), |i: int| self.args@[i]@),
        }
    }
}

/// The prompt of the agent `kind` for one function.
pub open spec fn prompt_of(
    kind: BackendType,
    line: u32,
    character: u32,
    language_id: Seq<char>,
    file_contents: Seq<char>,
    output_path: Seq<char>,
    function_signature: Seq<char>,
) -> Seq<char> {
    match kind {
        BackendType::Amp => amp::prompt_text(line, character, language_id, file_contents),
        BackendType::OpenCode => opencode::prompt_text(
            line,
            character,
            language_id,
            file_contents,
            output_path,
        ),
    }
}

/// The command line that runs the agent `kind` on `prompt`.
pub open spec fn command_of(kind: BackendType, prompt: Seq<char>) -> CommandView {
    match kind {
        BackendType::Amp => amp::command_line(prompt),
        BackendType::OpenCode => opencode::command_line(prompt),
    }
}

/// What is said when the agent `kind` has failed, after it wrote `stderr`
/// to its error output.
pub open spec fn failure_of(
    kind: BackendType,
    stderr: Seq<char>,
    printed: Seq<char>,
    exit_code: Option<i32>,
) -> Seq<char> {
    match kind {
        BackendType::Amp => amp::failure_text(stderr),
        BackendType::OpenCode => opencode::failure_text(stderr),
    }
}

/// An agent that implements functions.
pub trait Backend {
    /// Which agent this is.
    spec fn kind(&self) -> BackendType;

    /// Which agent this is.
    fn backend_type(&self) -> (r: BackendType)
        ensures
            r == self.kind(),
    ;

    /// The prompt for one function. Line and character are counted from
    /// zero.
    fn prompt(
        &self,
        line: u32,
        character: u32,
        language_id: &str,
        file_contents: &str,
        output_path: &str,
        function_signature: &str,
    ) -> (r: String)
        ensures
            r@ == prompt_of(
                self.kind(),
                line,
                character,
                language_id@,
                file_contents@,
                output_path@,
                function_signature@,
            ),
    ;

    /// The command line that runs the agent on `prompt`.
    fn command(&self, prompt: &str) -> (r: AgentCommand)
        ensures
            r@ == command_of(self.kind(), prompt@),
    ;

    /// What is said when the agent has exited with a failure.
    fn failure(&self, stderr: &str, printed: &str, exit_code: Option<i32>) -> (r: String)
        ensures
            r@ == failure_of(self.kind(), stderr@, printed@, exit_code),
    ;
}

/// Takes one more line of what the agent prints: the line and a line feed
/// are added to `printed`, and the preview is all of it, trimmed.
pub fn next_preview(printed: &mut String, line: &str) -> (preview: String)
    ensures
        final(printed)@ == old(printed)@ + line@ + newline(),
        preview@ == trim(final(printed)@),
{
    push_text(printed, line);
    printed.push('\n');
    assert(printed@ =~= old(printed)@ + line@ + newline());
    trim_str(printed.as_str())
}

/// One of the agents.
pub enum AnyBackend {
    Amp(AmpClient),
    OpenCode(OpenCodeClient),
}

impl Backend for AnyBackend {
    open spec fn kind(&self) -> BackendType {
        match self {
            AnyBackend::Amp(_) => BackendType::Amp,
            AnyBackend::OpenCode(_) => BackendType::OpenCode,
        }
    }

    fn backend_type(&self) -> (r: BackendType) {
        match self {
            AnyBackend::Amp(_) => BackendType::Amp,
            AnyBackend::OpenCode(_) => BackendType::OpenCode,
        }
    }

    fn prompt(
        &self,
        line: u32,
        character: u32,
        language_id: &str,
        file_contents: &str,
        output_path: &str,
        function_signature: &str,
    ) -> (r: String) {
        match self {
            AnyBackend::Amp(client) => client.prompt(
                line,
                character,
                language_id,
                file_contents,
                output_path,
                function_signature,
            ),
            AnyBackend::OpenCode(client) => client.prompt(
                line,
                character,
                language_id,
                file_contents,
                output_path,
                function_signature,
            ),
        }
    }

    fn command(&self, prompt: &str) -> (r: AgentCommand) {
        match self {
            AnyBackend::Amp(client) => client.command(prompt),
            AnyBackend::OpenCode(client) => client.command(prompt),
        }
    }

    fn failure(&self, stderr: &str, printed: &str, exit_code: Option<i32>) -> (r: String) {
        match self {
            AnyBackend::Amp(client) => client.failure(stderr, printed, exit_code),
            AnyBackend::OpenCode(client) => client.failure(stderr, printed, exit_code),
        }
    }
}

/// The agent of the kind `kind`.
pub fn backend_of(kind: BackendType) -> (r: AnyBackend)
    ensures
        r.kind() == kind,
{
    match kind {
        BackendType::Amp => AnyBackend::Amp(AmpClient::new()),
        BackendType::OpenCode => AnyBackend::OpenCode(OpenCodeClient::new()),
    }
}

/// The agent that the configuration names.
pub fn create_backend() -> (r: AnyBackend)
    ensures
        r.kind() == CURRENT_BACKEND,
{
    backend_of(CURRENT_BACKEND)
}

} // verus!
