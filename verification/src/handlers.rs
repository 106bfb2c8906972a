//! What the server takes from the editor as a command, and what it says to
//! the editor about its jobs.

use vstd::prelude::*;
use crate::document_store::DocumentStore;
use crate::job_tracker::{
    capacity_message, new_job, with_job, JobTracker, MAX_CONCURRENT_JOBS_PER_FILE,
};
use crate::locator::signature_at;
use crate::text::{push_text, str_eq};
use crate::utils::extract_function_signature;

verus! {

/// The command that starts an implementation job.
pub const COMMAND_IMPL_FUNCTION: &'static str = "amp.implFunction";

/// The notification that reports the progress of a job.
pub const NOTIFICATION_IMPL_FUNCTION_PROGRESS: &'static str = "amp/implFunctionProgress";

/// The notification that reports the end of a job.
pub const NOTIFICATION_JOB_COMPLETED: &'static str = "amp/jobCompleted";

/// The notification that names the agent, once in a session.
pub const NOTIFICATION_BACKEND_INFO: &'static str = "agent/backendInfo";

/// The title of the code action that offers the command.
pub const CODE_ACTION_TITLE: &'static str = "Implement function with Amp";

/// The fewest arguments that the command takes: the URI of the document,
/// the line, the character, the version of the document and its language.
pub const COMMAND_ARGUMENTS: usize = 5;

/// The progress of a job: what the agent has printed so far, and the line
/// at which the job is tracked now. An empty preview tells that the line has
/// moved and nothing else.
#[derive(Debug, Clone)]
pub struct ImplFunctionProgressParams {
    pub job_id: String,
    pub uri: String,
    pub line: u32,
    pub preview: String,
}

/// The end of a job.
#[derive(Debug, Clone)]
pub struct JobCompletedParams {
    pub job_id: String,
    pub uri: String,
    pub success: bool,
    pub error: Option<String>,
}

/// The arguments of the command, as the code action hands them to the
/// editor and the editor hands them back.
#[derive(Debug, Clone)]
pub struct ImplFunctionArguments {
    pub uri: String,
    pub line: u32,
    pub character: u32,
    pub version: i32,
    pub language_id: String,
}

/// What a job starts from: the document as it was when the command came,
/// and the signature of the function that the job is to implement.
#[derive(Debug, Clone)]
pub struct StartedJob {
    pub text: String,
    pub version: i32,
    pub language_id: String,
    pub function_signature: String,
}

/// What the editor is told of a command that the server does not know.
pub open spec fn unknown_command_message(command: Seq<char>) -> Seq<char> {
    "Unknown command: "@ + command
}

/// What the editor is told of a command with too few arguments.
pub open spec fn missing_arguments_message() -> Seq<char> {
    "Missing arguments for amp.implFunction"@
}

/// What the editor is told of a command for a document that is not open.
pub open spec fn unknown_document_message() -> Seq<char> {
    "Document not found"@
}

/// Whether the server takes the command `command` with `argument_count`
/// arguments. It takes the one command it offers, with five arguments or
/// more. The error is what the editor is told, as invalid parameters.
pub fn accept_command(command: &str, argument_count: usize) -> (r: Result<(), String>)
    ensures
        match r {
            Ok(_) => command@ == COMMAND_IMPL_FUNCTION@ && argument_count >= COMMAND_ARGUMENTS,
            Err(message) => if command@ != COMMAND_IMPL_FUNCTION@ {
                message@ == unknown_command_message(command@)
            } else {
                argument_count < COMMAND_ARGUMENTS && message@ == missing_arguments_message()
            },
        },
{
    if !str_eq(command, COMMAND_IMPL_FUNCTION) {
        let mut message = String::new();
        push_text(&mut message, "Unknown command: ");
        push_text(&mut message, command);
        assert(message@ =~= unknown_command_message(command@));
        return Err(message);
    }
    if argument_count < COMMAND_ARGUMENTS {
        return Err("Missing arguments for amp.implFunction".to_string());
    }
    Ok(())
}

/// The arguments of the command that the code action at a place of the
/// document `uri` carries. A document that is not open is offered nothing.
pub fn offer_command(store: &DocumentStore, uri: &str, line: u32, character: u32) -> (r: Option<
    ImplFunctionArguments,
>)
    requires
        store.wf(),
    ensures
        match r {
            Some(arguments) => store@.dom().contains(uri@) && arguments.uri@ == uri@
                && arguments.line == line && arguments.character == character
                && arguments.version == store@[uri@].version && arguments.language_id@
                == store@[uri@].language_id,
            None => !store@.dom().contains(uri@),
        },
{
    match store.get(uri) {
        Some(document) => Some(
            ImplFunctionArguments {
                uri: uri.to_string(),
                line,
                character,
                version: document.version,
                language_id: document.language_id,
            },
        ),
        None => None,
    }
}

/// The signature that a job for line `line` of `text` is registered with:
/// the trimmed first line of the function there, or the empty text where
/// no function is found.
pub open spec fn job_signature(text: Seq<char>, line: u32) -> Seq<char> {
    match signature_at(text, line as int) {
        Some(signature) => signature,
        None => Seq::empty(),
    }
}

/// Starts the job `job_id` for line `line` of the document `uri`.
///
/// A document that is not open has no jobs, and a document that has
/// `MAX_CONCURRENT_JOBS_PER_FILE` jobs takes no more: the error is what the
/// editor is told, as invalid parameters, and the registry stays as it is.
/// Otherwise the job is registered at `line`, with the signature of the
/// function there, and what the agent is to be given comes back.
pub fn start_job(
    store: &DocumentStore,
    tracker: &mut JobTracker,
    uri: &str,
    job_id: &str,
    line: u32,
) -> (r: Result<StartedJob, String>)
    requires
        store.wf(),
        old(tracker).wf(),
    ensures
        final(tracker).wf(),
        forall|u: Seq<char>| u != uri@ ==> final(tracker).jobs(u) == old(tracker).jobs(u),
        match r {
            Ok(started) => {
                &&& store@.dom().contains(uri@)
                &&& old(tracker).jobs(uri@).len() < MAX_CONCURRENT_JOBS_PER_FILE
                &&& started.text@ == store@[uri@].text
                &&& started.version == store@[uri@].version
                &&& started.language_id@ == store@[uri@].language_id
                &&& started.function_signature@ == job_signature(store@[uri@].text, line)
                &&& final(tracker).jobs(uri@) == with_job(
                    old(tracker).jobs(uri@),
                    new_job(job_id@, line, job_signature(store@[uri@].text, line)),
                )
            },
            Err(message) => {
                &&& *final(tracker) == *old(tracker)
                &&& if !store@.dom().contains(uri@) {
                    message@ == unknown_document_message()
                } else {
                    old(tracker).jobs(uri@).len() >= MAX_CONCURRENT_JOBS_PER_FILE && message@
                        == capacity_message()
                }
            },
        },
{
    let document = match store.get(uri) {
        Some(document) => document,
        None => {
            return Err("Document not found".to_string());
        },
    };
    let signature = match extract_function_signature(document.text.as_str(), line as usize) {
        Some(signature) => signature,
        None => String::new(),
    };
    match tracker.register_job(uri, job_id, line, signature.clone()) {
        Ok(_) => Ok(
            StartedJob {
                text: document.text,
                version: document.version,
                language_id: document.language_id,
                function_signature: signature,
            },
        ),
        Err(message) => Err(message),
    }
}

} // verus!
