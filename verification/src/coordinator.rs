//! The end of a job: what becomes of the implementation that the agent has
//! written, of the document, and of the other jobs on it.
//!
//! The worker of a job runs the agent and reads what it wrote. What follows
//! is decided here: the function is found again in the document as it is
//! now, the implementation takes its place, the other jobs of the document
//! move with the text, and the job is over.

use vstd::prelude::*;
use crate::document_store::{DocumentStore, DocumentView};
use crate::handlers::{unknown_document_message, JobCompletedParams};
use crate::job_tracker::{
    adjusted_jobs, has_job, job_in, without_job, JobTracker, JobView,
};
use crate::lsp_utils::{full_replace, WorkspaceEdit, WorkspaceEditBuilder, WorkspaceEditView};
use crate::rewrite::{error_message, rewritten, Rewrite};
use crate::text::{opt_string, result_view};
use crate::utils::replace_function_in_document;

verus! {

/// What the worker of a job tells the editor when the job is over.
#[derive(Debug, Clone)]
pub struct JobOutcome {
    /// The edit that the editor is asked to apply, where the job succeeded.
    pub edit: Option<WorkspaceEdit>,
    /// The other jobs of the document, each with the line at which it is
    /// tracked now. The editor is told of each with an empty preview.
    pub relocated: Vec<(String, u32)>,
    /// How the job ended.
    pub completed: JobCompletedParams,
}

/// What is said of a job whose agent wrote nothing.
pub open spec fn empty_implementation_message() -> Seq<char> {
    "Agent produced no implementation"@
}

/// What is said of a job that is not under way on its document.
pub open spec fn unknown_job_message() -> Seq<char> {
    "Job not found"@
}

/// The signature by which a job finds its function again, if it was
/// registered with one.
pub open spec fn expected_signature(job: JobView) -> Option<Seq<char>> {
    if job.function_signature.len() == 0 {
        None
    } else {
        Some(job.function_signature)
    }
}

/// What a job comes to: the rewrite of its document, or what is said of its
/// failure.
///
/// `jobs` are the jobs of the document, `document` is the document as it is
/// now, if it is still open, and `agent` is what the agent wrote, or what is
/// said of its failure. A job fails with its agent, with an empty
/// implementation, without its document, and where its function is not found
/// in the document at the line at which the job is tracked.
pub open spec fn job_result(
    jobs: Seq<JobView>,
    document: Option<DocumentView>,
    job_id: Seq<char>,
    agent: Result<Seq<char>, Seq<char>>,
) -> Result<Rewrite, Seq<char>> {
    match agent {
        Err(message) => Err(message),
        Ok(implementation) => if implementation.len() == 0 {
            Err(empty_implementation_message())
        } else {
            match document {
                None => Err(unknown_document_message()),
                Some(document) => if !has_job(jobs, job_id) {
                    Err(unknown_job_message())
                } else {
                    match rewritten(
                        document.text,
                        job_in(jobs, job_id).current_line as int,
                        implementation,
                        expected_signature(job_in(jobs, job_id)),
                    ) {
                        Ok(rewrite) => Ok(rewrite),
                        Err(e) => Err(error_message(e)),
                    }
                },
            }
        },
    }
}

/// The document `uri` of `store`, if it is open.
pub open spec fn document_of(store: DocumentStore, uri: Seq<char>) -> Option<DocumentView> {
    if store@.dom().contains(uri) {
        Some(store@[uri])
    } else {
        None
    }
}

/// The edit that puts `new_text` in place of the whole text of a document,
/// made for the version `version` of it.
pub open spec fn versioned_replace(
    uri: Seq<char>,
    text: Seq<char>,
    new_text: Seq<char>,
    version: i32,
) -> WorkspaceEditView {
    WorkspaceEditView { version: Some(version), ..full_replace(uri, text, new_text) }
}

/// What is decided of a job before the registry changes.
fn decide(
    store: &DocumentStore,
    tracker: &JobTracker,
    uri: &str,
    job_id: &str,
    agent: Result<String, String>,
) -> (r: Result<(WorkspaceEdit, u32, u32, i32), String>)
    requires
        store.wf(),
        tracker.wf(),
    ensures
        match r {
            Ok((edit, start, end, delta)) => job_result(
                tracker.jobs(uri@),
                document_of(*store, uri@),
                job_id@,
                result_view(agent),
            ) matches Ok(rewrite) && start == rewrite.start && end == rewrite.end && delta
                == rewrite.delta && edit@
                == versioned_replace(
                uri@,
                store@[uri@].text,
                rewrite.text,
                store@[uri@].version,
            ),
            Err(message) => job_result(
                tracker.jobs(uri@),
                document_of(*store, uri@),
                job_id@,
                result_view(agent),
            ) == Err::<Rewrite, Seq<char>>(message@),
        },
{
    let implementation = match agent {
        Ok(implementation) => implementation,
        Err(message) => {
            return Err(message);
        },
    };
    if implementation.as_str().unicode_len() == 0 {
        return Err("Agent produced no implementation".to_string());
    }
    let document = match store.get(uri) {
        Some(document) => document,
        None => {
            return Err("Document not found".to_string());
        },
    };
    let job = match tracker.get_job(uri, job_id) {
        Some(job) => job,
        None => {
            return Err("Job not found".to_string());
        },
    };
    let expected: Option<&str> = if job.function_signature.as_str().unicode_len() == 0 {
        None
    } else {
        Some(job.function_signature.as_str())
    };
    match replace_function_in_document(
        document.text.as_str(),
        job.current_line as usize,
        implementation.as_str(),
        expected,
    ) {
        Ok((new_text, start, end, delta)) => {
            let mut edit = WorkspaceEditBuilder::create_full_replace(
                uri,
                document.text.as_str(),
                new_text.as_str(),
            );
            edit.version = Some(document.version);
            Ok((edit, start, end, delta))
        },
        Err(message) => Err(message),
    }
}

/// Ends the job `job_id` of the document `uri`, given what its agent wrote
/// to the scratch file, or what is said of the agent's failure.
///
/// Where the job succeeds, its function is found again in the document as it
/// is now, from the line at which the job is tracked and by the signature it
/// was registered with. The implementation takes the place of the function,
/// the edit puts the new text in place of the whole document, for the
/// version of it that was read, and every job below the function moves by
/// as many lines as the implementation is longer than the function was.
/// Where the job fails, no edit is made and no other job moves. Either way
/// the job is over, and the other jobs of the document come back with
/// their lines.
pub fn finish_job(
    store: &DocumentStore,
    tracker: &mut JobTracker,
    uri: &str,
    job_id: &str,
    agent: Result<String, String>,
) -> (r: JobOutcome)
    requires
        store.wf(),
        old(tracker).wf(),
    ensures
        final(tracker).wf(),
        forall|u: Seq<char>| u != uri@ ==> final(tracker).jobs(u) == old(tracker).jobs(u),
        r.completed.job_id@ == job_id@,
        r.completed.uri@ == uri@,
        match job_result(
            old(tracker).jobs(uri@),
            document_of(*store, uri@),
            job_id@,
            result_view(agent),
        ) {
            Ok(rewrite) => {
                &&& r.completed.success
                &&& r.completed.error is None
                &&& r.edit matches Some(edit) && edit@ == versioned_replace(
                    uri@,
                    store@[uri@].text,
                    rewrite.text,
                    store@[uri@].version,
                )
                &&& final(tracker).jobs(uri@) == without_job(
                    adjusted_jobs(
                        old(tracker).jobs(uri@),
                        rewrite.end as u32,
                        rewrite.delta as i32,
                        job_id@,
                    ),
                    job_id@,
                )
            },
            Err(message) => {
                &&& !r.completed.success
                &&& opt_string(r.completed.error) == Some(message)
                &&& r.edit is None
                &&& final(tracker).jobs(uri@) == without_job(old(tracker).jobs(uri@), job_id@)
            },
        },
        r.relocated.len() == final(tracker).jobs(uri@).len(),
        forall|k: int|
            0 <= k < r.relocated.len() ==> (#[trigger] r.relocated[k]).0@ == final(tracker).jobs(
                uri@,
            )[k].job_id && r.relocated[k].1 == final(tracker).jobs(uri@)[k].current_line,
{
    let decided = decide(store, tracker, uri, job_id, agent);
    match decided {
        Ok((edit, start, end, delta)) => {
            tracker.adjust_lines_for_edit(uri, start, end, delta, job_id);
            tracker.complete_job(uri, job_id);
            let relocated = tracker.get_active_jobs(uri);
            JobOutcome {
                edit: Some(edit),
                relocated,
                completed: JobCompletedParams {
                    job_id: job_id.to_string(),
                    uri: uri.to_string(),
                    success: true,
                    error: None,
                },
            }
        },
        Err(message) => {
            tracker.complete_job(uri, job_id);
            let relocated = tracker.get_active_jobs(uri);
            JobOutcome {
                edit: None,
                relocated,
                completed: JobCompletedParams {
                    job_id: job_id.to_string(),
                    uri: uri.to_string(),
                    success: false,
                    error: Some(message),
                },
            }
        },
    }
}

} // verus!
