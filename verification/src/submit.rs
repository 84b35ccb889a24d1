//! The submission front door's decision.
//!
//! `POST /submit` names a document; the surrounding server parses the id,
//! looks the document up in the repository, and hydrates its `content` text.
//! This module turns the outcome of those steps into the response status and,
//! on success, the compile job to enqueue. Errors are reported as status
//! strings, and nothing is enqueued for them.

use vstd::prelude::*;
use vstd::string::StringExecFns;

use crate::strutil::push_str;

verus! {

/// The name under which compile jobs are enqueued.
pub fn compile_job_name() -> (r: &'static str)
    ensures
        r@ == "compile"@,
{
    "compile"
}

/// What the repository lookup of a submitted document came to.
pub enum DocLookup {
    /// The submitted id does not parse as a document id.
    IllegalId,
    /// No document with that id exists in the repository.
    NotFound,
    /// The repository is shutting down and cannot serve lookups.
    ShuttingDown,
    /// The document exists but its root map holds no collaborative `content`
    /// text.
    Malformed,
    /// The document's current content.
    Content(String),
}

/// The front door's reply: the status string, and the compile job's two
/// arguments (document id, content snapshot) when one is to be enqueued.
pub struct SubmitDecision {
    pub status: String,
    pub job: Option<(String, String)>,
}

/// Decides the response to one submission: a job exactly when the document
/// was found and well-formed, and otherwise a status string describing the
/// problem.
pub fn submit_decision(doc_id: &str, lookup: DocLookup) -> (r: SubmitDecision)
    ensures
        lookup matches DocLookup::Content(c) ==> r.status@ == "ok"@ && (r.job matches Some(j)
            && j.0@ == doc_id@ && j.1@ == c@),
        lookup is IllegalId ==> r.status@ == "illegal document ID "@ + doc_id@ && r.job is None,
        lookup is NotFound ==> r.status@ == "document "@ + doc_id@ + " not found"@ && r.job
            is None,
        lookup is ShuttingDown ==> r.status@ == "server shutting down"@ && r.job is None,
        lookup is Malformed ==> r.status@ == "malformatted document "@ + doc_id@ && r.job
            is None,
{
    match lookup {
        DocLookup::IllegalId => {
            let mut status = "illegal document ID ".to_owned();
            push_str(&mut status, doc_id);
            SubmitDecision { status, job: None }
        },
        DocLookup::NotFound => {
            let mut status = "document ".to_owned();
            push_str(&mut status, doc_id);
            push_str(&mut status, " not found");
            proof {
                assert(status@ =~= "document "@ + doc_id@ + " not found"@);
            }
            SubmitDecision { status, job: None }
        },
        DocLookup::ShuttingDown => {
            SubmitDecision { status: "server shutting down".to_owned(), job: None }
        },
        DocLookup::Malformed => {
            let mut status = "malformatted document ".to_owned();
            push_str(&mut status, doc_id);
            SubmitDecision { status, job: None }
        },
        DocLookup::Content(c) => {
            SubmitDecision { status: "ok".to_owned(), job: Some((doc_id.to_owned(), c)) }
        },
    }
}

} // verus!
