//! The submission front door's decision and status strings.

use ttpedia_backend::submit::{compile_job_name, submit_decision, DocLookup};

#[test]
fn job_name_is_compile() {
    assert_eq!(compile_job_name(), "compile");
}

#[test]
fn found_document_is_enqueued() {
    let d = submit_decision("DOC1", DocLookup::Content("\\section{hi}".to_owned()));
    assert_eq!(d.status, "ok");
    let (doc_id, content) = d.job.expect("job enqueued");
    assert_eq!(doc_id, "DOC1");
    assert_eq!(content, "\\section{hi}");
}

#[test]
fn illegal_id_is_reported() {
    let d = submit_decision("???", DocLookup::IllegalId);
    assert_eq!(d.status, "illegal document ID ???");
    assert!(d.job.is_none());
}

#[test]
fn missing_document_is_reported() {
    let d = submit_decision("AAAA", DocLookup::NotFound);
    assert_eq!(d.status, "document AAAA not found");
    assert!(d.job.is_none());
}

#[test]
fn shutdown_is_reported() {
    let d = submit_decision("DOC1", DocLookup::ShuttingDown);
    assert_eq!(d.status, "server shutting down");
    assert!(d.job.is_none());
}

#[test]
fn malformed_document_is_reported() {
    let d = submit_decision("DOC1", DocLookup::Malformed);
    assert_eq!(d.status, "malformatted document DOC1");
    assert!(d.job.is_none());
}
