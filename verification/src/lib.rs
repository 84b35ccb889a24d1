//! Backend library for a collaborative TeX-based encyclopedia.
//!
//! Documents are compiled in two passes by pool-managed workers. A central
//! "nexus" service merges the asset specifications produced by every
//! compilation, hands out monotonic asset-generation sequence numbers, and
//! maintains a persistent cross-reference index. This crate holds the data
//! model, the wire schemas, the metadata parser, the binary index codec, the
//! nexus state machine, and the worker-side planning logic; the surrounding
//! servers do the I/O.

use vstd::prelude::*;

pub mod assets;
pub mod codec;
pub mod metadata;
pub mod nexus;
pub mod store;
pub mod submit;
pub mod strutil;
pub mod worker;
pub mod xref;

verus! {

/// The request to the nexus server's `POST /pass1` endpoint, which is invoked
/// when a compiler worker has completed a first compilation pass. This provides
/// information about the assets required by the document.
#[derive(Clone, Debug, PartialEq, Eq)]
pub struct NexusPostPass1Request {
    /// The repository ID of the document being compiled, in its base58check
    /// representation.
    pub doc_id: String,
    /// The ID of the compilation job (assigned by the job queue).
    pub job_id: String,
    /// The contents of the `assets.json` file.
    pub assets_json: String,
    /// The contents of the `pedia.txt` file.
    pub pedia_txt: String,
}

/// The response from the nexus server's `POST /pass1` endpoint. It returns the
/// asset information needed to perform the second pass.
#[derive(Clone, Debug, PartialEq, Eq)]
pub struct NexusPostPass1Response {
    /// "ok" if success, a brief error message if not.
    pub status: String,
    /// Updated assets data, merging all processed documents.
    pub assets_json: String,
    /// TeX containing resolved cross-reference information.
    pub resolved_reference_tex: String,
    /// If provided, the builder should upload its asset files to the bucket,
    /// and follow up with confirmation if/when it succeeds, returning the
    /// sequence number that it's been provided.
    pub preserve_assets: Option<usize>,
}

/// The request to the nexus server's `POST /assets_uploaded` endpoint, which is
/// invoked when a compiler worker has uploaded its assets to the "shared
/// assets" bucket after being instructed to do so.
#[derive(Clone, Debug, PartialEq, Eq)]
pub struct NexusPostAssetsUploadedRequest {
    /// The sequence number that was provided to the build worker in the
    /// pass 1 response.
    pub seq_num: usize,
    /// The unique key prefix under which the assets are stored in the bucket.
    /// Should not contain any slashes.
    pub bucket_key: String,
}

/// The response from the nexus server's `POST /assets_uploaded` endpoint.
#[derive(Clone, Debug, PartialEq, Eq)]
pub struct NexusPostAssetsUploadedResponse {}

/// The response from the nexus server's `GET /entry/{name}` endpoint: what a
/// front end needs in order to render one entry page.
#[derive(Clone, Debug, PartialEq, Eq)]
pub struct NexusGetEntryResponse {
    /// The repository ID of the document that defines the entry.
    pub doc_id: String,
    /// The name of the entry's HTML file in the output bucket.
    pub output_name: String,
    /// The human-readable title of the entry.
    pub title: String,
}

} // verus!
