//! Worker-side compilation planning.
//!
//! A worker consumes one compile job at a time and drives it through a
//! strictly linear pipeline: pass 1 over the wrapped document, the nexus
//! round-trip, pass 2 with the resolved references and merged assets, then
//! the artifact uploads. The engine invocations and the transfers are the
//! surrounding process's business; this module builds the exact engine inputs
//! and the exact upload plan, and decides when the upload acknowledgment may
//! be sent.

use vstd::prelude::*;
use vstd::string::StrSliceExecFns;
use vstd::string::StringExecFns;

use crate::strutil::push_str;
use crate::strutil::str_ends_with;
use crate::strutil::str_starts_with;
use crate::NexusPostAssetsUploadedRequest;

verus! {

/// Whether `s` begins with `p`.
pub open spec fn starts_with_spec(s: Seq<char>, p: Seq<char>) -> bool {
    s.len() >= p.len() && s.take(p.len() as int) == p
}

/// Whether `s` ends with `p`.
pub open spec fn ends_with_spec(s: Seq<char>, p: Seq<char>) -> bool {
    s.len() >= p.len() && s.skip(s.len() - p.len()) == p
}

/// The document wrapped for the first pass: metadata gathering, no HTML.
pub open spec fn pass1_input_spec(content: Seq<char>) -> Seq<char> {
    "\\newif\\ifpassone \\passonetrue \\input{preamble}\n"@ + content
        + "\n\\input{postamble}\n"@
}

/// Builds the engine input for pass 1.
pub fn pass1_input(content: &str) -> (r: String)
    ensures
        r@ == pass1_input_spec(content@),
{
    let mut s = "\\newif\\ifpassone \\passonetrue \\input{preamble}\n".to_owned();
    push_str(&mut s, content);
    push_str(&mut s, "\n\\input{postamble}\n");
    proof {
        assert(s@ =~= pass1_input_spec(content@));
    }
    s
}

/// The document wrapped for the second pass: the resolved-reference TeX is
/// prepended so that every `pedia resolve**…` lookup expands without further
/// round-trips.
pub open spec fn pass2_input_spec(rrtex: Seq<char>, content: Seq<char>) -> Seq<char> {
    "\\newif\\ifpassone \\passonefalse \\input{preamble}\n"@ + rrtex + "\n"@ + content
        + "\n\\input{postamble}\n"@
}

/// Builds the engine input for pass 2.
pub fn pass2_input(rrtex: &str, content: &str) -> (r: String)
    ensures
        r@ == pass2_input_spec(rrtex@, content@),
{
    let mut s = "\\newif\\ifpassone \\passonefalse \\input{preamble}\n".to_owned();
    push_str(&mut s, rrtex);
    push_str(&mut s, "\n");
    push_str(&mut s, content);
    push_str(&mut s, "\n\\input{postamble}\n");
    proof {
        assert(s@ =~= pass2_input_spec(rrtex@, content@));
    }
    s
}

/// What one file in the pass-2 output directory is to the uploader.
#[derive(Clone, Copy, Debug, PartialEq, Eq, Structural)]
pub enum FileClass {
    /// A shared asset (font or CSS), uploaded only when this build preserves
    /// its generation.
    SharedAsset,
    /// An HTML entry file.
    HtmlEntry,
    /// Anything else; never uploaded.
    Ignored,
}

/// How one output file is classified. Fonts and CSS count as shared assets
/// only when this build is preserving its generation; otherwise an
/// `entry-`-prefixed name counts as an HTML entry.
pub open spec fn classify_spec(name: Seq<char>, preserving: bool) -> FileClass {
    if preserving && (ends_with_spec(name, ".otf"@) || ends_with_spec(name, ".css"@)) {
        FileClass::SharedAsset
    } else if starts_with_spec(name, "entry-"@) {
        FileClass::HtmlEntry
    } else {
        FileClass::Ignored
    }
}

/// Classifies one output file.
pub fn classify_output(name: &str, preserving: bool) -> (r: FileClass)
    ensures
        r == classify_spec(name@, preserving),
{
    if preserving && (str_ends_with(name, ".otf") || str_ends_with(name, ".css")) {
        FileClass::SharedAsset
    } else if str_starts_with(name, "entry-") {
        FileClass::HtmlEntry
    } else {
        FileClass::Ignored
    }
}

/// The content type an asset is uploaded with, derived from its extension.
pub open spec fn content_type_spec(name: Seq<char>) -> Seq<char> {
    if ends_with_spec(name, ".css"@) {
        "text/css"@
    } else if ends_with_spec(name, ".otf"@) {
        "font/otf"@
    } else {
        "application/octet-stream"@
    }
}

/// Derives the content type for one shared-asset upload.
pub fn asset_content_type(name: &str) -> (r: &str)
    ensures
        r@ == content_type_spec(name@),
{
    if str_ends_with(name, ".css") {
        "text/css"
    } else if str_ends_with(name, ".otf") {
        "font/otf"
    } else {
        "application/octet-stream"
    }
}

/// One shared-asset upload: the object key under the shared-assets bucket,
/// the content type, and the output file it carries.
pub struct AssetUpload {
    pub object_key: String,
    pub content_type: String,
    pub filename: String,
}

/// One HTML-entry upload: the object key under the HTML bucket and the output
/// file it carries.
pub struct HtmlUpload {
    pub object_key: String,
    pub filename: String,
}

/// Everything one finished pass-2 run uploads, in order: the shared assets,
/// then (only if every asset upload succeeded) the acknowledgment, then the
/// HTML entries. The HTML uploads are not suppressed by an asset-upload
/// failure: they simply resolve against the previous, still-current
/// generation.
pub struct UploadPlan {
    pub assets: Vec<AssetUpload>,
    pub notify: Option<NexusPostAssetsUploadedRequest>,
    pub htmls: Vec<HtmlUpload>,
}

/// The output files classified as shared assets, in directory order.
pub open spec fn assets_of(files: Seq<Seq<char>>, preserving: bool) -> Seq<Seq<char>>
    decreases files.len(),
{
    if files.len() == 0 {
        Seq::<Seq<char>>::empty()
    } else {
        let prev = assets_of(files.drop_last(), preserving);
        if classify_spec(files.last(), preserving) is SharedAsset {
            prev.push(files.last())
        } else {
            prev
        }
    }
}

/// The output files classified as HTML entries, in directory order.
pub open spec fn htmls_of(files: Seq<Seq<char>>, preserving: bool) -> Seq<Seq<char>>
    decreases files.len(),
{
    if files.len() == 0 {
        Seq::<Seq<char>>::empty()
    } else {
        let prev = htmls_of(files.drop_last(), preserving);
        if classify_spec(files.last(), preserving) is HtmlEntry {
            prev.push(files.last())
        } else {
            prev
        }
    }
}

/// Builds the upload plan for one finished pass-2 run: which files go to the
/// shared-assets bucket under `<job_id>/<filename>` with which content type,
/// which go to the HTML bucket under `<doc_id>/<stem>`, and which
/// acknowledgment follows a successful asset upload.
pub fn plan_uploads(
    doc_id: &str,
    job_id: &str,
    preserve_assets: Option<usize>,
    files: &Vec<String>,
) -> (plan: UploadPlan)
    ensures
        plan.notify == (match preserve_assets {
            Some(n) => Some(NexusPostAssetsUploadedRequest { seq_num: n, bucket_key: plan.notify.unwrap().bucket_key }),
            None => None::<NexusPostAssetsUploadedRequest>,
        }),
        plan.notify matches Some(q) ==> q.bucket_key@ == job_id@,
        plan.assets.len() == assets_of(files.deep_view(), preserve_assets is Some).len(),
        forall|i: int|
            0 <= i < plan.assets.len() ==> {
                let f = assets_of(files.deep_view(), preserve_assets is Some)[i];
                (#[trigger] plan.assets[i]).filename@ == f && plan.assets[i].object_key@ == job_id@
                    + "/"@ + f && plan.assets[i].content_type@ == content_type_spec(f)
            },
        plan.htmls.len() == htmls_of(files.deep_view(), preserve_assets is Some).len(),
        forall|i: int|
            0 <= i < plan.htmls.len() ==> {
                let f = htmls_of(files.deep_view(), preserve_assets is Some)[i];
                (#[trigger] plan.htmls[i]).filename@ == f && plan.htmls[i].object_key@ == doc_id@
                    + "/"@ + f.skip(6)
            },
{
    let preserving = preserve_assets.is_some();
    let ghost fv = files.deep_view();
    let n = files.len();
    let mut assets: Vec<AssetUpload> = Vec::new();
    let mut htmls: Vec<HtmlUpload> = Vec::new();
    let mut i: usize = 0;
    proof {
        assert(fv.take(0) =~= Seq::<Seq<char>>::empty());
    }
    while i < n
        invariant
            i <= n,
            n == files.len(),
            fv == files.deep_view(),
            fv.len() == n,
            assets.len() == assets_of(fv.take(i as int), preserving).len(),
            forall|k: int|
                0 <= k < assets.len() ==> {
                    let f = assets_of(fv.take(i as int), preserving)[k];
                    (#[trigger] assets[k]).filename@ == f && assets[k].object_key@ == job_id@
                        + "/"@ + f && assets[k].content_type@ == content_type_spec(f)
                },
            htmls.len() == htmls_of(fv.take(i as int), preserving).len(),
            forall|k: int|
                0 <= k < htmls.len() ==> {
                    let f = htmls_of(fv.take(i as int), preserving)[k];
                    (#[trigger] htmls[k]).filename@ == f && htmls[k].object_key@ == doc_id@
                        + "/"@ + f.skip(6)
                },
        decreases n - i,
    {
        let name = &files[i];
        proof {
            assert(fv.take(i + 1).drop_last() =~= fv.take(i as int));
            assert(fv.take(i + 1).last() == fv[i as int]);
            assert(fv[i as int] == name@);
        }
        match classify_output(name.as_str(), preserving) {
            FileClass::SharedAsset => {
                let mut key = job_id.to_owned();
                push_str(&mut key, "/");
                push_str(&mut key, name.as_str());
                let ct = asset_content_type(name.as_str());
                assets.push(
                    AssetUpload {
                        object_key: key,
                        content_type: ct.to_owned(),
                        filename: name.clone(),
                    },
                );
            },
            FileClass::HtmlEntry => {
                proof {
                    reveal_strlit("entry-");
                }
                let stem = name.as_str().substring_char(6, name.as_str().unicode_len());
                proof {
                    assert(stem@ =~= name@.skip(6));
                }
                let mut key = doc_id.to_owned();
                push_str(&mut key, "/");
                push_str(&mut key, stem);
                htmls.push(HtmlUpload { object_key: key, filename: name.clone() });
            },
            FileClass::Ignored => {},
        }
        i = i + 1;
    }
    proof {
        assert(fv.take(n as int) =~= fv);
    }
    let notify = match preserve_assets {
        Some(n) => Some(
            NexusPostAssetsUploadedRequest { seq_num: n, bucket_key: job_id.to_owned() },
        ),
        None => None,
    };
    UploadPlan { assets, notify, htmls }
}

/// Whether the acknowledgment may be sent: only when this build was told to
/// preserve its assets and every shared-asset upload succeeded. A worker
/// whose asset upload failed must not acknowledge — the nexus would redirect
/// shared-asset requests at files that are not there.
pub fn notify_after_uploads(
    plan_notify: Option<NexusPostAssetsUploadedRequest>,
    asset_uploads_ok: bool,
) -> (r: Option<NexusPostAssetsUploadedRequest>)
    ensures
        r is Some <==> (plan_notify is Some && asset_uploads_ok),
        r matches Some(q) ==> plan_notify == Some(q),
{
    if asset_uploads_ok {
        plan_notify
    } else {
        None
    }
}

} // verus!
