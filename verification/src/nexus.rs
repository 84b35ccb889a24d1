//! The nexus: the singleton coordination service.
//!
//! It holds the authoritative merged asset specification, the asset-generation
//! sequence counter, and the persistent cross-reference index. `pass1` merges
//! a worker's assets and resolves its references as one logical operation; any
//! failure leaves the whole state unchanged. `assets_uploaded` reconciles
//! upload acknowledgments last-writer-wins by sequence number, so
//! out-of-order acknowledgments of superseded generations are ignored.

use vstd::prelude::*;
use vstd::string::StringExecFns;
use vstd::utf8::decode_utf8;
use vstd::utf8::decode_utf8_encode_utf8;
use vstd::utf8::encode_utf8;
use vstd::utf8::valid_utf8;

use lmdb::Environment;

use tectonic_engine_spx2html::AssetSpecification;

use crate::assets::add_saved_assets;
use crate::assets::asset_map;
use crate::assets::assets_compatible;
use crate::assets::new_asset_spec;
use crate::assets::save_assets;
use crate::assets::saved_assets;
use crate::metadata::parse_pedia;
use crate::metadata::parse_pedia_spec;
use crate::metadata::MetadatumView;
use crate::store::begin_rw;
use crate::store::open_index_db;
use crate::store::txn_commit;
use crate::store::txn_map;
use crate::strutil::bytes_eq;
use crate::strutil::push_str;
use crate::strutil::str_eq;
use crate::xref::process_metadata;
use crate::xref::rrtex_of;
use crate::NexusGetEntryResponse;
use crate::NexusPostAssetsUploadedRequest;
use crate::NexusPostAssetsUploadedResponse;
use crate::NexusPostPass1Request;
use crate::NexusPostPass1Response;

verus! {

/// Why a `pass1` request was rejected. Every rejection leaves the nexus state
/// unchanged.
#[derive(Clone, Copy, Debug, PartialEq, Eq, Structural)]
pub enum NexusError {
    /// The submitted assets could not be parsed, or their merge conflicted
    /// with the merged set.
    AssetConflict,
    /// The merged specification could not be serialized.
    AssetSave,
    /// A metadatum line did not parse; holds the zero-based line index.
    MetadataParse { line: usize },
    /// The index store failed to open, read, write, or commit.
    IndexStore,
}

/// Relies on `String::from_utf8`: it succeeds exactly on valid UTF-8 and
/// views the bytes as the characters they encode.
#[verifier::external_body]
fn string_from_utf8(v: Vec<u8>) -> (r: Option<String>)
    ensures
        r is Some <==> valid_utf8(v@),
        r matches Some(s) ==> s@ == decode_utf8(v@),
{
    String::from_utf8(v).ok()
}

/// How one acknowledgment changes `(cur_seqnum, cur_bucket_key)`: accepted
/// iff strictly newer, ignored otherwise.
pub open spec fn ack_step(
    cur: usize,
    key: Seq<char>,
    seq_num: usize,
    bucket_key: Seq<char>,
) -> (usize, Seq<char>) {
    if seq_num > cur {
        (seq_num, bucket_key)
    } else {
        (cur, key)
    }
}

/// The nexus's asset-generation state.
pub struct AssetState {
    /// The merged asset specification across all documents seen.
    pub cur_assets: AssetSpecification,
    /// The highest sequence number whose upload has been acknowledged.
    pub cur_seqnum: usize,
    /// The bucket key prefix where the acknowledged generation's files live.
    pub cur_bucket_key: String,
    /// The next sequence number to hand out.
    pub next_proposed_seqnum: usize,
}

impl AssetState {
    /// The acknowledged generation is always older than the next proposed one.
    pub open spec fn wf(&self) -> bool {
        self.cur_seqnum < self.next_proposed_seqnum
    }

    /// A fresh state: nothing acknowledged, nothing proposed yet.
    pub fn new(initial_bucket_key: String) -> (r: AssetState)
        ensures
            r.wf(),
            r.cur_seqnum == 0,
            r.next_proposed_seqnum == 1,
            r.cur_bucket_key@ == initial_bucket_key@,
            (asset_map(r.cur_assets) == Map::<Seq<u8>, Seq<u8>>::empty()),
    {
        AssetState {
            cur_assets: new_asset_spec(),
            cur_seqnum: 0,
            cur_bucket_key: initial_bucket_key,
            next_proposed_seqnum: 1,
        }
    }

    /// `POST /assets_uploaded`: several builds may be told to upload assets
    /// quasi-simultaneously, and their acknowledgments can come back in any
    /// order. An acknowledgment is accepted exactly when its sequence number
    /// is newer than the current one; a late acknowledgment of a superseded
    /// generation is a no-op.
    pub fn assets_uploaded(&mut self, req: &NexusPostAssetsUploadedRequest) -> (r:
        NexusPostAssetsUploadedResponse)
        ensures
            ((final(self).cur_seqnum, final(self).cur_bucket_key@) == ack_step(
                old(self).cur_seqnum,
                old(self).cur_bucket_key@,
                req.seq_num,
                req.bucket_key@,
            )),
            req.seq_num <= old(self).cur_seqnum ==> *final(self) == *old(self),
            final(self).cur_seqnum >= old(self).cur_seqnum,
            final(self).cur_assets == old(self).cur_assets,
            final(self).next_proposed_seqnum == old(self).next_proposed_seqnum,
            old(self).wf() && req.seq_num < old(self).next_proposed_seqnum ==> final(self).wf(),
    {
        if req.seq_num > self.cur_seqnum {
            self.cur_bucket_key = req.bucket_key.clone();
            self.cur_seqnum = req.seq_num;
        }
        NexusPostAssetsUploadedResponse {  }
    }
}

/// Whether a `pass1` merge is assigned a fresh asset-generation sequence
/// number. The deployed policy always preserves; a production policy would
/// preserve only when the merged specification differs from the live one.
pub enum PreservePolicy {
    /// Assign a new sequence number to every build.
    Always,
    /// Assign a new sequence number only when the merge changed the
    /// serialized specification.
    WhenChanged,
}

impl PreservePolicy {
    /// What the policy decides, given whether the merge changed the
    /// serialized specification.
    pub open spec fn decide(self, changed: bool) -> bool {
        match self {
            PreservePolicy::Always => true,
            PreservePolicy::WhenChanged => changed,
        }
    }

    /// Decides whether this build must upload its assets.
    pub fn should_preserve(&self, changed: bool) -> (r: bool)
        ensures
            r == self.decide(changed),
    {
        match self {
            PreservePolicy::Always => true,
            PreservePolicy::WhenChanged => changed,
        }
    }
}

/// `POST /pass1`: merges the worker's `assets.json` into the authoritative
/// set, serializes the merged set for pass 2, decides whether this worker
/// must upload its asset files, and resolves and records the cross-references
/// of its `pedia.txt` in one index transaction. One logical operation: every
/// failure leaves the state unchanged.
#[verifier::rlimit(60)]
pub fn pass1(
    state: &mut AssetState,
    env: &Environment,
    policy: PreservePolicy,
    req: &NexusPostPass1Request,
) -> (r: Result<NexusPostPass1Response, NexusError>)
    requires
        old(state).wf(),
        old(state).next_proposed_seqnum < usize::MAX,
    ensures
        r matches Ok(resp) ==> {
            &&& final(state).wf()
            &&& saved_assets(encode_utf8(req.assets_json@)) is Some
            &&& assets_compatible(
                asset_map(old(state).cur_assets),
                saved_assets(encode_utf8(req.assets_json@)).unwrap(),
            )
            &&& asset_map(final(state).cur_assets) == asset_map(
                old(state).cur_assets,
            ).union_prefer_right(saved_assets(encode_utf8(req.assets_json@)).unwrap())
            &&& saved_assets(encode_utf8(resp.assets_json@)) == Some(
                asset_map(final(state).cur_assets),
            )
            &&& resp.status@ == "ok"@
            &&& final(state).cur_seqnum == old(state).cur_seqnum
            &&& final(state).cur_bucket_key == old(state).cur_bucket_key
            &&& (exists|changed: bool|
                resp.preserve_assets == (if policy.decide(changed) {
                    Some(old(state).next_proposed_seqnum)
                } else {
                    None::<usize>
                }))
            &&& (resp.preserve_assets matches Some(n) ==> n == old(state).next_proposed_seqnum)
            &&& final(state).next_proposed_seqnum == (if resp.preserve_assets is Some {
                old(state).next_proposed_seqnum + 1
            } else {
                old(state).next_proposed_seqnum as int
            })
            &&& (exists|m0: Map<Seq<u8>, Seq<u8>>, items: Seq<MetadatumView>|
                parse_pedia_spec(req.pedia_txt@) == Ok::<Seq<MetadatumView>, int>(items)
                    && resp.resolved_reference_tex@ == rrtex_of(m0, items))
        },
        r matches Err(e) ==> *final(state) == *old(state) && (e matches
        NexusError::MetadataParse { line } ==> parse_pedia_spec(req.pedia_txt@) == Err::<
            Seq<MetadatumView>,
            int,
        >(line as int)) && (e == NexusError::AssetConflict ==> !(saved_assets(
            encode_utf8(req.assets_json@),
        ) matches Some(m) && asset_map(old(state).cur_assets).dom().disjoint(m.dom()))),
        (saved_assets(encode_utf8(req.assets_json@)) matches Some(m) && !assets_compatible(
            asset_map(old(state).cur_assets),
            m,
        )) ==> (r == Err::<NexusPostPass1Response, NexusError>(NexusError::AssetConflict) || r
            == Err::<NexusPostPass1Response, NexusError>(NexusError::AssetSave)),
        parse_pedia_spec(req.pedia_txt@) is Err ==> (r matches Err(e2) && (e2 is MetadataParse
            || e2 == NexusError::AssetConflict || e2 == NexusError::AssetSave)),
{
    // Merge into a trial specification rebuilt from the saved form of the
    // current one, so that a conflict leaves `state.cur_assets` untouched.
    let cur_saved = match save_assets(&state.cur_assets) {
        Ok(v) => v,
        Err(_) => {
            return Err(NexusError::AssetSave);
        },
    };
    let mut trial = new_asset_spec();
    match add_saved_assets(&mut trial, cur_saved.as_slice()) {
        Ok(()) => {},
        Err(_) => {
            proof {
                assert(false);
            }
            return Err(NexusError::AssetSave);
        },
    }
    proof {
        assert(asset_map(trial) =~= asset_map(state.cur_assets));
    }
    let incoming = req.assets_json.as_str().as_bytes();
    let ghost cur_map = asset_map(state.cur_assets);
    match add_saved_assets(&mut trial, incoming) {
        Ok(()) => {},
        Err(_) => {
            // The merge wrapper owes success whenever the bytes parse and no
            // path is shared, so a rejection refutes exactly that.
            proof {
                assert(!(saved_assets(incoming@) matches Some(m) && cur_map.dom().disjoint(
                    m.dom(),
                )));
            }
            return Err(NexusError::AssetConflict);
        },
    }
    let merged_saved = match save_assets(&trial) {
        Ok(v) => v,
        Err(_) => {
            return Err(NexusError::AssetSave);
        },
    };
    let changed = !bytes_eq(&cur_saved, &merged_saved);
    let ghost merged_bytes = merged_saved@;
    let merged_json = match string_from_utf8(merged_saved) {
        Some(s) => s,
        None => {
            proof {
                assert(false);
            }
            return Err(NexusError::AssetSave);
        },
    };

    // Resolve and record cross-references in one index transaction.
    let items = match parse_pedia(req.pedia_txt.as_str()) {
        Ok(v) => v,
        Err(line) => {
            return Err(NexusError::MetadataParse { line });
        },
    };
    proof {
        reveal_strlit("index");
    }
    let db = match open_index_db(env, "index") {
        Ok(d) => d,
        Err(_) => {
            return Err(NexusError::IndexStore);
        },
    };
    let mut txn = match begin_rw(env) {
        Ok(t) => t,
        Err(_) => {
            return Err(NexusError::IndexStore);
        },
    };
    let ghost m0 = txn_map(txn, db);
    let rrtex = match process_metadata(&mut txn, db, &items) {
        Ok(s) => s,
        Err(_) => {
            return Err(NexusError::IndexStore);
        },
    };
    match txn_commit(txn) {
        Ok(()) => {},
        Err(_) => {
            return Err(NexusError::IndexStore);
        },
    }

    // Everything succeeded: commit the new asset state and decide whether
    // this worker must upload its generation.
    state.cur_assets = trial;
    let preserve = if policy.should_preserve(changed) {
        let n = state.next_proposed_seqnum;
        state.next_proposed_seqnum = n + 1;
        Some(n)
    } else {
        None
    };

    proof {
        decode_utf8_encode_utf8(merged_bytes);
    }
    Ok(
        NexusPostPass1Response {
            status: "ok".to_owned(),
            assets_json: merged_json,
            resolved_reference_tex: rrtex,
            preserve_assets: preserve,
        },
    )
}

/// The tuple served for one entry name by `GET /entry/{name}`: document id,
/// output file, and title. Pending the authoritative index-backed mapping, a
/// static table is used.
pub open spec fn entry_info_spec(name: Seq<char>) -> (Seq<char>, Seq<char>, Seq<char>) {
    if name == "dump"@ {
        ("gxhZkppeZEXBb7LXnwvHWEuavAd"@, "dump.html"@, "\\dump"@)
    } else if name == "index"@ {
        ("tsquNfquQC6eLNYP7ZmgmNkbwXP"@, "index.html"@, "Index"@)
    } else if name == "end"@ {
        ("25spacqQwZqMUBMkrCJB1ot1EmGq"@, "end.html"@, "\\end"@)
    } else if name == "message"@ {
        ("3huRDC2cWvQhEeFxezP58NWxnMk9"@, "message.html"@, "\\message"@)
    } else if name == "why-tex"@ {
        ("3XuSpKARAcsShsAFTZBJKBxwjRsz"@, "why-tex.html"@, "Why TeX?"@)
    } else {
        ("NOT-FOUND"@, "notfound.html"@, "Not Found"@)
    }
}

/// `GET /entry/{name}`: what a front end needs to render the named entry.
pub fn get_entry(name: &str) -> (r: NexusGetEntryResponse)
    ensures
        r.doc_id@ == entry_info_spec(name@).0,
        r.output_name@ == entry_info_spec(name@).1,
        r.title@ == entry_info_spec(name@).2,
{
    let (doc_id, output_name, title): (&str, &str, &str) = if str_eq(name, "dump") {
        ("gxhZkppeZEXBb7LXnwvHWEuavAd", "dump.html", "\\dump")
    } else if str_eq(name, "index") {
        ("tsquNfquQC6eLNYP7ZmgmNkbwXP", "index.html", "Index")
    } else if str_eq(name, "end") {
        ("25spacqQwZqMUBMkrCJB1ot1EmGq", "end.html", "\\end")
    } else if str_eq(name, "message") {
        ("3huRDC2cWvQhEeFxezP58NWxnMk9", "message.html", "\\message")
    } else if str_eq(name, "why-tex") {
        ("3XuSpKARAcsShsAFTZBJKBxwjRsz", "why-tex.html", "Why TeX?")
    } else {
        ("NOT-FOUND", "notfound.html", "Not Found")
    };
    NexusGetEntryResponse {
        doc_id: doc_id.to_owned(),
        output_name: output_name.to_owned(),
        title: title.to_owned(),
    }
}

/// `GET /asset/{key}`: the redirect target for a shared asset, resolved
/// against the currently acknowledged generation. Recomputed per request, so
/// it always reflects `cur_bucket_key`.
pub fn asset_redirect_url(public_data_url: &str, state: &AssetState, key: &str) -> (r: String)
    ensures
        r@ == public_data_url@ + "/sharedassets/"@ + state.cur_bucket_key@ + "/"@ + key@,
{
    let mut url = public_data_url.to_owned();
    push_str(&mut url, "/sharedassets/");
    push_str(&mut url, state.cur_bucket_key.as_str());
    push_str(&mut url, "/");
    push_str(&mut url, key);
    proof {
        assert(url@ =~= public_data_url@ + "/sharedassets/"@ + state.cur_bucket_key@ + "/"@
            + key@);
    }
    url
}

/// A batch of acknowledgments applied in arrival order.
pub open spec fn acks_fold(
    cur: usize,
    key: Seq<char>,
    acks: Seq<(usize, Seq<char>)>,
) -> (usize, Seq<char>)
    decreases acks.len(),
{
    if acks.len() == 0 {
        (cur, key)
    } else {
        let st = ack_step(cur, key, acks[0].0, acks[0].1);
        acks_fold(st.0, st.1, acks.drop_first())
    }
}

/// For any batch of `assets_uploaded` calls, `cur_seqnum` never decreases and
/// ends at the maximum of its starting value and every acknowledged sequence
/// number: the value of the last accepted call, whatever order the
/// acknowledgments arrived in.
pub proof fn lemma_acks_monotone_max(cur: usize, key: Seq<char>, acks: Seq<(usize, Seq<char>)>)
    ensures
        acks_fold(cur, key, acks).0 >= cur,
        forall|i: int| 0 <= i < acks.len() ==> acks_fold(cur, key, acks).0 >= #[trigger] acks[i].0,
        acks_fold(cur, key, acks).0 == cur || exists|i: int|
            0 <= i < acks.len() && #[trigger] acks[i].0 == acks_fold(cur, key, acks).0,
    decreases acks.len(),
{
    if acks.len() > 0 {
        let st = ack_step(cur, key, acks[0].0, acks[0].1);
        let rest = acks.drop_first();
        lemma_acks_monotone_max(st.0, st.1, rest);
        assert forall|i: int| 0 <= i < acks.len() implies acks_fold(cur, key, acks).0
            >= #[trigger] acks[i].0 by {
            if i > 0 {
                assert(rest[i - 1] == acks[i]);
            }
        }
        if acks_fold(st.0, st.1, rest).0 == st.0 {
            if st.0 != cur {
                assert(acks[0].0 == acks_fold(cur, key, acks).0);
            }
        } else {
            let i = choose|i: int|
                0 <= i < rest.len() && #[trigger] rest[i].0 == acks_fold(st.0, st.1, rest).0;
            assert(acks[i + 1].0 == acks_fold(cur, key, acks).0);
        }
    }
}

/// A sequence number proposed by `pass1` is strictly newer than the
/// acknowledged generation, so its acknowledgment — whenever it arrives
/// before any newer one — is accepted and leaves `cur_bucket_key` at the
/// worker's submitted bucket key.
pub proof fn lemma_proposed_ack_accepted(
    cur_seqnum: usize,
    old_key: Seq<char>,
    n: usize,
    new_key: Seq<char>,
)
    requires
        cur_seqnum < n,
    ensures
        ack_step(cur_seqnum, old_key, n, new_key) == (n, new_key),
{
}

} // verus!
