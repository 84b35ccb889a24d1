//! End-to-end `pass1` against a real index store and real asset
//! specifications: definitions recorded in one call resolve in later calls,
//! asset merges accumulate, conflicts are rejected without state damage, and
//! the proposed sequence numbers advance.

use ttpedia_backend::nexus::{pass1, AssetState, NexusError, PreservePolicy};
use ttpedia_backend::NexusPostPass1Request;

fn open_env(dir: &std::path::Path) -> lmdb::Environment {
    lmdb::Environment::new()
        .set_max_dbs(4)
        .set_map_size(16 * 1024 * 1024)
        .open(dir)
        .expect("open lmdb environment")
}

fn req(doc_id: &str, job_id: &str, assets_json: &str, pedia_txt: &str) -> NexusPostPass1Request {
    NexusPostPass1Request {
        doc_id: doc_id.to_owned(),
        job_id: job_id.to_owned(),
        assets_json: assets_json.to_owned(),
        pedia_txt: pedia_txt.to_owned(),
    }
}

#[test]
fn first_compilation_defines_and_proposes() {
    let dir = tempfile::tempdir().expect("tempdir");
    let env = open_env(dir.path());
    let mut state = AssetState::new("initial".to_owned());

    let r = pass1(
        &mut state,
        &env,
        PreservePolicy::Always,
        &req("D1", "J1", "{}", "output entry-foo.html\nindexdef idx foo frag1\n"),
    )
    .expect("pass1 succeeds");

    assert_eq!(r.status, "ok");
    assert_eq!(r.preserve_assets, Some(1));
    assert_eq!(r.resolved_reference_tex, "");
    assert_eq!(state.next_proposed_seqnum, 2);
    assert_eq!(state.cur_seqnum, 0);
}

#[test]
fn definitions_resolve_in_later_calls() {
    let dir = tempfile::tempdir().expect("tempdir");
    let env = open_env(dir.path());
    let mut state = AssetState::new("initial".to_owned());

    pass1(
        &mut state,
        &env,
        PreservePolicy::Always,
        &req("D1", "J1", "{}", "output entry-foo.html\nindexdef idx foo frag1\n"),
    )
    .expect("defining pass succeeds");

    let r = pass1(
        &mut state,
        &env,
        PreservePolicy::Always,
        &req("D2", "J2", "{}", "indexref idx foo 3\n"),
    )
    .expect("referencing pass succeeds");

    let mut expected = String::new();
    expected.push_str("\\expandafter\\def\\csname pedia resolve**idx**foo**loc\\endcsname{foofrag1}\n");
    expected.push_str("\\expandafter\\def\\csname pedia resolve**idx**foo**text tex\\endcsname{foo}\n");
    expected.push_str("\\expandafter\\def\\csname pedia resolve**idx**foo**text plain\\endcsname{foo}\n");
    assert_eq!(r.resolved_reference_tex, expected);
    assert_eq!(r.preserve_assets, Some(2));
}

#[test]
fn index_text_supplies_the_text_forms() {
    let dir = tempfile::tempdir().expect("tempdir");
    let env = open_env(dir.path());
    let mut state = AssetState::new("initial".to_owned());

    pass1(
        &mut state,
        &env,
        PreservePolicy::Always,
        &req(
            "D1",
            "J1",
            "{}",
            "output entry-foo.html\nindexdef idx foo frag1\nindextext idx foo texform plainform\n",
        ),
    )
    .expect("defining pass succeeds");

    let r = pass1(
        &mut state,
        &env,
        PreservePolicy::Always,
        &req("D2", "J2", "{}", "indexref idx foo 2\n"),
    )
    .expect("referencing pass succeeds");

    let mut expected = String::new();
    expected.push_str("\\expandafter\\def\\csname pedia resolve**idx**foo**text tex\\endcsname{texform}\n");
    expected.push_str("\\expandafter\\def\\csname pedia resolve**idx**foo**text plain\\endcsname{plainform}\n");
    assert_eq!(r.resolved_reference_tex, expected);
}

#[test]
fn unknown_reference_yields_entryref() {
    let dir = tempfile::tempdir().expect("tempdir");
    let env = open_env(dir.path());
    let mut state = AssetState::new("initial".to_owned());

    let r = pass1(
        &mut state,
        &env,
        PreservePolicy::Always,
        &req("D3", "J3", "{}", "indexref idx never_defined 1\n"),
    )
    .expect("pass1 succeeds");

    assert_eq!(
        r.resolved_reference_tex,
        "\\expandafter\\def\\csname pedia resolve**idx**never_defined**loc\\endcsname{ENTRYREF}\n"
    );
}

#[test]
fn asset_merges_accumulate() {
    let dir = tempfile::tempdir().expect("tempdir");
    let env = open_env(dir.path());
    let mut state = AssetState::new("initial".to_owned());

    pass1(
        &mut state,
        &env,
        PreservePolicy::Always,
        &req("D1", "J1", "{\"a.css\": {\"kind\": \"FontCss\"}}", ""),
    )
    .expect("first merge succeeds");

    let r = pass1(
        &mut state,
        &env,
        PreservePolicy::Always,
        &req("D2", "J2", "{\"b.css\": {\"kind\": \"FontCss\"}}", ""),
    )
    .expect("second merge succeeds");

    assert!(r.assets_json.contains("a.css"));
    assert!(r.assets_json.contains("b.css"));
}

#[test]
fn conflicting_assets_are_rejected_without_state_damage() {
    let dir = tempfile::tempdir().expect("tempdir");
    let env = open_env(dir.path());
    let mut state = AssetState::new("initial".to_owned());

    let font1 =
        "{\"x.otf\": {\"kind\": \"FontFile\", \"source\": \"f1.otf\", \"face_index\": 0, \"vglyphs\": {}}}";
    let font2 =
        "{\"x.otf\": {\"kind\": \"FontFile\", \"source\": \"f2.otf\", \"face_index\": 0, \"vglyphs\": {}}}";

    pass1(
        &mut state,
        &env,
        PreservePolicy::Always,
        &req("D1", "J1", font1, ""),
    )
    .expect("first merge succeeds");
    let next_before = state.next_proposed_seqnum;

    let e = pass1(
        &mut state,
        &env,
        PreservePolicy::Always,
        &req("D2", "J2", font2, ""),
    )
    .expect_err("conflicting merge fails");
    assert_eq!(e, NexusError::AssetConflict);
    assert_eq!(state.next_proposed_seqnum, next_before);

    // The merged set still holds the first worker's declaration.
    let r = pass1(
        &mut state,
        &env,
        PreservePolicy::Always,
        &req("D3", "J3", "{}", ""),
    )
    .expect("later merge succeeds");
    assert!(r.assets_json.contains("f1.otf"));
    assert!(!r.assets_json.contains("f2.otf"));
}

#[test]
fn malformed_metadata_is_rejected_with_its_line() {
    let dir = tempfile::tempdir().expect("tempdir");
    let env = open_env(dir.path());
    let mut state = AssetState::new("initial".to_owned());

    let e = pass1(
        &mut state,
        &env,
        PreservePolicy::Always,
        &req("D1", "J1", "{}", "output entry-foo.html\nnot a metadatum\n"),
    )
    .expect_err("bad stream fails");
    assert_eq!(e, NexusError::MetadataParse { line: 1 });
    assert_eq!(state.next_proposed_seqnum, 1);
}

#[test]
fn when_changed_policy_proposes_only_on_change() {
    let dir = tempfile::tempdir().expect("tempdir");
    let env = open_env(dir.path());
    let mut state = AssetState::new("initial".to_owned());

    // Merging nothing into nothing changes nothing.
    let r = pass1(
        &mut state,
        &env,
        PreservePolicy::WhenChanged,
        &req("D1", "J1", "{}", ""),
    )
    .expect("pass1 succeeds");
    assert_eq!(r.preserve_assets, None);
    assert_eq!(state.next_proposed_seqnum, 1);

    // A new declaration changes the merged set.
    let r = pass1(
        &mut state,
        &env,
        PreservePolicy::WhenChanged,
        &req("D2", "J2", "{\"a.css\": {\"kind\": \"FontCss\"}}", ""),
    )
    .expect("pass1 succeeds");
    assert_eq!(r.preserve_assets, Some(1));
    assert_eq!(state.next_proposed_seqnum, 2);
}

#[test]
fn proposed_number_acknowledges_cleanly() {
    // A worker that was told to preserve generation `n` uploads and
    // acknowledges; the acknowledgment is accepted and the bucket key moves
    // to the worker's job id.
    let dir = tempfile::tempdir().expect("tempdir");
    let env = open_env(dir.path());
    let mut state = AssetState::new("initial".to_owned());

    let r = pass1(
        &mut state,
        &env,
        PreservePolicy::Always,
        &req("D1", "J1", "{}", "output entry-foo.html\nindexdef idx foo frag1\n"),
    )
    .expect("pass1 succeeds");
    let n = r.preserve_assets.expect("a sequence number was proposed");

    state.assets_uploaded(&ttpedia_backend::NexusPostAssetsUploadedRequest {
        seq_num: n,
        bucket_key: "J1".to_owned(),
    });
    assert_eq!(state.cur_seqnum, n);
    assert_eq!(state.cur_bucket_key, "J1");
}

#[test]
fn output_only_stream_succeeds_with_no_references() {
    // A stream that neither reads nor writes the index cannot fail on it.
    let dir = tempfile::tempdir().expect("tempdir");
    let env = open_env(dir.path());
    let mut state = AssetState::new("initial".to_owned());

    let r = pass1(
        &mut state,
        &env,
        PreservePolicy::Always,
        &req("D1", "J1", "{}", "output entry-a.html\noutput entry-b.html\n"),
    )
    .expect("pass1 succeeds");
    assert_eq!(r.status, "ok");
    assert_eq!(r.resolved_reference_tex, "");
}
