//! The asset-generation state machine and the small nexus lookups.

use ttpedia_backend::nexus::{asset_redirect_url, get_entry, AssetState};
use ttpedia_backend::NexusPostAssetsUploadedRequest;

fn ack(seq_num: usize, bucket_key: &str) -> NexusPostAssetsUploadedRequest {
    NexusPostAssetsUploadedRequest {
        seq_num,
        bucket_key: bucket_key.to_owned(),
    }
}

#[test]
fn fresh_state() {
    let s = AssetState::new("initial".to_owned());
    assert_eq!(s.cur_seqnum, 0);
    assert_eq!(s.next_proposed_seqnum, 1);
    assert_eq!(s.cur_bucket_key, "initial");
}

#[test]
fn newer_ack_is_accepted() {
    let mut s = AssetState::new("initial".to_owned());
    s.assets_uploaded(&ack(1, "job-a"));
    assert_eq!(s.cur_seqnum, 1);
    assert_eq!(s.cur_bucket_key, "job-a");
}

#[test]
fn stale_ack_is_a_no_op() {
    let mut s = AssetState::new("initial".to_owned());
    s.assets_uploaded(&ack(5, "job-a"));
    s.assets_uploaded(&ack(5, "job-b"));
    assert_eq!(s.cur_seqnum, 5);
    assert_eq!(s.cur_bucket_key, "job-a");
    s.assets_uploaded(&ack(4, "job-c"));
    assert_eq!(s.cur_seqnum, 5);
    assert_eq!(s.cur_bucket_key, "job-a");
}

#[test]
fn out_of_order_acks_settle_on_the_newest() {
    // Two builds hold sequence numbers 2 and 3; the newer acknowledgment
    // arrives first, and the late one for 2 must be ignored.
    let mut s = AssetState::new("initial".to_owned());
    s.assets_uploaded(&ack(3, "job-three"));
    assert_eq!(s.cur_seqnum, 3);
    s.assets_uploaded(&ack(2, "job-two"));
    assert_eq!(s.cur_seqnum, 3);
    assert_eq!(s.cur_bucket_key, "job-three");
}

#[test]
fn seqnum_is_max_over_accepted_acks() {
    let mut s = AssetState::new("initial".to_owned());
    let mut seen_max = 0usize;
    for (n, key) in [(2usize, "a"), (7, "b"), (3, "c"), (7, "d"), (9, "e")] {
        s.assets_uploaded(&ack(n, key));
        if n > seen_max {
            seen_max = n;
        }
        assert_eq!(s.cur_seqnum, seen_max);
    }
    assert_eq!(s.cur_bucket_key, "e");
}

#[test]
fn asset_redirect_reflects_current_bucket_key() {
    let mut s = AssetState::new("gen0".to_owned());
    let url = asset_redirect_url("https://data.example", &s, "tt.otf");
    assert_eq!(url, "https://data.example/sharedassets/gen0/tt.otf");
    s.assets_uploaded(&ack(1, "gen1"));
    let url = asset_redirect_url("https://data.example", &s, "tt.otf");
    assert_eq!(url, "https://data.example/sharedassets/gen1/tt.otf");
}

#[test]
fn entry_lookup_serves_the_static_table() {
    let e = get_entry("dump");
    assert_eq!(e.doc_id, "gxhZkppeZEXBb7LXnwvHWEuavAd");
    assert_eq!(e.output_name, "dump.html");
    assert_eq!(e.title, "\\dump");
    let e = get_entry("why-tex");
    assert_eq!(e.output_name, "why-tex.html");
    assert_eq!(e.title, "Why TeX?");
}

#[test]
fn entry_lookup_unknown_name() {
    let e = get_entry("no-such-entry");
    assert_eq!(e.doc_id, "NOT-FOUND");
    assert_eq!(e.output_name, "notfound.html");
    assert_eq!(e.title, "Not Found");
}
