//! Worker-side planning: engine inputs, file classification, upload plans.

use ttpedia_backend::worker::{
    asset_content_type, classify_output, notify_after_uploads, pass1_input, pass2_input,
    plan_uploads, FileClass,
};
use ttpedia_backend::NexusPostAssetsUploadedRequest;

#[test]
fn pass1_input_wraps_the_document() {
    let s = pass1_input("BODY");
    assert_eq!(
        s,
        "\\newif\\ifpassone \\passonetrue \\input{preamble}\nBODY\n\\input{postamble}\n"
    );
}

#[test]
fn pass2_input_prepends_resolved_references() {
    let s = pass2_input("RRTEX", "BODY");
    assert_eq!(
        s,
        "\\newif\\ifpassone \\passonefalse \\input{preamble}\nRRTEX\nBODY\n\\input{postamble}\n"
    );
}

#[test]
fn resubmission_builds_identical_inputs() {
    assert_eq!(pass1_input("same"), pass1_input("same"));
    assert_eq!(pass2_input("r", "same"), pass2_input("r", "same"));
}

#[test]
fn classification_depends_on_preservation() {
    assert_eq!(classify_output("f.otf", true), FileClass::SharedAsset);
    assert_eq!(classify_output("f.css", true), FileClass::SharedAsset);
    assert_eq!(classify_output("f.otf", false), FileClass::Ignored);
    assert_eq!(classify_output("entry-a.html", true), FileClass::HtmlEntry);
    assert_eq!(classify_output("entry-a.html", false), FileClass::HtmlEntry);
    assert_eq!(classify_output("texput.log", true), FileClass::Ignored);
}

#[test]
fn content_types_follow_extensions() {
    assert_eq!(asset_content_type("a.css"), "text/css");
    assert_eq!(asset_content_type("a.otf"), "font/otf");
    assert_eq!(asset_content_type("a.bin"), "application/octet-stream");
}

#[test]
fn plan_with_preservation() {
    let files = vec![
        "entry-foo.html".to_owned(),
        "tt.otf".to_owned(),
        "style.css".to_owned(),
        "texput.log".to_owned(),
    ];
    let plan = plan_uploads("DOC1", "JOB1", Some(4), &files);

    assert_eq!(plan.assets.len(), 2);
    assert_eq!(plan.assets[0].filename, "tt.otf");
    assert_eq!(plan.assets[0].object_key, "JOB1/tt.otf");
    assert_eq!(plan.assets[0].content_type, "font/otf");
    assert_eq!(plan.assets[1].filename, "style.css");
    assert_eq!(plan.assets[1].object_key, "JOB1/style.css");
    assert_eq!(plan.assets[1].content_type, "text/css");

    let notify = plan.notify.expect("acknowledgment planned");
    assert_eq!(notify.seq_num, 4);
    assert_eq!(notify.bucket_key, "JOB1");

    assert_eq!(plan.htmls.len(), 1);
    assert_eq!(plan.htmls[0].filename, "entry-foo.html");
    assert_eq!(plan.htmls[0].object_key, "DOC1/foo.html");
}

#[test]
fn plan_without_preservation_skips_assets_and_ack() {
    let files = vec![
        "entry-foo.html".to_owned(),
        "tt.otf".to_owned(),
        "style.css".to_owned(),
    ];
    let plan = plan_uploads("DOC1", "JOB1", None, &files);
    assert_eq!(plan.assets.len(), 0);
    assert!(plan.notify.is_none());
    assert_eq!(plan.htmls.len(), 1);
}

#[test]
fn resubmission_builds_identical_plans() {
    let files = vec!["entry-foo.html".to_owned(), "tt.otf".to_owned()];
    let p1 = plan_uploads("DOC1", "JOB1", Some(4), &files);
    let p2 = plan_uploads("DOC1", "JOB1", Some(4), &files);
    assert_eq!(p1.assets.len(), p2.assets.len());
    for (a, b) in p1.assets.iter().zip(p2.assets.iter()) {
        assert_eq!(a.object_key, b.object_key);
        assert_eq!(a.content_type, b.content_type);
    }
    assert_eq!(p1.htmls[0].object_key, p2.htmls[0].object_key);
}

#[test]
fn acknowledgment_only_after_successful_asset_uploads() {
    let notify = Some(NexusPostAssetsUploadedRequest {
        seq_num: 4,
        bucket_key: "JOB1".to_owned(),
    });
    assert!(notify_after_uploads(notify.clone(), true).is_some());
    assert!(notify_after_uploads(notify, false).is_none());
    assert!(notify_after_uploads(None, true).is_none());
}
