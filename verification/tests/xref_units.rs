//! The cross-reference staging pieces that the nexus walk is built from.

use ttpedia_backend::xref::{output_stem_exec, IndexKey};

#[test]
fn index_key_holds_its_parts() {
    let k = IndexKey::new("concepts", "taco");
    assert_eq!(k.index, "concepts");
    assert_eq!(k.entry, "taco");
}

#[test]
fn output_stems() {
    assert_eq!(output_stem_exec("entry-foo.html"), "foo");
    assert_eq!(output_stem_exec("entry-why-tex.html"), "why-tex");
    // Anything that is not an entry HTML file yields the empty stem.
    assert_eq!(output_stem_exec("foo.html"), "");
    assert_eq!(output_stem_exec("entry-foo.css"), "");
    assert_eq!(output_stem_exec("entry-.html"), "");
}
