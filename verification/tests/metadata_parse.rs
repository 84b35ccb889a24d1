//! The metadatum line grammar and the stream parser.

use ttpedia_backend::metadata::{IndexRefFlag, Metadatum};

fn parse(line: &str) -> Option<Metadatum> {
    Metadatum::parse(line)
}

#[test]
fn output_line_parses() {
    match parse("output entry-foo.html") {
        Some(Metadatum::Output(o)) => assert_eq!(o, "entry-foo.html"),
        other => panic!("wrong parse: {:?}", other.is_some()),
    }
}

#[test]
fn indexdef_line_parses() {
    match parse("indexdef idx foo frag1") {
        Some(Metadatum::IndexDef {
            index,
            entry,
            fragment,
        }) => {
            assert_eq!(index, "idx");
            assert_eq!(entry, "foo");
            assert_eq!(fragment, "frag1");
        }
        _ => panic!("wrong parse"),
    }
}

#[test]
fn indextext_line_parses() {
    match parse("indextext idx foo texform plainform") {
        Some(Metadatum::IndexText {
            index,
            entry,
            tex,
            atplain,
        }) => {
            assert_eq!(index, "idx");
            assert_eq!(entry, "foo");
            assert_eq!(tex, "texform");
            assert_eq!(atplain, "plainform");
        }
        _ => panic!("wrong parse"),
    }
}

#[test]
fn indexref_line_parses_flags() {
    match parse("indexref idx foo 3") {
        Some(Metadatum::IndexRef {
            index,
            entry,
            flags,
        }) => {
            assert_eq!(index, "idx");
            assert_eq!(entry, "foo");
            assert_eq!(flags, 3);
            assert_ne!(flags & IndexRefFlag::NeedsLoc.mask(), 0);
            assert_ne!(flags & IndexRefFlag::NeedsText.mask(), 0);
        }
        _ => panic!("wrong parse"),
    }
}

#[test]
fn indexref_flag_values() {
    assert_eq!(IndexRefFlag::NeedsLoc.mask(), 1);
    assert_eq!(IndexRefFlag::NeedsText.mask(), 2);
}

#[test]
fn empty_fields_are_allowed() {
    // A trailing space makes the fragment empty.
    match parse("indexdef idx foo ") {
        Some(Metadatum::IndexDef { fragment, .. }) => assert_eq!(fragment, ""),
        _ => panic!("wrong parse"),
    }
}

#[test]
fn unknown_forms_are_rejected() {
    assert!(parse("").is_none());
    assert!(parse("bogus a b").is_none());
    assert!(parse("output").is_none());
    assert!(parse("output two tokens").is_none());
    assert!(parse("indexdef idx foo").is_none());
    assert!(parse("indexdef idx foo frag extra").is_none());
    assert!(parse("indextext idx foo tex").is_none());
    assert!(parse("indexref idx foo").is_none());
}

#[test]
fn indexref_flags_must_be_a_decimal_byte() {
    assert!(parse("indexref idx foo 0").is_some());
    assert!(parse("indexref idx foo 255").is_some());
    assert!(parse("indexref idx foo 256").is_none());
    assert!(parse("indexref idx foo 1x").is_none());
    assert!(parse("indexref idx foo -1").is_none());
    assert!(parse("indexref idx foo ").is_none());
}

#[test]
fn nul_characters_are_rejected() {
    assert!(parse("output entry-a\0.html").is_none());
    assert!(parse("indexdef idx f\0o frag").is_none());
}

#[test]
fn stream_parses_line_by_line() {
    let text = "output entry-foo.html\nindexdef idx foo frag1\nindexref idx foo 1\n";
    let items = ttpedia_backend::metadata::parse_pedia(text).expect("stream parses");
    assert_eq!(items.len(), 3);
}

#[test]
fn stream_accepts_crlf_and_missing_final_newline() {
    let text = "output entry-foo.html\r\nindexref idx foo 1";
    let items = ttpedia_backend::metadata::parse_pedia(text).expect("stream parses");
    assert_eq!(items.len(), 2);
    match &items[0] {
        Metadatum::Output(o) => assert_eq!(o, "entry-foo.html"),
        _ => panic!("wrong parse"),
    }
}

#[test]
fn stream_reports_first_bad_line() {
    let text = "output entry-foo.html\nwhat is this\nindexref idx foo 1\n";
    match ttpedia_backend::metadata::parse_pedia(text) {
        Err(line) => assert_eq!(line, 1),
        Ok(_) => panic!("should have failed"),
    }
}

#[test]
fn empty_stream_is_empty() {
    let items = ttpedia_backend::metadata::parse_pedia("").expect("empty stream parses");
    assert_eq!(items.len(), 0);
}
