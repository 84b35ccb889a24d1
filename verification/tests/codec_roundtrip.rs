//! The binary index codec: key encoding, value encoding, and field reads.

use ttpedia_backend::codec::{
    encode_index_key, encode_index_value, maybe_slice_to_str_or_default, split_value_fields,
    INDEX_DEF_MARKER,
};

#[test]
fn key_encoding_is_exact() {
    let k = encode_index_key("idx", "foo");
    let mut expected = vec![INDEX_DEF_MARKER];
    expected.extend_from_slice(b"idx");
    expected.push(0);
    expected.extend_from_slice(b"foo");
    assert_eq!(k, expected);
}

#[test]
fn key_encoding_marker_is_namespaced() {
    assert_eq!(INDEX_DEF_MARKER, 0x80);
    let k = encode_index_key("", "");
    assert_eq!(k, vec![0x80, 0x00]);
}

#[test]
fn value_encoding_is_exact() {
    let v = encode_index_value("ent", "frag", "plain", "tex");
    assert_eq!(v, b"ent\0frag\0plain\0tex".to_vec());
}

#[test]
fn value_round_trip_preserves_all_four_fields() {
    let v = encode_index_value("ent", "frag", "plain", "tex");
    let fields = split_value_fields(&v);
    assert_eq!(fields.len(), 4);
    assert_eq!(fields[0], b"ent".to_vec());
    assert_eq!(fields[1], b"frag".to_vec());
    assert_eq!(fields[2], b"plain".to_vec());
    assert_eq!(fields[3], b"tex".to_vec());
}

#[test]
fn value_round_trip_preserves_empty_fields() {
    let v = encode_index_value("", "", "", "");
    let fields = split_value_fields(&v);
    assert_eq!(fields.len(), 4);
    for f in &fields {
        assert!(f.is_empty());
    }
}

#[test]
fn short_values_read_with_missing_trailing_fields() {
    // The two-byte value used for missing keys splits into three empty fields.
    let fields = split_value_fields(&[0u8, 0u8]);
    assert_eq!(fields.len(), 3);
    assert!(fields.iter().all(|f| f.is_empty()));
}

#[test]
fn field_read_defaults() {
    assert_eq!(maybe_slice_to_str_or_default(None, "DEF"), "DEF");
    assert_eq!(maybe_slice_to_str_or_default(Some(b""), "DEF"), "DEF");
    assert_eq!(maybe_slice_to_str_or_default(Some(&[0xFF, 0xFE]), "DEF"), "DEF");
    assert_eq!(maybe_slice_to_str_or_default(Some(b"value"), "DEF"), "value");
}

#[test]
fn unicode_fields_round_trip() {
    let v = encode_index_value("caf\u{e9}", "", "\u{3042}", "x");
    let fields = split_value_fields(&v);
    assert_eq!(fields.len(), 4);
    assert_eq!(
        maybe_slice_to_str_or_default(Some(&fields[0]), "DEF"),
        "caf\u{e9}"
    );
    assert_eq!(
        maybe_slice_to_str_or_default(Some(&fields[2]), "DEF"),
        "\u{3042}"
    );
}
