//! Binary encoding of the cross-reference index.
//!
//! Keys have the form `0x80 || index-utf8 || 0x00 || entry-utf8`; the leading
//! byte reserves a namespace for index definitions, other leading bytes being
//! reserved for future kinds. Values are four UTF-8 fields (defining entry,
//! fragment, plain-text form, TeX form) separated by `0x00`. Neither keys nor
//! values may themselves contain `0x00`; the parser upholds that for every
//! field it produces. A value shorter than four fields is read with the
//! missing trailing fields empty, and empty fields are replaced by defaults
//! chosen by the reader.

use vstd::prelude::*;
use vstd::string::StrSliceExecFns;
use vstd::utf8::char_is_scalar;
use vstd::utf8::char_u32_cast;
use vstd::utf8::decode_utf8;
use vstd::utf8::encode_scalar;
use vstd::utf8::encode_utf8;
use vstd::utf8::encode_utf8_decode_utf8;
use vstd::utf8::encode_utf8_valid_utf8;
use vstd::utf8::has_width_1_encoding;
use vstd::utf8::has_width_2_encoding;
use vstd::utf8::has_width_3_encoding;
use vstd::utf8::valid_utf8;

verus! {

/// The leading byte of every index-definition key.
pub const INDEX_DEF_MARKER: u8 = 0x80;

/// Splitting a byte sequence on a separator byte. The result always has at
/// least one field; an empty input yields one empty field.
pub open spec fn split_bytes(s: Seq<u8>, sep: u8) -> Seq<Seq<u8>>
    decreases s.len(),
{
    if s.len() == 0 {
        seq![Seq::<u8>::empty()]
    } else {
        let prev = split_bytes(s.drop_last(), sep);
        if s.last() == sep {
            prev.push(Seq::<u8>::empty())
        } else {
            prev.update(prev.len() - 1, prev.last().push(s.last()))
        }
    }
}

pub proof fn lemma_split_bytes_len(s: Seq<u8>, sep: u8)
    ensures
        split_bytes(s, sep).len() >= 1,
    decreases s.len(),
{
    if s.len() > 0 {
        lemma_split_bytes_len(s.drop_last(), sep);
    }
}

/// A sequence free of the separator splits into exactly itself.
pub proof fn lemma_split_bytes_clear(s: Seq<u8>, sep: u8)
    requires
        forall|k: int| 0 <= k < s.len() ==> s[k] != sep,
    ensures
        split_bytes(s, sep) == seq![s],
    decreases s.len(),
{
    if s.len() == 0 {
        assert(split_bytes(s, sep) =~~= seq![s]);
    } else {
        lemma_split_bytes_clear(s.drop_last(), sep);
        assert(split_bytes(s, sep) =~~= seq![s]);
    }
}

/// Splitting distributes over a separator placed between two sequences.
pub proof fn lemma_split_bytes_append(s: Seq<u8>, t: Seq<u8>, sep: u8)
    ensures
        split_bytes(s + seq![sep] + t, sep) == split_bytes(s, sep) + split_bytes(t, sep),
    decreases t.len(),
{
    lemma_split_bytes_len(s, sep);
    lemma_split_bytes_len(t, sep);
    if t.len() == 0 {
        assert((s + seq![sep] + t).drop_last() =~= s);
        assert(split_bytes(s + seq![sep] + t, sep) =~= split_bytes(s, sep) + split_bytes(t, sep));
    } else {
        lemma_split_bytes_append(s, t.drop_last(), sep);
        lemma_split_bytes_len(t.drop_last(), sep);
        let whole = s + seq![sep] + t;
        assert(whole.drop_last() =~= s + seq![sep] + t.drop_last());
        assert(whole.last() == t.last());
        if t.last() == sep {
            assert(split_bytes(whole, sep) =~= split_bytes(s, sep) + split_bytes(t, sep));
        } else {
            assert(split_bytes(whole, sep) =~= split_bytes(s, sep) + split_bytes(t, sep));
        }
    }
}

/// The bytes of the index key for `(index, entry)`.
pub open spec fn index_key_bytes(index: Seq<char>, entry: Seq<char>) -> Seq<u8> {
    seq![INDEX_DEF_MARKER] + encode_utf8(index) + seq![0u8] + encode_utf8(entry)
}

/// The bytes of a four-field index value.
pub open spec fn index_value_bytes(e: Seq<u8>, f: Seq<u8>, p: Seq<u8>, t: Seq<u8>) -> Seq<u8> {
    e + seq![0u8] + f + seq![0u8] + p + seq![0u8] + t
}

/// The bytes of a four-field index value given as character strings.
pub open spec fn index_value_of_strs(e: Seq<char>, f: Seq<char>, p: Seq<char>, t: Seq<char>) -> Seq<
    u8,
> {
    index_value_bytes(encode_utf8(e), encode_utf8(f), encode_utf8(p), encode_utf8(t))
}

/// Encodes the binary key under which `(index, entry)` is stored.
pub fn encode_index_key(index: &str, entry: &str) -> (r: Vec<u8>)
    ensures
        r@ == index_key_bytes(index@, entry@),
{
    let mut v: Vec<u8> = Vec::new();
    v.push(INDEX_DEF_MARKER);
    let ib = index.as_bytes_vec();
    v.extend_from_slice(ib.as_slice());
    v.push(0);
    let eb = entry.as_bytes_vec();
    v.extend_from_slice(eb.as_slice());
    proof {
        assert(v@ =~= index_key_bytes(index@, entry@));
    }
    v
}

/// Encodes the four value fields, `0x00`-separated.
pub fn encode_index_value(e: &str, f: &str, p: &str, t: &str) -> (r: Vec<u8>)
    ensures
        r@ == index_value_of_strs(e@, f@, p@, t@),
{
    let mut v: Vec<u8> = Vec::new();
    let eb = e.as_bytes_vec();
    v.extend_from_slice(eb.as_slice());
    v.push(0);
    let fb = f.as_bytes_vec();
    v.extend_from_slice(fb.as_slice());
    v.push(0);
    let pb = p.as_bytes_vec();
    v.extend_from_slice(pb.as_slice());
    v.push(0);
    let tb = t.as_bytes_vec();
    v.extend_from_slice(tb.as_slice());
    proof {
        assert(v@ =~= index_value_of_strs(e@, f@, p@, t@));
    }
    v
}

/// Splits a stored value into its `0x00`-separated fields.
pub fn split_value_fields(v: &[u8]) -> (r: Vec<Vec<u8>>)
    ensures
        r.deep_view() == split_bytes(v@, 0),
        r.len() >= 1,
{
    let n = v.len();
    let mut r: Vec<Vec<u8>> = Vec::new();
    let mut cur: Vec<u8> = Vec::new();
    let mut i: usize = 0;
    while i < n
        invariant
            i <= n,
            n == v@.len(),
            r.deep_view().push(cur@) =~~= split_bytes(v@.take(i as int), 0),
        decreases n - i,
    {
        let b = v[i];
        proof {
            assert(v@.take(i + 1).drop_last() =~= v@.take(i as int));
            assert(v@.take(i + 1).last() == v@[i as int]);
        }
        if b == 0 {
            r.push(cur);
            cur = Vec::new();
            proof {
                assert(r.deep_view().push(cur@) =~~= split_bytes(v@.take(i + 1), 0));
            }
        } else {
            cur.push(b);
            proof {
                lemma_split_bytes_len(v@.take(i as int), 0);
                assert(cur@ =~= split_bytes(v@.take(i as int), 0).last().push(v@[i as int]));
                assert(r.deep_view().push(cur@) =~~= split_bytes(v@.take(i + 1), 0));
            }
        }
        i = i + 1;
    }
    proof {
        assert(v@.take(n as int) =~= v@);
    }
    r.push(cur);
    proof {
        assert(r.deep_view() =~~= split_bytes(v@, 0));
    }
    r
}

/// Relies on `core::str::from_utf8`: it succeeds exactly on valid UTF-8 and
/// views the bytes as the characters they encode.
#[verifier::external_body]
fn try_utf8<'a>(b: &'a [u8]) -> (r: Option<&'a str>)
    ensures
        r is Some <==> valid_utf8(b@),
        r matches Some(s) ==> s@ == decode_utf8(b@),
{
    core::str::from_utf8(b).ok()
}

/// What a reader makes of one optional, possibly empty, possibly non-UTF-8
/// value field: the decoded characters, or the default.
pub open spec fn field_str(b: Option<Seq<u8>>, default: Seq<char>) -> Seq<char> {
    match b {
        Option::None => default,
        Option::Some(bb) => if bb.len() == 0 || !valid_utf8(bb) {
            default
        } else {
            decode_utf8(bb)
        },
    }
}

/// Reads one value field: a missing, empty, or non-UTF-8 field is replaced by
/// the default.
pub fn maybe_slice_to_str_or_default<'a>(b: Option<&'a [u8]>, default: &'a str) -> (r: &'a str)
    ensures
        b is None ==> r@ == default@,
        b matches Some(bb) ==> r@ == field_str(Some(bb@), default@),
{
    match b {
        Option::None => default,
        Option::Some(bb) => {
            if bb.len() == 0 {
                default
            } else {
                match try_utf8(bb) {
                    Option::Some(s) => s,
                    Option::None => default,
                }
            }
        },
    }
}

proof fn lemma_encode_scalar_no_zero(c: char)
    requires
        c != '\0',
    ensures
        forall|j: int|
            0 <= j < encode_scalar(c as u32).len() ==> #[trigger] encode_scalar(c as u32)[j] != 0,
{
    char_is_scalar(c);
    let s = c as u32;
    if s == 0 {
        char_u32_cast(c, s);
        assert(false);
    }
    if has_width_1_encoding(s) {
        assert(((s & 0x7F) as u8) != 0) by (bit_vector)
            requires
                s <= 0x7F,
                s != 0,
        ;
    } else if has_width_2_encoding(s) {
        assert((0xC0 | (((s >> 6) & 0x1F) as u8)) != 0) by (bit_vector);
        assert((0x80 | ((s & 0x3F) as u8)) != 0) by (bit_vector);
    } else if has_width_3_encoding(s) {
        assert((0xE0 | (((s >> 12) & 0x0F) as u8)) != 0) by (bit_vector);
        assert((0x80 | (((s >> 6) & 0x3F) as u8)) != 0) by (bit_vector);
        assert((0x80 | ((s & 0x3F) as u8)) != 0) by (bit_vector);
    } else {
        assert((0xF0 | (((s >> 18) & 0x7) as u8)) != 0) by (bit_vector);
        assert((0x80 | (((s >> 12) & 0x3F) as u8)) != 0) by (bit_vector);
        assert((0x80 | (((s >> 6) & 0x3F) as u8)) != 0) by (bit_vector);
        assert((0x80 | ((s & 0x3F) as u8)) != 0) by (bit_vector);
    }
}

/// The UTF-8 encoding of a string without NUL characters contains no zero
/// byte.
pub proof fn lemma_encode_utf8_no_zero(s: Seq<char>)
    requires
        forall|k: int| 0 <= k < s.len() ==> s[k] != '\0',
    ensures
        forall|j: int| 0 <= j < encode_utf8(s).len() ==> encode_utf8(s)[j] != 0,
    decreases s.len(),
{
    if s.len() > 0 {
        lemma_encode_scalar_no_zero(s[0]);
        lemma_encode_utf8_no_zero(s.drop_first());
        let head = encode_scalar(s[0] as u32);
        let tail = encode_utf8(s.drop_first());
        assert(encode_utf8(s) == head + tail);
        assert forall|j: int| 0 <= j < encode_utf8(s).len() implies encode_utf8(s)[j] != 0 by {
            if j < head.len() {
                assert(encode_utf8(s)[j] == head[j]);
            } else {
                assert(encode_utf8(s)[j] == tail[j - head.len()]);
            }
        }
    }
}

/// Round trip at the byte level: a four-field value whose fields contain no
/// `0x00` splits back into exactly those fields.
pub proof fn lemma_value_round_trip_bytes(e: Seq<u8>, f: Seq<u8>, p: Seq<u8>, t: Seq<u8>)
    requires
        forall|k: int| 0 <= k < e.len() ==> e[k] != 0,
        forall|k: int| 0 <= k < f.len() ==> f[k] != 0,
        forall|k: int| 0 <= k < p.len() ==> p[k] != 0,
        forall|k: int| 0 <= k < t.len() ==> t[k] != 0,
    ensures
        split_bytes(index_value_bytes(e, f, p, t), 0) == seq![e, f, p, t],
{
    lemma_split_bytes_clear(e, 0);
    lemma_split_bytes_clear(f, 0);
    lemma_split_bytes_clear(p, 0);
    lemma_split_bytes_clear(t, 0);
    lemma_split_bytes_append(e + seq![0u8] + f + seq![0u8] + p, t, 0);
    lemma_split_bytes_append(e + seq![0u8] + f, p, 0);
    lemma_split_bytes_append(e, f, 0);
    assert(e + seq![0u8] + f + seq![0u8] + p + seq![0u8] + t =~= (e + seq![0u8] + f + seq![0u8] + p)
        + seq![0u8] + t);
    assert(e + seq![0u8] + f + seq![0u8] + p =~= (e + seq![0u8] + f) + seq![0u8] + p);
    assert(split_bytes(index_value_bytes(e, f, p, t), 0) =~= seq![e, f, p, t]);
}

/// Round trip at the string level: writing four NUL-free strings and reading
/// the four fields back preserves every field exactly.
pub proof fn lemma_value_round_trip(e: Seq<char>, f: Seq<char>, p: Seq<char>, t: Seq<char>)
    requires
        forall|k: int| 0 <= k < e.len() ==> e[k] != '\0',
        forall|k: int| 0 <= k < f.len() ==> f[k] != '\0',
        forall|k: int| 0 <= k < p.len() ==> p[k] != '\0',
        forall|k: int| 0 <= k < t.len() ==> t[k] != '\0',
    ensures
        split_bytes(index_value_of_strs(e, f, p, t), 0) == seq![
            encode_utf8(e),
            encode_utf8(f),
            encode_utf8(p),
            encode_utf8(t),
        ],
        decode_utf8(encode_utf8(e)) == e,
        decode_utf8(encode_utf8(f)) == f,
        decode_utf8(encode_utf8(p)) == p,
        decode_utf8(encode_utf8(t)) == t,
{
    lemma_encode_utf8_no_zero(e);
    lemma_encode_utf8_no_zero(f);
    lemma_encode_utf8_no_zero(p);
    lemma_encode_utf8_no_zero(t);
    lemma_value_round_trip_bytes(encode_utf8(e), encode_utf8(f), encode_utf8(p), encode_utf8(t));
    encode_utf8_decode_utf8(e);
    encode_utf8_decode_utf8(f);
    encode_utf8_decode_utf8(p);
    encode_utf8_decode_utf8(t);
}

/// A non-empty NUL-free string field reads back as itself; an empty one reads
/// back as the default.
pub proof fn lemma_field_str_encoded(s: Seq<char>, default: Seq<char>)
    requires
        forall|k: int| 0 <= k < s.len() ==> s[k] != '\0',
    ensures
        field_str(Some(encode_utf8(s)), default) == if s.len() == 0 {
            default
        } else {
            s
        },
{
    encode_utf8_valid_utf8(s);
    encode_utf8_decode_utf8(s);
    if s.len() > 0 {
        if encode_utf8(s).len() == 0 {
            assert(decode_utf8(encode_utf8(s)).len() == 0);
        }
    }
}

} // verus!
