//! Cross-reference resolution and recording.
//!
//! During a `pass1` request the nexus walks the metadatum stream once,
//! tracking the current entry set by `output` lines. Every `indexref` line is
//! resolved against the store's current snapshot and contributes resolved
//! TeX definitions; every `indexdef` and `indextext` line stages fields of the
//! four-field value for its `(index, entry)` key. At the end of the walk the
//! staged values are written, so references in one stream never see that same
//! stream's definitions.

use vstd::prelude::*;
use vstd::string::StrSliceExecFns;
use lmdb::Database;
use lmdb::RwTransaction;
use vstd::string::StringExecFns;
use vstd::utf8::encode_utf8;

use crate::codec::encode_index_key;
use crate::codec::encode_index_value;
use crate::codec::field_str;
use crate::codec::lemma_field_str_encoded;
use crate::codec::lemma_value_round_trip;
use crate::codec::index_key_bytes;
use crate::codec::index_value_of_strs;
use crate::codec::maybe_slice_to_str_or_default;
use crate::codec::split_bytes;
use crate::codec::split_value_fields;
use crate::metadata::IndexRefFlag;
use crate::metadata::no_nul;
use crate::metadata::parse_lines;
use crate::metadata::parse_metadatum;
use crate::metadata::parse_pedia_spec;
use crate::metadata::Metadatum;
use crate::metadata::MetadatumView;
use crate::store::txn_get;
use crate::store::txn_map;
use crate::store::txn_put;
use crate::strutil::bytes_eq;
use crate::strutil::push_str;
use crate::strutil::str_ends_with;
use crate::strutil::str_starts_with;

verus! {

/// The key of one cross-reference: a named index, and an entry within it.
pub struct IndexKey {
    pub index: String,
    pub entry: String,
}

impl IndexKey {
    /// Builds the key for `(index, entry)`.
    pub fn new(index: &str, entry: &str) -> (r: IndexKey)
        ensures
            r.index@ == index@,
            r.entry@ == entry@,
    {
        IndexKey { index: index.to_owned(), entry: entry.to_owned() }
    }
}

/// The staged fields of one index value; a field left `None` is written
/// empty.
pub struct IndexValue {
    pub entry: Option<String>,
    pub fragment: Option<String>,
    pub atplain: Option<String>,
    pub tex: Option<String>,
}

/// The mathematical view of a staged value.
pub struct QuadView {
    pub entry: Option<Seq<char>>,
    pub fragment: Option<Seq<char>>,
    pub atplain: Option<Seq<char>>,
    pub tex: Option<Seq<char>>,
}

impl View for IndexValue {
    type V = QuadView;

    open spec fn view(&self) -> QuadView {
        QuadView {
            entry: match self.entry {
                Some(ref s) => Some(s@),
                None => None,
            },
            fragment: match self.fragment {
                Some(ref s) => Some(s@),
                None => None,
            },
            atplain: match self.atplain {
                Some(ref s) => Some(s@),
                None => None,
            },
            tex: match self.tex {
                Some(ref s) => Some(s@),
                None => None,
            },
        }
    }
}

/// A staged value with no field set.
pub open spec fn empty_quad() -> QuadView {
    QuadView { entry: None, fragment: None, atplain: None, tex: None }
}

/// An unset field is written as the empty string.
pub open spec fn opt_str(o: Option<Seq<char>>) -> Seq<char> {
    match o {
        Some(s) => s,
        None => Seq::<char>::empty(),
    }
}

/// The encoded bytes a staged value is written as.
pub open spec fn value_bytes_of_quad(q: QuadView) -> Seq<u8> {
    index_value_of_strs(opt_str(q.entry), opt_str(q.fragment), opt_str(q.atplain), opt_str(q.tex))
}

/// The stem of an output file name of the form `entry-<stem>.html`; any other
/// name yields the empty stem.
pub open spec fn output_stem(o: Seq<char>) -> Seq<char> {
    if o.len() >= 11 && o.take(6) == "entry-"@ && o.skip(o.len() - 5) == ".html"@ {
        o.subrange(6, o.len() - 5)
    } else {
        Seq::<char>::empty()
    }
}

/// Extracts the stem of an output file name.
pub fn output_stem_exec(o: &str) -> (r: String)
    ensures
        r@ == output_stem(o@),
{
    let n = o.unicode_len();
    proof {
        reveal_strlit("entry-");
        reveal_strlit(".html");
    }
    if n >= 11 && str_starts_with(o, "entry-") && str_ends_with(o, ".html") {
        let stem = o.substring_char(6, n - 5);
        proof {
            assert(stem@ =~= output_stem(o@));
        }
        stem.to_owned()
    } else {
        String::new()
    }
}

/// One step of the staging walk: how one metadatum changes the staged map and
/// the current entry.
pub open spec fn stage_item(
    acc: Map<Seq<u8>, QuadView>,
    current: Seq<char>,
    it: MetadatumView,
) -> (Map<Seq<u8>, QuadView>, Seq<char>) {
    match it {
        MetadatumView::Output(o) => (acc, output_stem(o)),
        MetadatumView::IndexDef { index, entry, fragment } => {
            let k = index_key_bytes(index, entry);
            let prev = if acc.dom().contains(k) {
                acc[k]
            } else {
                empty_quad()
            };
            (
                acc.insert(
                    k,
                    QuadView {
                        entry: Some(current),
                        fragment: Some(fragment),
                        atplain: prev.atplain,
                        tex: prev.tex,
                    },
                ),
                current,
            )
        },
        MetadatumView::IndexText { index, entry, tex, atplain } => {
            let k = index_key_bytes(index, entry);
            let prev = if acc.dom().contains(k) {
                acc[k]
            } else {
                empty_quad()
            };
            (
                acc.insert(
                    k,
                    QuadView {
                        entry: prev.entry,
                        fragment: prev.fragment,
                        atplain: Some(atplain),
                        tex: Some(tex),
                    },
                ),
                current,
            )
        },
        MetadatumView::IndexRef { .. } => (acc, current),
    }
}

/// The staging walk over a stream, from a given state.
pub open spec fn stage_rec(
    acc: Map<Seq<u8>, QuadView>,
    current: Seq<char>,
    items: Seq<MetadatumView>,
) -> (Map<Seq<u8>, QuadView>, Seq<char>)
    decreases items.len(),
{
    if items.len() == 0 {
        (acc, current)
    } else {
        let (a2, c2) = stage_item(acc, current, items[0]);
        stage_rec(a2, c2, items.drop_first())
    }
}

/// The staged map a whole stream leaves behind.
pub open spec fn stage_fold(items: Seq<MetadatumView>) -> Map<Seq<u8>, QuadView> {
    stage_rec(Map::<Seq<u8>, QuadView>::empty(), Seq::<char>::empty(), items).0
}

/// The staged writes, encoded: what the stream adds to the store.
pub open spec fn staged_encoded(items: Seq<MetadatumView>) -> Map<Seq<u8>, Seq<u8>> {
    let sm = stage_fold(items);
    Map::<Seq<u8>, Seq<u8>>::new(
        |k: Seq<u8>| sm.dom().contains(k),
        |k: Seq<u8>| value_bytes_of_quad(sm[k]),
    )
}

/// Appending one item runs the staging walk one more step.
pub proof fn lemma_stage_rec_push(
    acc: Map<Seq<u8>, QuadView>,
    current: Seq<char>,
    items: Seq<MetadatumView>,
    it: MetadatumView,
)
    ensures
        stage_rec(acc, current, items.push(it)) == stage_item(
            stage_rec(acc, current, items).0,
            stage_rec(acc, current, items).1,
            it,
        ),
    decreases items.len(),
{
    if items.len() == 0 {
        assert(items.push(it)[0] == it);
        assert(items.push(it).drop_first() =~= Seq::<MetadatumView>::empty());
        let t = stage_item(acc, current, it);
        assert(stage_rec(acc, current, items.push(it)) == stage_rec(t.0, t.1, Seq::<MetadatumView>::empty()));
        assert(stage_rec(t.0, t.1, Seq::<MetadatumView>::empty()) == (t.0, t.1));
        assert(stage_rec(acc, current, items) == (acc, current));
    } else {
        let a2 = stage_item(acc, current, items[0]).0;
        let c2 = stage_item(acc, current, items[0]).1;
        assert(items.push(it)[0] == items[0]);
        assert(items.push(it).drop_first() =~= items.drop_first().push(it));
        lemma_stage_rec_push(a2, c2, items.drop_first(), it);
        assert(stage_rec(acc, current, items.push(it)) == stage_rec(a2, c2, items.drop_first().push(it)));
        assert(stage_rec(acc, current, items) == stage_rec(a2, c2, items.drop_first()));
    }
}

/// What one field of a stored value reads as: the `i`-th field if present,
/// else the default; empty and non-UTF-8 fields also read as the default.
pub open spec fn field_at(fields: Seq<Seq<u8>>, i: int, default: Seq<char>) -> Seq<char> {
    if 0 <= i < fields.len() {
        field_str(Some(fields[i]), default)
    } else {
        default
    }
}

/// The stored value a reference resolves against: the value under its key, or
/// the two-byte value `0x00 0x00` when the key is absent.
pub open spec fn stored_value(m: Map<Seq<u8>, Seq<u8>>, index: Seq<char>, entry: Seq<char>) -> Seq<
    u8,
> {
    let k = index_key_bytes(index, entry);
    if m.dom().contains(k) {
        m[k]
    } else {
        seq![0u8, 0u8]
    }
}

/// The location definition line for one resolved reference.
pub open spec fn loc_line(
    index: Seq<char>,
    entry: Seq<char>,
    body1: Seq<char>,
    body2: Seq<char>,
) -> Seq<char> {
    "\\expandafter\\def\\csname pedia resolve**"@ + index + "**"@ + entry
        + "**loc\\endcsname{"@ + body1 + body2 + "}\n"@
}

/// The TeX text-form definition line for one resolved reference.
pub open spec fn text_tex_line(index: Seq<char>, entry: Seq<char>, body: Seq<char>) -> Seq<char> {
    "\\expandafter\\def\\csname pedia resolve**"@ + index + "**"@ + entry
        + "**text tex\\endcsname{"@ + body + "}\n"@
}

/// The plain text-form definition line for one resolved reference.
pub open spec fn text_plain_line(index: Seq<char>, entry: Seq<char>, body: Seq<char>) -> Seq<
    char,
> {
    "\\expandafter\\def\\csname pedia resolve**"@ + index + "**"@ + entry
        + "**text plain\\endcsname{"@ + body + "}\n"@
}

/// Everything one reference contributes, given the split fields of the stored
/// value it resolves against.
pub open spec fn ref_lines_from_fields(
    index: Seq<char>,
    entry: Seq<char>,
    flags: u8,
    fields: Seq<Seq<u8>>,
) -> Seq<char> {
    let loc = if flags & 1 != 0 {
        loc_line(
            index,
            entry,
            field_at(fields, 0, "ENTRYREF"@),
            field_at(fields, 1, Seq::<char>::empty()),
        )
    } else {
        Seq::<char>::empty()
    };
    let text = if flags & 2 != 0 {
        text_tex_line(index, entry, field_at(fields, 3, entry)) + text_plain_line(
            index,
            entry,
            field_at(fields, 2, entry),
        )
    } else {
        Seq::<char>::empty()
    };
    loc + text
}

/// Everything one reference contributes to the resolved-reference TeX, given
/// the store contents it resolves against.
pub open spec fn ref_out(
    m: Map<Seq<u8>, Seq<u8>>,
    index: Seq<char>,
    entry: Seq<char>,
    flags: u8,
) -> Seq<char> {
    ref_lines_from_fields(index, entry, flags, split_bytes(stored_value(m, index, entry), 0))
}

/// What one metadatum contributes to the resolved-reference TeX.
pub open spec fn item_out(m: Map<Seq<u8>, Seq<u8>>, it: MetadatumView) -> Seq<char> {
    match it {
        MetadatumView::IndexRef { index, entry, flags } => ref_out(m, index, entry, flags),
        _ => Seq::<char>::empty(),
    }
}

/// The resolved-reference TeX of a whole stream against store contents `m`.
pub open spec fn rrtex_of(m: Map<Seq<u8>, Seq<u8>>, items: Seq<MetadatumView>) -> Seq<char>
    decreases items.len(),
{
    if items.len() == 0 {
        Seq::<char>::empty()
    } else {
        item_out(m, items[0]) + rrtex_of(m, items.drop_first())
    }
}

/// Appending one item appends its contribution.
pub proof fn lemma_rrtex_of_push(
    m: Map<Seq<u8>, Seq<u8>>,
    items: Seq<MetadatumView>,
    it: MetadatumView,
)
    ensures
        rrtex_of(m, items.push(it)) == rrtex_of(m, items) + item_out(m, it),
    decreases items.len(),
{
    if items.len() == 0 {
        assert(items.push(it)[0] == it);
        assert(items.push(it).drop_first() =~= Seq::<MetadatumView>::empty());
        assert(rrtex_of(m, Seq::<MetadatumView>::empty()) == Seq::<char>::empty());
        assert(rrtex_of(m, items.push(it)) == item_out(m, it) + Seq::<char>::empty());
        assert(rrtex_of(m, items.push(it)) =~= rrtex_of(m, items) + item_out(m, it));
    } else {
        assert(items.push(it)[0] == items[0]);
        assert(items.push(it).drop_first() =~= items.drop_first().push(it));
        lemma_rrtex_of_push(m, items.drop_first(), it);
        assert(rrtex_of(m, items.push(it)) == item_out(m, items[0]) + rrtex_of(
            m,
            items.drop_first().push(it),
        ));
        assert(rrtex_of(m, items) == item_out(m, items[0]) + rrtex_of(m, items.drop_first()));
        assert(item_out(m, items[0]) + (rrtex_of(m, items.drop_first()) + item_out(m, it)) =~= (
        item_out(m, items[0]) + rrtex_of(m, items.drop_first())) + item_out(m, it));
        assert(rrtex_of(m, items.push(it)) =~= rrtex_of(m, items) + item_out(m, it));
    }
}


/// Finds the staged slot holding the given binary key, if any.
fn find_staged(staged: &Vec<(Vec<u8>, IndexValue)>, key: &Vec<u8>) -> (r: Option<usize>)
    ensures
        r matches Some(j) ==> 0 <= j < staged.len() && staged@[j as int].0@ == key@,
        r is None ==> forall|j: int| 0 <= j < staged.len() ==> staged@[j].0@ != key@,
{
    let n = staged.len();
    let mut j: usize = 0;
    while j < n
        invariant
            j <= n,
            n == staged.len(),
            forall|k: int| 0 <= k < j ==> staged@[k].0@ != key@,
        decreases n - j,
    {
        if bytes_eq(&staged[j].0, key) {
            return Some(j);
        }
        j = j + 1;
    }
    None
}

/// A staged field as the string it will be written as: its contents, or empty.
fn opt_field_str(o: &Option<String>) -> (r: &str)
    ensures
        o matches Some(s) ==> r@ == s@,
        o is None ==> r@ == Seq::<char>::empty(),
{
    proof {
        reveal_strlit("");
    }
    match o {
        Some(s) => s.as_str(),
        None => "",
    }
}

/// Appends the resolved-reference lines for one reference to `out`, given the
/// split fields of the stored value it resolves against.
#[verifier::rlimit(60)]
fn emit_ref_lines(out: &mut String, index: &str, entry: &str, flags: u8, fields: &Vec<Vec<u8>>)
    ensures
        final(out)@ == old(out)@ + ref_lines_from_fields(index@, entry@, flags, fields.deep_view()),
{
    let ghost fv = fields.deep_view();
    let ghost base = out@;
    proof {
        reveal_strlit("");
    }
    let needs_loc = IndexRefFlag::NeedsLoc.mask();
    let needs_text = IndexRefFlag::NeedsText.mask();
    if flags & needs_loc != 0 {
        let e_txt = maybe_slice_to_str_or_default(
            if fields.len() > 0 {
                Some(fields[0].as_slice())
            } else {
                None
            },
            "ENTRYREF",
        );
        let f_txt = maybe_slice_to_str_or_default(
            if fields.len() > 1 {
                Some(fields[1].as_slice())
            } else {
                None
            },
            "",
        );
        proof {
            if fields.len() > 0 {
                assert(fv[0] =~= fields@[0]@);
            }
            if fields.len() > 1 {
                assert(fv[1] =~= fields@[1]@);
            }
            assert(e_txt@ == field_at(fv, 0, "ENTRYREF"@));
            assert(f_txt@ == field_at(fv, 1, Seq::<char>::empty()));
        }
        push_str(out, "\\expandafter\\def\\csname pedia resolve**");
        push_str(out, index);
        push_str(out, "**");
        push_str(out, entry);
        push_str(out, "**loc\\endcsname{");
        push_str(out, e_txt);
        push_str(out, f_txt);
        push_str(out, "}\n");
        proof {
            assert(out@ =~= base + loc_line(
                index@,
                entry@,
                field_at(fv, 0, "ENTRYREF"@),
                field_at(fv, 1, Seq::<char>::empty()),
            ));
        }
    }
    let ghost mid = out@;
    if flags & needs_text != 0 {
        let t_txt = maybe_slice_to_str_or_default(
            if fields.len() > 3 {
                Some(fields[3].as_slice())
            } else {
                None
            },
            entry,
        );
        let p_txt = maybe_slice_to_str_or_default(
            if fields.len() > 2 {
                Some(fields[2].as_slice())
            } else {
                None
            },
            entry,
        );
        proof {
            if fields.len() > 2 {
                assert(fv[2] =~= fields@[2]@);
            }
            if fields.len() > 3 {
                assert(fv[3] =~= fields@[3]@);
            }
            assert(t_txt@ == field_at(fv, 3, entry@));
            assert(p_txt@ == field_at(fv, 2, entry@));
        }
        push_str(out, "\\expandafter\\def\\csname pedia resolve**");
        push_str(out, index);
        push_str(out, "**");
        push_str(out, entry);
        push_str(out, "**text tex\\endcsname{");
        push_str(out, t_txt);
        push_str(out, "}\n");
        push_str(out, "\\expandafter\\def\\csname pedia resolve**");
        push_str(out, index);
        push_str(out, "**");
        push_str(out, entry);
        push_str(out, "**text plain\\endcsname{");
        push_str(out, p_txt);
        push_str(out, "}\n");
        proof {
            assert(out@ =~= mid + text_tex_line(index@, entry@, field_at(fv, 3, entry@))
                + text_plain_line(index@, entry@, field_at(fv, 2, entry@)));
        }
    }
    proof {
        assert(out@ =~= base + ref_lines_from_fields(index@, entry@, flags, fv));
    }
}

/// After removing the slot that held `bk` (if any) and pushing a fresh slot
/// for it, every key of the updated staging map is still held by some slot.
proof fn lemma_staged_cover(
    pre: Seq<(Vec<u8>, IndexValue)>,
    post: Seq<(Vec<u8>, IndexValue)>,
    sm: Map<Seq<u8>, QuadView>,
    pos: Option<usize>,
    bk: Seq<u8>,
)
    requires
        match pos {
            Some(j) => 0 <= j < pre.len() && pre[j as int].0@ == bk && post =~= pre.remove(
                j as int,
            ).push(post.last()),
            None => post =~= pre.push(post.last()),
        },
        post.last().0@ == bk,
        forall|k: Seq<u8>|
            sm.dom().contains(k) && k != bk ==> exists|j0: int|
                0 <= j0 < pre.len() && (#[trigger] pre[j0].0@) == k,
    ensures
        forall|k: Seq<u8>|
            sm.dom().contains(k) ==> exists|j2: int|
                0 <= j2 < post.len() && (#[trigger] post[j2].0@) == k,
{
    assert forall|k: Seq<u8>| sm.dom().contains(k) implies exists|j2: int|
        0 <= j2 < post.len() && (#[trigger] post[j2].0@) == k by {
        if k == bk {
            assert(post[post.len() - 1].0@ == k);
        } else {
            let j0 = choose|j0: int| 0 <= j0 < pre.len() && (#[trigger] pre[j0].0@) == k;
            match pos {
                Some(j) => {
                    if j0 < j {
                        assert(post[j0].0@ == k);
                    } else if j0 > j {
                        assert(post[j0 - 1] == pre.remove(j as int)[j0 - 1]);
                        assert(pre.remove(j as int)[j0 - 1] == pre[j0]);
                        assert(post[j0 - 1].0@ == k);
                    } else {
                        // j0 == j is impossible: that slot held bk, and k != bk
                        assert(pre[j0].0@ == bk);
                        assert(false);
                    }
                },
                None => {
                    assert(post[j0].0@ == k);
                },
            }
        }
    }
}

/// Walks a parsed metadatum stream against the index store: resolves every
/// reference against the transaction's snapshot and, at the end of the walk,
/// records the staged definitions. References therefore never see the stream's
/// own definitions. The caller commits (or, on error, abandons) the
/// transaction. A failure can only come out of a store read or write, so a
/// stream that asks for neither — nothing but `output` lines — cannot fail.
#[verifier::rlimit(100)]
pub fn process_metadata<'e>(txn: &mut RwTransaction<'e>, db: Database, items: &Vec<Metadatum>) -> (r:
    Result<String, lmdb::Error>)
    ensures
        r matches Ok(rrtex) ==> rrtex@ == rrtex_of(txn_map(*old(txn), db), items.deep_view())
            && txn_map(*final(txn), db) == txn_map(*old(txn), db).union_prefer_right(
            staged_encoded(items.deep_view()),
        ),
        (forall|j: int|
            0 <= j < items.deep_view().len() ==> (#[trigger] items.deep_view()[j]) is Output)
            ==> r is Ok,
{
    let ghost m0 = txn_map(*txn, db);
    let ghost iv = items.deep_view();
    let n = items.len();
    proof {
        assert(iv.len() == n);
    }
    let mut rrtex = String::new();
    let mut current = String::new();
    let mut staged: Vec<(Vec<u8>, IndexValue)> = Vec::new();
    let ghost mut sm: Map<Seq<u8>, QuadView> = Map::<Seq<u8>, QuadView>::empty();
    let mut i: usize = 0;
    proof {
        assert(iv.take(0) =~= Seq::<MetadatumView>::empty());
    }
    while i < n
        invariant
            i <= n,
            n == items.len(),
            iv == items.deep_view(),
            iv.len() == n,
            txn_map(*txn, db) == m0,
            rrtex@ == rrtex_of(m0, iv.take(i as int)),
            sm == stage_rec(Map::<Seq<u8>, QuadView>::empty(), Seq::<char>::empty(), iv.take(i as int)).0,
            current@ == stage_rec(Map::<Seq<u8>, QuadView>::empty(), Seq::<char>::empty(), iv.take(i as int)).1,
            forall|j1: int, j2: int|
                0 <= j1 < j2 < staged.len() ==> staged@[j1].0@ != staged@[j2].0@,
            forall|j: int|
                0 <= j < staged.len() ==> sm.dom().contains(#[trigger] staged@[j].0@)
                    && sm[staged@[j].0@] == staged@[j].1@,
            forall|k: Seq<u8>|
                sm.dom().contains(k) ==> exists|j: int|
                    0 <= j < staged.len() && (#[trigger] staged@[j].0@) == k,
            (forall|j: int| 0 <= j < n ==> (#[trigger] iv[j]) is Output) ==> staged.len() == 0,
        decreases n - i,
    {
        let ghost prefix = iv.take(i as int);
        proof {
            assert(iv.take(i + 1) =~= prefix.push(iv[i as int]));
            lemma_stage_rec_push(
                Map::<Seq<u8>, QuadView>::empty(),
                Seq::<char>::empty(),
                prefix,
                iv[i as int],
            );
            lemma_rrtex_of_push(m0, prefix, iv[i as int]);
        }
        match &items[i] {
            Metadatum::Output(o) => {
                current = output_stem_exec(o.as_str());
            },
            Metadatum::IndexDef { index, entry, fragment } => {
                let key = IndexKey::new(index.as_str(), entry.as_str());
                let bkey = encode_index_key(key.index.as_str(), key.entry.as_str());
                let ghost bk = bkey@;
                let ghost pre = staged@;
                let pos = find_staged(&staged, &bkey);
                let newval = match pos {
                    Some(j) => {
                        let prev = staged.remove(j);
                        IndexValue {
                            entry: Some(current.clone()),
                            fragment: Some(fragment.clone()),
                            atplain: prev.1.atplain,
                            tex: prev.1.tex,
                        }
                    },
                    None => IndexValue {
                        entry: Some(current.clone()),
                        fragment: Some(fragment.clone()),
                        atplain: None,
                        tex: None,
                    },
                };
                staged.push((bkey, newval));
                proof {
                    sm = sm.insert(bk, staged@.last().1@);
                    lemma_staged_cover(pre, staged@, sm, pos, bk);
                    assert(!(iv[i as int] is Output));
                }
            },
            Metadatum::IndexText { index, entry, tex, atplain } => {
                let key = IndexKey::new(index.as_str(), entry.as_str());
                let bkey = encode_index_key(key.index.as_str(), key.entry.as_str());
                let ghost bk = bkey@;
                let ghost pre = staged@;
                let pos = find_staged(&staged, &bkey);
                let newval = match pos {
                    Some(j) => {
                        let prev = staged.remove(j);
                        IndexValue {
                            entry: prev.1.entry,
                            fragment: prev.1.fragment,
                            atplain: Some(atplain.clone()),
                            tex: Some(tex.clone()),
                        }
                    },
                    None => IndexValue {
                        entry: None,
                        fragment: None,
                        atplain: Some(atplain.clone()),
                        tex: Some(tex.clone()),
                    },
                };
                staged.push((bkey, newval));
                proof {
                    sm = sm.insert(bk, staged@.last().1@);
                    lemma_staged_cover(pre, staged@, sm, pos, bk);
                    assert(!(iv[i as int] is Output));
                }
            },
            Metadatum::IndexRef { index, entry, flags } => {
                let bkey = encode_index_key(index.as_str(), entry.as_str());
                let stored = match txn_get(txn, db, &bkey) {
                    Ok(v) => v,
                    Err(e) => {
                        proof {
                            assert(!(iv[i as int] is Output));
                        }
                        return Err(e);
                    },
                };
                let fields = match &stored {
                    Some(v) => split_value_fields(v.as_slice()),
                    None => {
                        let mut miss: Vec<u8> = Vec::new();
                        miss.push(0);
                        miss.push(0);
                        proof {
                            assert(miss@ =~= seq![0u8, 0u8]);
                        }
                        split_value_fields(miss.as_slice())
                    },
                };
                proof {
                    assert(fields.deep_view() == split_bytes(
                        stored_value(m0, index@, entry@),
                        0,
                    ));
                }
                emit_ref_lines(&mut rrtex, index.as_str(), entry.as_str(), *flags, &fields);
            },
        }
        i = i + 1;
    }
    proof {
        assert(iv.take(n as int) =~= iv);
    }

    // Record the staged definitions.
    let ghost all = staged@;
    let m = staged.len();
    proof {
        assert((forall|j: int| 0 <= j < iv.len() ==> (#[trigger] iv[j]) is Output) ==> m == 0);
    }
    let ghost mut written: Map<Seq<u8>, Seq<u8>> = Map::<Seq<u8>, Seq<u8>>::empty();
    let mut j: usize = 0;
    while j < m
        invariant
            j <= m,
            m == staged.len(),
            staged@ == all,
            iv == items.deep_view(),
            (forall|j2: int| 0 <= j2 < iv.len() ==> (#[trigger] iv[j2]) is Output) ==> m == 0,
            txn_map(*txn, db) == m0.union_prefer_right(written),
            forall|j1: int, j2: int| 0 <= j1 < j2 < m ==> all[j1].0@ != all[j2].0@,
            forall|jj: int|
                0 <= jj < m ==> sm.dom().contains(#[trigger] all[jj].0@) && sm[all[jj].0@]
                    == all[jj].1@,
            forall|k: Seq<u8>|
                sm.dom().contains(k) ==> exists|jj: int|
                    0 <= jj < m && (#[trigger] all[jj].0@) == k,
            forall|jj: int|
                0 <= jj < j ==> written.dom().contains(#[trigger] all[jj].0@)
                    && written[all[jj].0@] == value_bytes_of_quad(all[jj].1@),
            forall|k: Seq<u8>|
                written.dom().contains(k) ==> exists|jj: int|
                    0 <= jj < j && (#[trigger] all[jj].0@) == k,
        decreases m - j,
    {
        let e_s = opt_field_str(&staged[j].1.entry);
        let f_s = opt_field_str(&staged[j].1.fragment);
        let p_s = opt_field_str(&staged[j].1.atplain);
        let t_s = opt_field_str(&staged[j].1.tex);
        let bval = encode_index_value(e_s, f_s, p_s, t_s);
        proof {
            assert(bval@ == value_bytes_of_quad(all[j as int].1@));
        }
        match txn_put(txn, db, &staged[j].0, &bval) {
            Ok(()) => {},
            Err(e) => {
                return Err(e);
            },
        }
        proof {
            let k = all[j as int].0@;
            let w2 = written.insert(k, bval@);
            assert(m0.union_prefer_right(written).insert(k, bval@) =~= m0.union_prefer_right(w2));
            written = w2;
            assert forall|jj: int|
                0 <= jj < j + 1 implies written.dom().contains(#[trigger] all[jj].0@)
                && written[all[jj].0@] == value_bytes_of_quad(all[jj].1@) by {
                if jj < j {
                    assert(all[jj].0@ != k);
                }
            }
        }
        j = j + 1;
    }
    proof {
        assert(written =~~= staged_encoded(iv));
    }
    Ok(rrtex)
}

/// Whether a metadatum is an `indexdef` for the key stored at `k`.
pub open spec fn defines_key(it: MetadatumView, k: Seq<u8>) -> bool {
    match it {
        MetadatumView::IndexDef { index, entry, .. } => index_key_bytes(index, entry) == k,
        _ => false,
    }
}

/// Whether every string field of a metadatum is free of NUL characters, as
/// the parser guarantees for every line it accepts.
pub open spec fn item_no_nul(it: MetadatumView) -> bool {
    match it {
        MetadatumView::Output(o) => no_nul(o),
        MetadatumView::IndexDef { index, entry, fragment } => no_nul(index) && no_nul(entry)
            && no_nul(fragment),
        MetadatumView::IndexText { index, entry, tex, atplain } => no_nul(index) && no_nul(entry)
            && no_nul(tex) && no_nul(atplain),
        MetadatumView::IndexRef { index, entry, .. } => no_nul(index) && no_nul(entry),
    }
}

/// Whether every item of a stream has NUL-free fields.
pub open spec fn items_no_nul(items: Seq<MetadatumView>) -> bool {
    forall|j: int| 0 <= j < items.len() ==> item_no_nul(#[trigger] items[j])
}

/// Whether every field a staged value will be written with is NUL-free.
pub open spec fn quad_no_nul(q: QuadView) -> bool {
    no_nul(opt_str(q.entry)) && no_nul(opt_str(q.fragment)) && no_nul(opt_str(q.atplain))
        && no_nul(opt_str(q.tex))
}

/// The staging walk composes over concatenation.
pub proof fn lemma_stage_rec_concat(
    acc: Map<Seq<u8>, QuadView>,
    current: Seq<char>,
    a: Seq<MetadatumView>,
    b: Seq<MetadatumView>,
)
    ensures
        stage_rec(acc, current, a + b) == stage_rec(
            stage_rec(acc, current, a).0,
            stage_rec(acc, current, a).1,
            b,
        ),
    decreases a.len(),
{
    if a.len() == 0 {
        assert(a + b =~= b);
        assert(stage_rec(acc, current, a) == (acc, current));
    } else {
        let a2 = stage_item(acc, current, a[0]).0;
        let c2 = stage_item(acc, current, a[0]).1;
        assert((a + b)[0] == a[0]);
        assert((a + b).drop_first() =~= a.drop_first() + b);
        lemma_stage_rec_concat(a2, c2, a.drop_first(), b);
        assert(stage_rec(acc, current, a + b) == stage_rec(a2, c2, (a + b).drop_first()));
        assert(stage_rec(acc, current, a) == stage_rec(a2, c2, a.drop_first()));
    }
}

/// A staged location survives the rest of the walk: later lines that do not
/// redefine the key leave its defining entry and fragment untouched.
pub proof fn lemma_stage_preserves_loc(
    acc: Map<Seq<u8>, QuadView>,
    current: Seq<char>,
    items: Seq<MetadatumView>,
    k: Seq<u8>,
)
    requires
        acc.dom().contains(k),
        forall|j: int| 0 <= j < items.len() ==> !defines_key(#[trigger] items[j], k),
    ensures
        stage_rec(acc, current, items).0.dom().contains(k),
        stage_rec(acc, current, items).0[k].entry == acc[k].entry,
        stage_rec(acc, current, items).0[k].fragment == acc[k].fragment,
    decreases items.len(),
{
    if items.len() > 0 {
        let a2 = stage_item(acc, current, items[0]).0;
        let c2 = stage_item(acc, current, items[0]).1;
        assert(!defines_key(items[0], k));
        assert(a2.dom().contains(k) && a2[k].entry == acc[k].entry && a2[k].fragment == acc[k].fragment);
        assert(forall|j: int|
            0 <= j < items.drop_first().len() ==> !defines_key(
                #[trigger] items.drop_first()[j],
                k,
            ));
        lemma_stage_preserves_loc(a2, c2, items.drop_first(), k);
    }
}

/// Every string the staging walk records is NUL-free, provided the stream's
/// fields are: the current entry is a slice of an `output` token, and every
/// staged field comes from a token or from the current entry.
pub proof fn lemma_stage_no_nul(
    acc: Map<Seq<u8>, QuadView>,
    current: Seq<char>,
    items: Seq<MetadatumView>,
)
    requires
        no_nul(current),
        forall|k: Seq<u8>| acc.dom().contains(k) ==> quad_no_nul(#[trigger] acc[k]),
        items_no_nul(items),
    ensures
        no_nul(stage_rec(acc, current, items).1),
        forall|k: Seq<u8>|
            stage_rec(acc, current, items).0.dom().contains(k) ==> quad_no_nul(
                #[trigger] stage_rec(acc, current, items).0[k],
            ),
    decreases items.len(),
{
    if items.len() > 0 {
        let a2 = stage_item(acc, current, items[0]).0;
        let c2 = stage_item(acc, current, items[0]).1;
        assert(item_no_nul(items[0]));
        match items[0] {
            MetadatumView::Output(o) => {
                assert(no_nul(output_stem(o)));
            },
            MetadatumView::IndexDef { index, entry, fragment } => {
                let kk = index_key_bytes(index, entry);
                assert forall|k: Seq<u8>| a2.dom().contains(k) implies quad_no_nul(
                    #[trigger] a2[k],
                ) by {
                    if k != kk {
                        assert(a2[k] == acc[k]);
                    }
                }
            },
            MetadatumView::IndexText { index, entry, tex, atplain } => {
                let kk = index_key_bytes(index, entry);
                assert forall|k: Seq<u8>| a2.dom().contains(k) implies quad_no_nul(
                    #[trigger] a2[k],
                ) by {
                    if k != kk {
                        assert(a2[k] == acc[k]);
                    }
                }
            },
            MetadatumView::IndexRef { .. } => {},
        }
        assert(forall|j: int|
            0 <= j < items.drop_first().len() ==> item_no_nul(#[trigger] items.drop_first()[j]));
        lemma_stage_no_nul(a2, c2, items.drop_first());
    }
}

/// P2: once the staged writes of a stream that defines `(index, entry)` under
/// a known current entry are applied to the store, a `NeedsLoc` reference for
/// the same key resolves to a location line whose brace body begins with that
/// defining entry's stem — provided no later line of the stream redefines the
/// key.
pub proof fn lemma_def_then_ref(
    m0: Map<Seq<u8>, Seq<u8>>,
    items: Seq<MetadatumView>,
    i: int,
    index: Seq<char>,
    entry: Seq<char>,
    fragment: Seq<char>,
    flags: u8,
)
    requires
        0 <= i < items.len(),
        items[i] == (MetadatumView::IndexDef { index, entry, fragment }),
        forall|j: int|
            i < j < items.len() ==> !defines_key(#[trigger] items[j], index_key_bytes(index, entry)),
        items_no_nul(items),
        stage_rec(Map::<Seq<u8>, QuadView>::empty(), Seq::<char>::empty(), items.take(i)).1.len()
            > 0,
        flags & 1 != 0,
    ensures
        ({
            let ce = stage_rec(
                Map::<Seq<u8>, QuadView>::empty(),
                Seq::<char>::empty(),
                items.take(i),
            ).1;
            let m1 = m0.union_prefer_right(staged_encoded(items));
            let fields = split_bytes(stored_value(m1, index, entry), 0);
            &&& field_at(fields, 0, "ENTRYREF"@) == ce
            &&& field_at(fields, 1, Seq::<char>::empty()) == fragment
            &&& exists|rest: Seq<char>|
                ref_out(m1, index, entry, flags) == loc_line(index, entry, ce, fragment) + rest
        }),
{
    let empty_acc = Map::<Seq<u8>, QuadView>::empty();
    let empty_cur = Seq::<char>::empty();
    let k = index_key_bytes(index, entry);
    let pre = items.take(i);
    let post = items.skip(i + 1);
    let smi = stage_rec(empty_acc, empty_cur, pre).0;
    let ce = stage_rec(empty_acc, empty_cur, pre).1;

    // The walk up to and including the definition.
    assert(items.take(i + 1) =~= pre.push(items[i]));
    lemma_stage_rec_push(empty_acc, empty_cur, pre, items[i]);
    let acc1 = stage_rec(empty_acc, empty_cur, items.take(i + 1)).0;
    let cur1 = stage_rec(empty_acc, empty_cur, items.take(i + 1)).1;
    assert(acc1 == stage_item(smi, ce, items[i]).0);
    assert(cur1 == ce);
    assert(acc1.dom().contains(k));
    assert(acc1[k].entry == Some(ce));
    assert(acc1[k].fragment == Some(fragment));

    // The rest of the walk leaves the location fields alone.
    assert(items =~= items.take(i + 1) + post);
    lemma_stage_rec_concat(empty_acc, empty_cur, items.take(i + 1), post);
    assert forall|j: int| 0 <= j < post.len() implies !defines_key(#[trigger] post[j], k) by {
        assert(post[j] == items[j + i + 1]);
    }
    lemma_stage_preserves_loc(acc1, cur1, post, k);
    let sf = stage_fold(items);
    assert(sf == stage_rec(acc1, cur1, post).0);
    assert(sf.dom().contains(k));
    assert(sf[k].entry == Some(ce));
    assert(sf[k].fragment == Some(fragment));

    // Every staged field is NUL-free, so the encoded value splits back.
    assert(forall|kk: Seq<u8>| empty_acc.dom().contains(kk) ==> quad_no_nul(#[trigger] empty_acc[kk]));
    lemma_stage_no_nul(empty_acc, empty_cur, items);
    assert(quad_no_nul(sf[k]));
    let p = opt_str(sf[k].atplain);
    let t = opt_str(sf[k].tex);
    assert(value_bytes_of_quad(sf[k]) == index_value_of_strs(ce, fragment, p, t));
    lemma_value_round_trip(ce, fragment, p, t);

    // The updated store holds that value under the key.
    let se = staged_encoded(items);
    assert(se.dom().contains(k));
    assert(se[k] == value_bytes_of_quad(sf[k]));
    let m1 = m0.union_prefer_right(se);
    assert(m1.dom().contains(k));
    assert(m1[k] == se[k]);
    assert(stored_value(m1, index, entry) == m1[k]);
    let fields = split_bytes(stored_value(m1, index, entry), 0);
    assert(fields == seq![
        encode_utf8(ce),
        encode_utf8(fragment),
        encode_utf8(p),
        encode_utf8(t),
    ]);

    // The reference reads the stem and the fragment back.
    lemma_field_str_encoded(ce, "ENTRYREF"@);
    assert(field_at(fields, 0, "ENTRYREF"@) == ce);
    lemma_field_str_encoded(fragment, Seq::<char>::empty());
    assert(field_at(fields, 1, Seq::<char>::empty()) == fragment);
    let loc = loc_line(index, entry, ce, fragment);
    let text = if flags & 2 != 0 {
        text_tex_line(index, entry, field_at(fields, 3, entry)) + text_plain_line(
            index,
            entry,
            field_at(fields, 2, entry),
        )
    } else {
        Seq::<char>::empty()
    };
    assert(ref_out(m1, index, entry, flags) == loc + text);
}

/// Every metadatum the parser accepts has NUL-free fields: the line itself
/// must be NUL-free, and every field is one of its tokens.
pub proof fn lemma_parse_item_no_nul(line: Seq<char>)
    ensures
        parse_metadatum(line) matches Some(m) ==> item_no_nul(m),
{
    if parse_metadatum(line) is Some {
        crate::strutil::lemma_split_char_keeps_absence(line, ' ', '\0');
    }
}

proof fn lemma_parse_lines_no_nul(ls: Seq<Seq<char>>)
    ensures
        parse_lines(ls) matches Ok(items) ==> items_no_nul(items),
    decreases ls.len(),
{
    if ls.len() > 0 {
        lemma_parse_item_no_nul(ls[0]);
        lemma_parse_lines_no_nul(ls.drop_first());
        if parse_lines(ls) is Ok {
            let items = parse_lines(ls)->Ok_0;
            let m = parse_metadatum(ls[0])->Some_0;
            let rest = parse_lines(ls.drop_first())->Ok_0;
            assert(items == seq![m] + rest);
            assert forall|j: int| 0 <= j < items.len() implies item_no_nul(
                #[trigger] items[j],
            ) by {
                if j > 0 {
                    assert(items[j] == rest[j - 1]);
                }
            }
        }
    }
}

/// A stream the parser accepts satisfies the NUL-freedom that the staging and
/// resolution laws assume.
pub proof fn lemma_parsed_stream_no_nul(s: Seq<char>)
    ensures
        parse_pedia_spec(s) matches Ok(items) ==> items_no_nul(items),
{
    lemma_parse_lines_no_nul(crate::metadata::lines_of(s));
}

} // verus!
