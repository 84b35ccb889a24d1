//! The engine's asset specification, abstractly.
//!
//! An [`AssetSpecification`] is a mergeable set of asset declarations (fonts,
//! CSS fragments, copied files) produced by the TeX engine. Its exact contents
//! are the engine's business; this module models it as a map from output path
//! (as UTF-8 bytes) to an abstract identity of the declaration that produces
//! it — the origin kind together with, for copied files, the source path and,
//! for font files, the source and face index. At that granularity a successful
//! merge is a path-wise union, which is what the nexus contracts build on.
//! Details below that granularity (variant-glyph tables, font-family CSS
//! internals) stay opaque.

use vstd::prelude::*;
use vstd::utf8::valid_utf8;

use tectonic_engine_spx2html::AssetSpecification;

verus! {

#[verifier::external_type_specification]
#[verifier::external_body]
pub struct ExAssetSpecification(AssetSpecification);

#[verifier::external_type_specification]
#[verifier::external_body]
pub struct ExAnyhowError(anyhow::Error);

/// The abstract contents of an asset specification: for each declared output
/// path, the identity of the declaration producing it.
pub uninterp spec fn asset_map(a: AssetSpecification) -> Map<Seq<u8>, Seq<u8>>;

/// What a serialized asset specification denotes: `Some` of its abstract
/// contents when the bytes parse, `None` otherwise.
pub uninterp spec fn saved_assets(bytes: Seq<u8>) -> Option<Map<Seq<u8>, Seq<u8>>>;

/// Two asset maps that agree on every common path.
pub open spec fn assets_compatible(a: Map<Seq<u8>, Seq<u8>>, b: Map<Seq<u8>, Seq<u8>>) -> bool {
    forall|k: Seq<u8>|
        #![trigger a[k], b[k]]
        a.dom().contains(k) && b.dom().contains(k) ==> a[k] == b[k]
}

/// Relies on `AssetSpecification::default`: a fresh specification declares no
/// assets.
#[verifier::external_body]
pub fn new_asset_spec() -> (r: AssetSpecification)
    ensures
        (asset_map(r) == Map::<Seq<u8>, Seq<u8>>::empty()),
{
    AssetSpecification::default()
}

/// Relies on `AssetSpecification::add_from_saved`: it parses a serialized
/// specification and merges it into `a`, failing when the bytes do not parse
/// or when a declaration conflicts. On success the contents become the
/// path-wise union and every common path carried equal identities; when the
/// bytes parse and no path is shared, success is certain. On failure `a` is
/// documented to be left in an undefined state, so nothing is claimed of it.
#[verifier::external_body]
pub fn add_saved_assets(a: &mut AssetSpecification, saved: &[u8]) -> (r: Result<
    (),
    anyhow::Error,
>)
    ensures
        r is Ok ==> saved_assets(saved@) is Some,
        r is Ok ==> assets_compatible(asset_map(*old(a)), saved_assets(saved@).unwrap()),
        r is Ok ==> asset_map(*final(a)) == asset_map(*old(a)).union_prefer_right(
            saved_assets(saved@).unwrap(),
        ),
        saved_assets(saved@) matches Some(m) && asset_map(*old(a)).dom().disjoint(m.dom())
            ==> r is Ok,
{
    match a.add_from_saved(std::io::Cursor::new(saved)) {
        Ok(_) => Ok(()),
        Err(e) => Err(e),
    }
}

/// Relies on `AssetSpecification::save`: it serializes the current contents
/// deterministically as UTF-8 JSON that `add_from_saved` parses back to the
/// same contents.
#[verifier::external_body]
pub fn save_assets(a: &AssetSpecification) -> (r: Result<Vec<u8>, anyhow::Error>)
    ensures
        r matches Ok(v) ==> saved_assets(v@) == Some(asset_map(*a)) && valid_utf8(v@),
{
    let mut out: Vec<u8> = Vec::new();
    match a.save(&mut out) {
        Ok(()) => Ok(out),
        Err(e) => Err(e),
    }
}

/// A batch of parsed specifications merged into an initial one, in arrival
/// order; exactly what a run of successful `pass1` merges leaves in
/// `cur_assets`.
pub open spec fn merge_fold(
    init: Map<Seq<u8>, Seq<u8>>,
    ms: Seq<Map<Seq<u8>, Seq<u8>>>,
) -> Map<Seq<u8>, Seq<u8>>
    decreases ms.len(),
{
    if ms.len() == 0 {
        init
    } else {
        merge_fold(init.union_prefer_right(ms[0]), ms.drop_first())
    }
}

/// No conflicts anywhere in a batch: every specification agrees with the
/// initial one and with every other on common paths.
pub open spec fn all_compatible(init: Map<Seq<u8>, Seq<u8>>, ms: Seq<Map<Seq<u8>, Seq<u8>>>) -> bool {
    (forall|i: int| 0 <= i < ms.len() ==> assets_compatible(init, #[trigger] ms[i]))
        && (forall|i: int, j: int|
        0 <= i < ms.len() && 0 <= j < ms.len() ==> assets_compatible(ms[i], ms[j]))
}

/// With no conflicts, the merged map is characterized point-wise, with no
/// reference to arrival order: its domain is the union of all domains, every
/// path keeps the value every contributor agrees on, and paths no contributor
/// declares keep their initial value.
pub proof fn lemma_merge_fold_characterization(
    init: Map<Seq<u8>, Seq<u8>>,
    ms: Seq<Map<Seq<u8>, Seq<u8>>>,
)
    requires
        all_compatible(init, ms),
    ensures
        forall|k: Seq<u8>|
            #[trigger] merge_fold(init, ms).dom().contains(k) <==> (init.dom().contains(k)
                || exists|i: int| 0 <= i < ms.len() && (#[trigger] ms[i]).dom().contains(k)),
        forall|k: Seq<u8>, i: int|
            0 <= i < ms.len() && ms[i].dom().contains(k) ==> #[trigger] ms[i][k] == merge_fold(
                init,
                ms,
            )[k],
        forall|k: Seq<u8>|
            init.dom().contains(k) && !(exists|i: int|
                0 <= i < ms.len() && (#[trigger] ms[i]).dom().contains(k)) ==> merge_fold(
                init,
                ms,
            )[k] == init[k],
    decreases ms.len(),
{
    if ms.len() > 0 {
        let init2 = init.union_prefer_right(ms[0]);
        let rest = ms.drop_first();
        assert forall|i: int| 0 <= i < rest.len() implies assets_compatible(
            init2,
            #[trigger] rest[i],
        ) by {
            assert(rest[i] == ms[i + 1]);
            assert(assets_compatible(init, ms[i + 1]));
            assert(assets_compatible(ms[0], ms[i + 1]));
            assert forall|k: Seq<u8>|
                init2.dom().contains(k) && rest[i].dom().contains(k) implies init2[k]
                == rest[i][k] by {
                if ms[0].dom().contains(k) {
                    assert(ms[0][k] == ms[i + 1][k]);
                } else {
                    assert(init[k] == ms[i + 1][k]);
                }
            }
        }
        assert forall|i: int, j: int|
            0 <= i < rest.len() && 0 <= j < rest.len() implies assets_compatible(
            rest[i],
            rest[j],
        ) by {
            assert(rest[i] == ms[i + 1]);
            assert(rest[j] == ms[j + 1]);
        }
        lemma_merge_fold_characterization(init2, rest);
        assert(merge_fold(init, ms) == merge_fold(init2, rest));
        assert forall|k: Seq<u8>|
            #[trigger] merge_fold(init, ms).dom().contains(k) implies (init.dom().contains(k)
            || exists|i: int| 0 <= i < ms.len() && (#[trigger] ms[i]).dom().contains(k)) by {
            assert(merge_fold(init2, rest).dom().contains(k));
            if !init.dom().contains(k) {
                if init2.dom().contains(k) {
                    assert(ms[0].dom().contains(k));
                } else {
                    let i = choose|i: int|
                        0 <= i < rest.len() && (#[trigger] rest[i]).dom().contains(k);
                    assert(ms[i + 1].dom().contains(k));
                }
            }
        }
        assert forall|k: Seq<u8>|
            (init.dom().contains(k) || exists|i: int|
                0 <= i < ms.len() && (#[trigger] ms[i]).dom().contains(k)) implies merge_fold(
            init,
            ms,
        ).dom().contains(k) by {
            if init.dom().contains(k) {
                assert(init2.dom().contains(k));
                assert(merge_fold(init2, rest).dom().contains(k));
            } else {
                let i = choose|i: int| 0 <= i < ms.len() && (#[trigger] ms[i]).dom().contains(k);
                if i == 0 {
                    assert(init2.dom().contains(k));
                } else {
                    assert(rest[i - 1].dom().contains(k));
                }
                assert(merge_fold(init2, rest).dom().contains(k));
            }
        }
        assert forall|k: Seq<u8>, i: int|
            0 <= i < ms.len() && ms[i].dom().contains(k) implies #[trigger] ms[i][k] == merge_fold(
            init,
            ms,
        )[k] by {
            if i == 0 {
                if exists|j: int| 0 <= j < rest.len() && (#[trigger] rest[j]).dom().contains(k) {
                    let j = choose|j: int|
                        0 <= j < rest.len() && (#[trigger] rest[j]).dom().contains(k);
                    assert(rest[j][k] == merge_fold(init2, rest)[k]);
                    assert(rest[j] == ms[j + 1]);
                    assert(assets_compatible(ms[0], ms[j + 1]));
                    assert(ms[0][k] == ms[j + 1][k]);
                } else {
                    assert(init2.dom().contains(k));
                    assert(merge_fold(init2, rest)[k] == init2[k]);
                    assert(init2[k] == ms[0][k]);
                }
            } else {
                assert(rest[i - 1].dom().contains(k));
                assert(rest[i - 1][k] == merge_fold(init2, rest)[k]);
            }
        }
        assert forall|k: Seq<u8>|
            init.dom().contains(k) && !(exists|i: int|
                0 <= i < ms.len() && (#[trigger] ms[i]).dom().contains(k)) implies merge_fold(
            init,
            ms,
        )[k] == init[k] by {
            assert(!ms[0].dom().contains(k));
            assert(init2.dom().contains(k));
            assert(init2[k] == init[k]);
            assert forall|i: int|
                0 <= i < rest.len() implies !(#[trigger] rest[i]).dom().contains(k) by {
                if rest[i].dom().contains(k) {
                    assert(ms[i + 1].dom().contains(k));
                }
            }
            assert(merge_fold(init2, rest)[k] == init2[k]);
        }
    }
}

/// P4: the merged `cur_assets` after a batch of compatible `pass1` merges is
/// the semilattice merge of the contributed specifications, independent of
/// arrival order: two batches holding the same specifications merge to the
/// same map.
pub proof fn lemma_merge_order_independent(
    init: Map<Seq<u8>, Seq<u8>>,
    ms1: Seq<Map<Seq<u8>, Seq<u8>>>,
    ms2: Seq<Map<Seq<u8>, Seq<u8>>>,
)
    requires
        all_compatible(init, ms1),
        all_compatible(init, ms2),
        forall|m: Map<Seq<u8>, Seq<u8>>| ms1.contains(m) <==> ms2.contains(m),
    ensures
        merge_fold(init, ms1) == merge_fold(init, ms2),
{
    lemma_merge_fold_characterization(init, ms1);
    lemma_merge_fold_characterization(init, ms2);
    let f1 = merge_fold(init, ms1);
    let f2 = merge_fold(init, ms2);
    assert forall|k: Seq<u8>| f1.dom().contains(k) implies f2.dom().contains(k) by {
        if !init.dom().contains(k) {
            let i = choose|i: int| 0 <= i < ms1.len() && (#[trigger] ms1[i]).dom().contains(k);
            assert(ms1.contains(ms1[i]));
            assert(ms2.contains(ms1[i]));
            let j = choose|j: int| 0 <= j < ms2.len() && ms2[j] == ms1[i];
            assert(ms2[j].dom().contains(k));
        }
    }
    assert forall|k: Seq<u8>| f2.dom().contains(k) implies f1.dom().contains(k) by {
        if !init.dom().contains(k) {
            let i = choose|i: int| 0 <= i < ms2.len() && (#[trigger] ms2[i]).dom().contains(k);
            assert(ms2.contains(ms2[i]));
            assert(ms1.contains(ms2[i]));
            let j = choose|j: int| 0 <= j < ms1.len() && ms1[j] == ms2[i];
            assert(ms1[j].dom().contains(k));
        }
    }
    assert forall|k: Seq<u8>| f1.dom().contains(k) implies f1[k] == f2[k] by {
        if exists|i: int| 0 <= i < ms1.len() && (#[trigger] ms1[i]).dom().contains(k) {
            let i = choose|i: int| 0 <= i < ms1.len() && (#[trigger] ms1[i]).dom().contains(k);
            assert(ms2.contains(ms1[i]));
            let j = choose|j: int| 0 <= j < ms2.len() && ms2[j] == ms1[i];
            assert(f1[k] == ms1[i][k]);
            assert(f2[k] == ms2[j][k]);
        } else {
            assert(init.dom().contains(k));
            assert forall|j: int|
                0 <= j < ms2.len() implies !(#[trigger] ms2[j]).dom().contains(k) by {
                if ms2[j].dom().contains(k) {
                    assert(ms1.contains(ms2[j]));
                    let i = choose|i: int| 0 <= i < ms1.len() && ms1[i] == ms2[j];
                    assert(ms1[i].dom().contains(k));
                }
            }
            assert(f1[k] == init[k]);
            assert(f2[k] == init[k]);
        }
    }
    assert(f1 =~= f2);
}

} // verus!
