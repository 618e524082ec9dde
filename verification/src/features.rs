//! Mapping of build features to NimBLE (Mynewt *syscfg*) configuration
//! values.
//!
//! Every knob of the universe is always passed explicitly; each enabled
//! feature re-enables its knobs on top of the reset state; numeric feature
//! families (`l2cap-coc-<N>`, `max-connections-<N>`, `msys-count-<N>`) are
//! additive and the largest enabled value wins, never going below the reset
//! value. The sorted list of settings doubles as the fingerprint of the
//! pre-generated bindings (see [`prebuilt_validity`]).
use vstd::prelude::*;

use crate::settings::{
    lemma_insert_sorted, lemma_lookup_at, lemma_lookup_found, law_lookup_after_insert, sorted,
    spec_insert,
    spec_insert_all, spec_lookup, Entries, Settings,
};
use crate::text::{
    lemma_lex_lt_asymmetric, lemma_lex_lt_irreflexive, lemma_lex_lt_total,
    lemma_lex_lt_transitive, lemma_parse_decimal, lex_lt, parse_u32,
    spec_decimal, spec_parse_u32, starts_with, str_in, str_order, strip_prefix, u32_to_string,
};

verus! {

/// A table of name/value pairs as plain strings.
pub open spec fn pairs_view(s: Seq<(&str, &str)>) -> Entries {
    s.map_values(|p: (&str, &str)| (p.0@, p.1@))
}

/// A list of feature names as plain strings.
pub open spec fn names_view(s: Seq<&str>) -> Seq<Seq<char>> {
    s.map_values(|f: &str| f@)
}

/// Per-feature overrides as plain strings.
pub open spec fn overrides_view(s: Seq<(&str, Vec<(&str, &str)>)>) -> Seq<(Seq<char>, Entries)> {
    s.map_values(|p: (&str, Vec<(&str, &str)>)| (p.0@, pairs_view(p.1@)))
}

/// Every `MYNEWT_VAL_*` knob the build controls, with its reset value.
pub open spec fn spec_val_universe() -> Entries {
    seq![
        ("BLE_ROLE_BROADCASTER"@, "0"@),
        ("BLE_ROLE_CENTRAL"@, "0"@),
        ("BLE_ROLE_OBSERVER"@, "0"@),
        ("BLE_ROLE_PERIPHERAL"@, "0"@),
        ("BLE_GATTS"@, "0"@),
        ("BLE_GATTC"@, "0"@),
        ("BLE_GATT_CACHING"@, "0"@),
        ("BLE_GATT_CSFC_SIZE"@, "1"@),
        ("BLE_STORE_MAX_CSFCS"@, "3"@),
        ("BLE_EXT_ADV"@, "0"@),
        ("BLE_PERIODIC_ADV"@, "0"@),
        ("BLE_SM_LEGACY"@, "0"@),
        ("BLE_SM_SC"@, "0"@),
        ("BLE_SM_SC_ONLY"@, "0"@),
        ("BLE_HS_PVCY"@, "1"@),
        ("BLE_SM_SIGN_CNT"@, "1"@),
        ("BLE_L2CAP_COC_MAX_NUM"@, "0"@),
        ("BLE_MAX_CONNECTIONS"@, "4"@),
        ("MSYS_1_BLOCK_COUNT"@, "20"@),
        ("BLE_HS_DEBUG"@, "0"@),
        ("BLE_ISO"@, "0"@),
        ("BLE_MESH"@, "0"@),
        ("BLE_EATT_CHAN_NUM"@, "0"@),
        ("BLE_HS_FLOW_CTRL"@, "0"@),
        ("BLE_GATT_BLOB_TRANSFER"@, "0"@),
        ("BLE_QUEUE_CONG_CHECK"@, "0"@),
        ("BLE_CRYPTO_STACK_MBEDTLS"@, "0"@),
        ("BLE_STATIC_TO_DYNAMIC"@, "0"@),
        ("MP_RUNTIME_ALLOC"@, "0"@),
        ("BLE_TRANSPORT_HS__cdc"@, "0"@),
        ("BLE_TRANSPORT_HS__custom"@, "0"@),
        ("BLE_TRANSPORT_HS__dialog_cmac"@, "0"@),
        ("BLE_TRANSPORT_HS__native"@, "1"@),
        ("BLE_TRANSPORT_HS__nrf5340"@, "0"@),
        ("BLE_TRANSPORT_HS__uart"@, "0"@),
        ("BLE_TRANSPORT_HS__usb"@, "0"@),
        ("BLE_TRANSPORT_LL__apollo3"@, "0"@),
        ("BLE_TRANSPORT_LL__custom"@, "1"@),
        ("BLE_TRANSPORT_LL__dialog_cmac"@, "0"@),
        ("BLE_TRANSPORT_LL__emspi"@, "0"@),
        ("BLE_TRANSPORT_LL__native"@, "0"@),
        ("BLE_TRANSPORT_LL__nrf5340"@, "0"@),
        ("BLE_TRANSPORT_LL__socket"@, "0"@),
    ]
}

/// Every `MYNEWT_VAL_*` knob the build controls, with its reset value.
pub fn val_universe() -> (r: Vec<(&'static str, &'static str)>)
    ensures
        pairs_view(r@) == spec_val_universe(),
{
    let r = vec![
        ("BLE_ROLE_BROADCASTER", "0"),
        ("BLE_ROLE_CENTRAL", "0"),
        ("BLE_ROLE_OBSERVER", "0"),
        ("BLE_ROLE_PERIPHERAL", "0"),
        ("BLE_GATTS", "0"),
        ("BLE_GATTC", "0"),
        ("BLE_GATT_CACHING", "0"),
        ("BLE_GATT_CSFC_SIZE", "1"),
        ("BLE_STORE_MAX_CSFCS", "3"),
        ("BLE_EXT_ADV", "0"),
        ("BLE_PERIODIC_ADV", "0"),
        ("BLE_SM_LEGACY", "0"),
        ("BLE_SM_SC", "0"),
        ("BLE_SM_SC_ONLY", "0"),
        ("BLE_HS_PVCY", "1"),
        ("BLE_SM_SIGN_CNT", "1"),
        ("BLE_L2CAP_COC_MAX_NUM", "0"),
        ("BLE_MAX_CONNECTIONS", "4"),
        ("MSYS_1_BLOCK_COUNT", "20"),
        ("BLE_HS_DEBUG", "0"),
        ("BLE_ISO", "0"),
        ("BLE_MESH", "0"),
        ("BLE_EATT_CHAN_NUM", "0"),
        ("BLE_HS_FLOW_CTRL", "0"),
        ("BLE_GATT_BLOB_TRANSFER", "0"),
        ("BLE_QUEUE_CONG_CHECK", "0"),
        ("BLE_CRYPTO_STACK_MBEDTLS", "0"),
        ("BLE_STATIC_TO_DYNAMIC", "0"),
        ("MP_RUNTIME_ALLOC", "0"),
        ("BLE_TRANSPORT_HS__cdc", "0"),
        ("BLE_TRANSPORT_HS__custom", "0"),
        ("BLE_TRANSPORT_HS__dialog_cmac", "0"),
        ("BLE_TRANSPORT_HS__native", "1"),
        ("BLE_TRANSPORT_HS__nrf5340", "0"),
        ("BLE_TRANSPORT_HS__uart", "0"),
        ("BLE_TRANSPORT_HS__usb", "0"),
        ("BLE_TRANSPORT_LL__apollo3", "0"),
        ("BLE_TRANSPORT_LL__custom", "1"),
        ("BLE_TRANSPORT_LL__dialog_cmac", "0"),
        ("BLE_TRANSPORT_LL__emspi", "0"),
        ("BLE_TRANSPORT_LL__native", "0"),
        ("BLE_TRANSPORT_LL__nrf5340", "0"),
        ("BLE_TRANSPORT_LL__socket", "0"),
    ];
    assert(pairs_view(r@) =~= spec_val_universe());
    r
}

/// The configuration of the upstream host unit-test suite, as an overlay.
pub open spec fn spec_upstream_test_vals() -> Entries {
    seq![
        ("SELFTEST"@, "1"@),
        ("BLE_HS_PHONY_HCI_ACKS"@, "1"@),
        ("BLE_HS_REQUIRE_OS"@, "0"@),
        ("BLE_MAX_CONNECTIONS"@, "8"@),
        ("BLE_GATT_MAX_PROCS"@, "16"@),
        ("BLE_SM"@, "1"@),
        ("BLE_SM_LEGACY"@, "1"@),
        ("BLE_SM_SC"@, "1"@),
        ("MSYS_1_BLOCK_COUNT"@, "100"@),
        ("BLE_L2CAP_COC_MAX_NUM"@, "2"@),
        ("BLE_VERSION"@, "52"@),
        ("BLE_L2CAP_ENHANCED_COC"@, "1"@),
        ("BLE_GATTS"@, "1"@),
        ("BLE_GATTC"@, "1"@),
        ("BLE_HS_DEBUG"@, "1"@),
    ]
}

/// The configuration of the upstream host unit-test suite, as an overlay.
pub fn upstream_test_vals() -> (r: Vec<(&'static str, &'static str)>)
    ensures
        pairs_view(r@) == spec_upstream_test_vals(),
{
    let r = vec![
        ("SELFTEST", "1"),
        ("BLE_HS_PHONY_HCI_ACKS", "1"),
        ("BLE_HS_REQUIRE_OS", "0"),
        ("BLE_MAX_CONNECTIONS", "8"),
        ("BLE_GATT_MAX_PROCS", "16"),
        ("BLE_SM", "1"),
        ("BLE_SM_LEGACY", "1"),
        ("BLE_SM_SC", "1"),
        ("MSYS_1_BLOCK_COUNT", "100"),
        ("BLE_L2CAP_COC_MAX_NUM", "2"),
        ("BLE_VERSION", "52"),
        ("BLE_L2CAP_ENHANCED_COC", "1"),
        ("BLE_GATTS", "1"),
        ("BLE_GATTC", "1"),
        ("BLE_HS_DEBUG", "1"),
    ];
    assert(pairs_view(r@) =~= spec_upstream_test_vals());
    r
}

/// Plain defines accompanying the upstream test configuration.
pub open spec fn spec_upstream_test_extra_defines() -> Entries {
    seq![
        ("TaskHandle_t"@, "void *"@),
        ("xTaskGetCurrentTaskHandle()"@, "ble_npl_get_current_task_id()"@),
    ]
}

/// Plain defines accompanying the upstream test configuration.
pub fn upstream_test_extra_defines() -> (r: Vec<(&'static str, &'static str)>)
    ensures
        pairs_view(r@) == spec_upstream_test_extra_defines(),
{
    let r = vec![
        ("TaskHandle_t", "void *"),
        ("xTaskGetCurrentTaskHandle()", "ble_npl_get_current_task_id()"),
    ];
    assert(pairs_view(r@) =~= spec_upstream_test_extra_defines());
    r
}

/// Additive numeric feature families (feature prefix, knob); the largest enabled value wins.
pub open spec fn spec_numeric_families() -> Entries {
    seq![
        ("L2CAP_COC_"@, "BLE_L2CAP_COC_MAX_NUM"@),
        ("MAX_CONNECTIONS_"@, "BLE_MAX_CONNECTIONS"@),
        ("MSYS_COUNT_"@, "MSYS_1_BLOCK_COUNT"@),
    ]
}

/// Additive numeric feature families (feature prefix, knob); the largest enabled value wins.
pub fn numeric_families() -> (r: Vec<(&'static str, &'static str)>)
    ensures
        pairs_view(r@) == spec_numeric_families(),
{
    let r = vec![
        ("L2CAP_COC_", "BLE_L2CAP_COC_MAX_NUM"),
        ("MAX_CONNECTIONS_", "BLE_MAX_CONNECTIONS"),
        ("MSYS_COUNT_", "MSYS_1_BLOCK_COUNT"),
    ];
    assert(pairs_view(r@) =~= spec_numeric_families());
    r
}

/// Extra plain (non-`MYNEWT_VAL`) defines the esp-nimble fork requires.
pub open spec fn spec_extra_defines() -> Entries {
    seq![
        ("CONFIG_BT_NIMBLE_GAP_SERVICE"@, "1"@),
        ("CONFIG_BT_NIMBLE_ENABLED"@, "1"@),
    ]
}

/// Extra plain (non-`MYNEWT_VAL`) defines the esp-nimble fork requires.
pub fn extra_defines() -> (r: Vec<(&'static str, &'static str)>)
    ensures
        pairs_view(r@) == spec_extra_defines(),
{
    let r = vec![
        ("CONFIG_BT_NIMBLE_GAP_SERVICE", "1"),
        ("CONFIG_BT_NIMBLE_ENABLED", "1"),
    ];
    assert(pairs_view(r@) =~= spec_extra_defines());
    r
}

/// Per-feature knob overrides, applied on top of the universe in this order
/// (`SM_SC_ONLY` before `SM`, so that `SM` wins when both are enabled).
pub open spec fn spec_feature_vals() -> Seq<(Seq<char>, Entries)> {
    seq![
        ("PERIPHERAL"@, seq![("BLE_ROLE_PERIPHERAL"@, "1"@), ("BLE_GATTS"@, "1"@)]),
        ("BROADCASTER"@, seq![("BLE_ROLE_BROADCASTER"@, "1"@)]),
        ("CENTRAL"@, seq![("BLE_ROLE_CENTRAL"@, "1"@), ("BLE_GATTC"@, "1"@)]),
        ("OBSERVER"@, seq![("BLE_ROLE_OBSERVER"@, "1"@)]),
        ("EXT_ADV"@, seq![("BLE_EXT_ADV"@, "1"@)]),
        ("SM_SC_ONLY"@, seq![("BLE_SM_LEGACY"@, "0"@), ("BLE_SM_SC"@, "1"@), ("BLE_SM_SC_ONLY"@, "1"@)]),
        ("SM"@, seq![("BLE_SM_LEGACY"@, "1"@), ("BLE_SM_SC"@, "1"@), ("BLE_SM_SC_ONLY"@, "0"@)]),
    ]
}

/// Per-feature knob overrides (feature name in `CARGO_FEATURE_*` form).
pub fn feature_vals() -> (r: Vec<(&'static str, Vec<(&'static str, &'static str)>)>)
    ensures
        overrides_view(r@) == spec_feature_vals(),
{
    let a = vec![("BLE_ROLE_PERIPHERAL", "1"), ("BLE_GATTS", "1")];
    let b = vec![("BLE_ROLE_BROADCASTER", "1")];
    let c = vec![("BLE_ROLE_CENTRAL", "1"), ("BLE_GATTC", "1")];
    let d = vec![("BLE_ROLE_OBSERVER", "1")];
    let e = vec![("BLE_EXT_ADV", "1")];
    let f = vec![("BLE_SM_LEGACY", "0"), ("BLE_SM_SC", "1"), ("BLE_SM_SC_ONLY", "1")];
    let g = vec![("BLE_SM_LEGACY", "1"), ("BLE_SM_SC", "1"), ("BLE_SM_SC_ONLY", "0")];
    assert(pairs_view(a@) =~= spec_feature_vals()[0].1);
    assert(pairs_view(b@) =~= spec_feature_vals()[1].1);
    assert(pairs_view(c@) =~= spec_feature_vals()[2].1);
    assert(pairs_view(d@) =~= spec_feature_vals()[3].1);
    assert(pairs_view(e@) =~= spec_feature_vals()[4].1);
    assert(pairs_view(f@) =~= spec_feature_vals()[5].1);
    assert(pairs_view(g@) =~= spec_feature_vals()[6].1);
    let r = vec![
        ("PERIPHERAL", a),
        ("BROADCASTER", b),
        ("CENTRAL", c),
        ("OBSERVER", d),
        ("EXT_ADV", e),
        ("SM_SC_ONLY", f),
        ("SM", g),
    ];
    assert(overrides_view(r@) =~= spec_feature_vals());
    r
}

/// The feature set the committed pre-generated bindings are produced with.
pub open spec fn spec_prebuilt_features() -> Seq<Seq<char>> {
    seq!["PERIPHERAL"@, "BROADCASTER"@, "CENTRAL"@, "OBSERVER"@, "SM"@]
}

/// The feature set the committed pre-generated bindings are produced with.
pub fn prebuilt_features() -> (r: Vec<&'static str>)
    ensures
        names_view(r@) == spec_prebuilt_features(),
{
    let r = vec!["PERIPHERAL", "BROADCASTER", "CENTRAL", "OBSERVER", "SM"];
    assert(names_view(r@) =~= spec_prebuilt_features());
    r
}


/// Applies, in table order, the overrides of every enabled feature.
pub open spec fn apply_overrides(
    e: Entries,
    fv: Seq<(Seq<char>, Entries)>,
    feats: Seq<Seq<char>>,
) -> Entries
    decreases fv.len(),
{
    if fv.len() == 0 {
        e
    } else {
        let e1 = if feats.contains(fv[0].0) {
            spec_insert_all(e, fv[0].1)
        } else {
            e
        };
        apply_overrides(e1, fv.drop_first(), feats)
    }
}

/// The larger of two optional values.
pub open spec fn opt_max(a: Option<u32>, b: Option<u32>) -> Option<u32> {
    match (a, b) {
        (Some(x), Some(y)) => Some(if x >= y { x } else { y }),
        (Some(x), None) => Some(x),
        (None, y) => y,
    }
}

/// The number a feature name carries after `prefix`, when it has one.
pub open spec fn family_value(f: Seq<char>, prefix: Seq<char>) -> Option<u32> {
    if starts_with(f, prefix) {
        spec_parse_u32(f.skip(prefix.len() as int))
    } else {
        None
    }
}

/// The largest number carried by an enabled feature of the family
/// `prefix`, if any feature carries one.
pub open spec fn family_max(feats: Seq<Seq<char>>, prefix: Seq<char>) -> Option<u32>
    decreases feats.len(),
{
    if feats.len() == 0 {
        None
    } else {
        opt_max(family_max(feats.drop_last(), prefix), family_value(feats.last(), prefix))
    }
}

/// The value of a numeric knob before its family is applied: the current
/// setting read as a number, or 0.
pub open spec fn reset_value(e: Entries, name: Seq<char>) -> u32 {
    match spec_lookup(e, name) {
        Some(v) => match spec_parse_u32(v) {
            Some(r) => r,
            None => 0,
        },
        None => 0,
    }
}

/// Applies the numeric families in table order: a family with an enabled
/// member sets its knob to the largest of its members and the reset value.
pub open spec fn apply_families(
    e: Entries,
    fams: Entries,
    feats: Seq<Seq<char>>,
) -> Entries
    decreases fams.len(),
{
    if fams.len() == 0 {
        e
    } else {
        let e1 = match family_max(feats, fams[0].0) {
            Some(mx) => {
                let reset = reset_value(e, fams[0].1);
                spec_insert(e, fams[0].1, spec_decimal((if mx >= reset { mx } else { reset }) as nat))
            },
            None => e,
        };
        apply_families(e1, fams.drop_first(), feats)
    }
}

/// The effective settings for the feature set `feats`, given the tables:
/// the universe at its reset values, then the per-feature overrides, then
/// the upstream test overlay (when `UPSTREAM_TEST` is enabled), then the
/// numeric families.
pub open spec fn spec_settings_with(
    universe: Entries,
    fv: Seq<(Seq<char>, Entries)>,
    upstream: Entries,
    fams: Entries,
    feats: Seq<Seq<char>>,
) -> Entries {
    let e0 = spec_insert_all(Seq::empty(), universe);
    let e1 = apply_overrides(e0, fv, feats);
    let e2 = if feats.contains("UPSTREAM_TEST"@) {
        spec_insert_all(e1, upstream)
    } else {
        e1
    };
    apply_families(e2, fams, feats)
}

/// The effective `MYNEWT_VAL_*` settings of a feature set.
pub open spec fn spec_val_settings(feats: Seq<Seq<char>>) -> Entries {
    spec_settings_with(
        spec_val_universe(),
        spec_feature_vals(),
        spec_upstream_test_vals(),
        spec_numeric_families(),
        feats,
    )
}

/// `f` and `g` enable the same features (in any order, with any
/// repetition).
pub open spec fn same_features(f: Seq<Seq<char>>, g: Seq<Seq<char>>) -> bool {
    forall|x: Seq<char>| f.contains(x) <==> g.contains(x)
}

/// What `family_max` is: none when no feature carries a number of the
/// family, and otherwise a number some feature carries that no feature's
/// number exceeds.
proof fn lemma_family_max_char(f: Seq<Seq<char>>, p: Seq<char>)
    ensures
        (family_max(f, p) is None) == (forall|i: int|
            0 <= i < f.len() ==> (#[trigger] family_value(f[i], p)) is None),
        family_max(f, p) matches Some(m) ==> (exists|i: int|
            0 <= i < f.len() && #[trigger] family_value(f[i], p) == Some(m)),
        family_max(f, p) matches Some(m) ==> (forall|i: int|
            0 <= i < f.len() && (#[trigger] family_value(f[i], p)) is Some ==> family_value(
                f[i],
                p,
            ).unwrap() <= m),
    decreases f.len(),
{
    if f.len() > 0 {
        let init = f.drop_last();
        lemma_family_max_char(init, p);
        let last = f.len() - 1;
        assert(f.last() == f[last]);
        assert forall|i: int| 0 <= i < init.len() implies init[i] == f[i] by {}
        match family_max(f, p) {
            Some(m) => {
                match family_max(init, p) {
                    Some(m0) => {
                        let i0 = choose|i: int|
                            0 <= i < init.len() && #[trigger] family_value(init[i], p) == Some(m0);
                        assert(family_value(f[i0], p) == Some(m0));
                    },
                    None => {},
                }
                assert(exists|i: int| 0 <= i < f.len() && #[trigger] family_value(f[i], p) == Some(m)) by {
                    if family_value(f[last], p) == Some(m) {
                    } else {
                        let m0 = family_max(init, p).unwrap();
                        let i0 = choose|i: int|
                            0 <= i < init.len() && #[trigger] family_value(init[i], p) == Some(m0);
                        assert(family_value(f[i0], p) == Some(m));
                    }
                }
            },
            None => {},
        }
    }
}

/// Two feature lists with the same features carry the same family maximum.
proof fn lemma_family_max_same(f: Seq<Seq<char>>, g: Seq<Seq<char>>, p: Seq<char>)
    requires
        same_features(f, g),
    ensures
        family_max(f, p) == family_max(g, p),
{
    lemma_family_max_char(f, p);
    lemma_family_max_char(g, p);
    assert forall|i: int| #![trigger f[i]]
        0 <= i < f.len() implies exists|j: int| 0 <= j < g.len() && #[trigger] g[j] == f[i] by {
        assert(f.contains(f[i]));
        assert(g.contains(f[i]));
    }
    assert forall|j: int| #![trigger g[j]]
        0 <= j < g.len() implies exists|i: int| 0 <= i < f.len() && #[trigger] f[i] == g[j] by {
        assert(g.contains(g[j]));
        assert(f.contains(g[j]));
    }
    match (family_max(f, p), family_max(g, p)) {
        (Some(a), Some(b)) => {
            let i = choose|i: int| 0 <= i < f.len() && #[trigger] family_value(f[i], p) == Some(a);
            let j = choose|j: int| 0 <= j < g.len() && g[j] == f[i];
            assert(family_value(g[j], p) == Some(a));
            let j2 = choose|j: int| 0 <= j < g.len() && #[trigger] family_value(g[j], p) == Some(b);
            let i2 = choose|i: int| 0 <= i < f.len() && f[i] == g[j2];
            assert(family_value(f[i2], p) == Some(b));
        },
        (Some(a), None) => {
            let i = choose|i: int| 0 <= i < f.len() && #[trigger] family_value(f[i], p) == Some(a);
            let j = choose|j: int| 0 <= j < g.len() && g[j] == f[i];
            assert(family_value(g[j], p) is Some);
        },
        (None, Some(b)) => {
            let j = choose|j: int| 0 <= j < g.len() && #[trigger] family_value(g[j], p) == Some(b);
            let i = choose|i: int| 0 <= i < f.len() && f[i] == g[j];
            assert(family_value(f[i], p) is Some);
        },
        (None, None) => {},
    }
}

proof fn lemma_apply_overrides_same(
    e: Entries,
    fv: Seq<(Seq<char>, Entries)>,
    f: Seq<Seq<char>>,
    g: Seq<Seq<char>>,
)
    requires
        same_features(f, g),
    ensures
        apply_overrides(e, fv, f) == apply_overrides(e, fv, g),
    decreases fv.len(),
{
    if fv.len() > 0 {
        assert(f.contains(fv[0].0) == g.contains(fv[0].0));
        let e1 = if f.contains(fv[0].0) {
            spec_insert_all(e, fv[0].1)
        } else {
            e
        };
        lemma_apply_overrides_same(e1, fv.drop_first(), f, g);
    }
}

proof fn lemma_apply_families_same(e: Entries, fams: Entries, f: Seq<Seq<char>>, g: Seq<Seq<char>>)
    requires
        same_features(f, g),
    ensures
        apply_families(e, fams, f) == apply_families(e, fams, g),
    decreases fams.len(),
{
    if fams.len() > 0 {
        lemma_family_max_same(f, g, fams[0].0);
        let e1 = match family_max(f, fams[0].0) {
            Some(mx) => {
                let reset = reset_value(e, fams[0].1);
                spec_insert(e, fams[0].1, spec_decimal((if mx >= reset { mx } else { reset }) as nat))
            },
            None => e,
        };
        lemma_apply_families_same(e1, fams.drop_first(), f, g);
    }
}

/// The settings depend on the set of enabled features alone: neither their
/// order nor repetitions matter. (So feature unification across a
/// dependency graph is well defined, numeric families resolving to their
/// largest member, and `sm` winning over `sm-sc-only` whichever comes
/// first.)
pub proof fn law_settings_depend_on_feature_set(f: Seq<Seq<char>>, g: Seq<Seq<char>>)
    requires
        same_features(f, g),
    ensures
        spec_val_settings(f) == spec_val_settings(g),
{
    let e0 = spec_insert_all(Seq::empty(), spec_val_universe());
    lemma_apply_overrides_same(e0, spec_feature_vals(), f, g);
    let e1 = apply_overrides(e0, spec_feature_vals(), f);
    assert(f.contains("UPSTREAM_TEST"@) == g.contains("UPSTREAM_TEST"@));
    let e2 = if f.contains("UPSTREAM_TEST"@) {
        spec_insert_all(e1, spec_upstream_test_vals())
    } else {
        e1
    };
    lemma_apply_families_same(e2, spec_numeric_families(), f, g);
}

/// A numeric family resolves to its largest member: with any member
/// enabled, the knob is the largest number a member carries, or its value
/// before the family if that is larger.
pub proof fn law_family_takes_largest(f: Seq<Seq<char>>, prefix: Seq<char>, i: int)
    requires
        0 <= i < f.len(),
        family_value(f[i], prefix) is Some,
    ensures
        family_max(f, prefix) is Some,
        family_value(f[i], prefix).unwrap() <= family_max(f, prefix).unwrap(),
        exists|j: int| 0 <= j < f.len() && #[trigger] family_value(f[j], prefix) == family_max(f, prefix),
{
    lemma_family_max_char(f, prefix);
}

proof fn lemma_families_skip_knob(e: Entries, fams: Entries, feats: Seq<Seq<char>>, k: Seq<char>)
    requires
        forall|j: int| 0 <= j < fams.len() ==> #[trigger] fams[j].1 != k,
    ensures
        spec_lookup(apply_families(e, fams, feats), k) == spec_lookup(e, k),
    decreases fams.len(),
{
    if fams.len() > 0 {
        assert(fams[0].1 != k);
        let e1 = match family_max(feats, fams[0].0) {
            Some(mx) => {
                let reset = reset_value(e, fams[0].1);
                let v = spec_decimal((if mx >= reset { mx } else { reset }) as nat);
                law_lookup_after_insert(e, fams[0].1, v, k);
                spec_insert(e, fams[0].1, v)
            },
            None => e,
        };
        let rest = fams.drop_first();
        assert forall|j: int| 0 <= j < rest.len() implies #[trigger] rest[j].1 != k by {
            assert(rest[j] == fams[j + 1]);
        }
        lemma_families_skip_knob(e1, rest, feats, k);
    }
}

proof fn lemma_families_monotone(
    ef: Entries,
    eg: Entries,
    fams: Entries,
    f: Seq<Seq<char>>,
    x: Seq<char>,
    i: int,
    k: Seq<char>,
)
    requires
        0 <= i < fams.len(),
        fams[i].1 == k,
        forall|j: int| 0 <= j < fams.len() && j != i ==> #[trigger] fams[j].1 != k,
        family_value(x, fams[i].0) is Some,
        spec_lookup(ef, k) == spec_lookup(eg, k),
    ensures
        reset_value(apply_families(eg, fams, f.push(x)), k) >= reset_value(
            apply_families(ef, fams, f),
            k,
        ),
    decreases fams.len(),
{
    let g = f.push(x);
    let p = fams[0].0;
    let e1f = match family_max(f, p) {
        Some(mx) => {
            let reset = reset_value(ef, fams[0].1);
            spec_insert(ef, fams[0].1, spec_decimal((if mx >= reset { mx } else { reset }) as nat))
        },
        None => ef,
    };
    let e1g = match family_max(g, p) {
        Some(mx) => {
            let reset = reset_value(eg, fams[0].1);
            spec_insert(eg, fams[0].1, spec_decimal((if mx >= reset { mx } else { reset }) as nat))
        },
        None => eg,
    };
    assert(apply_families(ef, fams, f) == apply_families(e1f, fams.drop_first(), f));
    assert(apply_families(eg, fams, g) == apply_families(e1g, fams.drop_first(), g));
    let rest = fams.drop_first();
    if i == 0 {
        assert(g.drop_last() =~= f);
        assert(g.last() == x);
        assert(family_max(g, p) == opt_max(family_max(f, p), family_value(x, p)));
        let reset = reset_value(ef, k);
        assert(reset == reset_value(eg, k));
        let mg = family_max(g, p).unwrap();
        let vg: u32 = if mg >= reset { mg } else { reset };
        law_lookup_after_insert(eg, k, spec_decimal(vg as nat), k);
        lemma_parse_decimal(vg as nat);
        assert(reset_value(e1g, k) == vg);
        match family_max(f, p) {
            Some(mf) => {
                let vf: u32 = if mf >= reset { mf } else { reset };
                law_lookup_after_insert(ef, k, spec_decimal(vf as nat), k);
                lemma_parse_decimal(vf as nat);
                assert(reset_value(e1f, k) == vf);
            },
            None => {},
        }
        assert forall|j: int| 0 <= j < rest.len() implies #[trigger] rest[j].1 != k by {
            assert(rest[j] == fams[j + 1]);
        }
        lemma_families_skip_knob(e1f, rest, f, k);
        lemma_families_skip_knob(e1g, rest, g, k);
    } else {
        assert(fams[0].1 != k);
        match family_max(f, p) {
            Some(mx) => {
                let reset = reset_value(ef, fams[0].1);
                law_lookup_after_insert(
                    ef,
                    fams[0].1,
                    spec_decimal((if mx >= reset { mx } else { reset }) as nat),
                    k,
                );
            },
            None => {},
        }
        match family_max(g, p) {
            Some(mx) => {
                let reset = reset_value(eg, fams[0].1);
                law_lookup_after_insert(
                    eg,
                    fams[0].1,
                    spec_decimal((if mx >= reset { mx } else { reset }) as nat),
                    k,
                );
            },
            None => {},
        }
        assert(rest[i - 1] == fams[i]);
        assert forall|j: int| 0 <= j < rest.len() && j != i - 1 implies #[trigger] rest[j].1 != k by {
            assert(rest[j] == fams[j + 1]);
        }
        lemma_families_monotone(e1f, e1g, rest, f, x, i - 1, k);
    }
}

proof fn lemma_overrides_ignore(
    e: Entries,
    fv: Seq<(Seq<char>, Entries)>,
    f: Seq<Seq<char>>,
    x: Seq<char>,
)
    requires
        forall|j: int| 0 <= j < fv.len() ==> #[trigger] fv[j].0 != x,
    ensures
        apply_overrides(e, fv, f.push(x)) == apply_overrides(e, fv, f),
    decreases fv.len(),
{
    if fv.len() > 0 {
        assert(fv[0].0 != x);
        assert(f.push(x).contains(fv[0].0) == f.contains(fv[0].0)) by {
            if f.contains(fv[0].0) {
                let j = choose|j: int| 0 <= j < f.len() && f[j] == fv[0].0;
                assert(f.push(x)[j] == f[j]);
            }
            if f.push(x).contains(fv[0].0) {
                let j = choose|j: int| 0 <= j < f.push(x).len() && f.push(x)[j] == fv[0].0;
                assert(j < f.len());
                assert(f[j] == f.push(x)[j]);
            }
        }
        let e1 = if f.contains(fv[0].0) {
            spec_insert_all(e, fv[0].1)
        } else {
            e
        };
        let rest = fv.drop_first();
        assert forall|j: int| 0 <= j < rest.len() implies #[trigger] rest[j].0 != x by {
            assert(rest[j] == fv[j + 1]);
        }
        lemma_overrides_ignore(e1, rest, f, x);
    }
}

/// Enabling one more member of a numeric family never lowers the family's
/// knob (read as a number): the knob takes the largest member, and the
/// member touches nothing else the knob depends on.
pub proof fn law_family_member_never_lowers(f: Seq<Seq<char>>, x: Seq<char>, i: int)
    requires
        0 <= i < spec_numeric_families().len(),
        family_value(x, spec_numeric_families()[i].0) is Some,
    ensures
        reset_value(spec_val_settings(f.push(x)), spec_numeric_families()[i].1) >= reset_value(
            spec_val_settings(f),
            spec_numeric_families()[i].1,
        ),
{
    reveal_strlit("L2CAP_COC_");
    reveal_strlit("MAX_CONNECTIONS_");
    reveal_strlit("MSYS_COUNT_");
    reveal_strlit("BLE_L2CAP_COC_MAX_NUM");
    reveal_strlit("BLE_MAX_CONNECTIONS");
    reveal_strlit("MSYS_1_BLOCK_COUNT");
    reveal_strlit("PERIPHERAL");
    reveal_strlit("BROADCASTER");
    reveal_strlit("CENTRAL");
    reveal_strlit("OBSERVER");
    reveal_strlit("EXT_ADV");
    reveal_strlit("SM_SC_ONLY");
    reveal_strlit("SM");
    reveal_strlit("UPSTREAM_TEST");
    let fams = spec_numeric_families();
    let p = fams[i].0;
    let k = fams[i].1;
    assert(starts_with(x, p));
    assert(x[0] == p[0]) by {
        assert(x.subrange(0, p.len() as int)[0] == x[0]);
    }
    assert(x[0] == 'L' || x[0] == 'M');
    let fv = spec_feature_vals();
    assert forall|j: int| 0 <= j < fv.len() implies #[trigger] fv[j].0 != x by {
        assert(fv[j].0[0] != 'L' && fv[j].0[0] != 'M');
    }
    assert(x != "UPSTREAM_TEST"@) by {
        assert("UPSTREAM_TEST"@[0] == 'U');
    }
    let g = f.push(x);
    assert(g.contains("UPSTREAM_TEST"@) == f.contains("UPSTREAM_TEST"@)) by {
        if f.contains("UPSTREAM_TEST"@) {
            let j = choose|j: int| 0 <= j < f.len() && f[j] == "UPSTREAM_TEST"@;
            assert(g[j] == f[j]);
        }
        if g.contains("UPSTREAM_TEST"@) {
            let j = choose|j: int| 0 <= j < g.len() && g[j] == "UPSTREAM_TEST"@;
            assert(j < f.len());
            assert(f[j] == g[j]);
        }
    }
    let e0 = spec_insert_all(Seq::empty(), spec_val_universe());
    lemma_overrides_ignore(e0, fv, f, x);
    let e1 = apply_overrides(e0, fv, f);
    let e2 = if f.contains("UPSTREAM_TEST"@) {
        spec_insert_all(e1, spec_upstream_test_vals())
    } else {
        e1
    };
    assert forall|j: int| 0 <= j < fams.len() && j != i implies #[trigger] fams[j].1 != k by {
        assert(fams[j].1[4] != fams[i].1[4] || fams[j].1[0] != fams[i].1[0]);
    }
    lemma_families_monotone(e2, e2, fams, f, x, i, k);
}

/// Whether `e` names `k`.
pub open spec fn has_name(e: Entries, k: Seq<char>) -> bool {
    exists|i: int| 0 <= i < e.len() && #[trigger] e[i].0 == k
}

proof fn lemma_insert_all_names(e: Entries, pairs: Entries, k: Seq<char>)
    ensures
        spec_lookup(spec_insert_all(e, pairs), k) is Some ==> (spec_lookup(e, k) is Some
            || has_name(pairs, k)),
    decreases pairs.len(),
{
    if pairs.len() > 0 {
        let e1 = spec_insert(e, pairs[0].0, pairs[0].1);
        law_lookup_after_insert(e, pairs[0].0, pairs[0].1, k);
        lemma_insert_all_names(e1, pairs.drop_first(), k);
        if has_name(pairs.drop_first(), k) {
            let i = choose|i: int| 0 <= i < pairs.drop_first().len() && #[trigger] pairs.drop_first()[i].0 == k;
            assert(pairs[i + 1].0 == k);
        }
        if pairs[0].0 == k {
            assert(pairs[0].0 == k);
        }
    }
}

/// Every knob a feature overrides is a knob of the universe.
proof fn lemma_override_names_in_universe(j: int, m: int)
    requires
        0 <= j < spec_feature_vals().len(),
        0 <= m < spec_feature_vals()[j].1.len(),
    ensures
        has_name(spec_val_universe(), spec_feature_vals()[j].1[m].0),
{
    let u = spec_val_universe();
    let fv = spec_feature_vals();
        if j == 0 {
            if m == 0 {
                assert(u[3].0 == fv[j].1[m].0);
            } else if m == 1 {
                assert(u[4].0 == fv[j].1[m].0);
            }
        } else if j == 1 {
            if m == 0 {
                assert(u[0].0 == fv[j].1[m].0);
            }
        } else if j == 2 {
            if m == 0 {
                assert(u[1].0 == fv[j].1[m].0);
            } else if m == 1 {
                assert(u[5].0 == fv[j].1[m].0);
            }
        } else if j == 3 {
            if m == 0 {
                assert(u[2].0 == fv[j].1[m].0);
            }
        } else if j == 4 {
            if m == 0 {
                assert(u[9].0 == fv[j].1[m].0);
            }
        } else if j == 5 {
            if m == 0 {
                assert(u[11].0 == fv[j].1[m].0);
            } else if m == 1 {
                assert(u[12].0 == fv[j].1[m].0);
            } else if m == 2 {
                assert(u[13].0 == fv[j].1[m].0);
            }
        } else if j == 6 {
            if m == 0 {
                assert(u[11].0 == fv[j].1[m].0);
            } else if m == 1 {
                assert(u[12].0 == fv[j].1[m].0);
            } else if m == 2 {
                assert(u[13].0 == fv[j].1[m].0);
            }
        }
}

proof fn lemma_overrides_names(e: Entries, fv: Seq<(Seq<char>, Entries)>, feats: Seq<Seq<char>>, k: Seq<char>)
    requires
        forall|j: int, m: int|
            0 <= j < fv.len() && 0 <= m < fv[j].1.len() ==> has_name(
                spec_val_universe(),
                #[trigger] fv[j].1[m].0,
            ),
    ensures
        spec_lookup(apply_overrides(e, fv, feats), k) is Some ==> (spec_lookup(e, k) is Some
            || has_name(spec_val_universe(), k)),
    decreases fv.len(),
{
    if fv.len() > 0 {
        let e1 = if feats.contains(fv[0].0) {
            lemma_insert_all_names(e, fv[0].1, k);
            if has_name(fv[0].1, k) {
                let m = choose|m: int| 0 <= m < fv[0].1.len() && #[trigger] fv[0].1[m].0 == k;
                assert(has_name(spec_val_universe(), fv[0].1[m].0));
            }
            spec_insert_all(e, fv[0].1)
        } else {
            e
        };
        let rest = fv.drop_first();
        assert forall|j: int, m: int| 0 <= j < rest.len() && 0 <= m < rest[j].1.len() implies has_name(
            spec_val_universe(),
            #[trigger] rest[j].1[m].0,
        ) by {
            assert(rest[j] == fv[j + 1]);
        }
        lemma_overrides_names(e1, rest, feats, k);
    }
}

proof fn lemma_families_names(e: Entries, fams: Entries, feats: Seq<Seq<char>>, k: Seq<char>)
    ensures
        spec_lookup(apply_families(e, fams, feats), k) is Some ==> (spec_lookup(e, k) is Some
            || exists|j: int| 0 <= j < fams.len() && #[trigger] fams[j].1 == k),
    decreases fams.len(),
{
    if fams.len() > 0 {
        let e1 = match family_max(feats, fams[0].0) {
            Some(mx) => {
                let reset = reset_value(e, fams[0].1);
                let v = spec_decimal((if mx >= reset { mx } else { reset }) as nat);
                law_lookup_after_insert(e, fams[0].1, v, k);
                spec_insert(e, fams[0].1, v)
            },
            None => e,
        };
        lemma_families_names(e1, fams.drop_first(), feats, k);
        if exists|j: int| 0 <= j < fams.drop_first().len() && #[trigger] fams.drop_first()[j].1 == k {
            let j = choose|j: int| 0 <= j < fams.drop_first().len() && #[trigger] fams.drop_first()[j].1 == k;
            assert(fams[j + 1].1 == k);
        }
        if fams[0].1 == k {
            assert(fams[0].1 == k);
        }
    }
}

/// The settings name exactly the knobs of the universe, plus those of the
/// upstream test overlay when `UPSTREAM_TEST` is enabled: features and
/// families only set knobs of the universe.
pub proof fn law_settings_names(f: Seq<Seq<char>>, k: Seq<char>)
    ensures
        spec_lookup(spec_val_settings(f), k) is Some <==> (has_name(spec_val_universe(), k) || (
        f.contains("UPSTREAM_TEST"@) && has_name(spec_upstream_test_vals(), k))),
{
    let u = spec_val_universe();
    let up = spec_upstream_test_vals();
    let fv = spec_feature_vals();
    let fams = spec_numeric_families();
    let e0 = spec_insert_all(Seq::empty(), u);
    let e1 = apply_overrides(e0, fv, f);
    let e2 = if f.contains("UPSTREAM_TEST"@) {
        spec_insert_all(e1, up)
    } else {
        e1
    };
    assert(spec_val_settings(f) == apply_families(e2, fams, f));
    // Only names of the universe, the overlay and the families are set.
    assert forall|j: int, m: int| 0 <= j < fv.len() && 0 <= m < fv[j].1.len() implies has_name(
        u,
        #[trigger] fv[j].1[m].0,
    ) by {
        lemma_override_names_in_universe(j, m);
    }
    lemma_insert_all_names(Seq::empty(), u, k);
    lemma_overrides_names(e0, fv, f, k);
    if f.contains("UPSTREAM_TEST"@) {
        lemma_insert_all_names(e1, up, k);
    }
    lemma_families_names(e2, fams, f, k);
    if exists|j: int| 0 <= j < fams.len() && #[trigger] fams[j].1 == k {
        let j = choose|j: int| 0 <= j < fams.len() && #[trigger] fams[j].1 == k;
        assert(u[16].0 == fams[0].1);
        assert(u[17].0 == fams[1].1);
        assert(u[18].0 == fams[2].1);
        assert(has_name(u, k));
    }
    // Every name of the universe, and of an enabled overlay, is set.
    if has_name(u, k) {
        let i = choose|i: int| 0 <= i < u.len() && #[trigger] u[i].0 == k;
        law_universe_always_set(f, i);
    }
    if f.contains("UPSTREAM_TEST"@) && has_name(up, k) {
        let i = choose|i: int| 0 <= i < up.len() && #[trigger] up[i].0 == k;
        lemma_insert_all_has(e1, up, i);
        lemma_apply_families_keeps(e2, fams, f, k);
    }
}

proof fn lemma_overrides_split(e: Entries, fv: Seq<(Seq<char>, Entries)>, f: Seq<Seq<char>>, n: int)
    requires
        0 <= n <= fv.len(),
    ensures
        apply_overrides(e, fv, f) == apply_overrides(apply_overrides(e, fv.take(n), f), fv.skip(n), f),
    decreases n,
{
    if n == 0 {
        assert(fv.take(0) =~= Seq::<(Seq<char>, Entries)>::empty());
        assert(fv.skip(0) =~= fv);
    } else {
        let e1 = if f.contains(fv[0].0) {
            spec_insert_all(e, fv[0].1)
        } else {
            e
        };
        lemma_overrides_split(e1, fv.drop_first(), f, n - 1);
        assert(fv.drop_first().take(n - 1) =~= fv.take(n).drop_first());
        assert(fv.drop_first().skip(n - 1) =~= fv.skip(n));
        assert(fv.take(n)[0] == fv[0]);
    }
}

proof fn lemma_insert_all_skip(e: Entries, pairs: Entries, k: Seq<char>)
    requires
        forall|i: int| 0 <= i < pairs.len() ==> #[trigger] pairs[i].0 != k,
    ensures
        spec_lookup(spec_insert_all(e, pairs), k) == spec_lookup(e, k),
    decreases pairs.len(),
{
    if pairs.len() > 0 {
        assert(pairs[0].0 != k);
        law_lookup_after_insert(e, pairs[0].0, pairs[0].1, k);
        let rest = pairs.drop_first();
        assert forall|i: int| 0 <= i < rest.len() implies #[trigger] rest[i].0 != k by {
            assert(rest[i] == pairs[i + 1]);
        }
        lemma_insert_all_skip(spec_insert(e, pairs[0].0, pairs[0].1), rest, k);
    }
}

/// Inserting three pairs of three different names: each name reads back
/// its own value.
proof fn lemma_insert_three(e: Entries, pairs: Entries)
    requires
        pairs.len() == 3,
        pairs[0].0 != pairs[1].0,
        pairs[0].0 != pairs[2].0,
        pairs[1].0 != pairs[2].0,
    ensures
        spec_lookup(spec_insert_all(e, pairs), pairs[0].0) == Some(pairs[0].1),
        spec_lookup(spec_insert_all(e, pairs), pairs[1].0) == Some(pairs[1].1),
        spec_lookup(spec_insert_all(e, pairs), pairs[2].0) == Some(pairs[2].1),
{
    let (a, b, c) = (pairs[0], pairs[1], pairs[2]);
    let e1 = spec_insert(e, a.0, a.1);
    let e2 = spec_insert(e1, b.0, b.1);
    let e3 = spec_insert(e2, c.0, c.1);
    let p1 = pairs.drop_first();
    let p2 = p1.drop_first();
    let p3 = p2.drop_first();
    assert(p1[0] == b && p2[0] == c && p3.len() == 0);
    assert(spec_insert_all(e, pairs) == spec_insert_all(e1, p1));
    assert(spec_insert_all(e1, p1) == spec_insert_all(e2, p2));
    assert(spec_insert_all(e2, p2) == spec_insert_all(e3, p3));
    assert(spec_insert_all(e, pairs) == e3);
    law_lookup_after_insert(e, a.0, a.1, a.0);
    law_lookup_after_insert(e1, b.0, b.1, a.0);
    law_lookup_after_insert(e2, c.0, c.1, a.0);
    law_lookup_after_insert(e1, b.0, b.1, b.0);
    law_lookup_after_insert(e2, c.0, c.1, b.0);
    law_lookup_after_insert(e2, c.0, c.1, c.0);
}

/// The security manager's knobs follow its features: with `SM` enabled,
/// legacy pairing and Secure Connections are on and Secure-Connections-only
/// is off; with `SM_SC_ONLY` enabled without `SM`, Secure Connections is on,
/// required, and legacy pairing is off. (Outside the upstream test overlay,
/// which sets its own pairing knobs.)
pub proof fn law_security_knobs(f: Seq<Seq<char>>)
    requires
        !f.contains("UPSTREAM_TEST"@),
    ensures
        f.contains("SM"@) ==> {
            &&& spec_lookup(spec_val_settings(f), "BLE_SM_LEGACY"@) == Some("1"@)
            &&& spec_lookup(spec_val_settings(f), "BLE_SM_SC"@) == Some("1"@)
            &&& spec_lookup(spec_val_settings(f), "BLE_SM_SC_ONLY"@) == Some("0"@)
        },
        f.contains("SM_SC_ONLY"@) && !f.contains("SM"@) ==> {
            &&& spec_lookup(spec_val_settings(f), "BLE_SM_LEGACY"@) == Some("0"@)
            &&& spec_lookup(spec_val_settings(f), "BLE_SM_SC"@) == Some("1"@)
            &&& spec_lookup(spec_val_settings(f), "BLE_SM_SC_ONLY"@) == Some("1"@)
        },
{
    reveal_strlit("BLE_SM_LEGACY");
    reveal_strlit("BLE_SM_SC");
    reveal_strlit("BLE_SM_SC_ONLY");
    reveal_strlit("BLE_L2CAP_COC_MAX_NUM");
    reveal_strlit("BLE_MAX_CONNECTIONS");
    reveal_strlit("MSYS_1_BLOCK_COUNT");
    let fv = spec_feature_vals();
    let fams = spec_numeric_families();
    let e0 = spec_insert_all(Seq::empty(), spec_val_universe());
    lemma_overrides_split(e0, fv, f, 5);
    let e5 = apply_overrides(e0, fv.take(5), f);
    let tail = fv.skip(5);
    assert(tail.len() == 2 && tail[0] == fv[5] && tail[1] == fv[6]);
    let e6 = if f.contains(fv[5].0) {
        spec_insert_all(e5, fv[5].1)
    } else {
        e5
    };
    let e7 = if f.contains(fv[6].0) {
        spec_insert_all(e6, fv[6].1)
    } else {
        e6
    };
    assert(tail.drop_first().drop_first().len() == 0);
    assert(tail.drop_first()[0] == fv[6]);
    assert(apply_overrides(e5, tail, f) == apply_overrides(e6, tail.drop_first(), f));
    assert(apply_overrides(e6, tail.drop_first(), f) == apply_overrides(
        e7,
        tail.drop_first().drop_first(),
        f,
    ));
    assert(apply_overrides(e5, tail, f) == e7);
    let e1 = apply_overrides(e0, fv, f);
    assert(e1 == e7);
    assert(spec_val_settings(f) == apply_families(e1, fams, f));
    let ks = seq!["BLE_SM_LEGACY"@, "BLE_SM_SC"@, "BLE_SM_SC_ONLY"@];
    assert forall|m: int| 0 <= m < 3 implies spec_lookup(spec_val_settings(f), #[trigger] ks[m])
        == spec_lookup(e7, ks[m]) by {
        let k = ks[m];
        assert(k[4] == 'S' && k[0] == 'B');
        assert forall|j: int| 0 <= j < fams.len() implies #[trigger] fams[j].1 != k by {
            assert(fams[j].1[4] != 'S' || fams[j].1[0] != 'B');
        }
        lemma_families_skip_knob(e1, fams, f, k);
    }
    assert(ks[0] == "BLE_SM_LEGACY"@ && ks[1] == "BLE_SM_SC"@ && ks[2] == "BLE_SM_SC_ONLY"@);
    assert("BLE_SM_LEGACY"@.len() == 13 && "BLE_SM_SC"@.len() == 9 && "BLE_SM_SC_ONLY"@.len() == 14);
    assert(fv[5].1.len() == 3 && fv[6].1.len() == 3);
    assert(fv[5].1[0].0 == "BLE_SM_LEGACY"@ && fv[5].1[1].0 == "BLE_SM_SC"@ && fv[5].1[2].0
        == "BLE_SM_SC_ONLY"@);
    assert(fv[6].1[0].0 == "BLE_SM_LEGACY"@ && fv[6].1[1].0 == "BLE_SM_SC"@ && fv[6].1[2].0
        == "BLE_SM_SC_ONLY"@);
    reveal_strlit("SM");
    reveal_strlit("SM_SC_ONLY");
    assert(fv[5].0 == "SM_SC_ONLY"@ && fv[6].0 == "SM"@);
    if f.contains("SM"@) {
        lemma_insert_three(e6, fv[6].1);
    } else if f.contains("SM_SC_ONLY"@) {
        lemma_insert_three(e5, fv[5].1);
    }
}

/// Inserting never loses a name.
proof fn lemma_insert_all_keeps(e: Entries, pairs: Entries, k: Seq<char>)
    requires
        spec_lookup(e, k) is Some,
    ensures
        spec_lookup(spec_insert_all(e, pairs), k) is Some,
    decreases pairs.len(),
{
    if pairs.len() > 0 {
        law_lookup_after_insert(e, pairs[0].0, pairs[0].1, k);
        lemma_insert_all_keeps(spec_insert(e, pairs[0].0, pairs[0].1), pairs.drop_first(), k);
    }
}

/// Every name inserted is present afterwards.
proof fn lemma_insert_all_has(e: Entries, pairs: Entries, i: int)
    requires
        0 <= i < pairs.len(),
    ensures
        spec_lookup(spec_insert_all(e, pairs), pairs[i].0) is Some,
    decreases pairs.len(),
{
    let e1 = spec_insert(e, pairs[0].0, pairs[0].1);
    if i == 0 {
        law_lookup_after_insert(e, pairs[0].0, pairs[0].1, pairs[0].0);
        lemma_insert_all_keeps(e1, pairs.drop_first(), pairs[0].0);
    } else {
        assert(pairs.drop_first()[i - 1] == pairs[i]);
        lemma_insert_all_has(e1, pairs.drop_first(), i - 1);
    }
}

proof fn lemma_apply_overrides_keeps(
    e: Entries,
    fv: Seq<(Seq<char>, Entries)>,
    feats: Seq<Seq<char>>,
    k: Seq<char>,
)
    requires
        spec_lookup(e, k) is Some,
    ensures
        spec_lookup(apply_overrides(e, fv, feats), k) is Some,
    decreases fv.len(),
{
    if fv.len() > 0 {
        let e1 = if feats.contains(fv[0].0) {
            lemma_insert_all_keeps(e, fv[0].1, k);
            spec_insert_all(e, fv[0].1)
        } else {
            e
        };
        lemma_apply_overrides_keeps(e1, fv.drop_first(), feats, k);
    }
}

proof fn lemma_apply_families_keeps(e: Entries, fams: Entries, feats: Seq<Seq<char>>, k: Seq<char>)
    requires
        spec_lookup(e, k) is Some,
    ensures
        spec_lookup(apply_families(e, fams, feats), k) is Some,
    decreases fams.len(),
{
    if fams.len() > 0 {
        let e1 = match family_max(feats, fams[0].0) {
            Some(mx) => {
                let reset = reset_value(e, fams[0].1);
                let v = spec_decimal((if mx >= reset { mx } else { reset }) as nat);
                law_lookup_after_insert(e, fams[0].1, v, k);
                spec_insert(e, fams[0].1, v)
            },
            None => e,
        };
        lemma_apply_families_keeps(e1, fams.drop_first(), feats, k);
    }
}

/// Every knob of the universe is always set, whatever the features: it is
/// always passed to the C compiler explicitly, never left to the header's
/// default.
pub proof fn law_universe_always_set(feats: Seq<Seq<char>>, i: int)
    requires
        0 <= i < spec_val_universe().len(),
    ensures
        spec_lookup(spec_val_settings(feats), spec_val_universe()[i].0) is Some,
{
    let k = spec_val_universe()[i].0;
    let e0 = spec_insert_all(Seq::empty(), spec_val_universe());
    lemma_insert_all_has(Seq::empty(), spec_val_universe(), i);
    lemma_apply_overrides_keeps(e0, spec_feature_vals(), feats, k);
    let e1 = apply_overrides(e0, spec_feature_vals(), feats);
    let e2 = if feats.contains("UPSTREAM_TEST"@) {
        lemma_insert_all_keeps(e1, spec_upstream_test_vals(), k);
        spec_insert_all(e1, spec_upstream_test_vals())
    } else {
        e1
    };
    lemma_apply_families_keeps(e2, spec_numeric_families(), feats, k);
}

proof fn lemma_insert_all_sorted(e: Entries, pairs: Entries)
    requires
        sorted(e),
    ensures
        sorted(spec_insert_all(e, pairs)),
    decreases pairs.len(),
{
    if pairs.len() > 0 {
        lemma_insert_sorted(e, pairs[0].0, pairs[0].1);
        lemma_insert_all_sorted(spec_insert(e, pairs[0].0, pairs[0].1), pairs.drop_first());
    }
}

fn insert_all(s: &mut Settings, pairs: &Vec<(&str, &str)>)
    requires
        old(s).wf(),
    ensures
        final(s).wf(),
        final(s)@ == spec_insert_all(old(s)@, pairs_view(pairs@)),
{
    let ghost pv = pairs_view(pairs@);
    let mut i: usize = 0;
    assert(pv.skip(0) =~= pv);
    while i < pairs.len()
        invariant
            s.wf(),
            i <= pairs@.len(),
            pv == pairs_view(pairs@),
            spec_insert_all(s@, pv.skip(i as int)) == spec_insert_all(old(s)@, pv),
        decreases pairs@.len() - i,
    {
        let (k, v) = pairs[i];
        assert(pv.skip(i as int).drop_first() =~= pv.skip(i + 1));
        assert(pv.skip(i as int)[0] == (k@, v@));
        s.insert(k, String::from_str(v));
        i = i + 1;
    }
    assert(pv.skip(i as int) =~= Seq::<(Seq<char>, Seq<char>)>::empty());
}

/// The largest number a feature of the family `prefix` carries.
fn family_max_of(features: &[&str], prefix: &str) -> (r: Option<u32>)
    ensures
        r == family_max(names_view(features@), prefix@),
{
    let ghost fs = names_view(features@);
    let mut best: Option<u32> = None;
    let mut i: usize = 0;
    assert(fs.take(0) =~= Seq::<Seq<char>>::empty());
    while i < features.len()
        invariant
            i <= features@.len(),
            fs == names_view(features@),
            best == family_max(fs.take(i as int), prefix@),
        decreases features@.len() - i,
    {
        let f = features[i];
        let cur = match strip_prefix(f, prefix) {
            Some(rest) => parse_u32(rest),
            None => None,
        };
        assert(cur == family_value(fs[i as int], prefix@));
        best = match (best, cur) {
            (Some(x), Some(y)) => Some(if x >= y { x } else { y }),
            (Some(x), None) => Some(x),
            (None, y) => y,
        };
        assert(fs.take(i + 1).drop_last() =~= fs.take(i as int));
        assert(fs.take(i + 1).last() == fs[i as int]);
        i = i + 1;
    }
    assert(fs.take(i as int) =~= fs);
    best
}

/// Computes the effective `MYNEWT_VAL_*` settings for an explicit feature
/// set (feature names in `CARGO_FEATURE_*` form).
pub fn val_settings_for(features: &[&str]) -> (r: Settings)
    ensures
        r.wf(),
        r@ == spec_val_settings(names_view(features@)),
{
    let ghost feats = names_view(features@);
    let mut vals = Settings::new();
    let universe = val_universe();
    insert_all(&mut vals, &universe);
    assert(vals@ == spec_insert_all(Seq::empty(), spec_val_universe()));

    let fv = feature_vals();
    let ghost fvv = overrides_view(fv@);
    let mut i: usize = 0;
    assert(fvv.skip(0) =~= fvv);
    while i < fv.len()
        invariant
            vals.wf(),
            i <= fv@.len(),
            fvv == overrides_view(fv@),
            fvv == spec_feature_vals(),
            feats == names_view(features@),
            apply_overrides(vals@, fvv.skip(i as int), feats) == apply_overrides(
                spec_insert_all(Seq::empty(), spec_val_universe()),
                fvv,
                feats,
            ),
        decreases fv@.len() - i,
    {
        let enabled = str_in(features, fv[i].0);
        assert(fvv.skip(i as int).drop_first() =~= fvv.skip(i + 1));
        assert(fvv.skip(i as int)[0] == fvv[i as int]);
        if enabled {
            insert_all(&mut vals, &fv[i].1);
        }
        i = i + 1;
    }
    assert(fvv.skip(i as int) =~= Seq::<(Seq<char>, Entries)>::empty());

    if str_in(features, "UPSTREAM_TEST") {
        let upstream = upstream_test_vals();
        insert_all(&mut vals, &upstream);
    }

    let fams = numeric_families();
    let ghost famv = pairs_view(fams@);
    let ghost e2 = vals@;
    let mut j: usize = 0;
    assert(famv.skip(0) =~= famv);
    while j < fams.len()
        invariant
            vals.wf(),
            j <= fams@.len(),
            famv == pairs_view(fams@),
            feats == names_view(features@),
            apply_families(vals@, famv.skip(j as int), feats) == apply_families(e2, famv, feats),
        decreases fams@.len() - j,
    {
        let (prefix, name) = fams[j];
        assert(famv.skip(j as int).drop_first() =~= famv.skip(j + 1));
        assert(famv.skip(j as int)[0] == (prefix@, name@));
        if let Some(mx) = family_max_of(features, prefix) {
            let reset = match vals.get(name) {
                Some(v) => match parse_u32(v.as_str()) {
                    Some(r) => r,
                    None => 0,
                },
                None => 0,
            };
            assert(reset == reset_value(vals@, name@));
            let value = if mx >= reset {
                mx
            } else {
                reset
            };
            vals.insert(name, u32_to_string(value));
        }
        j = j + 1;
    }
    assert(famv.skip(j as int) =~= Seq::<(Seq<char>, Seq<char>)>::empty());
    vals
}


/// The differences, in reference order, of the reference settings against
/// the active ones: `~KNOB=v1->v2` for a changed value, `-KNOB=v` for a
/// missing knob.
pub open spec fn spec_delta_changed(reference: Entries, active: Entries) -> Seq<Seq<char>>
    decreases reference.len(),
{
    if reference.len() == 0 {
        Seq::empty()
    } else {
        let name = reference[0].0;
        let rv = reference[0].1;
        let head: Seq<Seq<char>> = match spec_lookup(active, name) {
            Some(v) => if v == rv {
                Seq::empty()
            } else {
                seq!["~"@ + name + "="@ + rv + "->"@ + v]
            },
            None => seq!["-"@ + name + "="@ + rv],
        };
        head + spec_delta_changed(reference.drop_first(), active)
    }
}

/// The active knobs the reference lacks, in active order: `+KNOB=v`.
pub open spec fn spec_delta_added(active: Entries, reference: Entries) -> Seq<Seq<char>>
    decreases active.len(),
{
    if active.len() == 0 {
        Seq::empty()
    } else {
        let head: Seq<Seq<char>> = if spec_lookup(reference, active[0].0) is Some {
            Seq::empty()
        } else {
            seq!["+"@ + active[0].0 + "="@ + active[0].1]
        };
        head + spec_delta_added(active.drop_first(), reference)
    }
}

/// The pieces joined with `sep` between consecutive ones.
pub open spec fn spec_join(list: Seq<Seq<char>>, sep: Seq<char>) -> Seq<char>
    decreases list.len(),
{
    if list.len() == 0 {
        Seq::empty()
    } else if list.len() == 1 {
        list[0]
    } else {
        spec_join(list.drop_last(), sep) + sep + list.last()
    }
}

/// What [`prebuilt_validity`] answers for two settings maps.
pub open spec fn spec_validity(reference: Entries, active: Entries) -> Result<(), Seq<char>> {
    let delta = spec_delta_changed(reference, active) + spec_delta_added(active, reference);
    if delta.len() == 0 {
        Ok(())
    } else {
        Err(spec_join(delta, ", "@))
    }
}

/// No knob of `reference` is missing or different in `active` exactly when
/// the changed-knob part of the delta is empty.
proof fn lemma_changed_empty(reference: Entries, active: Entries)
    ensures
        (spec_delta_changed(reference, active).len() == 0) == (forall|i: int|
            0 <= i < reference.len() ==> spec_lookup(active, #[trigger] reference[i].0) == Some(
                reference[i].1,
            )),
    decreases reference.len(),
{
    if reference.len() > 0 {
        let t = reference.drop_first();
        lemma_changed_empty(t, active);
        assert forall|i: int| 0 < i < reference.len() implies reference[i] == t[i - 1] by {}
        if spec_delta_changed(reference, active).len() == 0 {
            assert forall|i: int| 0 <= i < reference.len() implies spec_lookup(
                active,
                #[trigger] reference[i].0,
            ) == Some(reference[i].1) by {
                if i > 0 {
                    assert(reference[i] == t[i - 1]);
                }
            }
        } else {
            if spec_delta_changed(t, active).len() > 0 {
                let i = choose|i: int|
                    0 <= i < t.len() && spec_lookup(active, #[trigger] t[i].0) != Some(t[i].1);
                assert(reference[i + 1] == t[i]);
            }
        }
    }
}

/// Every knob of `active` is known to `reference` exactly when the
/// added-knob part of the delta is empty.
proof fn lemma_added_empty(active: Entries, reference: Entries)
    ensures
        (spec_delta_added(active, reference).len() == 0) == (forall|j: int|
            0 <= j < active.len() ==> spec_lookup(reference, #[trigger] active[j].0) is Some),
    decreases active.len(),
{
    if active.len() > 0 {
        let t = active.drop_first();
        lemma_added_empty(t, reference);
        if spec_delta_added(active, reference).len() == 0 {
            assert forall|j: int| 0 <= j < active.len() implies spec_lookup(
                reference,
                #[trigger] active[j].0,
            ) is Some by {
                if j > 0 {
                    assert(active[j] == t[j - 1]);
                }
            }
        } else {
            if spec_delta_added(t, reference).len() > 0 {
                let j = choose|j: int|
                    0 <= j < t.len() && !(spec_lookup(reference, #[trigger] t[j].0) is Some);
                assert(active[j + 1] == t[j]);
            }
        }
    }
}

/// Sorted entries are a sorted tail after their first entry.
proof fn lemma_sorted_tail(e: Entries)
    requires
        sorted(e),
        e.len() > 0,
    ensures
        sorted(e.drop_first()),
        forall|i: int| 0 <= i < e.drop_first().len() ==> lex_lt(e[0].0, #[trigger] e.drop_first()[i].0),
{
    let t = e.drop_first();
    assert forall|i: int, j: int| 0 <= i < j < t.len() implies lex_lt(
        #[trigger] t[i].0,
        #[trigger] t[j].0,
    ) by {
        assert(t[i] == e[i + 1]);
        assert(t[j] == e[j + 1]);
    }
    assert forall|i: int| 0 <= i < t.len() implies lex_lt(e[0].0, #[trigger] t[i].0) by {
        assert(t[i] == e[i + 1]);
    }
}

/// Two sorted settings maps that hold each other's names, the first's with
/// the same values, are the same map.
proof fn lemma_sorted_same_map(r: Entries, a: Entries)
    requires
        sorted(r),
        sorted(a),
        forall|i: int| 0 <= i < r.len() ==> spec_lookup(a, #[trigger] r[i].0) == Some(r[i].1),
        forall|j: int| 0 <= j < a.len() ==> spec_lookup(r, #[trigger] a[j].0) is Some,
    ensures
        r == a,
    decreases r.len(),
{
    if r.len() == 0 {
        if a.len() > 0 {
            assert(spec_lookup(r, a[0].0) is Some);
        }
        assert(r =~= a);
    } else {
        let k = r[0].0;
        assert(spec_lookup(a, k) == Some(r[0].1));
        lemma_lookup_found(a, k);
        let j = choose|j: int| 0 <= j < a.len() && #[trigger] a[j] == (k, spec_lookup(a, k).unwrap());
        assert(spec_lookup(r, a[0].0) is Some);
        lemma_lookup_found(r, a[0].0);
        let i = choose|i: int|
            0 <= i < r.len() && #[trigger] r[i] == (a[0].0, spec_lookup(r, a[0].0).unwrap());
        lemma_lex_lt_irreflexive(k);
        if j > 0 && i > 0 {
            assert(lex_lt(a[0].0, a[j].0));
            assert(lex_lt(r[0].0, r[i].0));
            lemma_lex_lt_asymmetric(a[0].0, k);
            assert(false);
        } else if j > 0 {
            assert(i == 0);
            assert(lex_lt(a[0].0, a[j].0));
            assert(false);
        }
        assert(j == 0);
        assert(a[0] == r[0]);
        let rt = r.drop_first();
        let at = a.drop_first();
        lemma_sorted_tail(r);
        lemma_sorted_tail(a);
        assert forall|i2: int| 0 <= i2 < rt.len() implies spec_lookup(at, #[trigger] rt[i2].0) == Some(
            rt[i2].1,
        ) by {
            assert(rt[i2] == r[i2 + 1]);
            assert(lex_lt(k, rt[i2].0));
            assert(rt[i2].0 != k);
            assert(spec_lookup(a, rt[i2].0) == spec_lookup(at, rt[i2].0));
        }
        assert forall|j2: int| 0 <= j2 < at.len() implies spec_lookup(rt, #[trigger] at[j2].0) is Some by {
            assert(at[j2] == a[j2 + 1]);
            assert(lex_lt(k, at[j2].0));
            assert(at[j2].0 != k);
            assert(spec_lookup(r, at[j2].0) == spec_lookup(rt, at[j2].0));
        }
        lemma_sorted_same_map(rt, at);
        assert(r =~= seq![r[0]] + rt);
        assert(a =~= seq![a[0]] + at);
    }
}

/// The prebuilt check passes exactly when the active settings are the
/// reference settings, knob for knob.
pub proof fn law_validity_ok_iff_same(reference: Entries, active: Entries)
    requires
        sorted(reference),
        sorted(active),
    ensures
        (spec_validity(reference, active) is Ok) == (reference == active),
{
    lemma_changed_empty(reference, active);
    lemma_added_empty(active, reference);
    if reference == active {
        assert forall|i: int| 0 <= i < reference.len() implies spec_lookup(
            active,
            #[trigger] reference[i].0,
        ) == Some(reference[i].1) by {
            lemma_lookup_at(reference, i);
        }
        assert forall|j: int| 0 <= j < active.len() implies spec_lookup(
            reference,
            #[trigger] active[j].0,
        ) is Some by {
            lemma_lookup_at(reference, j);
        }
    }
    if spec_validity(reference, active) is Ok {
        lemma_sorted_same_map(reference, active);
    }
}

fn append_item(out: &mut Vec<String>, parts: &[&str])
    ensures
        final(out)@.map_values(|x: String| x@) == old(out)@.map_values(|x: String| x@).push(
            concat_all(names_view(parts@)),
        ),
{
    let mut item = String::new();
    let ghost pv = names_view(parts@);
    let mut i: usize = 0;
    assert(pv.take(0) =~= Seq::<Seq<char>>::empty());
    while i < parts.len()
        invariant
            i <= parts@.len(),
            pv == names_view(parts@),
            item@ == concat_all(pv.take(i as int)),
        decreases parts@.len() - i,
    {
        item.append(parts[i]);
        assert(pv.take(i + 1).drop_last() =~= pv.take(i as int));
        i = i + 1;
    }
    assert(pv.take(i as int) =~= pv);
    out.push(item);
    assert(out@.map_values(|x: String| x@) =~= old(out)@.map_values(|x: String| x@).push(
        concat_all(pv),
    ));
}

/// The concatenation of the pieces.
pub open spec fn concat_all(parts: Seq<Seq<char>>) -> Seq<char>
    decreases parts.len(),
{
    if parts.len() == 0 {
        Seq::empty()
    } else {
        concat_all(parts.drop_last()) + parts.last()
    }
}

/// The pieces of `list`, joined with `sep`.
pub fn join_strings(list: &Vec<String>, sep: &str) -> (r: String)
    ensures
        r@ == spec_join(list@.map_values(|x: String| x@), sep@),
{
    let ghost lv = list@.map_values(|x: String| x@);
    let mut res = String::new();
    let mut i: usize = 0;
    assert(lv.take(0) =~= Seq::<Seq<char>>::empty());
    while i < list.len()
        invariant
            i <= list@.len(),
            lv == list@.map_values(|x: String| x@),
            res@ == spec_join(lv.take(i as int), sep@),
        decreases list@.len() - i,
    {
        if i != 0 {
            res.append(sep);
        }
        res.append(list[i].as_str());
        assert(lv.take(i + 1).drop_last() =~= lv.take(i as int));
        if i == 0 {
            assert(lv.take(1) =~= seq![lv[0]]);
        }
        i = i + 1;
    }
    assert(lv.take(i as int) =~= lv);
    res
}

/// The settings difference between `reference` and `active` (see
/// [`spec_validity`]).
pub fn settings_validity(reference: &Settings, active: &Settings) -> (r: Result<(), String>)
    requires
        reference.wf(),
        active.wf(),
    ensures
        match (r, spec_validity(reference@, active@)) {
            (Ok(()), Ok(())) => true,
            (Err(m), Err(n)) => m@ == n,
            _ => false,
        },
{
    let mut delta: Vec<String> = Vec::new();
    let ghost rf = reference@;
    let ghost act = active@;
    let mut i: usize = 0;
    assert(rf.skip(0) =~= rf);
    while i < reference.len()
        invariant
            reference.wf(),
            active.wf(),
            rf == reference@,
            act == active@,
            i <= rf.len(),
            delta@.map_values(|x: String| x@) + spec_delta_changed(rf.skip(i as int), act)
                == spec_delta_changed(rf, act),
        decreases rf.len() - i,
    {
        let name = reference.name_at(i);
        let rv = reference.value_at(i);
        let ghost before = delta@.map_values(|x: String| x@);
        assert(rf.skip(i as int).drop_first() =~= rf.skip(i + 1));
        assert(rf.skip(i as int)[0] == rf[i as int]);
        match active.get(name.as_str()) {
            Some(v) => {
                if str_order(v.as_str(), rv.as_str()) != 0 {
                    append_item(
                        &mut delta,
                        &[&"~", name.as_str(), &"=", rv.as_str(), &"->", v.as_str()],
                    );
                    proof {
                        reveal_with_fuel(concat_all, 7);
                    }
                }
            },
            None => {
                append_item(&mut delta, &[&"-", name.as_str(), &"=", rv.as_str()]);
                proof {
                    reveal_with_fuel(concat_all, 5);
                }
            },
        }
        assert(delta@.map_values(|x: String| x@) + spec_delta_changed(rf.skip(i + 1), act)
            =~= before + spec_delta_changed(rf.skip(i as int), act));
        i = i + 1;
    }
    assert(rf.skip(i as int) =~= Seq::<(Seq<char>, Seq<char>)>::empty());
    assert(delta@.map_values(|x: String| x@) =~= spec_delta_changed(rf, act));
    let ghost changed = spec_delta_changed(rf, act);
    let mut j: usize = 0;
    assert(act.skip(0) =~= act);
    while j < active.len()
        invariant
            reference.wf(),
            active.wf(),
            rf == reference@,
            act == active@,
            j <= act.len(),
            changed == spec_delta_changed(rf, act),
            delta@.map_values(|x: String| x@) + spec_delta_added(act.skip(j as int), rf) == changed
                + spec_delta_added(act, rf),
        decreases act.len() - j,
    {
        let name = active.name_at(j);
        let v = active.value_at(j);
        let ghost before = delta@.map_values(|x: String| x@);
        assert(act.skip(j as int).drop_first() =~= act.skip(j + 1));
        assert(act.skip(j as int)[0] == act[j as int]);
        if !reference.contains_key(name.as_str()) {
            append_item(&mut delta, &[&"+", name.as_str(), &"=", v.as_str()]);
            proof {
                reveal_with_fuel(concat_all, 5);
            }
        }
        assert(delta@.map_values(|x: String| x@) + spec_delta_added(act.skip(j + 1), rf)
            =~= before + spec_delta_added(act.skip(j as int), rf));
        j = j + 1;
    }
    assert(act.skip(j as int) =~= Seq::<(Seq<char>, Seq<char>)>::empty());
    assert(delta@.map_values(|x: String| x@) =~= changed + spec_delta_added(act, rf));
    if delta.len() == 0 {
        Ok(())
    } else {
        Err(join_strings(&delta, ", "))
    }
}

/// Checks whether the active feature set selects exactly the NimBLE
/// configuration of the prebuilt feature set; on mismatch, returns a
/// `+KNOB=v` / `-KNOB=v` / `~KNOB=v1->v2` delta string.
pub fn prebuilt_validity(active_features: &[&str]) -> (r: Result<(), String>)
    ensures
        match (
            r,
            spec_validity(
                spec_val_settings(spec_prebuilt_features()),
                spec_val_settings(names_view(active_features@)),
            ),
        ) {
            (Ok(()), Ok(())) => true,
            (Err(m), Err(n)) => m@ == n,
            _ => false,
        },
{
    let active = val_settings_for(active_features);
    let pf = prebuilt_features();
    let reference = val_settings_for(pf.as_slice());
    settings_validity(&reference, &active)
}


/// The strings as plain character sequences.
pub open spec fn strings_view(v: Seq<String>) -> Seq<Seq<char>> {
    v.map_values(|x: String| x@)
}

/// Non-decreasing in the order of [`lex_lt`].
pub open spec fn sorted_le(s: Seq<Seq<char>>) -> bool {
    forall|i: int, j: int| 0 <= i < j < s.len() ==> !lex_lt(#[trigger] s[j], #[trigger] s[i])
}

/// Sorting is deterministic: two sorted arrangements of the same names are
/// the same sequence (so the sorted results of `sort_strings`,
/// `active_features` and the C source lists are fully determined).
pub proof fn law_sorted_arrangement_unique(a: Seq<Seq<char>>, b: Seq<Seq<char>>)
    requires
        sorted_le(a),
        sorted_le(b),
        a.to_multiset() == b.to_multiset(),
    ensures
        a == b,
    decreases a.len(),
{
    broadcast use vstd::seq_lib::group_to_multiset_ensures;

    a.to_multiset_ensures();
    b.to_multiset_ensures();
    if a.len() == 0 {
        assert(b.len() == 0);
        assert(a =~= b);
    } else {
        assert(b.len() == a.len());
        assert(a.contains(a[0]));
        assert(b.to_multiset().count(a[0]) > 0);
        assert(b.contains(a[0]));
        let j = choose|j: int| 0 <= j < b.len() && b[j] == a[0];
        assert(b.contains(b[0]));
        assert(a.to_multiset().count(b[0]) > 0);
        assert(a.contains(b[0]));
        let i = choose|i: int| 0 <= i < a.len() && a[i] == b[0];
        if i > 0 {
            assert(!lex_lt(a[i], a[0]));
        }
        if j > 0 {
            assert(!lex_lt(b[j], b[0]));
        }
        lemma_lex_lt_total(a[0], b[0]);
        assert(a[0] == b[0]);
        let a1 = a.drop_first();
        let b1 = b.drop_first();
        vstd::seq_lib::to_multiset_remove(a, 0);
        vstd::seq_lib::to_multiset_remove(b, 0);
        assert(a.remove(0) =~= a1);
        assert(b.remove(0) =~= b1);
        assert forall|x: int, y: int| 0 <= x < y < a1.len() implies !lex_lt(
            #[trigger] a1[y],
            #[trigger] a1[x],
        ) by {
            assert(a1[x] == a[x + 1] && a1[y] == a[y + 1]);
        }
        assert forall|x: int, y: int| 0 <= x < y < b1.len() implies !lex_lt(
            #[trigger] b1[y],
            #[trigger] b1[x],
        ) by {
            assert(b1[x] == b[x + 1] && b1[y] == b[y + 1]);
        }
        law_sorted_arrangement_unique(a1, b1);
        assert forall|k: int| 0 <= k < a.len() implies a[k] == b[k] by {
            if k > 0 {
                assert(a[k] == a1[k - 1] && b[k] == b1[k - 1]);
            }
        }
        assert(a =~= b);
    }
}

proof fn lemma_insert_keeps_sorted(s: Seq<Seq<char>>, p: int, x: Seq<char>)
    requires
        sorted_le(s),
        0 <= p <= s.len(),
        forall|j: int| 0 <= j < p ==> !lex_lt(x, #[trigger] s[j]),
        p < s.len() ==> lex_lt(x, s[p]),
    ensures
        sorted_le(s.insert(p, x)),
{
    let t = s.insert(p, x);
    assert forall|i: int, j: int| 0 <= i < j < t.len() implies !lex_lt(#[trigger] t[j], #[trigger] t[i]) by {
        if j < p {
            assert(t[i] == s[i] && t[j] == s[j]);
        } else if j == p {
            assert(t[j] == x && t[i] == s[i]);
        } else if i == p {
            assert(t[i] == x && t[j] == s[j - 1]);
            if j - 1 > p {
                lemma_lex_lt_total(s[p], s[j - 1]);
                if s[p] != s[j - 1] {
                    lemma_lex_lt_transitive(x, s[p], s[j - 1]);
                }
            }
            lemma_lex_lt_asymmetric(x, s[j - 1]);
        } else if i < p {
            assert(t[i] == s[i] && t[j] == s[j - 1]);
        } else {
            assert(t[i] == s[i - 1] && t[j] == s[j - 1]);
        }
    }
}

/// Sorts strings into non-decreasing order (a stable insertion sort).
pub fn sort_strings(v: &Vec<String>) -> (r: Vec<String>)
    ensures
        sorted_le(strings_view(r@)),
        strings_view(r@).to_multiset() == strings_view(v@).to_multiset(),
{
    broadcast use vstd::seq_lib::to_multiset_insert, vstd::seq_lib::to_multiset_build;

    let mut r: Vec<String> = Vec::new();
    let mut i: usize = 0;
    assert(strings_view(v@).take(0) =~= Seq::<Seq<char>>::empty());
    assert(strings_view(r@) =~= Seq::<Seq<char>>::empty());
    while i < v.len()
        invariant
            i <= v@.len(),
            sorted_le(strings_view(r@)),
            strings_view(r@).to_multiset() == strings_view(v@).take(i as int).to_multiset(),
        decreases v@.len() - i,
    {
        let x = v[i].clone();
        let mut p: usize = 0;
        while p < r.len() && str_order(x.as_str(), r[p].as_str()) >= 0
            invariant
                p <= r@.len(),
                forall|j: int| 0 <= j < p ==> !lex_lt(x@, #[trigger] strings_view(r@)[j]),
            decreases r@.len() - p,
        {
            p = p + 1;
        }
        proof {
            lemma_insert_keeps_sorted(strings_view(r@), p as int, x@);
        }
        let ghost before = strings_view(r@);
        r.insert(p, x);
        assert(strings_view(r@) =~= before.insert(p as int, x@));
        assert(x@ == strings_view(v@)[i as int]);
        assert(strings_view(v@).take(i + 1) =~= strings_view(v@).take(i as int).push(x@));
        proof {
            vstd::seq_lib::to_multiset_insert(before, p as int, x@);
            vstd::seq_lib::to_multiset_build(strings_view(v@).take(i as int), x@);
        }
        i = i + 1;
    }
    assert(strings_view(v@).take(i as int) =~= strings_view(v@));
    r
}

/// The feature names carried by environment variable names of the form
/// `CARGO_FEATURE_<NAME>`, in environment order.
pub open spec fn spec_feature_names(keys: Seq<Seq<char>>) -> Seq<Seq<char>>
    decreases keys.len(),
{
    if keys.len() == 0 {
        Seq::empty()
    } else {
        let rest = spec_feature_names(keys.drop_last());
        if starts_with(keys.last(), "CARGO_FEATURE_"@) {
            rest.push(keys.last().skip("CARGO_FEATURE_"@.len() as int))
        } else {
            rest
        }
    }
}

/// The features active for a build whose environment holds the variables
/// named `env_keys`, in `CARGO_FEATURE_*` form, sorted.
pub fn active_features(env_keys: &[&str]) -> (r: Vec<String>)
    ensures
        sorted_le(strings_view(r@)),
        strings_view(r@).to_multiset() == spec_feature_names(names_view(env_keys@)).to_multiset(),
{
    let ghost keys = names_view(env_keys@);
    let mut found: Vec<String> = Vec::new();
    let mut i: usize = 0;
    assert(keys.take(0) =~= Seq::<Seq<char>>::empty());
    assert(strings_view(found@) =~= Seq::<Seq<char>>::empty());
    while i < env_keys.len()
        invariant
            i <= env_keys@.len(),
            keys == names_view(env_keys@),
            strings_view(found@) == spec_feature_names(keys.take(i as int)),
        decreases env_keys@.len() - i,
    {
        assert(keys.take(i + 1).drop_last() =~= keys.take(i as int));
        assert(keys.take(i + 1).last() == env_keys@[i as int]@);
        if let Some(name) = strip_prefix(env_keys[i], "CARGO_FEATURE_") {
            let ghost before = strings_view(found@);
            found.push(String::from_str(name));
            assert(strings_view(found@) =~= before.push(name@));
        }
        i = i + 1;
    }
    assert(keys.take(i as int) =~= keys);
    sort_strings(&found)
}

/// The effective settings for the build whose environment holds the
/// variables named `env_keys`.
pub fn active_val_settings(env_keys: &[&str]) -> (r: Settings)
    ensures
        r.wf(),
        r@ == spec_val_settings(spec_feature_names(names_view(env_keys@))),
{
    let features = active_features(env_keys);
    let mut refs: Vec<&str> = Vec::new();
    let mut i: usize = 0;
    while i < features.len()
        invariant
            i <= features@.len(),
            refs@.len() == i,
            forall|j: int| 0 <= j < i ==> #[trigger] refs@[j]@ == features@[j]@,
        decreases features@.len() - i,
    {
        refs.push(features[i].as_str());
        i = i + 1;
    }
    assert(names_view(refs@) =~= strings_view(features@));
    let r = val_settings_for(refs.as_slice());
    proof {
        let f = strings_view(features@);
        let g = spec_feature_names(names_view(env_keys@));
        assert forall|x: Seq<char>| f.contains(x) <==> g.contains(x) by {
            vstd::seq_lib::to_multiset_contains(f, x);
            vstd::seq_lib::to_multiset_contains(g, x);
        }
        law_settings_depend_on_feature_set(f, g);
    }
    r
}

} // verus!
