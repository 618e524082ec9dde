use nimble_rs::features::{active_features, active_val_settings, prebuilt_validity, val_settings_for};

fn get(features: &[&str], name: &str) -> Option<String> {
    val_settings_for(features).get(name).cloned()
}

#[test]
fn reset_values() {
    let s = val_settings_for(&[]);
    assert_eq!(s.len(), 43);
    assert_eq!(s.get("BLE_MAX_CONNECTIONS").map(String::as_str), Some("4"));
    assert_eq!(s.get("MSYS_1_BLOCK_COUNT").map(String::as_str), Some("20"));
    assert_eq!(s.get("BLE_ROLE_PERIPHERAL").map(String::as_str), Some("0"));
    assert_eq!(s.get("BLE_TRANSPORT_LL__custom").map(String::as_str), Some("1"));
    assert_eq!(s.get("SELFTEST"), None);
}

#[test]
fn settings_are_sorted_by_name() {
    let s = val_settings_for(&["PERIPHERAL", "SM"]);
    for i in 1..s.len() {
        assert!(s.name_at(i - 1) < s.name_at(i));
    }
}

#[test]
fn role_features() {
    assert_eq!(get(&["PERIPHERAL"], "BLE_ROLE_PERIPHERAL").as_deref(), Some("1"));
    assert_eq!(get(&["PERIPHERAL"], "BLE_GATTS").as_deref(), Some("1"));
    assert_eq!(get(&["PERIPHERAL"], "BLE_GATTC").as_deref(), Some("0"));
    assert_eq!(get(&["CENTRAL"], "BLE_GATTC").as_deref(), Some("1"));
    assert_eq!(get(&["OBSERVER"], "BLE_ROLE_OBSERVER").as_deref(), Some("1"));
    assert_eq!(get(&["EXT_ADV"], "BLE_EXT_ADV").as_deref(), Some("1"));
}

#[test]
fn sm_wins_over_sm_sc_only() {
    for features in [&["SM_SC_ONLY", "SM"][..], &["SM", "SM_SC_ONLY"][..]] {
        assert_eq!(get(features, "BLE_SM_LEGACY").as_deref(), Some("1"));
        assert_eq!(get(features, "BLE_SM_SC").as_deref(), Some("1"));
        assert_eq!(get(features, "BLE_SM_SC_ONLY").as_deref(), Some("0"));
    }
    assert_eq!(get(&["SM_SC_ONLY"], "BLE_SM_SC_ONLY").as_deref(), Some("1"));
    assert_eq!(get(&["SM_SC_ONLY"], "BLE_SM_LEGACY").as_deref(), Some("0"));
}

#[test]
fn numeric_families_take_the_largest() {
    assert_eq!(get(&["MAX_CONNECTIONS_8", "MAX_CONNECTIONS_6"], "BLE_MAX_CONNECTIONS").as_deref(), Some("8"));
    assert_eq!(get(&["MAX_CONNECTIONS_2"], "BLE_MAX_CONNECTIONS").as_deref(), Some("4"));
    assert_eq!(get(&["MSYS_COUNT_64"], "MSYS_1_BLOCK_COUNT").as_deref(), Some("64"));
    assert_eq!(get(&["L2CAP_COC_3", "L2CAP_COC_1"], "BLE_L2CAP_COC_MAX_NUM").as_deref(), Some("3"));
    assert_eq!(get(&["MAX_CONNECTIONS_x"], "BLE_MAX_CONNECTIONS").as_deref(), Some("4"));
}

#[test]
fn upstream_test_overlay() {
    let s = val_settings_for(&["UPSTREAM_TEST"]);
    assert_eq!(s.get("SELFTEST").map(String::as_str), Some("1"));
    assert_eq!(s.get("BLE_MAX_CONNECTIONS").map(String::as_str), Some("8"));
    assert_eq!(s.get("MSYS_1_BLOCK_COUNT").map(String::as_str), Some("100"));
    assert_eq!(s.get("BLE_HS_DEBUG").map(String::as_str), Some("1"));
    // Numeric families apply on top of the overlay
    let s = val_settings_for(&["UPSTREAM_TEST", "MAX_CONNECTIONS_4"]);
    assert_eq!(s.get("BLE_MAX_CONNECTIONS").map(String::as_str), Some("8"));
}

#[test]
fn prebuilt_feature_set_matches() {
    assert_eq!(
        prebuilt_validity(&["PERIPHERAL", "BROADCASTER", "CENTRAL", "OBSERVER", "SM"]),
        Ok(())
    );
    assert_eq!(
        prebuilt_validity(&["SM", "OBSERVER", "CENTRAL", "BROADCASTER", "PERIPHERAL"]),
        Ok(())
    );
}

#[test]
fn prebuilt_delta_lists_changes() {
    assert_eq!(
        prebuilt_validity(&["PERIPHERAL"]),
        Err("~BLE_GATTC=1->0, ~BLE_ROLE_BROADCASTER=1->0, ~BLE_ROLE_CENTRAL=1->0, \
             ~BLE_ROLE_OBSERVER=1->0, ~BLE_SM_LEGACY=1->0, ~BLE_SM_SC=1->0"
            .to_string())
    );
}

#[test]
fn prebuilt_delta_lists_additions() {
    let err = prebuilt_validity(&[
        "PERIPHERAL", "BROADCASTER", "CENTRAL", "OBSERVER", "SM", "UPSTREAM_TEST",
    ])
    .unwrap_err();
    assert!(err.contains("+SELFTEST=1"));
    assert!(err.contains("~BLE_MAX_CONNECTIONS=4->8"));
}

#[test]
fn active_features_from_env_keys() {
    let keys = ["CARGO_FEATURE_SM", "PATH", "CARGO_FEATURE_PERIPHERAL", "CARGO_PKG_NAME"];
    assert_eq!(active_features(&keys), vec!["PERIPHERAL".to_string(), "SM".to_string()]);
    assert!(active_features(&[]).is_empty());
}

#[test]
fn every_knob_is_always_set() {
    let reset = val_settings_for(&[]);
    for features in [
        &["PERIPHERAL", "MSYS_COUNT_64"][..],
        &["UPSTREAM_TEST", "SM_SC_ONLY", "L2CAP_COC_8"][..],
        &["BOGUS"][..],
    ] {
        let s = val_settings_for(features);
        for i in 0..reset.len() {
            assert!(s.contains_key(reset.name_at(i)), "{} missing", reset.name_at(i));
        }
    }
}

#[test]
fn active_settings_from_env_keys() {
    let s = active_val_settings(&["HOME", "CARGO_FEATURE_MAX_CONNECTIONS_16", "CARGO_FEATURE_CENTRAL"]);
    assert_eq!(s.get("BLE_MAX_CONNECTIONS").map(String::as_str), Some("16"));
    assert_eq!(s.get("BLE_GATTC").map(String::as_str), Some("1"));
    assert_eq!(s.get("BLE_GATTS").map(String::as_str), Some("0"));
}

#[test]
fn settings_name_the_universe_plus_overlay() {
    assert_eq!(val_settings_for(&["PERIPHERAL", "L2CAP_COC_4", "SM"]).len(), 43);
    let with_test = val_settings_for(&["UPSTREAM_TEST"]);
    assert!(with_test.get("SELFTEST").is_some());
    assert!(val_settings_for(&[]).get("SELFTEST").is_none());
}

#[test]
fn family_member_never_lowers_knob() {
    let before = get(&["MAX_CONNECTIONS_8"], "BLE_MAX_CONNECTIONS").unwrap();
    let after = get(&["MAX_CONNECTIONS_8", "MAX_CONNECTIONS_2"], "BLE_MAX_CONNECTIONS").unwrap();
    assert_eq!(before, "8");
    assert_eq!(after, "8");
    assert_eq!(get(&["MAX_CONNECTIONS_2"], "BLE_MAX_CONNECTIONS").unwrap(), "4");
}
