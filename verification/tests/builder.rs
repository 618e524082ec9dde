use nimble_rs::builder::{defines_metadata, select_c_files, val_constants, NimbleBuilder, SourceListings};
use nimble_rs::features::val_settings_for;
use nimble_rs::settings::Settings;

fn builder(target: Option<&str>, host: Option<&str>) -> NimbleBuilder {
    NimbleBuilder::new(
        "/src/sys".to_string(),
        target.map(str::to_string),
        host.map(str::to_string),
    )
}

#[test]
fn roots_and_include_dirs() {
    let b = builder(None, None);
    assert_eq!(b.crate_root(), "/src/sys");
    assert_eq!(b.nimble_root(), "/src/sys/esp-nimble");
    assert_eq!(b.glue_include_dir(), "/src/sys/gen/glue/include");
    let dirs = b.include_dirs();
    assert_eq!(dirs.len(), 10);
    assert_eq!(dirs[0], "/src/sys/gen/glue/include");
    assert_eq!(dirs[1], "/src/sys/esp-nimble/nimble/include");
    assert_eq!(dirs[9], "/src/sys/esp-nimble/ext/tinycrypt/include");
}

#[test]
fn c_files_are_selected_and_sorted() {
    let names = ["b.c", "a.c", "notes.txt", "x.h", ".c", "skip.c", "c.cc"];
    let files = select_c_files("/d", &names, &["skip.c"]);
    assert_eq!(files, vec!["/d/a.c".to_string(), "/d/b.c".to_string()]);
}

#[test]
fn porting_exclusions_and_source_order() {
    let b = builder(None, None);
    let listings = SourceListings {
        porting_src: &["nimble_port.c", "os_msys_init.c", "endian.c", "os_mempool.c"],
        host_src: &["ble_hs.c", "ble_gap.c"],
        util_src: &["addr.c"],
        gap_src: &["ble_svc_gap.c"],
        gatt_src: &["ble_svc_gatt.c"],
        store_ram_src: &["ble_store_ram.c"],
    };
    let files = b.sources(&listings);
    let n = "/src/sys/esp-nimble";
    let expected: Vec<String> = vec![
        format!("{n}/porting/nimble/src/endian.c"),
        format!("{n}/porting/nimble/src/os_msys_init.c"),
        format!("{n}/nimble/host/src/ble_gap.c"),
        format!("{n}/nimble/host/src/ble_hs.c"),
        format!("{n}/nimble/host/util/src/addr.c"),
        format!("{n}/nimble/host/services/gap/src/ble_svc_gap.c"),
        format!("{n}/nimble/host/services/gatt/src/ble_svc_gatt.c"),
        format!("{n}/nimble/host/store/ram/src/ble_store_ram.c"),
        format!("{n}/nimble/transport/src/transport.c"),
        "/src/sys/gen/glue/src/os_mempool.c".to_string(),
    ];
    assert_eq!(files, expected);
}

#[test]
fn tinycrypt_sources_sorted() {
    let b = builder(None, None);
    let files = b.tinycrypt_sources(&["sha256.c", "aes_encrypt.c", "README"]);
    assert_eq!(
        files,
        vec![
            "/src/sys/esp-nimble/ext/tinycrypt/src/aes_encrypt.c".to_string(),
            "/src/sys/esp-nimble/ext/tinycrypt/src/sha256.c".to_string(),
        ]
    );
}

#[test]
fn defines_follow_settings() {
    let b = builder(None, None);
    let mut s = Settings::new();
    s.insert("B", "2".to_string());
    s.insert("A", "1".to_string());
    let d = b.defines(&s, false);
    let names: Vec<&str> = d.iter().map(|(n, _)| n.as_str()).collect();
    assert_eq!(
        names,
        vec!["MYNEWT_VAL_A", "MYNEWT_VAL_B", "CONFIG_BT_NIMBLE_GAP_SERVICE", "CONFIG_BT_NIMBLE_ENABLED"]
    );
    let d = b.defines(&s, true);
    assert_eq!(d.len(), 6);
    assert_eq!(d[4], ("TaskHandle_t".to_string(), "void *".to_string()));
}

#[test]
fn defines_cover_every_knob() {
    let b = builder(None, None);
    let s = val_settings_for(&["PERIPHERAL"]);
    let d = b.defines(&s, false);
    assert_eq!(d.len(), 45);
    assert!(d.contains(&("MYNEWT_VAL_BLE_GATTS".to_string(), "1".to_string())));
}

#[test]
fn clang_args_cross_compiling() {
    let defines = vec![("A".to_string(), "1".to_string())];
    let args = builder(Some("thumbv7em-none-eabihf"), Some("x86_64-unknown-linux-gnu"))
        .clang_args(&defines);
    assert_eq!(args.len(), 12);
    assert_eq!(args[0], "-I/src/sys/gen/glue/include");
    assert_eq!(args[10], "-DA=1");
    assert_eq!(args[11], "--target=thumbv7em-none-eabihf");
}

#[test]
fn clang_args_native() {
    let defines = vec![("A".to_string(), "1".to_string())];
    let same = builder(Some("x86_64-unknown-linux-gnu"), Some("x86_64-unknown-linux-gnu"));
    assert_eq!(same.clang_args(&defines).len(), 11);
    assert_eq!(builder(None, None).clang_args(&defines).len(), 11);
}

#[test]
fn build_metadata() {
    let b = builder(None, None);
    let meta = b.include_metadata();
    assert!(meta.starts_with("include=/src/sys/gen/glue/include;/src/sys/esp-nimble/nimble/include;"));
    assert_eq!(meta.matches(';').count(), 9);
    let defines = vec![
        ("A".to_string(), "1".to_string()),
        ("TaskHandle_t".to_string(), "void *".to_string()),
    ];
    assert_eq!(defines_metadata(&defines), "defines=A=1;TaskHandle_t=void *");
    assert_eq!(defines_metadata(&vec![]), "defines=");
}

#[test]
fn appended_constants() {
    let mut s = Settings::new();
    s.insert("BLE_MAX_CONNECTIONS", "4".to_string());
    s.insert("BLE_GATTS", "1".to_string());
    assert_eq!(
        val_constants(&s),
        "\npub const MYNEWT_VAL_BLE_GATTS: u32 = 1;\npub const MYNEWT_VAL_BLE_MAX_CONNECTIONS: u32 = 4;\n"
    );
}
