//! Walks the service table produced by the runtime service table builder
//! (`BleGattServices`): per-service characteristic arrays with terminators,
//! the flat layout, the UUIDs, and the final service terminator.

use nimble_rs::gatt::server::{
    BleGattCharacteristic, BleGattService, BleGattServices, BLE_GATT_SVC_TYPE_PRIMARY,
    BLE_GATT_SVC_TYPE_SECONDARY,
};
use nimble_rs::gatt::{BleGattCharFlag, BleGattCharFlags};
use nimble_rs::BleUuid;

#[test]
fn gatt_table() {
    let chars_a = [
        BleGattCharacteristic::new(
            BleUuid::uuid16(0x1111),
            BleGattCharFlags::empty().with(BleGattCharFlag::Write),
        ),
        BleGattCharacteristic::new(
            BleUuid::uuid16(0x2222),
            BleGattCharFlags::empty()
                .with(BleGattCharFlag::Read)
                .with(BleGattCharFlag::Indicate),
        ),
    ];
    let chars_b = [BleGattCharacteristic::new(
        BleUuid::uuid16(0x3333),
        BleGattCharFlags::empty().with(BleGattCharFlag::Notify),
    )];

    let services = BleGattServices::new(&[
        BleGattService::new(true, BleUuid::uuid16(0xaaaa), &chars_a),
        BleGattService::new(false, BleUuid::uuid16(0xbbbb), &chars_b),
    ])
    .unwrap();

    let defs = services.as_ref();
    let chrs = services.chr_defs();
    assert_eq!(defs.len(), 3);

    // Service entries + terminator
    assert!(defs[0].uuid.is_some() && defs[1].uuid.is_some());
    assert!(defs[2].uuid.is_none());
    assert_eq!(defs[0].type_, BLE_GATT_SVC_TYPE_PRIMARY);
    assert_eq!(defs[1].type_, BLE_GATT_SVC_TYPE_SECONDARY);

    // Per-service characteristic arrays: correct lengths, terminators, and
    // the flat layout (service B's array starts right after A's terminator)
    for (svc, expected) in defs[..2].iter().zip([&chars_a[..], &chars_b[..]]) {
        let mut chr = svc.characteristics.unwrap();
        for _ in expected {
            let def = &chrs[chr];
            assert!(def.uuid.is_some());
            assert!(def.access_cb);
            chr += 1;
        }
        assert!(chrs[chr].uuid.is_none(), "missing terminator");
    }
    assert_eq!(
        defs[0].characteristics.unwrap() + chars_a.len() + 1,
        defs[1].characteristics.unwrap()
    );

    // UUID storage: the 16-bit UUIDs round-trip
    let uuid16 = |u: Option<BleUuid>| match u {
        Some(BleUuid::Uuid16(v)) => v,
        other => panic!("not a 16-bit UUID: {:?}", other),
    };
    assert_eq!(uuid16(defs[0].uuid), 0xaaaa);
    assert_eq!(uuid16(defs[1].uuid), 0xbbbb);
    let a = defs[0].characteristics.unwrap();
    let b = defs[1].characteristics.unwrap();
    assert_eq!(uuid16(chrs[a].uuid), 0x1111);
    assert_eq!(uuid16(chrs[a + 1].uuid), 0x2222);
    assert_eq!(uuid16(chrs[b].uuid), 0x3333);
}
