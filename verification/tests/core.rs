use nimble_rs::{BleAddr, BleError, BleUuid, CallbackSlot, BLE_UUID_TYPE_128, BLE_UUID_TYPE_16};

#[test]
fn uuids() {
    assert_eq!(BleUuid::uuid16(0x180d).uuid_type(), BLE_UUID_TYPE_16);
    assert_eq!(BleUuid::uuid128(1).uuid_type(), BLE_UUID_TYPE_128);
    assert_eq!(BleUuid::uuid16(0x180d), BleUuid::uuid16(0x180d));
    assert_ne!(BleUuid::uuid16(0x180d), BleUuid::uuid16(0x180f));
    assert_eq!(BleUuid::from_raw(16, &[0x0d, 0x18][..]), BleUuid::uuid16(0x180d));
    let mut body = [0u8; 16];
    body[0] = 0x01;
    body[15] = 0xff;
    assert_eq!(BleUuid::from_raw(128, &body[..]), BleUuid::uuid128((0xffu128 << 120) | 1));
    assert_eq!(BleUuid::from_raw(32, &[1, 0, 0, 0][..]), BleUuid::uuid16(1));
}

#[test]
fn uuid_debug_strings() {
    assert_eq!(BleUuid::uuid16(0x180d).to_debug_string(), "Uuid16(0x180d)");
    assert_eq!(
        BleUuid::uuid128(0x1234).to_debug_string(),
        "Uuid128(0x00000000000000000000000000001234)"
    );
}

#[test]
fn addresses() {
    let a = BleAddr::new(1, [0x11, 0x22, 0x33, 0x44, 0x55, 0x66]);
    assert_eq!(a.kind(), 1);
    assert_eq!(a.val(), [0x11, 0x22, 0x33, 0x44, 0x55, 0x66]);
    assert_eq!(a.raw().type_, 1);
    assert_eq!(a.to_debug_string(), "66:55:44:33:22:11/1");
}

#[test]
fn errors() {
    assert_eq!(BleError::check(0), Ok(()));
    assert_eq!(BleError::check(6), Err(BleError::new(6)));
    assert_eq!(BleError::new(-3).code(), -3);
    assert_eq!(BleError::new(14).to_string(), "BLE host error 14");
    assert_eq!(BleError::new(-1).to_string(), "BLE host error -1");
}

#[test]
fn callback_slots() {
    let mut slot: CallbackSlot<u32> = CallbackSlot::new();
    assert!(slot.get().is_none());
    slot.set(Some(7));
    assert_eq!(slot.get(), Some(&7));
    slot.set(None);
    assert!(slot.get().is_none());
}
