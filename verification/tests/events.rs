use nimble_rs::gap::{
    adv_start_result, device_name_buffer, route_gap_event, BleAdvFields, BleAdvParams,
    BleConnDesc, GapEvent, GapRoute, RawConnDesc, RawGapEvent, BLE_GAP_EVENT_CONNECT,
    BLE_GAP_EVENT_DISCONNECT, BLE_GAP_EVENT_MTU, BLE_GAP_EVENT_NOTIFY_RX,
    BLE_GAP_EVENT_NOTIFY_TX, BLE_GAP_EVENT_SUBSCRIBE,
};
use nimble_rs::gatt::client::{error_status, GattcChr, GattcEvent, GattcService};
use nimble_rs::gatt::server::{
    access_status, BleGattRegister, GattsEvent, RawRegister, SubscribeReason,
    BLE_ATT_ERR_UNLIKELY, BLE_GATT_ACCESS_OP_READ_CHR, BLE_GATT_ACCESS_OP_WRITE_CHR,
    BLE_GATT_REGISTER_OP_CHR, BLE_GATT_REGISTER_OP_SVC,
};
use nimble_rs::gatt::{att_mtu_result, flags_to_repr, BleGattCharFlag, BleGattCharFlags};
use nimble_rs::l2cap::{
    connect_frees_sdu, event_callback_outcome, recv_ready_frees_sdu, send_outcome, L2capChan,
    L2capEvent, RawL2capEvent, SendOutcome, BLE_L2CAP_EVENT_COC_ACCEPT,
    BLE_L2CAP_EVENT_COC_DATA_RECEIVED, BLE_L2CAP_EVENT_COC_PEER_RECONFIGURED,
};
use nimble_rs::{
    BleUuid, RawAddr, BLE_HS_EALREADY, BLE_HS_EBUSY, BLE_HS_EINVAL, BLE_HS_ENOENT, BLE_HS_ENOTCONN,
    BLE_HS_ESTALLED,
};

fn raw_event(type_: u8) -> RawGapEvent {
    RawGapEvent {
        type_,
        conn_handle: 3,
        status: 0,
        reason: 0x213,
        value: 247,
        attr_handle: 0x0012,
        subscribe_reason: 1,
        prev_notify: false,
        cur_notify: true,
        prev_indicate: false,
        cur_indicate: false,
        indication: true,
        om: 0x1000,
    }
}

#[test]
fn gap_events_decode() {
    match GapEvent::from(&raw_event(BLE_GAP_EVENT_CONNECT)) {
        GapEvent::Connect { conn_handle, status } => {
            assert_eq!(conn_handle, 3);
            assert!(status.is_ok());
        }
        other => panic!("unexpected {:?}", other),
    }
    let mut failed = raw_event(BLE_GAP_EVENT_CONNECT);
    failed.status = 13;
    match GapEvent::from(&failed) {
        GapEvent::Connect { status, .. } => assert_eq!(status.err().map(|e| e.code()), Some(13)),
        other => panic!("unexpected {:?}", other),
    }
    match GapEvent::from(&raw_event(BLE_GAP_EVENT_DISCONNECT)) {
        GapEvent::Disconnect { conn_handle, reason } => {
            assert_eq!(conn_handle, 3);
            assert_eq!(reason.code(), 0x213);
        }
        other => panic!("unexpected {:?}", other),
    }
    match GapEvent::from(&raw_event(BLE_GAP_EVENT_MTU)) {
        GapEvent::Mtu { conn_handle, value } => assert_eq!((conn_handle, value), (3, 247)),
        other => panic!("unexpected {:?}", other),
    }
    assert!(matches!(GapEvent::from(&raw_event(200)), GapEvent::Other));
}

#[test]
fn gap_events_route_by_role() {
    assert_eq!(route_gap_event(BLE_GAP_EVENT_SUBSCRIBE), GapRoute::GattServer);
    assert_eq!(route_gap_event(BLE_GAP_EVENT_NOTIFY_TX), GapRoute::GattServer);
    assert_eq!(route_gap_event(BLE_GAP_EVENT_NOTIFY_RX), GapRoute::GattClient);
    assert_eq!(route_gap_event(BLE_GAP_EVENT_CONNECT), GapRoute::Gap);
}

#[test]
fn advertising_results_and_params() {
    assert!(adv_start_result(0).is_ok());
    assert!(adv_start_result(BLE_HS_EALREADY).is_ok());
    assert_eq!(adv_start_result(BLE_HS_EBUSY).err().map(|e| e.code()), Some(BLE_HS_EBUSY));
    let p = BleAdvParams { conn_mode: 2, disc_mode: 2, high_duty_cycle: true, ..Default::default() };
    let raw = p.to_raw();
    assert_eq!(raw.conn_mode, 2);
    assert_eq!(raw.high_duty_cycle, 1);
    assert_eq!(BleAdvParams::default().to_raw().high_duty_cycle, 0);
}

#[test]
fn advertising_fields() {
    let fields = BleAdvFields {
        flags: 6,
        name: Some("nimble"),
        tx_power_level: Some(-4),
        manufacturer_data: Some(&[1, 2, 3]),
        ..Default::default()
    };
    let raw = fields.to_raw();
    assert_eq!(raw.flags, 6);
    assert_eq!(raw.name, Some(&b"nimble"[..]));
    assert_eq!(raw.name_len, 6);
    assert_eq!(raw.name_is_complete, 1);
    assert_eq!((raw.tx_pwr_lvl, raw.tx_pwr_lvl_is_present), (-4, 1));
    assert_eq!(raw.appearance_is_present, 0);
    assert_eq!(raw.mfg_data_len, 3);
    assert_eq!(raw.svc_data_uuid16_len, 0);
}

#[test]
fn device_names() {
    let buf = device_name_buffer("nimble-rs").ok().unwrap();
    assert_eq!(buf.len(), 64);
    assert_eq!(&buf[..9], b"nimble-rs");
    assert!(buf[9..].iter().all(|b| *b == 0));
    let long = "x".repeat(64);
    assert_eq!(device_name_buffer(&long).err().map(|e| e.code()), Some(BLE_HS_EINVAL));
    assert_eq!(device_name_buffer("a\0b").err().map(|e| e.code()), Some(BLE_HS_EINVAL));
    assert!(device_name_buffer(&"y".repeat(63)).is_ok());
}

#[test]
fn peer_address_of_connection() {
    let desc = BleConnDesc(RawConnDesc {
        conn_handle: 1,
        peer_id_addr: RawAddr { type_: 1, val: [1, 2, 3, 4, 5, 6] },
    });
    let addr = desc.peer_addr();
    assert_eq!(addr.kind(), 1);
    assert_eq!(addr.val(), [1, 2, 3, 4, 5, 6]);
}

#[test]
fn gatt_server_events_decode() {
    match GattsEvent::from_gap(&raw_event(BLE_GAP_EVENT_SUBSCRIBE)) {
        Some(GattsEvent::SubscriptionChanged { conn_handle, attr_handle, reason, cur_notify, .. }) => {
            assert_eq!((conn_handle, attr_handle), (3, 0x12));
            assert_eq!(reason, SubscribeReason::Write);
            assert!(cur_notify);
        }
        _ => panic!("expected a subscription change"),
    }
    match GattsEvent::from_gap(&raw_event(BLE_GAP_EVENT_NOTIFY_TX)) {
        Some(GattsEvent::NotifyComplete { indication, status, .. }) => {
            assert!(indication);
            assert_eq!(status, 0);
        }
        _ => panic!("expected a notification completion"),
    }
    assert!(GattsEvent::from_gap(&raw_event(BLE_GAP_EVENT_CONNECT)).is_none());
    assert_eq!(SubscribeReason::from_raw(3), SubscribeReason::Restore);
    assert_eq!(SubscribeReason::from_raw(9), SubscribeReason::Other(9));
}

#[test]
fn gatt_server_accesses_decode() {
    match GattsEvent::from_access(4, 0x20, BLE_GATT_ACCESS_OP_READ_CHR, 5, 0x99) {
        Some(GattsEvent::Read { conn_handle, attr_handle, offset, reply }) => {
            assert_eq!((conn_handle, attr_handle, offset), (4, 0x20, 5));
            assert_eq!(reply.handle(), 0x99);
        }
        _ => panic!("expected a read"),
    }
    assert!(matches!(
        GattsEvent::from_access(4, 0x20, BLE_GATT_ACCESS_OP_WRITE_CHR, 0, 0x99),
        Some(GattsEvent::Write { .. })
    ));
    assert!(GattsEvent::from_access(4, 0x20, 7, 0, 0x99).is_none());
    assert_eq!(access_status(None), BLE_ATT_ERR_UNLIKELY);
    assert_eq!(access_status(Some(0)), 0);
}

#[test]
fn gatt_client_events() {
    match GattcEvent::from_notify_rx(&raw_event(BLE_GAP_EVENT_NOTIFY_RX)) {
        GattcEvent::Notify { conn_handle, attr_handle, indication, .. } => {
            assert_eq!((conn_handle, attr_handle), (3, 0x12));
            assert!(indication);
        }
        other => panic!("unexpected {:?}", other),
    }
    assert_eq!(error_status(None), 0);
    assert_eq!(error_status(Some(0x0e)), 0x0e);
}

#[test]
fn gatt_flags_and_mtu() {
    let flags = BleGattCharFlags::empty()
        .with(BleGattCharFlag::Read)
        .with(BleGattCharFlag::Notify);
    assert!(flags.contains(BleGattCharFlag::Read));
    assert!(!flags.contains(BleGattCharFlag::Write));
    assert_eq!(
        flags_to_repr(flags),
        BleGattCharFlag::Read.repr() | BleGattCharFlag::Notify.repr()
    );
    assert_eq!(flags_to_repr(BleGattCharFlags::empty()), 0);
    let all = BleGattCharFlags::from_bits(u32::MAX);
    assert_eq!(all.bits(), 0x3ffff);
    assert_eq!(flags_to_repr(all), all.bits());
    assert_eq!(flags_to_repr(flags), flags.bits());
    assert_eq!(att_mtu_result(0).err().map(|e| e.code()), Some(7));
    assert_eq!(att_mtu_result(247).ok(), Some(247));
}

#[test]
fn l2cap_events_decode() {
    let raw = RawL2capEvent {
        type_: BLE_L2CAP_EVENT_COC_ACCEPT,
        conn_handle: 2,
        status: 0,
        chan: 0x40,
        peer_sdu_size: 512,
        sdu_rx: 0,
    };
    match L2capEvent::from_raw(&raw) {
        Some(L2capEvent::Accept { conn_handle, peer_sdu_size, chan }) => {
            assert_eq!((conn_handle, peer_sdu_size, chan), (2, 512, L2capChan(0x40)));
        }
        other => panic!("unexpected {:?}", other),
    }
    let reconf = RawL2capEvent { type_: BLE_L2CAP_EVENT_COC_PEER_RECONFIGURED, ..raw };
    assert!(matches!(
        L2capEvent::from_raw(&reconf),
        Some(L2capEvent::Reconfigured { by_peer: true, .. })
    ));
    assert!(L2capEvent::from_raw(&RawL2capEvent { type_: 7, ..raw }).is_none());
}

#[test]
fn l2cap_outcomes() {
    let rx = RawL2capEvent {
        type_: BLE_L2CAP_EVENT_COC_DATA_RECEIVED,
        conn_handle: 2,
        status: 0,
        chan: 0x40,
        peer_sdu_size: 0,
        sdu_rx: 0x77,
    };
    assert_eq!(event_callback_outcome(&rx, Some(5)), (5, Some(0x77)));
    assert_eq!(event_callback_outcome(&rx, None), (0, Some(0x77)));
    assert_eq!(send_outcome(0), (Ok(SendOutcome::Sent), false));
    assert_eq!(send_outcome(BLE_HS_ESTALLED), (Ok(SendOutcome::Stalled), false));
    let (r, free) = send_outcome(BLE_HS_EBUSY);
    assert_eq!(r.err().map(|e| e.code()), Some(BLE_HS_EBUSY));
    assert!(free);
    assert!(connect_frees_sdu(BLE_HS_ENOTCONN));
    assert!(connect_frees_sdu(BLE_HS_EINVAL));
    assert!(!connect_frees_sdu(BLE_HS_ENOENT));
    assert!(!connect_frees_sdu(0));
    assert!(recv_ready_frees_sdu(BLE_HS_EBUSY));
    assert!(recv_ready_frees_sdu(BLE_HS_EINVAL));
    assert!(!recv_ready_frees_sdu(BLE_HS_ENOENT));
    assert!(!recv_ready_frees_sdu(0));
}

#[test]
fn gatt_client_discovery_values() {
    let svc = GattcService::from(1, 9, 16, &[0x0d, 0x18]);
    assert_eq!(svc.start_handle, 1);
    assert_eq!(svc.end_handle, 9);
    assert_eq!(svc.uuid, BleUuid::uuid16(0x180d));
    let mut body = [0u8; 16];
    body[0] = 0x78;
    body[1] = 0x56;
    let chr = GattcChr::from(2, 3, 0x12, 128, &body);
    assert_eq!((chr.def_handle, chr.val_handle, chr.properties), (2, 3, 0x12));
    assert_eq!(chr.uuid, BleUuid::uuid128(0x5678));
}

#[test]
fn gatt_client_completions() {
    match GattcEvent::read_complete(4, Some(0x0a), None) {
        GattcEvent::ReadComplete { conn_handle, status, attr_handle, data } => {
            assert_eq!((conn_handle, status, attr_handle), (4, 0x0a, 0));
            assert!(data.is_null());
        }
        other => panic!("unexpected {:?}", other),
    }
    match GattcEvent::read_complete(4, None, Some((0x21, 0x500))) {
        GattcEvent::ReadComplete { status, attr_handle, data, .. } => {
            assert_eq!((status, attr_handle, data.handle()), (0, 0x21, 0x500));
        }
        other => panic!("unexpected {:?}", other),
    }
    assert!(matches!(
        GattcEvent::write_complete(4, None, Some(0x22)),
        GattcEvent::WriteComplete { conn_handle: 4, status: 0, attr_handle: 0x22 }
    ));
}

#[test]
fn gatt_registrations() {
    let raw = RawRegister {
        op: BLE_GATT_REGISTER_OP_CHR,
        uuid: BleUuid::uuid16(0x2a37),
        handle: 0,
        def_handle: 0x10,
        val_handle: 0x11,
    };
    assert_eq!(
        BleGattRegister::from(&raw),
        BleGattRegister::Characteristic { uuid: BleUuid::uuid16(0x2a37), def_handle: 0x10, val_handle: 0x11 }
    );
    let svc = RawRegister { op: BLE_GATT_REGISTER_OP_SVC, handle: 0x0f, ..raw };
    assert_eq!(
        BleGattRegister::from(&svc),
        BleGattRegister::Service { uuid: BleUuid::uuid16(0x2a37), handle: 0x0f }
    );
    assert_eq!(BleGattRegister::from(&RawRegister { op: 9, ..raw }), BleGattRegister::Other);
}
