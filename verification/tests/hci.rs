use nimble_rs::hci::{
    ack_frame, ack_status, acl_step, async_cmd_ack, command_table, complete_ack, copy_cmd_packet,
    event_frame, flatten_acl, is_discardable, malformed_params_ack, plain_ack, route_cmd,
    send_cmd, status_ack, sync_cmd_ack, tx_step, CmdDispatch, CmdFailure, CmdMode, CmdRoles, CmdRoute, PumpSlot, TxStep,
    BLE_ERR_MEM_CAPACITY, STATUS_HW_FAILURE, STATUS_INVALID_PARAMS, STATUS_UNKNOWN_CMD,
};

fn table() -> Vec<CmdRoute> {
    vec![
        CmdRoute { opcode: 0x0c03, mode: CmdMode::Sync },
        CmdRoute { opcode: 0x2013, mode: CmdMode::Async },
        CmdRoute { opcode: 0x0c03, mode: CmdMode::Async },
    ]
}

#[test]
fn complete_ack_without_return_params() {
    let evt = complete_ack(0x0c03, 0, None);
    assert_eq!(evt.bytes(), &[0x0e, 4, 1, 0x03, 0x0c, 0]);
}

#[test]
fn complete_ack_with_return_params() {
    let evt = complete_ack(0x1009, 0, Some(&[1, 2, 3, 4, 5, 6]));
    assert_eq!(evt.bytes(), &[0x0e, 10, 1, 0x09, 0x10, 0, 1, 2, 3, 4, 5, 6]);
}

#[test]
fn complete_ack_with_largest_return_params() {
    let ret = [0xabu8; 251];
    let evt = complete_ack(0x2002, 0x00, Some(&ret));
    assert_eq!(evt.bytes().len(), 257);
    assert_eq!(evt.bytes()[1], 255);
    assert_eq!(&evt.bytes()[6..], &ret[..]);
}

#[test]
fn plain_ack_is_complete_ack_without_params() {
    assert_eq!(plain_ack(0xfc01, STATUS_UNKNOWN_CMD).bytes(), &[0x0e, 4, 1, 0x01, 0xfc, 0x01]);
}

#[test]
fn status_ack_layout() {
    let evt = status_ack(0x200d, STATUS_INVALID_PARAMS);
    assert_eq!(evt.bytes(), &[0x0f, 4, 0x12, 1, 0x0d, 0x20]);
}

#[test]
fn ack_status_of_each_outcome() {
    assert_eq!(ack_status(&Ok(())), 0);
    assert_eq!(ack_status(&Err(CmdFailure::Hci(0x0c))), 0x0c);
    assert_eq!(ack_status(&Err(CmdFailure::Io)), STATUS_HW_FAILURE);
}

#[test]
fn route_takes_first_entry() {
    let t = table();
    assert_eq!(route_cmd(&t, 0x0c03), Some(CmdMode::Sync));
    assert_eq!(route_cmd(&t, 0x2013), Some(CmdMode::Async));
    assert_eq!(route_cmd(&t, 0x1001), None);
    assert_eq!(route_cmd(&[], 0x0c03), None);
}

#[test]
fn send_cmd_sync_with_params() {
    match send_cmd(&table(), &[0x03, 0x0c, 2, 0xaa, 0xbb]) {
        CmdDispatch::Sync { opcode, params } => {
            assert_eq!(opcode, 0x0c03);
            assert_eq!(params, vec![0xaa, 0xbb]);
        }
        _ => panic!("expected a sync dispatch"),
    }
}

#[test]
fn send_cmd_async_without_params() {
    match send_cmd(&table(), &[0x13, 0x20, 0]) {
        CmdDispatch::Async { opcode, params } => {
            assert_eq!(opcode, 0x2013);
            assert!(params.is_empty());
        }
        _ => panic!("expected an async dispatch"),
    }
}

#[test]
fn send_cmd_short_packet_has_no_params() {
    match send_cmd(&table(), &[0x03, 0x0c]) {
        CmdDispatch::Sync { params, .. } => assert!(params.is_empty()),
        _ => panic!("expected a sync dispatch"),
    }
}

#[test]
fn send_cmd_unmapped_is_acked_unknown() {
    match send_cmd(&table(), &[0x01, 0x10, 0]) {
        CmdDispatch::Unmapped { opcode, ack } => {
            assert_eq!(opcode, 0x1001);
            assert_eq!(ack.bytes(), &[0x0e, 4, 1, 0x01, 0x10, 0x01]);
        }
        _ => panic!("expected an unmapped command"),
    }
}

#[test]
fn malformed_params_ack_by_mode() {
    assert_eq!(
        malformed_params_ack(CmdMode::Sync, 0x0c01).bytes(),
        &[0x0e, 4, 1, 0x01, 0x0c, 0x12]
    );
    assert_eq!(
        malformed_params_ack(CmdMode::Async, 0x0c01).bytes(),
        &[0x0f, 4, 0x12, 1, 0x01, 0x0c]
    );
}

#[test]
fn sync_cmd_ack_outcomes() {
    let ok = sync_cmd_ack(0x1009, Ok(&[1, 2, 3, 4, 5, 6]));
    assert_eq!(ok.bytes(), &[0x0e, 10, 1, 0x09, 0x10, 0, 1, 2, 3, 4, 5, 6]);
    let io = sync_cmd_ack(0x1009, Err(CmdFailure::Io));
    assert_eq!(io.bytes(), &[0x0e, 4, 1, 0x09, 0x10, 0x03]);
    let hci = sync_cmd_ack(0x0c03, Err(CmdFailure::Hci(0x12)));
    assert_eq!(hci.bytes(), &[0x0e, 4, 1, 0x03, 0x0c, 0x12]);
    let busy = sync_cmd_ack(0x0c03, Err(CmdFailure::Hci(0x0c)));
    assert_eq!(busy.bytes(), &[0x0e, 4, 1, 0x03, 0x0c, 0x0c]);
}

#[test]
fn async_cmd_ack_outcomes() {
    assert_eq!(async_cmd_ack(0x200d, &Ok(())).bytes(), &[0x0f, 4, 0, 1, 0x0d, 0x20]);
    assert_eq!(
        async_cmd_ack(0x200d, &Err(CmdFailure::Io)).bytes(),
        &[0x0f, 4, 0x03, 1, 0x0d, 0x20]
    );
    assert_eq!(
        async_cmd_ack(0x200d, &Err(CmdFailure::Hci(0x07))).bytes(),
        &[0x0f, 4, 0x07, 1, 0x0d, 0x20]
    );
}

#[test]
fn command_table_by_roles() {
    let none = CmdRoles {
        connections: false,
        broadcaster: false,
        observer: false,
        central: false,
        security: false,
    };
    let core = command_table(none);
    assert_eq!(core.len(), 19);
    assert_eq!(core[0], CmdRoute { opcode: 0x0c03, mode: CmdMode::Sync });
    assert_eq!(route_cmd(&core, 0x200d), None);
    let all = CmdRoles {
        connections: true,
        broadcaster: true,
        observer: true,
        central: true,
        security: true,
    };
    let full = command_table(all);
    assert_eq!(full.len(), 44);
    assert_eq!(route_cmd(&full, 0x200d), Some(CmdMode::Async));
    assert_eq!(route_cmd(&full, 0x200e), Some(CmdMode::Sync));
    assert_eq!(route_cmd(&full, 0x0406), Some(CmdMode::Sync));
    assert_eq!(route_cmd(&full, 0x2019), Some(CmdMode::Async));
    assert_eq!(route_cmd(&full, 0x2006), Some(CmdMode::Sync));
    let mut ops: Vec<u16> = full.iter().map(|r| r.opcode).collect();
    ops.sort();
    ops.dedup();
    assert_eq!(ops.len(), 44);
}

#[test]
fn tx_serves_commands_first() {
    assert_eq!(tx_step(true, true), TxStep::Command);
    assert_eq!(tx_step(true, false), TxStep::Command);
    assert_eq!(tx_step(false, true), TxStep::Acl);
    assert_eq!(tx_step(false, false), TxStep::Idle);
}

#[test]
fn acl_step_skips_malformed_packets() {
    assert!(acl_step(&[0x01, 0x20, 0x02, 0x00, 0xaa, 0xbb]));
    assert!(acl_step(&[0x01, 0x20, 0x00, 0x00]));
    assert!(!acl_step(&[0x01, 0x20, 0x03, 0x00, 0xaa, 0xbb]));
    assert!(!acl_step(&[0x01, 0x20, 0x01, 0x00, 0xaa, 0xbb]));
    assert!(!acl_step(&[0x01, 0x20, 0x00]));
    assert!(!acl_step(&[]));
}

#[test]
fn event_frame_layout() {
    assert_eq!(event_frame(0x3e, &[0x02, 1, 2]), vec![0x3e, 3, 0x02, 1, 2]);
    assert_eq!(event_frame(0x05, &[]), vec![0x05, 0]);
}

#[test]
fn ack_frames_itself() {
    let evt = complete_ack(0x1009, 0, Some(&[9, 8, 7]));
    assert_eq!(ack_frame(&evt), evt.bytes().to_vec());
    let evt = status_ack(0x200d, 0);
    assert_eq!(ack_frame(&evt), evt.bytes().to_vec());
}

#[test]
fn discardable_events() {
    assert!(is_discardable(0x3e, &[0x02, 0]));
    assert!(is_discardable(0x3e, &[0x0d]));
    assert!(!is_discardable(0x3e, &[0x01]));
    assert!(!is_discardable(0x3e, &[]));
    assert!(!is_discardable(0x0e, &[0x02]));
}

#[test]
fn copy_cmd_packet_takes_header_and_params() {
    let p = copy_cmd_packet(&[0x03, 0x0c, 2, 7, 8, 99, 99]);
    assert_eq!(p.bytes(), &[0x03, 0x0c, 2, 7, 8]);
    let p = copy_cmd_packet(&[0x03, 0x0c, 0]);
    assert_eq!(p.bytes(), &[0x03, 0x0c, 0]);
}

#[test]
fn flatten_acl_chain() {
    let chain = vec![vec![1u8, 2], vec![], vec![3, 4, 5]];
    let p = flatten_acl(&chain).ok().unwrap();
    assert_eq!(p.bytes(), &[1, 2, 3, 4, 5]);
}

#[test]
fn flatten_acl_full_buffer() {
    let chain = vec![vec![0u8; 200], vec![1u8; 55]];
    let p = flatten_acl(&chain).ok().unwrap();
    assert_eq!(p.bytes().len(), 255);
}

#[test]
fn flatten_acl_overflow() {
    let chain = vec![vec![0u8; 200], vec![1u8; 56]];
    assert_eq!(flatten_acl(&chain).err(), Some(BLE_ERR_MEM_CAPACITY));
}

#[test]
fn pump_polls_do_not_nest() {
    let mut slot: PumpSlot<u32> = PumpSlot::new();
    assert!(!slot.begin_poll());
    slot.register(9);
    assert!(slot.begin_poll());
    assert!(!slot.begin_poll());
    assert_eq!(slot.pump(), Some(&9));
    slot.end_poll();
    assert!(slot.begin_poll());
    slot.end_poll();
    slot.unregister();
    assert!(!slot.begin_poll());
    assert_eq!(slot.pump(), None);
}

#[test]
fn disconnect_is_acknowledged_by_command_complete() {
    let full = command_table(CmdRoles {
        connections: true,
        broadcaster: false,
        observer: false,
        central: false,
        security: false,
    });
    match send_cmd(&full, &[0x06, 0x04, 3, 0x40, 0x00, 0x13]) {
        CmdDispatch::Sync { opcode, params } => {
            assert_eq!(opcode, 0x0406);
            assert_eq!(params, vec![0x40, 0x00, 0x13]);
        }
        _ => panic!("Disconnect must dispatch as a synchronous command"),
    }
    let ok = sync_cmd_ack(0x0406, Ok(&[]));
    assert_eq!(ok.bytes(), &[0x0e, 4, 1, 0x06, 0x04, 0]);
    let busy = sync_cmd_ack(0x0406, Err(CmdFailure::Hci(0x02)));
    assert_eq!(busy.bytes(), &[0x0e, 4, 1, 0x06, 0x04, 0x02]);
}
