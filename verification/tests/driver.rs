use nimble_rs::driver::{
    address_step, register_step, AddressCall, AddressStep, BleDriver, DriverSlot, RegisterCall,
    RegisterStep,
};
use nimble_rs::gap::{gap_event_outcome, GapRoute};
use nimble_rs::{BleError, BLE_HS_EALREADY, BLE_HS_ENOMEM};

type Driver<S> = BleDriver<S, u8, u16, u32, u64, i8>;

fn open(slot: &mut DriverSlot) -> Result<Driver<()>, BleError> {
    slot.claim()?;
    slot.port_ready(true)?;
    Ok(BleDriver::new(slot))
}

#[test]
fn only_one_driver_at_a_time() {
    let mut slot = DriverSlot::new();
    let first = open(&mut slot).ok().unwrap();
    let second = open(&mut slot);
    assert_eq!(second.err().map(|e| e.code()), Some(BLE_HS_EALREADY));
    first.close(&mut slot);
    assert!(open(&mut slot).is_ok());
}

#[test]
fn failed_init_frees_the_slot() {
    let mut slot = DriverSlot::new();
    assert!(slot.claim().is_ok());
    assert_eq!(slot.port_ready(false).err().map(|e| e.code()), Some(BLE_HS_ENOMEM));
    assert!(open(&mut slot).is_ok());
}

fn register(codes: &[i32]) -> (Result<(), BleError>, usize) {
    let mut call = RegisterCall::CountCfg;
    let mut made = 0;
    loop {
        let rc = codes[made];
        made += 1;
        match register_step(call, rc) {
            RegisterStep::Call(next) => call = next,
            RegisterStep::Done(r) => return (r, made),
        }
    }
}

#[test]
fn services_registration_errors() {
    assert_eq!(register(&[0, 0]), (Ok(()), 2));
    assert_eq!(register(&[3, 0]).0.err().map(|e| e.code()), Some(3));
    assert_eq!(register(&[3, 0]).1, 1);
    assert_eq!(register(&[0, 6]).0.err().map(|e| e.code()), Some(6));
    assert_eq!(register(&[5, 6]).0.err().map(|e| e.code()), Some(5));

    let mut slot = DriverSlot::new();
    slot.claim().unwrap();
    slot.port_ready(true).unwrap();
    let r: Result<Driver<&str>, BleError> =
        BleDriver::new_with_services(&mut slot, "table", register(&[0, 6]).0);
    assert_eq!(r.err().map(|e| e.code()), Some(6));
    slot.claim().unwrap();
    slot.port_ready(true).unwrap();
    let d: Driver<&str> =
        BleDriver::new_with_services(&mut slot, "table", register(&[0, 0]).0).ok().unwrap();
    assert_eq!(d.close(&mut slot), "table");
}

#[test]
fn gap_events_after_unsubscribe_get_zero() {
    let mut slot = DriverSlot::new();
    let mut d = open(&mut slot).ok().unwrap();
    d.gap_subscribe(2);
    assert_eq!(gap_event_outcome(GapRoute::Gap, d.gap_callback().map(|_| 7)), 7);
    d.gap_unsubscribe();
    d.gap_unsubscribe();
    assert_eq!(gap_event_outcome(GapRoute::Gap, d.gap_callback().map(|_| 7)), 0);
    assert_eq!(gap_event_outcome(GapRoute::GattServer, Some(7)), 0);
    assert_eq!(gap_event_outcome(GapRoute::GattClient, None), 0);
}

#[test]
fn subscriptions() {
    let mut slot = DriverSlot::new();
    let mut d: Driver<()> = open(&mut slot).ok().unwrap();
    assert!(d.host_callback().is_none());
    d.host_subscribe(1);
    d.gap_subscribe(2);
    d.gatts_subscribe(3);
    d.gattc_subscribe(4);
    d.l2cap_subscribe(5);
    assert_eq!(d.host_callback(), Some(&1));
    assert_eq!(d.gap_callback(), Some(&2));
    assert_eq!(d.gatts_callback(), Some(&3));
    assert_eq!(d.gattc_callback(), Some(&4));
    assert_eq!(d.l2cap_callback(), Some(&5));
    d.gap_unsubscribe();
    d.gatts_unsubscribe();
    d.gattc_unsubscribe();
    d.l2cap_unsubscribe();
    assert_eq!(d.host_callback(), Some(&1));
    assert!(d.gap_callback().is_none());
    assert!(d.gatts_callback().is_none());
    assert!(d.gattc_callback().is_none());
    assert!(d.l2cap_callback().is_none());
}

fn address(codes: &[i32], inferred: u8, addr: [u8; 6]) -> (Result<([u8; 6], u8), BleError>, usize) {
    let mut call = AddressCall::EnsureAddr;
    let mut made = 0;
    loop {
        let rc = codes[made];
        made += 1;
        match address_step(call, rc, inferred, addr) {
            AddressStep::Call(next) => call = next,
            AddressStep::Done(r) => return (r, made),
        }
    }
}

#[test]
fn identity_address() {
    let addr = [1, 2, 3, 4, 5, 6];
    assert_eq!(address(&[0, 0, 0], 1, addr), (Ok((addr, 1)), 3));
    let (r, made) = address(&[0, 5, 0], 1, addr);
    assert_eq!((r.err().map(|e| e.code()), made), (Some(5), 2));
    let (r, made) = address(&[2, 5, 7], 1, addr);
    assert_eq!((r.err().map(|e| e.code()), made), (Some(2), 1));
    assert_eq!(address(&[0, 0, 7], 1, addr).0.err().map(|e| e.code()), Some(7));
    assert!(matches!(
        address_step(AddressCall::InferType, 0, 1, addr),
        AddressStep::Call(AddressCall::CopyAddr { addr_type: 1 })
    ));
}
