//! GATT server: the service table, its events.
//!
//! The service table is NimBLE's `ble_gatt_svc_def` tree: an array of
//! service definitions ended by an all-zero one, each pointing at the array
//! of its characteristic definitions, itself ended by an all-zero one. Here
//! a definition refers to a UUID by value and to its characteristics by
//! their position in the flat table that holds them.
use vstd::prelude::*;

use crate::gap::{RawGapEvent, BLE_GAP_EVENT_NOTIFY_TX, BLE_GAP_EVENT_SUBSCRIBE};
use crate::gatt::{flags_to_repr, AttrHandle, BleGattCharFlags};
use crate::mbuf::Mbuf;
use crate::{BleError, BleUuid, ConnHandle};

verus! {

/// `BLE_GATT_SVC_TYPE_PRIMARY`.
pub const BLE_GATT_SVC_TYPE_PRIMARY: u8 = 1;

/// `BLE_GATT_SVC_TYPE_SECONDARY`.
pub const BLE_GATT_SVC_TYPE_SECONDARY: u8 = 2;

/// `BLE_GATT_ACCESS_OP_READ_CHR`.
pub const BLE_GATT_ACCESS_OP_READ_CHR: u8 = 0;

/// `BLE_GATT_ACCESS_OP_WRITE_CHR`.
pub const BLE_GATT_ACCESS_OP_WRITE_CHR: u8 = 1;

/// `BLE_ATT_ERR_UNLIKELY`: the status of an access nobody can serve.
pub const BLE_ATT_ERR_UNLIKELY: u8 = 0x0e;

// The subscription-change reasons (`BLE_GAP_SUBSCRIBE_REASON_*`).
pub const BLE_GAP_SUBSCRIBE_REASON_WRITE: u8 = 1;

pub const BLE_GAP_SUBSCRIBE_REASON_TERM: u8 = 2;

pub const BLE_GAP_SUBSCRIBE_REASON_RESTORE: u8 = 3;

// The registration operations (`BLE_GATT_REGISTER_OP_*`).
pub const BLE_GATT_REGISTER_OP_SVC: u8 = 1;

pub const BLE_GATT_REGISTER_OP_CHR: u8 = 2;

pub const BLE_GATT_REGISTER_OP_DSC: u8 = 3;

/// A characteristic definition (`ble_gatt_chr_def`): its UUID (`None` in
/// the terminator), whether it is served by the shared access trampoline,
/// and its raw flags.
#[derive(Clone, Copy, Debug, PartialEq, Eq, Structural)]
pub struct ChrDef {
    pub uuid: Option<BleUuid>,
    pub access_cb: bool,
    pub flags: u32,
}

/// A service definition (`ble_gatt_svc_def`): its type, its UUID (`None`
/// in the terminator), and where its characteristic definitions begin
/// (`None` in the terminator).
#[derive(Clone, Copy, Debug, PartialEq, Eq, Structural)]
pub struct SvcDef {
    pub type_: u8,
    pub uuid: Option<BleUuid>,
    pub characteristics: Option<usize>,
}

/// The all-zero characteristic definition that ends a characteristic array.
pub open spec fn spec_chr_sentinel() -> ChrDef {
    ChrDef { uuid: None, access_cb: false, flags: 0 }
}

/// The all-zero service definition that ends a service array.
pub open spec fn spec_svc_sentinel() -> SvcDef {
    SvcDef { type_: 0, uuid: None, characteristics: None }
}

/// The characteristic-array terminator.
pub fn chr_sentinel() -> (r: ChrDef)
    ensures
        r == spec_chr_sentinel(),
{
    ChrDef { uuid: None, access_cb: false, flags: 0 }
}

/// The service-array terminator.
pub fn svc_sentinel() -> (r: SvcDef)
    ensures
        r == spec_svc_sentinel(),
{
    SvcDef { type_: 0, uuid: None, characteristics: None }
}

/// The characteristic definition of a characteristic with the given UUID
/// and raw flags, served by the shared access trampoline.
pub open spec fn spec_make_chr(uuid: BleUuid, flags: u32) -> ChrDef {
    ChrDef { uuid: Some(uuid), access_cb: true, flags }
}

/// The service type of a primary or secondary service.
pub open spec fn spec_svc_type(primary: bool) -> u8 {
    if primary {
        BLE_GATT_SVC_TYPE_PRIMARY
    } else {
        BLE_GATT_SVC_TYPE_SECONDARY
    }
}

/// Builds one characteristic definition.
pub fn make_chr(uuid: BleUuid, flags: u32) -> (r: ChrDef)
    ensures
        r == spec_make_chr(uuid, flags),
{
    ChrDef { uuid: Some(uuid), access_cb: true, flags }
}

/// Builds one service definition whose characteristics begin at
/// `characteristics`.
pub fn make_svc(primary: bool, uuid: BleUuid, characteristics: Option<usize>) -> (r: SvcDef)
    ensures
        r == (SvcDef { type_: spec_svc_type(primary), uuid: Some(uuid), characteristics }),
{
    SvcDef {
        type_: if primary {
            BLE_GATT_SVC_TYPE_PRIMARY
        } else {
            BLE_GATT_SVC_TYPE_SECONDARY
        },
        uuid: Some(uuid),
        characteristics,
    }
}

/// A characteristic of a service: its UUID and flags.
#[derive(Clone, Copy, Debug)]
pub struct BleGattCharacteristic {
    uuid: BleUuid,
    flags: BleGattCharFlags,
}

impl BleGattCharacteristic {
    pub closed spec fn spec_uuid(&self) -> BleUuid {
        self.uuid
    }

    pub closed spec fn spec_flags(&self) -> BleGattCharFlags {
        self.flags
    }

    pub fn new(uuid: BleUuid, flags: BleGattCharFlags) -> (r: Self)
        ensures
            r.spec_uuid() == uuid,
            r.spec_flags() == flags,
    {
        BleGattCharacteristic { uuid, flags }
    }

    /// The definition the table holds for this characteristic.
    pub open spec fn spec_def(&self) -> ChrDef {
        spec_make_chr(self.spec_uuid(), self.spec_flags().spec_repr())
    }
}

/// A GATT service definition, borrowing its characteristics.
pub struct BleGattService<'a> {
    primary: bool,
    uuid: BleUuid,
    characteristics: &'a [BleGattCharacteristic],
}

impl<'a> BleGattService<'a> {
    pub closed spec fn spec_primary(&self) -> bool {
        self.primary
    }

    pub closed spec fn spec_uuid(&self) -> BleUuid {
        self.uuid
    }

    pub closed spec fn spec_chars(&self) -> Seq<BleGattCharacteristic> {
        self.characteristics@
    }

    pub fn new(primary: bool, uuid: BleUuid, characteristics: &'a [BleGattCharacteristic]) -> (r: Self)
        ensures
            r.spec_primary() == primary,
            r.spec_uuid() == uuid,
            r.spec_chars() == characteristics@,
    {
        BleGattService { primary, uuid, characteristics }
    }
}

/// The characteristic definitions of one service, with its terminator.
pub open spec fn spec_chr_block(chars: Seq<BleGattCharacteristic>) -> Seq<ChrDef> {
    chars.map_values(|c: BleGattCharacteristic| c.spec_def()).push(spec_chr_sentinel())
}

/// The flat characteristic table of the services: each service's
/// definitions followed by a terminator.
pub open spec fn spec_chr_table(svcs: Seq<BleGattService>) -> Seq<ChrDef>
    decreases svcs.len(),
{
    if svcs.len() == 0 {
        Seq::empty()
    } else {
        spec_chr_table(svcs.drop_last()) + spec_chr_block(svcs.last().spec_chars())
    }
}

/// Where the characteristics of service `i` begin in the flat table.
pub open spec fn spec_chr_offset(svcs: Seq<BleGattService>, i: int) -> int {
    spec_chr_table(svcs.take(i)).len() as int
}

/// The service definitions (without the final terminator).
pub open spec fn spec_svc_list(svcs: Seq<BleGattService>) -> Seq<SvcDef> {
    Seq::new(
        svcs.len(),
        |i: int|
            SvcDef {
                type_: spec_svc_type(svcs[i].spec_primary()),
                uuid: Some(svcs[i].spec_uuid()),
                characteristics: Some(spec_chr_offset(svcs, i) as usize),
            },
    )
}


/// The table of the first services is the start of the whole table.
proof fn lemma_chr_table_prefix(svcs: Seq<BleGattService>, j: int)
    requires
        0 <= j <= svcs.len(),
    ensures
        spec_chr_table(svcs.take(j)).len() <= spec_chr_table(svcs).len(),
        spec_chr_table(svcs).subrange(0, spec_chr_table(svcs.take(j)).len() as int)
            == spec_chr_table(svcs.take(j)),
    decreases svcs.len(),
{
    if j == svcs.len() {
        assert(svcs.take(j) =~= svcs);
        assert(spec_chr_table(svcs).subrange(0, spec_chr_table(svcs).len() as int) =~= spec_chr_table(
            svcs,
        ));
    } else {
        let init = svcs.drop_last();
        lemma_chr_table_prefix(init, j);
        assert(init.take(j) =~= svcs.take(j));
        let t = spec_chr_table(svcs);
        let ti = spec_chr_table(init);
        let p = spec_chr_table(svcs.take(j));
        assert(t == ti + spec_chr_block(svcs.last().spec_chars()));
        assert(t.subrange(0, p.len() as int) =~= ti.subrange(0, p.len() as int));
    }
}

/// The layout of the table: the characteristics of service `i` stand, in
/// order, at its offset, followed by a terminator, and the block of the next
/// service begins right after that terminator.
pub proof fn law_service_blocks(svcs: Seq<BleGattService>, i: int)
    requires
        0 <= i < svcs.len(),
    ensures
        spec_chr_offset(svcs, i + 1) == spec_chr_offset(svcs, i) + svcs[i].spec_chars().len() + 1,
        forall|k: int|
            0 <= k < svcs[i].spec_chars().len() ==> #[trigger] spec_chr_table(svcs)[spec_chr_offset(
                svcs,
                i,
            ) + k] == svcs[i].spec_chars()[k].spec_def(),
        spec_chr_table(svcs)[spec_chr_offset(svcs, i) + svcs[i].spec_chars().len()]
            == spec_chr_sentinel(),
{
    let next = svcs.take(i + 1);
    assert(next.drop_last() =~= svcs.take(i));
    assert(next.last() == svcs[i]);
    let block = spec_chr_block(svcs[i].spec_chars());
    let before = spec_chr_table(svcs.take(i));
    assert(spec_chr_table(next) == before + block);
    lemma_chr_table_prefix(svcs, i + 1);
    let t = spec_chr_table(svcs);
    let n = svcs[i].spec_chars().len();
    assert forall|k: int| 0 <= k < n implies #[trigger] t[spec_chr_offset(svcs, i) + k]
        == svcs[i].spec_chars()[k].spec_def() by {
        assert(t[before.len() + k] == t.subrange(0, (before + block).len() as int)[before.len()
            + k]);
        assert((before + block)[before.len() + k] == block[k]);
    }
    assert(t[(before.len() + n) as int] == t.subrange(0, (before + block).len() as int)[(before.len()
        + n) as int]);
    assert((before + block)[(before.len() + n) as int] == block[n as int]);
}

/// A GATT service table built at runtime, ready to be registered with the
/// host.
pub struct BleGattServices {
    chr_defs: Vec<ChrDef>,
    svc_defs: Vec<SvcDef>,
}

impl BleGattServices {
    pub closed spec fn spec_svc_defs(&self) -> Seq<SvcDef> {
        self.svc_defs@
    }

    pub closed spec fn spec_chr_defs(&self) -> Seq<ChrDef> {
        self.chr_defs@
    }

    /// Builds the table: one service definition per service, then the
    /// terminator; the characteristic definitions of every service, each
    /// block followed by a terminator, laid out one block after the other in
    /// one flat table.
    pub fn new(services: &[BleGattService<'_>]) -> (r: Result<Self, BleError>)
        ensures
            r matches Ok(t) && t.spec_svc_defs() == spec_svc_list(services@).push(
                spec_svc_sentinel(),
            ) && t.spec_chr_defs() == spec_chr_table(services@),
    {
        let mut chr_defs: Vec<ChrDef> = Vec::new();
        let mut svc_defs: Vec<SvcDef> = Vec::new();
        let mut s: usize = 0;
        assert(services@.take(0) =~= Seq::<BleGattService>::empty());
        while s < services.len()
            invariant
                s <= services@.len(),
                chr_defs@ == spec_chr_table(services@.take(s as int)),
                svc_defs@ == spec_svc_list(services@).take(s as int),
            decreases services@.len() - s,
        {
            let service = &services[s];
            let start = chr_defs.len();
            assert(services@.take(s as int) == services@.take(s + 1).take(s as int));
            svc_defs.push(
                SvcDef {
                    type_: if service.primary {
                        BLE_GATT_SVC_TYPE_PRIMARY
                    } else {
                        BLE_GATT_SVC_TYPE_SECONDARY
                    },
                    uuid: Some(service.uuid),
                    characteristics: Some(start),
                },
            );
            proof {
                assert(spec_chr_offset(services@, s as int) == start);
                assert(svc_defs@ =~= spec_svc_list(services@).take(s + 1));
            }
            let ghost base = chr_defs@;
            let chars = service.characteristics;
            let mut c: usize = 0;
            while c < chars.len()
                invariant
                    c <= chars@.len(),
                    chr_defs@ == base + chars@.take(c as int).map_values(
                        |x: BleGattCharacteristic| x.spec_def(),
                    ),
                decreases chars@.len() - c,
            {
                let chr = chars[c];
                let def = ChrDef { uuid: Some(chr.uuid), access_cb: true, flags: flags_to_repr(chr.flags) };
                assert(def == chr.spec_def());
                chr_defs.push(def);
                assert(chars@.take(c + 1) =~= chars@.take(c as int).push(chr));
                assert(chr_defs@ =~= base + chars@.take(c + 1).map_values(
                    |x: BleGattCharacteristic| x.spec_def(),
                ));
                c = c + 1;
            }
            chr_defs.push(ChrDef { uuid: None, access_cb: false, flags: 0 });
            proof {
                assert(chars@.take(c as int) =~= chars@);
                assert(services@.take(s + 1).drop_last() =~= services@.take(s as int));
                assert(services@.take(s + 1).last() == services@[s as int]);
                assert(chr_defs@ =~= spec_chr_table(services@.take(s + 1)));
            }
            s = s + 1;
        }
        svc_defs.push(SvcDef { type_: 0, uuid: None, characteristics: None });
        assert(services@.take(s as int) =~= services@);
        assert(spec_svc_list(services@).take(s as int) =~= spec_svc_list(services@));
        Ok(BleGattServices { chr_defs, svc_defs })
    }

    /// The service definitions, terminator included.
    pub fn as_ref(&self) -> (r: &[SvcDef])
        ensures
            r@ == self.spec_svc_defs(),
    {
        self.svc_defs.as_slice()
    }

    /// The flat table of characteristic definitions the services refer to.
    pub fn chr_defs(&self) -> (r: &[ChrDef])
        ensures
            r@ == self.spec_chr_defs(),
    {
        self.chr_defs.as_slice()
    }
}

/// A static (compile-time) GATT service table: a terminated service array.
pub struct GattServices<const N: usize>(pub [SvcDef; N]);

impl<const N: usize> GattServices<N> {
    /// Wraps a fully-built, terminated service array.
    pub fn new(defs: [SvcDef; N]) -> (r: Self)
        ensures
            r.0@ == defs@,
    {
        GattServices(defs)
    }

    /// The service definitions.
    pub fn as_ref(&self) -> (r: &[SvcDef])
        ensures
            r@ == self.0@,
    {
        self.0.as_slice()
    }
}

/// The characteristics of one service of a static table.
pub struct GattChrs<const N: usize>(pub [ChrDef; N]);

impl<const N: usize> GattChrs<N> {
    pub fn new(defs: [ChrDef; N]) -> (r: Self)
        ensures
            r.0@ == defs@,
    {
        GattChrs(defs)
    }

    /// The characteristic definitions, the first of which a service
    /// definition refers to.
    pub fn as_ptr(&self) -> (r: &[ChrDef])
        ensures
            r@ == self.0@,
    {
        self.0.as_slice()
    }
}

/// Why a peer's subscription state changed.
#[derive(Clone, Copy, Debug, PartialEq, Eq, Structural)]
pub enum SubscribeReason {
    /// The peer wrote the characteristic's CCCD.
    Write,
    /// The connection is about to be terminated.
    Term,
    /// A bond was restored from persistence.
    Restore,
    /// A reason code unknown to this version of the crate.
    Other(u8),
}

impl SubscribeReason {
    /// Decodes a raw reason code.
    pub fn from_raw(reason: u8) -> (r: Self)
        ensures
            reason == BLE_GAP_SUBSCRIBE_REASON_WRITE ==> r == SubscribeReason::Write,
            reason == BLE_GAP_SUBSCRIBE_REASON_TERM ==> r == SubscribeReason::Term,
            reason == BLE_GAP_SUBSCRIBE_REASON_RESTORE ==> r == SubscribeReason::Restore,
            (reason != BLE_GAP_SUBSCRIBE_REASON_WRITE && reason != BLE_GAP_SUBSCRIBE_REASON_TERM
                && reason != BLE_GAP_SUBSCRIBE_REASON_RESTORE) ==> r == SubscribeReason::Other(
                reason,
            ),
    {
        if reason == BLE_GAP_SUBSCRIBE_REASON_WRITE {
            SubscribeReason::Write
        } else if reason == BLE_GAP_SUBSCRIBE_REASON_TERM {
            SubscribeReason::Term
        } else if reason == BLE_GAP_SUBSCRIBE_REASON_RESTORE {
            SubscribeReason::Restore
        } else {
            SubscribeReason::Other(reason)
        }
    }
}

/// A registration context as the host reports it: the operation, the UUID
/// of the registered definition, and the handles it was given.
#[derive(Clone, Copy, Debug)]
pub struct RawRegister {
    pub op: u8,
    pub uuid: BleUuid,
    /// The service or descriptor handle.
    pub handle: AttrHandle,
    pub def_handle: AttrHandle,
    pub val_handle: AttrHandle,
}

/// A GATT registration event.
#[derive(Clone, Copy, Debug, PartialEq, Eq, Structural)]
pub enum BleGattRegister {
    Service { uuid: BleUuid, handle: AttrHandle },
    Characteristic { uuid: BleUuid, def_handle: AttrHandle, val_handle: AttrHandle },
    Descriptor { uuid: BleUuid, handle: AttrHandle },
    Other,
}

impl BleGattRegister {
    /// Decodes a registration context.
    pub fn from(ctxt: &RawRegister) -> (r: Self)
        ensures
            ctxt.op == BLE_GATT_REGISTER_OP_SVC ==> r == (BleGattRegister::Service {
                uuid: ctxt.uuid,
                handle: ctxt.handle,
            }),
            ctxt.op == BLE_GATT_REGISTER_OP_CHR ==> r == (BleGattRegister::Characteristic {
                uuid: ctxt.uuid,
                def_handle: ctxt.def_handle,
                val_handle: ctxt.val_handle,
            }),
            ctxt.op == BLE_GATT_REGISTER_OP_DSC ==> r == (BleGattRegister::Descriptor {
                uuid: ctxt.uuid,
                handle: ctxt.handle,
            }),
            (ctxt.op != BLE_GATT_REGISTER_OP_SVC && ctxt.op != BLE_GATT_REGISTER_OP_CHR && ctxt.op
                != BLE_GATT_REGISTER_OP_DSC) ==> r == BleGattRegister::Other,
    {
        if ctxt.op == BLE_GATT_REGISTER_OP_SVC {
            BleGattRegister::Service { uuid: ctxt.uuid, handle: ctxt.handle }
        } else if ctxt.op == BLE_GATT_REGISTER_OP_CHR {
            BleGattRegister::Characteristic {
                uuid: ctxt.uuid,
                def_handle: ctxt.def_handle,
                val_handle: ctxt.val_handle,
            }
        } else if ctxt.op == BLE_GATT_REGISTER_OP_DSC {
            BleGattRegister::Descriptor { uuid: ctxt.uuid, handle: ctxt.handle }
        } else {
            BleGattRegister::Other
        }
    }
}

/// A GATT-server event, delivered to the single server hook.
#[derive(Clone, Copy, Debug)]
pub enum GattsEvent {
    Register(BleGattRegister),
    /// A peer (or a local read, with `CONN_HANDLE_NONE`) is reading one of
    /// our characteristics; the value is appended to `reply`.
    Read { conn_handle: ConnHandle, attr_handle: AttrHandle, offset: u16, reply: Mbuf },
    /// A peer wrote one of our characteristics.
    Write { conn_handle: ConnHandle, attr_handle: AttrHandle, data: Mbuf },
    /// A peer's subscription state for one of our characteristics changed.
    SubscriptionChanged {
        conn_handle: ConnHandle,
        attr_handle: AttrHandle,
        reason: SubscribeReason,
        prev_notify: bool,
        cur_notify: bool,
        prev_indicate: bool,
        cur_indicate: bool,
    },
    /// An indication/notification we sent completed.
    NotifyComplete { conn_handle: ConnHandle, attr_handle: AttrHandle, indication: bool, status: i32 },
}

impl GattsEvent {
    /// The server-role events of a GAP event: subscription changes and
    /// notification completions; `None` for any other type.
    pub fn from_gap(event: &RawGapEvent) -> (r: Option<Self>)
        ensures
            event.type_ == BLE_GAP_EVENT_SUBSCRIBE ==> (r matches Some(
                GattsEvent::SubscriptionChanged {
                    conn_handle,
                    attr_handle,
                    reason,
                    prev_notify,
                    cur_notify,
                    prev_indicate,
                    cur_indicate,
                },
            ) && conn_handle == event.conn_handle && attr_handle == event.attr_handle && reason
                == (if event.subscribe_reason == BLE_GAP_SUBSCRIBE_REASON_WRITE {
                SubscribeReason::Write
            } else if event.subscribe_reason == BLE_GAP_SUBSCRIBE_REASON_TERM {
                SubscribeReason::Term
            } else if event.subscribe_reason == BLE_GAP_SUBSCRIBE_REASON_RESTORE {
                SubscribeReason::Restore
            } else {
                SubscribeReason::Other(event.subscribe_reason)
            }) && prev_notify == event.prev_notify && cur_notify == event.cur_notify
                && prev_indicate == event.prev_indicate && cur_indicate == event.cur_indicate),
            event.type_ == BLE_GAP_EVENT_NOTIFY_TX ==> (r matches Some(
                GattsEvent::NotifyComplete { conn_handle, attr_handle, indication, status },
            ) && conn_handle == event.conn_handle && attr_handle == event.attr_handle
                && indication == event.indication && status == event.status),
            (event.type_ != BLE_GAP_EVENT_SUBSCRIBE && event.type_ != BLE_GAP_EVENT_NOTIFY_TX)
                ==> r is None,
    {
        if event.type_ == BLE_GAP_EVENT_SUBSCRIBE {
            Some(
                GattsEvent::SubscriptionChanged {
                    conn_handle: event.conn_handle,
                    attr_handle: event.attr_handle,
                    reason: SubscribeReason::from_raw(event.subscribe_reason),
                    prev_notify: event.prev_notify,
                    cur_notify: event.cur_notify,
                    prev_indicate: event.prev_indicate,
                    cur_indicate: event.cur_indicate,
                },
            )
        } else if event.type_ == BLE_GAP_EVENT_NOTIFY_TX {
            Some(
                GattsEvent::NotifyComplete {
                    conn_handle: event.conn_handle,
                    attr_handle: event.attr_handle,
                    indication: event.indication,
                    status: event.status,
                },
            )
        } else {
            None
        }
    }

    /// The event of a characteristic access routed through the shared
    /// access trampoline: reads and writes of a characteristic value;
    /// `None` (answered with `BLE_ATT_ERR_UNLIKELY`) for other operations.
    pub fn from_access(
        conn_handle: ConnHandle,
        attr_handle: AttrHandle,
        op: u8,
        offset: u16,
        om: usize,
    ) -> (r: Option<Self>)
        ensures
            op == BLE_GATT_ACCESS_OP_READ_CHR ==> (r matches Some(
                GattsEvent::Read { conn_handle: c, attr_handle: a, offset: o, reply },
            ) && c == conn_handle && a == attr_handle && o == offset && reply.spec_handle() == om),
            op == BLE_GATT_ACCESS_OP_WRITE_CHR ==> (r matches Some(
                GattsEvent::Write { conn_handle: c, attr_handle: a, data },
            ) && c == conn_handle && a == attr_handle && data.spec_handle() == om),
            (op != BLE_GATT_ACCESS_OP_READ_CHR && op != BLE_GATT_ACCESS_OP_WRITE_CHR) ==> r is None,
    {
        let mbuf = Mbuf::from_raw(om);
        if op == BLE_GATT_ACCESS_OP_READ_CHR {
            Some(GattsEvent::Read { conn_handle, attr_handle, offset, reply: mbuf })
        } else if op == BLE_GATT_ACCESS_OP_WRITE_CHR {
            Some(GattsEvent::Write { conn_handle, attr_handle, data: mbuf })
        } else {
            None
        }
    }
}

/// The status the access trampoline answers: the hook's status for a
/// served access, `BLE_ATT_ERR_UNLIKELY` when there is no hook or the
/// operation is not served.
pub fn access_status(hook_status: Option<u8>) -> (r: u8)
    ensures
        r == (match hook_status {
            Some(s) => s,
            None => BLE_ATT_ERR_UNLIKELY,
        }),
{
    match hook_status {
        Some(s) => s,
        None => BLE_ATT_ERR_UNLIKELY,
    }
}

} // verus!
