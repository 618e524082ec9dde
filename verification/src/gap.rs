//! GAP: connection events, advertising parameters and payload fields, and
//! the outcome of the GAP operations.
use vstd::prelude::*;

use vstd::string::StringSliceAdditionalSpecFns;
use crate::{BleAddr, BleError, ConnHandle, RawAddr, BLE_HS_EALREADY, BLE_HS_EINVAL};

verus! {

// The GAP event types (`BLE_GAP_EVENT_*`).
pub const BLE_GAP_EVENT_CONNECT: u8 = 0;

pub const BLE_GAP_EVENT_DISCONNECT: u8 = 1;

pub const BLE_GAP_EVENT_NOTIFY_RX: u8 = 12;

pub const BLE_GAP_EVENT_NOTIFY_TX: u8 = 13;

pub const BLE_GAP_EVENT_SUBSCRIBE: u8 = 14;

pub const BLE_GAP_EVENT_MTU: u8 = 15;

/// A GAP event as the host delivers it: its type, and the fields of the
/// type-specific payload that the decoders read.
#[derive(Clone, Copy, Debug)]
pub struct RawGapEvent {
    pub type_: u8,
    /// The connection of every connection event.
    pub conn_handle: ConnHandle,
    /// `connect.status`, `notify_tx.status`.
    pub status: i32,
    /// `disconnect.reason`.
    pub reason: i32,
    /// `mtu.value`.
    pub value: u16,
    /// `subscribe`/`notify_tx`/`notify_rx` attribute handle.
    pub attr_handle: u16,
    /// `subscribe.reason`.
    pub subscribe_reason: u8,
    pub prev_notify: bool,
    pub cur_notify: bool,
    pub prev_indicate: bool,
    pub cur_indicate: bool,
    /// `notify_tx`/`notify_rx`: an indication rather than a notification.
    pub indication: bool,
    /// `notify_rx.om`: the received value.
    pub om: usize,
}

/// Parameters for a legacy advertising procedure.
#[derive(Clone, Copy, Debug, Default)]
pub struct BleAdvParams {
    pub conn_mode: u8,
    pub disc_mode: u8,
    pub itvl_min: u16,
    pub itvl_max: u16,
    pub channel_map: u8,
    pub filter_policy: u8,
    pub high_duty_cycle: bool,
}

/// The raw advertising parameters the host takes (`ble_gap_adv_params`).
#[derive(Clone, Copy, Debug, PartialEq, Eq, Structural)]
pub struct RawAdvParams {
    pub conn_mode: u8,
    pub disc_mode: u8,
    pub itvl_min: u16,
    pub itvl_max: u16,
    pub channel_map: u8,
    pub filter_policy: u8,
    /// The one-bit `high_duty_cycle` field.
    pub high_duty_cycle: u8,
}

impl BleAdvParams {
    /// The raw parameters: every field copied, the duty-cycle flag as a bit.
    pub fn to_raw(&self) -> (r: RawAdvParams)
        ensures
            r == (RawAdvParams {
                conn_mode: self.conn_mode,
                disc_mode: self.disc_mode,
                itvl_min: self.itvl_min,
                itvl_max: self.itvl_max,
                channel_map: self.channel_map,
                filter_policy: self.filter_policy,
                high_duty_cycle: if self.high_duty_cycle {
                    1
                } else {
                    0
                },
            }),
    {
        RawAdvParams {
            conn_mode: self.conn_mode,
            disc_mode: self.disc_mode,
            itvl_min: self.itvl_min,
            itvl_max: self.itvl_max,
            channel_map: self.channel_map,
            filter_policy: self.filter_policy,
            high_duty_cycle: if self.high_duty_cycle {
                1
            } else {
                0
            },
        }
    }
}

/// Structured advertising payload.
#[derive(Clone, Copy, Debug, Default)]
pub struct BleAdvFields<'a> {
    pub flags: u8,
    pub name: Option<&'a str>,
    pub tx_power_level: Option<i8>,
    pub appearance: Option<u16>,
    pub service_data_uuid16: Option<&'a [u8]>,
    pub manufacturer_data: Option<&'a [u8]>,
}

/// The raw advertising fields the host encodes (`ble_hs_adv_fields`): the
/// data it points at, the 8-bit lengths, and the presence bits.
#[derive(Clone, Copy, Debug)]
pub struct RawAdvFields<'a> {
    pub flags: u8,
    pub name: Option<&'a [u8]>,
    pub name_len: u8,
    pub name_is_complete: u8,
    pub tx_pwr_lvl: i8,
    pub tx_pwr_lvl_is_present: u8,
    pub appearance: u16,
    pub appearance_is_present: u8,
    pub svc_data_uuid16: Option<&'a [u8]>,
    pub svc_data_uuid16_len: u8,
    pub mfg_data: Option<&'a [u8]>,
    pub mfg_data_len: u8,
}

impl<'a> BleAdvFields<'a> {
    /// The raw fields: absent fields zeroed; a name is complete, and the
    /// lengths are the byte lengths kept to their low eight bits.
    pub fn to_raw(&self) -> (r: RawAdvFields<'a>)
        ensures
            r.flags == self.flags,
            match self.name {
                Some(n) => (r.name matches Some(b) && b@ == n.spec_bytes()) && r.name_len == (
                n.spec_bytes().len() % 256) as u8 && r.name_is_complete == 1,
                None => r.name is None && r.name_len == 0 && r.name_is_complete == 0,
            },
            match self.tx_power_level {
                Some(t) => r.tx_pwr_lvl == t && r.tx_pwr_lvl_is_present == 1,
                None => r.tx_pwr_lvl == 0 && r.tx_pwr_lvl_is_present == 0,
            },
            match self.appearance {
                Some(a) => r.appearance == a && r.appearance_is_present == 1,
                None => r.appearance == 0 && r.appearance_is_present == 0,
            },
            match self.service_data_uuid16 {
                Some(d) => r.svc_data_uuid16 == Some(d) && r.svc_data_uuid16_len == (d@.len() % 256) as u8,
                None => r.svc_data_uuid16 is None && r.svc_data_uuid16_len == 0,
            },
            match self.manufacturer_data {
                Some(d) => r.mfg_data == Some(d) && r.mfg_data_len == (d@.len() % 256) as u8,
                None => r.mfg_data is None && r.mfg_data_len == 0,
            },
    {
        let mut raw = RawAdvFields {
            flags: self.flags,
            name: None,
            name_len: 0,
            name_is_complete: 0,
            tx_pwr_lvl: 0,
            tx_pwr_lvl_is_present: 0,
            appearance: 0,
            appearance_is_present: 0,
            svc_data_uuid16: None,
            svc_data_uuid16_len: 0,
            mfg_data: None,
            mfg_data_len: 0,
        };
        if let Some(name) = self.name {
            let bytes = name.as_bytes();
            raw.name = Some(bytes);
            raw.name_len = (bytes.len() % 256) as u8;
            raw.name_is_complete = 1;
        }
        if let Some(t) = self.tx_power_level {
            raw.tx_pwr_lvl = t;
            raw.tx_pwr_lvl_is_present = 1;
        }
        if let Some(a) = self.appearance {
            raw.appearance = a;
            raw.appearance_is_present = 1;
        }
        if let Some(d) = self.service_data_uuid16 {
            raw.svc_data_uuid16 = Some(d);
            raw.svc_data_uuid16_len = (d.len() % 256) as u8;
        }
        if let Some(d) = self.manufacturer_data {
            raw.mfg_data = Some(d);
            raw.mfg_data_len = (d.len() % 256) as u8;
        }
        raw
    }
}

/// Role-agnostic connection events (the server-role events are demuxed to
/// the GATT server hook, see [`route_gap_event`]).
#[derive(Clone, Copy, Debug)]
pub enum GapEvent {
    Connect { conn_handle: ConnHandle, status: Result<(), BleError> },
    Disconnect { conn_handle: ConnHandle, reason: BleError },
    Mtu { conn_handle: ConnHandle, value: u16 },
    Other,
}

impl GapEvent {
    /// Decodes a raw GAP event.
    pub fn from(event: &RawGapEvent) -> (r: Self)
        ensures
            event.type_ == BLE_GAP_EVENT_CONNECT ==> (r matches GapEvent::Connect {
                conn_handle,
                status,
            } && conn_handle == event.conn_handle && (event.status == 0 ==> status is Ok) && (
            event.status != 0 ==> (status matches Err(e) && e.spec_code() == event.status))),
            event.type_ == BLE_GAP_EVENT_DISCONNECT ==> (r matches GapEvent::Disconnect {
                conn_handle,
                reason,
            } && conn_handle == event.conn_handle && reason.spec_code() == event.reason),
            event.type_ == BLE_GAP_EVENT_MTU ==> r == (GapEvent::Mtu {
                conn_handle: event.conn_handle,
                value: event.value,
            }),
            event.type_ != BLE_GAP_EVENT_CONNECT && event.type_ != BLE_GAP_EVENT_DISCONNECT
                && event.type_ != BLE_GAP_EVENT_MTU ==> r is Other,
    {
        if event.type_ == BLE_GAP_EVENT_CONNECT {
            GapEvent::Connect { conn_handle: event.conn_handle, status: BleError::check(event.status) }
        } else if event.type_ == BLE_GAP_EVENT_DISCONNECT {
            GapEvent::Disconnect { conn_handle: event.conn_handle, reason: BleError::new(event.reason) }
        } else if event.type_ == BLE_GAP_EVENT_MTU {
            GapEvent::Mtu { conn_handle: event.conn_handle, value: event.value }
        } else {
            GapEvent::Other
        }
    }
}

/// Where the connection event callback delivers a GAP event: NimBLE
/// multiplexes role-specific events onto it.
#[derive(Clone, Copy, Debug, PartialEq, Eq, Structural)]
pub enum GapRoute {
    /// Subscription changes and notification completions: the GATT server
    /// hook.
    GattServer,
    /// Received notifications and indications: the GATT client hook.
    GattClient,
    /// Everything else: the GAP hook.
    Gap,
}

/// Routes a GAP event of type `type_`.
pub fn route_gap_event(type_: u8) -> (r: GapRoute)
    ensures
        (type_ == BLE_GAP_EVENT_SUBSCRIBE || type_ == BLE_GAP_EVENT_NOTIFY_TX) ==> r
            == GapRoute::GattServer,
        type_ == BLE_GAP_EVENT_NOTIFY_RX ==> r == GapRoute::GattClient,
        (type_ != BLE_GAP_EVENT_SUBSCRIBE && type_ != BLE_GAP_EVENT_NOTIFY_TX && type_
            != BLE_GAP_EVENT_NOTIFY_RX) ==> r == GapRoute::Gap,
{
    if type_ == BLE_GAP_EVENT_SUBSCRIBE || type_ == BLE_GAP_EVENT_NOTIFY_TX {
        GapRoute::GattServer
    } else if type_ == BLE_GAP_EVENT_NOTIFY_RX {
        GapRoute::GattClient
    } else {
        GapRoute::Gap
    }
}

/// The status the connection event callback returns to the host: 0 for the
/// GATT server and client routes, whose hooks return nothing; for the GAP
/// route, the GAP hook's status, or 0 with no GAP hook.
pub open spec fn spec_gap_event_outcome(route: GapRoute, hook_status: Option<i32>) -> i32 {
    match route {
        GapRoute::Gap => match hook_status {
            Some(s) => s,
            None => 0,
        },
        _ => 0,
    }
}

/// What the connection event callback returns to the host after routing an
/// event: `hook_status` is the status the GAP hook returned, or `None` when
/// no GAP hook is subscribed.
pub fn gap_event_outcome(route: GapRoute, hook_status: Option<i32>) -> (r: i32)
    ensures
        r == spec_gap_event_outcome(route, hook_status),
{
    match route {
        GapRoute::Gap => match hook_status {
            Some(s) => s,
            None => 0,
        },
        _ => 0,
    }
}

/// A raw connection descriptor: the fields the safe view reads.
#[derive(Clone, Copy, Debug)]
pub struct RawConnDesc {
    pub conn_handle: ConnHandle,
    pub peer_id_addr: RawAddr,
}

/// A connection descriptor.
#[derive(Clone, Copy, Debug)]
pub struct BleConnDesc(pub RawConnDesc);

impl BleConnDesc {
    /// The peer's identity address.
    pub fn peer_addr(&self) -> (r: BleAddr)
        ensures
            r.spec_raw().type_ == self.0.peer_id_addr.type_,
            r.spec_raw().val == self.0.peer_id_addr.val,
    {
        BleAddr::new(self.0.peer_id_addr.type_, self.0.peer_id_addr.val)
    }
}

/// The outcome of starting to advertise, from the host's return code:
/// already advertising counts as success.
pub fn adv_start_result(rc: i32) -> (r: Result<(), BleError>)
    ensures
        (rc == 0 || rc == BLE_HS_EALREADY) ==> r is Ok,
        (rc != 0 && rc != BLE_HS_EALREADY) ==> (r matches Err(e) && e.spec_code() == rc),
{
    if rc == BLE_HS_EALREADY {
        return Ok(());
    }
    BleError::check(rc)
}

/// The NUL-terminated 64-byte buffer the device name is handed over in: an
/// error (`EINVAL`) for a name of 64 bytes or more, or one holding a NUL.
pub fn device_name_buffer(name: &str) -> (r: Result<Vec<u8>, BleError>)
    ensures
        (name.spec_bytes().len() >= 64 || name.spec_bytes().contains(0u8)) ==> (r matches Err(e)
            && e.spec_code() == BLE_HS_EINVAL),
        (name.spec_bytes().len() < 64 && !name.spec_bytes().contains(0u8)) ==> (r matches Ok(buf)
            && buf@.len() == 64 && buf@.subrange(0, name.spec_bytes().len() as int)
            == name.spec_bytes() && forall|i: int|
            name.spec_bytes().len() <= i < 64 ==> buf@[i] == 0u8),
{
    let bytes = name.as_bytes();
    if bytes.len() >= 64 {
        return Err(BleError::new(BLE_HS_EINVAL));
    }
    let mut i: usize = 0;
    while i < bytes.len()
        invariant
            i <= bytes@.len(),
            bytes@ == name.spec_bytes(),
            forall|j: int| 0 <= j < i ==> bytes@[j] != 0u8,
        decreases bytes@.len() - i,
    {
        if bytes[i] == 0 {
            assert(bytes@[i as int] == 0u8);
            assert(bytes@.contains(0u8));
            return Err(BleError::new(BLE_HS_EINVAL));
        }
        i = i + 1;
    }
    assert(!bytes@.contains(0u8));
    let mut buf: Vec<u8> = Vec::new();
    let mut k: usize = 0;
    while k < 64
        invariant
            k <= 64,
            bytes@.len() < 64,
            buf@.len() == k,
            forall|j: int| 0 <= j < k ==> #[trigger] buf@[j] == (if j < bytes@.len() {
                bytes@[j]
            } else {
                0u8
            }),
        decreases 64 - k,
    {
        if k < bytes.len() {
            buf.push(bytes[k]);
        } else {
            buf.push(0);
        }
        k = k + 1;
    }
    assert(buf@.subrange(0, bytes@.len() as int) =~= bytes@);
    Ok(buf)
}

} // verus!
