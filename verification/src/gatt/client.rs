//! GATT client: discovered services and characteristics, and the client
//! events. Every client operation completes later through one shared hook,
//! correlated by connection handle; received notifications arrive on the
//! connection's GAP callback and are demuxed here.
use vstd::prelude::*;

use crate::gap::RawGapEvent;
use crate::gatt::AttrHandle;
use crate::mbuf::Mbuf;
use crate::{spec_uuid_from_raw, BleUuid, ConnHandle, BLE_UUID_TYPE_128};

verus! {

/// A remote service discovered on a peer (safe view of `ble_gatt_svc`).
#[derive(Clone, Copy, Debug, PartialEq, Eq, Structural)]
pub struct GattcService {
    pub start_handle: AttrHandle,
    pub end_handle: AttrHandle,
    pub uuid: BleUuid,
}

impl GattcService {
    /// The service with the given handle range, its UUID read from the raw
    /// UUID the host reports (its type, then its little-endian body).
    pub fn from(start_handle: AttrHandle, end_handle: AttrHandle, uuid_type: u8, uuid_body: &[u8]) -> (r:
        Self)
        requires
            uuid_body@.len() >= (if uuid_type == BLE_UUID_TYPE_128 {
                16int
            } else {
                2int
            }),
        ensures
            r == (GattcService {
                start_handle,
                end_handle,
                uuid: spec_uuid_from_raw(uuid_type, uuid_body@),
            }),
    {
        GattcService { start_handle, end_handle, uuid: BleUuid::from_raw(uuid_type, uuid_body) }
    }
}

/// A remote characteristic discovered on a peer (safe view of
/// `ble_gatt_chr`).
#[derive(Clone, Copy, Debug, PartialEq, Eq, Structural)]
pub struct GattcChr {
    pub def_handle: AttrHandle,
    pub val_handle: AttrHandle,
    /// Characteristic properties bitmask (`BLE_GATT_CHR_PROP_*`).
    pub properties: u8,
    pub uuid: BleUuid,
}

impl GattcChr {
    /// The characteristic with the given handles and properties, its UUID
    /// read from the raw UUID the host reports.
    pub fn from(
        def_handle: AttrHandle,
        val_handle: AttrHandle,
        properties: u8,
        uuid_type: u8,
        uuid_body: &[u8],
    ) -> (r: Self)
        requires
            uuid_body@.len() >= (if uuid_type == BLE_UUID_TYPE_128 {
                16int
            } else {
                2int
            }),
        ensures
            r == (GattcChr {
                def_handle,
                val_handle,
                properties,
                uuid: spec_uuid_from_raw(uuid_type, uuid_body@),
            }),
    {
        GattcChr {
            def_handle,
            val_handle,
            properties,
            uuid: BleUuid::from_raw(uuid_type, uuid_body),
        }
    }
}

/// A GATT-client event, delivered to the single client hook. Discovery
/// fires once per discovered item and once more with `None` on completion.
#[derive(Clone, Copy, Debug)]
pub enum GattcEvent {
    Service { conn_handle: ConnHandle, status: u16, service: Option<GattcService> },
    Characteristic { conn_handle: ConnHandle, status: u16, chr: Option<GattcChr> },
    ReadComplete { conn_handle: ConnHandle, status: u16, attr_handle: AttrHandle, data: Mbuf },
    WriteComplete { conn_handle: ConnHandle, status: u16, attr_handle: AttrHandle },
    Notify { conn_handle: ConnHandle, attr_handle: AttrHandle, indication: bool, data: Mbuf },
}

/// The status of a GATT procedure callback: that of its error, 0 when it
/// carries none.
pub fn error_status(error: Option<u16>) -> (r: u16)
    ensures
        r == (match error {
            Some(s) => s,
            None => 0,
        }),
{
    match error {
        Some(s) => s,
        None => 0,
    }
}

impl GattcEvent {
    /// A received notification or indication, from the GAP event that
    /// carries it.
    pub fn from_notify_rx(event: &RawGapEvent) -> (r: Self)
        ensures
            r matches GattcEvent::Notify { conn_handle, attr_handle, indication, data }
                && conn_handle == event.conn_handle && attr_handle == event.attr_handle
                && indication == event.indication && data.spec_handle() == event.om,
    {
        GattcEvent::Notify {
            conn_handle: event.conn_handle,
            attr_handle: event.attr_handle,
            indication: event.indication,
            data: Mbuf::from_raw(event.om),
        }
    }

    /// The completion of a read: the attribute's handle and value when the
    /// callback carries an attribute, handle 0 and no buffer otherwise.
    pub fn read_complete(conn_handle: ConnHandle, error: Option<u16>, attr: Option<(AttrHandle, usize)>) -> (r:
        Self)
        ensures
            r matches GattcEvent::ReadComplete { conn_handle: c, status, attr_handle, data }
                && c == conn_handle && status == (match error {
                Some(s) => s,
                None => 0u16,
            }) && attr_handle == (match attr {
                Some(a) => a.0,
                None => 0u16,
            }) && data.spec_handle() == (match attr {
                Some(a) => a.1,
                None => 0usize,
            }),
    {
        let (attr_handle, om) = match attr {
            Some(a) => a,
            None => (0, 0),
        };
        GattcEvent::ReadComplete {
            conn_handle,
            status: error_status(error),
            attr_handle,
            data: Mbuf::from_raw(om),
        }
    }

    /// The completion of a write: the attribute's handle when the callback
    /// carries an attribute, 0 otherwise.
    pub fn write_complete(conn_handle: ConnHandle, error: Option<u16>, attr: Option<AttrHandle>) -> (r:
        Self)
        ensures
            r == (GattcEvent::WriteComplete {
                conn_handle,
                status: match error {
                    Some(s) => s,
                    None => 0u16,
                },
                attr_handle: match attr {
                    Some(a) => a,
                    None => 0u16,
                },
            }),
    {
        GattcEvent::WriteComplete {
            conn_handle,
            status: error_status(error),
            attr_handle: match attr {
                Some(a) => a,
                None => 0,
            },
        }
    }
}

} // verus!
