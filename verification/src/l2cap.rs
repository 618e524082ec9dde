//! L2CAP connection-oriented channels (CoC): the channel events, and who
//! owns an SDU buffer after each channel operation.
//!
//! Flow control is credit-based and manual: after a received SDU the peer's
//! credits are replenished by making a new receive buffer ready; a send
//! that runs out of credits reports [`SendOutcome::Stalled`] and resumes on
//! [`L2capEvent::TxUnstalled`].
use vstd::prelude::*;

use crate::mbuf::Mbuf;
use crate::{BleError, ConnHandle, BLE_HS_EBADDATA, BLE_HS_EBUSY, BLE_HS_EINVAL, BLE_HS_ENOTCONN, BLE_HS_ESTALLED};

verus! {

// The channel event types (`BLE_L2CAP_EVENT_COC_*`).
pub const BLE_L2CAP_EVENT_COC_CONNECTED: u8 = 0;

pub const BLE_L2CAP_EVENT_COC_DISCONNECTED: u8 = 1;

pub const BLE_L2CAP_EVENT_COC_ACCEPT: u8 = 2;

pub const BLE_L2CAP_EVENT_COC_DATA_RECEIVED: u8 = 3;

pub const BLE_L2CAP_EVENT_COC_TX_UNSTALLED: u8 = 4;

pub const BLE_L2CAP_EVENT_COC_RECONFIG_COMPLETED: u8 = 5;

pub const BLE_L2CAP_EVENT_COC_PEER_RECONFIGURED: u8 = 6;

/// An opaque handle to an open L2CAP channel (the channel's address). It is
/// valid from the event that opens the channel until its `Disconnected`.
#[derive(Clone, Copy, Debug, PartialEq, Eq, Structural)]
pub struct L2capChan(pub usize);

/// The result of a non-erroring send.
#[derive(Clone, Copy, Debug, PartialEq, Eq, Structural)]
pub enum SendOutcome {
    /// The whole SDU was handed to the controller.
    Sent,
    /// Ran out of peer credits mid-SDU; the rest is sent once
    /// [`L2capEvent::TxUnstalled`] fires.
    Stalled,
}

/// An L2CAP event as the host delivers it: its type, and the fields of the
/// type-specific payload.
#[derive(Clone, Copy, Debug)]
pub struct RawL2capEvent {
    pub type_: u8,
    pub conn_handle: ConnHandle,
    pub status: i32,
    pub chan: usize,
    pub peer_sdu_size: u16,
    /// `receive.sdu_rx`: the received SDU.
    pub sdu_rx: usize,
}

/// An L2CAP CoC event, delivered to the single L2CAP hook.
#[derive(Clone, Copy, Debug)]
pub enum L2capEvent {
    Connected { conn_handle: ConnHandle, status: i32, chan: L2capChan },
    Disconnected { conn_handle: ConnHandle, chan: L2capChan },
    Accept { conn_handle: ConnHandle, peer_sdu_size: u16, chan: L2capChan },
    Received { conn_handle: ConnHandle, chan: L2capChan, data: Mbuf },
    TxUnstalled { conn_handle: ConnHandle, status: i32, chan: L2capChan },
    Reconfigured { conn_handle: ConnHandle, status: i32, chan: L2capChan, by_peer: bool },
}

impl L2capEvent {
    /// Decodes a raw L2CAP event; `None` for the types not modelled.
    pub fn from_raw(event: &RawL2capEvent) -> (r: Option<Self>)
        ensures
            event.type_ == BLE_L2CAP_EVENT_COC_CONNECTED ==> r == Some(
                L2capEvent::Connected {
                    conn_handle: event.conn_handle,
                    status: event.status,
                    chan: L2capChan(event.chan),
                },
            ),
            event.type_ == BLE_L2CAP_EVENT_COC_DISCONNECTED ==> r == Some(
                L2capEvent::Disconnected { conn_handle: event.conn_handle, chan: L2capChan(event.chan) },
            ),
            event.type_ == BLE_L2CAP_EVENT_COC_ACCEPT ==> r == Some(
                L2capEvent::Accept {
                    conn_handle: event.conn_handle,
                    peer_sdu_size: event.peer_sdu_size,
                    chan: L2capChan(event.chan),
                },
            ),
            event.type_ == BLE_L2CAP_EVENT_COC_DATA_RECEIVED ==> (r matches Some(
                L2capEvent::Received { conn_handle, chan, data },
            ) && conn_handle == event.conn_handle && chan == L2capChan(event.chan)
                && data.spec_handle() == event.sdu_rx),
            event.type_ == BLE_L2CAP_EVENT_COC_TX_UNSTALLED ==> r == Some(
                L2capEvent::TxUnstalled {
                    conn_handle: event.conn_handle,
                    status: event.status,
                    chan: L2capChan(event.chan),
                },
            ),
            (event.type_ == BLE_L2CAP_EVENT_COC_RECONFIG_COMPLETED || event.type_
                == BLE_L2CAP_EVENT_COC_PEER_RECONFIGURED) ==> r == Some(
                L2capEvent::Reconfigured {
                    conn_handle: event.conn_handle,
                    status: event.status,
                    chan: L2capChan(event.chan),
                    by_peer: event.type_ == BLE_L2CAP_EVENT_COC_PEER_RECONFIGURED,
                },
            ),
            event.type_ > BLE_L2CAP_EVENT_COC_PEER_RECONFIGURED ==> r is None,
    {
        let chan = L2capChan(event.chan);
        if event.type_ == BLE_L2CAP_EVENT_COC_CONNECTED {
            Some(L2capEvent::Connected { conn_handle: event.conn_handle, status: event.status, chan })
        } else if event.type_ == BLE_L2CAP_EVENT_COC_DISCONNECTED {
            Some(L2capEvent::Disconnected { conn_handle: event.conn_handle, chan })
        } else if event.type_ == BLE_L2CAP_EVENT_COC_ACCEPT {
            Some(
                L2capEvent::Accept {
                    conn_handle: event.conn_handle,
                    peer_sdu_size: event.peer_sdu_size,
                    chan,
                },
            )
        } else if event.type_ == BLE_L2CAP_EVENT_COC_DATA_RECEIVED {
            Some(
                L2capEvent::Received {
                    conn_handle: event.conn_handle,
                    chan,
                    data: Mbuf::from_raw(event.sdu_rx),
                },
            )
        } else if event.type_ == BLE_L2CAP_EVENT_COC_TX_UNSTALLED {
            Some(L2capEvent::TxUnstalled { conn_handle: event.conn_handle, status: event.status, chan })
        } else if event.type_ == BLE_L2CAP_EVENT_COC_RECONFIG_COMPLETED || event.type_
            == BLE_L2CAP_EVENT_COC_PEER_RECONFIGURED {
            Some(
                L2capEvent::Reconfigured {
                    conn_handle: event.conn_handle,
                    status: event.status,
                    chan,
                    by_peer: event.type_ == BLE_L2CAP_EVENT_COC_PEER_RECONFIGURED,
                },
            )
        } else {
            None
        }
    }
}

/// What the L2CAP event callback does after dispatching: the status it
/// returns (the hook's, 0 when there is no hook or the event is not
/// modelled) and the received SDU it must free (a received SDU is ours
/// after dispatch).
pub fn event_callback_outcome(event: &RawL2capEvent, hook_status: Option<i32>) -> (r: (i32, Option<usize>))
    ensures
        r.0 == (match hook_status {
            Some(s) => s,
            None => 0i32,
        }),
        event.type_ == BLE_L2CAP_EVENT_COC_DATA_RECEIVED ==> r.1 == Some(event.sdu_rx),
        event.type_ != BLE_L2CAP_EVENT_COC_DATA_RECEIVED ==> r.1 is None,
{
    let status = match hook_status {
        Some(s) => s,
        None => 0,
    };
    let free = if event.type_ == BLE_L2CAP_EVENT_COC_DATA_RECEIVED {
        Some(event.sdu_rx)
    } else {
        None
    };
    (status, free)
}

/// The outcome of sending an SDU, from the host's return code: the result,
/// and whether the SDU buffer is still ours to free (the host takes it
/// except on its two pre-ownership returns, `EBADDATA` and `EBUSY`).
pub fn send_outcome(rc: i32) -> (r: (Result<SendOutcome, BleError>, bool))
    ensures
        rc == 0 ==> r.0 == Ok::<SendOutcome, BleError>(SendOutcome::Sent),
        rc == BLE_HS_ESTALLED ==> r.0 == Ok::<SendOutcome, BleError>(SendOutcome::Stalled),
        (rc != 0 && rc != BLE_HS_ESTALLED) ==> (r.0 matches Err(e) && e.spec_code() == rc),
        r.1 == (rc == BLE_HS_EBADDATA || rc == BLE_HS_EBUSY),
{
    if rc == 0 {
        (Ok(SendOutcome::Sent), false)
    } else if rc == BLE_HS_ESTALLED {
        (Ok(SendOutcome::Stalled), false)
    } else {
        let free = rc == BLE_HS_EBADDATA || rc == BLE_HS_EBUSY;
        (Err(BleError::new(rc)), free)
    }
}

/// Whether a failed connect leaves its receive buffer with us: only on the
/// host's two pre-allocation failures, `ENOTCONN` and `EINVAL`.
pub fn connect_frees_sdu(rc: i32) -> (r: bool)
    ensures
        r == (rc == BLE_HS_ENOTCONN || rc == BLE_HS_EINVAL),
{
    rc == BLE_HS_ENOTCONN || rc == BLE_HS_EINVAL
}

/// Whether a failed receive-ready leaves its buffer with us: only on the
/// host's pre-store `EBUSY` and `EINVAL`.
pub fn recv_ready_frees_sdu(rc: i32) -> (r: bool)
    ensures
        r == (rc == BLE_HS_EBUSY || rc == BLE_HS_EINVAL),
{
    rc == BLE_HS_EBUSY || rc == BLE_HS_EINVAL
}

} // verus!
