//! The driver's own state: the claim that makes it a singleton, and the
//! callbacks subscribed to the host's events.
//!
//! The host reaches its callbacks from C with no driver in hand, so there is
//! one driver per process: a second one is refused while the first exists,
//! and closing the driver unsubscribes everything and frees the claim.
use vstd::prelude::*;
use crate::{BleError, BLE_HS_EALREADY, BLE_HS_ENOMEM, CallbackSlot};
use crate::gap::{spec_gap_event_outcome, GapRoute};

verus! {

/// Whether a driver exists in this process.
pub struct DriverSlot {
    taken: bool,
}

/// What claiming the driver slot gives: refused with `EALREADY` while a
/// driver exists; otherwise granted, and the slot becomes taken.
pub open spec fn spec_claim(taken: bool) -> Result<(), BleError> {
    if taken {
        Err(BleError::spec_new(BLE_HS_EALREADY))
    } else {
        Ok(())
    }
}

impl DriverSlot {
    /// Whether a driver holds the slot.
    pub closed spec fn is_taken(&self) -> bool {
        self.taken
    }

    /// A free slot.
    pub fn new() -> (r: Self)
        ensures
            !r.is_taken(),
    {
        DriverSlot { taken: false }
    }

    /// Claims the slot for a new driver: refused while a driver exists. The
    /// slot is taken afterwards either way.
    pub fn claim(&mut self) -> (r: Result<(), BleError>)
        ensures
            final(self).is_taken(),
            r == spec_claim(old(self).is_taken()),
    {
        if self.taken {
            return Err(BleError::new(BLE_HS_EALREADY));
        }
        self.taken = true;
        Ok(())
    }

    /// What follows the port's initialization once the slot is claimed: a
    /// port that failed frees the slot again and refuses the driver with
    /// `ENOMEM`.
    pub fn port_ready(&mut self, port_ok: bool) -> (r: Result<(), BleError>)
        requires
            old(self).is_taken(),
        ensures
            final(self).is_taken() == port_ok,
            r == (if port_ok {
                Ok::<(), BleError>(())
            } else {
                Err(BleError::spec_new(BLE_HS_ENOMEM))
            }),
    {
        if !port_ok {
            self.taken = false;
            return Err(BleError::new(BLE_HS_ENOMEM));
        }
        Ok(())
    }

    /// Frees the slot.
    pub fn release(&mut self)
        ensures
            !final(self).is_taken(),
    {
        self.taken = false;
    }
}

/// The host calls that register a service table, in order: counting the
/// table's attributes, then adding its services.
#[derive(Clone, Copy, Debug, PartialEq, Eq, Structural)]
pub enum RegisterCall {
    CountCfg,
    AddSvcs,
}

/// What follows a registration call: the next call, or the outcome.
#[derive(Clone, Copy, Debug)]
pub enum RegisterStep {
    Call(RegisterCall),
    Done(Result<(), BleError>),
}

/// The step after `call` returned `rc`: a nonzero code ends the chain with
/// that error (no later call is made), 0 goes on to the next call or ends it.
pub open spec fn spec_register_step(call: RegisterCall, rc: i32) -> RegisterStep {
    if rc != 0 {
        RegisterStep::Done(Err(BleError::spec_new(rc)))
    } else {
        match call {
            RegisterCall::CountCfg => RegisterStep::Call(RegisterCall::AddSvcs),
            RegisterCall::AddSvcs => RegisterStep::Done(Ok(())),
        }
    }
}

/// Decides what follows a registration call that returned `rc`; the chain
/// starts with `CountCfg`.
pub fn register_step(call: RegisterCall, rc: i32) -> (r: RegisterStep)
    ensures
        r == spec_register_step(call, rc),
{
    match BleError::check(rc) {
        Err(e) => RegisterStep::Done(Err(e)),
        Ok(()) => match call {
            RegisterCall::CountCfg => RegisterStep::Call(RegisterCall::AddSvcs),
            RegisterCall::AddSvcs => RegisterStep::Done(Ok(())),
        },
    }
}

/// The host calls that produce the identity address, in order: ensuring an
/// address exists, inferring its type, copying out the address of that type.
#[derive(Clone, Copy, Debug, PartialEq, Eq, Structural)]
pub enum AddressCall {
    EnsureAddr,
    InferType,
    CopyAddr { addr_type: u8 },
}

/// What follows an address call: the next call, or the outcome.
#[derive(Clone, Copy, Debug)]
pub enum AddressStep {
    Call(AddressCall),
    Done(Result<([u8; 6], u8), BleError>),
}

/// The step after `call` returned `rc` (with `inferred_type` the type an
/// `InferType` call wrote, `addr` the address a `CopyAddr` call wrote): a
/// nonzero code ends the chain with that error, 0 goes on to the next call,
/// and a successful copy gives the address with its type.
pub open spec fn spec_address_step(
    call: AddressCall,
    rc: i32,
    inferred_type: u8,
    addr: [u8; 6],
) -> AddressStep {
    if rc != 0 {
        AddressStep::Done(Err(BleError::spec_new(rc)))
    } else {
        match call {
            AddressCall::EnsureAddr => AddressStep::Call(AddressCall::InferType),
            AddressCall::InferType => AddressStep::Call(
                AddressCall::CopyAddr { addr_type: inferred_type },
            ),
            AddressCall::CopyAddr { addr_type } => AddressStep::Done(Ok((addr, addr_type))),
        }
    }
}

/// Decides what follows an address call that returned `rc`; the chain starts
/// with `EnsureAddr`.
pub fn address_step(call: AddressCall, rc: i32, inferred_type: u8, addr: [u8; 6]) -> (r:
    AddressStep)
    ensures
        r == spec_address_step(call, rc, inferred_type, addr),
{
    match BleError::check(rc) {
        Err(e) => AddressStep::Done(Err(e)),
        Ok(()) => match call {
            AddressCall::EnsureAddr => AddressStep::Call(AddressCall::InferType),
            AddressCall::InferType => AddressStep::Call(
                AddressCall::CopyAddr { addr_type: inferred_type },
            ),
            AddressCall::CopyAddr { addr_type } => AddressStep::Done(Ok((addr, addr_type))),
        },
    }
}

/// The host driver: the service table it keeps alive for the host, and the
/// subscribed callbacks for host events (`H`), GAP events (`G`), GATT server
/// events (`T`), GATT client events (`C`) and L2CAP events (`L`).
pub struct BleDriver<S, H, G, T, C, L> {
    services: S,
    host: CallbackSlot<H>,
    gap: CallbackSlot<G>,
    gatts: CallbackSlot<T>,
    gattc: CallbackSlot<C>,
    l2cap: CallbackSlot<L>,
}

impl<S, H, G, T, C, L> BleDriver<S, H, G, T, C, L> {
    /// The service table.
    pub closed spec fn services(&self) -> S {
        self.services
    }

    /// The host event callback.
    pub closed spec fn host_cb(&self) -> Option<H> {
        self.host@
    }

    /// The GAP event callback.
    pub closed spec fn gap_cb(&self) -> Option<G> {
        self.gap@
    }

    /// The GATT server event callback.
    pub closed spec fn gatts_cb(&self) -> Option<T> {
        self.gatts@
    }

    /// The GATT client event callback.
    pub closed spec fn gattc_cb(&self) -> Option<C> {
        self.gattc@
    }

    /// The L2CAP event callback.
    pub closed spec fn l2cap_cb(&self) -> Option<L> {
        self.l2cap@
    }

    /// Nothing is subscribed.
    pub open spec fn unsubscribed(&self) -> bool {
        &&& self.host_cb() is None
        &&& self.gap_cb() is None
        &&& self.gatts_cb() is None
        &&& self.gattc_cb() is None
        &&& self.l2cap_cb() is None
    }

    /// Creates a driver over `services` once the slot is claimed, with nothing
    /// subscribed.
    fn with_services(services: S) -> (r: Self)
        ensures
            r.services() == services,
            r.unsubscribed(),
    {
        BleDriver {
            services,
            host: CallbackSlot::new(),
            gap: CallbackSlot::new(),
            gatts: CallbackSlot::new(),
            gattc: CallbackSlot::new(),
            l2cap: CallbackSlot::new(),
        }
    }

    /// Creates the driver with a GATT service table, once the slot is claimed
    /// and the port is ready, from the outcome of registering the table (the
    /// `register_step` chain). A failed registration frees the slot again.
    pub fn new_with_services(
        slot: &mut DriverSlot,
        services: S,
        registration: Result<(), BleError>,
    ) -> (r: Result<Self, BleError>)
        requires
            old(slot).is_taken(),
        ensures
            match registration {
                Err(e) => r == Err::<Self, BleError>(e) && !final(slot).is_taken(),
                Ok(()) => final(slot).is_taken() && (r matches Ok(d) && d.services() == services
                    && d.unsubscribed()),
            },
    {
        match registration {
            Err(e) => {
                slot.release();
                Err(e)
            },
            Ok(()) => Ok(Self::with_services(services)),
        }
    }

    /// Subscribes to host events.
    pub fn host_subscribe(&mut self, callback: H)
        ensures
            final(self).host_cb() == Some(callback),
            final(self).gap_cb() == old(self).gap_cb(),
            final(self).gatts_cb() == old(self).gatts_cb(),
            final(self).gattc_cb() == old(self).gattc_cb(),
            final(self).l2cap_cb() == old(self).l2cap_cb(),
            final(self).services() == old(self).services(),
    {
        self.host.set(Some(callback));
    }

    /// Subscribes to GAP events.
    pub fn gap_subscribe(&mut self, callback: G)
        ensures
            final(self).gap_cb() == Some(callback),
            final(self).host_cb() == old(self).host_cb(),
            final(self).gatts_cb() == old(self).gatts_cb(),
            final(self).gattc_cb() == old(self).gattc_cb(),
            final(self).l2cap_cb() == old(self).l2cap_cb(),
            final(self).services() == old(self).services(),
    {
        self.gap.set(Some(callback));
    }

    /// Unsubscribes from GAP events.
    pub fn gap_unsubscribe(&mut self)
        ensures
            final(self).gap_cb() is None,
            final(self).host_cb() == old(self).host_cb(),
            final(self).gatts_cb() == old(self).gatts_cb(),
            final(self).gattc_cb() == old(self).gattc_cb(),
            final(self).l2cap_cb() == old(self).l2cap_cb(),
            final(self).services() == old(self).services(),
    {
        self.gap.set(None);
    }

    /// Subscribes to GATT server events (registrations, accesses,
    /// subscriptions, notification completions).
    pub fn gatts_subscribe(&mut self, callback: T)
        ensures
            final(self).gatts_cb() == Some(callback),
            final(self).host_cb() == old(self).host_cb(),
            final(self).gap_cb() == old(self).gap_cb(),
            final(self).gattc_cb() == old(self).gattc_cb(),
            final(self).l2cap_cb() == old(self).l2cap_cb(),
            final(self).services() == old(self).services(),
    {
        self.gatts.set(Some(callback));
    }

    /// Unsubscribes from GATT server events.
    pub fn gatts_unsubscribe(&mut self)
        ensures
            final(self).gatts_cb() is None,
            final(self).host_cb() == old(self).host_cb(),
            final(self).gap_cb() == old(self).gap_cb(),
            final(self).gattc_cb() == old(self).gattc_cb(),
            final(self).l2cap_cb() == old(self).l2cap_cb(),
            final(self).services() == old(self).services(),
    {
        self.gatts.set(None);
    }

    /// Subscribes to GATT client events (received notifications and
    /// indications).
    pub fn gattc_subscribe(&mut self, callback: C)
        ensures
            final(self).gattc_cb() == Some(callback),
            final(self).host_cb() == old(self).host_cb(),
            final(self).gap_cb() == old(self).gap_cb(),
            final(self).gatts_cb() == old(self).gatts_cb(),
            final(self).l2cap_cb() == old(self).l2cap_cb(),
            final(self).services() == old(self).services(),
    {
        self.gattc.set(Some(callback));
    }

    /// Unsubscribes from GATT client events.
    pub fn gattc_unsubscribe(&mut self)
        ensures
            final(self).gattc_cb() is None,
            final(self).host_cb() == old(self).host_cb(),
            final(self).gap_cb() == old(self).gap_cb(),
            final(self).gatts_cb() == old(self).gatts_cb(),
            final(self).l2cap_cb() == old(self).l2cap_cb(),
            final(self).services() == old(self).services(),
    {
        self.gattc.set(None);
    }

    /// Subscribes to L2CAP channel events.
    pub fn l2cap_subscribe(&mut self, callback: L)
        ensures
            final(self).l2cap_cb() == Some(callback),
            final(self).host_cb() == old(self).host_cb(),
            final(self).gap_cb() == old(self).gap_cb(),
            final(self).gatts_cb() == old(self).gatts_cb(),
            final(self).gattc_cb() == old(self).gattc_cb(),
            final(self).services() == old(self).services(),
    {
        self.l2cap.set(Some(callback));
    }

    /// Unsubscribes from L2CAP channel events.
    pub fn l2cap_unsubscribe(&mut self)
        ensures
            final(self).l2cap_cb() is None,
            final(self).host_cb() == old(self).host_cb(),
            final(self).gap_cb() == old(self).gap_cb(),
            final(self).gatts_cb() == old(self).gatts_cb(),
            final(self).gattc_cb() == old(self).gattc_cb(),
            final(self).services() == old(self).services(),
    {
        self.l2cap.set(None);
    }

    /// The host event callback, if subscribed.
    pub fn host_callback(&self) -> (r: Option<&H>)
        ensures
            match r {
                Some(f) => self.host_cb() == Some(*f),
                None => self.host_cb() is None,
            },
    {
        self.host.get()
    }

    /// The GAP event callback, if subscribed.
    pub fn gap_callback(&self) -> (r: Option<&G>)
        ensures
            match r {
                Some(f) => self.gap_cb() == Some(*f),
                None => self.gap_cb() is None,
            },
    {
        self.gap.get()
    }

    /// The GATT server event callback, if subscribed.
    pub fn gatts_callback(&self) -> (r: Option<&T>)
        ensures
            match r {
                Some(f) => self.gatts_cb() == Some(*f),
                None => self.gatts_cb() is None,
            },
    {
        self.gatts.get()
    }

    /// The GATT client event callback, if subscribed.
    pub fn gattc_callback(&self) -> (r: Option<&C>)
        ensures
            match r {
                Some(f) => self.gattc_cb() == Some(*f),
                None => self.gattc_cb() is None,
            },
    {
        self.gattc.get()
    }

    /// The L2CAP event callback, if subscribed.
    pub fn l2cap_callback(&self) -> (r: Option<&L>)
        ensures
            match r {
                Some(f) => self.l2cap_cb() == Some(*f),
                None => self.l2cap_cb() is None,
            },
    {
        self.l2cap.get()
    }

    /// Closes the driver: every subscription ends and the slot is freed; the
    /// service table is handed back, as the host no longer references it.
    pub fn close(self, slot: &mut DriverSlot) -> (services: S)
        ensures
            services == self.services(),
            !final(slot).is_taken(),
    {
        slot.release();
        self.services
    }
}

impl<H, G, T, C, L> BleDriver<(), H, G, T, C, L> {
    /// Creates the driver without a GATT service table, once the slot is
    /// claimed and the port is ready.
    pub fn new(slot: &DriverSlot) -> (r: Self)
        requires
            slot.is_taken(),
        ensures
            r.unsubscribed(),
    {
        Self::with_services(())
    }
}

/// What the GAP hook contributes to the answer of a GAP event: the status it
/// returns when the driver has one, nothing without.
pub open spec fn spec_hook_status<G>(gap: Option<G>, returned: i32) -> Option<i32> {
    match gap {
        Some(_) => Some(returned),
        None => None,
    }
}

/// With no GAP hook subscribed (as after `gap_unsubscribe`, and still after
/// a second one), every GAP event is answered 0, whatever its route and
/// whatever a hook would have returned; with one, GAP-route events get the
/// hook's status.
pub proof fn law_unsubscribed_gap_answers_zero<S, H, G, T, C, L>(
    d: BleDriver<S, H, G, T, C, L>,
    route: GapRoute,
    returned: i32,
)
    ensures
        d.gap_cb() is None ==> spec_gap_event_outcome(route, spec_hook_status(d.gap_cb(), returned))
            == 0,
        d.gap_cb() is Some ==> spec_gap_event_outcome(
            GapRoute::Gap,
            spec_hook_status(d.gap_cb(), returned),
        ) == returned,
{
}

/// There is at most one driver: while one holds the slot every new claim is
/// refused with `EALREADY` and the slot stays taken; once it is freed (the
/// driver closed, or its port or registration failed) a claim succeeds again.
pub proof fn law_single_driver()
    ensures
        spec_claim(true) == Err::<(), BleError>(BleError::spec_new(BLE_HS_EALREADY)),
        spec_claim(false) == Ok::<(), BleError>(()),
{
}

} // verus!
