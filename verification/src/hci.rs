//! HCI framing between the host and a `bt-hci` controller.
//!
//! Outbound, the host emits raw command packets (`[opcode: 2][len: 1]
//! [params: len]`) and ACL packets; inbound, the controller delivers events
//! (`[code][len][params]`) and ACL data. The host expects every command to be
//! acknowledged by a Command Complete or Command Status event; for commands
//! that never reach the controller (unknown opcode, malformed parameters) the
//! acknowledgement is synthesized here, and for those that do it is built
//! from the controller's typed result.
//!
//! Packets live in fixed-capacity `heapless` buffers, as on the wire.
use vstd::prelude::*;

verus! {

/// `Unknown HCI Command`: the status of a command with no dispatcher entry.
pub const STATUS_UNKNOWN_CMD: u8 = 0x01;

/// `Hardware Failure`: the status reported when the transport itself failed.
pub const STATUS_HW_FAILURE: u8 = 0x03;

/// `Invalid HCI Command Parameters`: the status of a command whose parameters
/// do not parse.
pub const STATUS_INVALID_PARAMS: u8 = 0x12;

/// The Command Complete event code.
pub const EVT_COMMAND_COMPLETE: u8 = 0x0e;

/// The Command Status event code.
pub const EVT_COMMAND_STATUS: u8 = 0x0f;

/// The LE Meta event code.
pub const EVT_LE_META: u8 = 0x3e;

/// The LE Advertising Report subevent.
pub const LE_ADV_REPORT: u8 = 0x02;

/// The LE Extended Advertising Report subevent.
pub const LE_EXT_ADV_REPORT: u8 = 0x0d;

/// `BLE_ERR_MEM_CAPACITY`: what the transport answers when a packet does not
/// fit its buffer.
pub const BLE_ERR_MEM_CAPACITY: i32 = 0x07;

/// `BLE_ERR_UNSUPPORTED`: what the transport answers for ISO data, which is
/// compiled out.
pub const BLE_ERR_UNSUPPORTED: i32 = 0x11;

/// An HCI event packet: a 2-byte header and up to 255 parameter bytes.
pub const EVT_PACKET_MAX: usize = 257;

/// An HCI command packet: 2-byte opcode, 1-byte length, up to 255 parameter
/// bytes.
pub const CMD_PACKET_MAX: usize = 258;

/// The payload capacity of one ACL transport buffer of the host.
pub const ACL_TRANSPORT_SIZE: usize = 251;

/// An ACL data packet: a 4-byte header and one transport buffer of payload.
pub const ACL_PACKET_MAX: usize = 255;

/// Most return-parameter bytes a Command Complete event can carry: the event
/// packet minus its 2-byte header and 4 fixed parameter bytes.
pub const RETURN_PARAMS_MAX: usize = 251;

/// The error `heapless` reports when a buffer would overflow.
#[verifier::external_type_specification]
#[verifier::external_body]
pub struct ExCapacityError(heapless::CapacityError);

/// The bytes held by an event packet buffer.
pub uninterp spec fn evt_packet_bytes(p: EvtPacket) -> Seq<u8>;

/// The bytes held by a command packet buffer.
pub uninterp spec fn cmd_packet_bytes(p: CmdPacket) -> Seq<u8>;

/// The bytes held by an ACL packet buffer.
pub uninterp spec fn acl_packet_bytes(p: AclBuffer) -> Seq<u8>;

/// A fixed-capacity event packet (`heapless::Vec<u8, 257>`).
#[verifier::external_body]
pub struct EvtPacket {
    buf: heapless::Vec<u8, 257>,
}

/// A fixed-capacity command packet (`heapless::Vec<u8, 258>`).
#[verifier::external_body]
pub struct CmdPacket {
    buf: heapless::Vec<u8, 258>,
}

/// A fixed-capacity ACL packet (`heapless::Vec<u8, 255>`).
#[verifier::external_body]
pub struct AclBuffer {
    buf: heapless::Vec<u8, 255>,
}

impl View for EvtPacket {
    type V = Seq<u8>;

    open spec fn view(&self) -> Seq<u8> {
        evt_packet_bytes(*self)
    }
}

impl View for CmdPacket {
    type V = Seq<u8>;

    open spec fn view(&self) -> Seq<u8> {
        cmd_packet_bytes(*self)
    }
}

impl View for AclBuffer {
    type V = Seq<u8>;

    open spec fn view(&self) -> Seq<u8> {
        acl_packet_bytes(*self)
    }
}

impl EvtPacket {
    /// `heapless::Vec::new`: an empty buffer.
    #[verifier::external_body]
    pub(crate) fn new() -> (p: Self)
        ensures
            evt_packet_bytes(p) == Seq::<u8>::empty(),
    {
        EvtPacket { buf: heapless::Vec::new() }
    }

    /// `heapless::Vec::extend_from_slice`: appends `other` whole when it fits
    /// the capacity of 257 bytes, and otherwise leaves the buffer untouched and
    /// fails.
    #[verifier::external_body]
    pub(crate) fn extend_from_slice(&mut self, other: &[u8]) -> (r: Result<(), heapless::CapacityError>)
        ensures
            evt_packet_bytes(*old(self)).len() + other@.len() <= 257 ==> r is Ok
                && evt_packet_bytes(*final(self)) == evt_packet_bytes(*old(self)) + other@,
            evt_packet_bytes(*old(self)).len() + other@.len() > 257 ==> r is Err
                && evt_packet_bytes(*final(self)) == evt_packet_bytes(*old(self)),
    {
        self.buf.extend_from_slice(other)
    }

    /// `heapless::Vec::as_slice`: the bytes held.
    #[verifier::external_body]
    pub(crate) fn as_slice(&self) -> (s: &[u8])
        ensures
            s@ == evt_packet_bytes(*self),
    {
        self.buf.as_slice()
    }

    /// The bytes held.
    pub fn bytes(&self) -> (r: &[u8])
        ensures
            r@ == self@,
    {
        self.as_slice()
    }
}

impl CmdPacket {
    /// `heapless::Vec::new`: an empty buffer.
    #[verifier::external_body]
    pub(crate) fn new() -> (p: Self)
        ensures
            cmd_packet_bytes(p) == Seq::<u8>::empty(),
    {
        CmdPacket { buf: heapless::Vec::new() }
    }

    /// `heapless::Vec::extend_from_slice`: appends `other` whole when it fits
    /// the capacity of 258 bytes, and otherwise leaves the buffer untouched and
    /// fails.
    #[verifier::external_body]
    pub(crate) fn extend_from_slice(&mut self, other: &[u8]) -> (r: Result<(), heapless::CapacityError>)
        ensures
            cmd_packet_bytes(*old(self)).len() + other@.len() <= 258 ==> r is Ok
                && cmd_packet_bytes(*final(self)) == cmd_packet_bytes(*old(self)) + other@,
            cmd_packet_bytes(*old(self)).len() + other@.len() > 258 ==> r is Err
                && cmd_packet_bytes(*final(self)) == cmd_packet_bytes(*old(self)),
    {
        self.buf.extend_from_slice(other)
    }

    /// `heapless::Vec::as_slice`: the bytes held.
    #[verifier::external_body]
    pub(crate) fn as_slice(&self) -> (s: &[u8])
        ensures
            s@ == cmd_packet_bytes(*self),
    {
        self.buf.as_slice()
    }

    /// The bytes held.
    pub fn bytes(&self) -> (r: &[u8])
        ensures
            r@ == self@,
    {
        self.as_slice()
    }
}

impl AclBuffer {
    /// `heapless::Vec::new`: an empty buffer.
    #[verifier::external_body]
    pub(crate) fn new() -> (p: Self)
        ensures
            acl_packet_bytes(p) == Seq::<u8>::empty(),
    {
        AclBuffer { buf: heapless::Vec::new() }
    }

    /// `heapless::Vec::extend_from_slice`: appends `other` whole when it fits
    /// the capacity of 255 bytes, and otherwise leaves the buffer untouched and
    /// fails.
    #[verifier::external_body]
    pub(crate) fn extend_from_slice(&mut self, other: &[u8]) -> (r: Result<(), heapless::CapacityError>)
        ensures
            acl_packet_bytes(*old(self)).len() + other@.len() <= 255 ==> r is Ok
                && acl_packet_bytes(*final(self)) == acl_packet_bytes(*old(self)) + other@,
            acl_packet_bytes(*old(self)).len() + other@.len() > 255 ==> r is Err
                && acl_packet_bytes(*final(self)) == acl_packet_bytes(*old(self)),
    {
        self.buf.extend_from_slice(other)
    }

    /// `heapless::Vec::as_slice`: the bytes held.
    #[verifier::external_body]
    pub(crate) fn as_slice(&self) -> (s: &[u8])
        ensures
            s@ == acl_packet_bytes(*self),
    {
        self.buf.as_slice()
    }

    /// The bytes held.
    pub fn bytes(&self) -> (r: &[u8])
        ensures
            r@ == self@,
    {
        self.as_slice()
    }
}

/// The two little-endian bytes of a 16-bit value.
pub open spec fn le16(v: u16) -> Seq<u8> {
    seq![(v % 256) as u8, (v / 256) as u8]
}

/// A Command Complete event: `[0x0e][plen][num_pkts = 1][opcode: 2][status]
/// [return params]`.
pub open spec fn spec_complete_ack(opcode: u16, status: u8, ret: Seq<u8>) -> Seq<u8> {
    seq![EVT_COMMAND_COMPLETE, (4 + ret.len()) as u8, 1u8] + le16(opcode) + seq![status] + ret
}

/// A Command Status event: `[0x0f][4][status][num_pkts = 1][opcode: 2]`.
pub open spec fn spec_status_ack(opcode: u16, status: u8) -> Seq<u8> {
    seq![EVT_COMMAND_STATUS, 4u8, status, 1u8] + le16(opcode)
}

/// The raw form in which an event is fed to the host: `[code][len][params]`.
pub open spec fn spec_event_frame(code: u8, params: Seq<u8>) -> Seq<u8> {
    seq![code, params.len() as u8] + params
}

/// Synthesizes a Command Complete event acknowledging `opcode` with `status`
/// and, where given, the serialized return parameters.
pub fn complete_ack(opcode: u16, status: u8, ret: Option<&[u8]>) -> (evt: EvtPacket)
    requires
        ret matches Some(r) ==> r@.len() <= RETURN_PARAMS_MAX,
    ensures
        evt@ == spec_complete_ack(
            opcode,
            status,
            match ret {
                Some(r) => r@,
                None => Seq::<u8>::empty(),
            },
        ),
{
    let ret_len: usize = match ret {
        Some(r) => r.len(),
        None => 0,
    };
    let plen: u8 = (4 + ret_len) as u8;
    let head: [u8; 6] = [
        EVT_COMMAND_COMPLETE,
        plen,
        1,
        (opcode % 256) as u8,
        (opcode / 256) as u8,
        status,
    ];
    let mut evt = EvtPacket::new();
    let _ = evt.extend_from_slice(head.as_slice());
    assert(evt@ == seq![EVT_COMMAND_COMPLETE, plen, 1u8] + le16(opcode) + seq![status]);
    match ret {
        Some(r) => {
            let _ = evt.extend_from_slice(r);
        },
        None => {},
    }
    proof {
        match ret {
            Some(r) => {},
            None => {
                assert(evt@ == evt@ + Seq::<u8>::empty());
            },
        }
    }
    evt
}

/// The no-return-parameters case of [`complete_ack`].
pub fn plain_ack(opcode: u16, status: u8) -> (evt: EvtPacket)
    ensures
        evt@ == spec_complete_ack(opcode, status, Seq::<u8>::empty()),
{
    complete_ack(opcode, status, None)
}

/// Synthesizes a Command Status event acknowledging `opcode` with `status`.
pub fn status_ack(opcode: u16, status: u8) -> (evt: EvtPacket)
    ensures
        evt@ == spec_status_ack(opcode, status),
{
    let bytes: [u8; 6] = [
        EVT_COMMAND_STATUS,
        4,
        status,
        1,
        (opcode % 256) as u8,
        (opcode / 256) as u8,
    ];
    let mut evt = EvtPacket::new();
    let _ = evt.extend_from_slice(bytes.as_slice());
    assert(evt@ == spec_status_ack(opcode, status));
    evt
}

/// How a command of the controller failed: with an HCI error status
/// reported by the controller (`bt-hci` keeps it nonzero), or with an I/O
/// error of the transport.
#[derive(Clone, Copy, Debug, PartialEq, Eq, Structural)]
pub enum CmdFailure {
    Hci(u8),
    Io,
}

/// The acknowledgement status of a command outcome.
pub open spec fn spec_ack_status(result: Result<(), CmdFailure>) -> u8 {
    match result {
        Ok(()) => 0,
        Err(CmdFailure::Hci(code)) => code,
        Err(CmdFailure::Io) => STATUS_HW_FAILURE,
    }
}

/// The status with which a command outcome is acknowledged to the host:
/// 0 for success, the controller's own status for an HCI error, `Hardware
/// Failure` when the transport failed.
pub fn ack_status(result: &Result<(), CmdFailure>) -> (s: u8)
    ensures
        s == spec_ack_status(*result),
{
    match result {
        Ok(()) => 0,
        Err(CmdFailure::Hci(code)) => *code,
        Err(CmdFailure::Io) => STATUS_HW_FAILURE,
    }
}

/// Whether a command runs to a Command Complete (`Sync`) or is acknowledged
/// by a Command Status with its completion arriving later (`Async`).
#[derive(Clone, Copy, Debug, PartialEq, Eq, Structural)]
pub enum CmdMode {
    Sync,
    Async,
}

/// One entry of the command dispatcher: the opcode of a command the
/// controller implements, and how it runs.
#[derive(Clone, Copy, Debug, PartialEq, Eq, Structural)]
pub struct CmdRoute {
    pub opcode: u16,
    pub mode: CmdMode,
}

/// `i` is the first entry of `table` for `opcode`.
pub open spec fn first_route(table: Seq<CmdRoute>, opcode: u16, i: int) -> bool {
    &&& 0 <= i < table.len()
    &&& table[i].opcode == opcode
    &&& forall|j: int| 0 <= j < i ==> table[j].opcode != opcode
}

/// The mode under which `opcode` is dispatched: that of its first entry in
/// `table`, or none.
pub open spec fn spec_route(table: Seq<CmdRoute>, opcode: u16) -> Option<CmdMode> {
    if exists|i: int| first_route(table, opcode, i) {
        Some(table[choose|i: int| first_route(table, opcode, i)].mode)
    } else {
        None
    }
}

/// Looks `opcode` up in the dispatcher table.
pub fn route_cmd(table: &[CmdRoute], opcode: u16) -> (r: Option<CmdMode>)
    ensures
        r == spec_route(table@, opcode),
{
    let mut i: usize = 0;
    while i < table.len()
        invariant
            i <= table@.len(),
            forall|j: int| 0 <= j < i ==> table@[j].opcode != opcode,
        decreases table@.len() - i,
    {
        if table[i].opcode == opcode {
            proof {
                assert(first_route(table@, opcode, i as int));
                let k = choose|k: int| first_route(table@, opcode, k);
                assert(k == i as int) by {
                    if k < i as int {
                    } else if k > i as int {
                        assert(table@[i as int].opcode != opcode);
                    }
                }
            }
            return Some(table[i].mode);
        }
        i = i + 1;
    }
    proof {
        assert(!exists|k: int| first_route(table@, opcode, k));
    }
    None
}

/// The roles the host stack is built for: each enables the commands it
/// needs in the dispatcher table.
#[derive(Clone, Copy, Debug, PartialEq, Eq, Structural)]
pub struct CmdRoles {
    /// Central or peripheral: connections.
    pub connections: bool,
    /// Advertising.
    pub broadcaster: bool,
    /// Scanning.
    pub observer: bool,
    /// Initiating connections.
    pub central: bool,
    /// The security manager (`sm` or `sm-sc-only`).
    pub security: bool,
}

/// The commands every build runs.
pub open spec fn spec_core_cmds() -> Seq<CmdRoute> {
    seq![
        CmdRoute { opcode: 0x0c03, mode: CmdMode::Sync },  // Reset
        CmdRoute { opcode: 0x0c01, mode: CmdMode::Sync },  // Set Event Mask
        CmdRoute { opcode: 0x0c63, mode: CmdMode::Sync },  // Set Event Mask Page 2
        CmdRoute { opcode: 0x2001, mode: CmdMode::Sync },  // LE Set Event Mask
        CmdRoute { opcode: 0x1001, mode: CmdMode::Sync },  // Read Local Version Information
        CmdRoute { opcode: 0x1002, mode: CmdMode::Sync },  // Read Local Supported Commands
        CmdRoute { opcode: 0x1003, mode: CmdMode::Sync },  // Read Local Supported Features
        CmdRoute { opcode: 0x1009, mode: CmdMode::Sync },  // Read BD_ADDR
        CmdRoute { opcode: 0x2002, mode: CmdMode::Sync },  // LE Read Buffer Size
        CmdRoute { opcode: 0x2003, mode: CmdMode::Sync },  // LE Read Local Supported Features
        CmdRoute { opcode: 0x2018, mode: CmdMode::Sync },  // LE Rand
        CmdRoute { opcode: 0x2005, mode: CmdMode::Sync },  // LE Set Random Address
        CmdRoute { opcode: 0x200a, mode: CmdMode::Sync },  // LE Set Advertising Enable
        CmdRoute { opcode: 0x202d, mode: CmdMode::Sync },  // LE Set Address Resolution Enable
        CmdRoute { opcode: 0x2029, mode: CmdMode::Sync },  // LE Clear Resolving List
        CmdRoute { opcode: 0x2027, mode: CmdMode::Sync },  // LE Add Device To Resolving List
        CmdRoute { opcode: 0x2028, mode: CmdMode::Sync },  // LE Remove Device From Resolving List
        CmdRoute { opcode: 0x204e, mode: CmdMode::Sync },  // LE Set Privacy Mode
        CmdRoute { opcode: 0x202e, mode: CmdMode::Sync },  // LE Set Resolvable Private Address Timeout
    ]
}

/// The commands of connections. `Disconnect` is acknowledged to the host
/// with a Command Complete, as a synchronous command.
pub open spec fn spec_conn_cmds() -> Seq<CmdRoute> {
    seq![
        CmdRoute { opcode: 0x0406, mode: CmdMode::Sync },  // Disconnect
        CmdRoute { opcode: 0x2013, mode: CmdMode::Async },  // LE Connection Update
        CmdRoute { opcode: 0x2016, mode: CmdMode::Async },  // LE Read Remote Features
        CmdRoute { opcode: 0x041d, mode: CmdMode::Async },  // Read Remote Version Information
        CmdRoute { opcode: 0x2022, mode: CmdMode::Sync },  // LE Set Data Length
        CmdRoute { opcode: 0x2023, mode: CmdMode::Sync },  // LE Read Suggested Default Data Length
        CmdRoute { opcode: 0x2024, mode: CmdMode::Sync },  // LE Write Suggested Default Data Length
        CmdRoute { opcode: 0x2015, mode: CmdMode::Sync },  // LE Read Channel Map
        CmdRoute { opcode: 0x2014, mode: CmdMode::Sync },  // LE Set Host Channel Classification
        CmdRoute { opcode: 0x1405, mode: CmdMode::Sync },  // Read RSSI
        CmdRoute { opcode: 0x2011, mode: CmdMode::Sync },  // LE Add Device To Filter Accept List
        CmdRoute { opcode: 0x2012, mode: CmdMode::Sync },  // LE Remove Device From Filter Accept List
        CmdRoute { opcode: 0x2010, mode: CmdMode::Sync },  // LE Clear Filter Accept List
        CmdRoute { opcode: 0x200f, mode: CmdMode::Sync },  // LE Read Filter Accept List Size
    ]
}

/// The commands of advertising.
pub open spec fn spec_broadcaster_cmds() -> Seq<CmdRoute> {
    seq![
        CmdRoute { opcode: 0x2006, mode: CmdMode::Sync },  // LE Set Advertising Parameters
        CmdRoute { opcode: 0x2008, mode: CmdMode::Sync },  // LE Set Advertising Data
        CmdRoute { opcode: 0x2009, mode: CmdMode::Sync },  // LE Set Scan Response Data
        CmdRoute { opcode: 0x2007, mode: CmdMode::Sync },  // LE Read Advertising Physical Channel Tx Power
    ]
}

/// The commands of scanning.
pub open spec fn spec_observer_cmds() -> Seq<CmdRoute> {
    seq![
        CmdRoute { opcode: 0x200b, mode: CmdMode::Sync },  // LE Set Scan Parameters
        CmdRoute { opcode: 0x200c, mode: CmdMode::Sync },  // LE Set Scan Enable
    ]
}

/// The commands of initiating connections.
pub open spec fn spec_central_cmds() -> Seq<CmdRoute> {
    seq![
        CmdRoute { opcode: 0x200d, mode: CmdMode::Async },  // LE Create Connection
        CmdRoute { opcode: 0x200e, mode: CmdMode::Sync },  // LE Create Connection Cancel
    ]
}

/// The commands of the security manager.
pub open spec fn spec_security_cmds() -> Seq<CmdRoute> {
    seq![
        CmdRoute { opcode: 0x2019, mode: CmdMode::Async },  // LE Enable Encryption
        CmdRoute { opcode: 0x201a, mode: CmdMode::Sync },  // LE Long Term Key Request Reply
        CmdRoute { opcode: 0x201b, mode: CmdMode::Sync },  // LE Long Term Key Request Negative Reply
    ]
}

/// `part` when `on`, else nothing.
pub open spec fn spec_when(on: bool, part: Seq<CmdRoute>) -> Seq<CmdRoute> {
    if on {
        part
    } else {
        Seq::empty()
    }
}

/// The dispatcher table of a build: the core commands, then those of each
/// enabled role, in this order.
pub open spec fn spec_command_table(roles: CmdRoles) -> Seq<CmdRoute> {
    spec_core_cmds() + spec_when(roles.connections, spec_conn_cmds()) + spec_when(
        roles.broadcaster,
        spec_broadcaster_cmds(),
    ) + spec_when(roles.observer, spec_observer_cmds()) + spec_when(
        roles.central,
        spec_central_cmds(),
    ) + spec_when(roles.security, spec_security_cmds())
}

fn append_routes(table: &mut Vec<CmdRoute>, on: bool, part: &[CmdRoute])
    ensures
        final(table)@ == old(table)@ + spec_when(on, part@),
{
    if on {
        let mut i: usize = 0;
        while i < part.len()
            invariant
                i <= part@.len(),
                table@ == old(table)@ + part@.take(i as int),
            decreases part@.len() - i,
        {
            table.push(part[i]);
            i = i + 1;
            assert(part@.take(i as int) == part@.take(i - 1) + seq![part@[i - 1]]);
        }
        assert(part@.take(part@.len() as int) == part@);
    } else {
        assert(old(table)@ + Seq::<CmdRoute>::empty() == old(table)@);
    }
}

/// The dispatcher table of a build: every command the host emits for its
/// roles, with the mode it runs under.
pub fn command_table(roles: CmdRoles) -> (r: Vec<CmdRoute>)
    ensures
        r@ == spec_command_table(roles),
{
    let core: [CmdRoute; 19] = [
        CmdRoute { opcode: 0x0c03, mode: CmdMode::Sync },
        CmdRoute { opcode: 0x0c01, mode: CmdMode::Sync },
        CmdRoute { opcode: 0x0c63, mode: CmdMode::Sync },
        CmdRoute { opcode: 0x2001, mode: CmdMode::Sync },
        CmdRoute { opcode: 0x1001, mode: CmdMode::Sync },
        CmdRoute { opcode: 0x1002, mode: CmdMode::Sync },
        CmdRoute { opcode: 0x1003, mode: CmdMode::Sync },
        CmdRoute { opcode: 0x1009, mode: CmdMode::Sync },
        CmdRoute { opcode: 0x2002, mode: CmdMode::Sync },
        CmdRoute { opcode: 0x2003, mode: CmdMode::Sync },
        CmdRoute { opcode: 0x2018, mode: CmdMode::Sync },
        CmdRoute { opcode: 0x2005, mode: CmdMode::Sync },
        CmdRoute { opcode: 0x200a, mode: CmdMode::Sync },
        CmdRoute { opcode: 0x202d, mode: CmdMode::Sync },
        CmdRoute { opcode: 0x2029, mode: CmdMode::Sync },
        CmdRoute { opcode: 0x2027, mode: CmdMode::Sync },
        CmdRoute { opcode: 0x2028, mode: CmdMode::Sync },
        CmdRoute { opcode: 0x204e, mode: CmdMode::Sync },
        CmdRoute { opcode: 0x202e, mode: CmdMode::Sync },
    ];
    let conn: [CmdRoute; 14] = [
        CmdRoute { opcode: 0x0406, mode: CmdMode::Sync },
        CmdRoute { opcode: 0x2013, mode: CmdMode::Async },
        CmdRoute { opcode: 0x2016, mode: CmdMode::Async },
        CmdRoute { opcode: 0x041d, mode: CmdMode::Async },
        CmdRoute { opcode: 0x2022, mode: CmdMode::Sync },
        CmdRoute { opcode: 0x2023, mode: CmdMode::Sync },
        CmdRoute { opcode: 0x2024, mode: CmdMode::Sync },
        CmdRoute { opcode: 0x2015, mode: CmdMode::Sync },
        CmdRoute { opcode: 0x2014, mode: CmdMode::Sync },
        CmdRoute { opcode: 0x1405, mode: CmdMode::Sync },
        CmdRoute { opcode: 0x2011, mode: CmdMode::Sync },
        CmdRoute { opcode: 0x2012, mode: CmdMode::Sync },
        CmdRoute { opcode: 0x2010, mode: CmdMode::Sync },
        CmdRoute { opcode: 0x200f, mode: CmdMode::Sync },
    ];
    let bc: [CmdRoute; 4] = [
        CmdRoute { opcode: 0x2006, mode: CmdMode::Sync },
        CmdRoute { opcode: 0x2008, mode: CmdMode::Sync },
        CmdRoute { opcode: 0x2009, mode: CmdMode::Sync },
        CmdRoute { opcode: 0x2007, mode: CmdMode::Sync },
    ];
    let obs: [CmdRoute; 2] = [
        CmdRoute { opcode: 0x200b, mode: CmdMode::Sync },
        CmdRoute { opcode: 0x200c, mode: CmdMode::Sync },
    ];
    let central: [CmdRoute; 2] = [
        CmdRoute { opcode: 0x200d, mode: CmdMode::Async },
        CmdRoute { opcode: 0x200e, mode: CmdMode::Sync },
    ];
    let sec: [CmdRoute; 3] = [
        CmdRoute { opcode: 0x2019, mode: CmdMode::Async },
        CmdRoute { opcode: 0x201a, mode: CmdMode::Sync },
        CmdRoute { opcode: 0x201b, mode: CmdMode::Sync },
    ];
    assert(core@ == spec_core_cmds());
    assert(conn@ == spec_conn_cmds());
    assert(bc@ == spec_broadcaster_cmds());
    assert(obs@ == spec_observer_cmds());
    assert(central@ == spec_central_cmds());
    assert(sec@ == spec_security_cmds());
    let mut table: Vec<CmdRoute> = Vec::new();
    append_routes(&mut table, true, core.as_slice());
    assert(table@ == spec_core_cmds());
    append_routes(&mut table, roles.connections, conn.as_slice());
    append_routes(&mut table, roles.broadcaster, bc.as_slice());
    append_routes(&mut table, roles.observer, obs.as_slice());
    append_routes(&mut table, roles.central, central.as_slice());
    append_routes(&mut table, roles.security, sec.as_slice());
    table
}

/// The opcode of a raw command packet (little-endian, first two bytes).
pub open spec fn spec_cmd_opcode(raw: Seq<u8>) -> u16 {
    (raw[0] + 256 * raw[1]) as u16
}

/// The parameters of a raw command packet: everything after the 3-byte
/// header.
pub open spec fn spec_cmd_params(raw: Seq<u8>) -> Seq<u8> {
    if raw.len() >= 3 {
        raw.skip(3)
    } else {
        Seq::empty()
    }
}

/// What becomes of one command packet of the host.
pub enum CmdDispatch {
    /// Run it as a synchronous command of the controller.
    Sync { opcode: u16, params: Vec<u8> },
    /// Run it as an asynchronous command of the controller.
    Async { opcode: u16, params: Vec<u8> },
    /// No dispatcher entry: the host gets this acknowledgement instead.
    Unmapped { opcode: u16, ack: EvtPacket },
}

/// Dispatches one raw command packet of the host against the table of the
/// commands the controller implements: a known opcode runs under its mode
/// with the packet's parameters, an unknown one is acknowledged `Unknown HCI
/// Command` at once.
pub fn send_cmd(table: &[CmdRoute], raw: &[u8]) -> (d: CmdDispatch)
    requires
        raw@.len() >= 2,
    ensures
        match d {
            CmdDispatch::Sync { opcode, params } => {
                &&& opcode == spec_cmd_opcode(raw@)
                &&& spec_route(table@, opcode) == Some(CmdMode::Sync)
                &&& params@ == spec_cmd_params(raw@)
            },
            CmdDispatch::Async { opcode, params } => {
                &&& opcode == spec_cmd_opcode(raw@)
                &&& spec_route(table@, opcode) == Some(CmdMode::Async)
                &&& params@ == spec_cmd_params(raw@)
            },
            CmdDispatch::Unmapped { opcode, ack } => {
                &&& opcode == spec_cmd_opcode(raw@)
                &&& spec_route(table@, opcode) is None
                &&& ack@ == spec_complete_ack(opcode, STATUS_UNKNOWN_CMD, Seq::<u8>::empty())
            },
        },
{
    let opcode: u16 = raw[0] as u16 + (raw[1] as u16) * 256;
    match route_cmd(table, opcode) {
        Some(mode) => {
            let params: Vec<u8> = if raw.len() >= 3 {
                vstd::slice::slice_to_vec(vstd::slice::slice_subrange(raw, 3, raw.len()))
            } else {
                Vec::new()
            };
            proof {
                if raw@.len() >= 3 {
                    assert(raw@.subrange(3, raw@.len() as int) == raw@.skip(3));
                }
            }
            match mode {
                CmdMode::Sync => CmdDispatch::Sync { opcode, params },
                CmdMode::Async => CmdDispatch::Async { opcode, params },
            }
        },
        None => CmdDispatch::Unmapped { opcode, ack: plain_ack(opcode, STATUS_UNKNOWN_CMD) },
    }
}

/// The acknowledgement of a command whose parameters do not parse: `Invalid
/// HCI Command Parameters`, in the event the command's mode calls for.
pub fn malformed_params_ack(mode: CmdMode, opcode: u16) -> (evt: EvtPacket)
    ensures
        evt@ == match mode {
            CmdMode::Sync => spec_complete_ack(opcode, STATUS_INVALID_PARAMS, Seq::<u8>::empty()),
            CmdMode::Async => spec_status_ack(opcode, STATUS_INVALID_PARAMS),
        },
{
    match mode {
        CmdMode::Sync => plain_ack(opcode, STATUS_INVALID_PARAMS),
        CmdMode::Async => status_ack(opcode, STATUS_INVALID_PARAMS),
    }
}

/// The Command Complete for a synchronous command the controller ran:
/// status 0 with the serialized return parameters on success; on failure the
/// status of `ack_status` and no parameters.
pub fn sync_cmd_ack(opcode: u16, outcome: Result<&[u8], CmdFailure>) -> (evt: EvtPacket)
    requires
        outcome matches Ok(ret) ==> ret@.len() <= RETURN_PARAMS_MAX,
    ensures
        match outcome {
            Ok(ret) => evt@ == spec_complete_ack(opcode, 0, ret@),
            Err(f) => evt@ == spec_complete_ack(
                opcode,
                spec_ack_status(Err(f)),
                Seq::<u8>::empty(),
            ),
        },
{
    match outcome {
        Ok(ret) => complete_ack(opcode, 0, Some(ret)),
        Err(f) => {
            let status = ack_status(&Err(f));
            plain_ack(opcode, status)
        },
    }
}

/// The Command Status for an asynchronous command the controller accepted or
/// refused, with the status of `ack_status`.
pub fn async_cmd_ack(opcode: u16, outcome: &Result<(), CmdFailure>) -> (evt: EvtPacket)
    ensures
        evt@ == spec_status_ack(opcode, spec_ack_status(*outcome)),
{
    let status = ack_status(outcome);
    status_ack(opcode, status)
}

/// What the transmit side of the pump serves next: commands take priority
/// over ACL data, and with neither queued it waits.
#[derive(Clone, Copy, Debug, PartialEq, Eq, Structural)]
pub enum TxStep {
    Command,
    Acl,
    Idle,
}

/// Chooses the next packet for the controller: a queued command before any
/// queued ACL packet.
pub fn tx_step(cmd_queued: bool, acl_queued: bool) -> (r: TxStep)
    ensures
        r == (if cmd_queued {
            TxStep::Command
        } else if acl_queued {
            TxStep::Acl
        } else {
            TxStep::Idle
        }),
{
    if cmd_queued {
        TxStep::Command
    } else if acl_queued {
        TxStep::Acl
    } else {
        TxStep::Idle
    }
}

/// A complete outgoing ACL packet: a 4-byte header whose little-endian
/// length field (bytes 2 and 3) counts exactly the bytes after it.
pub open spec fn spec_acl_complete(raw: Seq<u8>) -> bool {
    raw.len() >= 4 && raw.len() - 4 == raw[2] + 256 * raw[3]
}

/// `AclPacket::from_hci_bytes_complete` of `bt-hci`, reduced to whether it
/// parses: the 4-byte header (handle and flags, then the data length, read
/// little-endian, the only byte order `bt-hci` builds for) must be there, the
/// data must be at least that long, and nothing may follow it.
#[verifier::external_body]
fn acl_packet_ok(raw: &[u8]) -> (r: bool)
    ensures
        r == spec_acl_complete(raw@),
{
    <bt_hci::data::AclPacket<'_> as bt_hci::FromHciBytes<'_>>::from_hci_bytes_complete(raw).is_ok()
}

/// Whether an outgoing ACL packet of the host goes to the controller: a
/// packet that does not parse as one complete ACL packet is skipped, with no
/// controller call.
pub fn acl_step(raw: &[u8]) -> (r: bool)
    ensures
        r == spec_acl_complete(raw@),
{
    acl_packet_ok(raw)
}

/// Frames one event as the host takes it: `[code][len][params]`.
pub fn event_frame(code: u8, params: &[u8]) -> (frame: Vec<u8>)
    requires
        params@.len() <= 255,
    ensures
        frame@ == spec_event_frame(code, params@),
{
    let mut frame: Vec<u8> = Vec::new();
    frame.push(code);
    frame.push(params.len() as u8);
    let mut i: usize = 0;
    while i < params.len()
        invariant
            i <= params@.len(),
            params@.len() <= 255,
            frame@ == seq![code, params@.len() as u8] + params@.take(i as int),
        decreases params@.len() - i,
    {
        frame.push(params[i]);
        i = i + 1;
        assert(params@.take(i as int) == params@.take(i - 1) + seq![params@[i - 1]]);
    }
    assert(params@.take(params@.len() as int) == params@);
    frame
}

/// Frames a synthesized acknowledgement for the host: its code, and its
/// parameters after the 2-byte header.
pub fn ack_frame(evt: &EvtPacket) -> (frame: Vec<u8>)
    requires
        2 <= evt@.len() <= EVT_PACKET_MAX,
    ensures
        frame@ == spec_event_frame(evt@[0], evt@.skip(2)),
{
    let bytes = evt.as_slice();
    let params = vstd::slice::slice_subrange(bytes, 2, bytes.len());
    assert(params@ == evt@.skip(2));
    event_frame(bytes[0], params)
}

/// A synthesized acknowledgement reaches the host byte for byte: framing it
/// anew from its code and parameters gives back the packet itself, as its
/// length byte already counts exactly its parameters.
pub proof fn law_ack_frames_itself(opcode: u16, status: u8, ret: Seq<u8>)
    requires
        ret.len() <= RETURN_PARAMS_MAX,
    ensures
        ({
            let a = spec_complete_ack(opcode, status, ret);
            spec_event_frame(a[0], a.skip(2)) == a
        }),
        ({
            let a = spec_status_ack(opcode, status);
            spec_event_frame(a[0], a.skip(2)) == a
        }),
{
    let a = spec_complete_ack(opcode, status, ret);
    assert(a.skip(2).len() == 4 + ret.len());
    assert(spec_event_frame(a[0], a.skip(2)) =~= a);
    let b = spec_status_ack(opcode, status);
    assert(spec_event_frame(b[0], b.skip(2)) =~= b);
}

/// Every acknowledgement names the command it answers: the opcode stands,
/// little-endian, at bytes 3 and 4 of a Command Complete and at bytes 4 and
/// 5 of a Command Status, and reads back as the same opcode.
pub proof fn law_ack_names_its_command(opcode: u16, status: u8, ret: Seq<u8>)
    ensures
        spec_complete_ack(opcode, status, ret)[3] + 256 * spec_complete_ack(opcode, status, ret)[4]
            == opcode,
        spec_status_ack(opcode, status)[4] + 256 * spec_status_ack(opcode, status)[5] == opcode,
        spec_complete_ack(opcode, status, ret)[5] == status,
        spec_status_ack(opcode, status)[2] == status,
{
    let c = spec_complete_ack(opcode, status, ret);
    assert(c[3] == (opcode % 256) as u8);
    assert(c[4] == (opcode / 256) as u8);
    let t = spec_status_ack(opcode, status);
    assert(t[4] == (opcode % 256) as u8);
    assert(t[5] == (opcode / 256) as u8);
}

/// Whether an event from the controller is discardable: LE advertising
/// reports (legacy or extended), which a controller can deliver faster than
/// the host consumes them.
pub fn is_discardable(code: u8, params: &[u8]) -> (r: bool)
    ensures
        r == (code == EVT_LE_META && params@.len() > 0 && (params@[0] == LE_ADV_REPORT
            || params@[0] == LE_EXT_ADV_REPORT)),
{
    code == EVT_LE_META && params.len() > 0 && (params[0] == LE_ADV_REPORT || params[0]
        == LE_EXT_ADV_REPORT)
}

/// The length of a flat command buffer of the host: its 3-byte header and the
/// parameter count in its third byte.
pub open spec fn spec_cmd_packet_len(buf: Seq<u8>) -> int {
    3 + buf[2]
}

/// Copies a flat command buffer of the host (`[opcode: 2][len: 1][params:
/// len]`) into a command packet.
pub fn copy_cmd_packet(buf: &[u8]) -> (p: CmdPacket)
    requires
        buf@.len() >= 3,
        spec_cmd_packet_len(buf@) <= buf@.len(),
    ensures
        p@ == buf@.take(spec_cmd_packet_len(buf@)),
{
    let len: usize = 3 + buf[2] as usize;
    let mut p = CmdPacket::new();
    let _ = p.extend_from_slice(vstd::slice::slice_subrange(buf, 0, len));
    assert(buf@.subrange(0, len as int) == buf@.take(len as int));
    p
}

/// The bytes of a chain of buffers, in order.
pub open spec fn spec_flatten(chunks: Seq<Seq<u8>>) -> Seq<u8>
    decreases chunks.len(),
{
    if chunks.len() == 0 {
        Seq::empty()
    } else {
        spec_flatten(chunks.drop_last()) + chunks.last()
    }
}

/// A prefix of a chain never holds more bytes than the whole chain.
proof fn lemma_flatten_prefix_len(chunks: Seq<Seq<u8>>, k: int)
    requires
        0 <= k <= chunks.len(),
    ensures
        spec_flatten(chunks.take(k)).len() <= spec_flatten(chunks).len(),
    decreases chunks.len(),
{
    if k < chunks.len() {
        assert(chunks.drop_last().take(k) == chunks.take(k));
        lemma_flatten_prefix_len(chunks.drop_last(), k);
    } else {
        assert(chunks.take(k) == chunks);
    }
}

/// The views of a chain of buffers.
pub open spec fn chunk_views(chunks: Seq<Vec<u8>>) -> Seq<Seq<u8>> {
    chunks.map_values(|c: Vec<u8>| c@)
}

/// Flattens an outgoing chain of ACL buffers into one ACL packet, failing with
/// `BLE_ERR_MEM_CAPACITY` exactly when the chain holds more than the packet's
/// 255 bytes.
pub fn flatten_acl(chunks: &Vec<Vec<u8>>) -> (r: Result<AclBuffer, i32>)
    ensures
        match r {
            Ok(p) => p@ == spec_flatten(chunk_views(chunks@)) && p@.len() <= ACL_PACKET_MAX,
            Err(code) => code == BLE_ERR_MEM_CAPACITY && spec_flatten(chunk_views(chunks@)).len()
                > ACL_PACKET_MAX,
        },
{
    let ghost views = chunk_views(chunks@);
    let mut packet = AclBuffer::new();
    let mut i: usize = 0;
    while i < chunks.len()
        invariant
            i <= chunks@.len(),
            views == chunk_views(chunks@),
            packet@ == spec_flatten(views.take(i as int)),
            packet@.len() <= ACL_PACKET_MAX,
        decreases chunks@.len() - i,
    {
        let chunk = chunks[i].as_slice();
        proof {
            assert(views.take(i + 1).drop_last() == views.take(i as int));
            assert(views.take(i + 1).last() == chunk@);
        }
        match packet.extend_from_slice(chunk) {
            Ok(()) => {},
            Err(_) => {
                proof {
                    lemma_flatten_prefix_len(views, i + 1);
                }
                return Err(BLE_ERR_MEM_CAPACITY);
            },
        }
        i = i + 1;
    }
    assert(views.take(chunks@.len() as int) == views);
    Ok(packet)
}

/// Starting a poll: whether it starts, and whether a poll is then in flight.
pub open spec fn spec_begin(registered: bool, busy: bool) -> (bool, bool) {
    let began = registered && !busy;
    (began, busy || began)
}

/// The registration of the running HCI pump, through which blocked waits
/// drive it too, and whether a poll of it is in flight (which keeps polls
/// from nesting).
pub struct PumpSlot<F> {
    fut: Option<F>,
    busy: bool,
}

impl<F> PumpSlot<F> {
    /// The registered pump, if any.
    pub closed spec fn registered(&self) -> Option<F> {
        self.fut
    }

    /// Whether a poll is in flight.
    pub closed spec fn busy(&self) -> bool {
        self.busy
    }

    /// No pump registered.
    pub fn new() -> (r: Self)
        ensures
            r.registered() is None,
            !r.busy(),
    {
        PumpSlot { fut: None, busy: false }
    }

    /// Registers the pump of a running driver.
    pub fn register(&mut self, fut: F)
        requires
            old(self).registered() is None,
        ensures
            final(self).registered() == Some(fut),
            !final(self).busy(),
    {
        self.fut = Some(fut);
        self.busy = false;
    }

    /// Removes the registration (when the driver's run ends).
    pub fn unregister(&mut self)
        ensures
            final(self).registered() is None,
            !final(self).busy(),
    {
        self.fut = None;
        self.busy = false;
    }

    /// Starts a poll of the registered pump: refused when none is registered
    /// or a poll is already in flight.
    pub fn begin_poll(&mut self) -> (began: bool)
        ensures
            (began, final(self).busy()) == spec_begin(old(self).registered() is Some, old(self).busy()),
            final(self).registered() == old(self).registered(),
    {
        if self.busy {
            false
        } else if self.fut.is_some() {
            self.busy = true;
            true
        } else {
            false
        }
    }

    /// The registered pump.
    pub fn pump(&self) -> (r: Option<&F>)
        ensures
            match r {
                Some(f) => self.registered() == Some(*f),
                None => self.registered() is None,
            },
    {
        self.fut.as_ref()
    }

    /// Ends the poll in flight.
    pub fn end_poll(&mut self)
        ensures
            final(self).registered() == old(self).registered(),
            !final(self).busy(),
    {
        self.busy = false;
    }
}

/// Polls of the pump never nest: once a poll has started, another is
/// refused until it ends; with no poll in flight (after `end_poll`), a
/// registered pump can be polled.
pub proof fn law_pump_polls_never_nest(registered: bool, busy: bool)
    ensures
        spec_begin(registered, busy).0 ==> !spec_begin(registered, spec_begin(registered, busy).1).0,
        spec_begin(registered, false).0 == registered,
{
}

/// `n` begins in a row with no `end_poll` between them, starting from the
/// busy flag `busy`: how many of them started a poll, and whether a poll is
/// then in flight.
pub open spec fn spec_begins(registered: bool, busy: bool, n: nat) -> (nat, bool)
    decreases n,
{
    if n == 0 {
        (0, busy)
    } else {
        let (started, b) = spec_begins(registered, busy, (n - 1) as nat);
        let (began, b2) = spec_begin(registered, b);
        (if began {
            started + 1
        } else {
            started
        }, b2)
    }
}

/// A refused begin leaves the poll in flight, and of any run of begins with
/// no `end_poll` between them at most the first starts a poll: from an idle
/// slot exactly one starts when a pump is registered and none otherwise,
/// and from a busy slot none starts.
pub proof fn law_one_poll_until_end(registered: bool, busy: bool, n: nat)
    ensures
        busy ==> spec_begin(registered, busy) == (false, true),
        spec_begins(registered, true, n) == (0nat, true),
        n >= 1 ==> spec_begins(registered, false, n) == (if registered {
            1nat
        } else {
            0nat
        }, registered),
    decreases n,
{
    if n > 0 {
        law_one_poll_until_end(registered, busy, (n - 1) as nat);
        assert(spec_begins(registered, false, 0) == (0nat, false));
        assert(spec_begins(registered, true, 0) == (0nat, true));
        if n > 1 {
            let (st, b) = spec_begins(registered, false, (n - 1) as nat);
            assert(b == registered);
        }
    }
}

/// The mode of the first entry of `s` for `op`, scanning from the front.
pub open spec fn find_route(s: Seq<CmdRoute>, op: u16) -> Option<CmdMode>
    decreases s.len(),
{
    if s.len() == 0 {
        None
    } else if s[0].opcode == op {
        Some(s[0].mode)
    } else {
        find_route(s.drop_first(), op)
    }
}

proof fn lemma_first_route_unique(s: Seq<CmdRoute>, op: u16, i: int, j: int)
    requires
        first_route(s, op, i),
        first_route(s, op, j),
    ensures
        i == j,
{
    if i < j {
        assert(s[i].opcode != op);
    } else if j < i {
        assert(s[j].opcode != op);
    }
}

/// The dispatcher's lookup is a scan from the front for the opcode.
proof fn lemma_route_is_find(s: Seq<CmdRoute>, op: u16)
    ensures
        spec_route(s, op) == find_route(s, op),
    decreases s.len(),
{
    if s.len() == 0 {
        assert(!exists|i: int| first_route(s, op, i));
    } else if s[0].opcode == op {
        assert(first_route(s, op, 0));
        let k = choose|k: int| first_route(s, op, k);
        lemma_first_route_unique(s, op, 0, k);
    } else {
        let t = s.drop_first();
        lemma_route_is_find(t, op);
        if exists|k: int| first_route(t, op, k) {
            let k = choose|k: int| first_route(t, op, k);
            assert forall|j: int| 0 <= j < k + 1 implies s[j].opcode != op by {
                if j > 0 {
                    assert(s[j] == t[j - 1]);
                }
            }
            assert(s[k + 1] == t[k]);
            assert(first_route(s, op, k + 1));
            let c = choose|c: int| first_route(s, op, c);
            lemma_first_route_unique(s, op, k + 1, c);
        } else {
            if exists|c: int| first_route(s, op, c) {
                let c = choose|c: int| first_route(s, op, c);
                assert(c != 0);
                assert forall|j: int| 0 <= j < c - 1 implies t[j].opcode != op by {
                    assert(t[j] == s[j + 1]);
                }
                assert(t[c - 1] == s[c]);
                assert(first_route(t, op, c - 1));
            }
        }
    }
}

proof fn lemma_find_concat(a: Seq<CmdRoute>, b: Seq<CmdRoute>, op: u16)
    ensures
        find_route(a + b, op) == (match find_route(a, op) {
            Some(m) => Some(m),
            None => find_route(b, op),
        }),
    decreases a.len(),
{
    if a.len() == 0 {
        assert(a + b =~= b);
    } else {
        assert((a + b)[0] == a[0]);
        assert((a + b).drop_first() =~= a.drop_first() + b);
        lemma_find_concat(a.drop_first(), b, op);
    }
}

proof fn lemma_find_when(on: bool, part: Seq<CmdRoute>, op: u16)
    ensures
        find_route(spec_when(on, part), op) == (if on {
            find_route(part, op)
        } else {
            None
        }),
{
}

/// What each part of the table routes asynchronously.
proof fn lemma_part_modes(op: u16)
    ensures
        find_route(spec_core_cmds(), op) != Some(CmdMode::Async),
        find_route(spec_broadcaster_cmds(), op) != Some(CmdMode::Async),
        find_route(spec_observer_cmds(), op) != Some(CmdMode::Async),
        find_route(spec_conn_cmds(), op) == Some(CmdMode::Async) ==> op == 0x2013 || op == 0x2016
            || op == 0x041d,
        find_route(spec_central_cmds(), op) == Some(CmdMode::Async) ==> op == 0x200d,
        find_route(spec_security_cmds(), op) == Some(CmdMode::Async) ==> op == 0x2019,
{
    reveal_with_fuel(find_route, 20);
}

/// The core commands hold none of the asynchronous ones, nor Disconnect.
proof fn lemma_core_routes()
    ensures
        find_route(spec_core_cmds(), 0x2013) is None,
        find_route(spec_core_cmds(), 0x2016) is None,
        find_route(spec_core_cmds(), 0x041d) is None,
        find_route(spec_core_cmds(), 0x0406) is None,
        find_route(spec_core_cmds(), 0x200d) is None,
        find_route(spec_core_cmds(), 0x2019) is None,
{
    reveal_with_fuel(find_route, 20);
}

/// Where the connection commands route.
proof fn lemma_conn_routes()
    ensures
        find_route(spec_conn_cmds(), 0x2013) == Some(CmdMode::Async),
        find_route(spec_conn_cmds(), 0x2016) == Some(CmdMode::Async),
        find_route(spec_conn_cmds(), 0x041d) == Some(CmdMode::Async),
        find_route(spec_conn_cmds(), 0x0406) == Some(CmdMode::Sync),
        find_route(spec_conn_cmds(), 0x200d) is None,
        find_route(spec_conn_cmds(), 0x2019) is None,
{
    reveal_with_fuel(find_route, 15);
}

/// Where the role commands of advertising, scanning, initiating and
/// security route.
proof fn lemma_role_routes()
    ensures
        find_route(spec_broadcaster_cmds(), 0x200d) is None,
        find_route(spec_broadcaster_cmds(), 0x2019) is None,
        find_route(spec_observer_cmds(), 0x200d) is None,
        find_route(spec_observer_cmds(), 0x2019) is None,
        find_route(spec_central_cmds(), 0x200d) == Some(CmdMode::Async),
        find_route(spec_central_cmds(), 0x2019) is None,
        find_route(spec_security_cmds(), 0x2019) == Some(CmdMode::Async),
{
    reveal_with_fuel(find_route, 5);
}

/// The dispatcher runs each command under the mode the HCI specification
/// gives it: LE Connection Update, LE Read Remote Features and Read Remote
/// Version Information (with connections), LE Create Connection (central)
/// and LE Enable Encryption (security) are asynchronous, acknowledged by a
/// Command Status; every other command of the table, Disconnect among them,
/// is synchronous, acknowledged by a Command Complete.
pub proof fn law_command_modes(r: CmdRoles, op: u16)
    ensures
        spec_route(spec_command_table(r), op) == Some(CmdMode::Async) ==> (op == 0x2013 || op
            == 0x2016 || op == 0x041d || op == 0x200d || op == 0x2019),
        r.connections ==> {
            &&& spec_route(spec_command_table(r), 0x2013) == Some(CmdMode::Async)
            &&& spec_route(spec_command_table(r), 0x2016) == Some(CmdMode::Async)
            &&& spec_route(spec_command_table(r), 0x041d) == Some(CmdMode::Async)
            &&& spec_route(spec_command_table(r), 0x0406) == Some(CmdMode::Sync)
        },
        r.central ==> spec_route(spec_command_table(r), 0x200d) == Some(CmdMode::Async),
        r.security ==> spec_route(spec_command_table(r), 0x2019) == Some(CmdMode::Async),
{
    let w1 = spec_when(r.connections, spec_conn_cmds());
    let w2 = spec_when(r.broadcaster, spec_broadcaster_cmds());
    let w3 = spec_when(r.observer, spec_observer_cmds());
    let w4 = spec_when(r.central, spec_central_cmds());
    let w5 = spec_when(r.security, spec_security_cmds());
    let t1 = spec_core_cmds() + w1;
    let t2 = t1 + w2;
    let t3 = t2 + w3;
    let t4 = t3 + w4;
    let t5 = t4 + w5;
    assert(spec_command_table(r) == t5);
    lemma_part_modes(op);
    lemma_core_routes();
    lemma_conn_routes();
    lemma_role_routes();
    assert forall|o: u16| true implies {
        &&& find_route(t1, o) == (match find_route(spec_core_cmds(), o) {
            Some(m) => Some(m),
            None => find_route(w1, o),
        })
        &&& find_route(t2, o) == (match find_route(t1, o) {
            Some(m) => Some(m),
            None => find_route(w2, o),
        })
        &&& find_route(t3, o) == (match find_route(t2, o) {
            Some(m) => Some(m),
            None => find_route(w3, o),
        })
        &&& find_route(t4, o) == (match find_route(t3, o) {
            Some(m) => Some(m),
            None => find_route(w4, o),
        })
        &&& find_route(t5, o) == (match find_route(t4, o) {
            Some(m) => Some(m),
            None => find_route(w5, o),
        })
        &&& find_route(w1, o) == (if r.connections { find_route(spec_conn_cmds(), o) } else { None })
        &&& find_route(w2, o) == (if r.broadcaster { find_route(spec_broadcaster_cmds(), o) } else { None })
        &&& find_route(w3, o) == (if r.observer { find_route(spec_observer_cmds(), o) } else { None })
        &&& find_route(w4, o) == (if r.central { find_route(spec_central_cmds(), o) } else { None })
        &&& find_route(w5, o) == (if r.security { find_route(spec_security_cmds(), o) } else { None })
        &&& spec_route(t5, o) == find_route(t5, o)
    } by {
        lemma_find_concat(spec_core_cmds(), w1, o);
        lemma_find_concat(t1, w2, o);
        lemma_find_concat(t2, w3, o);
        lemma_find_concat(t3, w4, o);
        lemma_find_concat(t4, w5, o);
        lemma_find_when(r.connections, spec_conn_cmds(), o);
        lemma_find_when(r.broadcaster, spec_broadcaster_cmds(), o);
        lemma_find_when(r.observer, spec_observer_cmds(), o);
        lemma_find_when(r.central, spec_central_cmds(), o);
        lemma_find_when(r.security, spec_security_cmds(), o);
        lemma_route_is_find(t5, o);
    }
}

} // verus!
