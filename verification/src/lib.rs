//! Verified core logic of a Rust host for the esp-nimble BLE stack: the
//! syscfg feature mapping of the build, the porting-layer state machines
//! (event queues, callout timers, mutexes, semaphores), the HCI
//! acknowledgement framing, GATT service tables and the decoding of host
//! events into safe Rust values.
use vstd::prelude::*;

pub mod builder;
pub mod clog;
pub mod driver;
pub mod features;
pub mod gap;
pub mod gatt;
pub mod hci;
pub mod l2cap;
pub mod mbuf;
pub mod npl;
pub mod settings;
pub mod text;
pub mod tooling;

use crate::text::{hex_char, push_hex, push_signed_decimal, spec_hex, spec_signed_decimal};

verus! {

/// A connection handle.
pub type ConnHandle = u16;

/// The "no connection" handle: *local* GATT reads and writes carry this
/// instead of a real connection handle.
pub const CONN_HANDLE_NONE: ConnHandle = 0xffff;

// The host return codes (`BLE_HS_E*`).
pub const BLE_HS_EALREADY: i32 = 2;

pub const BLE_HS_EINVAL: i32 = 3;

pub const BLE_HS_ENOENT: i32 = 5;

pub const BLE_HS_ENOMEM: i32 = 6;

pub const BLE_HS_ENOTCONN: i32 = 7;

pub const BLE_HS_EBADDATA: i32 = 10;

pub const BLE_HS_EDONE: i32 = 14;

pub const BLE_HS_EBUSY: i32 = 15;

pub const BLE_HS_ESTALLED: i32 = 31;

/// `BLE_UUID_TYPE_16`.
pub const BLE_UUID_TYPE_16: u8 = 16;

/// `BLE_UUID_TYPE_128`.
pub const BLE_UUID_TYPE_128: u8 = 128;

/// An error code from the NimBLE host (the `BLE_HS_E*` namespace), or 0.
#[derive(Clone, Copy, Debug, PartialEq, Eq, Structural)]
pub struct BleError(i32);

impl BleError {
    /// The raw code.
    pub closed spec fn spec_code(&self) -> i32 {
        self.0
    }

    /// The error of a raw code.
    pub closed spec fn spec_new(code: i32) -> BleError {
        BleError(code)
    }

    /// Creates an error from a raw NimBLE host return code.
    pub fn new(code: i32) -> (r: Self)
        ensures
            r == BleError::spec_new(code),
            r.spec_code() == code,
    {
        BleError(code)
    }

    /// The raw NimBLE host return code.
    pub fn code(&self) -> (r: i32)
        ensures
            r == self.spec_code(),
    {
        self.0
    }

    /// Converts a raw NimBLE host return code into a result: `Ok` for 0,
    /// the code as an error otherwise.
    pub fn check(code: i32) -> (r: Result<(), Self>)
        ensures
            code == 0 ==> r == Ok::<(), BleError>(()),
            code != 0 ==> r == Err::<(), BleError>(BleError::spec_new(code)),
            code != 0 ==> (r matches Err(e) && e.spec_code() == code),
    {
        if code == 0 {
            Ok(())
        } else {
            Err(BleError(code))
        }
    }

    /// The human-readable message: `BLE host error <code>`.
    pub fn to_string(&self) -> (r: String)
        ensures
            r@ == "BLE host error "@ + spec_signed_decimal(self.spec_code() as int),
    {
        let mut s = String::from_str("BLE host error ");
        push_signed_decimal(&mut s, self.0);
        s
    }
}

/// Events of the host stack itself.
#[derive(Clone, Copy, Debug, PartialEq, Eq, Structural)]
pub enum HostEvent {
    /// The host and controller are in sync; the stack is usable from now on.
    Sync,
    /// The host has reset itself (e.g. after a fatal HCI error); the carried
    /// value is a `BLE_HS_E*` reason code. A sync will follow.
    Reset(i32),
}

/// `base` to the power `n`.
pub open spec fn pow_nat(base: nat, n: nat) -> nat
    decreases n,
{
    if n == 0 {
        1
    } else {
        base * pow_nat(base, (n - 1) as nat)
    }
}

proof fn lemma_pow_nat_positive(base: nat, n: nat)
    requires
        base > 0,
    ensures
        pow_nat(base, n) > 0,
    decreases n,
{
    if n > 0 {
        lemma_pow_nat_positive(base, (n - 1) as nat);
        assert(base * pow_nat(base, (n - 1) as nat) > 0) by (nonlinear_arith)
            requires
                base > 0,
                pow_nat(base, (n - 1) as nat) > 0,
        ;
    }
}

proof fn lemma_pow_nat_mono(base: nat, m: nat, n: nat)
    requires
        base > 0,
        m <= n,
    ensures
        pow_nat(base, m) <= pow_nat(base, n),
    decreases n,
{
    if m < n {
        lemma_pow_nat_mono(base, m, (n - 1) as nat);
        lemma_pow_nat_positive(base, (n - 1) as nat);
        assert(pow_nat(base, (n - 1) as nat) <= base * pow_nat(base, (n - 1) as nat)) by (nonlinear_arith)
            requires
                base > 0,
        ;
    }
}

/// The value of little-endian bytes.
pub open spec fn spec_le_value(bytes: Seq<u8>) -> nat
    decreases bytes.len(),
{
    if bytes.len() == 0 {
        0
    } else {
        bytes[0] as nat + 256 * spec_le_value(bytes.drop_first())
    }
}

proof fn lemma_le_value_bound(bytes: Seq<u8>)
    ensures
        spec_le_value(bytes) < pow_nat(256, bytes.len()),
    decreases bytes.len(),
{
    if bytes.len() > 0 {
        lemma_le_value_bound(bytes.drop_first());
        let p = pow_nat(256, (bytes.len() - 1) as nat);
        let v = spec_le_value(bytes.drop_first());
        assert(bytes[0] as nat + 256 * v < 256 * p) by (nonlinear_arith)
            requires
                v < p,
                bytes[0] < 256,
        ;
    }
}

/// The UUID a raw UUID reads as: a 128-bit type reads the 16 little-endian
/// bytes of its body; every other type reads as a 16-bit UUID from the first
/// two.
pub open spec fn spec_uuid_from_raw(uuid_type: u8, body: Seq<u8>) -> BleUuid {
    if uuid_type == BLE_UUID_TYPE_128 {
        BleUuid::Uuid128(spec_le_value(body.subrange(0, 16)) as u128)
    } else {
        BleUuid::Uuid16(spec_le_value(body.subrange(0, 2)) as u16)
    }
}

/// A BLE UUID, either 16-bit (assigned) or 128-bit (vendor-specific).
#[derive(Clone, Copy, Debug, PartialEq, Eq, Structural)]
pub enum BleUuid {
    Uuid16(u16),
    Uuid128(u128),
}

impl BleUuid {
    /// A 16-bit UUID.
    pub fn uuid16(uuid: u16) -> (r: Self)
        ensures
            r == BleUuid::Uuid16(uuid),
    {
        BleUuid::Uuid16(uuid)
    }

    /// A 128-bit UUID.
    pub fn uuid128(uuid: u128) -> (r: Self)
        ensures
            r == BleUuid::Uuid128(uuid),
    {
        BleUuid::Uuid128(uuid)
    }

    /// The `BLE_UUID_TYPE_*` of the UUID.
    pub fn uuid_type(&self) -> (r: u8)
        ensures
            r == (match self {
                BleUuid::Uuid16(_) => BLE_UUID_TYPE_16,
                BleUuid::Uuid128(_) => BLE_UUID_TYPE_128,
            }),
    {
        match self {
            BleUuid::Uuid16(_) => BLE_UUID_TYPE_16,
            BleUuid::Uuid128(_) => BLE_UUID_TYPE_128,
        }
    }

    /// Reads a UUID from its raw form: the type byte of its header, and the
    /// little-endian body that follows. A 128-bit type reads 16 bytes; every
    /// other type reads as a 16-bit UUID (only 16- and 128-bit UUIDs are
    /// modelled).
    pub fn from_raw(uuid_type: u8, body: &[u8]) -> (r: Self)
        requires
            body@.len() >= (if uuid_type == BLE_UUID_TYPE_128 {
                16int
            } else {
                2int
            }),
        ensures
            r == spec_uuid_from_raw(uuid_type, body@),
    {
        let n: usize = if uuid_type == BLE_UUID_TYPE_128 {
            16
        } else {
            2
        };
        let ghost b = body@.subrange(0, n as int);
        let mut acc: u128 = 0;
        let mut i: usize = n;
        assert(b.subrange(n as int, n as int) =~= Seq::<u8>::empty());
        while i > 0
            invariant
                i <= n,
                n <= 16,
                n <= body@.len(),
                b == body@.subrange(0, n as int),
                acc as nat == spec_le_value(b.subrange(i as int, n as int)),
            decreases i,
        {
            proof {
                let t = b.subrange(i - 1, n as int);
                assert(t.drop_first() =~= b.subrange(i as int, n as int));
                assert(t[0] == body@[i - 1]);
                lemma_le_value_bound(t);
                lemma_pow_nat_mono(256, t.len(), 16);
                reveal_with_fuel(pow_nat, 17);
                assert(pow_nat(256, 16) == 0x1_0000_0000_0000_0000_0000_0000_0000_0000);
            }
            acc = (body[i - 1] as u128) + 256 * acc;
            i = i - 1;
        }
        assert(b.subrange(0, n as int) =~= b);
        proof {
            lemma_le_value_bound(b);
            reveal_with_fuel(pow_nat, 3);
            if n == 2 {
                assert(pow_nat(256, 2) == 65536);
            }
        }
        if uuid_type == BLE_UUID_TYPE_128 {
            BleUuid::Uuid128(acc)
        } else {
            BleUuid::Uuid16(acc as u16)
        }
    }

    /// The debug rendering: `Uuid16(0x2a37)` (four lowercase hexadecimal
    /// digits) or `Uuid128(0x...)` (thirty-two).
    pub fn to_debug_string(&self) -> (r: String)
        ensures
            r@ == (match self {
                BleUuid::Uuid16(v) => "Uuid16(0x"@ + spec_hex(*v as nat, 4) + ")"@,
                BleUuid::Uuid128(v) => "Uuid128(0x"@ + spec_hex(*v as nat, 32) + ")"@,
            }),
    {
        match self {
            BleUuid::Uuid16(v) => {
                let mut s = String::from_str("Uuid16(0x");
                push_hex(&mut s, *v as u64, 4);
                s.append(")");
                s
            },
            BleUuid::Uuid128(v) => {
                let mut s = String::from_str("Uuid128(0x");
                let hi = (*v / 0x1_0000_0000_0000_0000) as u64;
                let lo = (*v % 0x1_0000_0000_0000_0000) as u64;
                push_hex(&mut s, hi, 16);
                push_hex(&mut s, lo, 16);
                proof {
                    lemma_hex_split(*v as nat, 16, 16);
                    reveal_with_fuel(pow_nat, 17);
                    assert(pow_nat(16, 16) == 0x1_0000_0000_0000_0000);
                }
                s.append(")");
                s
            },
        }
    }
}

/// Rendering `a + b` digits of `n` is rendering the high part in `a`
/// digits, then the low part in `b`.
proof fn lemma_hex_split(n: nat, a: nat, b: nat)
    ensures
        spec_hex(n, a + b) == spec_hex(n / pow_nat(16, b), a) + spec_hex(n % pow_nat(16, b), b),
    decreases b,
{
    lemma_pow_nat_positive(16, b);
    if b == 0 {
        assert(spec_hex(n % 1, 0) =~= Seq::<char>::empty());
        assert(spec_hex(n, a + b) =~= spec_hex(n / 1, a) + spec_hex(n % 1, 0));
    } else {
        lemma_hex_split(n / 16, a, (b - 1) as nat);
        let p = pow_nat(16, (b - 1) as nat);
        lemma_pow_nat_positive(16, (b - 1) as nat);
        assert(pow_nat(16, b) == 16 * p);
        vstd::arithmetic::div_mod::lemma_div_denominator(n as int, 16, p as int);
        assert((n / 16) / p == n / (16 * p));
        lemma_mod_div_16(n as int, p as int);
        assert((n % (16 * p)) % 16 == n % 16) by {
            vstd::arithmetic::div_mod::lemma_mod_mod(n as int, 16, p as int);
        }
        assert(spec_hex(n % (16 * p), b) == spec_hex((n % (16 * p)) / 16, (b - 1) as nat).push(
            hex_char((n % (16 * p)) % 16),
        ));
        assert(spec_hex(n, a + b) == spec_hex(n / 16, (a + b - 1) as nat).push(hex_char(n % 16)));
        assert(spec_hex(n, a + b) =~= spec_hex(n / (16 * p), a) + spec_hex(n % (16 * p), b));
    }
}

proof fn lemma_mod_div_16(n: int, p: int)
    requires
        n >= 0,
        p > 0,
    ensures
        (n % (16 * p)) / 16 == (n / 16) % p,
{
    vstd::arithmetic::div_mod::lemma_mod_breakdown(n, 16, p);
    let k = (n / 16) % p;
    let r = n % 16;
    assert(0 <= k);
    assert((16 * k + r) / 16 == k);
}

/// A raw device address: type and six bytes, least significant first.
#[derive(Clone, Copy, Debug)]
pub struct RawAddr {
    pub type_: u8,
    pub val: [u8; 6],
}

/// A BLE device address (type + 6 bytes).
#[derive(Clone, Copy, Debug)]
pub struct BleAddr(RawAddr);

impl BleAddr {
    pub closed spec fn spec_raw(&self) -> RawAddr {
        self.0
    }

    pub fn new(kind: u8, val: [u8; 6]) -> (r: Self)
        ensures
            r.spec_raw() == (RawAddr { type_: kind, val }),
    {
        BleAddr(RawAddr { type_: kind, val })
    }

    /// The raw address.
    pub fn raw(&self) -> (r: &RawAddr)
        ensures
            *r == self.spec_raw(),
    {
        &self.0
    }

    /// The address type.
    pub fn kind(&self) -> (r: u8)
        ensures
            r == self.spec_raw().type_,
    {
        self.0.type_
    }

    /// The address bytes, least significant first.
    pub fn val(&self) -> (r: [u8; 6])
        ensures
            r == self.spec_raw().val,
    {
        self.0.val
    }

    /// The debug rendering: the bytes most significant first, as
    /// colon-separated lowercase hexadecimal pairs, then `/` and the type in
    /// decimal (`c0:ff:ee:00:00:01/1`).
    pub fn to_debug_string(&self) -> (r: String)
        ensures
            r@ == ({
                let v = self.spec_raw().val@;
                spec_hex(v[5] as nat, 2) + ":"@ + spec_hex(v[4] as nat, 2) + ":"@ + spec_hex(
                    v[3] as nat,
                    2,
                ) + ":"@ + spec_hex(v[2] as nat, 2) + ":"@ + spec_hex(v[1] as nat, 2) + ":"@
                    + spec_hex(v[0] as nat, 2) + "/"@ + spec_signed_decimal(
                    self.spec_raw().type_ as int,
                )
            }),
    {
        let v = self.0.val;
        let mut s = String::new();
        push_hex(&mut s, v[5] as u64, 2);
        s.append(":");
        push_hex(&mut s, v[4] as u64, 2);
        s.append(":");
        push_hex(&mut s, v[3] as u64, 2);
        s.append(":");
        push_hex(&mut s, v[2] as u64, 2);
        s.append(":");
        push_hex(&mut s, v[1] as u64, 2);
        s.append(":");
        push_hex(&mut s, v[0] as u64, 2);
        s.append("/");
        push_signed_decimal(&mut s, self.0.type_ as i32);
        assert(s@ =~= spec_hex(v@[5] as nat, 2) + ":"@ + spec_hex(v@[4] as nat, 2) + ":"@ + spec_hex(
            v@[3] as nat,
            2,
        ) + ":"@ + spec_hex(v@[2] as nat, 2) + ":"@ + spec_hex(v@[1] as nat, 2) + ":"@ + spec_hex(
            v@[0] as nat,
            2,
        ) + "/"@ + spec_signed_decimal(self.0.type_ as int));
        s
    }
}

/// A slot for a subscribed callback.
pub struct CallbackSlot<F> {
    callback: Option<F>,
}

impl<F> CallbackSlot<F> {
    /// What the slot holds.
    pub closed spec fn view(&self) -> Option<F> {
        self.callback
    }

    /// An empty slot.
    pub fn new() -> (r: Self)
        ensures
            r@ is None,
    {
        CallbackSlot { callback: None }
    }

    /// The subscribed callback, if any.
    pub fn get(&self) -> (r: Option<&F>)
        ensures
            match r {
                Some(f) => self@ == Some(*f),
                None => self@ is None,
            },
    {
        self.callback.as_ref()
    }

    /// Subscribes `callback`, or unsubscribes with `None`.
    pub fn set(&mut self, callback: Option<F>)
        ensures
            final(self)@ == callback,
    {
        self.callback = callback;
    }
}

} // verus!
