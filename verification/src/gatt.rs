//! GATT: shared types, the characteristic flags and the ATT MTU query.
use vstd::prelude::*;

use crate::{BleError, BLE_HS_ENOTCONN};

pub mod client;
pub mod server;

verus! {

/// A GATT attribute handle (e.g. a characteristic's value handle).
pub type AttrHandle = u16;

/// The negotiated ATT MTU of a connection, from what the host reports for
/// it: 0 means the connection does not exist.
pub fn att_mtu_result(mtu: u16) -> (r: Result<u16, BleError>)
    ensures
        mtu == 0 ==> (r matches Err(e) && e.spec_code() == BLE_HS_ENOTCONN),
        mtu != 0 ==> r == Ok::<u16, BleError>(mtu),
{
    if mtu == 0 {
        Err(BleError::new(BLE_HS_ENOTCONN))
    } else {
        Ok(mtu)
    }
}

/// NimBLE's `BLE_GATT_CHR_F_BROADCAST`.
pub const BLE_GATT_CHR_F_BROADCAST: u32 = 0x0001;

/// NimBLE's `BLE_GATT_CHR_F_READ`.
pub const BLE_GATT_CHR_F_READ: u32 = 0x0002;

/// NimBLE's `BLE_GATT_CHR_F_WRITE_NO_RSP`.
pub const BLE_GATT_CHR_F_WRITE_NO_RSP: u32 = 0x0004;

/// NimBLE's `BLE_GATT_CHR_F_WRITE`.
pub const BLE_GATT_CHR_F_WRITE: u32 = 0x0008;

/// NimBLE's `BLE_GATT_CHR_F_NOTIFY`.
pub const BLE_GATT_CHR_F_NOTIFY: u32 = 0x0010;

/// NimBLE's `BLE_GATT_CHR_F_INDICATE`.
pub const BLE_GATT_CHR_F_INDICATE: u32 = 0x0020;

/// NimBLE's `BLE_GATT_CHR_F_AUTH_SIGN_WRITE`.
pub const BLE_GATT_CHR_F_AUTH_SIGN_WRITE: u32 = 0x0040;

/// NimBLE's `BLE_GATT_CHR_F_RELIABLE_WRITE`.
pub const BLE_GATT_CHR_F_RELIABLE_WRITE: u32 = 0x0080;

/// NimBLE's `BLE_GATT_CHR_F_AUX_WRITE`.
pub const BLE_GATT_CHR_F_AUX_WRITE: u32 = 0x0100;

/// NimBLE's `BLE_GATT_CHR_F_READ_ENC`.
pub const BLE_GATT_CHR_F_READ_ENC: u32 = 0x0200;

/// NimBLE's `BLE_GATT_CHR_F_READ_AUTHEN`.
pub const BLE_GATT_CHR_F_READ_AUTHEN: u32 = 0x0400;

/// NimBLE's `BLE_GATT_CHR_F_READ_AUTHOR`.
pub const BLE_GATT_CHR_F_READ_AUTHOR: u32 = 0x0800;

/// NimBLE's `BLE_GATT_CHR_F_WRITE_ENC`.
pub const BLE_GATT_CHR_F_WRITE_ENC: u32 = 0x1000;

/// NimBLE's `BLE_GATT_CHR_F_WRITE_AUTHEN`.
pub const BLE_GATT_CHR_F_WRITE_AUTHEN: u32 = 0x2000;

/// NimBLE's `BLE_GATT_CHR_F_WRITE_AUTHOR`.
pub const BLE_GATT_CHR_F_WRITE_AUTHOR: u32 = 0x4000;

/// NimBLE's `BLE_GATT_CHR_F_NOTIFY_INDICATE_ENC`.
pub const BLE_GATT_CHR_F_NOTIFY_INDICATE_ENC: u32 = 0x8000;

/// NimBLE's `BLE_GATT_CHR_F_NOTIFY_INDICATE_AUTHEN`.
pub const BLE_GATT_CHR_F_NOTIFY_INDICATE_AUTHEN: u32 = 0x10000;

/// NimBLE's `BLE_GATT_CHR_F_NOTIFY_INDICATE_AUTHOR`.
pub const BLE_GATT_CHR_F_NOTIFY_INDICATE_AUTHOR: u32 = 0x20000;

/// A GATT characteristic operation / permission flag (`BLE_GATT_CHR_F_*`).
#[derive(Clone, Copy, Debug, PartialEq, Eq, Structural)]
pub enum BleGattCharFlag {
    /// The value may be broadcast (sets the Broadcast property bit).
    Broadcast,
    /// The peer may read the value.
    Read,
    /// The peer may write the value without a response (ATT Write Command).
    WriteNoRsp,
    /// The peer may write the value with a response (ATT Write Request).
    Write,
    /// The value may be notified (unacknowledged).
    Notify,
    /// The value may be indicated (acknowledged).
    Indicate,
    /// The peer may write the value with a signature.
    AuthSignWrite,
    /// Sets the "Reliable Write" extended property.
    ReliableWrite,
    /// Sets the "Writable Auxiliaries" extended property.
    AuxWrite,
    /// Reads require an encrypted link.
    ReadEnc,
    /// Reads require an encrypted link from an authenticated pairing.
    ReadAuthen,
    /// Reads require authorization.
    ReadAuthor,
    /// Writes require an encrypted link.
    WriteEnc,
    /// Writes require an encrypted link from an authenticated pairing.
    WriteAuthen,
    /// Writes require authorization.
    WriteAuthor,
    /// Subscribing (writing the CCCD) requires an encrypted link.
    NotifyIndicateEnc,
    /// Subscribing requires an encrypted link from an authenticated pairing.
    NotifyIndicateAuthen,
    /// Subscribing requires authorization.
    NotifyIndicateAuthor,
}

/// The number of flags.
pub const FLAG_COUNT: u32 = 18;

impl BleGattCharFlag {
    /// The position of the flag in declaration order (its bit in a flag
    /// set).
    pub open spec fn spec_index(self) -> u32 {
        match self {
            BleGattCharFlag::Broadcast => 0,
            BleGattCharFlag::Read => 1,
            BleGattCharFlag::WriteNoRsp => 2,
            BleGattCharFlag::Write => 3,
            BleGattCharFlag::Notify => 4,
            BleGattCharFlag::Indicate => 5,
            BleGattCharFlag::AuthSignWrite => 6,
            BleGattCharFlag::ReliableWrite => 7,
            BleGattCharFlag::AuxWrite => 8,
            BleGattCharFlag::ReadEnc => 9,
            BleGattCharFlag::ReadAuthen => 10,
            BleGattCharFlag::ReadAuthor => 11,
            BleGattCharFlag::WriteEnc => 12,
            BleGattCharFlag::WriteAuthen => 13,
            BleGattCharFlag::WriteAuthor => 14,
            BleGattCharFlag::NotifyIndicateEnc => 15,
            BleGattCharFlag::NotifyIndicateAuthen => 16,
            BleGattCharFlag::NotifyIndicateAuthor => 17,
        }
    }

    /// The raw NimBLE flag bit (`BLE_GATT_CHR_F_*`).
    pub open spec fn spec_repr(self) -> u32 {
        match self {
            BleGattCharFlag::Broadcast => 0x0001,
            BleGattCharFlag::Read => 0x0002,
            BleGattCharFlag::WriteNoRsp => 0x0004,
            BleGattCharFlag::Write => 0x0008,
            BleGattCharFlag::Notify => 0x0010,
            BleGattCharFlag::Indicate => 0x0020,
            BleGattCharFlag::AuthSignWrite => 0x0040,
            BleGattCharFlag::ReliableWrite => 0x0080,
            BleGattCharFlag::AuxWrite => 0x0100,
            BleGattCharFlag::ReadEnc => 0x0200,
            BleGattCharFlag::ReadAuthen => 0x0400,
            BleGattCharFlag::ReadAuthor => 0x0800,
            BleGattCharFlag::WriteEnc => 0x1000,
            BleGattCharFlag::WriteAuthen => 0x2000,
            BleGattCharFlag::WriteAuthor => 0x4000,
            BleGattCharFlag::NotifyIndicateEnc => 0x8000,
            BleGattCharFlag::NotifyIndicateAuthen => 0x1_0000,
            BleGattCharFlag::NotifyIndicateAuthor => 0x2_0000,
        }
    }

    /// The flag at position `i` in declaration order.
    pub open spec fn spec_from_index(i: u32) -> Option<Self> {
        if i == 0 {
            Some(BleGattCharFlag::Broadcast)
        } else if i == 1 {
            Some(BleGattCharFlag::Read)
        } else if i == 2 {
            Some(BleGattCharFlag::WriteNoRsp)
        } else if i == 3 {
            Some(BleGattCharFlag::Write)
        } else if i == 4 {
            Some(BleGattCharFlag::Notify)
        } else if i == 5 {
            Some(BleGattCharFlag::Indicate)
        } else if i == 6 {
            Some(BleGattCharFlag::AuthSignWrite)
        } else if i == 7 {
            Some(BleGattCharFlag::ReliableWrite)
        } else if i == 8 {
            Some(BleGattCharFlag::AuxWrite)
        } else if i == 9 {
            Some(BleGattCharFlag::ReadEnc)
        } else if i == 10 {
            Some(BleGattCharFlag::ReadAuthen)
        } else if i == 11 {
            Some(BleGattCharFlag::ReadAuthor)
        } else if i == 12 {
            Some(BleGattCharFlag::WriteEnc)
        } else if i == 13 {
            Some(BleGattCharFlag::WriteAuthen)
        } else if i == 14 {
            Some(BleGattCharFlag::WriteAuthor)
        } else if i == 15 {
            Some(BleGattCharFlag::NotifyIndicateEnc)
        } else if i == 16 {
            Some(BleGattCharFlag::NotifyIndicateAuthen)
        } else if i == 17 {
            Some(BleGattCharFlag::NotifyIndicateAuthor)
        } else {
            None
        }
    }

    /// The raw NimBLE flag bit (`BLE_GATT_CHR_F_*`).
    pub fn repr(self) -> (r: u32)
        ensures
            r == self.spec_repr(),
    {
        match self {
            BleGattCharFlag::Broadcast => 0x0001,
            BleGattCharFlag::Read => 0x0002,
            BleGattCharFlag::WriteNoRsp => 0x0004,
            BleGattCharFlag::Write => 0x0008,
            BleGattCharFlag::Notify => 0x0010,
            BleGattCharFlag::Indicate => 0x0020,
            BleGattCharFlag::AuthSignWrite => 0x0040,
            BleGattCharFlag::ReliableWrite => 0x0080,
            BleGattCharFlag::AuxWrite => 0x0100,
            BleGattCharFlag::ReadEnc => 0x0200,
            BleGattCharFlag::ReadAuthen => 0x0400,
            BleGattCharFlag::ReadAuthor => 0x0800,
            BleGattCharFlag::WriteEnc => 0x1000,
            BleGattCharFlag::WriteAuthen => 0x2000,
            BleGattCharFlag::WriteAuthor => 0x4000,
            BleGattCharFlag::NotifyIndicateEnc => 0x8000,
            BleGattCharFlag::NotifyIndicateAuthen => 0x1_0000,
            BleGattCharFlag::NotifyIndicateAuthor => 0x2_0000,
        }
    }

    /// The position of the flag in declaration order.
    pub fn index(self) -> (r: u32)
        ensures
            r == self.spec_index(),
            r < FLAG_COUNT,
    {
        match self {
            BleGattCharFlag::Broadcast => 0,
            BleGattCharFlag::Read => 1,
            BleGattCharFlag::WriteNoRsp => 2,
            BleGattCharFlag::Write => 3,
            BleGattCharFlag::Notify => 4,
            BleGattCharFlag::Indicate => 5,
            BleGattCharFlag::AuthSignWrite => 6,
            BleGattCharFlag::ReliableWrite => 7,
            BleGattCharFlag::AuxWrite => 8,
            BleGattCharFlag::ReadEnc => 9,
            BleGattCharFlag::ReadAuthen => 10,
            BleGattCharFlag::ReadAuthor => 11,
            BleGattCharFlag::WriteEnc => 12,
            BleGattCharFlag::WriteAuthen => 13,
            BleGattCharFlag::WriteAuthor => 14,
            BleGattCharFlag::NotifyIndicateEnc => 15,
            BleGattCharFlag::NotifyIndicateAuthen => 16,
            BleGattCharFlag::NotifyIndicateAuthor => 17,
        }
    }

    /// The flag at position `i` in declaration order.
    pub fn from_index(i: u32) -> (r: Option<Self>)
        ensures
            r == Self::spec_from_index(i),
    {
        if i == 0 {
            Some(BleGattCharFlag::Broadcast)
        } else if i == 1 {
            Some(BleGattCharFlag::Read)
        } else if i == 2 {
            Some(BleGattCharFlag::WriteNoRsp)
        } else if i == 3 {
            Some(BleGattCharFlag::Write)
        } else if i == 4 {
            Some(BleGattCharFlag::Notify)
        } else if i == 5 {
            Some(BleGattCharFlag::Indicate)
        } else if i == 6 {
            Some(BleGattCharFlag::AuthSignWrite)
        } else if i == 7 {
            Some(BleGattCharFlag::ReliableWrite)
        } else if i == 8 {
            Some(BleGattCharFlag::AuxWrite)
        } else if i == 9 {
            Some(BleGattCharFlag::ReadEnc)
        } else if i == 10 {
            Some(BleGattCharFlag::ReadAuthen)
        } else if i == 11 {
            Some(BleGattCharFlag::ReadAuthor)
        } else if i == 12 {
            Some(BleGattCharFlag::WriteEnc)
        } else if i == 13 {
            Some(BleGattCharFlag::WriteAuthen)
        } else if i == 14 {
            Some(BleGattCharFlag::WriteAuthor)
        } else if i == 15 {
            Some(BleGattCharFlag::NotifyIndicateEnc)
        } else if i == 16 {
            Some(BleGattCharFlag::NotifyIndicateAuthen)
        } else if i == 17 {
            Some(BleGattCharFlag::NotifyIndicateAuthor)
        } else {
            None
        }
    }
}

/// Whether bit `i` of `bits` is set.
pub open spec fn bit_set(bits: u32, i: u32) -> bool {
    (bits >> i) & 1 == 1
}

/// A set of characteristic flags: bit `i` stands for the flag at position
/// `i` (the representation of an `EnumSet`).
#[derive(Clone, Copy, Debug, PartialEq, Eq, Structural)]
pub struct BleGattCharFlags {
    bits: u32,
}

/// The raw flags of the set `bits`: the OR of the raw bits of the members
/// at positions below `n`.
pub open spec fn spec_flags_repr(bits: u32, n: u32) -> u32
    decreases n,
{
    if n == 0 {
        0
    } else {
        let prev = spec_flags_repr(bits, (n - 1) as u32);
        match BleGattCharFlag::spec_from_index((n - 1) as u32) {
            Some(f) => if bit_set(bits, (n - 1) as u32) {
                prev | f.spec_repr()
            } else {
                prev
            },
            None => prev,
        }
    }
}

impl BleGattCharFlags {
    /// The bits of the set.
    pub closed spec fn spec_bits(&self) -> u32 {
        self.bits
    }

    /// Whether `f` is in the set.
    pub open spec fn spec_contains(&self, f: BleGattCharFlag) -> bool {
        bit_set(self.spec_bits(), f.spec_index())
    }

    /// The raw flags of the set (see [`flags_to_repr`]).
    pub open spec fn spec_repr(&self) -> u32 {
        spec_flags_repr(self.spec_bits(), FLAG_COUNT)
    }

    /// The empty set.
    pub fn empty() -> (r: Self)
        ensures
            r.spec_bits() == 0,
    {
        BleGattCharFlags { bits: 0 }
    }

    /// The set with the given bits; bits beyond the last flag are dropped.
    pub fn from_bits(bits: u32) -> (r: Self)
        ensures
            r.spec_bits() == bits & 0x3ffff,
            r.spec_bits() <= 0x3ffff,
    {
        assert(bits & 0x3ffff <= 0x3ffff) by (bit_vector);
        BleGattCharFlags { bits: bits & 0x3ffff }
    }

    /// The bits of the set.
    pub fn bits(&self) -> (r: u32)
        ensures
            r == self.spec_bits(),
    {
        self.bits
    }

    /// The set with `f` added.
    pub fn with(self, f: BleGattCharFlag) -> (r: Self)
        ensures
            r.spec_bits() == self.spec_bits() | (1u32 << f.spec_index()),
            self.spec_bits() <= 0x3ffff ==> r.spec_bits() <= 0x3ffff,
    {
        let b = self.bits;
        let i = f.index();
        assert(i < 18 && b <= 0x3ffff ==> b | (1u32 << i) <= 0x3ffff) by (bit_vector);
        BleGattCharFlags { bits: self.bits | (1u32 << f.index()) }
    }

    /// Whether `f` is in the set.
    pub fn contains(&self, f: BleGattCharFlag) -> (r: bool)
        ensures
            r == self.spec_contains(f),
    {
        (self.bits >> f.index()) & 1 == 1
    }
}

/// Each flag's raw value is the bit at its position.
proof fn lemma_repr_is_bit(f: BleGattCharFlag)
    ensures
        f.spec_repr() == 1u32 << f.spec_index(),
{
    match f {
        BleGattCharFlag::Broadcast => assert(0x0001u32 == 1u32 << 0u32) by (bit_vector),
        BleGattCharFlag::Read => assert(0x0002u32 == 1u32 << 1u32) by (bit_vector),
        BleGattCharFlag::WriteNoRsp => assert(0x0004u32 == 1u32 << 2u32) by (bit_vector),
        BleGattCharFlag::Write => assert(0x0008u32 == 1u32 << 3u32) by (bit_vector),
        BleGattCharFlag::Notify => assert(0x0010u32 == 1u32 << 4u32) by (bit_vector),
        BleGattCharFlag::Indicate => assert(0x0020u32 == 1u32 << 5u32) by (bit_vector),
        BleGattCharFlag::AuthSignWrite => assert(0x0040u32 == 1u32 << 6u32) by (bit_vector),
        BleGattCharFlag::ReliableWrite => assert(0x0080u32 == 1u32 << 7u32) by (bit_vector),
        BleGattCharFlag::AuxWrite => assert(0x0100u32 == 1u32 << 8u32) by (bit_vector),
        BleGattCharFlag::ReadEnc => assert(0x0200u32 == 1u32 << 9u32) by (bit_vector),
        BleGattCharFlag::ReadAuthen => assert(0x0400u32 == 1u32 << 10u32) by (bit_vector),
        BleGattCharFlag::ReadAuthor => assert(0x0800u32 == 1u32 << 11u32) by (bit_vector),
        BleGattCharFlag::WriteEnc => assert(0x1000u32 == 1u32 << 12u32) by (bit_vector),
        BleGattCharFlag::WriteAuthen => assert(0x2000u32 == 1u32 << 13u32) by (bit_vector),
        BleGattCharFlag::WriteAuthor => assert(0x4000u32 == 1u32 << 14u32) by (bit_vector),
        BleGattCharFlag::NotifyIndicateEnc => assert(0x8000u32 == 1u32 << 15u32) by (bit_vector),
        BleGattCharFlag::NotifyIndicateAuthen => assert(0x1_0000u32 == 1u32 << 16u32) by (bit_vector),
        BleGattCharFlag::NotifyIndicateAuthor => assert(0x2_0000u32 == 1u32 << 17u32) by (bit_vector),
    }
}

/// The bits below position `n`.
pub open spec fn low_mask(n: u32) -> u32 {
    ((1u32 << n) - 1) as u32
}

/// Adding the bit at position `k` to the bits below it gives the bits up to
/// and including it.
proof fn lemma_mask_grows(b: u32, k: u32)
    requires
        k < 18,
    ensures
        (b >> k) & 1 == 1 ==> (b & low_mask(k)) | (1u32 << k) == b & low_mask((k + 1) as u32),
        (b >> k) & 1 != 1 ==> b & low_mask(k) == b & low_mask((k + 1) as u32),
{
    assert(k < 18 ==> ((b >> k) & 1 == 1 ==> (b & low_mask(k)) | (1u32 << k) == b & low_mask(
        (k + 1) as u32,
    ))) by (bit_vector);
    assert(k < 18 ==> ((b >> k) & 1 != 1 ==> b & low_mask(k) == b & low_mask((k + 1) as u32)))
        by (bit_vector);
}

proof fn lemma_flags_repr_mask(bits: u32, n: u32)
    requires
        n <= FLAG_COUNT,
    ensures
        spec_flags_repr(bits, n) == bits & low_mask(n),
    decreases n,
{
    if n == 0 {
        assert(bits & low_mask(0u32) == 0) by (bit_vector);
    } else {
        let k = (n - 1) as u32;
        lemma_flags_repr_mask(bits, k);
        let f = BleGattCharFlag::spec_from_index(k).unwrap();
        assert(BleGattCharFlag::spec_from_index(k) == Some(f));
        assert(f.spec_index() == k);
        lemma_repr_is_bit(f);
        lemma_mask_grows(bits, k);
        assert((k + 1) as u32 == n);
    }
}

/// The raw flags of a set are its bits: each flag's raw value is the bit at
/// its position, so a set converts to the host's flags bit for bit.
pub proof fn law_repr_is_bits(flags: BleGattCharFlags)
    requires
        flags.spec_bits() <= 0x3ffff,
    ensures
        flags.spec_repr() == flags.spec_bits(),
{
    lemma_flags_repr_mask(flags.spec_bits(), FLAG_COUNT);
    let b = flags.spec_bits();
    assert(b <= 0x3ffff ==> b & low_mask(18u32) == b) by (bit_vector);
}

/// The raw NimBLE flags of a flag set: the OR of its members' bits.
pub fn flags_to_repr(flags: BleGattCharFlags) -> (r: u32)
    ensures
        r == flags.spec_repr(),
{
    let bits = flags.bits();
    let mut acc: u32 = 0;
    let mut i: u32 = 0;
    while i < FLAG_COUNT
        invariant
            i <= FLAG_COUNT,
            bits == flags.spec_bits(),
            acc == spec_flags_repr(bits, i),
        decreases FLAG_COUNT - i,
    {
        if let Some(f) = BleGattCharFlag::from_index(i) {
            if (bits >> i) & 1 == 1 {
                acc = acc | f.repr();
            }
        }
        i = i + 1;
    }
    acc
}

/// Each flag is registered with the host as NimBLE's own `BLE_GATT_CHR_F_*`
/// bit for it: a readable characteristic carries `BLE_GATT_CHR_F_READ`, a
/// writable one `BLE_GATT_CHR_F_WRITE`, and so on.
pub proof fn law_flags_are_nimble_bits()
    ensures
        BleGattCharFlag::Broadcast.spec_repr() == BLE_GATT_CHR_F_BROADCAST,
        BleGattCharFlag::Read.spec_repr() == BLE_GATT_CHR_F_READ,
        BleGattCharFlag::WriteNoRsp.spec_repr() == BLE_GATT_CHR_F_WRITE_NO_RSP,
        BleGattCharFlag::Write.spec_repr() == BLE_GATT_CHR_F_WRITE,
        BleGattCharFlag::Notify.spec_repr() == BLE_GATT_CHR_F_NOTIFY,
        BleGattCharFlag::Indicate.spec_repr() == BLE_GATT_CHR_F_INDICATE,
        BleGattCharFlag::AuthSignWrite.spec_repr() == BLE_GATT_CHR_F_AUTH_SIGN_WRITE,
        BleGattCharFlag::ReliableWrite.spec_repr() == BLE_GATT_CHR_F_RELIABLE_WRITE,
        BleGattCharFlag::AuxWrite.spec_repr() == BLE_GATT_CHR_F_AUX_WRITE,
        BleGattCharFlag::ReadEnc.spec_repr() == BLE_GATT_CHR_F_READ_ENC,
        BleGattCharFlag::ReadAuthen.spec_repr() == BLE_GATT_CHR_F_READ_AUTHEN,
        BleGattCharFlag::ReadAuthor.spec_repr() == BLE_GATT_CHR_F_READ_AUTHOR,
        BleGattCharFlag::WriteEnc.spec_repr() == BLE_GATT_CHR_F_WRITE_ENC,
        BleGattCharFlag::WriteAuthen.spec_repr() == BLE_GATT_CHR_F_WRITE_AUTHEN,
        BleGattCharFlag::WriteAuthor.spec_repr() == BLE_GATT_CHR_F_WRITE_AUTHOR,
        BleGattCharFlag::NotifyIndicateEnc.spec_repr() == BLE_GATT_CHR_F_NOTIFY_INDICATE_ENC,
        BleGattCharFlag::NotifyIndicateAuthen.spec_repr() == BLE_GATT_CHR_F_NOTIFY_INDICATE_AUTHEN,
        BleGattCharFlag::NotifyIndicateAuthor.spec_repr() == BLE_GATT_CHR_F_NOTIFY_INDICATE_AUTHOR,
{
}

/// The raw flags of a set report exactly its members: the host sees a flag's
/// NimBLE bit set in the registered flags if and only if the flag is in the
/// set.
pub proof fn law_set_repr_reports_members(flags: BleGattCharFlags, f: BleGattCharFlag)
    requires
        flags.spec_bits() <= 0x3ffff,
    ensures
        (flags.spec_repr() & f.spec_repr() != 0) == flags.spec_contains(f),
{
    law_repr_is_bits(flags);
    lemma_repr_is_bit(f);
    let b = flags.spec_bits();
    let i = f.spec_index();
    assert(i < 32);
    assert(forall|b: u32, i: u32| i < 32 ==> ((b & (1u32 << i)) != 0) == ((b >> i) & 1 == 1))
        by (bit_vector);
}

} // verus!
