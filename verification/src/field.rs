//! Identifiers that the state machine compares but never looks into.
//!
//! Each is a fixed number of bytes on the wire. Here it is held as 64-bit
//! limbs, least significant first, so that two identifiers are equal exactly
//! when their limbs are.

use vstd::prelude::*;
use vstd::bytes::{
    lemma_auto_spec_u32_to_from_le_bytes, lemma_auto_spec_u64_to_from_le_bytes, spec_u32_from_le_bytes,
    spec_u32_to_le_bytes, spec_u64_from_le_bytes, spec_u64_to_le_bytes, u32_from_le_bytes,
    u32_to_le_bytes, u64_from_le_bytes, u64_to_le_bytes,
};
use vstd::slice::slice_subrange;
use crate::text::{bytes_of_hex, hex_bytes, hex_of, lemma_hex_round_trip, push_hex};

verus! {

/// A field element: the commitment of a record, or the serial number that is
/// revealed when a record is spent.
#[derive(Clone, Copy, Debug, PartialEq, Eq, Structural, Hash)]
pub struct Field {
    pub w0: u64,
    pub w1: u64,
    pub w2: u64,
    pub w3: u64,
}

/// The address by which the consensus engine names a validator (20 bytes).
#[derive(Clone, Copy, Debug, PartialEq, Eq, Structural, Hash)]
pub struct Address {
    pub w0: u64,
    pub w1: u64,
    pub w2: u32,
}

/// The consensus public key of a validator (32 bytes).
#[derive(Clone, Copy, Debug, PartialEq, Eq, Structural, Hash)]
pub struct PublicKey {
    pub w0: u64,
    pub w1: u64,
    pub w2: u64,
    pub w3: u64,
}

/// The account that owns credits: rewards are minted to it (32 bytes).
#[derive(Clone, Copy, Debug, PartialEq, Eq, Structural, Hash)]
pub struct AccountAddress {
    pub w0: u64,
    pub w1: u64,
    pub w2: u64,
    pub w3: u64,
}

/// The 32 bytes of four limbs: each limb in little-endian order, the least
/// significant limb first.
pub open spec fn limbs_to_bytes(w0: u64, w1: u64, w2: u64, w3: u64) -> Seq<u8> {
    spec_u64_to_le_bytes(w0) + spec_u64_to_le_bytes(w1) + spec_u64_to_le_bytes(w2)
        + spec_u64_to_le_bytes(w3)
}

/// The four limbs that 32 bytes spell.
pub open spec fn limbs_of_bytes(bytes: Seq<u8>) -> (u64, u64, u64, u64) {
    (
        spec_u64_from_le_bytes(bytes.subrange(0, 8)),
        spec_u64_from_le_bytes(bytes.subrange(8, 16)),
        spec_u64_from_le_bytes(bytes.subrange(16, 24)),
        spec_u64_from_le_bytes(bytes.subrange(24, 32)),
    )
}

/// Limbs and bytes determine one another.
pub proof fn lemma_limbs_round_trip(w0: u64, w1: u64, w2: u64, w3: u64, bytes: Seq<u8>)
    ensures
        limbs_to_bytes(w0, w1, w2, w3).len() == 32,
        limbs_of_bytes(limbs_to_bytes(w0, w1, w2, w3)) == (w0, w1, w2, w3),
        bytes.len() == 32 ==> ({
            let (a, b, c, d) = limbs_of_bytes(bytes);
            limbs_to_bytes(a, b, c, d) == bytes
        }),
{
    lemma_auto_spec_u64_to_from_le_bytes();
    let all = limbs_to_bytes(w0, w1, w2, w3);
    assert(all.subrange(0, 8) =~= spec_u64_to_le_bytes(w0));
    assert(all.subrange(8, 16) =~= spec_u64_to_le_bytes(w1));
    assert(all.subrange(16, 24) =~= spec_u64_to_le_bytes(w2));
    assert(all.subrange(24, 32) =~= spec_u64_to_le_bytes(w3));
    if bytes.len() == 32 {
        let (a, b, c, d) = limbs_of_bytes(bytes);
        assert(limbs_to_bytes(a, b, c, d) =~= bytes.subrange(0, 8) + bytes.subrange(8, 16)
            + bytes.subrange(16, 24) + bytes.subrange(24, 32));
        assert(bytes.subrange(0, 8) + bytes.subrange(8, 16) + bytes.subrange(16, 24)
            + bytes.subrange(24, 32) =~= bytes);
    }
}

/// The 32 bytes of four limbs.
fn bytes_of_limbs(w0: u64, w1: u64, w2: u64, w3: u64) -> (bytes: Vec<u8>)
    ensures
        bytes@ == limbs_to_bytes(w0, w1, w2, w3),
        bytes@.len() == 32,
{
    let mut bytes = u64_to_le_bytes(w0);
    let mut next = u64_to_le_bytes(w1);
    bytes.append(&mut next);
    let mut next = u64_to_le_bytes(w2);
    bytes.append(&mut next);
    let mut next = u64_to_le_bytes(w3);
    bytes.append(&mut next);
    bytes
}

/// The four limbs that `bytes` spell, if they are 32 bytes.
fn limbs_from(bytes: &[u8]) -> (limbs: Option<(u64, u64, u64, u64)>)
    ensures
        limbs == if bytes@.len() == 32 {
            Some(limbs_of_bytes(bytes@))
        } else {
            None
        },
{
    if bytes.len() != 32 {
        return None;
    }
    Some(
        (
            u64_from_le_bytes(slice_subrange(bytes, 0, 8)),
            u64_from_le_bytes(slice_subrange(bytes, 8, 16)),
            u64_from_le_bytes(slice_subrange(bytes, 16, 24)),
            u64_from_le_bytes(slice_subrange(bytes, 24, 32)),
        ),
    )
}

impl DeepView for Field {
    type V = Field;

    open spec fn deep_view(&self) -> Field {
        *self
    }
}

impl Field {
    /// The number that the limbs spell.
    pub open spec fn as_nat(self) -> nat {
        (self.w0 + self.w1 * 0x1_0000_0000_0000_0000 + self.w2
            * 0x1_0000_0000_0000_0000_0000_0000_0000_0000 + self.w3
            * 0x1_0000_0000_0000_0000_0000_0000_0000_0000_0000_0000_0000_0000) as nat
    }

    /// The 32 bytes of the field element, least significant first.
    pub open spec fn le_bytes(self) -> Seq<u8> {
        limbs_to_bytes(self.w0, self.w1, self.w2, self.w3)
    }

    /// The 32 bytes of the field element, least significant first.
    pub fn to_le_bytes(&self) -> (bytes: Vec<u8>)
        ensures
            bytes@ == self.le_bytes(),
            bytes@.len() == 32,
    {
        bytes_of_limbs(self.w0, self.w1, self.w2, self.w3)
    }

    /// The field element that 32 bytes spell; `None` unless there are 32.
    pub fn from_le_bytes(bytes: &[u8]) -> (f: Option<Field>)
        ensures
            f is Some <==> bytes@.len() == 32,
            f matches Some(x) ==> x.le_bytes() == bytes@,
    {
        proof {
            let (a, b, c, d) = limbs_of_bytes(bytes@);
            lemma_limbs_round_trip(a, b, c, d, bytes@);
        }
        match limbs_from(bytes) {
            Some((w0, w1, w2, w3)) => Some(Field { w0, w1, w2, w3 }),
            None => None,
        }
    }

    /// The field element whose value is `value`.
    pub fn from_u64(value: u64) -> (f: Field)
        ensures
            f == (Field { w0: value, w1: 0, w2: 0, w3: 0 }),
            f.as_nat() == value,
    {
        Field { w0: value, w1: 0, w2: 0, w3: 0 }
    }

    /// The field element divided by ten, and what is left over.
    pub fn div_ten(&self) -> (res: (Field, u8))
        ensures
            res.0.as_nat() == self.as_nat() / 10,
            res.1 == self.as_nat() % 10,
    {
        let q3: u128 = self.w3 as u128 / 10;
        let r3: u128 = self.w3 as u128 % 10;
        let c2: u128 = r3 * 0x1_0000_0000_0000_0000 + self.w2 as u128;
        let q2: u128 = c2 / 10;
        let r2: u128 = c2 % 10;
        let c1: u128 = r2 * 0x1_0000_0000_0000_0000 + self.w1 as u128;
        let q1: u128 = c1 / 10;
        let r1: u128 = c1 % 10;
        let c0: u128 = r1 * 0x1_0000_0000_0000_0000 + self.w0 as u128;
        let q0: u128 = c0 / 10;
        let r0: u128 = c0 % 10;
        let quotient = Field { w0: q0 as u64, w1: q1 as u64, w2: q2 as u64, w3: q3 as u64 };
        proof {
            let top = q2 + 0x1_0000_0000_0000_0000 * q3;
            let mid = q1 + 0x1_0000_0000_0000_0000 * top;
            assert(quotient.as_nat() == q0 + 0x1_0000_0000_0000_0000 * mid);
            let top_s = self.w2 + 0x1_0000_0000_0000_0000 * self.w3;
            let mid_s = self.w1 + 0x1_0000_0000_0000_0000 * top_s;
            assert(self.as_nat() == self.w0 + 0x1_0000_0000_0000_0000 * mid_s);
            assert(top_s == 10 * top + r2);
            assert(mid_s == 10 * mid + r1);
            assert(self.as_nat() == 10 * quotient.as_nat() + r0);
        }
        (quotient, r0 as u8)
    }

    /// Whether the field element is below ten.
    pub fn below_ten(&self) -> (b: bool)
        ensures
            b == (self.as_nat() < 10),
    {
        self.w3 == 0 && self.w2 == 0 && self.w1 == 0 && self.w0 < 10
    }

    /// Whether `self` is below `other` as a number.
    pub fn below(&self, other: &Field) -> (b: bool)
        ensures
            b == (self.as_nat() < other.as_nat()),
    {
        if self.w3 != other.w3 {
            self.w3 < other.w3
        } else if self.w2 != other.w2 {
            self.w2 < other.w2
        } else if self.w1 != other.w1 {
            self.w1 < other.w1
        } else {
            self.w0 < other.w0
        }
    }
}

/// The public key that hexadecimal digits spell: 64 digits for its 32
/// bytes.
pub open spec fn key_of_hex(text: Seq<char>) -> Option<PublicKey> {
    match bytes_of_hex(text) {
        Some(bytes) => if bytes.len() == 32 {
            Some(PublicKey::of_le_bytes(bytes))
        } else {
            None
        },
        None => None,
    }
}

/// A key is read again from its hexadecimal digits.
pub proof fn lemma_key_hex_round_trip(key: PublicKey)
    ensures
        key_of_hex(hex_of(key.le_bytes())) == Some(key),
{
    lemma_hex_round_trip(key.le_bytes());
    lemma_limbs_round_trip(key.w0, key.w1, key.w2, key.w3, key.le_bytes());
}

impl PublicKey {
    /// The key that 32 bytes spell.
    pub open spec fn of_le_bytes(bytes: Seq<u8>) -> PublicKey {
        let (w0, w1, w2, w3) = limbs_of_bytes(bytes);
        PublicKey { w0, w1, w2, w3 }
    }

    /// The key in hexadecimal digits: 64 digits for its 32 bytes.
    pub fn to_hex(&self) -> (text: String)
        ensures
            text@ == hex_of(self.le_bytes()),
            key_of_hex(text@) == Some(*self),
    {
        let mut text = String::new();
        let bytes = self.to_le_bytes();
        push_hex(&mut text, &bytes);
        assert(text@ =~= hex_of(self.le_bytes()));
        proof {
            lemma_key_hex_round_trip(*self);
        }
        text
    }

    /// The key that `text` spells in hexadecimal digits: 64 digits for its
    /// 32 bytes.
    pub fn from_hex(text: &str) -> (key: Option<PublicKey>)
        ensures
            key == key_of_hex(text@),
    {
        match hex_bytes(text) {
            Some(bytes) => PublicKey::from_le_bytes(bytes.as_slice()),
            None => None,
        }
    }

    /// The 32 bytes of the key.
    pub open spec fn le_bytes(self) -> Seq<u8> {
        limbs_to_bytes(self.w0, self.w1, self.w2, self.w3)
    }

    /// The 32 bytes of the key.
    pub fn to_le_bytes(&self) -> (bytes: Vec<u8>)
        ensures
            bytes@ == self.le_bytes(),
            bytes@.len() == 32,
    {
        bytes_of_limbs(self.w0, self.w1, self.w2, self.w3)
    }

    /// The key that 32 bytes spell; `None` unless there are 32.
    pub fn from_le_bytes(bytes: &[u8]) -> (key: Option<PublicKey>)
        ensures
            key is Some <==> bytes@.len() == 32,
            key matches Some(x) ==> x == PublicKey::of_le_bytes(bytes@) && x.le_bytes() == bytes@,
    {
        proof {
            let (a, b, c, d) = limbs_of_bytes(bytes@);
            lemma_limbs_round_trip(a, b, c, d, bytes@);
        }
        match limbs_from(bytes) {
            Some((w0, w1, w2, w3)) => Some(PublicKey { w0, w1, w2, w3 }),
            None => None,
        }
    }
}

impl AccountAddress {
    /// The 32 bytes of the address.
    pub open spec fn le_bytes(self) -> Seq<u8> {
        limbs_to_bytes(self.w0, self.w1, self.w2, self.w3)
    }

    /// The 32 bytes of the address.
    pub fn to_le_bytes(&self) -> (bytes: Vec<u8>)
        ensures
            bytes@ == self.le_bytes(),
            bytes@.len() == 32,
    {
        bytes_of_limbs(self.w0, self.w1, self.w2, self.w3)
    }

    /// The address that 32 bytes spell; `None` unless there are 32.
    pub fn from_le_bytes(bytes: &[u8]) -> (address: Option<AccountAddress>)
        ensures
            address is Some <==> bytes@.len() == 32,
            address matches Some(x) ==> x.le_bytes() == bytes@,
    {
        proof {
            let (a, b, c, d) = limbs_of_bytes(bytes@);
            lemma_limbs_round_trip(a, b, c, d, bytes@);
        }
        match limbs_from(bytes) {
            Some((w0, w1, w2, w3)) => Some(AccountAddress { w0, w1, w2, w3 }),
            None => None,
        }
    }
}

impl Address {
    /// The 20 bytes of the address.
    pub open spec fn le_bytes(self) -> Seq<u8> {
        spec_u64_to_le_bytes(self.w0) + spec_u64_to_le_bytes(self.w1) + spec_u32_to_le_bytes(
            self.w2,
        )
    }

    /// The address that 20 bytes spell.
    pub open spec fn of_le_bytes(bytes: Seq<u8>) -> Address {
        Address {
            w0: spec_u64_from_le_bytes(bytes.subrange(0, 8)),
            w1: spec_u64_from_le_bytes(bytes.subrange(8, 16)),
            w2: spec_u32_from_le_bytes(bytes.subrange(16, 20)),
        }
    }

    /// The 20 bytes of the address.
    pub fn to_le_bytes(&self) -> (bytes: Vec<u8>)
        ensures
            bytes@ == self.le_bytes(),
            bytes@.len() == 20,
    {
        let mut bytes = u64_to_le_bytes(self.w0);
        let mut next = u64_to_le_bytes(self.w1);
        bytes.append(&mut next);
        let mut next = u32_to_le_bytes(self.w2);
        bytes.append(&mut next);
        bytes
    }

    /// The address that 20 bytes spell; `None` unless there are 20.
    pub fn from_le_bytes(bytes: &[u8]) -> (address: Option<Address>)
        ensures
            address is Some <==> bytes@.len() == 20,
            address matches Some(x) ==> x == Address::of_le_bytes(bytes@) && x.le_bytes() == bytes@,
    {
        if bytes.len() != 20 {
            return None;
        }
        let address = Address {
            w0: u64_from_le_bytes(slice_subrange(bytes, 0, 8)),
            w1: u64_from_le_bytes(slice_subrange(bytes, 8, 16)),
            w2: u32_from_le_bytes(slice_subrange(bytes, 16, 20)),
        };
        proof {
            lemma_auto_spec_u64_to_from_le_bytes();
            lemma_auto_spec_u32_to_from_le_bytes();
            assert(address.le_bytes() =~= bytes@.subrange(0, 8) + bytes@.subrange(8, 16)
                + bytes@.subrange(16, 20));
            assert(bytes@.subrange(0, 8) + bytes@.subrange(8, 16) + bytes@.subrange(16, 20)
                =~= bytes@);
        }
        Some(address)
    }
}

/// The bytes of an address spell that address.
pub proof fn lemma_address_round_trip(a: Address, b: Address)
    requires
        a.le_bytes() == b.le_bytes(),
    ensures
        a == b,
{
    lemma_auto_spec_u64_to_from_le_bytes();
    lemma_auto_spec_u32_to_from_le_bytes();
    let all = a.le_bytes();
    assert(all.subrange(0, 8) =~= spec_u64_to_le_bytes(a.w0));
    assert(all.subrange(8, 16) =~= spec_u64_to_le_bytes(a.w1));
    assert(all.subrange(16, 20) =~= spec_u32_to_le_bytes(a.w2));
    assert(all.subrange(0, 8) =~= spec_u64_to_le_bytes(b.w0));
    assert(all.subrange(8, 16) =~= spec_u64_to_le_bytes(b.w1));
    assert(all.subrange(16, 20) =~= spec_u32_to_le_bytes(b.w2));
}

/// A limb and what stands above it are determined by their sum.
proof fn lemma_limb_is_determined(low_a: u64, high_a: int, low_b: u64, high_b: int)
    requires
        low_a + 0x1_0000_0000_0000_0000 * high_a == low_b + 0x1_0000_0000_0000_0000 * high_b,
    ensures
        low_a == low_b,
        high_a == high_b,
{
}

/// Two field elements with the same value are the same field element.
pub proof fn lemma_field_value_is_identity(a: Field, b: Field)
    requires
        a.as_nat() == b.as_nat(),
    ensures
        a == b,
{
    let top_a = a.w2 + 0x1_0000_0000_0000_0000 * a.w3;
    let top_b = b.w2 + 0x1_0000_0000_0000_0000 * b.w3;
    let mid_a = a.w1 + 0x1_0000_0000_0000_0000 * top_a;
    let mid_b = b.w1 + 0x1_0000_0000_0000_0000 * top_b;
    assert(a.as_nat() == a.w0 + 0x1_0000_0000_0000_0000 * mid_a);
    assert(b.as_nat() == b.w0 + 0x1_0000_0000_0000_0000 * mid_b);
    lemma_limb_is_determined(a.w0, mid_a, b.w0, mid_b);
    lemma_limb_is_determined(a.w1, top_a, b.w1, top_b);
    lemma_limb_is_determined(a.w2, a.w3 as int, b.w2, b.w3 as int);
}

} // verus!
