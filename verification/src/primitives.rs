//! Fixed-size byte values of the chain: 20-byte addresses and 32-byte words.

use vstd::prelude::*;
use vstd::std_specs::cmp::PartialEqSpecImpl;
use crate::uint::U256;

verus! {

/// A 20-byte account address.
#[derive(Clone, Copy, Debug)]
pub struct Address {
    pub bytes: [u8; 20],
}

/// A 32-byte word: a block hash, a transaction hash or an event topic.
#[derive(Clone, Copy, Debug)]
pub struct B256 {
    pub bytes: [u8; 32],
}

impl PartialEq for Address {
    fn eq(&self, other: &Self) -> (r: bool) {
        let mut i: usize = 0;
        while i < 20
            invariant
                i <= 20,
                forall|j: int| 0 <= j < i ==> self.bytes[j] == other.bytes[j],
            decreases 20 - i,
        {
            if self.bytes[i] != other.bytes[i] {
                return false;
            }
            i += 1;
        }
        assert(self.bytes =~= other.bytes);
        true
    }
}

impl PartialEqSpecImpl for Address {
    open spec fn obeys_eq_spec() -> bool {
        true
    }

    open spec fn eq_spec(&self, other: &Self) -> bool {
        self.bytes == other.bytes
    }
}

impl Eq for Address {

}

impl PartialEq for B256 {
    fn eq(&self, other: &Self) -> (r: bool) {
        let mut i: usize = 0;
        while i < 32
            invariant
                i <= 32,
                forall|j: int| 0 <= j < i ==> self.bytes[j] == other.bytes[j],
            decreases 32 - i,
        {
            if self.bytes[i] != other.bytes[i] {
                return false;
            }
            i += 1;
        }
        assert(self.bytes =~= other.bytes);
        true
    }
}

impl PartialEqSpecImpl for B256 {
    open spec fn obeys_eq_spec() -> bool {
        true
    }

    open spec fn eq_spec(&self, other: &Self) -> bool {
        self.bytes == other.bytes
    }
}

impl Eq for B256 {

}

/// The number that eight bytes write, most significant byte first, starting
/// at `at`.
pub open spec fn be_u64(b: Seq<u8>, at: int) -> nat {
    (b[at] as nat) * 0x100_0000_0000_0000nat + (b[at + 1] as nat) * 0x1_0000_0000_0000nat + (b[at
        + 2] as nat) * 0x100_0000_0000nat + (b[at + 3] as nat) * 0x1_0000_0000nat + (b[at
        + 4] as nat) * 0x100_0000nat + (b[at + 5] as nat) * 0x1_0000nat + (b[at + 6] as nat)
        * 0x100nat + (b[at + 7] as nat)
}

/// The number that 32 bytes write, most significant byte first.
pub open spec fn be_u256(b: Seq<u8>) -> nat {
    be_u64(b, 24) + be_u64(b, 16) * 0x1_0000_0000_0000_0000nat + be_u64(b, 8)
        * 0x1_0000_0000_0000_0000_0000_0000_0000_0000nat + be_u64(b, 0)
        * 0x1_0000_0000_0000_0000_0000_0000_0000_0000_0000_0000_0000_0000nat
}

/// Reads eight bytes of a word as a 64-bit number, most significant first.
fn read_be_u64(bytes: &[u8; 32], at: usize) -> (r: u64)
    requires
        at + 8 <= 32,
    ensures
        r == be_u64(bytes@, at as int),
{
    let b0: u64 = bytes[at] as u64;
    let b1: u64 = bytes[at + 1] as u64;
    let b2: u64 = bytes[at + 2] as u64;
    let b3: u64 = bytes[at + 3] as u64;
    let b4: u64 = bytes[at + 4] as u64;
    let b5: u64 = bytes[at + 5] as u64;
    let b6: u64 = bytes[at + 6] as u64;
    let b7: u64 = bytes[at + 7] as u64;
    b0 * 0x100_0000_0000_0000 + b1 * 0x1_0000_0000_0000 + b2 * 0x100_0000_0000 + b3 * 0x1_0000_0000
        + b4 * 0x100_0000 + b5 * 0x1_0000 + b6 * 0x100 + b7
}

impl Address {
    /// The address made of the given bytes.
    pub fn new(bytes: [u8; 20]) -> (r: Address)
        ensures
            r.bytes == bytes,
    {
        Address { bytes }
    }

    /// The address that a 32-byte word carries in its last 20 bytes, as an
    /// indexed event argument does.
    pub fn from_word(word: &B256) -> (r: Address)
        ensures
            r.bytes@ == word.bytes@.subrange(12, 32),
    {
        let mut bytes: [u8; 20] = [0u8; 20];
        let mut i: usize = 0;
        while i < 20
            invariant
                i <= 20,
                forall|j: int| 0 <= j < i ==> bytes[j] == word.bytes[j + 12],
            decreases 20 - i,
        {
            bytes[i] = word.bytes[i + 12];
            i += 1;
        }
        assert(bytes@ =~= word.bytes@.subrange(12, 32));
        Address { bytes }
    }
}

impl B256 {
    /// The word made of the given bytes.
    pub fn new(bytes: [u8; 32]) -> (r: B256)
        ensures
            r.bytes == bytes,
    {
        B256 { bytes }
    }

    /// The number that the word writes, most significant byte first.
    pub fn to_u256(&self) -> (r: U256)
        ensures
            r@ == be_u256(self.bytes@),
    {
        let l3 = read_be_u64(&self.bytes, 0);
        let l2 = read_be_u64(&self.bytes, 8);
        let l1 = read_be_u64(&self.bytes, 16);
        let l0 = read_be_u64(&self.bytes, 24);
        U256 { l0, l1, l2, l3 }
    }
}

/// The bytes of the address that a text writes in hexadecimal, with or
/// without `0x` in front; `None` where the text writes no address.
pub uninterp spec fn address_of_text(text: Seq<char>) -> Option<Seq<u8>>;

/// Calls `alloy_primitives::Address::from_str`. The contract names the
/// address that the call returns for a text, or that it returns none;
/// nothing is proved of which texts are accepted.
#[verifier::external_body]
pub(crate) fn parse_address(text: &str) -> (r: Option<Address>)
    ensures
        r is Some <==> address_of_text(text@) is Some,
        r matches Some(a) ==> address_of_text(text@) == Some(a.bytes@),
{
    match text.parse::<alloy_primitives::Address>() {
        Ok(address) => Some(Address { bytes: address.0.0 }),
        Err(_) => None,
    }
}

} // verus!
