//! Integers in network byte order.

use byteorder::{ByteOrder, NetworkEndian};
use vstd::prelude::*;

verus! {

/// Number of bytes of a 32-bit integer.
pub const U32_LEN: usize = 4;

/// The four bytes of a 32-bit integer, the most significant one first.
pub open spec fn be32(n: nat) -> Seq<u8> {
    seq![
        (n / 0x100_0000) as u8,
        ((n / 0x1_0000) % 0x100) as u8,
        ((n / 0x100) % 0x100) as u8,
        (n % 0x100) as u8,
    ]
}

/// The integer that the first four bytes stand for, the most significant one
/// first.
pub open spec fn be32_value(bytes: Seq<u8>) -> nat {
    (bytes[0] * 0x100_0000 + bytes[1] * 0x1_0000 + bytes[2] * 0x100 + bytes[3]) as nat
}

/// A 32-bit integer reads back from its four bytes.
pub proof fn law_u32_round_trip(n: nat)
    requires
        n <= u32::MAX,
    ensures
        be32(n).len() == U32_LEN,
        be32_value(be32(n)) == n,
{
}

/// Four bytes are the bytes of the integer that they stand for, which is less
/// than two to the power of thirty-two.
pub proof fn law_u32_bytes_round_trip(bytes: Seq<u8>)
    requires
        bytes.len() == U32_LEN,
    ensures
        be32_value(bytes) <= u32::MAX,
        be32(be32_value(bytes)) == bytes,
{
    assert(be32(be32_value(bytes)) =~= bytes);
}

/// `NetworkEndian::write_u32` into four bytes: the bytes of the integer, the most
/// significant one first.
#[verifier::external_body]
pub(crate) fn encode_u32(n: u32) -> (bytes: [u8; 4])
    ensures
        bytes@ == be32(n as nat),
{
    let mut bytes = [0u8; 4];
    NetworkEndian::write_u32(&mut bytes[..], n);
    bytes
}

/// `NetworkEndian::read_u32`: the integer that the first four bytes stand for,
/// the most significant one first. It panics where there are fewer.
#[verifier::external_body]
pub(crate) fn decode_u32(bytes: &[u8]) -> (n: u32)
    requires
        bytes@.len() >= U32_LEN,
    ensures
        n == be32_value(bytes@),
{
    NetworkEndian::read_u32(bytes)
}

} // verus!
