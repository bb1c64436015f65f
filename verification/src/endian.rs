//! Big-endian 32-bit numbers, as the length fields of an ICNS file carry
//! them.

use byteorder::{BigEndian, ByteOrder};
use vstd::prelude::*;

verus! {

/// The number that four bytes spell, most significant byte first.
pub open spec fn spec_be_u32(bytes: Seq<u8>) -> u32 {
    (((bytes[0] * 256 + bytes[1]) * 256 + bytes[2]) * 256 + bytes[3]) as u32
}

/// The four bytes that spell a number, most significant byte first.
pub open spec fn spec_be_bytes(n: u32) -> Seq<u8> {
    seq![
        (n / 256 / 256 / 256) as u8,
        (n / 256 / 256 % 256) as u8,
        (n / 256 % 256) as u8,
        (n % 256) as u8,
    ]
}

/// The bytes that spell a number spell that number, and the other way
/// round.
pub proof fn lemma_be_round_trip(n: u32, bytes: Seq<u8>)
    requires
        bytes.len() == 4,
    ensures
        spec_be_u32(spec_be_bytes(n)) == n,
        spec_be_bytes(spec_be_u32(bytes)) == bytes,
        spec_be_bytes(n).len() == 4,
{
    let high = bytes[0] as int;
    let upper = high * 256 + bytes[1];
    let lower = upper * 256 + bytes[2];
    let all = lower * 256 + bytes[3];
    assert(all / 256 == lower && all % 256 == bytes[3]);
    assert(lower / 256 == upper && lower % 256 == bytes[2]);
    assert(upper / 256 == high && upper % 256 == bytes[1]);
    assert(spec_be_bytes(spec_be_u32(bytes)) =~= bytes);
}

/// `BigEndian::read_u32` of byteorder: the number that the first four bytes
/// of the buffer spell, most significant byte first. It panics on a shorter
/// buffer.
#[verifier::external_body]
pub(crate) fn read_be_u32(buf: &[u8]) -> (n: u32)
    requires
        buf@.len() >= 4,
    ensures
        n == spec_be_u32(buf@),
{
    BigEndian::read_u32(buf)
}

/// `BigEndian::write_u32` of byteorder, on a buffer of four bytes: the bytes
/// that spell the number, most significant byte first.
#[verifier::external_body]
pub(crate) fn be_u32_bytes(n: u32) -> (bytes: [u8; 4])
    ensures
        bytes@ == spec_be_bytes(n),
{
    let mut bytes = [0u8; 4];
    BigEndian::write_u32(&mut bytes, n);
    bytes
}

} // verus!
