//! Binary wire encoding of the transfer offer: an 8-byte big-endian unsigned
//! integer giving `remaining_bytes`, sent immediately before the raw payload.

use vstd::prelude::*;

verus! {

/// The byte at big-endian position `i` (0 is the most significant) of `x`.
pub open spec fn be_byte(x: u64, i: int) -> u8
    recommends
        0 <= i < 8,
{
    (x >> ((56 - 8 * i) as u64)) as u8
}

/// The 8-byte big-endian encoding of `x`.
pub open spec fn be_bytes(x: u64) -> Seq<u8> {
    Seq::new(8, |i: int| be_byte(x, i))
}

/// The value read back from an 8-byte big-endian encoding.
pub open spec fn be_value(b: Seq<u8>) -> u64
    recommends
        b.len() == 8,
{
    ((b[0] as u64) << 56u64) | ((b[1] as u64) << 48u64) | ((b[2] as u64) << 40u64) | ((
    b[3] as u64) << 32u64) | ((b[4] as u64) << 24u64) | ((b[5] as u64) << 16u64) | ((
    b[6] as u64) << 8u64) | (b[7] as u64)
}

/// Encodes a length prefix as exactly 8 big-endian bytes.
pub fn u64_to_be_bytes(x: u64) -> (v: Vec<u8>)
    ensures
        v@ == be_bytes(x),
        v@.len() == 8,
{
    let mut v: Vec<u8> = Vec::new();
    v.push((x >> 56u64) as u8);
    v.push((x >> 48u64) as u8);
    v.push((x >> 40u64) as u8);
    v.push((x >> 32u64) as u8);
    v.push((x >> 24u64) as u8);
    v.push((x >> 16u64) as u8);
    v.push((x >> 8u64) as u8);
    v.push(x as u8);
    proof {
        assert(x as u8 == (x >> 0u64) as u8) by (bit_vector);
        assert(v@ =~= be_bytes(x));
    }
    v
}

/// Decodes an 8-byte big-endian length prefix.
pub fn u64_from_be_bytes(b: &[u8]) -> (x: u64)
    requires
        b@.len() == 8,
    ensures
        x == be_value(b@),
{
    ((b[0] as u64) << 56u64) | ((b[1] as u64) << 48u64) | ((b[2] as u64) << 40u64) | ((
    b[3] as u64) << 32u64) | ((b[4] as u64) << 24u64) | ((b[5] as u64) << 16u64) | ((
    b[6] as u64) << 8u64) | (b[7] as u64)
}

/// The length prefix round-trips: decoding the 8 bytes that encode `x`
/// yields `x` again, so the peer reads exactly the announced byte count.
pub proof fn lemma_be_round_trip(x: u64)
    ensures
        be_value(be_bytes(x)) == x,
{
    assert((((x >> 56u64) as u8) as u64) << 56u64 | (((x >> 48u64) as u8) as u64) << 48u64 | (((x
        >> 40u64) as u8) as u64) << 40u64 | (((x >> 32u64) as u8) as u64) << 32u64 | (((x
        >> 24u64) as u8) as u64) << 24u64 | (((x >> 16u64) as u8) as u64) << 16u64 | (((x
        >> 8u64) as u8) as u64) << 8u64 | ((x as u8) as u64) == x) by (bit_vector);
    assert(be_byte(x, 7) == x as u8) by (bit_vector)
        requires
            be_byte(x, 7) == (x >> 0u64) as u8,
    ;
}

} // verus!
