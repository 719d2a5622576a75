//! Bit serialization: a payload is written one bit per pixel, each byte's least
//! significant bit first, into the lowest bit of a channel value.

use vstd::prelude::*;

verus! {

/// Bit `i` of `v`, as 0 or 1.
pub open spec fn bit_of(v: u8, i: u8) -> u8 {
    (v >> i) & 1
}

/// `v` with its lowest bit replaced by `b`, which is 0 or 1.
pub open spec fn with_low_bit(v: u8, b: u8) -> u8 {
    (v & 0xFE) | b
}

/// Bit `k` of a payload: bit `k % 8` of byte `k / 8`.
pub open spec fn payload_bit(data: Seq<u8>, k: int) -> u8 {
    bit_of(data[k / 8], (k % 8) as u8)
}

/// Number of bits in a payload.
pub open spec fn payload_bits(data: Seq<u8>) -> int {
    data.len() as int * 8
}

/// A bit is 0 or 1.
pub proof fn lemma_bit_of_range(v: u8, i: u8)
    ensures
        bit_of(v, i) <= 1,
{
    assert((v >> i) & 1 <= 1) by (bit_vector);
}

/// Replacing the lowest bit stores the new bit and keeps the seven bits above.
pub proof fn lemma_with_low_bit(v: u8, b: u8)
    requires
        b <= 1,
    ensures
        with_low_bit(v, b) & 1 == b,
        with_low_bit(v, b) & 0xFE == v & 0xFE,
{
    assert(((v & 0xFE) | b) & 1 == b) by (bit_vector)
        requires
            b <= 1,
    ;
    assert(((v & 0xFE) | b) & 0xFE == v & 0xFE) by (bit_vector)
        requires
            b <= 1,
    ;
}

} // verus!
