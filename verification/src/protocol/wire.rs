//! Big-endian encodings of integers on the wire.

use vstd::prelude::*;

verus! {

/// The eight big-endian bytes of `v`.
pub open spec fn be_u64_bytes(v: u64) -> Seq<u8> {
    seq![
        (v >> 56u64) as u8,
        (v >> 48u64) as u8,
        (v >> 40u64) as u8,
        (v >> 32u64) as u8,
        (v >> 24u64) as u8,
        (v >> 16u64) as u8,
        (v >> 8u64) as u8,
        v as u8,
    ]
}

/// The number whose big-endian bytes are the first eight of `b`.
pub open spec fn be_u64_value(b: Seq<u8>) -> u64 {
    ((b[0] as u64) << 56u64) | ((b[1] as u64) << 48u64) | ((b[2] as u64) << 40u64) | ((b[3] as u64)
        << 32u64) | ((b[4] as u64) << 24u64) | ((b[5] as u64) << 16u64) | ((b[6] as u64) << 8u64)
        | (b[7] as u64)
}

/// Reading back the big-endian bytes of a number gives the number.
pub proof fn lemma_be_u64_round_trip(v: u64)
    ensures
        be_u64_value(be_u64_bytes(v)) == v,
{
    let b0 = (v >> 56u64) as u8;
    let b1 = (v >> 48u64) as u8;
    let b2 = (v >> 40u64) as u8;
    let b3 = (v >> 32u64) as u8;
    let b4 = (v >> 24u64) as u8;
    let b5 = (v >> 16u64) as u8;
    let b6 = (v >> 8u64) as u8;
    let b7 = v as u8;
    assert(((b0 as u64) << 56u64) | ((b1 as u64) << 48u64) | ((b2 as u64) << 40u64) | ((b3 as u64)
        << 32u64) | ((b4 as u64) << 24u64) | ((b5 as u64) << 16u64) | ((b6 as u64) << 8u64) | (b7 as u64)
        == v) by (bit_vector)
        requires
            b0 == (v >> 56u64) as u8,
            b1 == (v >> 48u64) as u8,
            b2 == (v >> 40u64) as u8,
            b3 == (v >> 32u64) as u8,
            b4 == (v >> 24u64) as u8,
            b5 == (v >> 16u64) as u8,
            b6 == (v >> 8u64) as u8,
            b7 == v as u8,
    ;
}

/// The two big-endian bytes of `v`.
pub open spec fn be_u16_bytes(v: u16) -> Seq<u8> {
    seq![(v >> 8u16) as u8, v as u8]
}

/// The number whose big-endian bytes are `hi` and `lo`.
pub open spec fn be_u16_value(hi: u8, lo: u8) -> u16 {
    ((hi as u16) << 8u16) | (lo as u16)
}

/// Reading back the big-endian bytes of a 16-bit number gives the number.
pub proof fn lemma_be_u16_round_trip(v: u16)
    ensures
        be_u16_value(be_u16_bytes(v)[0], be_u16_bytes(v)[1]) == v,
{
    let hi = (v >> 8u16) as u8;
    let lo = v as u8;
    assert((((hi as u16) << 8u16) | (lo as u16)) == v) by (bit_vector)
        requires
            hi == (v >> 8u16) as u8,
            lo == v as u8,
    ;
}

/// Appends the big-endian bytes of `v`.
pub fn push_be_u64(output: &mut Vec<u8>, v: u64)
    ensures
        final(output)@ == old(output)@ + be_u64_bytes(v),
{
    output.push((v >> 56u64) as u8);
    output.push((v >> 48u64) as u8);
    output.push((v >> 40u64) as u8);
    output.push((v >> 32u64) as u8);
    output.push((v >> 24u64) as u8);
    output.push((v >> 16u64) as u8);
    output.push((v >> 8u64) as u8);
    output.push(v as u8);
    assert(final(output)@ =~= old(output)@ + be_u64_bytes(v));
}

/// The number whose big-endian bytes are the first eight of `input`.
pub fn read_be_u64(input: &[u8]) -> (v: u64)
    requires
        input@.len() >= 8,
    ensures
        v == be_u64_value(input@),
{
    ((input[0] as u64) << 56u64) | ((input[1] as u64) << 48u64) | ((input[2] as u64) << 40u64) | ((
    input[3] as u64) << 32u64) | ((input[4] as u64) << 24u64) | ((input[5] as u64) << 16u64) | ((
    input[6] as u64) << 8u64) | (input[7] as u64)
}

} // verus!
