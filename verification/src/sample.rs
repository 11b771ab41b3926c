//! Two's-complement little-endian encoding of 16-bit audio samples.

use vstd::bytes::{spec_u16_from_le_bytes, spec_u16_to_le_bytes, u16_from_le_bytes, u16_to_le_bytes};
use vstd::bytes::lemma_auto_spec_u16_to_from_le_bytes;
use vstd::prelude::*;

verus! {

/// The signed reading of a 16-bit two's-complement pattern.
pub open spec fn signed16(x: u16) -> i16 {
    if x < 0x8000 {
        x as i16
    } else {
        (x - 0x10000) as i16
    }
}

/// The 16-bit two's-complement pattern of a signed sample.
pub open spec fn unsigned16(x: i16) -> u16 {
    if x >= 0 {
        x as u16
    } else {
        (x + 0x10000) as u16
    }
}

/// The signed sample stored little-endian in two bytes.
pub open spec fn spec_i16_from_le_bytes(b: Seq<u8>) -> i16
    recommends
        b.len() == 2,
{
    signed16(spec_u16_from_le_bytes(b))
}

/// The two little-endian bytes of a signed sample.
pub open spec fn spec_i16_to_le_bytes(x: i16) -> Seq<u8> {
    spec_u16_to_le_bytes(unsigned16(x))
}

/// The signed and unsigned readings of a 16-bit pattern determine each other.
pub proof fn lemma_signed16_unsigned16(x: i16, y: u16)
    ensures
        signed16(unsigned16(x)) == x,
        unsigned16(signed16(y)) == y,
{
}

/// Encoding a sample and reading the bytes back is the identity, in both
/// directions.
pub proof fn lemma_auto_spec_i16_to_from_le_bytes()
    ensures
        forall|x: i16|
            {
                &&& #[trigger] spec_i16_to_le_bytes(x).len() == 2
                &&& spec_i16_from_le_bytes(spec_i16_to_le_bytes(x)) == x
            },
        forall|b: Seq<u8>|
            b.len() == 2 ==> #[trigger] spec_i16_to_le_bytes(spec_i16_from_le_bytes(b)) == b,
{
    lemma_auto_spec_u16_to_from_le_bytes();
    assert forall|x: i16|
        {
            &&& #[trigger] spec_i16_to_le_bytes(x).len() == 2
            &&& spec_i16_from_le_bytes(spec_i16_to_le_bytes(x)) == x
        } by {
        let u = unsigned16(x);
        assert(spec_u16_to_le_bytes(u).len() == 2);
        assert(spec_u16_from_le_bytes(spec_u16_to_le_bytes(u)) == u);
        lemma_signed16_unsigned16(x, 0);
    };
    assert forall|b: Seq<u8>| b.len() == 2 implies #[trigger] spec_i16_to_le_bytes(
        spec_i16_from_le_bytes(b),
    ) == b by {
        let u = spec_u16_from_le_bytes(b);
        assert(spec_u16_to_le_bytes(spec_u16_from_le_bytes(b)) == b);
        lemma_signed16_unsigned16(0, u);
    };
}

/// Reads the signed sample stored little-endian in a two-byte slice.
pub fn i16_from_le_bytes(s: &[u8]) -> (x: i16)
    requires
        s@.len() == 2,
    ensures
        x == spec_i16_from_le_bytes(s@),
{
    let u = u16_from_le_bytes(s);
    if u < 0x8000 {
        u as i16
    } else {
        ((u as i32) - 0x10000) as i16
    }
}

/// Returns the two little-endian bytes of a signed sample.
pub fn i16_to_le_bytes(x: i16) -> (s: Vec<u8>)
    ensures
        s@ == spec_i16_to_le_bytes(x),
        s@.len() == 2,
{
    let u: u16 = if x >= 0 {
        x as u16
    } else {
        ((x as i32) + 0x10000) as u16
    };
    u16_to_le_bytes(u)
}

} // verus!
