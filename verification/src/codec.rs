//! Fixed-width and compact binary integer encodings used by the chain,
//! delegated to the chain's codec crate behind exact contracts.

use vstd::prelude::*;

verus! {

/// The little-endian bytes of `n` with no trailing zero byte: the shortest
/// little-endian representation.
pub open spec fn le_min_bytes(n: nat) -> Seq<u8>
    decreases n,
{
    if n == 0 {
        Seq::empty()
    } else {
        seq![(n % 256) as u8] + le_min_bytes(n / 256)
    }
}

/// The compact (variable-width) encoding of an unsigned 64-bit integer:
/// the two low bits of the first byte select the width, the value is shifted
/// left by two in the one-, two- and four-byte modes, and larger values are
/// stored as a length prefix followed by their shortest little-endian bytes.
pub open spec fn compact_u64(n: u64) -> Seq<u8> {
    if n < 64 {
        seq![(n * 4) as u8]
    } else if n < 16384 {
        vstd::bytes::spec_u16_to_le_bytes((n * 4 + 1) as u16)
    } else if n < 1073741824 {
        vstd::bytes::spec_u32_to_le_bytes((n * 4 + 2) as u32)
    } else {
        seq![(3 + (le_min_bytes(n as nat).len() - 4) * 4) as u8] + le_min_bytes(n as nat)
    }
}

/// Relies on `parity_scale_codec::Compact::<u64>::encode`: one byte holding
/// `n << 2` below 2^6, two or four little-endian bytes holding `n << 2 | 1`
/// (below 2^14) or `n << 2 | 2` (below 2^30), and otherwise the byte
/// `0b11 | (len - 4) << 2` followed by the `len` shortest little-endian
/// bytes of `n`.
#[verifier::external_body]
pub fn compact_encode_u64(n: u64) -> (r: Vec<u8>)
    ensures
        r@ == compact_u64(n),
{
    parity_scale_codec::Encode::encode(&parity_scale_codec::Compact(n))
}

/// The fixed-width decoding of an unsigned 32-bit integer: the first four
/// bytes read as little-endian, or nothing if fewer than four bytes are given.
pub open spec fn scale_decode_u32(s: Seq<u8>) -> Option<u32> {
    if s.len() >= 4 {
        Some(vstd::bytes::spec_u32_from_le_bytes(s.take(4)))
    } else {
        None
    }
}

/// Relies on `<u32 as parity_scale_codec::Decode>::decode`: reads exactly
/// four bytes little-endian from the front of the input and fails when
/// fewer are available; trailing bytes are ignored.
#[verifier::external_body]
pub fn decode_u32(data: &Vec<u8>) -> (r: Option<u32>)
    ensures
        r == scale_decode_u32(data@),
{
    <u32 as parity_scale_codec::Decode>::decode(&mut data.as_slice()).ok()
}

} // verus!
