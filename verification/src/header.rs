//! Block headers: number, parent hash, state root, extrinsics root and
//! pre-encoded digest bytes, with the chain's header encoding and the block
//! hash derived from it.

use vstd::prelude::*;
use crate::codec::{compact_u64, compact_encode_u64};
use crate::hashing::{blake2_256, blake2_256_of};
use crate::util::{clone_bytes, append_bytes};

verus! {

/// A block header. The digest holds the auxiliary items already in their
/// binary encoding, so an empty digest is the single byte 0.
pub struct Header {
    pub parent_hash: Vec<u8>,
    pub number: u64,
    pub state_root: Vec<u8>,
    pub extrinsics_root: Vec<u8>,
    pub digest: Vec<u8>,
}

/// A well-formed header carries 32-byte hashes.
pub open spec fn header_wf(h: Header) -> bool {
    &&& h.parent_hash@.len() == 32
    &&& h.state_root@.len() == 32
    &&& h.extrinsics_root@.len() == 32
}

/// The binary encoding of a header: parent hash, compact number, state
/// root, extrinsics root, digest bytes, in that order.
#[verifier::opaque]
pub open spec fn header_encoding(h: Header) -> Seq<u8> {
    h.parent_hash@ + compact_u64(h.number) + h.state_root@ + h.extrinsics_root@ + h.digest@
}

/// The hash of a block is the 256-bit digest of its header's encoding.
pub open spec fn header_hash_of(h: Header) -> Seq<u8> {
    blake2_256_of(header_encoding(h))
}

/// Encodes a header into its binary form.
pub fn encode_header(h: &Header) -> (r: Vec<u8>)
    ensures
        r@ == header_encoding(*h),
{
    proof {
        reveal(header_encoding);
    }
    let mut r = clone_bytes(&h.parent_hash);
    let num = compact_encode_u64(h.number);
    append_bytes(&mut r, &num);
    append_bytes(&mut r, &h.state_root);
    append_bytes(&mut r, &h.extrinsics_root);
    append_bytes(&mut r, &h.digest);
    r
}

/// Computes the hash of the block this header describes.
pub fn header_hash(h: &Header) -> (r: Vec<u8>)
    ensures
        r@ == header_hash_of(*h),
        r@.len() == 32,
{
    let enc = encode_header(h);
    blake2_256(&enc)
}

/// Returns a copy of a header with the same contents.
pub fn clone_header(h: &Header) -> (r: Header)
    ensures
        r.parent_hash@ == h.parent_hash@,
        r.number == h.number,
        r.state_root@ == h.state_root@,
        r.extrinsics_root@ == h.extrinsics_root@,
        r.digest@ == h.digest@,
        header_encoding(r) == header_encoding(*h),
        header_hash_of(r) == header_hash_of(*h),
{
    let r = Header {
        parent_hash: clone_bytes(&h.parent_hash),
        number: h.number,
        state_root: clone_bytes(&h.state_root),
        extrinsics_root: clone_bytes(&h.extrinsics_root),
        digest: clone_bytes(&h.digest),
    };
    proof {
        reveal(header_encoding);
    }
    r
}

/// The all-zero 32-byte hash, the default for fields no value is supplied
/// for.
pub open spec fn zero_hash_spec() -> Seq<u8> {
    Seq::new(32, |i: int| 0u8)
}

/// Returns the all-zero 32-byte hash.
pub fn zero_hash() -> (r: Vec<u8>)
    ensures
        r@ == zero_hash_spec(),
        r@.len() == 32,
{
    let mut r: Vec<u8> = Vec::new();
    let mut i: usize = 0;
    while i < 32
        invariant
            0 <= i <= 32,
            r@.len() == i,
            forall|j: int| 0 <= j < i ==> r@[j] == 0u8,
        decreases 32 - i,
    {
        r.push(0u8);
        i = i + 1;
    }
    proof {
        assert(r@ =~= zero_hash_spec());
    }
    r
}

/// The encoding of the empty digest: a single zero byte.
pub open spec fn empty_digest_spec() -> Seq<u8> {
    seq![0u8]
}

/// Returns the encoding of the empty digest.
pub fn empty_digest() -> (r: Vec<u8>)
    ensures
        r@ == empty_digest_spec(),
{
    let mut r: Vec<u8> = Vec::new();
    r.push(0u8);
    proof {
        assert(r@ =~= empty_digest_spec());
    }
    r
}

} // verus!
