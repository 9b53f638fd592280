//! The keyed hashes the chain uses, and the storage-key deriver: the binary
//! key of a named item inside a named module is the concatenation of the
//! 128-bit keyed hashes of the two names.

use vstd::prelude::*;
use crate::util::append_bytes;

verus! {

/// The 128-bit keyed hash of a byte string, as the chain computes it.
/// The result depends on the input bytes alone.
pub uninterp spec fn twox128_of(data: Seq<u8>) -> Seq<u8>;

/// The 256-bit cryptographic digest of a byte string, as the chain uses it
/// for block hashes. The result depends on the input bytes alone.
pub uninterp spec fn blake2_256_of(data: Seq<u8>) -> Seq<u8>;

/// Relies on `sp_crypto_hashing::twox_128` (re-exported as
/// `sp_core::twox_128`): a 16-byte digest that is a pure function of the
/// input bytes.
#[verifier::external_body]
pub fn twox_128(data: &Vec<u8>) -> (r: Vec<u8>)
    ensures
        r@ == twox128_of(data@),
        r@.len() == 16,
{
    sp_crypto_hashing::twox_128(data.as_slice()).to_vec()
}

/// Relies on `sp_crypto_hashing::blake2_256` (re-exported as
/// `sp_core::blake2_256`): a 32-byte digest that is a pure function of the
/// input bytes.
#[verifier::external_body]
pub fn blake2_256(data: &Vec<u8>) -> (r: Vec<u8>)
    ensures
        r@ == blake2_256_of(data@),
        r@.len() == 32,
{
    sp_crypto_hashing::blake2_256(data.as_slice()).to_vec()
}

/// The canonical binary storage key of item `item` in module `module`:
/// the keyed hash of the module name followed by the keyed hash of the
/// item name.
pub open spec fn storage_key_of(module: Seq<u8>, item: Seq<u8>) -> Seq<u8> {
    twox128_of(module) + twox128_of(item)
}

/// Derives the canonical binary storage key for `item` inside `module`.
pub fn derive_storage_key(module: &Vec<u8>, item: &Vec<u8>) -> (r: Vec<u8>)
    ensures
        r@ == storage_key_of(module@, item@),
        r@.len() == 32,
{
    let mut r = twox_128(module);
    let item_hash = twox_128(item);
    append_bytes(&mut r, &item_hash);
    r
}

} // verus!
