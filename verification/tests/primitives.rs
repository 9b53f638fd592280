//! Checks of the encoding, hashing and state-root primitives against the
//! chain's own crates and known encodings.

use lazy_fork::codec::{compact_encode_u64, decode_u32};
use lazy_fork::hashing::derive_storage_key;
use lazy_fork::header::{header_hash, Header};
use lazy_fork::root::{compute_state_root, StateVersion};
use lazy_fork::bootstrap::parachain_id_key;
use sp_trie::TrieConfiguration;
use std::collections::BTreeMap;

fn bytes(s: &str) -> Vec<u8> {
    s.as_bytes().to_vec()
}

#[test]
fn compact_encoding_of_known_values() {
    assert_eq!(compact_encode_u64(0), vec![0x00]);
    assert_eq!(compact_encode_u64(1), vec![0x04]);
    assert_eq!(compact_encode_u64(63), vec![0xfc]);
    assert_eq!(compact_encode_u64(64), vec![0x01, 0x01]);
    assert_eq!(compact_encode_u64(16383), vec![0xfd, 0xff]);
    assert_eq!(compact_encode_u64(16384), vec![0x02, 0x00, 0x01, 0x00]);
    assert_eq!(compact_encode_u64(1073741823), vec![0xfe, 0xff, 0xff, 0xff]);
    assert_eq!(compact_encode_u64(1073741824), vec![0x03, 0x00, 0x00, 0x00, 0x40]);
    assert_eq!(
        compact_encode_u64(u64::MAX),
        vec![0x13, 0xff, 0xff, 0xff, 0xff, 0xff, 0xff, 0xff, 0xff]
    );
}

#[test]
fn decode_u32_reads_four_little_endian_bytes() {
    assert_eq!(decode_u32(&vec![232, 3, 0, 0]), Some(1000));
    assert_eq!(decode_u32(&vec![232, 3, 0, 0, 99]), Some(1000));
    assert_eq!(decode_u32(&vec![232, 3, 0]), None);
    assert_eq!(decode_u32(&vec![]), None);
    assert_eq!(decode_u32(&vec![0xff, 0xff, 0xff, 0xff]), Some(u32::MAX));
}

#[test]
fn storage_key_matches_the_chain_hash() {
    let key = derive_storage_key(&bytes("ParachainInfo"), &bytes("ParachainId"));
    let expected = [
        sp_crypto_hashing::twox_128(b"ParachainInfo"),
        sp_crypto_hashing::twox_128(b"ParachainId"),
    ]
    .concat();
    assert_eq!(key, expected);
    assert_eq!(parachain_id_key(), expected);
}

#[test]
fn header_hash_matches_manual_encoding() {
    let header = Header {
        parent_hash: vec![7u8; 32],
        number: 1000,
        state_root: vec![1u8; 32],
        extrinsics_root: vec![2u8; 32],
        digest: vec![0u8],
    };
    let mut encoding: Vec<u8> = Vec::new();
    encoding.extend_from_slice(&[7u8; 32]);
    encoding.extend_from_slice(&parity_scale_codec::Encode::encode(&parity_scale_codec::Compact(
        1000u64,
    )));
    encoding.extend_from_slice(&[1u8; 32]);
    encoding.extend_from_slice(&[2u8; 32]);
    encoding.push(0u8);
    let expected = sp_crypto_hashing::blake2_256(&encoding).to_vec();
    assert_eq!(header_hash(&header), expected);
}

#[test]
fn state_root_matches_the_trie_of_the_override_map() {
    let overrides = vec![
        (bytes("balance:alpha"), bytes("100")),
        (bytes("balance:beta"), bytes("7")),
        (bytes("balance:alpha"), bytes("250")),
    ];
    let root = compute_state_root(&overrides, StateVersion::V0);
    // last write wins, keys sorted: what a map-backed trie would hold
    let mut map: BTreeMap<Vec<u8>, Vec<u8>> = BTreeMap::new();
    map.insert(bytes("balance:alpha"), bytes("250"));
    map.insert(bytes("balance:beta"), bytes("7"));
    let expected: sp_core::H256 = sp_trie::LayoutV0::<sp_core::Blake2Hasher>::trie_root(map);
    assert_eq!(root, expected.0.to_vec());
    // an empty override set has the empty trie's root
    let empty_root = compute_state_root(&Vec::new(), StateVersion::V0);
    let empty_map: BTreeMap<Vec<u8>, Vec<u8>> = BTreeMap::new();
    let expected_empty: sp_core::H256 =
        sp_trie::LayoutV0::<sp_core::Blake2Hasher>::trie_root(empty_map);
    assert_eq!(empty_root, expected_empty.0.to_vec());
}

#[test]
fn state_root_is_a_function_of_the_override_map() {
    let o1 = vec![
        (bytes("k1"), bytes("a")),
        (bytes("k2"), bytes("b")),
        (bytes("k1"), bytes("c")),
    ];
    // same map, different order and no duplicate
    let o2 = vec![(bytes("k2"), bytes("b")), (bytes("k1"), bytes("c"))];
    assert_eq!(
        compute_state_root(&o1, StateVersion::V0),
        compute_state_root(&o2, StateVersion::V0)
    );
    assert_eq!(
        compute_state_root(&o1, StateVersion::V1),
        compute_state_root(&o2, StateVersion::V1)
    );
}
