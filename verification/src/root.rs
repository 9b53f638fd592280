//! The chain's state-root computation: the root of the state trie built
//! from a complete key/value override set, at one of the two trie-encoding
//! versions. The trie algorithm itself is the chain library's; this module
//! feeds it the canonical ordered entries and names its result.

use vstd::prelude::*;
use sp_trie::TrieConfiguration;
use crate::overrides::{
    pairs_view, keys_sorted, overrides_map, normalize_spec, normalize_overrides,
    lemma_normalize_canonical,
};

verus! {

/// The trie-encoding version used to compute a state root.
#[derive(Clone, Copy)]
pub enum StateVersion {
    V0,
    V1,
}

/// The root of the version-zero state trie over ordered, duplicate-free
/// entries. The result depends on the entries alone.
pub uninterp spec fn state_root_v0_of(entries: Seq<(Seq<u8>, Seq<u8>)>) -> Seq<u8>;

/// The root of the version-one state trie over ordered, duplicate-free
/// entries. The result depends on the entries alone.
pub uninterp spec fn state_root_v1_of(entries: Seq<(Seq<u8>, Seq<u8>)>) -> Seq<u8>;

/// The state root of an override set at a trie-encoding version: the trie
/// root of the set's canonical form.
pub open spec fn state_root_of(overrides: Seq<(Seq<u8>, Seq<u8>)>, version: StateVersion) -> Seq<
    u8,
> {
    match version {
        StateVersion::V0 => state_root_v0_of(normalize_spec(overrides)),
        StateVersion::V1 => state_root_v1_of(normalize_spec(overrides)),
    }
}

/// Relies on `sp_trie::LayoutV0::<sp_core::Blake2Hasher>::trie_root`
/// (`trie_db::TrieConfiguration::trie_root`): the 32-byte root of the
/// version-zero trie over its input, which it expects ordered by key and
/// free of duplicates; a pure function of the entries.
#[verifier::external_body]
fn trie_root_v0(entries: &Vec<(Vec<u8>, Vec<u8>)>) -> (r: Vec<u8>)
    requires
        keys_sorted(pairs_view(entries@)),
    ensures
        r@ == state_root_v0_of(pairs_view(entries@)),
        r@.len() == 32,
{
    let root: sp_core::H256 = sp_trie::LayoutV0::<sp_core::Blake2Hasher>::trie_root(
        entries.iter().map(|p| (&p.0, &p.1)),
    );
    root.0.to_vec()
}

/// Relies on `sp_trie::LayoutV1::<sp_core::Blake2Hasher>::trie_root`
/// (`trie_db::TrieConfiguration::trie_root`): the 32-byte root of the
/// version-one trie over its input, which it expects ordered by key and
/// free of duplicates; a pure function of the entries.
#[verifier::external_body]
fn trie_root_v1(entries: &Vec<(Vec<u8>, Vec<u8>)>) -> (r: Vec<u8>)
    requires
        keys_sorted(pairs_view(entries@)),
    ensures
        r@ == state_root_v1_of(pairs_view(entries@)),
        r@.len() == 32,
{
    let root: sp_core::H256 = sp_trie::LayoutV1::<sp_core::Blake2Hasher>::trie_root(
        entries.iter().map(|p| (&p.0, &p.1)),
    );
    root.0.to_vec()
}

/// Computes the state root of an override set at the given trie-encoding
/// version: the set is brought to canonical form and the trie root taken.
pub fn compute_state_root(overrides: &Vec<(Vec<u8>, Vec<u8>)>, version: StateVersion) -> (r: Vec<
    u8,
>)
    ensures
        r@ == state_root_of(pairs_view(overrides@), version),
        r@.len() == 32,
{
    let normalized = normalize_overrides(overrides);
    match version {
        StateVersion::V0 => trie_root_v0(&normalized),
        StateVersion::V1 => trie_root_v1(&normalized),
    }
}

/// Computes the trie root of an entry list already in canonical form.
pub fn trie_root_sorted(entries: &Vec<(Vec<u8>, Vec<u8>)>, version: StateVersion) -> (r: Vec<u8>)
    requires
        keys_sorted(pairs_view(entries@)),
    ensures
        r@ == (match version {
            StateVersion::V0 => state_root_v0_of(pairs_view(entries@)),
            StateVersion::V1 => state_root_v1_of(pairs_view(entries@)),
        }),
        r@.len() == 32,
{
    match version {
        StateVersion::V0 => trie_root_v0(entries),
        StateVersion::V1 => trie_root_v1(entries),
    }
}

/// Law: the state root is a pure deterministic function of the override
/// map and the trie-encoding version. Two override lists that describe the
/// same last-write-wins map — in any order, with any duplicates — have the
/// same state root at the same version.
pub proof fn lemma_state_root_deterministic(
    o1: Seq<(Seq<u8>, Seq<u8>)>,
    o2: Seq<(Seq<u8>, Seq<u8>)>,
    version: StateVersion,
)
    requires
        overrides_map(o1) == overrides_map(o2),
    ensures
        state_root_of(o1, version) == state_root_of(o2, version),
{
    lemma_normalize_canonical(o1, o2);
}

} // verus!
