//! Import-operation methods: installing the pending state wholesale and
//! attaching block data before a commit.

use vstd::prelude::*;
use crate::backend::{
    ImportOperation, PendingBlock, CacheEntry, BackendError, NewBlockState, entry_view,
    state_assoc,
};
use crate::header::Header;
use crate::order::{KeyOrder, compare_keys};
use crate::overrides::{
    pairs_view, keys_sorted, overrides_map, normalize_overrides, normalize_spec,
    lemma_overrides_dom, lemma_overrides_map_cons, lemma_normalize_spec_sorted,
    lemma_normalize_spec_map, sorted_tail_facts,
};
use crate::order::lemma_lex_irreflexive;
use crate::root::{StateVersion, state_root_of, trie_root_sorted};
use crate::util::clone_bytes;

verus! {

/// A list of state entries that carries exactly the bindings of a sorted
/// override list answers every key as the override map does.
proof fn lemma_state_assoc_of_pairs(
    ps: Seq<(Vec<u8>, CacheEntry)>,
    c: Seq<(Seq<u8>, Seq<u8>)>,
    k: Seq<u8>,
)
    requires
        ps.len() == c.len(),
        forall|j: int|
            0 <= j < c.len() ==> (#[trigger] ps[j]).0@ == c[j].0 && entry_view(ps[j].1) == Some(
                c[j].1,
            ),
        keys_sorted(c),
    ensures
        state_assoc(ps, k) == (if overrides_map(c).dom().contains(k) {
            Some(Some(overrides_map(c)[k]))
        } else {
            None
        }),
    decreases c.len(),
{
    lemma_overrides_dom(c, k);
    if c.len() == 0 {
    } else {
        let pt = ps.skip(1);
        let ct = c.skip(1);
        sorted_tail_facts(c);
        assert forall|j: int| 0 <= j < ct.len() implies (#[trigger] pt[j]).0@ == ct[j].0
            && entry_view(pt[j].1) == Some(ct[j].1) by {
            assert(pt[j] == ps[j + 1]);
            assert(ct[j] == c[j + 1]);
            assert(ps[j + 1].0@ == c[j + 1].0 && entry_view(ps[j + 1].1) == Some(c[j + 1].1));
        }
        lemma_overrides_dom(ct, c[0].0);
        if overrides_map(ct).dom().contains(c[0].0) {
            let i = choose|i: int| 0 <= i < ct.len() && #[trigger] ct[i].0 == c[0].0;
            lemma_lex_irreflexive(c[0].0);
            assert(false);
        }
        assert(c =~= seq![c[0]] + ct);
        lemma_overrides_map_cons(c[0], ct);
        if ps[0].0@ == k {
            assert(c[0].0 == k);
            assert(state_assoc(ps, k) == Some(entry_view(ps[0].1)));
        } else {
            lemma_state_assoc_of_pairs(pt, ct, k);
            lemma_overrides_dom(ct, k);
        }
    }
}

impl ImportOperation {
    /// Replaces the operation's pending state wholesale with the supplied
    /// overrides — not a diff against any parent state — and returns the
    /// state root the chain's state-root algorithm computes for them at the
    /// given trie-encoding version. Duplicate keys resolve last-write-wins.
    pub fn reset_storage(&mut self, overrides: &Vec<(Vec<u8>, Vec<u8>)>, version: StateVersion) -> (r: Vec<u8>)
        ensures
            r@ == state_root_of(pairs_view(overrides@), version),
            r@.len() == 32,
            final(self).has_parent == old(self).has_parent,
            final(self).parent_hash == old(self).parent_hash,
            final(self).parent_number == old(self).parent_number,
            final(self).fork_point == old(self).fork_point,
            final(self).pending == old(self).pending,
            forall|k: Seq<u8>|
                #[trigger] state_assoc(final(self).pending_state@, k) == (
                if overrides_map(pairs_view(overrides@)).dom().contains(k) {
                    Some(Some(overrides_map(pairs_view(overrides@))[k]))
                } else {
                    None
                }),
    {
        let normalized = normalize_overrides(overrides);
        let root = trie_root_sorted(&normalized, version);
        let mut ps: Vec<(Vec<u8>, CacheEntry)> = Vec::new();
        let mut i: usize = 0;
        while i < normalized.len()
            invariant
                0 <= i <= normalized@.len(),
                ps@.len() == i,
                pairs_view(normalized@) == normalize_spec(
                    pairs_view(overrides@),
                ),
                forall|j: int|
                    0 <= j < i ==> (#[trigger] ps@[j]).0@ == pairs_view(normalized@)[j].0
                        && entry_view(ps@[j].1) == Some(pairs_view(normalized@)[j].1),
            decreases normalized@.len() - i,
        {
            let e = &normalized[i];
            let kk = clone_bytes(&e.0);
            let vv = clone_bytes(&e.1);
            ps.push((kk, CacheEntry::Present(vv)));
            i = i + 1;
        }
        self.pending_state = ps;
        proof {
            let o = pairs_view(overrides@);
            lemma_normalize_spec_sorted(o);
            lemma_normalize_spec_map(o);
            assert forall|k: Seq<u8>|
                #[trigger] state_assoc(self.pending_state@, k) == (
                if overrides_map(o).dom().contains(k) {
                    Some(Some(overrides_map(o)[k]))
                } else {
                    None
                }) by {
                lemma_state_assoc_of_pairs(self.pending_state@, pairs_view(normalized@), k);
            }
        }
        root
    }

    /// Attaches the header and transaction bundle to the operation with the
    /// intended finality classification. Fails with `InvalidBlockData` when
    /// the header's parent does not match the operation's expected parent;
    /// the justification and finality proof are accepted for interface
    /// fidelity and not retained by this backend.
    pub fn set_block_data(
        &mut self,
        header: Header,
        transactions: Option<Vec<Vec<u8>>>,
        justification: Option<Vec<u8>>,
        finality_proof: Option<Vec<u8>>,
        state: NewBlockState,
    ) -> (r: Result<(), BackendError>)
        ensures
            (old(self).has_parent && header.parent_hash@ != old(self).parent_hash@) ==> r == Err::<
                (),
                BackendError,
            >(BackendError::InvalidBlockData) && *final(self) == *old(self),
            !(old(self).has_parent && header.parent_hash@ != old(self).parent_hash@) ==> {
                &&& r == Ok::<(), BackendError>(())
                &&& (final(self).pending matches Some(pb) && pb.header == header && pb.finality
                    == state && (match transactions {
                    Some(t) => pb.extrinsics == t,
                    None => pb.extrinsics@.len() == 0,
                }))
                &&& final(self).has_parent == old(self).has_parent
                &&& final(self).parent_hash == old(self).parent_hash
                &&& final(self).parent_number == old(self).parent_number
                &&& final(self).fork_point == old(self).fork_point
                &&& final(self).pending_state == old(self).pending_state
            },
    {
        let _ = justification;
        let _ = finality_proof;
        if self.has_parent {
            match compare_keys(&header.parent_hash, &self.parent_hash) {
                KeyOrder::Equal => {},
                _ => {
                    return Err(BackendError::InvalidBlockData);
                },
            }
        }
        let extrinsics = match transactions {
            Some(t) => t,
            None => Vec::new(),
        };
        self.pending = Some(PendingBlock { header, extrinsics, finality: state });
        Ok(())
    }
}

} // verus!
