//! Chain bootstrap procedures: materializing the real chain's genesis block
//! locally, producing the chain's first locally-built block from a set of
//! state overrides, and the best-effort lookup of the chain's self-assigned
//! identifier. The remote fetches themselves are performed by the caller,
//! which hands this module what came back.

use vstd::prelude::*;
use crate::backend::{
    Backend, BackendError, NewBlockState, RemoteResponse, state_assoc,
};
use crate::codec::{scale_decode_u32, decode_u32};
use crate::hashing::{storage_key_of, derive_storage_key};
use crate::header::{
    Header, header_wf, header_hash_of, zero_hash, zero_hash_spec, empty_digest, empty_digest_spec,
};
use crate::overrides::{pairs_view, overrides_map};
use crate::root::{StateVersion, state_root_of};
use crate::util::clone_bytes;

verus! {

/// A block as the remote endpoint serves it: a header and its transaction
/// bundle.
pub struct Block {
    pub header: Header,
    pub extrinsics: Vec<Vec<u8>>,
}

/// Materializes the real chain's genesis block locally from what the remote
/// endpoint supplied: `None` — either lookup came back empty — is fatal
/// (`GenesisUnavailable`), since a forked session cannot proceed without a
/// genesis reference. The block is imported as final with the fork-point
/// flag set, anchoring the local chain's first hash to the real chain's
/// genesis.
pub fn produce_genesis_block(backend: &mut Backend, genesis: Option<Block>) -> (r: Result<
    (),
    BackendError,
>)
    requires
        old(backend).wf(),
        old(backend).chain@.len() == 0,
        genesis matches Some(b) ==> header_wf(b.header),
    ensures
        final(backend).wf(),
        genesis is None ==> r == Err::<(), BackendError>(BackendError::GenesisUnavailable)
            && *final(backend) == *old(backend),
        genesis matches Some(b) ==> if old(backend).operation_open {
            r == Err::<(), BackendError>(BackendError::OperationAlreadyOpen) && *final(backend)
                == *old(backend)
        } else {
            &&& r == Ok::<(), BackendError>(())
            &&& !final(backend).operation_open
            &&& final(backend).cache == old(backend).cache
            &&& final(backend).chain@.len() == 1
            &&& final(backend).chain@[0].header == b.header
            &&& final(backend).chain@[0].hash@ == header_hash_of(b.header)
            &&& final(backend).chain@[0].extrinsics == b.extrinsics
            &&& final(backend).chain@[0].fork_point
            &&& final(backend).chain@[0].finality == NewBlockState::Final
            &&& final(backend).chain@[0].state@.len() == 0
        },
{
    let b = match genesis {
        None => {
            return Err(BackendError::GenesisUnavailable);
        },
        Some(b) => b,
    };
    let mut op = match backend.begin_operation() {
        Err(e) => {
            return Err(e);
        },
        Ok(op) => op,
    };
    op.fork_point = true;
    let Block { header, extrinsics } = b;
    let set_result = op.set_block_data(
        header,
        Some(extrinsics),
        None,
        None,
        NewBlockState::Final,
    );
    proof {
        assert(set_result is Ok);
    }
    let r = backend.commit_operation(op);
    proof {
        assert(final(backend).chain@[0] == final(backend).chain@.last());
    }
    r
}

/// Produces the chain's first locally-built block: installs the supplied
/// overrides wholesale as the block's state, computes their state root at
/// trie-encoding version zero, and imports as final a block at
/// `finalized_number + 1` whose parent is the current finalized hash, with
/// default (all-zero) extrinsics root, empty digest and an empty
/// transaction bundle.
pub fn produce_first_block(backend: &mut Backend, state_overrides: Vec<(Vec<u8>, Vec<u8>)>) -> (r:
    Result<(), BackendError>)
    requires
        old(backend).wf(),
        old(backend).chain@.len() > 0,
        old(backend).chain@.last().header.number < u64::MAX,
    ensures
        final(backend).wf(),
        old(backend).operation_open ==> r == Err::<(), BackendError>(
            BackendError::OperationAlreadyOpen,
        ) && *final(backend) == *old(backend),
        !old(backend).operation_open ==> {
            &&& r == Ok::<(), BackendError>(())
            &&& !final(backend).operation_open
            &&& final(backend).cache == old(backend).cache
            &&& final(backend).chain@.len() == old(backend).chain@.len() + 1
            &&& final(backend).chain@.drop_last() == old(backend).chain@
            &&& final(backend).chain@.last().header.number == old(
                backend,
            ).chain@.last().header.number + 1
            &&& final(backend).chain@.last().header.parent_hash@ == old(
                backend,
            ).chain@.last().hash@
            &&& final(backend).chain@.last().header.state_root@ == state_root_of(
                pairs_view(state_overrides@),
                StateVersion::V0,
            )
            &&& final(backend).chain@.last().header.extrinsics_root@ == zero_hash_spec()
            &&& final(backend).chain@.last().header.digest@ == empty_digest_spec()
            &&& final(backend).chain@.last().extrinsics@.len() == 0
            &&& final(backend).chain@.last().finality == NewBlockState::Final
            &&& !final(backend).chain@.last().fork_point
            &&& forall|k: Seq<u8>|
                #[trigger] state_assoc(final(backend).chain@.last().state@, k) == (
                if overrides_map(pairs_view(state_overrides@)).dom().contains(k) {
                    Some(Some(overrides_map(pairs_view(state_overrides@))[k]))
                } else {
                    None
                })
        },
{
    let mut op = match backend.begin_operation() {
        Err(e) => {
            return Err(e);
        },
        Ok(op) => op,
    };
    let state_root = op.reset_storage(&state_overrides, StateVersion::V0);
    let next_number = op.parent_number + 1;
    let parent_hash = clone_bytes(&op.parent_hash);
    let header = Header {
        parent_hash,
        number: next_number,
        state_root,
        extrinsics_root: zero_hash(),
        digest: empty_digest(),
    };
    let set_result = op.set_block_data(header, Some(Vec::new()), None, None, NewBlockState::Final);
    proof {
        assert(set_result is Ok);
    }
    backend.commit_operation(op)
}

/// The bytes of the module name the chain identifier lives under.
pub open spec fn chain_id_module_spec() -> Seq<u8> {
    seq![80u8, 97u8, 114u8, 97u8, 99u8, 104u8, 97u8, 105u8, 110u8, 73u8, 110u8, 102u8, 111u8]
}

/// The bytes of the item name the chain identifier lives under.
pub open spec fn chain_id_item_spec() -> Seq<u8> {
    seq![80u8, 97u8, 114u8, 97u8, 99u8, 104u8, 97u8, 105u8, 110u8, 73u8, 100u8]
}

/// Returns the module name (`ParachainInfo`) as bytes.
fn chain_id_module() -> (r: Vec<u8>)
    ensures
        r@ == chain_id_module_spec(),
{
    let mut r: Vec<u8> = Vec::new();
    r.push(80u8);
    r.push(97u8);
    r.push(114u8);
    r.push(97u8);
    r.push(99u8);
    r.push(104u8);
    r.push(97u8);
    r.push(105u8);
    r.push(110u8);
    r.push(73u8);
    r.push(110u8);
    r.push(102u8);
    r.push(111u8);
    proof {
        assert(r@ =~= chain_id_module_spec());
    }
    r
}

/// Returns the item name (`ParachainId`) as bytes.
fn chain_id_item() -> (r: Vec<u8>)
    ensures
        r@ == chain_id_item_spec(),
{
    let mut r: Vec<u8> = Vec::new();
    r.push(80u8);
    r.push(97u8);
    r.push(114u8);
    r.push(97u8);
    r.push(99u8);
    r.push(104u8);
    r.push(97u8);
    r.push(105u8);
    r.push(110u8);
    r.push(73u8);
    r.push(100u8);
    proof {
        assert(r@ =~= chain_id_item_spec());
    }
    r
}

/// Derives the storage key under which the chain's self-assigned numeric
/// identifier is stored: item `ParachainId` of module `ParachainInfo`.
pub fn parachain_id_key() -> (r: Vec<u8>)
    ensures
        r@ == storage_key_of(chain_id_module_spec(), chain_id_item_spec()),
        r@.len() == 32,
{
    let module = chain_id_module();
    let item = chain_id_item();
    derive_storage_key(&module, &item)
}

/// What a remote answer at the chain-identifier key means: the identifier
/// decoded as a fixed-width little-endian unsigned 32-bit integer, or
/// `None` when the key is absent, the bytes do not decode, or the query
/// itself failed — all folded into "unknown", since the value is
/// best-effort metadata.
pub open spec fn chain_id_of_response(resp: RemoteResponse) -> Option<u32> {
    match resp {
        RemoteResponse::Value(d) => match d {
            Some(bytes) => scale_decode_u32(bytes@),
            None => None,
        },
        RemoteResponse::TransportFailure => None,
    }
}

/// Decodes the chain's numeric identifier from what a remote query at the
/// derived key came back with. Absence, undecodable bytes and transport
/// failure all yield `None`.
pub fn get_parachain_id(response: &RemoteResponse) -> (r: Option<u32>)
    ensures
        r == chain_id_of_response(*response),
{
    match response {
        RemoteResponse::Value(d) => match d {
            Some(bytes) => decode_u32(bytes),
            None => None,
        },
        RemoteResponse::TransportFailure => None,
    }
}

} // verus!
