//! Scenario checks of the lazy forking backend: bootstrap, transactional
//! commits, read-through caching and error classification.

use lazy_fork::backend::{
    Backend, BackendError, ImportOperation, LocalRead, NewBlockState, RemoteResponse,
};
use lazy_fork::bootstrap::{get_parachain_id, produce_first_block, produce_genesis_block, Block};
use lazy_fork::header::{clone_header, header_hash, Header};

fn bytes(s: &str) -> Vec<u8> {
    s.as_bytes().to_vec()
}

fn genesis_header() -> Header {
    Header {
        parent_hash: vec![0u8; 32],
        number: 0,
        state_root: vec![9u8; 32],
        extrinsics_root: vec![8u8; 32],
        digest: vec![0u8],
    }
}

fn backend_with_genesis() -> (Backend, Vec<u8>) {
    let mut backend = Backend::new();
    let h0 = genesis_header();
    let genesis_hash = header_hash(&h0);
    let genesis = Block { header: h0, extrinsics: vec![bytes("tx-0")] };
    produce_genesis_block(&mut backend, Some(genesis)).unwrap();
    (backend, genesis_hash)
}

#[test]
fn genesis_materialization_anchors_the_remote_genesis() {
    let mut backend = Backend::new();
    let h0 = genesis_header();
    let expected_hash = header_hash(&h0);
    let t0 = vec![bytes("tx-0"), bytes("tx-1")];
    let genesis = Block { header: clone_header(&h0), extrinsics: t0.clone() };
    assert_eq!(produce_genesis_block(&mut backend, Some(genesis)), Ok(()));
    let (number, head_hash) = backend.info().unwrap();
    assert_eq!(number, 0);
    assert_eq!(head_hash, expected_hash);
    assert_eq!(backend.chain[0].extrinsics, t0);
    assert!(backend.chain[0].fork_point);
    assert_eq!(backend.chain[0].finality, NewBlockState::Final);
    // the genesis state is lazy: a read resolves against the remote state
    // at height 0 and then mirrors it
    let key = bytes("genesis-key");
    assert_eq!(backend.read_state_local(&key, None), LocalRead::Unresolved);
    let remote_value = RemoteResponse::Value(Some(bytes("remote-genesis-value")));
    assert_eq!(
        backend.apply_remote_read(&key, None, remote_value),
        Ok(Some(bytes("remote-genesis-value")))
    );
    assert_eq!(
        backend.read_state_local(&key, None),
        LocalRead::Hit(Some(bytes("remote-genesis-value")))
    );
}

#[test]
fn genesis_unavailable_is_fatal() {
    let mut backend = Backend::new();
    assert_eq!(
        produce_genesis_block(&mut backend, None),
        Err(BackendError::GenesisUnavailable)
    );
    assert!(backend.info().is_none());
}

#[test]
fn first_block_builds_on_the_finalized_head() {
    let (mut backend, genesis_hash) = backend_with_genesis();
    let overrides = vec![(bytes("k1"), bytes("v1"))];
    assert_eq!(produce_first_block(&mut backend, overrides), Ok(()));
    let (number, _) = backend.info().unwrap();
    assert_eq!(number, 1);
    let head = &backend.chain[backend.chain.len() - 1];
    assert_eq!(head.header.number, 1);
    assert_eq!(head.header.parent_hash, genesis_hash);
    assert_eq!(backend.genesis_hash().unwrap(), genesis_hash);
    assert!(head.extrinsics.is_empty());
    // the override is served locally, with no remote query
    assert_eq!(
        backend.read_state_local(&bytes("k1"), None),
        LocalRead::Hit(Some(bytes("v1")))
    );
}

#[test]
fn one_operation_open_at_a_time() {
    let (mut backend, _) = backend_with_genesis();
    let op = backend.begin_operation().unwrap();
    // a second operation is rejected while the first is open
    assert!(matches!(
        backend.begin_operation(),
        Err(BackendError::OperationAlreadyOpen)
    ));
    assert!(matches!(
        produce_first_block(&mut backend, vec![]),
        Err(BackendError::OperationAlreadyOpen)
    ));
    // after a discard the slot is free again
    backend.discard_operation(op);
    let op2 = backend.begin_operation().unwrap();
    // committing without block data fails, but frees the slot too
    assert_eq!(
        backend.commit_operation(op2),
        Err(BackendError::MissingBlockData)
    );
    assert!(backend.begin_operation().is_ok());
}

#[test]
fn set_block_data_rejects_a_wrong_parent() {
    let (mut backend, genesis_hash) = backend_with_genesis();
    let mut op = backend.begin_operation().unwrap();
    let stray = Header {
        parent_hash: vec![5u8; 32],
        number: 1,
        state_root: vec![0u8; 32],
        extrinsics_root: vec![0u8; 32],
        digest: vec![0u8],
    };
    assert_eq!(
        op.set_block_data(stray, None, None, None, NewBlockState::Final),
        Err(BackendError::InvalidBlockData)
    );
    let good = Header {
        parent_hash: genesis_hash,
        number: 1,
        state_root: vec![0u8; 32],
        extrinsics_root: vec![0u8; 32],
        digest: vec![0u8],
    };
    assert_eq!(
        op.set_block_data(good, None, None, None, NewBlockState::Final),
        Ok(())
    );
    assert_eq!(backend.commit_operation(op), Ok(()));
    assert_eq!(backend.info().unwrap().0, 1);
}

#[test]
fn fork_point_cannot_reappear_after_genesis() {
    let (mut backend, genesis_hash) = backend_with_genesis();
    let mut op = backend.begin_operation().unwrap();
    op.fork_point = true;
    let header = Header {
        parent_hash: genesis_hash,
        number: 1,
        state_root: vec![0u8; 32],
        extrinsics_root: vec![0u8; 32],
        digest: vec![0u8],
    };
    op.set_block_data(header, None, None, None, NewBlockState::Final).unwrap();
    assert_eq!(
        backend.commit_operation(op),
        Err(BackendError::InvalidBlockData)
    );
    assert_eq!(backend.info().unwrap().0, 0);
}

#[test]
fn commit_rejects_a_block_that_does_not_link_to_the_head() {
    let (mut backend, _) = backend_with_genesis();
    // an operation that skipped the parent check: no expected parent set
    let mut op = ImportOperation {
        has_parent: false,
        parent_hash: Vec::new(),
        parent_number: 0,
        fork_point: false,
        pending: None,
        pending_state: Vec::new(),
    };
    let stray = Header {
        parent_hash: vec![6u8; 32],
        number: 1,
        state_root: vec![0u8; 32],
        extrinsics_root: vec![0u8; 32],
        digest: vec![0u8],
    };
    op.set_block_data(stray, None, None, None, NewBlockState::Final).unwrap();
    assert_eq!(
        backend.commit_operation(op),
        Err(BackendError::ParentMismatch)
    );
    // the chain is left unchanged
    assert_eq!(backend.info().unwrap().0, 0);
}

#[test]
fn commit_rejects_malformed_hash_fields() {
    let (mut backend, genesis_hash) = backend_with_genesis();
    let mut op = backend.begin_operation().unwrap();
    let narrow = Header {
        parent_hash: genesis_hash,
        number: 1,
        state_root: vec![0u8; 31],
        extrinsics_root: vec![0u8; 32],
        digest: vec![0u8],
    };
    op.set_block_data(narrow, None, None, None, NewBlockState::Final).unwrap();
    assert_eq!(
        backend.commit_operation(op),
        Err(BackendError::InvalidBlockData)
    );
    assert_eq!(backend.info().unwrap().0, 0);
}

#[test]
fn cached_reads_are_idempotent() {
    let (mut backend, _) = backend_with_genesis();
    let key = bytes("lazy-key");
    assert_eq!(backend.read_state_local(&key, None), LocalRead::Unresolved);
    // first read goes remote and caches the confirmed value
    let first = backend.apply_remote_read(
        &key,
        None,
        RemoteResponse::Value(Some(bytes("remote-value"))),
    );
    assert_eq!(first, Ok(Some(bytes("remote-value"))));
    // the second read is served locally with the identical value
    assert_eq!(
        backend.read_state_local(&key, None),
        LocalRead::Hit(Some(bytes("remote-value")))
    );
    // even a later transport failure cannot disturb the cached fact
    let again = backend.apply_remote_read(&key, None, RemoteResponse::TransportFailure);
    assert_eq!(again, Ok(Some(bytes("remote-value"))));
}

#[test]
fn absence_and_transport_failure_are_distinct() {
    let (mut backend, _) = backend_with_genesis();
    let key = bytes("missing-key");
    // a transport failure is an error and caches nothing
    assert_eq!(
        backend.apply_remote_read(&key, None, RemoteResponse::TransportFailure),
        Err(BackendError::RemoteUnavailable)
    );
    assert_eq!(backend.read_state_local(&key, None), LocalRead::Unresolved);
    // confirmed absence is an answer, and is cached
    assert_eq!(
        backend.apply_remote_read(&key, None, RemoteResponse::Value(None)),
        Ok(None)
    );
    assert_eq!(backend.read_state_local(&key, None), LocalRead::Hit(None));
    // once absence is confirmed, a transport failure no longer surfaces
    assert_eq!(
        backend.apply_remote_read(&key, None, RemoteResponse::TransportFailure),
        Ok(None)
    );
}

#[test]
fn reads_at_an_unknown_block_are_errors() {
    let mut backend = Backend::new();
    let key = bytes("any");
    assert_eq!(backend.read_state_local(&key, None), LocalRead::UnknownBlock);
    assert_eq!(
        backend.apply_remote_read(&key, None, RemoteResponse::Value(None)),
        Err(BackendError::UnknownBlock)
    );
    let (backend2, _) = backend_with_genesis();
    let stray = vec![0xabu8; 32];
    assert_eq!(
        backend2.read_state_local(&key, Some(&stray)),
        LocalRead::UnknownBlock
    );
}

#[test]
fn reads_at_an_explicit_block_reference() {
    let (mut backend, genesis_hash) = backend_with_genesis();
    produce_first_block(&mut backend, vec![(bytes("k1"), bytes("v1"))]).unwrap();
    // the override lives at the new head, not at genesis
    assert_eq!(
        backend.read_state_local(&bytes("k1"), Some(&genesis_hash)),
        LocalRead::Unresolved
    );
    let (_, head_hash) = backend.info().unwrap();
    assert_eq!(
        backend.read_state_local(&bytes("k1"), Some(&head_hash)),
        LocalRead::Hit(Some(bytes("v1")))
    );
}

#[test]
fn chain_identifier_lookup_decodes_or_folds_to_none() {
    let encoded: Vec<u8> = parity_scale_codec::Encode::encode(&1000u32);
    assert_eq!(
        get_parachain_id(&RemoteResponse::Value(Some(encoded))),
        Some(1000)
    );
    assert_eq!(get_parachain_id(&RemoteResponse::Value(None)), None);
    assert_eq!(
        get_parachain_id(&RemoteResponse::Value(Some(vec![1, 2]))),
        None
    );
    assert_eq!(get_parachain_id(&RemoteResponse::TransportFailure), None);
}
