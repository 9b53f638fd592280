//! The lazy forking backend: a local, transactional store of block headers,
//! transaction bundles and per-block state, layered over read-through
//! resolution against a remote chain endpoint. Remote fetches themselves are
//! performed by the caller; the backend decides what must be fetched and
//! what every possible answer means, and caches confirmed answers — a
//! transport failure is never cached as absence.

use vstd::prelude::*;
use crate::header::{Header, header_wf, header_hash_of, header_hash};
use crate::order::{KeyOrder, compare_keys, bytes_equal};
use crate::util::clone_bytes;

verus! {

/// The failures the backend and the procedures built on it can report.
#[derive(Clone, Copy, PartialEq, Eq, Debug)]
pub enum BackendError {
    /// Another import operation is already open.
    OperationAlreadyOpen,
    /// A header's parent hash does not match the block it would follow.
    ParentMismatch,
    /// An operation was committed before any block data was attached.
    MissingBlockData,
    /// The block data handed to an operation is inconsistent with it.
    InvalidBlockData,
    /// The block reference of a state read names no known block.
    UnknownBlock,
    /// A remote query failed in transport; distinct from confirmed absence.
    RemoteUnavailable,
    /// The remote endpoint could not supply the genesis block.
    GenesisUnavailable,
}

/// The finality classification a block is imported with.
#[derive(Clone, Copy, PartialEq, Eq, Debug)]
pub enum NewBlockState {
    Normal,
    Best,
    Final,
}

/// A cached fact about one storage key at one block: a confirmed value, or
/// confirmed absence. Transport failures are never recorded here.
#[derive(PartialEq, Eq, Debug)]
pub enum CacheEntry {
    Present(Vec<u8>),
    Absent,
}

/// What a remote storage query came back with: a confirmed answer (a value
/// or confirmed absence), or a transport failure.
#[derive(PartialEq, Eq, Debug)]
pub enum RemoteResponse {
    Value(Option<Vec<u8>>),
    TransportFailure,
}

/// A committed block: its header, hash, transaction bundle, finality
/// classification, fork-point flag and authoritative state overrides.
pub struct StoredBlock {
    pub header: Header,
    pub hash: Vec<u8>,
    pub extrinsics: Vec<Vec<u8>>,
    pub fork_point: bool,
    pub finality: NewBlockState,
    pub state: Vec<(Vec<u8>, CacheEntry)>,
}

/// The block data pending inside an open import operation.
pub struct PendingBlock {
    pub header: Header,
    pub extrinsics: Vec<Vec<u8>>,
    pub finality: NewBlockState,
}

/// A scoped, single-use transaction that accumulates one new block and is
/// atomically committed or discarded.
pub struct ImportOperation {
    pub has_parent: bool,
    pub parent_hash: Vec<u8>,
    pub parent_number: u64,
    pub fork_point: bool,
    pub pending: Option<PendingBlock>,
    pub pending_state: Vec<(Vec<u8>, CacheEntry)>,
}

/// The backend: the canonical chain, the read-through cache of remote
/// state keyed by block hash and storage key, and the open-operation slot.
pub struct Backend {
    pub chain: Vec<StoredBlock>,
    pub cache: Vec<(Vec<u8>, Vec<u8>, CacheEntry)>,
    pub operation_open: bool,
}

/// The fact a cache entry records: `Some(bytes)` or confirmed absence.
pub open spec fn entry_view(e: CacheEntry) -> Option<Seq<u8>> {
    match e {
        CacheEntry::Present(v) => Some(v@),
        CacheEntry::Absent => None,
    }
}

/// The contents of an optional byte vector.
pub open spec fn opt_bytes_view(o: Option<Vec<u8>>) -> Option<Seq<u8>> {
    match o {
        Some(v) => Some(v@),
        None => None,
    }
}

/// The block reference of an optional hash argument.
pub open spec fn at_view(at: Option<&Vec<u8>>) -> Option<Seq<u8>> {
    match at {
        Some(h) => Some(h@),
        None => None,
    }
}

/// First entry of a block's override state carrying key `k`, if any.
pub open spec fn state_assoc(s: Seq<(Vec<u8>, CacheEntry)>, k: Seq<u8>) -> Option<Option<Seq<u8>>>
    decreases s.len(),
{
    if s.len() == 0 {
        None
    } else if s[0].0@ == k {
        Some(entry_view(s[0].1))
    } else {
        state_assoc(s.skip(1), k)
    }
}

/// First entry of the read-through cache for block `h` and key `k`, if any.
pub open spec fn cache_assoc(
    c: Seq<(Vec<u8>, Vec<u8>, CacheEntry)>,
    h: Seq<u8>,
    k: Seq<u8>,
) -> Option<Option<Seq<u8>>>
    decreases c.len(),
{
    if c.len() == 0 {
        None
    } else if c[0].0@ == h && c[0].1@ == k {
        Some(entry_view(c[0].2))
    } else {
        cache_assoc(c.skip(1), h, k)
    }
}

/// The first block of the chain whose hash is `h`, if any.
pub open spec fn find_block(chain: Seq<StoredBlock>, h: Seq<u8>) -> Option<StoredBlock>
    decreases chain.len(),
{
    if chain.len() == 0 {
        None
    } else if chain[0].hash@ == h {
        Some(chain[0])
    } else {
        find_block(chain.skip(1), h)
    }
}

/// Well-formedness of a chain: every stored hash is its header's hash,
/// every block after the first links to its predecessor, and only the
/// first block can be the fork point.
pub open spec fn chain_wf(c: Seq<StoredBlock>) -> bool {
    &&& forall|i: int|
        0 <= i < c.len() ==> (#[trigger] c[i]).hash@ == header_hash_of(c[i].header)
            && c[i].hash@.len() == 32 && header_wf(c[i].header)
    &&& forall|i: int|
        0 < i < c.len() ==> (#[trigger] c[i]).header.parent_hash@ == c[i - 1].hash@
    &&& forall|i: int| 0 < i < c.len() ==> !(#[trigger] c[i]).fork_point
}

/// Appending a block that carries its header's hash, links to the old head,
/// and reuses no fork point keeps a chain well-formed.
#[verifier::rlimit(100)]
proof fn lemma_chain_wf_push(o: Seq<StoredBlock>, c: Seq<StoredBlock>)
    requires
        chain_wf(o),
        c.len() == o.len() + 1,
        forall|i: int| 0 <= i < o.len() ==> #[trigger] c[i] == o[i],
        c.last().hash@ == header_hash_of(c.last().header),
        c.last().hash@.len() == 32,
        header_wf(c.last().header),
        o.len() > 0 ==> c.last().header.parent_hash@ == o.last().hash@,
        o.len() > 0 ==> !c.last().fork_point,
    ensures
        chain_wf(c),
{
    assert forall|i: int| 0 <= i < c.len() implies (#[trigger] c[i]).hash@ == header_hash_of(
        c[i].header,
    ) && c[i].hash@.len() == 32 && header_wf(c[i].header) by {
        if i < c.len() - 1 {
            assert(c[i] == o[i]);
            assert(o[i].hash@ == header_hash_of(o[i].header));
            assert(o[i].hash@.len() == 32 && header_wf(o[i].header));
        }
    }
    assert forall|i: int| 0 < i < c.len() implies (#[trigger] c[i]).header.parent_hash@ == c[i
        - 1].hash@ by {
        if i < c.len() - 1 {
            assert(c[i] == o[i]);
            assert(o[i].header.parent_hash@ == o[i - 1].hash@);
        } else {
            assert(c[i - 1] == o[i - 1]);
        }
    }
    assert forall|i: int| 0 < i < c.len() implies !(#[trigger] c[i]).fork_point by {
        if i < c.len() - 1 {
            assert(c[i] == o[i]);
            assert(!o[i].fork_point);
        }
    }
}

impl Backend {
    /// The block a reference resolves to: the chain head when no reference
    /// is given, else the block with that hash.
    pub open spec fn resolve_at(self, at: Option<Seq<u8>>) -> Option<StoredBlock> {
        match at {
            None => if self.chain@.len() > 0 {
                Some(self.chain@.last())
            } else {
                None
            },
            Some(h) => find_block(self.chain@, h),
        }
    }

    /// What the backend locally knows of key `k` at block `blk`: the
    /// block's authoritative overrides first, then the read-through cache.
    pub open spec fn local_lookup(self, blk: StoredBlock, k: Seq<u8>) -> Option<Option<Seq<u8>>> {
        match state_assoc(blk.state@, k) {
            Some(x) => Some(x),
            None => cache_assoc(self.cache@, blk.hash@, k),
        }
    }

    /// Well-formedness: every stored hash is its header's hash, every block
    /// after the first links to its predecessor, and only the first block
    /// can be the fork point.
    pub open spec fn wf(self) -> bool {
        chain_wf(self.chain@)
    }

    /// Creates an empty backend: no blocks, nothing cached, no open
    /// operation.
    pub fn new() -> (r: Backend)
        ensures
            r.chain@.len() == 0,
            r.cache@.len() == 0,
            !r.operation_open,
            r.wf(),
    {
        Backend { chain: Vec::new(), cache: Vec::new(), operation_open: false }
    }

    /// The chain metadata: the finalized head's number and hash, or nothing
    /// while no block has been committed. Updated only by a successful
    /// commit.
    pub fn info(&self) -> (r: Option<(u64, Vec<u8>)>)
        ensures
            r is None <==> self.chain@.len() == 0,
            self.chain@.len() > 0 ==> (r matches Some(p) && p.0
                == self.chain@.last().header.number && p.1@ == self.chain@.last().hash@),
    {
        let n = self.chain.len();
        if n == 0 {
            None
        } else {
            let b = &self.chain[n - 1];
            Some((b.header.number, clone_bytes(&b.hash)))
        }
    }

    /// The hash of the chain's genesis block, once one has been committed.
    pub fn genesis_hash(&self) -> (r: Option<Vec<u8>>)
        ensures
            r is None <==> self.chain@.len() == 0,
            self.chain@.len() > 0 ==> (r matches Some(h) && h@ == self.chain@[0].hash@),
    {
        if self.chain.len() == 0 {
            None
        } else {
            let b = &self.chain[0];
            Some(clone_bytes(&b.hash))
        }
    }

    /// Opens a new import operation referencing the current chain head.
    /// Fails while another operation is open; after that one is committed
    /// or discarded, a new one can be opened.
    pub fn begin_operation(&mut self) -> (r: Result<ImportOperation, BackendError>)
        ensures
            final(self).chain == old(self).chain,
            final(self).cache == old(self).cache,
            old(self).operation_open ==> r == Err::<ImportOperation, BackendError>(
                BackendError::OperationAlreadyOpen,
            ) && final(self).operation_open,
            !old(self).operation_open ==> {
                &&& final(self).operation_open
                &&& r matches Ok(op)
                &&& op.has_parent == (old(self).chain@.len() > 0)
                &&& old(self).chain@.len() > 0 ==> op.parent_hash@ == old(
                    self,
                ).chain@.last().hash@ && op.parent_number == old(self).chain@.last().header.number
                &&& old(self).chain@.len() == 0 ==> op.parent_hash@.len() == 0
                    && op.parent_number == 0
                &&& op.pending is None
                &&& op.pending_state@.len() == 0
                &&& !op.fork_point
            },
    {
        if self.operation_open {
            return Err(BackendError::OperationAlreadyOpen);
        }
        self.operation_open = true;
        let n = self.chain.len();
        if n > 0 {
            let head = &self.chain[n - 1];
            let op = ImportOperation {
                has_parent: true,
                parent_hash: clone_bytes(&head.hash),
                parent_number: head.header.number,
                fork_point: false,
                pending: None,
                pending_state: Vec::new(),
            };
            Ok(op)
        } else {
            let op = ImportOperation {
                has_parent: false,
                parent_hash: Vec::new(),
                parent_number: 0,
                fork_point: false,
                pending: None,
                pending_state: Vec::new(),
            };
            Ok(op)
        }
    }

    /// Discards an open operation without touching the chain; the
    /// open-operation slot becomes free again.
    pub fn discard_operation(&mut self, op: ImportOperation)
        ensures
            final(self).chain == old(self).chain,
            final(self).cache == old(self).cache,
            !final(self).operation_open,
    {
        let _ = op;
        self.operation_open = false;
    }

    /// Validates and atomically installs the operation's block as the new
    /// canonical head. On any validation failure the chain is unchanged and
    /// the error names the violated invariant; either way the operation is
    /// consumed and the open-operation slot becomes free.
    #[verifier::rlimit(100)]
    pub fn commit_operation(&mut self, op: ImportOperation) -> (r: Result<(), BackendError>)
        ensures
            !final(self).operation_open,
            final(self).cache == old(self).cache,
            op.pending is None ==> r == Err::<(), BackendError>(BackendError::MissingBlockData)
                && final(self).chain == old(self).chain,
            op.pending matches Some(pb) ==> {
                if old(self).chain@.len() > 0 && pb.header.parent_hash@ != old(
                    self,
                ).chain@.last().hash@ {
                    &&& r == Err::<(), BackendError>(BackendError::ParentMismatch)
                    &&& final(self).chain == old(self).chain
                } else if (old(self).chain@.len() > 0 && op.fork_point) || !header_wf(
                    pb.header,
                ) {
                    &&& r == Err::<(), BackendError>(BackendError::InvalidBlockData)
                    &&& final(self).chain == old(self).chain
                } else {
                    &&& r == Ok::<(), BackendError>(())
                    &&& final(self).chain@.len() == old(self).chain@.len() + 1
                    &&& final(self).chain@.drop_last() == old(self).chain@
                    &&& final(self).chain@.last().header == pb.header
                    &&& final(self).chain@.last().hash@ == header_hash_of(pb.header)
                    &&& final(self).chain@.last().extrinsics == pb.extrinsics
                    &&& final(self).chain@.last().fork_point == op.fork_point
                    &&& final(self).chain@.last().finality == pb.finality
                    &&& final(self).chain@.last().state == op.pending_state
                    &&& (old(self).wf() ==> final(self).wf())
                }
            },
    {
        self.operation_open = false;
        let ImportOperation { has_parent: _, parent_hash: _, parent_number: _, fork_point, pending, pending_state } = op;
        match pending {
            None => Err(BackendError::MissingBlockData),
            Some(pb) => {
                let PendingBlock { header, extrinsics, finality } = pb;
                let n = self.chain.len();
                if n > 0 {
                    let head = &self.chain[n - 1];
                    match compare_keys(&header.parent_hash, &head.hash) {
                        KeyOrder::Equal => {},
                        _ => {
                            return Err(BackendError::ParentMismatch);
                        },
                    }
                    // the fork point marks the chain's origin; it must not
                    // reappear on a later block
                    if fork_point {
                        return Err(BackendError::InvalidBlockData);
                    }
                }
                // the chain's hashes are 32 bytes wide; a header whose hash
                // fields are not cannot come from the chain
                if header.parent_hash.len() != 32 || header.state_root.len() != 32
                    || header.extrinsics_root.len() != 32 {
                    return Err(BackendError::InvalidBlockData);
                }
                let hash = header_hash(&header);
                let blk = StoredBlock {
                    header,
                    hash,
                    extrinsics,
                    fork_point,
                    finality,
                    state: pending_state,
                };
                self.chain.push(blk);
                proof {
                    let c = self.chain@;
                    let o = old(self).chain@;
                    assert(c.drop_last() =~= o);
                    if old(self).wf() {
                        lemma_chain_wf_push(o, c);
                    }
                }
                Ok(())
            },
        }
    }
}

/// What a local state read finds: a locally known fact (a value or
/// confirmed absence), a key the backend has not resolved yet, or an
/// unknown block reference.
#[derive(PartialEq, Eq, Debug)]
pub enum LocalRead {
    Hit(Option<Vec<u8>>),
    Unresolved,
    UnknownBlock,
}

/// Scanning past entries that do not carry `h` does not change what the
/// block search finds.
proof fn lemma_find_block_skip(chain: Seq<StoredBlock>, h: Seq<u8>, i: int)
    requires
        0 <= i <= chain.len(),
        forall|j: int| 0 <= j < i ==> (#[trigger] chain[j]).hash@ != h,
    ensures
        find_block(chain, h) == find_block(chain.skip(i), h),
    decreases i,
{
    if i == 0 {
        assert(chain.skip(0) =~= chain);
    } else {
        let t = chain.skip(1);
        assert forall|j: int| 0 <= j < i - 1 implies (#[trigger] t[j]).hash@ != h by {
            assert(t[j] == chain[j + 1]);
        }
        lemma_find_block_skip(t, h, i - 1);
        assert(t.skip(i - 1) =~= chain.skip(i));
    }
}

/// Scanning past entries that do not carry `k` does not change what the
/// state search finds.
proof fn lemma_state_assoc_skip(s: Seq<(Vec<u8>, CacheEntry)>, k: Seq<u8>, i: int)
    requires
        0 <= i <= s.len(),
        forall|j: int| 0 <= j < i ==> (#[trigger] s[j]).0@ != k,
    ensures
        state_assoc(s, k) == state_assoc(s.skip(i), k),
    decreases i,
{
    if i == 0 {
        assert(s.skip(0) =~= s);
    } else {
        let t = s.skip(1);
        assert forall|j: int| 0 <= j < i - 1 implies (#[trigger] t[j]).0@ != k by {
            assert(t[j] == s[j + 1]);
        }
        lemma_state_assoc_skip(t, k, i - 1);
        assert(t.skip(i - 1) =~= s.skip(i));
    }
}

/// Scanning past entries that do not carry `(h, k)` does not change what
/// the cache search finds.
proof fn lemma_cache_assoc_skip(c: Seq<(Vec<u8>, Vec<u8>, CacheEntry)>, h: Seq<u8>, k: Seq<u8>, i: int)
    requires
        0 <= i <= c.len(),
        forall|j: int| 0 <= j < i ==> !((#[trigger] c[j]).0@ == h && c[j].1@ == k),
    ensures
        cache_assoc(c, h, k) == cache_assoc(c.skip(i), h, k),
    decreases i,
{
    if i == 0 {
        assert(c.skip(0) =~= c);
    } else {
        let t = c.skip(1);
        assert forall|j: int| 0 <= j < i - 1 implies !((#[trigger] t[j]).0@ == h && t[j].1@
            == k) by {
            assert(t[j] == c[j + 1]);
        }
        lemma_cache_assoc_skip(t, h, k, i - 1);
        assert(t.skip(i - 1) =~= c.skip(i));
    }
}

/// Appending to the cache never changes an entry that is already found,
/// and resolves exactly the appended block/key pair otherwise.
pub proof fn lemma_cache_assoc_push(
    c: Seq<(Vec<u8>, Vec<u8>, CacheEntry)>,
    t: (Vec<u8>, Vec<u8>, CacheEntry),
    h: Seq<u8>,
    k: Seq<u8>,
)
    ensures
        cache_assoc(c.push(t), h, k) == if cache_assoc(c, h, k) is Some {
            cache_assoc(c, h, k)
        } else if t.0@ == h && t.1@ == k {
            Some(entry_view(t.2))
        } else {
            None
        },
    decreases c.len(),
{
    if c.len() == 0 {
        let e = Seq::<(Vec<u8>, Vec<u8>, CacheEntry)>::empty();
        assert(cache_assoc(e, h, k) is None);
        assert(c.push(t)[0] == t);
        assert(c.push(t).skip(1) =~= e);
    } else {
        assert(c.push(t)[0] == c[0]);
        assert(c.push(t).skip(1) =~= c.skip(1).push(t));
        lemma_cache_assoc_push(c.skip(1), t, h, k);
    }
}

/// Law: a resolved read is stable. Once the backend locally knows fact `x`
/// of key `k` at block `blk` — an override, a cached value, or confirmed
/// absence — caching any further remote result (an append to the
/// read-through cache) leaves that knowledge unchanged, so a second read
/// of the same key at the same block returns the identical value without
/// another remote query.
pub proof fn lemma_cached_read_stable(
    b1: Backend,
    b2: Backend,
    blk: StoredBlock,
    k: Seq<u8>,
    x: Option<Seq<u8>>,
    t: (Vec<u8>, Vec<u8>, CacheEntry),
)
    requires
        b1.local_lookup(blk, k) == Some(x),
        b2.cache@ == b1.cache@.push(t),
    ensures
        b2.local_lookup(blk, k) == Some(x),
{
    lemma_cache_assoc_push(b1.cache@, t, blk.hash@, k);
}

impl Backend {
    /// Finds the index of the first block with hash `h`, if any.
    fn find_block_index(&self, h: &Vec<u8>) -> (r: Option<usize>)
        ensures
            match r {
                Some(i) => i < self.chain@.len() && find_block(self.chain@, h@) == Some(
                    self.chain@[i as int],
                ),
                None => find_block(self.chain@, h@) is None,
            },
    {
        let mut i: usize = 0;
        while i < self.chain.len()
            invariant
                0 <= i <= self.chain@.len(),
                forall|j: int| 0 <= j < i ==> (#[trigger] self.chain@[j]).hash@ != h@,
            decreases self.chain@.len() - i,
        {
            let b = &self.chain[i];
            if bytes_equal(&b.hash, h) {
                proof {
                    lemma_find_block_skip(self.chain@, h@, i as int);
                    assert(self.chain@.skip(i as int)[0] == self.chain@[i as int]);
                }
                return Some(i);
            }
            i = i + 1;
        }
        proof {
            lemma_find_block_skip(self.chain@, h@, self.chain@.len() as int);
            assert(self.chain@.skip(self.chain@.len() as int) =~= Seq::<StoredBlock>::empty());
        }
        None
    }

    /// Resolves an optional block reference to a chain index: the head for
    /// `None`, else the block with the given hash.
    fn resolve_index(&self, at: Option<&Vec<u8>>) -> (r: Option<usize>)
        ensures
            match r {
                Some(i) => i < self.chain@.len() && self.resolve_at(at_view(at)) == Some(
                    self.chain@[i as int],
                ),
                None => self.resolve_at(at_view(at)) is None,
            },
    {
        match at {
            None => {
                let n = self.chain.len();
                if n == 0 {
                    None
                } else {
                    Some(n - 1)
                }
            },
            Some(h) => self.find_block_index(h),
        }
    }

    /// Looks up `key` locally at block reference `at` (the chain head when
    /// none is given): the block's authoritative overrides first, then the
    /// read-through cache. Never consults the remote endpoint: an
    /// unresolved key is reported as such, for the caller to fetch.
    pub fn read_state_local(&self, key: &Vec<u8>, at: Option<&Vec<u8>>) -> (r: LocalRead)
        ensures
            r is UnknownBlock <==> self.resolve_at(at_view(at)) is None,
            self.resolve_at(at_view(at)) matches Some(blk) ==> match self.local_lookup(
                blk,
                key@,
            ) {
                Some(ov) => r matches LocalRead::Hit(o) && opt_bytes_view(o) == ov,
                None => r is Unresolved,
            },
    {
        match self.resolve_index(at) {
            None => LocalRead::UnknownBlock,
            Some(i) => {
                let blk = &self.chain[i];
                match state_assoc_exec(&blk.state, key) {
                    Some(o) => LocalRead::Hit(o),
                    None => {
                        match cache_assoc_exec(&self.cache, &blk.hash, key) {
                            Some(o) => LocalRead::Hit(o),
                            None => LocalRead::Unresolved,
                        }
                    },
                }
            },
        }
    }

    /// Records what a remote storage query for `key` at `at` came back
    /// with, and returns the resulting fact. A confirmed answer — a value
    /// or confirmed absence — is cached unless the key is already resolved,
    /// in which case the earlier fact stands. A transport failure is
    /// reported as `RemoteUnavailable` and caches nothing: absence must be
    /// a confirmed fact, never a network failure.
    #[verifier::rlimit(50)]
    pub fn apply_remote_read(
        &mut self,
        key: &Vec<u8>,
        at: Option<&Vec<u8>>,
        response: RemoteResponse,
    ) -> (r: Result<Option<Vec<u8>>, BackendError>)
        ensures
            final(self).chain == old(self).chain,
            final(self).operation_open == old(self).operation_open,
            old(self).resolve_at(at_view(at)) is None ==> r == Err::<
                Option<Vec<u8>>,
                BackendError,
            >(BackendError::UnknownBlock) && final(self).cache == old(self).cache,
            old(self).resolve_at(at_view(at)) matches Some(blk) ==> match old(self).local_lookup(
                blk,
                key@,
            ) {
                Some(ov) => final(self).cache == old(self).cache && (r matches Ok(o)
                    && opt_bytes_view(o) == ov),
                None => match response {
                    RemoteResponse::TransportFailure => final(self).cache == old(self).cache && r
                        == Err::<Option<Vec<u8>>, BackendError>(BackendError::RemoteUnavailable),
                    RemoteResponse::Value(v) => {
                        &&& r matches Ok(o) && opt_bytes_view(o) == opt_bytes_view(v)
                        &&& final(self).cache@.len() == old(self).cache@.len() + 1
                        &&& final(self).cache@.drop_last() == old(self).cache@
                        &&& final(self).local_lookup(blk, key@) == Some(opt_bytes_view(v))
                    },
                },
            },
    {
        let idx = match self.resolve_index(at) {
            None => {
                return Err(BackendError::UnknownBlock);
            },
            Some(i) => i,
        };
        let ghost blk = self.chain@[idx as int];
        let b = &self.chain[idx];
        let bh = clone_bytes(&b.hash);
        let state_hit = state_assoc_exec(&b.state, key);
        match state_hit {
            Some(o) => {
                return Ok(o);
            },
            None => {},
        }
        let cache_hit = cache_assoc_exec(&self.cache, &bh, key);
        match cache_hit {
            Some(o) => {
                return Ok(o);
            },
            None => {},
        }
        match response {
            RemoteResponse::TransportFailure => Err(BackendError::RemoteUnavailable),
            RemoteResponse::Value(v) => {
                let kk = clone_bytes(key);
                match v {
                    Some(val) => {
                        let stored = clone_bytes(&val);
                        self.cache.push((bh, kk, CacheEntry::Present(stored)));
                        proof {
                            assert(self.cache@.drop_last() =~= old(self).cache@);
                            lemma_cache_assoc_push(
                                old(self).cache@,
                                self.cache@.last(),
                                blk.hash@,
                                key@,
                            );
                        }
                        Ok(Some(val))
                    },
                    None => {
                        self.cache.push((bh, kk, CacheEntry::Absent));
                        proof {
                            assert(self.cache@.drop_last() =~= old(self).cache@);
                            lemma_cache_assoc_push(
                                old(self).cache@,
                                self.cache@.last(),
                                blk.hash@,
                                key@,
                            );
                        }
                        Ok(None)
                    },
                }
            },
        }
    }
}

/// Scans a block's override state for `key`, returning a copy of what it
/// holds.
fn state_assoc_exec(s: &Vec<(Vec<u8>, CacheEntry)>, key: &Vec<u8>) -> (r: Option<Option<Vec<u8>>>)
    ensures
        match r {
            Some(o) => state_assoc(s@, key@) == Some(opt_bytes_view(o)),
            None => state_assoc(s@, key@) is None,
        },
{
    let mut i: usize = 0;
    while i < s.len()
        invariant
            0 <= i <= s@.len(),
            forall|j: int| 0 <= j < i ==> (#[trigger] s@[j]).0@ != key@,
        decreases s@.len() - i,
    {
        let e = &s[i];
        if bytes_equal(&e.0, key) {
            proof {
                lemma_state_assoc_skip(s@, key@, i as int);
                assert(s@.skip(i as int)[0] == s@[i as int]);
            }
            match &e.1 {
                CacheEntry::Present(v) => {
                    return Some(Some(clone_bytes(v)));
                },
                CacheEntry::Absent => {
                    return Some(None);
                },
            }
        }
        i = i + 1;
    }
    proof {
        lemma_state_assoc_skip(s@, key@, s@.len() as int);
        assert(s@.skip(s@.len() as int) =~= Seq::<(Vec<u8>, CacheEntry)>::empty());
    }
    None
}

/// Scans the read-through cache for block `h` and `key`, returning a copy
/// of what it holds.
fn cache_assoc_exec(c: &Vec<(Vec<u8>, Vec<u8>, CacheEntry)>, h: &Vec<u8>, key: &Vec<u8>) -> (r:
    Option<Option<Vec<u8>>>)
    ensures
        match r {
            Some(o) => cache_assoc(c@, h@, key@) == Some(opt_bytes_view(o)),
            None => cache_assoc(c@, h@, key@) is None,
        },
{
    let mut i: usize = 0;
    while i < c.len()
        invariant
            0 <= i <= c@.len(),
            forall|j: int| 0 <= j < i ==> !((#[trigger] c@[j]).0@ == h@ && c@[j].1@ == key@),
        decreases c@.len() - i,
    {
        let e = &c[i];
        if bytes_equal(&e.0, h) && bytes_equal(&e.1, key) {
            proof {
                lemma_cache_assoc_skip(c@, h@, key@, i as int);
                assert(c@.skip(i as int)[0] == c@[i as int]);
            }
            match &e.2 {
                CacheEntry::Present(v) => {
                    return Some(Some(clone_bytes(v)));
                },
                CacheEntry::Absent => {
                    return Some(None);
                },
            }
        }
        i = i + 1;
    }
    proof {
        lemma_cache_assoc_skip(c@, h@, key@, c@.len() as int);
        assert(c@.skip(c@.len() as int) =~= Seq::<(Vec<u8>, Vec<u8>, CacheEntry)>::empty());
    }
    None
}

} // verus!
