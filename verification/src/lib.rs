//! A lazy forking chain backend: a local, transactional block store that
//! resolves state it does not yet hold from a remote chain endpoint,
//! together with the storage-key deriver and the bootstrap procedures
//! that materialize a genesis block and produce the first local block.

pub mod backend;
pub mod bootstrap;
pub mod codec;
pub mod hashing;
pub mod header;
pub mod ops;
pub mod order;
pub mod overrides;
pub mod root;
pub mod util;
