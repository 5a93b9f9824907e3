//! A single node ("block") in a loosely connected peer network keeps a local
//! aggregate digest in sync with digests reported by its peers.  The crate
//! provides deterministic content hashing of the node's own payload, the
//! aggregation of that hash with the stored peer hashes into one root digest,
//! a plurality-vote reconciliation step for nodes that reconnect with stale
//! state, and a selective patch mechanism for applying individual hash
//! changes.

pub mod block;
pub mod hashing;
pub mod patch;
pub mod strings;
pub mod vote;

pub use block::Block;
pub use block::BlockView;
pub use hashing::concat_all;
pub use hashing::sha512_hex;
pub use hashing::spec_root_hash;
pub use hashing::spec_self_hash;
pub use strings::decimal_digits;
pub use strings::str_lt;
pub use strings::u32_decimal;
