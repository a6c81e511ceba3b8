//! A development blockchain node's core logic: post-quantum signing keys,
//! the node's key-value storage and its RPC answers, and the staking rules
//! for inference workers.
pub mod storage;
pub mod text;
pub mod hex_text;
pub mod chain;
pub mod rpc;
pub mod staking;
pub mod ml_dsa;
pub mod pq_keys;
