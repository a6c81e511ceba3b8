# quanta_l1

The core of a development blockchain node, verified with Verus.

- `src/pq_keys.rs`: Dilithium3 (ML-DSA-65) key pairs, signing, verification
  and account addresses; `src/ml_dsa.rs` holds the trusted contracts of the
  `dilithium-rs` and `getrandom` calls.
- `src/storage.rs`: the node's byte-keyed storage, viewed as a map.
- `src/chain.rs`: how blocks are recorded in storage (block number, parent
  hash, state root, extrinsics root).
- `src/rpc.rs`: the answers of the node's JSON-RPC methods.
- `src/staking.rs`: staking of inference workers, with the state invariant
  that every operation keeps.
- `src/hex_text.rs`, `src/text.rs`: hex (through the `hex` crate) and
  decimal text.
- `app/`: the node program: banner, JSON-RPC server (jsonrpsee, tokio), the
  lock around the shared node, and serde/`Display` for the public key.
