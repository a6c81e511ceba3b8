//! The answers of the node's JSON-RPC methods, computed on its storage.
use vstd::prelude::*;
use vstd::string::*;
use crate::chain::{
    be_bytes, padded_hex,
    after_new_block, block_number_of, ext_key, ext_key_of, lemma_keys_distinct, lemma_le_roundtrip,
    le_bytes_of, number_hash, number_hash_of, parent_key, parent_key_of, state_key, state_key_of,
    stored_block_number, stored_root, stored_root_text,
};
use crate::hex_text::{hex_crate_encode, hex_decode, hex_decode_spec, lower_hex};
use crate::storage::{system_number_key, system_number_key_bytes, DevStorage};

verus! {

/// The node's health as `system_health` reports it.
#[derive(Debug, Clone, Copy, PartialEq, Eq)]
pub struct Health {
    pub is_syncing: bool,
    pub peers: u32,
    pub should_have_peers: bool,
}

/// A block header as `chain_getHeader` reports it: the hashes in hex.
#[derive(Debug, Clone)]
pub struct BlockHeader {
    pub number: u32,
    pub parent_hash: String,
    pub state_root: String,
    pub extrinsics_root: String,
    pub digest: Vec<String>,
}

/// The version of the runtime that the node runs.
#[derive(Debug, Clone)]
pub struct RuntimeVersion {
    pub spec_name: String,
    pub impl_name: String,
    pub spec_version: u32,
    pub impl_version: u32,
}

/// The runtime's version: `quanta-l1`, spec and impl version 1.
pub fn runtime_version() -> (version: RuntimeVersion)
    ensures
        version.spec_name@ == "quanta-l1"@,
        version.impl_name@ == "quanta-l1"@,
        version.spec_version == 1,
        version.impl_version == 1,
{
    RuntimeVersion {
        spec_name: String::from_str("quanta-l1"),
        impl_name: String::from_str("quanta-l1"),
        spec_version: 1,
        impl_version: 1,
    }
}

/// A health report of a node that neither syncs nor has or wants peers.
pub fn idle_health() -> (health: Health)
    ensures
        health == (Health { is_syncing: false, peers: 0, should_have_peers: false }),
{
    Health { is_syncing: false, peers: 0, should_have_peers: false }
}

/// The storage key that a hex key string stands for (after an optional `0x`;
/// empty where the text is not hex).
pub open spec fn storage_key_of_text(key: Seq<char>) -> Seq<u8> {
    hex_decode_spec(vstd::utf8::encode_utf8(key))
}

/// The RPC service of the node over its storage.
pub struct NodeRpcImpl {
    pub storage: DevStorage,
}

impl NodeRpcImpl {
    /// A service over `storage`.
    pub fn new(storage: DevStorage) -> (rpc: Self)
        ensures
            rpc.storage@ == storage@,
    {
        NodeRpcImpl { storage }
    }

    /// `system_name`: the chain's name, `quanta-l1`.
    pub fn system_name(&self) -> (name: String)
        ensures
            name@ == "quanta-l1"@,
    {
        String::from_str("quanta-l1")
    }

    /// `system_version`: `0.1.0`.
    pub fn system_version(&self) -> (version: String)
        ensures
            version@ == "0.1.0"@,
    {
        String::from_str("0.1.0")
    }

    /// `system_health`: not syncing, no peers, none expected.
    pub fn system_health(&self) -> (health: Health)
        ensures
            health == (Health { is_syncing: false, peers: 0, should_have_peers: false }),
    {
        idle_health()
    }

    /// `chain_getBlockNumber`: the number of the latest block.
    pub fn chain_get_block_number(&self) -> (n: u32)
        ensures
            n == stored_block_number(self.storage@),
    {
        let key = system_number_key_bytes();
        block_number_of(self.storage.get(key.as_slice()))
    }

    /// `chain_getHeader`: the header of the latest block; `hash` is not read.
    pub fn chain_get_header(&self, hash: Option<String>) -> (header: BlockHeader)
        ensures
            header.number == stored_block_number(self.storage@),
            header.parent_hash@ == stored_root(
                self.storage@,
                parent_key(stored_block_number(self.storage@) as nat),
            ),
            header.state_root@ == stored_root(
                self.storage@,
                state_key(stored_block_number(self.storage@) as nat),
            ),
            header.extrinsics_root@ == stored_root(
                self.storage@,
                ext_key(stored_block_number(self.storage@) as nat),
            ),
            header.digest@.len() == 0,
    {
        let block_number = self.chain_get_block_number();
        let parent_key = parent_key_of(block_number);
        let parent_hash = stored_root_text(&self.storage, parent_key.as_slice());
        let state_key = state_key_of(block_number);
        let state_root = stored_root_text(&self.storage, state_key.as_slice());
        let ext_key = ext_key_of(block_number);
        let extrinsics_root = stored_root_text(&self.storage, ext_key.as_slice());
        BlockHeader {
            number: block_number,
            parent_hash,
            state_root,
            extrinsics_root,
            digest: Vec::new(),
        }
    }

    /// `state_getStorage`: the lower-case hex of the value under the key
    /// that the hex string `key` denotes; `hash` is not read.
    pub fn state_get_storage(&self, key: String, hash: Option<String>) -> (value: Option<String>)
        ensures
            match value {
                Some(v) => self.storage@.contains_key(storage_key_of_text(key@)) && v@ == lower_hex(
                    self.storage@[storage_key_of_text(key@)],
                ),
                None => !self.storage@.contains_key(storage_key_of_text(key@)),
            },
    {
        let key_bytes = hex_decode(key.as_str());
        match self.storage.get(key_bytes.as_slice()) {
            Some(v) => Some(hex_crate_encode(v.as_slice())),
            None => None,
        }
    }

    /// `engine_createBlock`: records the next block (see `after_new_block`)
    /// and answers `true`.
    pub fn engine_create_block(&mut self) -> (created: bool)
        requires
            stored_block_number(old(self).storage@) < u32::MAX,
        ensures
            created,
            final(self).storage@ == after_new_block(old(self).storage@),
            forall|k: Seq<u8>|
                !is_new_block_key(k, (stored_block_number(old(self).storage@) + 1) as nat) ==> {
                    &&& #[trigger] final(self).storage@.contains_key(k) == old(self).storage@.contains_key(k)
                    &&& old(self).storage@.contains_key(k) ==> final(self).storage@[k] == old(self).storage@[k]
                },
    {
        let num_key = system_number_key_bytes();
        let current = block_number_of(self.storage.get(num_key.as_slice()));
        let new_number: u32 = current + 1;
        self.storage.insert(num_key, le_bytes_of(new_number));
        self.storage.insert(parent_key_of(new_number), number_hash_of(current));
        self.storage.insert(state_key_of(new_number), number_hash_of(new_number));
        self.storage.insert(ext_key_of(new_number), number_hash_of(0));
        proof {
            lemma_new_block_keeps_other_entries(old(self).storage@);
        }
        true
    }
}

/// The keys that making block `n` writes: the block number and the three
/// header keys of block `n`.
pub open spec fn is_new_block_key(k: Seq<u8>, n: nat) -> bool {
    k == system_number_key() || k == parent_key(n) || k == state_key(n) || k == ext_key(n)
}

/// Making a block writes only its four keys: every other entry of the
/// storage stays as it was, present with the same value or absent.
pub proof fn lemma_new_block_keeps_other_entries(m: Map<Seq<u8>, Seq<u8>>)
    ensures
        forall|k: Seq<u8>|
            !is_new_block_key(k, (stored_block_number(m) + 1) as u32 as nat) ==> {
                &&& #[trigger] after_new_block(m).contains_key(k) == m.contains_key(k)
                &&& m.contains_key(k) ==> after_new_block(m)[k] == m[k]
            },
        forall|k: Seq<u8>|
            is_new_block_key(k, (stored_block_number(m) + 1) as u32 as nat) ==> #[trigger] after_new_block(m).contains_key(k),
{
}

/// The key that `state_getStorage` reads for a hex key text: the lower-case
/// hex of any key bytes, with or without `0x`, denotes those bytes.
pub proof fn lemma_storage_key_of_hex(key: Seq<u8>)
    ensures
        storage_key_of_text(lower_hex(key)) == key,
        storage_key_of_text(seq!['0', 'x'] + lower_hex(key)) == key,
{
    crate::hex_text::lemma_hex_roundtrip(key);
}

/// Making a block advances the block number by exactly one.
pub proof fn lemma_new_block_number(m: Map<Seq<u8>, Seq<u8>>)
    requires
        stored_block_number(m) < u32::MAX,
    ensures
        stored_block_number(after_new_block(m)) == stored_block_number(m) + 1,
{
    let next = (stored_block_number(m) + 1) as u32;
    lemma_le_roundtrip(next);
    lemma_keys_distinct(next as nat, next as nat);
    assert(after_new_block(m)[system_number_key()] == crate::chain::le_bytes(next));
}

/// The header of a newly made block: its number is one more than before,
/// its parent hash is the hash of the previous number, its state root the
/// hash of its own number and its extrinsics root the hash of zero.
pub proof fn lemma_new_block_header(m: Map<Seq<u8>, Seq<u8>>)
    requires
        stored_block_number(m) < u32::MAX,
    ensures
        ({
            let n = stored_block_number(after_new_block(m));
            &&& n == stored_block_number(m) + 1
            &&& stored_root(after_new_block(m), parent_key(n as nat)) == lower_hex(
                number_hash(stored_block_number(m)),
            )
            &&& stored_root(after_new_block(m), state_key(n as nat)) == lower_hex(number_hash(n))
            &&& stored_root(after_new_block(m), ext_key(n as nat)) == lower_hex(number_hash(0))
        }),
{
    lemma_new_block_number(m);
    let n = (stored_block_number(m) + 1) as u32;
    lemma_keys_distinct(n as nat, n as nat);
}

/// The storage after `k` blocks were made on the genesis storage.
pub open spec fn storage_after_blocks(k: nat) -> Map<Seq<u8>, Seq<u8>>
    decreases k,
{
    if k == 0 {
        crate::storage::genesis_storage()
    } else {
        after_new_block(storage_after_blocks((k - 1) as nat))
    }
}

/// `n` as 64 lower-case hex digits, zero-padded: the text `{:064x}` gives.
pub open spec fn hex64_text(n: u32) -> Seq<char> {
    padded_hex(n).map_values(|b: u8| b as char)
}

/// The hex text of the hash of `n` is `n` in 64 zero-padded hex digits.
pub proof fn lemma_number_hash_text(n: u32)
    ensures
        lower_hex(number_hash(n)) == hex64_text(n),
        lower_hex(number_hash(0)) == Seq::new(64, |i: int| '0'),
{
    assert forall|i: int| 0 <= i < 64 implies #[trigger] lower_hex(number_hash(n))[i]
        == hex64_text(n)[i] by {
        if i >= 56 {
            assert(number_hash(n)[i / 2] == be_bytes(n)[(i - 56) / 2]);
        }
    }
    assert(lower_hex(number_hash(n)) =~= hex64_text(n));
    assert forall|i: int| 0 <= i < 64 implies #[trigger] lower_hex(number_hash(0))[i] == '0' by {
        let z: u32 = 0;
        assert(((z >> 24) & 0xff) as u8 == 0 && ((z >> 16) & 0xff) as u8 == 0 && ((z >> 8)
            & 0xff) as u8 == 0 && (z & 0xff) as u8 == 0) by (bit_vector)
            requires
                z == 0,
        ;
        assert(number_hash(0)[i / 2] == 0);
    }
    assert(lower_hex(number_hash(0)) =~= Seq::new(64, |i: int| '0'));
}

/// After `k` blocks from genesis the chain is at block `k`, and the header of
/// block `k >= 1` has as parent hash `k - 1` in 64 hex digits, as state root
/// `k` in 64 hex digits, and as extrinsics root 64 zeros.
pub proof fn lemma_blocks_from_genesis(k: nat)
    requires
        k < u32::MAX,
    ensures
        stored_block_number(storage_after_blocks(k)) == k,
        k >= 1 ==> {
            let m = storage_after_blocks(k);
            &&& stored_root(m, parent_key(k)) == hex64_text((k - 1) as u32)
            &&& stored_root(m, state_key(k)) == hex64_text(k as u32)
            &&& stored_root(m, ext_key(k)) == Seq::new(64, |i: int| '0')
        },
    decreases k,
{
    if k == 0 {
        lemma_genesis_block_number();
    } else {
        lemma_blocks_from_genesis((k - 1) as nat);
        lemma_new_block_header(storage_after_blocks((k - 1) as nat));
        lemma_number_hash_text((k - 1) as u32);
        lemma_number_hash_text(k as u32);
    }
}

/// A value written under a key is what `state_getStorage` gives back when
/// asked with the `0x`-prefixed hex of that key (the text `hex_encode`
/// makes), or with any other text that decodes to the key.
pub proof fn lemma_read_after_write(
    m: Map<Seq<u8>, Seq<u8>>,
    key: Seq<u8>,
    value: Seq<u8>,
    text: Seq<char>,
)
    requires
        text == seq!['0', 'x'] + lower_hex(key) || storage_key_of_text(text) == key,
    ensures
        storage_key_of_text(text) == key,
        m.insert(key, value).contains_key(storage_key_of_text(text)),
        lower_hex(m.insert(key, value)[storage_key_of_text(text)]) == lower_hex(value),
{
    crate::hex_text::lemma_hex_roundtrip(key);
}

/// The genesis chain is at block 0.
pub proof fn lemma_genesis_block_number()
    ensures
        stored_block_number(crate::storage::genesis_storage()) == 0,
{
    let m = crate::storage::genesis_storage();
    assert(m.contains_key(system_number_key()));
    assert(m[system_number_key()] == seq![0u8, 0, 0, 0]);
    let z: u8 = 0;
    assert(((z as u32) | ((z as u32) << 8u32) | ((z as u32) << 16u32) | ((z as u32) << 24u32))
        == 0) by (bit_vector)
        requires
            z == 0,
    ;
    assert(m[system_number_key()][0] == z);
}

/// The node's informational record.
#[derive(Debug, Clone)]
pub struct NodeInfo {
    pub spec_name: String,
    pub impl_name: String,
    pub spec_version: u32,
    pub impl_version: u32,
    pub chain_type: String,
}

impl NodeInfo {
    /// The runtime's names and versions, on a `Development` chain.
    pub fn new() -> (info: Self)
        ensures
            info.spec_name@ == "quanta-l1"@,
            info.impl_name@ == "quanta-l1"@,
            info.spec_version == 1,
            info.impl_version == 1,
            info.chain_type@ == "Development"@,
    {
        let version = runtime_version();
        NodeInfo {
            spec_name: version.spec_name,
            impl_name: version.impl_name,
            spec_version: version.spec_version,
            impl_version: version.impl_version,
            chain_type: String::from_str("Development"),
        }
    }
}

/// A stand-alone RPC server without storage.
pub struct NodeRpcServer;

impl NodeRpcServer {
    /// The server.
    pub fn new() -> (server: Self) {
        NodeRpcServer
    }

    /// The node's informational record.
    pub fn system_info(&self) -> (info: NodeInfo)
        ensures
            info.spec_name@ == "quanta-l1"@,
            info.impl_name@ == "quanta-l1"@,
            info.spec_version == 1,
            info.impl_version == 1,
            info.chain_type@ == "Development"@,
    {
        NodeInfo::new()
    }

    /// Not syncing, no peers, none expected.
    pub fn system_health(&self) -> (health: Health)
        ensures
            health == (Health { is_syncing: false, peers: 0, should_have_peers: false }),
    {
        idle_health()
    }

    /// Always block 0.
    pub fn block_number(&self) -> (n: u32)
        ensures
            n == 0,
    {
        0
    }

    /// The chain's name: the runtime's spec name.
    pub fn chain(&self) -> (name: String)
        ensures
            name@ == "quanta-l1"@,
    {
        runtime_version().spec_name
    }
}

} // verus!
