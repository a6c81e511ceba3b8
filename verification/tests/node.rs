use quanta_l1::hex_text::{hex_decode, hex_encode};
use quanta_l1::rpc::{runtime_version, Health, NodeInfo, NodeRpcImpl, NodeRpcServer};
use quanta_l1::storage::DevStorage;

#[test]
fn runtime_version_correct() {
    let version = runtime_version();
    assert_eq!(version.spec_version, 1);
    assert_eq!(version.impl_version, 1);
}

#[test]
fn dev_storage_builds() {
    let storage = DevStorage::new();
    assert!(storage.top_count() > 0);
}

#[test]
fn node_info_correct() {
    let info = NodeInfo::new();
    assert_eq!(info.spec_name, "quanta-l1");
    assert_eq!(info.impl_name, "quanta-l1");
    assert_eq!(info.spec_version, 1);
    assert_eq!(info.chain_type, "Development");
}

#[test]
fn health_ok() {
    let h = Health {
        is_syncing: false,
        peers: 0,
        should_have_peers: false,
    };
    assert!(!h.is_syncing);
    assert_eq!(h.peers, 0);
}

#[test]
fn rpc_server_creates() {
    let server = NodeRpcServer::new();
    assert_eq!(server.block_number(), 0);
    assert_eq!(server.chain(), "quanta-l1");
}

#[test]
fn rpc_impl_system_name() {
    let rpc = NodeRpcImpl::new(DevStorage::new());
    assert_eq!(rpc.system_name(), "quanta-l1");
}

#[test]
fn rpc_impl_system_version() {
    let rpc = NodeRpcImpl::new(DevStorage::new());
    assert_eq!(rpc.system_version(), "0.1.0");
}

#[test]
fn rpc_impl_system_health() {
    let rpc = NodeRpcImpl::new(DevStorage::new());
    let h = rpc.system_health();
    assert!(!h.is_syncing);
    assert_eq!(h.peers, 0);
    assert!(!h.should_have_peers);
}

#[test]
fn rpc_impl_block_number_starts_at_zero() {
    let rpc = NodeRpcImpl::new(DevStorage::new());
    assert_eq!(rpc.chain_get_block_number(), 0);
}

#[test]
fn rpc_impl_engine_create_block() {
    let mut rpc = NodeRpcImpl::new(DevStorage::new());
    assert!(rpc.engine_create_block());
    assert_eq!(rpc.chain_get_block_number(), 1);
    assert!(rpc.engine_create_block());
    assert_eq!(rpc.chain_get_block_number(), 2);
}

#[test]
fn rpc_impl_get_header() {
    let mut rpc = NodeRpcImpl::new(DevStorage::new());
    rpc.engine_create_block();
    let header = rpc.chain_get_header(None);
    assert_eq!(header.number, 1);
    assert!(!header.parent_hash.is_empty());
}

#[test]
fn rpc_impl_state_get_storage() {
    let mut storage_inner = DevStorage::new();
    storage_inner.insert(b"TestKey".to_vec(), b"TestValue".to_vec());
    let rpc = NodeRpcImpl::new(storage_inner);
    let result = rpc.state_get_storage("0x546573744b6579".to_string(), None);
    assert!(result.is_some());
    let val = hex_decode(result.as_ref().unwrap());
    assert_eq!(val, b"TestValue");
}

#[test]
fn header_of_new_blocks_records_hashes() {
    let mut rpc = NodeRpcImpl::new(DevStorage::new());
    rpc.engine_create_block();
    rpc.engine_create_block();
    let header = rpc.chain_get_header(Some("ignored".to_string()));
    assert_eq!(header.number, 2);
    assert_eq!(header.parent_hash, format!("{:064x}", 1u32));
    assert_eq!(header.state_root, format!("{:064x}", 2u32));
    assert_eq!(header.extrinsics_root, "0".repeat(64));
    assert!(header.digest.is_empty());
}

#[test]
fn header_hash_is_big_endian_number() {
    let mut rpc = NodeRpcImpl::new(DevStorage::new());
    for _ in 0..300 {
        rpc.engine_create_block();
    }
    let header = rpc.chain_get_header(None);
    assert_eq!(header.number, 300);
    assert_eq!(header.parent_hash, format!("{}012b", "0".repeat(60)));
    assert_eq!(header.state_root, format!("{}012c", "0".repeat(60)));
}

#[test]
fn genesis_header_has_placeholder_hashes() {
    let rpc = NodeRpcImpl::new(DevStorage::new());
    let header = rpc.chain_get_header(None);
    assert_eq!(header.number, 0);
    assert_eq!(header.parent_hash, "0x".repeat(64));
    assert_eq!(header.state_root, "0x".repeat(64));
    assert_eq!(header.extrinsics_root, "0x".repeat(64));
}

#[test]
fn created_blocks_are_stored_under_numbered_keys() {
    let mut rpc = NodeRpcImpl::new(DevStorage::new());
    rpc.engine_create_block();
    assert_eq!(rpc.storage.get(b"SystemNumber").unwrap(), &vec![1u8, 0, 0, 0]);
    let mut parent = vec![0u8; 32];
    assert_eq!(rpc.storage.get(b"HeaderParent1").unwrap(), &parent);
    parent[31] = 1;
    assert_eq!(rpc.storage.get(b"HeaderState1").unwrap(), &parent);
    assert_eq!(rpc.storage.get(b"HeaderExt1").unwrap(), &vec![0u8; 32]);
    assert_eq!(rpc.storage.top_count(), 4);
}

#[test]
fn block_number_reads_little_endian_and_ignores_other_lengths() {
    let mut storage = DevStorage::new();
    storage.insert(b"SystemNumber".to_vec(), vec![0x01, 0x02, 0x00, 0x00]);
    let rpc = NodeRpcImpl::new(storage);
    assert_eq!(rpc.chain_get_block_number(), 0x0201);
    let mut storage = DevStorage::new();
    storage.insert(b"SystemNumber".to_vec(), vec![0x01, 0x02, 0x03]);
    let rpc = NodeRpcImpl::new(storage);
    assert_eq!(rpc.chain_get_block_number(), 0);
}

#[test]
fn state_get_storage_misses_and_bad_hex() {
    let mut storage = DevStorage::new();
    storage.insert(Vec::new(), b"empty-key".to_vec());
    let rpc = NodeRpcImpl::new(storage);
    assert_eq!(rpc.state_get_storage("0x00".to_string(), None), None);
    // Text that is not hex reads the empty key.
    assert_eq!(
        rpc.state_get_storage("0xzz".to_string(), None),
        Some("656d7074792d6b6579".to_string())
    );
    // The key written by hex_encode is read back.
    let key_text = hex_encode(b"SystemNumber");
    assert_eq!(rpc.state_get_storage(key_text, None), Some("00000000".to_string()));
}

#[test]
fn storage_insert_replaces_and_counts_keys() {
    let mut storage = DevStorage::new();
    assert_eq!(storage.top_count(), 1);
    storage.insert(b"a".to_vec(), b"1".to_vec());
    storage.insert(b"b".to_vec(), b"2".to_vec());
    storage.insert(b"a".to_vec(), b"3".to_vec());
    assert_eq!(storage.top_count(), 3);
    assert_eq!(storage.get(b"a").unwrap(), &b"3".to_vec());
    assert_eq!(storage.get(b"b").unwrap(), &b"2".to_vec());
    assert!(storage.get(b"c").is_none());
}

#[test]
fn hex_decode_accepts_prefix_and_both_cases() {
    assert_eq!(hex_decode("0x4142"), vec![0x41, 0x42]);
    assert_eq!(hex_decode("4142"), vec![0x41, 0x42]);
    assert_eq!(hex_decode("DeadBEEF"), vec![0xde, 0xad, 0xbe, 0xef]);
    assert_eq!(hex_decode(""), Vec::<u8>::new());
    assert_eq!(hex_decode("0x"), Vec::<u8>::new());
}

#[test]
fn hex_decode_rejects_bad_text() {
    assert!(hex_decode("0x123").is_empty());
    assert!(hex_decode("zz").is_empty());
    assert!(hex_decode("0X41").is_empty());
    assert!(hex_decode("é1").is_empty());
}

#[test]
fn hex_encode_is_prefixed_lower_case() {
    assert_eq!(hex_encode(&[0xde, 0xad, 0x01]), "0xdead01");
    assert_eq!(hex_encode(&[]), "0x");
    let bytes = [0u8, 1, 127, 128, 255];
    assert_eq!(hex_decode(&hex_encode(&bytes)), bytes.to_vec());
}
