//! Store facade behaviour: routing document operations through the WAL
//! and the collections.

use nebuladb::config::{Config, CompressionType, StorageConfig, WalConfig};
use nebuladb::store::Storage;

fn test_configs() -> (StorageConfig, WalConfig) {
    let storage = StorageConfig {
        base: Config::default(),
        block_size: 256,
        compression: CompressionType::NoCompression,
        flush_threshold: 10_000,
    };
    let wal = WalConfig {
        dir_path: "wal".to_string(),
        max_file_size: 64 * 1024 * 1024,
        sync_on_write: true,
        checkpoint_interval: 0,
    };
    (storage, wal)
}

#[test]
fn store_routes_documents() {
    let (storage_config, wal_config) = test_configs();
    let mut store = Storage::open("/tmp/nebuladb-test", Some(storage_config), wal_config);
    store.open_collection("users", Vec::new()).unwrap();
    assert!(store.insert_document("missing", b"k", b"v").is_err());
    store.insert_document("users", b"k", b"v").unwrap();
    assert_eq!(store.get_document("users", b"k").unwrap(), Some(b"v".to_vec()));
    // The write-ahead entry was appended before the block store changed.
    assert_eq!(store.wal.collection_wals.len(), 1);
    assert_eq!(store.wal.collection_wals[0].0, "users");
    assert_eq!(store.delete_document("users", b"k").unwrap(), true);
    assert_eq!(store.get_document("users", b"k").unwrap(), None);
    assert!(store.scan_documents("users").unwrap().is_empty());
}

#[test]
fn store_open_collection_is_idempotent() {
    let (storage_config, wal_config) = test_configs();
    let mut store = Storage::open("/tmp/nebuladb-test", Some(storage_config), wal_config);
    store.open_collection("users", Vec::new()).unwrap();
    store.insert_document("users", b"k", b"v").unwrap();
    store.open_collection("users", Vec::new()).unwrap();
    assert_eq!(store.get_document("users", b"k").unwrap(), Some(b"v".to_vec()));
}

#[test]
fn store_transactions_route_to_wal() {
    let (storage_config, wal_config) = test_configs();
    let mut store = Storage::open("/tmp/nebuladb-test", Some(storage_config), wal_config);
    store.open_collection("users", Vec::new()).unwrap();
    store.insert_document("users", b"seed", b"1").unwrap();
    let t1 = store.begin_transaction().unwrap();
    store.commit_transaction(t1).unwrap();
    let t2 = store.begin_transaction().unwrap();
    assert!(t2 > t1);
    store.abort_transaction(t2).unwrap();
    assert!(store.commit_transaction(t2).is_err());
}

#[test]
fn store_checkpoint_and_close() {
    let (storage_config, wal_config) = test_configs();
    let mut store = Storage::open("/tmp/nebuladb-test", Some(storage_config), wal_config);
    store.open_collection("users", Vec::new()).unwrap();
    store.insert_document("users", b"k", b"v").unwrap();
    store.checkpoint().unwrap();
    // The flush persisted the block into its slot.
    assert_eq!(store.collections[0].1.block_manager.file_bytes().len(), 256);
    store.close().unwrap();
    assert!(store.collections.is_empty());
}

#[test]
fn store_close_collection_flushes() {
    let (storage_config, wal_config) = test_configs();
    let mut store = Storage::open("/tmp/nebuladb-test", Some(storage_config), wal_config);
    store.open_collection("users", Vec::new()).unwrap();
    store.insert_document("users", b"k", b"v").unwrap();
    store.close_collection("users").unwrap();
    assert!(store.get_document("users", b"k").is_err());
    store.drop_collection("users").unwrap();
}
