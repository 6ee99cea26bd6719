//! Collection and block-manager behaviour over file images: inserts, reads
//! across flush and reopen, tombstone deletes, scans, and torn slots.

use nebuladb::block::DocumentEntry;
use nebuladb::bytesutil::u64_to_decimal;
use nebuladb::collection::Collection;
use nebuladb::config::{Config, CompressionType, StorageConfig};
use nebuladb::errors::Error;

fn small_config() -> StorageConfig {
    StorageConfig {
        base: Config::default(),
        block_size: 256,
        compression: CompressionType::NoCompression,
        flush_threshold: 10_000,
    }
}

#[test]
fn single_insert_and_get() {
    let config = small_config();
    let mut c = Collection::open("users", config, Vec::new());
    c.insert(b"u1", b"{\"n\":\"a\"}").unwrap();
    c.close().unwrap();
    // One flushed block occupies exactly one slot stride.
    let file = c.block_manager.file_bytes().clone();
    assert_eq!(file.len(), 256);
    // Reopen over the persisted image, as after a process restart.
    let reopened = Collection::open("users", small_config(), file);
    let got = reopened.get(b"u1").unwrap();
    assert_eq!(got, b"{\"n\":\"a\"}".to_vec());
}

#[test]
fn get_missing_is_absent() {
    let config = small_config();
    let mut c = Collection::open("users", config, Vec::new());
    c.insert(b"u1", b"v").unwrap();
    assert!(c.get(b"u2").is_none());
}

#[test]
fn delete_visibility() {
    let config = small_config();
    let mut c = Collection::open("users", config, Vec::new());
    c.insert(b"k", b"v").unwrap();
    assert_eq!(c.delete(b"k").unwrap(), true);
    assert!(c.get(b"k").is_none());
    assert!(c.scan().is_empty());
    // The original entry and the tombstone both remain in the block.
    let block = c.block_manager.active_block.as_ref().unwrap();
    assert_eq!(block.header.doc_count, 2);
}

#[test]
fn delete_is_idempotent() {
    let config = small_config();
    let mut c = Collection::open("users", config, Vec::new());
    c.insert(b"k", b"v").unwrap();
    assert_eq!(c.delete(b"k").unwrap(), true);
    assert_eq!(c.delete(b"k").unwrap(), false);
    assert!(c.get(b"k").is_none());
}

#[test]
fn delete_missing_reports_false() {
    let config = small_config();
    let mut c = Collection::open("users", config, Vec::new());
    assert_eq!(c.delete(b"nope").unwrap(), false);
}

#[test]
fn update_newest_wins_across_flushes() {
    let config = small_config();
    let mut c = Collection::open("users", config, Vec::new());
    c.insert(b"x", b"1").unwrap();
    c.close().unwrap();
    c.insert(b"x", b"2").unwrap();
    c.close().unwrap();
    // Two slots, one entry each.
    let file = c.block_manager.file_bytes().clone();
    assert_eq!(file.len(), 2 * 256);
    assert_eq!(c.get(b"x").unwrap(), b"2".to_vec());
    // The same read works over the reopened image.
    let reopened = Collection::open("users", small_config(), file);
    assert_eq!(reopened.get(b"x").unwrap(), b"2".to_vec());
}

#[test]
fn newest_wins_within_one_block() {
    let config = small_config();
    let mut c = Collection::open("users", config, Vec::new());
    c.insert(b"x", b"v1").unwrap();
    c.insert(b"x", b"v2").unwrap();
    c.close().unwrap();
    assert_eq!(c.get(b"x").unwrap(), b"v2".to_vec());
}

#[test]
fn empty_id_is_rejected() {
    let config = small_config();
    let mut c = Collection::open("users", config, Vec::new());
    let err = c.insert(b"", b"value").unwrap_err();
    assert!(matches!(err, Error::ArgumentOutOfRange));
}

#[test]
fn oversized_entry_is_rejected() {
    let config = small_config();
    let mut c = Collection::open("users", config, Vec::new());
    // 48 + id + value exceeds the 256-byte slot stride.
    let err = c.insert(b"big", &[0u8; 300]).unwrap_err();
    assert!(matches!(err, Error::ArgumentOutOfRange));
}

#[test]
fn longest_id_is_accepted() {
    let config = StorageConfig {
        base: Config::default(),
        block_size: 256 * 1024,
        compression: CompressionType::NoCompression,
        flush_threshold: 1024 * 1024,
    };
    let mut c = Collection::open("users", config, Vec::new());
    let id = vec![0x61u8; 65535];
    c.insert(&id, b"payload").unwrap();
    assert_eq!(c.get(&id).unwrap(), b"payload".to_vec());
}

#[test]
fn zeroed_final_slot_is_ignored() {
    let config = small_config();
    let mut c = Collection::open("users", config, Vec::new());
    c.insert(b"a", b"1").unwrap();
    c.close().unwrap();
    let mut file = c.block_manager.file_bytes().clone();
    // A crash left a whole slot of zeros after the real one.
    file.extend(std::iter::repeat(0u8).take(256));
    let reopened = Collection::open("users", small_config(), file);
    assert_eq!(reopened.get(b"a").unwrap(), b"1".to_vec());
    let ids = reopened.scan();
    assert_eq!(ids, vec![b"a".to_vec()]);
}

#[test]
fn trailing_partial_slot_is_tolerated() {
    let config = small_config();
    let mut c = Collection::open("users", config, Vec::new());
    c.insert(b"a", b"1").unwrap();
    c.close().unwrap();
    let mut file = c.block_manager.file_bytes().clone();
    file.extend_from_slice(&[0u8; 17]);
    let reopened = Collection::open("users", small_config(), file);
    assert_eq!(reopened.get(b"a").unwrap(), b"1".to_vec());
}

#[test]
fn flush_threshold_triggers_persist() {
    let config = StorageConfig {
        base: Config::default(),
        block_size: 4096,
        compression: CompressionType::NoCompression,
        flush_threshold: 64,
    };
    let mut c = Collection::open("users", config, Vec::new());
    // The serialized block passes 64 bytes with this entry, so the insert
    // flushes on its own.
    c.insert(b"k1", &[7u8; 40]).unwrap();
    assert_eq!(c.block_manager.file_bytes().len(), 4096);
    assert_eq!(c.get(b"k1").unwrap(), vec![7u8; 40]);
}

#[test]
fn scan_lists_slot_order_then_active() {
    let config = small_config();
    let mut c = Collection::open("users", config, Vec::new());
    c.insert(b"a", b"1").unwrap();
    c.close().unwrap();
    c.insert(b"b", b"2").unwrap();
    c.close().unwrap();
    c.insert(b"c", b"3").unwrap();
    let ids = c.scan();
    assert_eq!(ids, vec![b"c".to_vec(), b"a".to_vec(), b"b".to_vec()]);
}

#[test]
fn tombstone_marker_names_the_document() {
    let config = small_config();
    let mut c = Collection::open("users", config, Vec::new());
    c.insert(b"k", b"v").unwrap();
    assert!(c.delete(b"k").unwrap());
    let block = c.block_manager.active_block.as_ref().unwrap();
    let first = DocumentEntry::from_bytes(&block.data, 0).unwrap();
    let off = 2 + first.id.len() + 4 + first.data.len();
    let tomb = DocumentEntry::from_bytes(&block.data[off..], off).unwrap();
    assert_eq!(tomb.id, b"_k_".to_vec());
    let text = String::from_utf8(tomb.data.clone()).unwrap();
    assert!(text.starts_with("{\"_deleted\": true, \"_id\": \"k\", \"_deleted_at\": "));
    assert!(text.ends_with("}"));
}

#[test]
fn decimal_rendering_is_exact() {
    assert_eq!(u64_to_decimal(0), b"0".to_vec());
    assert_eq!(u64_to_decimal(7), b"7".to_vec());
    assert_eq!(u64_to_decimal(42), b"42".to_vec());
    assert_eq!(u64_to_decimal(1000), b"1000".to_vec());
    assert_eq!(u64_to_decimal(u64::MAX), b"18446744073709551615".to_vec());
}
