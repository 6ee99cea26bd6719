//! Write-ahead log behaviour: entry framing, log iteration, torn tails,
//! transactions, and recovery.

use nebuladb::config::WalConfig;
use nebuladb::errors::Error;
use nebuladb::wal_entry::{EntryType, WalEntry};
use nebuladb::wal_log::WalLog;
use nebuladb::wal_manager::{collection_id_from_name, WalManager};

fn quiet_wal_config() -> WalConfig {
    WalConfig {
        dir_path: "wal".to_string(),
        max_file_size: 64 * 1024 * 1024,
        sync_on_write: true,
        checkpoint_interval: 0,
    }
}

#[test]
fn entry_type_codes() {
    let types = [
        EntryType::Noop,
        EntryType::Insert,
        EntryType::Update,
        EntryType::Delete,
        EntryType::BeginTx,
        EntryType::CommitTx,
        EntryType::AbortTx,
        EntryType::Checkpoint,
    ];
    for (code, t) in types.iter().enumerate() {
        assert_eq!(t.to_byte(), code as u8);
        assert!(EntryType::from_byte(code as u8).unwrap() == *t);
    }
    assert!(EntryType::from_byte(8).is_err());
}

#[test]
fn wal_entry_round_trip() {
    let entry = WalEntry::new(
        EntryType::Insert,
        77,
        5,
        b"doc-9".to_vec(),
        b"payload bytes".to_vec(),
    );
    let bytes = entry.to_bytes();
    assert_eq!(bytes.len(), 39 + 5 + 13);
    let (decoded, consumed) = WalEntry::from_bytes(&bytes).unwrap();
    assert_eq!(consumed, bytes.len());
    assert!(decoded.header.entry_type == EntryType::Insert);
    assert_eq!(decoded.header.collection_id, 77);
    assert_eq!(decoded.header.transaction_id, 5);
    assert_eq!(decoded.header.document_id, b"doc-9".to_vec());
    assert_eq!(decoded.header.data_size, 13);
    assert_eq!(decoded.data, b"payload bytes".to_vec());
    assert_eq!(decoded.header.timestamp, entry.header.timestamp);
}

#[test]
fn wal_entry_checksum_formula() {
    // The checksum is the wrapping byte sum of the payload.
    let entry = WalEntry::new(EntryType::Insert, 0, 0, b"k".to_vec(), vec![1, 2, 250]);
    assert_eq!(entry.header.checksum, 253);
}

#[test]
fn wal_entry_corrupted_payload() {
    let entry = WalEntry::new(EntryType::Insert, 1, 0, b"k".to_vec(), b"data".to_vec());
    let mut bytes = entry.to_bytes();
    let last = bytes.len() - 1;
    bytes[last] = bytes[last].wrapping_add(1);
    let err = WalEntry::from_bytes(&bytes).unwrap_err();
    assert!(matches!(err, Error::CorruptedEntry));
}

#[test]
fn wal_log_append_read_iterate() {
    let mut log = WalLog::create(true);
    assert!(log.is_empty());
    assert_eq!(log.size(), 16);
    let e1 = WalEntry::new(EntryType::Insert, 9, 0, b"a".to_vec(), b"1".to_vec());
    let e2 = WalEntry::new(EntryType::Update, 9, 0, b"a".to_vec(), b"2".to_vec());
    let p1 = log.append(&e1).unwrap();
    let p2 = log.append(&e2).unwrap();
    assert_eq!(p1, 16);
    // Framing: the second entry begins right after the first's header,
    // document id, and declared payload.
    assert_eq!(p2, 16 + 39 + 1 + 1);
    let back = log.read_at(p2).unwrap();
    assert_eq!(back.data, b"2".to_vec());
    let entries = log.iterate().unwrap();
    assert_eq!(entries.len(), 2);
    assert_eq!(entries[0].0, p1);
    assert_eq!(entries[1].0, p2);
    assert_eq!(entries[0].1.data, b"1".to_vec());
    assert_eq!(entries[1].1.data, b"2".to_vec());
}

#[test]
fn wal_log_open_checks_preamble() {
    let log = WalLog::create(true);
    let good = log.file_bytes().clone();
    assert!(WalLog::open(good.clone(), true).is_ok());
    let mut bad_magic = good.clone();
    bad_magic[0] = 0;
    assert!(WalLog::open(bad_magic, true).is_err());
    let mut bad_version = good.clone();
    bad_version[4] = 9;
    assert!(WalLog::open(bad_version, true).is_err());
    assert!(WalLog::open(vec![0x4E, 0x42], true).is_err());
}

#[test]
fn torn_wal_tail_is_iterated_to_preceding_entry() {
    let mut log = WalLog::create(true);
    for k in 0u8..4 {
        let entry = WalEntry::new(
            EntryType::Insert,
            1,
            0,
            vec![0x61, k],
            vec![k; 8],
        );
        log.append(&entry).unwrap();
    }
    let mut bytes = log.file_bytes().clone();
    // A crash tears the last entry three bytes short.
    let torn_len = bytes.len() - 3;
    bytes.truncate(torn_len);
    let torn = WalLog::open(bytes, true).unwrap();
    let entries = torn.iterate().unwrap();
    assert_eq!(entries.len(), 3);
    for (k, (_pos, entry)) in entries.iter().enumerate() {
        assert_eq!(entry.data, vec![k as u8; 8]);
    }
}

#[test]
fn collection_id_is_a_stable_fold() {
    // h = fold of h * 31 + byte over the name.
    let mut expected: u64 = 0;
    for b in "users".bytes() {
        expected = expected.wrapping_mul(31).wrapping_add(b as u64);
    }
    assert_eq!(collection_id_from_name("users"), expected);
    assert_eq!(collection_id_from_name("users"), collection_id_from_name("users"));
    assert_ne!(collection_id_from_name("users"), collection_id_from_name("orders"));
    assert_eq!(collection_id_from_name(""), 0);
}

#[test]
fn wal_manager_logs_operations() {
    let mut m = WalManager::new(quiet_wal_config());
    m.insert("users", b"u1", b"v1").unwrap();
    m.update("users", b"u1", b"v2").unwrap();
    m.delete("users", b"u1").unwrap();
    assert_eq!(m.collection_wals.len(), 1);
    assert_eq!(m.collection_wals[0].0, "users");
    let entries = m.collection_wals[0].1.log.iterate().unwrap();
    assert_eq!(entries.len(), 3);
    assert!(entries[0].1.header.entry_type == EntryType::Insert);
    assert!(entries[1].1.header.entry_type == EntryType::Update);
    assert!(entries[2].1.header.entry_type == EntryType::Delete);
    let cid = collection_id_from_name("users");
    for (_pos, e) in &entries {
        assert_eq!(e.header.collection_id, cid);
        assert_eq!(e.header.transaction_id, 0);
        assert_eq!(e.header.document_id, b"u1".to_vec());
    }
    // The recovery index records the newest position for the document.
    assert_eq!(m.entry_cache.len(), 3);
    let (name, id, pos) = m.entry_cache.last().unwrap();
    assert_eq!(name, "users");
    assert_eq!(id, &b"u1".to_vec());
    assert_eq!(*pos, entries[2].0);
}

#[test]
fn transaction_lifecycle() {
    let mut m = WalManager::new(quiet_wal_config());
    assert!(matches!(
        m.commit_transaction(42).unwrap_err(),
        Error::UnknownTransaction
    ));
    let t1 = m.begin_transaction().unwrap();
    assert_eq!(t1, 1);
    m.insert_in_transaction(t1, "users", b"a", b"1").unwrap();
    assert!(matches!(
        m.insert_in_transaction(99, "users", b"a", b"1").unwrap_err(),
        Error::UnknownTransaction
    ));
    m.commit_transaction(t1).unwrap();
    assert!(matches!(
        m.abort_transaction(t1).unwrap_err(),
        Error::UnknownTransaction
    ));
    let t2 = m.begin_transaction().unwrap();
    assert_eq!(t2, 2);
    m.abort_transaction(t2).unwrap();
}

fn log_images(m: &WalManager) -> Vec<(String, Vec<u8>)> {
    m.collection_wals
        .iter()
        .map(|(name, wal)| (name.clone(), wal.log.file_bytes().clone()))
        .collect()
}

#[test]
fn transaction_commit_then_recover() {
    let mut m = WalManager::new(quiet_wal_config());
    let t1 = m.begin_transaction().unwrap();
    m.insert_in_transaction(t1, "users", b"a", b"1").unwrap();
    m.commit_transaction(t1).unwrap();
    // The process dies here; a fresh manager recovers from the images.
    let images = log_images(&m);
    let mut m2 = WalManager::new(quiet_wal_config());
    m2.recover(images).unwrap();
    let hit = m2
        .entry_cache
        .iter()
        .any(|(name, id, _pos)| name == "users" && id == &b"a".to_vec());
    assert!(hit, "committed entry must be recovered");
    for (_name, wal) in &m2.collection_wals {
        assert!(wal.next_tx_id >= 2);
    }
}

#[test]
fn transaction_abort_is_not_recovered() {
    let mut m = WalManager::new(quiet_wal_config());
    let t1 = m.begin_transaction().unwrap();
    m.insert_in_transaction(t1, "users", b"b", b"9").unwrap();
    m.abort_transaction(t1).unwrap();
    let images = log_images(&m);
    let mut m2 = WalManager::new(quiet_wal_config());
    m2.recover(images).unwrap();
    let hit = m2
        .entry_cache
        .iter()
        .any(|(name, id, _pos)| name == "users" && id == &b"b".to_vec());
    assert!(!hit, "aborted entry must not be recovered");
}

#[test]
fn pending_transaction_is_not_recovered() {
    let mut m = WalManager::new(quiet_wal_config());
    let t1 = m.begin_transaction().unwrap();
    m.insert_in_transaction(t1, "users", b"c", b"3").unwrap();
    // No commit and no abort: the transaction is implicitly aborted.
    let images = log_images(&m);
    let mut m2 = WalManager::new(quiet_wal_config());
    m2.recover(images).unwrap();
    let hit = m2
        .entry_cache
        .iter()
        .any(|(name, id, _pos)| name == "users" && id == &b"c".to_vec());
    assert!(!hit, "pending entry must not be recovered");
}

#[test]
fn recovery_skips_torn_tail() {
    let mut m = WalManager::new(quiet_wal_config());
    m.insert("users", b"a", b"1").unwrap();
    m.insert("users", b"b", b"2").unwrap();
    let mut images = log_images(&m);
    let len = images[0].1.len();
    images[0].1.truncate(len - 3);
    let mut m2 = WalManager::new(quiet_wal_config());
    m2.recover(images).unwrap();
    assert!(m2
        .entry_cache
        .iter()
        .any(|(name, id, _)| name == "users" && id == &b"a".to_vec()));
    assert!(!m2
        .entry_cache
        .iter()
        .any(|(name, id, _)| name == "users" && id == &b"b".to_vec()));
}

#[test]
fn checkpoint_writes_marker() {
    let mut m = WalManager::new(quiet_wal_config());
    m.insert("users", b"a", b"1").unwrap();
    m.checkpoint("users").unwrap();
    let entries = m.collection_wals[0].1.log.iterate().unwrap();
    assert_eq!(entries.len(), 2);
    assert!(entries[1].1.header.entry_type == EntryType::Checkpoint);
    assert_eq!(
        entries[1].1.header.collection_id,
        collection_id_from_name("users")
    );
}
