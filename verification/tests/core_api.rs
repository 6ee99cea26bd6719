//! Core API behaviour: the basic arithmetic helper and the configuration
//! defaults.

use nebuladb::add;
use nebuladb::config::{Config, StorageConfig, WalConfig, CompressionType};

#[test]
fn it_works() {
    let result = add(2, 2);
    assert_eq!(result, 4);
}

#[test]
fn test_config_default() {
    let config = Config::default();
    assert_eq!(config.data_dir, "/tmp/nebuladb");
    assert_eq!(config.max_size, 1024 * 1024 * 1024);
}

#[test]
fn storage_config_default() {
    let config = StorageConfig::default();
    assert_eq!(config.block_size, 4 * 1024 * 1024);
    assert_eq!(config.flush_threshold, 1000);
    assert!(config.compression == CompressionType::Zstd);
}

#[test]
fn wal_config_default() {
    let config = WalConfig::default();
    assert_eq!(config.dir_path, "wal");
    assert_eq!(config.max_file_size, 64 * 1024 * 1024);
    assert!(config.sync_on_write);
    assert_eq!(config.checkpoint_interval, 300);
}

#[test]
fn compression_codes_round_trip() {
    for code in 0u8..=3 {
        let c = CompressionType::from_code(code).unwrap();
        assert_eq!(c.code(), code);
    }
    assert!(CompressionType::from_code(4).is_none());
    assert!(CompressionType::from_code(255).is_none());
}
