//! Configuration types for the database core, the storage engine and the WAL.

use vstd::prelude::*;

verus! {

/// Core configuration for the database.
#[derive(Debug, Clone)]
pub struct Config {
    /// Root directory for all data files.
    pub data_dir: String,
    /// Maximum total size in bytes.
    pub max_size: usize,
}

impl Default for Config {
    /// The default root is `/tmp/nebuladb` with a 1 GiB size cap.
    fn default() -> (r: Self)
        ensures
            r.data_dir@ == "/tmp/nebuladb"@,
            r.max_size == 1024 * 1024 * 1024,
    {
        Config { data_dir: "/tmp/nebuladb".to_owned(), max_size: 1024 * 1024 * 1024 }
    }
}

/// Supported compression algorithms.
///
/// The code is recorded in every block header; the current engine applies no
/// transform for any of them, so the payload bytes are stored as given.
#[derive(Debug, Clone, Copy, PartialEq, Eq, Structural)]
pub enum CompressionType {
    NoCompression,
    Snappy,
    Zstd,
    Lz4,
}

impl CompressionType {
    /// The one-byte on-disk code of this compression algorithm.
    pub fn code(&self) -> (r: u8)
        ensures
            r == self.spec_code(),
    {
        match self {
            CompressionType::NoCompression => 0,
            CompressionType::Snappy => 1,
            CompressionType::Zstd => 2,
            CompressionType::Lz4 => 3,
        }
    }

    /// The on-disk code, for contracts.
    pub open spec fn spec_code(&self) -> u8 {
        match self {
            CompressionType::NoCompression => 0,
            CompressionType::Snappy => 1,
            CompressionType::Zstd => 2,
            CompressionType::Lz4 => 3,
        }
    }

    /// Decodes a one-byte compression code; codes above 3 are rejected.
    pub fn from_code(code: u8) -> (r: Option<Self>)
        ensures
            r is Some <==> code <= 3,
            r is Some ==> r->0.spec_code() == code,
    {
        match code {
            0 => Some(CompressionType::NoCompression),
            1 => Some(CompressionType::Snappy),
            2 => Some(CompressionType::Zstd),
            3 => Some(CompressionType::Lz4),
            _ => None,
        }
    }
}

/// Storage engine configuration.
#[derive(Debug, Clone)]
pub struct StorageConfig {
    /// Base configuration.
    pub base: Config,
    /// Slot stride of the collection block file, in bytes. Every persisted
    /// block occupies one slot of exactly this many bytes.
    pub block_size: usize,
    /// Compression algorithm recorded in new blocks.
    pub compression: CompressionType,
    /// Serialized size, in bytes, at which the active block is flushed.
    pub flush_threshold: usize,
}

impl Default for StorageConfig {
    /// 4 MiB slots, zstd code, flush at 1000 bytes of serialized block.
    fn default() -> (r: Self)
        ensures
            r.block_size == 4 * 1024 * 1024,
            r.compression == CompressionType::Zstd,
            r.flush_threshold == 1000,
            r.base.data_dir@ == "/tmp/nebuladb"@,
            r.base.max_size == 1024 * 1024 * 1024,
    {
        StorageConfig {
            base: Config::default(),
            block_size: 4 * 1024 * 1024,
            compression: CompressionType::Zstd,
            flush_threshold: 1000,
        }
    }
}

/// Write-ahead log configuration.
#[derive(Debug, Clone)]
pub struct WalConfig {
    /// Directory that holds the per-collection `.wal` files.
    pub dir_path: String,
    /// Advisory maximum size of a WAL file before rotation, in bytes.
    pub max_file_size: usize,
    /// Whether the caller must force durability after every append.
    pub sync_on_write: bool,
    /// Seconds between auto-checkpoints; 0 disables them.
    pub checkpoint_interval: u64,
}

impl Default for WalConfig {
    /// `wal` directory, 64 MiB files, sync on write, checkpoint every 5 minutes.
    fn default() -> (r: Self)
        ensures
            r.dir_path@ == "wal"@,
            r.max_file_size == 64 * 1024 * 1024,
            r.sync_on_write,
            r.checkpoint_interval == 300,
    {
        WalConfig {
            dir_path: "wal".to_owned(),
            max_file_size: 64 * 1024 * 1024,
            sync_on_write: true,
            checkpoint_interval: 300,
        }
    }
}

} // verus!
