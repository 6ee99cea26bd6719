//! NebulaDB storage core: a block-packed document store with a write-ahead log.
//!
//! The crate verifies the storage engine itself: the block and entry codecs,
//! the per-collection block manager, tombstone-based deletion, the WAL entry
//! framing, log iteration, and crash recovery. All state is modelled over
//! in-memory byte images of the on-disk files; the thin binary around the
//! library moves those images between disk and memory.

use vstd::prelude::*;

pub mod block;
pub mod clock;
pub mod collection;
pub mod compression;
pub mod bytesutil;
pub mod config;
pub mod manager;
pub mod store;
pub mod wal_entry;
pub mod wal_log;
pub mod wal_manager;
pub mod errors;
pub mod fileman;
pub mod util;

verus! {

/// Adds two sizes; the caller keeps the sum within `usize`.
pub fn add(left: usize, right: usize) -> (r: usize)
    requires
        left + right <= usize::MAX,
    ensures
        r == left + right,
{
    left + right
}

} // verus!

