//! Compression for block payloads.
//!
//! Every supported code is currently a no-op transform: the payload bytes
//! are stored as given and the code in the block header records the intent.
//! A real codec behind the recorded codes is future work; the format keeps
//! room for it.

use vstd::prelude::*;
use vstd::slice::slice_to_vec;
use crate::config::CompressionType;
use crate::errors::Error;

verus! {

/// Compresses data with the named algorithm. Every code currently returns
/// the bytes unchanged.
pub fn compress(data: &[u8], compression_type: CompressionType) -> (r: Result<Vec<u8>, Error>)
    ensures
        r is Ok,
        r->Ok_0@ == data@,
{
    match compression_type {
        CompressionType::NoCompression => Ok(slice_to_vec(data)),
        _ => Ok(slice_to_vec(data)),
    }
}

/// Decompresses data with the named algorithm. Every code currently
/// returns the bytes unchanged.
pub fn decompress(data: &[u8], compression_type: CompressionType) -> (r: Result<Vec<u8>, Error>)
    ensures
        r is Ok,
        r->Ok_0@ == data@,
{
    match compression_type {
        CompressionType::NoCompression => Ok(slice_to_vec(data)),
        _ => Ok(slice_to_vec(data)),
    }
}

} // verus!
