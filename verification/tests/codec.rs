//! Block and entry codec behaviour: round trips, the checksum formula, and
//! the decode error taxonomy.

use nebuladb::block::{Block, DocumentEntry, BLOCK_HEADER_SIZE, BLOCK_FOOTER_SIZE};
use nebuladb::config::CompressionType;
use nebuladb::errors::Error;

fn sample_block() -> Block {
    let mut block = Block::new(CompressionType::NoCompression);
    block
        .add_document(DocumentEntry::new(b"k1".to_vec(), b"hello".to_vec()))
        .unwrap();
    block
        .add_document(DocumentEntry::new(b"k2".to_vec(), b"world!".to_vec()))
        .unwrap();
    block
}

#[test]
fn entry_codec_round_trip() {
    let entry = DocumentEntry::new(b"user-1".to_vec(), b"{\"n\":\"a\"}".to_vec());
    let bytes = entry.to_bytes();
    assert_eq!(bytes.len(), 2 + 6 + 4 + 9);
    let decoded = DocumentEntry::from_bytes(&bytes, 7).unwrap();
    assert_eq!(decoded.id, b"user-1".to_vec());
    assert_eq!(decoded.data, b"{\"n\":\"a\"}".to_vec());
    assert_eq!(decoded.offset, 7);
}

#[test]
fn entry_codec_empty_value() {
    let entry = DocumentEntry::new(b"k".to_vec(), Vec::new());
    let bytes = entry.to_bytes();
    assert_eq!(bytes.len(), 7);
    let decoded = DocumentEntry::from_bytes(&bytes, 0).unwrap();
    assert_eq!(decoded.id, b"k".to_vec());
    assert!(decoded.data.is_empty());
}

#[test]
fn entry_decode_truncated() {
    let entry = DocumentEntry::new(b"key".to_vec(), b"value".to_vec());
    let bytes = entry.to_bytes();
    for cut in 0..bytes.len() {
        let err = DocumentEntry::from_bytes(&bytes[..cut], 0).unwrap_err();
        assert!(matches!(err, Error::Truncated));
    }
}

#[test]
fn block_codec_round_trip() {
    let block = sample_block();
    let bytes = block.to_bytes().unwrap();
    assert_eq!(
        bytes.len(),
        BLOCK_HEADER_SIZE + block.data.len() + BLOCK_FOOTER_SIZE
    );
    let decoded = Block::from_bytes(&bytes).unwrap();
    assert_eq!(decoded.header.magic, [0x4E, 0x42, 0x4C, 0x44]);
    assert_eq!(decoded.footer.magic, [0x4E, 0x42, 0x4C, 0x44]);
    assert_eq!(decoded.header.version, block.header.version);
    assert!(decoded.header.compression == block.header.compression);
    assert_eq!(decoded.header.doc_count, 2);
    assert_eq!(decoded.header.uncompressed_size, block.data.len() as u64);
    assert_eq!(decoded.header.compressed_size, block.data.len() as u64);
    assert_eq!(decoded.header.created_at, block.header.created_at);
    assert_eq!(decoded.data, block.data);
    assert_eq!(decoded.footer.checksum, block.footer.checksum);
}

#[test]
fn block_checksum_formula() {
    // An empty block: the checksum folds the magic bytes, version,
    // compression code, and the zero counters and sizes; only the
    // timestamp varies, folded as its two 32-bit halves.
    let block = Block::new(CompressionType::NoCompression);
    let magic_sum: u32 = 0x4E + 0x42 + 0x4C + 0x44;
    let created = block.header.created_at;
    let expected = magic_sum
        .wrapping_add(1)
        .wrapping_add((created & 0xFFFF_FFFF) as u32)
        .wrapping_add((created >> 32) as u32);
    assert_eq!(block.compute_checksum(), expected);
}

#[test]
fn block_decode_too_short() {
    let err = Block::from_bytes(&[0u8; 41]).unwrap_err();
    assert!(matches!(err, Error::Truncated));
}

#[test]
fn block_decode_bad_magic() {
    let block = sample_block();
    let mut bytes = block.to_bytes().unwrap();
    bytes[0] = 0;
    let err = Block::from_bytes(&bytes).unwrap_err();
    assert!(matches!(err, Error::BadMagic));
}

#[test]
fn block_decode_bad_compression() {
    let block = sample_block();
    let mut bytes = block.to_bytes().unwrap();
    bytes[5] = 9;
    let err = Block::from_bytes(&bytes).unwrap_err();
    assert!(matches!(err, Error::BadCompression));
}

#[test]
fn block_decode_bad_footer_magic() {
    let block = sample_block();
    let mut bytes = block.to_bytes().unwrap();
    let last = bytes.len() - 1;
    bytes[last] = 0;
    let err = Block::from_bytes(&bytes).unwrap_err();
    assert!(matches!(err, Error::BadMagic));
}

#[test]
fn header_magic_equals_footer_magic_after_decode() {
    let block = sample_block();
    let bytes = block.to_bytes().unwrap();
    let decoded = Block::from_bytes(&bytes).unwrap();
    assert_eq!(decoded.header.magic, decoded.footer.magic);
}

#[test]
fn doc_count_matches_linear_walk() {
    let block = sample_block();
    // Walk the payload by hand and count the framed entries.
    let mut offset = 0usize;
    let mut walked = 0u32;
    while let Ok(entry) = DocumentEntry::from_bytes(&block.data[offset..], offset) {
        offset += 2 + entry.id.len() + 4 + entry.data.len();
        walked += 1;
    }
    assert_eq!(offset, block.data.len());
    assert_eq!(block.header.doc_count, walked);
}
