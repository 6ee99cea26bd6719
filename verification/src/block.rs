//! Block format and codec: the on-disk layout of document entries and blocks.
//!
//! A document entry is framed as `[id_len: u16 LE][id][value_len: u32 LE][value]`;
//! entries pack tightly with no terminator. A block is a 34-byte header, the
//! packed entries, and an 8-byte footer (checksum, then the header magic again).

use vstd::prelude::*;
use vstd::bytes::{
    spec_u16_to_le_bytes, spec_u16_from_le_bytes, spec_u32_to_le_bytes, spec_u32_from_le_bytes,
    spec_u64_to_le_bytes, spec_u64_from_le_bytes, u16_to_le_bytes, u16_from_le_bytes,
    u32_to_le_bytes, u32_from_le_bytes, u64_to_le_bytes, u64_from_le_bytes,
    lemma_auto_spec_u16_to_from_le_bytes, lemma_auto_spec_u32_to_from_le_bytes,
    lemma_auto_spec_u64_to_from_le_bytes,
};
use vstd::slice::{slice_subrange, slice_to_vec};
use crate::bytesutil::{sum_bytes, wrapping_sum, push_bytes, bytes_equal};
use crate::clock::now_unix_seconds;
use crate::config::CompressionType;
use crate::errors::Error;
use vstd::wrapping::u32_specs;

verus! {

/// Size of the block header in bytes.
pub const BLOCK_HEADER_SIZE: usize = 34;

/// Size of the block footer in bytes.
pub const BLOCK_FOOTER_SIZE: usize = 8;

/// The block magic, for contracts: the bytes of `"NBLD"`.
pub open spec fn spec_block_magic() -> Seq<u8> {
    seq![0x4Eu8, 0x42u8, 0x4Cu8, 0x44u8]
}

/// The block magic `"NBLD"`, as written to disk.
pub fn block_magic() -> (r: [u8; 4])
    ensures
        r@ == spec_block_magic(),
{
    let r: [u8; 4] = [0x4E, 0x42, 0x4C, 0x44];
    proof {
        assert(r@ =~= spec_block_magic());
    }
    r
}

/// The wire form of one document entry.
pub open spec fn spec_entry_bytes(id: Seq<u8>, data: Seq<u8>) -> Seq<u8> {
    spec_u16_to_le_bytes(id.len() as u16) + id + spec_u32_to_le_bytes(data.len() as u32) + data
}

/// Lengths under which an `(id, value)` pair can be framed exactly.
pub open spec fn entry_lens_valid(id: Seq<u8>, data: Seq<u8>) -> bool {
    id.len() <= 0xFFFF && data.len() <= 0xFFFF_FFFF
}

/// Parses one entry from the front of `b`: the id, the value, and the number
/// of bytes consumed. `None` when `b` is too short for a full frame.
pub open spec fn parse_entry(b: Seq<u8>) -> Option<(Seq<u8>, Seq<u8>, int)> {
    if b.len() < 2 {
        None
    } else {
        let id_len = spec_u16_from_le_bytes(b.subrange(0, 2)) as int;
        if b.len() < 2 + id_len + 4 {
            None
        } else {
            let data_len = spec_u32_from_le_bytes(
                b.subrange(2 + id_len, 2 + id_len + 4),
            ) as int;
            if b.len() < 2 + id_len + 4 + data_len {
                None
            } else {
                Some(
                    (
                        b.subrange(2, 2 + id_len),
                        b.subrange(2 + id_len + 4, 2 + id_len + 4 + data_len),
                        2 + id_len + 4 + data_len,
                    ),
                )
            }
        }
    }
}

/// The entries recovered from a payload by a linear walk from the front,
/// stopping at the first byte position where no full frame remains.
pub open spec fn payload_entries(b: Seq<u8>) -> Seq<(Seq<u8>, Seq<u8>)>
    decreases b.len(),
{
    match parse_entry(b) {
        None => Seq::empty(),
        Some((id, data, n)) => seq![(id, data)] + payload_entries(
            b.subrange(n, b.len() as int),
        ),
    }
}

/// A payload is well formed when the linear walk consumes it exactly:
/// zero or more full frames and nothing after them.
pub open spec fn payload_wf(b: Seq<u8>) -> bool
    decreases b.len(),
{
    if b.len() == 0 {
        true
    } else {
        match parse_entry(b) {
            None => false,
            Some((id, data, n)) => payload_wf(b.subrange(n, b.len() as int)),
        }
    }
}

/// A parse of `b` is also a parse of any extension of `b`.
pub proof fn lemma_parse_entry_prefix(b: Seq<u8>, c: Seq<u8>)
    requires
        parse_entry(b) is Some,
    ensures
        parse_entry(b + c) == parse_entry(b),
{
    let (id, data, n) = parse_entry(b)->0;
    let bc = b + c;
    assert(bc.subrange(0, 2) =~= b.subrange(0, 2));
    let id_len = spec_u16_from_le_bytes(b.subrange(0, 2)) as int;
    assert(bc.subrange(2 + id_len, 2 + id_len + 4) =~= b.subrange(2 + id_len, 2 + id_len + 4));
    let data_len = spec_u32_from_le_bytes(b.subrange(2 + id_len, 2 + id_len + 4)) as int;
    assert(bc.subrange(2, 2 + id_len) =~= b.subrange(2, 2 + id_len));
    assert(bc.subrange(2 + id_len + 4, 2 + id_len + 4 + data_len) =~= b.subrange(
        2 + id_len + 4,
        2 + id_len + 4 + data_len,
    ));
}

/// Walking a well-formed payload followed by anything else yields the
/// payload's entries and then the rest's, and well-formedness is preserved.
pub proof fn lemma_payload_entries_append(a: Seq<u8>, c: Seq<u8>)
    requires
        payload_wf(a),
    ensures
        payload_entries(a + c) == payload_entries(a) + payload_entries(c),
        payload_wf(c) ==> payload_wf(a + c),
    decreases a.len(),
{
    if a.len() == 0 {
        assert(a + c =~= c);
        assert(payload_entries(a) =~= Seq::<(Seq<u8>, Seq<u8>)>::empty());
        assert(payload_entries(a) + payload_entries(c) =~= payload_entries(c));
    } else {
        let (id, data, n) = parse_entry(a)->0;
        lemma_parse_entry_prefix(a, c);
        let rest = a.subrange(n, a.len() as int);
        assert((a + c).subrange(n, (a + c).len() as int) =~= rest + c);
        lemma_payload_entries_append(rest, c);
        assert(payload_entries(a + c) =~= seq![(id, data)] + payload_entries(rest + c));
        assert(payload_entries(a) + payload_entries(c) =~= seq![(id, data)] + (payload_entries(
            rest,
        ) + payload_entries(c)));
    }
}

/// The frame built by `spec_entry_bytes` parses back to exactly its inputs.
pub proof fn lemma_parse_entry_bytes(id: Seq<u8>, data: Seq<u8>)
    requires
        entry_lens_valid(id, data),
    ensures
        parse_entry(spec_entry_bytes(id, data)) == Some(
            (id, data, spec_entry_bytes(id, data).len() as int),
        ),
        payload_wf(spec_entry_bytes(id, data)),
        payload_entries(spec_entry_bytes(id, data)) == seq![(id, data)],
{
    lemma_auto_spec_u16_to_from_le_bytes();
    lemma_auto_spec_u32_to_from_le_bytes();
    let eb = spec_entry_bytes(id, data);
    let id_len = id.len() as int;
    let data_len = data.len() as int;
    assert(eb.len() == 2 + id_len + 4 + data_len);
    assert(eb.subrange(0, 2) =~= spec_u16_to_le_bytes(id.len() as u16));
    assert(spec_u16_from_le_bytes(eb.subrange(0, 2)) == id.len() as u16);
    assert(eb.subrange(2, 2 + id_len) =~= id);
    assert(eb.subrange(2 + id_len, 2 + id_len + 4) =~= spec_u32_to_le_bytes(data.len() as u32));
    assert(spec_u32_from_le_bytes(eb.subrange(2 + id_len, 2 + id_len + 4)) == data.len() as u32);
    assert(eb.subrange(2 + id_len + 4, 2 + id_len + 4 + data_len) =~= data);
    let tail = eb.subrange(eb.len() as int, eb.len() as int);
    assert(tail =~= Seq::<u8>::empty());
    assert(payload_wf(tail));
    assert(payload_wf(eb));
    assert(payload_entries(eb) =~= seq![(id, data)] + payload_entries(tail));
    assert(payload_entries(eb) =~= seq![(id, data)]);
}

/// Appending one full frame to a well-formed payload appends one entry to
/// the walk and keeps the payload well formed.
pub proof fn lemma_payload_push_entry(a: Seq<u8>, id: Seq<u8>, data: Seq<u8>)
    requires
        payload_wf(a),
        entry_lens_valid(id, data),
    ensures
        payload_wf(a + spec_entry_bytes(id, data)),
        payload_entries(a + spec_entry_bytes(id, data)) == payload_entries(a).push((id, data)),
{
    lemma_parse_entry_bytes(id, data);
    lemma_payload_entries_append(a, spec_entry_bytes(id, data));
    assert(payload_entries(a) + seq![(id, data)] =~= payload_entries(a).push((id, data)));
}

/// Every id recovered from a payload walk fits the two-byte length field.
pub proof fn lemma_payload_entry_ids_short(b: Seq<u8>)
    ensures
        forall|i: int|
            0 <= i < payload_entries(b).len() ==> (#[trigger] payload_entries(b)[i]).0.len()
                <= 0xFFFF,
    decreases b.len(),
{
    match parse_entry(b) {
        None => {},
        Some((id, data, n)) => {
            lemma_payload_entry_ids_short(b.subrange(n, b.len() as int));
            assert forall|i: int| 0 <= i < payload_entries(b).len() implies (
            #[trigger] payload_entries(b)[i]).0.len() <= 0xFFFF by {
                if i > 0 {
                    assert(payload_entries(b)[i] == payload_entries(
                        b.subrange(n, b.len() as int),
                    )[i - 1]);
                }
            }
        },
    }
}

/// Every entry frame takes at least 6 bytes, so a payload holds at most a
/// sixth as many entries as it has bytes.
pub proof fn lemma_payload_entries_len(b: Seq<u8>)
    ensures
        payload_entries(b).len() * 6 <= b.len(),
    decreases b.len(),
{
    match parse_entry(b) {
        None => {},
        Some((id, data, n)) => {
            lemma_payload_entries_len(b.subrange(n, b.len() as int));
        },
    }
}

/// A document entry held in memory: an opaque id, the opaque value bytes, and
/// the offset at which the entry sits inside its block payload.
#[derive(Debug, Clone)]
pub struct DocumentEntry {
    /// Document id.
    pub id: Vec<u8>,
    /// Document value.
    pub data: Vec<u8>,
    /// Offset of this entry within the block payload.
    pub offset: usize,
}

impl DocumentEntry {
    /// Creates an entry with offset 0; the block assigns the real offset.
    pub fn new(id: Vec<u8>, data: Vec<u8>) -> (r: Self)
        ensures
            r.id == id,
            r.data == data,
            r.offset == 0,
    {
        DocumentEntry { id, data, offset: 0 }
    }

    /// On-wire size of this entry.
    pub fn size(&self) -> (r: usize)
        requires
            2 + self.id@.len() + 4 + self.data@.len() <= usize::MAX,
        ensures
            r == 2 + self.id@.len() + 4 + self.data@.len(),
    {
        2 + self.id.len() + 4 + self.data.len()
    }

    /// Serializes this entry into its wire form.
    pub fn to_bytes(&self) -> (r: Vec<u8>)
        requires
            entry_lens_valid(self.id@, self.data@),
        ensures
            r@ == spec_entry_bytes(self.id@, self.data@),
    {
        let mut bytes: Vec<u8> = Vec::new();
        let id_len_bytes = u16_to_le_bytes(self.id.len() as u16);
        push_bytes(&mut bytes, id_len_bytes.as_slice());
        push_bytes(&mut bytes, self.id.as_slice());
        let data_len_bytes = u32_to_le_bytes(self.data.len() as u32);
        push_bytes(&mut bytes, data_len_bytes.as_slice());
        push_bytes(&mut bytes, self.data.as_slice());
        bytes
    }

    /// Parses one entry from the front of `bytes`, recording `offset` as its
    /// position. Fails with `Truncated` exactly when no full frame is present.
    pub fn from_bytes(bytes: &[u8], offset: usize) -> (r: Result<Self, Error>)
        ensures
            r is Ok <==> parse_entry(bytes@) is Some,
            r is Ok ==> {
                let (id, data, n) = parse_entry(bytes@)->0;
                r->Ok_0.id@ == id && r->Ok_0.data@ == data && r->Ok_0.offset == offset
            },
            r is Err ==> r->Err_0 is Truncated,
    {
        if bytes.len() < 2 {
            return Err(Error::Truncated);
        }
        let id_len_slice = slice_subrange(bytes, 0, 2);
        let id_len = u16_from_le_bytes(id_len_slice) as usize;
        proof {
            assert(bytes@.subrange(0, 2) == id_len_slice@);
        }
        if bytes.len() < 2 + id_len || bytes.len() - 2 - id_len < 4 {
            assert(bytes@.len() < 2 + id_len + 4);
            return Err(Error::Truncated);
        }
        let id = slice_to_vec(slice_subrange(bytes, 2, 2 + id_len));
        let data_len_slice = slice_subrange(bytes, 2 + id_len, 2 + id_len + 4);
        let data_len = u32_from_le_bytes(data_len_slice) as usize;
        if bytes.len() - 2 - id_len - 4 < data_len {
            assert(bytes@.len() < 2 + id_len + 4 + data_len);
            return Err(Error::Truncated);
        }
        let data = slice_to_vec(slice_subrange(bytes, 2 + id_len + 4, 2 + id_len + 4 + data_len));
        Ok(DocumentEntry { id, data, offset })
    }
}

/// Header of a data block.
#[derive(Debug, Clone)]
pub struct BlockHeader {
    /// Magic identifying a block: `"NBLD"`.
    pub magic: [u8; 4],
    /// Block format version.
    pub version: u8,
    /// Compression algorithm recorded for the payload.
    pub compression: CompressionType,
    /// Number of document entries in the payload.
    pub doc_count: u32,
    /// Total size of the entries as written.
    pub uncompressed_size: u64,
    /// Payload bytes as persisted; equal to `uncompressed_size` while every
    /// compression code is a no-op transform.
    pub compressed_size: u64,
    /// Seconds since the Unix epoch when the block was created.
    pub created_at: u64,
}

impl BlockHeader {
    /// Creates a header with the block magic, the current format version and
    /// the wall-clock creation time.
    pub fn new(
        compression: CompressionType,
        doc_count: u32,
        uncompressed_size: u64,
        compressed_size: u64,
    ) -> (r: Self)
        ensures
            r.magic@ == spec_block_magic(),
            r.version == 1,
            r.compression == compression,
            r.doc_count == doc_count,
            r.uncompressed_size == uncompressed_size,
            r.compressed_size == compressed_size,
    {
        BlockHeader {
            magic: block_magic(),
            version: 1,
            compression,
            doc_count,
            uncompressed_size,
            compressed_size,
            created_at: now_unix_seconds(),
        }
    }
}

/// Footer of a data block.
#[derive(Debug, Clone)]
pub struct BlockFooter {
    /// Checksum over the header fields and the payload.
    pub checksum: u32,
    /// The block magic again; byte-equal to the header magic in a sound block.
    pub magic: [u8; 4],
}

impl BlockFooter {
    /// Creates a footer carrying the given checksum and the block magic.
    pub fn new(checksum: u32) -> (r: Self)
        ensures
            r.checksum == checksum,
            r.magic@ == spec_block_magic(),
    {
        BlockFooter { checksum, magic: block_magic() }
    }
}

/// The low 32 bits of a 64-bit value, as folded into the checksum.
pub open spec fn u64_low(x: u64) -> u32 {
    (x % 0x1_0000_0000) as u32
}

/// The high 32 bits of a 64-bit value, as folded into the checksum.
pub open spec fn u64_high(x: u64) -> u32 {
    (x / 0x1_0000_0000) as u32
}

/// A document storage block: header, tightly packed entries, footer.
#[derive(Debug, Clone)]
pub struct Block {
    /// Block header.
    pub header: BlockHeader,
    /// Packed document entries.
    pub data: Vec<u8>,
    /// Block footer.
    pub footer: BlockFooter,
}

/// The checksum contribution of the header fields: a 32-bit wrapping fold of
/// the magic bytes, version, compression code, document count, and the low
/// and high halves of the three 64-bit fields.
pub open spec fn spec_header_sum(h: BlockHeader) -> u32 {
    let s1 = sum_bytes(h.magic@);
    let s2 = u32_specs::wrapping_add(s1, h.version as u32);
    let s3 = u32_specs::wrapping_add(s2, h.compression.spec_code() as u32);
    let s4 = u32_specs::wrapping_add(s3, h.doc_count);
    let s5 = u32_specs::wrapping_add(s4, u64_low(h.uncompressed_size));
    let s6 = u32_specs::wrapping_add(s5, u64_high(h.uncompressed_size));
    let s7 = u32_specs::wrapping_add(s6, u64_low(h.compressed_size));
    let s8 = u32_specs::wrapping_add(s7, u64_high(h.compressed_size));
    let s9 = u32_specs::wrapping_add(s8, u64_low(h.created_at));
    u32_specs::wrapping_add(s9, u64_high(h.created_at))
}

/// The whole-block checksum: the header fold plus the payload byte fold.
pub open spec fn spec_block_checksum(b: Block) -> u32 {
    u32_specs::wrapping_add(spec_header_sum(b.header), sum_bytes(b.data@))
}

/// The 34-byte wire form of a block header.
pub open spec fn spec_header_bytes(h: BlockHeader) -> Seq<u8> {
    h.magic@ + seq![h.version] + seq![h.compression.spec_code()] + spec_u32_to_le_bytes(
        h.doc_count,
    ) + spec_u64_to_le_bytes(h.uncompressed_size) + spec_u64_to_le_bytes(h.compressed_size)
        + spec_u64_to_le_bytes(h.created_at)
}

/// The full wire form of a block: header, payload, checksum, footer magic.
pub open spec fn spec_block_bytes(b: Block) -> Seq<u8> {
    spec_header_bytes(b.header) + b.data@ + spec_u32_to_le_bytes(b.footer.checksum)
        + b.footer.magic@
}

/// Whether `b` decodes as a block: long enough for header and footer, header
/// magic present, known compression code, footer magic present.
pub open spec fn block_decode_ok(b: Seq<u8>) -> bool {
    &&& b.len() >= 42
    &&& b.subrange(0, 4) == spec_block_magic()
    &&& b[5] <= 3
    &&& b.subrange(b.len() - 4, b.len() as int) == spec_block_magic()
}

/// The error with which a block decode fails, checked in wire order.
pub open spec fn spec_block_decode_err(b: Seq<u8>) -> Error {
    if b.len() < 42 {
        Error::Truncated
    } else if b.subrange(0, 4) != spec_block_magic() {
        Error::BadMagic
    } else if b[5] > 3 {
        Error::BadCompression
    } else {
        Error::BadMagic
    }
}

impl Block {
    /// A block the engine built: magic in header and footer, a payload that
    /// is exactly a run of full entry frames, and size fields that match it.
    pub open spec fn wf(&self) -> bool {
        &&& self.header.magic@ == spec_block_magic()
        &&& self.footer.magic@ == spec_block_magic()
        &&& payload_wf(self.data@)
        &&& self.header.doc_count == payload_entries(self.data@).len()
        &&& self.header.uncompressed_size == self.data@.len()
        &&& self.header.compressed_size == self.data@.len()
    }

    /// Whether the stored footer checksum matches the block contents.
    pub open spec fn checksum_ok(&self) -> bool {
        self.footer.checksum == spec_block_checksum(*self)
    }

    /// The serialized size of the block, for contracts.
    pub open spec fn spec_size(&self) -> int {
        42 + self.data@.len() as int
    }

    /// Creates an empty block tagged with the given compression code. The
    /// footer checksum is a placeholder until the first document arrives.
    pub fn new(compression: CompressionType) -> (r: Self)
        ensures
            r.wf(),
            r.data@.len() == 0,
            r.header.doc_count == 0,
            r.header.compression == compression,
            r.header.version == 1,
            r.footer.checksum == 0,
    {
        let header = BlockHeader::new(compression, 0, 0, 0);
        let footer = BlockFooter::new(0);
        let r = Block { header, data: Vec::new(), footer };
        proof {
            assert(payload_wf(r.data@));
            assert(payload_entries(r.data@) =~= Seq::<(Seq<u8>, Seq<u8>)>::empty());
        }
        r
    }

    /// Total serialized size of the block in bytes.
    pub fn size(&self) -> (r: usize)
        requires
            self.data@.len() + 42 <= usize::MAX,
        ensures
            r == self.spec_size(),
    {
        BLOCK_HEADER_SIZE + self.data.len() + BLOCK_FOOTER_SIZE
    }

    /// Number of documents recorded in the header.
    pub fn doc_count(&self) -> (r: u32)
        ensures
            r == self.header.doc_count,
    {
        self.header.doc_count
    }

    /// Computes the checksum over the header fields and the payload.
    pub fn compute_checksum(&self) -> (r: u32)
        ensures
            r == spec_block_checksum(*self),
    {
        let mut sum: u32 = 0;
        sum = sum.wrapping_add(wrapping_sum(self.header.magic.as_slice()));
        sum = sum.wrapping_add(self.header.version as u32);
        sum = sum.wrapping_add(self.header.compression.code() as u32);
        sum = sum.wrapping_add(self.header.doc_count);
        sum = sum.wrapping_add((self.header.uncompressed_size % 0x1_0000_0000) as u32);
        sum = sum.wrapping_add((self.header.uncompressed_size / 0x1_0000_0000) as u32);
        sum = sum.wrapping_add((self.header.compressed_size % 0x1_0000_0000) as u32);
        sum = sum.wrapping_add((self.header.compressed_size / 0x1_0000_0000) as u32);
        sum = sum.wrapping_add((self.header.created_at % 0x1_0000_0000) as u32);
        sum = sum.wrapping_add((self.header.created_at / 0x1_0000_0000) as u32);
        sum = sum.wrapping_add(wrapping_sum(self.data.as_slice()));
        sum
    }

    /// Appends a document to the payload: frames it, counts it, grows the
    /// size fields by its wire size, and refreshes the footer checksum.
    pub fn add_document(&mut self, doc: DocumentEntry) -> (r: Result<(), Error>)
        requires
            old(self).wf(),
            entry_lens_valid(doc.id@, doc.data@),
            old(self).data@.len() + doc.id@.len() + doc.data@.len() + 6 <= usize::MAX,
            old(self).header.doc_count < u32::MAX,
        ensures
            r is Ok,
            final(self).wf(),
            final(self).checksum_ok(),
            final(self).data@ == old(self).data@ + spec_entry_bytes(doc.id@, doc.data@),
            payload_entries(final(self).data@) == payload_entries(old(self).data@).push(
                (doc.id@, doc.data@),
            ),
            final(self).header.compression == old(self).header.compression,
            final(self).header.version == old(self).header.version,
            final(self).header.created_at == old(self).header.created_at,
            final(self).header.doc_count == old(self).header.doc_count + 1,
    {
        proof {
            lemma_payload_push_entry(self.data@, doc.id@, doc.data@);
            lemma_auto_spec_u16_to_from_le_bytes();
            lemma_auto_spec_u32_to_from_le_bytes();
            assert(spec_entry_bytes(doc.id@, doc.data@).len() == 6 + doc.id@.len()
                + doc.data@.len());
        }
        let mut doc = doc;
        doc.offset = self.data.len();
        let doc_bytes = doc.to_bytes();
        push_bytes(&mut self.data, doc_bytes.as_slice());
        self.header.doc_count = self.header.doc_count + 1;
        self.header.uncompressed_size = self.header.uncompressed_size + (doc_bytes.len() as u64);
        self.header.compressed_size = self.header.compressed_size + (doc_bytes.len() as u64);
        self.footer.checksum = self.compute_checksum();
        Ok(())
    }

    /// Serializes the block: header fields in wire order and width, payload,
    /// checksum, footer magic.
    pub fn to_bytes(&self) -> (r: Result<Vec<u8>, Error>)
        ensures
            r is Ok,
            r->Ok_0@ == spec_block_bytes(*self),
    {
        let mut bytes: Vec<u8> = Vec::new();
        push_bytes(&mut bytes, self.header.magic.as_slice());
        bytes.push(self.header.version);
        bytes.push(self.header.compression.code());
        let doc_count_bytes = u32_to_le_bytes(self.header.doc_count);
        push_bytes(&mut bytes, doc_count_bytes.as_slice());
        let unc_bytes = u64_to_le_bytes(self.header.uncompressed_size);
        push_bytes(&mut bytes, unc_bytes.as_slice());
        let comp_bytes = u64_to_le_bytes(self.header.compressed_size);
        push_bytes(&mut bytes, comp_bytes.as_slice());
        let created_bytes = u64_to_le_bytes(self.header.created_at);
        push_bytes(&mut bytes, created_bytes.as_slice());
        push_bytes(&mut bytes, self.data.as_slice());
        let checksum_bytes = u32_to_le_bytes(self.footer.checksum);
        push_bytes(&mut bytes, checksum_bytes.as_slice());
        push_bytes(&mut bytes, self.footer.magic.as_slice());
        proof {
            assert(bytes@ =~= spec_block_bytes(*self));
        }
        Ok(bytes)
    }

    /// Decodes a block. The payload is everything between header and footer;
    /// the checksum is read back but deliberately not verified here.
    pub fn from_bytes(bytes: &[u8]) -> (r: Result<Self, Error>)
        ensures
            r is Ok <==> block_decode_ok(bytes@),
            r is Ok ==> {
                let b = r->Ok_0;
                &&& b.header.magic@ == spec_block_magic()
                &&& b.header.version == bytes@[4]
                &&& b.header.compression.spec_code() == bytes@[5]
                &&& b.header.doc_count == spec_u32_from_le_bytes(bytes@.subrange(6, 10))
                &&& b.header.uncompressed_size == spec_u64_from_le_bytes(bytes@.subrange(10, 18))
                &&& b.header.compressed_size == spec_u64_from_le_bytes(bytes@.subrange(18, 26))
                &&& b.header.created_at == spec_u64_from_le_bytes(bytes@.subrange(26, 34))
                &&& b.data@ == bytes@.subrange(34, bytes@.len() - 8)
                &&& b.footer.checksum == spec_u32_from_le_bytes(
                    bytes@.subrange(bytes@.len() - 8, bytes@.len() - 4),
                )
                &&& b.footer.magic@ == spec_block_magic()
            },
            r is Err ==> r->Err_0 == spec_block_decode_err(bytes@),
    {
        if bytes.len() < BLOCK_HEADER_SIZE + BLOCK_FOOTER_SIZE {
            return Err(Error::Truncated);
        }
        let magic = block_magic();
        let header_magic = slice_subrange(bytes, 0, 4);
        if !bytes_equal(header_magic, magic.as_slice()) {
            return Err(Error::BadMagic);
        }
        let version = bytes[4];
        let compression = match CompressionType::from_code(bytes[5]) {
            Some(c) => c,
            Option::None => {
                return Err(Error::BadCompression);
            },
        };
        let doc_count = u32_from_le_bytes(slice_subrange(bytes, 6, 10));
        let uncompressed_size = u64_from_le_bytes(slice_subrange(bytes, 10, 18));
        let compressed_size = u64_from_le_bytes(slice_subrange(bytes, 18, 26));
        let created_at = u64_from_le_bytes(slice_subrange(bytes, 26, 34));
        let data_end = bytes.len() - BLOCK_FOOTER_SIZE;
        let data = slice_to_vec(slice_subrange(bytes, BLOCK_HEADER_SIZE, data_end));
        let checksum = u32_from_le_bytes(slice_subrange(bytes, data_end, data_end + 4));
        let footer_magic = slice_subrange(bytes, data_end + 4, data_end + 8);
        if !bytes_equal(footer_magic, magic.as_slice()) {
            return Err(Error::BadMagic);
        }
        let header = BlockHeader {
            magic,
            version,
            compression,
            doc_count,
            uncompressed_size,
            compressed_size,
            created_at,
        };
        let footer = BlockFooter { checksum, magic };
        Ok(Block { header, data, footer })
    }
}

/// Every block the engine builds carries a document count equal to the
/// number of entries a linear walk of its payload recovers.
pub proof fn lemma_doc_count_matches_walk(b: Block)
    requires
        b.wf(),
    ensures
        b.header.doc_count == payload_entries(b.data@).len(),
{
}

/// Block codec round-trip: the wire form of any block with proper magic
/// decodes, and every decoded field equals the field it was encoded from.
pub proof fn lemma_block_round_trip(b: Block)
    requires
        b.header.magic@ == spec_block_magic(),
        b.footer.magic@ == spec_block_magic(),
    ensures
        block_decode_ok(spec_block_bytes(b)),
        spec_block_bytes(b)[4] == b.header.version,
        spec_block_bytes(b)[5] == b.header.compression.spec_code(),
        spec_u32_from_le_bytes(spec_block_bytes(b).subrange(6, 10)) == b.header.doc_count,
        spec_u64_from_le_bytes(spec_block_bytes(b).subrange(10, 18))
            == b.header.uncompressed_size,
        spec_u64_from_le_bytes(spec_block_bytes(b).subrange(18, 26)) == b.header.compressed_size,
        spec_u64_from_le_bytes(spec_block_bytes(b).subrange(26, 34)) == b.header.created_at,
        spec_block_bytes(b).subrange(34, spec_block_bytes(b).len() - 8) == b.data@,
        spec_u32_from_le_bytes(
            spec_block_bytes(b).subrange(
                spec_block_bytes(b).len() - 8,
                spec_block_bytes(b).len() - 4,
            ),
        ) == b.footer.checksum,
{
    lemma_auto_spec_u32_to_from_le_bytes();
    lemma_auto_spec_u64_to_from_le_bytes();
    let eb = spec_block_bytes(b);
    let n = eb.len() as int;
    assert(n == 42 + b.data@.len());
    assert(eb.subrange(0, 4) =~= b.header.magic@);
    assert(eb[4] == b.header.version);
    assert(eb[5] == b.header.compression.spec_code());
    assert(eb.subrange(6, 10) =~= spec_u32_to_le_bytes(b.header.doc_count));
    assert(eb.subrange(10, 18) =~= spec_u64_to_le_bytes(b.header.uncompressed_size));
    assert(eb.subrange(18, 26) =~= spec_u64_to_le_bytes(b.header.compressed_size));
    assert(eb.subrange(26, 34) =~= spec_u64_to_le_bytes(b.header.created_at));
    assert(eb.subrange(34, n - 8) =~= b.data@);
    assert(eb.subrange(n - 8, n - 4) =~= spec_u32_to_le_bytes(b.footer.checksum));
    assert(eb.subrange(n - 4, n) =~= b.footer.magic@);
    assert(b.header.compression.spec_code() <= 3);
}

} // verus!
