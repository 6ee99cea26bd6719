//! WAL entry definitions: the framed records of the write-ahead log.
//!
//! An entry is `[magic "NBWL"][type: u8][collection_id: u64 LE]
//! [transaction_id: u64 LE][doc_id_len: u16 LE][doc id][data_size: u32 LE]
//! [checksum: u32 LE][timestamp: u64 LE][data]`. The checksum is the wrapping
//! 32-bit byte sum of the payload and is verified on decode.

use vstd::prelude::*;
use vstd::bytes::{
    spec_u16_to_le_bytes, spec_u16_from_le_bytes, spec_u32_to_le_bytes, spec_u32_from_le_bytes,
    spec_u64_to_le_bytes, spec_u64_from_le_bytes, u16_to_le_bytes, u16_from_le_bytes,
    u32_to_le_bytes, u32_from_le_bytes, u64_to_le_bytes, u64_from_le_bytes,
    lemma_auto_spec_u16_to_from_le_bytes, lemma_auto_spec_u32_to_from_le_bytes,
    lemma_auto_spec_u64_to_from_le_bytes,
};
use vstd::slice::{slice_subrange, slice_to_vec};
use crate::bytesutil::{sum_bytes, wrapping_sum, push_bytes, bytes_equal};
use crate::clock::now_unix_seconds;
use crate::errors::Error;

verus! {

/// Size of the fixed part of an entry header, excluding the document id.
pub const ENTRY_HEADER_FIXED_SIZE: usize = 39;

/// The WAL entry magic, for contracts: the bytes of `"NBWL"`.
pub open spec fn spec_wal_entry_magic() -> Seq<u8> {
    seq![0x4Eu8, 0x42u8, 0x57u8, 0x4Cu8]
}

/// The WAL entry magic `"NBWL"`, as written to disk.
pub fn wal_entry_magic() -> (r: [u8; 4])
    ensures
        r@ == spec_wal_entry_magic(),
{
    let r: [u8; 4] = [0x4E, 0x42, 0x57, 0x4C];
    proof {
        assert(r@ =~= spec_wal_entry_magic());
    }
    r
}

/// Types of WAL entries.
#[derive(Debug, Clone, Copy, PartialEq, Eq, Structural)]
pub enum EntryType {
    /// No operation, used for padding.
    Noop,
    /// Insert a document.
    Insert,
    /// Update a document.
    Update,
    /// Delete a document.
    Delete,
    /// Begin a transaction.
    BeginTx,
    /// Commit a transaction.
    CommitTx,
    /// Abort a transaction.
    AbortTx,
    /// Checkpoint marker.
    Checkpoint,
}

impl EntryType {
    /// The one-byte wire code of this entry type, for contracts.
    pub open spec fn spec_code(&self) -> u8 {
        match self {
            EntryType::Noop => 0,
            EntryType::Insert => 1,
            EntryType::Update => 2,
            EntryType::Delete => 3,
            EntryType::BeginTx => 4,
            EntryType::CommitTx => 5,
            EntryType::AbortTx => 6,
            EntryType::Checkpoint => 7,
        }
    }

    /// The one-byte wire code of this entry type.
    pub fn to_byte(&self) -> (r: u8)
        ensures
            r == self.spec_code(),
    {
        match self {
            EntryType::Noop => 0,
            EntryType::Insert => 1,
            EntryType::Update => 2,
            EntryType::Delete => 3,
            EntryType::BeginTx => 4,
            EntryType::CommitTx => 5,
            EntryType::AbortTx => 6,
            EntryType::Checkpoint => 7,
        }
    }

    /// Decodes an entry type byte; bytes above 7 are rejected.
    pub fn from_byte(byte: u8) -> (r: Result<Self, Error>)
        ensures
            r is Ok <==> byte <= 7,
            r is Ok ==> r->Ok_0.spec_code() == byte,
            r is Err ==> r->Err_0 is Other,
    {
        match byte {
            0 => Ok(EntryType::Noop),
            1 => Ok(EntryType::Insert),
            2 => Ok(EntryType::Update),
            3 => Ok(EntryType::Delete),
            4 => Ok(EntryType::BeginTx),
            5 => Ok(EntryType::CommitTx),
            6 => Ok(EntryType::AbortTx),
            7 => Ok(EntryType::Checkpoint),
            _ => Err(Error::Other("invalid WAL entry type".to_owned())),
        }
    }
}

/// Header of a WAL entry.
#[derive(Debug, Clone)]
pub struct EntryHeader {
    /// Magic identifying a WAL entry: `"NBWL"`.
    pub magic: [u8; 4],
    /// What the entry records.
    pub entry_type: EntryType,
    /// Hash of the collection name the entry belongs to.
    pub collection_id: u64,
    /// Transaction the entry belongs to; 0 for non-transactional operations.
    pub transaction_id: u64,
    /// Document id the entry speaks of; empty for markers.
    pub document_id: Vec<u8>,
    /// Size of the payload that follows the header.
    pub data_size: u32,
    /// Wrapping byte sum of the payload.
    pub checksum: u32,
    /// Seconds since the Unix epoch when the entry was created.
    pub timestamp: u64,
}

impl EntryHeader {
    /// Creates a header with the entry magic and the wall-clock time.
    pub fn new(
        entry_type: EntryType,
        collection_id: u64,
        transaction_id: u64,
        document_id: Vec<u8>,
        data_size: u32,
        checksum: u32,
    ) -> (r: Self)
        ensures
            r.magic@ == spec_wal_entry_magic(),
            r.entry_type == entry_type,
            r.collection_id == collection_id,
            r.transaction_id == transaction_id,
            r.document_id == document_id,
            r.data_size == data_size,
            r.checksum == checksum,
    {
        EntryHeader {
            magic: wal_entry_magic(),
            entry_type,
            collection_id,
            transaction_id,
            document_id,
            data_size,
            checksum,
            timestamp: now_unix_seconds(),
        }
    }

    /// Total size of the header in bytes, document id included.
    pub fn size(&self) -> (r: usize)
        requires
            self.document_id@.len() + 39 <= usize::MAX,
        ensures
            r == 39 + self.document_id@.len(),
    {
        ENTRY_HEADER_FIXED_SIZE + self.document_id.len()
    }

    /// Serializes the header in wire order.
    pub fn to_bytes(&self) -> (r: Vec<u8>)
        requires
            self.document_id@.len() <= 0xFFFF,
        ensures
            r@ == spec_entry_header_bytes(*self),
    {
        let mut bytes: Vec<u8> = Vec::new();
        push_bytes(&mut bytes, self.magic.as_slice());
        bytes.push(self.entry_type.to_byte());
        let coll_bytes = u64_to_le_bytes(self.collection_id);
        push_bytes(&mut bytes, coll_bytes.as_slice());
        let tx_bytes = u64_to_le_bytes(self.transaction_id);
        push_bytes(&mut bytes, tx_bytes.as_slice());
        let id_len_bytes = u16_to_le_bytes(self.document_id.len() as u16);
        push_bytes(&mut bytes, id_len_bytes.as_slice());
        push_bytes(&mut bytes, self.document_id.as_slice());
        let size_bytes = u32_to_le_bytes(self.data_size);
        push_bytes(&mut bytes, size_bytes.as_slice());
        let checksum_bytes = u32_to_le_bytes(self.checksum);
        push_bytes(&mut bytes, checksum_bytes.as_slice());
        let ts_bytes = u64_to_le_bytes(self.timestamp);
        push_bytes(&mut bytes, ts_bytes.as_slice());
        proof {
            assert(bytes@ =~= spec_entry_header_bytes(*self));
        }
        bytes
    }
}

/// The wire form of an entry header.
pub open spec fn spec_entry_header_bytes(h: EntryHeader) -> Seq<u8> {
    h.magic@ + seq![h.entry_type.spec_code()] + spec_u64_to_le_bytes(h.collection_id)
        + spec_u64_to_le_bytes(h.transaction_id) + spec_u16_to_le_bytes(
        h.document_id@.len() as u16,
    ) + h.document_id@ + spec_u32_to_le_bytes(h.data_size) + spec_u32_to_le_bytes(h.checksum)
        + spec_u64_to_le_bytes(h.timestamp)
}

/// A complete WAL entry: header and payload.
#[derive(Debug, Clone)]
pub struct WalEntry {
    /// Entry header.
    pub header: EntryHeader,
    /// Entry payload.
    pub data: Vec<u8>,
}

/// The wire form of a complete entry.
pub open spec fn spec_wal_entry_bytes(e: WalEntry) -> Seq<u8> {
    spec_entry_header_bytes(e.header) + e.data@
}

/// The parsed fields of one framed entry, as the model speaks of them.
pub struct WalEntryModel {
    /// Wire code of the entry type.
    pub entry_type: u8,
    /// Collection the entry belongs to.
    pub collection_id: u64,
    /// Transaction the entry belongs to; 0 outside transactions.
    pub transaction_id: u64,
    /// Document id the entry speaks of.
    pub document_id: Seq<u8>,
    /// Payload bytes.
    pub data: Seq<u8>,
    /// Creation time recorded in the header.
    pub timestamp: u64,
}

/// The outcome of parsing one entry from the front of a buffer.
pub enum WalParse {
    /// Too few bytes for a full frame: the clean end of a torn log.
    Truncated,
    /// A full-looking frame that is not an entry: wrong magic, unknown
    /// type code, or a checksum mismatch.
    Malformed,
    /// A parsed entry and the number of bytes its frame occupies.
    Parsed(WalEntryModel, int),
}

/// Parses one entry from the front of `b`, with the checks in wire order.
pub open spec fn parse_wal_entry(b: Seq<u8>) -> WalParse {
    if b.len() < 37 {
        WalParse::Truncated
    } else if b.subrange(0, 4) != spec_wal_entry_magic() {
        WalParse::Malformed
    } else if b[4] > 7 {
        WalParse::Malformed
    } else {
        let id_len = spec_u16_from_le_bytes(b.subrange(21, 23)) as int;
        if b.len() < 39 + id_len {
            WalParse::Truncated
        } else {
            let data_size = spec_u32_from_le_bytes(b.subrange(23 + id_len, 27 + id_len)) as int;
            if b.len() < 39 + id_len + data_size {
                WalParse::Truncated
            } else {
                let checksum = spec_u32_from_le_bytes(b.subrange(27 + id_len, 31 + id_len));
                let data = b.subrange(39 + id_len, 39 + id_len + data_size);
                if sum_bytes(data) != checksum {
                    WalParse::Malformed
                } else {
                    WalParse::Parsed(
                        WalEntryModel {
                            entry_type: b[4],
                            collection_id: spec_u64_from_le_bytes(b.subrange(5, 13)),
                            transaction_id: spec_u64_from_le_bytes(b.subrange(13, 21)),
                            document_id: b.subrange(23, 23 + id_len),
                            data,
                            timestamp: spec_u64_from_le_bytes(
                                b.subrange(31 + id_len, 39 + id_len),
                            ),
                        },
                        39 + id_len + data_size,
                    )
                }
            }
        }
    }
}

/// The error with which an entry decode fails, checked in wire order.
pub open spec fn spec_wal_decode_err(b: Seq<u8>) -> Error {
    if b.len() < 37 {
        Error::Truncated
    } else if b.subrange(0, 4) != spec_wal_entry_magic() {
        Error::BadMagic
    } else if b[4] > 7 {
        Error::CorruptedEntry
    } else {
        let id_len = spec_u16_from_le_bytes(b.subrange(21, 23)) as int;
        if b.len() < 39 + id_len {
            Error::Truncated
        } else {
            let data_size = spec_u32_from_le_bytes(b.subrange(23 + id_len, 27 + id_len)) as int;
            if b.len() < 39 + id_len + data_size {
                Error::Truncated
            } else {
                Error::CorruptedEntry
            }
        }
    }
}

impl WalEntry {
    /// An entry the engine built: the entry magic, a document id that fits
    /// its length field, and size and checksum that match the payload.
    pub open spec fn wf(&self) -> bool {
        &&& self.header.magic@ == spec_wal_entry_magic()
        &&& self.header.document_id@.len() <= 0xFFFF
        &&& self.data@.len() <= 0xFFFF_FFFF
        &&& self.header.data_size == self.data@.len()
        &&& self.header.checksum == sum_bytes(self.data@)
    }

    /// The model view of this entry.
    pub open spec fn model(&self) -> WalEntryModel {
        WalEntryModel {
            entry_type: self.header.entry_type.spec_code(),
            collection_id: self.header.collection_id,
            transaction_id: self.header.transaction_id,
            document_id: self.header.document_id@,
            data: self.data@,
            timestamp: self.header.timestamp,
        }
    }

    /// Creates an entry: sums the payload into the checksum and records the
    /// payload size.
    pub fn new(
        entry_type: EntryType,
        collection_id: u64,
        transaction_id: u64,
        document_id: Vec<u8>,
        data: Vec<u8>,
    ) -> (r: Self)
        requires
            document_id@.len() <= 0xFFFF,
            data@.len() <= 0xFFFF_FFFF,
        ensures
            r.wf(),
            r.header.entry_type == entry_type,
            r.header.collection_id == collection_id,
            r.header.transaction_id == transaction_id,
            r.header.document_id@ == document_id@,
            r.data@ == data@,
    {
        let checksum = wrapping_sum(data.as_slice());
        let data_size = data.len() as u32;
        let header = EntryHeader::new(
            entry_type,
            collection_id,
            transaction_id,
            document_id,
            data_size,
            checksum,
        );
        WalEntry { header, data }
    }

    /// A checkpoint marker for a collection.
    pub fn checkpoint(collection_id: u64) -> (r: Self)
        ensures
            r.wf(),
            r.header.entry_type == EntryType::Checkpoint,
            r.header.collection_id == collection_id,
            r.header.transaction_id == 0,
            r.header.document_id@.len() == 0,
            r.data@.len() == 0,
    {
        Self::new(EntryType::Checkpoint, collection_id, 0, Vec::new(), Vec::new())
    }

    /// A transaction begin marker.
    pub fn begin_tx(transaction_id: u64) -> (r: Self)
        ensures
            r.wf(),
            r.header.entry_type == EntryType::BeginTx,
            r.header.collection_id == 0,
            r.header.transaction_id == transaction_id,
            r.header.document_id@.len() == 0,
            r.data@.len() == 0,
    {
        Self::new(EntryType::BeginTx, 0, transaction_id, Vec::new(), Vec::new())
    }

    /// A transaction commit marker.
    pub fn commit_tx(transaction_id: u64) -> (r: Self)
        ensures
            r.wf(),
            r.header.entry_type == EntryType::CommitTx,
            r.header.collection_id == 0,
            r.header.transaction_id == transaction_id,
            r.header.document_id@.len() == 0,
            r.data@.len() == 0,
    {
        Self::new(EntryType::CommitTx, 0, transaction_id, Vec::new(), Vec::new())
    }

    /// A transaction abort marker.
    pub fn abort_tx(transaction_id: u64) -> (r: Self)
        ensures
            r.wf(),
            r.header.entry_type == EntryType::AbortTx,
            r.header.collection_id == 0,
            r.header.transaction_id == transaction_id,
            r.header.document_id@.len() == 0,
            r.data@.len() == 0,
    {
        Self::new(EntryType::AbortTx, 0, transaction_id, Vec::new(), Vec::new())
    }

    /// Total size of the entry in bytes.
    pub fn size(&self) -> (r: usize)
        requires
            39 + self.header.document_id@.len() + self.data@.len() <= usize::MAX,
        ensures
            r == 39 + self.header.document_id@.len() + self.data@.len(),
    {
        self.header.size() + self.data.len()
    }

    /// Serializes the entry: header in wire order, then the payload.
    pub fn to_bytes(&self) -> (r: Vec<u8>)
        requires
            self.header.document_id@.len() <= 0xFFFF,
        ensures
            r@ == spec_wal_entry_bytes(*self),
    {
        let mut bytes = self.header.to_bytes();
        push_bytes(&mut bytes, self.data.as_slice());
        bytes
    }

    /// Parses one entry from the front of `bytes` and reports how many
    /// bytes its frame occupies. The payload checksum is verified.
    pub fn from_bytes(bytes: &[u8]) -> (r: Result<(Self, usize), Error>)
        ensures
            r is Ok <==> parse_wal_entry(bytes@) is Parsed,
            r is Ok ==> {
                let (m, n) = (r->Ok_0.0.model(), r->Ok_0.1);
                &&& parse_wal_entry(bytes@) == WalParse::Parsed(m, n as int)
                &&& r->Ok_0.0.wf()
            },
            r is Err ==> r->Err_0 == spec_wal_decode_err(bytes@),
    {
        if bytes.len() < 37 {
            return Err(Error::Truncated);
        }
        let magic = wal_entry_magic();
        let magic_slice = slice_subrange(bytes, 0, 4);
        if !bytes_equal(magic_slice, magic.as_slice()) {
            return Err(Error::BadMagic);
        }
        let entry_type = match EntryType::from_byte(bytes[4]) {
            Ok(t) => t,
            Err(_) => {
                return Err(Error::CorruptedEntry);
            },
        };
        let collection_id = u64_from_le_bytes(slice_subrange(bytes, 5, 13));
        let transaction_id = u64_from_le_bytes(slice_subrange(bytes, 13, 21));
        let id_len = u16_from_le_bytes(slice_subrange(bytes, 21, 23)) as usize;
        if bytes.len() < 39 || bytes.len() - 39 < id_len {
            assert(bytes@.len() < 39 + id_len);
            return Err(Error::Truncated);
        }
        let document_id = slice_to_vec(slice_subrange(bytes, 23, 23 + id_len));
        let data_size = u32_from_le_bytes(slice_subrange(bytes, 23 + id_len, 27 + id_len));
        let checksum = u32_from_le_bytes(slice_subrange(bytes, 27 + id_len, 31 + id_len));
        let timestamp = u64_from_le_bytes(slice_subrange(bytes, 31 + id_len, 39 + id_len));
        if ((bytes.len() - 39 - id_len) as u64) < (data_size as u64) {
            assert(bytes@.len() < 39 + id_len + data_size);
            return Err(Error::Truncated);
        }
        let data_len = data_size as usize;
        let data = slice_to_vec(slice_subrange(bytes, 39 + id_len, 39 + id_len + data_len));
        let computed = wrapping_sum(data.as_slice());
        if computed != checksum {
            return Err(Error::CorruptedEntry);
        }
        let header = EntryHeader {
            magic,
            entry_type,
            collection_id,
            transaction_id,
            document_id,
            data_size,
            checksum,
            timestamp,
        };
        let consumed = 39 + id_len + data_len;
        let entry = WalEntry { header, data };
        proof {
            let parsed = parse_wal_entry(bytes@);
            assert(parsed is Parsed);
            assert(parsed->Parsed_0 == entry.model());
            assert(parsed->Parsed_1 == consumed as int);
        }
        Ok((entry, consumed))
    }
}

/// The wire form of any well-formed entry parses back to its own model,
/// whatever follows it in the buffer.
pub proof fn lemma_wal_entry_round_trip(e: WalEntry, rest: Seq<u8>)
    requires
        e.wf(),
    ensures
        spec_wal_entry_bytes(e).len() == 39 + e.header.document_id@.len() + e.data@.len(),
        parse_wal_entry(spec_wal_entry_bytes(e) + rest) == WalParse::Parsed(
            e.model(),
            spec_wal_entry_bytes(e).len() as int,
        ),
{
    lemma_auto_spec_u16_to_from_le_bytes();
    lemma_auto_spec_u32_to_from_le_bytes();
    lemma_auto_spec_u64_to_from_le_bytes();
    let eb = spec_wal_entry_bytes(e);
    let l = e.header.document_id@.len() as int;
    let d = e.data@.len() as int;
    let b = eb + rest;
    assert(eb.len() == 39 + l + d);
    assert(b.subrange(0, 4) =~= e.header.magic@);
    assert(b[4] == e.header.entry_type.spec_code());
    assert(e.header.entry_type.spec_code() <= 7);
    assert(b.subrange(5, 13) =~= spec_u64_to_le_bytes(e.header.collection_id));
    assert(b.subrange(13, 21) =~= spec_u64_to_le_bytes(e.header.transaction_id));
    assert(b.subrange(21, 23) =~= spec_u16_to_le_bytes(e.header.document_id@.len() as u16));
    assert(spec_u16_from_le_bytes(b.subrange(21, 23)) == l);
    assert(b.subrange(23, 23 + l) =~= e.header.document_id@);
    assert(b.subrange(23 + l, 27 + l) =~= spec_u32_to_le_bytes(e.header.data_size));
    assert(spec_u32_from_le_bytes(b.subrange(23 + l, 27 + l)) == d);
    assert(b.subrange(27 + l, 31 + l) =~= spec_u32_to_le_bytes(e.header.checksum));
    assert(b.subrange(31 + l, 39 + l) =~= spec_u64_to_le_bytes(e.header.timestamp));
    assert(b.subrange(39 + l, 39 + l + d) =~= e.data@);
}

/// Any strict prefix of a well-formed entry's wire form parses as
/// truncated: a torn tail never looks like a different entry.
pub proof fn lemma_wal_entry_prefix_truncated(e: WalEntry, k: int)
    requires
        e.wf(),
        0 <= k < spec_wal_entry_bytes(e).len(),
    ensures
        parse_wal_entry(spec_wal_entry_bytes(e).subrange(0, k)) is Truncated,
{
    lemma_auto_spec_u16_to_from_le_bytes();
    lemma_auto_spec_u32_to_from_le_bytes();
    lemma_auto_spec_u64_to_from_le_bytes();
    let eb = spec_wal_entry_bytes(e);
    let l = e.header.document_id@.len() as int;
    let d = e.data@.len() as int;
    let p = eb.subrange(0, k);
    if k < 37 {
    } else {
        assert(p.subrange(0, 4) =~= e.header.magic@);
        assert(p[4] == e.header.entry_type.spec_code());
        assert(e.header.entry_type.spec_code() <= 7);
        assert(p.subrange(21, 23) =~= spec_u16_to_le_bytes(e.header.document_id@.len() as u16));
        assert(spec_u16_from_le_bytes(p.subrange(21, 23)) == l);
        if k < 39 + l {
        } else {
            assert(p.subrange(23 + l, 27 + l) =~= spec_u32_to_le_bytes(e.header.data_size));
            assert(spec_u32_from_le_bytes(p.subrange(23 + l, 27 + l)) == d);
            assert(k < 39 + l + d);
        }
    }
}

} // verus!
