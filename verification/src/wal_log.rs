//! WAL log file operations over the in-memory image of one `.wal` file.
//!
//! A log file is a 16-byte preamble — magic `"NBWA"`, a version byte, three
//! reserved zero bytes, a creation timestamp — followed by framed entries to
//! the end of the file. Iteration walks the frames in order and treats a
//! truncated tail as the clean end of the log: torn writes are not errors.
//! The surrounding binary loads the image when the log opens and persists
//! the appended bytes, honouring `sync_on_write`.

use vstd::prelude::*;
use vstd::bytes::{spec_u64_to_le_bytes, u64_to_le_bytes};
use vstd::slice::slice_subrange;
use crate::bytesutil::{push_bytes, bytes_equal};
use crate::clock::now_unix_seconds;
use crate::errors::{Error, WalError};
use crate::wal_entry::{
    parse_wal_entry, spec_wal_entry_bytes, WalEntry, WalEntryModel, WalParse,
    lemma_wal_entry_round_trip, lemma_wal_entry_prefix_truncated,
};

verus! {

/// WAL log file format version.
pub const WAL_FORMAT_VERSION: u8 = 1;

/// WAL log file preamble size in bytes.
pub const WAL_HEADER_SIZE: usize = 16;

/// The WAL file magic, for contracts: the bytes of `"NBWA"`.
pub open spec fn spec_wal_file_magic() -> Seq<u8> {
    seq![0x4Eu8, 0x42u8, 0x57u8, 0x41u8]
}

/// The WAL file magic `"NBWA"`, as written to disk.
pub fn wal_file_magic() -> (r: [u8; 4])
    ensures
        r@ == spec_wal_file_magic(),
{
    let r: [u8; 4] = [0x4E, 0x42, 0x57, 0x41];
    proof {
        assert(r@ =~= spec_wal_file_magic());
    }
    r
}

/// The 16-byte preamble of a WAL file created at the given time.
pub open spec fn spec_wal_file_header(created_at: u64) -> Seq<u8> {
    spec_wal_file_magic() + seq![1u8, 0u8, 0u8, 0u8] + spec_u64_to_le_bytes(created_at)
}

/// The entries framed in `b` starting at `pos`: each with its position,
/// walked until the end of the buffer or the first frame that does not
/// parse.
pub open spec fn wal_entries_from(b: Seq<u8>, pos: int) -> Seq<(int, WalEntryModel)>
    decreases b.len() - pos,
{
    if pos < 0 || pos >= b.len() {
        Seq::empty()
    } else {
        match parse_wal_entry(b.subrange(pos, b.len() as int)) {
            WalParse::Parsed(m, n) => seq![(pos, m)] + wal_entries_from(b, pos + n),
            _ => Seq::empty(),
        }
    }
}

/// Whether the walk from `pos` ends cleanly: at the end of the buffer or at
/// a truncated tail, never at a malformed frame.
pub open spec fn wal_tail_clean(b: Seq<u8>, pos: int) -> bool
    decreases b.len() - pos,
{
    if pos < 0 || pos >= b.len() {
        true
    } else {
        match parse_wal_entry(b.subrange(pos, b.len() as int)) {
            WalParse::Parsed(m, n) => wal_tail_clean(b, pos + n),
            WalParse::Truncated => true,
            WalParse::Malformed => false,
        }
    }
}

/// Whether the walk from `pos` consumes the buffer exactly: full frames to
/// the very end, as a log written without a crash looks.
pub open spec fn wal_framed(b: Seq<u8>, pos: int) -> bool
    decreases b.len() - pos,
{
    if pos == b.len() {
        true
    } else if pos < 0 || pos > b.len() {
        false
    } else {
        match parse_wal_entry(b.subrange(pos, b.len() as int)) {
            WalParse::Parsed(m, n) => wal_framed(b, pos + n),
            _ => false,
        }
    }
}

/// A parse of a frame is also a parse of any extension of the buffer.
pub proof fn lemma_parse_wal_entry_extend(x: Seq<u8>, c: Seq<u8>)
    requires
        parse_wal_entry(x) is Parsed,
    ensures
        parse_wal_entry(x + c) == parse_wal_entry(x),
{
    let xc = x + c;
    assert(xc.subrange(0, 4) =~= x.subrange(0, 4));
    assert(xc[4] == x[4]);
    assert(xc.subrange(21, 23) =~= x.subrange(21, 23));
    let id_len = vstd::bytes::spec_u16_from_le_bytes(x.subrange(21, 23)) as int;
    assert(xc.subrange(23 + id_len, 27 + id_len) =~= x.subrange(23 + id_len, 27 + id_len));
    let data_size = vstd::bytes::spec_u32_from_le_bytes(
        x.subrange(23 + id_len, 27 + id_len),
    ) as int;
    assert(xc.subrange(27 + id_len, 31 + id_len) =~= x.subrange(27 + id_len, 31 + id_len));
    assert(xc.subrange(39 + id_len, 39 + id_len + data_size) =~= x.subrange(
        39 + id_len,
        39 + id_len + data_size,
    ));
    assert(xc.subrange(5, 13) =~= x.subrange(5, 13));
    assert(xc.subrange(13, 21) =~= x.subrange(13, 21));
    assert(xc.subrange(23, 23 + id_len) =~= x.subrange(23, 23 + id_len));
    assert(xc.subrange(31 + id_len, 39 + id_len) =~= x.subrange(31 + id_len, 39 + id_len));
}

/// Appending one well-formed entry to a fully framed log extends the walk
/// by exactly that entry, at the old end of the log.
pub proof fn lemma_wal_append(b: Seq<u8>, e: WalEntry, pos: int)
    requires
        e.wf(),
        0 <= pos <= b.len(),
        wal_framed(b, pos),
    ensures
        wal_framed(b + spec_wal_entry_bytes(e), pos),
        wal_entries_from(b + spec_wal_entry_bytes(e), pos) == wal_entries_from(b, pos).push(
            (b.len() as int, e.model()),
        ),
    decreases b.len() - pos,
{
    let eb = spec_wal_entry_bytes(e);
    let bb = b + eb;
    lemma_wal_entry_round_trip(e, Seq::empty());
    if pos == b.len() {
        assert(bb.subrange(pos, bb.len() as int) =~= eb);
        assert(eb + Seq::<u8>::empty() =~= eb);
        assert(parse_wal_entry(eb) == WalParse::Parsed(e.model(), eb.len() as int));
        assert(wal_entries_from(bb, pos + eb.len()) =~= Seq::<(int, WalEntryModel)>::empty());
        assert(wal_entries_from(bb, pos) =~= seq![(pos, e.model())]);
        assert(wal_entries_from(b, pos) =~= Seq::<(int, WalEntryModel)>::empty());
        assert(wal_entries_from(b, pos).push((b.len() as int, e.model())) =~= seq![
            (pos, e.model()),
        ]);
        assert(wal_framed(bb, pos + eb.len()));
    } else {
        let x = b.subrange(pos, b.len() as int);
        let (m, n) = match parse_wal_entry(x) {
            WalParse::Parsed(m, n) => (m, n),
            _ => arbitrary(),
        };
        lemma_parse_wal_entry_extend(x, eb);
        assert(bb.subrange(pos, bb.len() as int) =~= x + eb);
        lemma_wal_append(b, e, pos + n);
        assert(wal_entries_from(bb, pos) =~= seq![(pos, m)] + wal_entries_from(bb, pos + n));
        assert(wal_entries_from(b, pos) =~= seq![(pos, m)] + wal_entries_from(b, pos + n));
        assert(seq![(pos, m)] + wal_entries_from(b, pos + n).push((b.len() as int, e.model()))
            =~= (seq![(pos, m)] + wal_entries_from(b, pos + n)).push((b.len() as int, e.model())));
    }
}

/// A fully framed log followed by a strict prefix of one more entry — a
/// torn final write — still iterates cleanly, to exactly the entries that
/// were fully framed.
pub proof fn lemma_wal_torn_tail(b: Seq<u8>, e: WalEntry, k: int, pos: int)
    requires
        e.wf(),
        0 <= pos <= b.len(),
        wal_framed(b, pos),
        0 <= k < spec_wal_entry_bytes(e).len(),
    ensures
        wal_tail_clean(b + spec_wal_entry_bytes(e).subrange(0, k), pos),
        wal_entries_from(b + spec_wal_entry_bytes(e).subrange(0, k), pos) == wal_entries_from(
            b,
            pos,
        ),
    decreases b.len() - pos,
{
    let p = spec_wal_entry_bytes(e).subrange(0, k);
    let bb = b + p;
    if pos == b.len() {
        lemma_wal_entry_prefix_truncated(e, k);
        if k == 0 {
            assert(wal_entries_from(bb, pos) =~= Seq::<(int, WalEntryModel)>::empty());
        } else {
            assert(bb.subrange(pos, bb.len() as int) =~= p);
            assert(parse_wal_entry(p) is Truncated);
            assert(wal_entries_from(bb, pos) =~= Seq::<(int, WalEntryModel)>::empty());
        }
        assert(wal_entries_from(b, pos) =~= Seq::<(int, WalEntryModel)>::empty());
    } else {
        let x = b.subrange(pos, b.len() as int);
        let (m, n) = match parse_wal_entry(x) {
            WalParse::Parsed(m, n) => (m, n),
            _ => arbitrary(),
        };
        lemma_parse_wal_entry_extend(x, p);
        assert(bb.subrange(pos, bb.len() as int) =~= x + p);
        lemma_wal_torn_tail(b, e, k, pos + n);
        assert(wal_entries_from(bb, pos) =~= seq![(pos, m)] + wal_entries_from(bb, pos + n));
        assert(wal_entries_from(b, pos) =~= seq![(pos, m)] + wal_entries_from(b, pos + n));
    }
}

/// The views of iterated entries, for contracts.
pub open spec fn iter_views(s: Seq<(u64, WalEntry)>) -> Seq<(int, WalEntryModel)> {
    s.map_values(|p: (u64, WalEntry)| (p.0 as int, p.1.model()))
}

/// A write-ahead log file, held as the image of its bytes.
#[derive(Debug, Clone)]
pub struct WalLog {
    /// The full file image, preamble included.
    pub bytes: Vec<u8>,
    /// Whether the caller must force durability after every append.
    pub sync_on_write: bool,
}

impl WalLog {
    /// A log image with a sound preamble.
    pub open spec fn wf(&self) -> bool {
        &&& self.bytes@.len() >= 16
        &&& self.bytes@.subrange(0, 4) == spec_wal_file_magic()
        &&& self.bytes@[4] == 1
    }

    /// The framed entries the log holds.
    pub open spec fn entries(&self) -> Seq<(int, WalEntryModel)> {
        wal_entries_from(self.bytes@, 16)
    }

    /// Creates a new, empty log: a preamble stamped with the current time
    /// and nothing after it.
    pub fn create(sync_on_write: bool) -> (r: Self)
        ensures
            r.wf(),
            r.bytes@.len() == 16,
            r.sync_on_write == sync_on_write,
            r.entries() == Seq::<(int, WalEntryModel)>::empty(),
            wal_framed(r.bytes@, 16),
            exists|ts: u64| r.bytes@ == spec_wal_file_header(ts),
    {
        let mut bytes: Vec<u8> = Vec::new();
        let magic = wal_file_magic();
        push_bytes(&mut bytes, magic.as_slice());
        bytes.push(WAL_FORMAT_VERSION);
        bytes.push(0);
        bytes.push(0);
        bytes.push(0);
        let timestamp = now_unix_seconds();
        let ts_bytes = u64_to_le_bytes(timestamp);
        push_bytes(&mut bytes, ts_bytes.as_slice());
        let r = WalLog { bytes, sync_on_write };
        proof {
            vstd::bytes::lemma_auto_spec_u64_to_from_le_bytes();
            assert(r.bytes@.len() == 16);
            assert(r.bytes@.subrange(0, 4) =~= spec_wal_file_magic());
            assert(r.entries() =~= Seq::<(int, WalEntryModel)>::empty());
            assert(r.bytes@ =~= spec_wal_file_header(timestamp));
        }
        r
    }

    /// Opens a log from the image of an existing file: the preamble must
    /// carry the file magic and a known version.
    pub fn open(bytes: Vec<u8>, sync_on_write: bool) -> (r: Result<Self, WalError>)
        ensures
            r is Ok <==> (bytes@.len() >= 16 && bytes@.subrange(0, 4) == spec_wal_file_magic()
                && bytes@[4] == 1),
            r is Ok ==> r->Ok_0.wf() && r->Ok_0.bytes@ == bytes@ && r->Ok_0.sync_on_write
                == sync_on_write,
            r is Err ==> r->Err_0 is InvalidSegment,
    {
        if bytes.len() < WAL_HEADER_SIZE {
            return Err(WalError::InvalidSegment);
        }
        let magic = wal_file_magic();
        let front = slice_subrange(bytes.as_slice(), 0, 4);
        if !bytes_equal(front, magic.as_slice()) {
            return Err(WalError::InvalidSegment);
        }
        if bytes[4] != WAL_FORMAT_VERSION {
            return Err(WalError::InvalidSegment);
        }
        Ok(WalLog { bytes, sync_on_write })
    }

    /// Appends an entry at the end of the log and returns its position.
    /// The caller persists the new bytes; with `sync_on_write` it must
    /// force durability before acting on the returned position.
    pub fn append(&mut self, entry: &WalEntry) -> (r: Result<u64, WalError>)
        requires
            old(self).wf(),
            entry.wf(),
        ensures
            final(self).wf(),
            final(self).sync_on_write == old(self).sync_on_write,
            r is Ok <==> old(self).bytes@.len() + 39 + entry.header.document_id@.len()
                + entry.data@.len() <= usize::MAX,
            r is Ok ==> {
                &&& final(self).bytes@ == old(self).bytes@ + spec_wal_entry_bytes(*entry)
                &&& r->Ok_0 == old(self).bytes@.len()
            },
            r is Err ==> *final(self) == *old(self) && r->Err_0 is SegmentFull,
    {
        proof {
            vstd::bytes::lemma_auto_spec_u16_to_from_le_bytes();
            vstd::bytes::lemma_auto_spec_u32_to_from_le_bytes();
            vstd::bytes::lemma_auto_spec_u64_to_from_le_bytes();
        }
        let pos = self.bytes.len();
        let entry_len_wide: u64 = 39u64 + (entry.header.document_id.len() as u64) + (
        entry.data.len() as u64);
        if entry_len_wide > (usize::MAX as u64) - (pos as u64) {
            return Err(WalError::SegmentFull);
        }
        let entry_bytes = entry.to_bytes();
        push_bytes(&mut self.bytes, entry_bytes.as_slice());
        proof {
            assert(self.bytes@.subrange(0, 4) =~= old(self).bytes@.subrange(0, 4));
        }
        Ok(pos as u64)
    }

    /// The current size of the log in bytes.
    pub fn size(&self) -> (r: u64)
        ensures
            r == self.bytes@.len(),
    {
        self.bytes.len() as u64
    }

    /// Whether the log holds nothing beyond its preamble.
    pub fn is_empty(&self) -> (r: bool)
        ensures
            r == (self.bytes@.len() <= 16),
    {
        self.bytes.len() <= WAL_HEADER_SIZE
    }

    /// The log's file image, for the caller that persists it.
    pub fn file_bytes(&self) -> (r: &Vec<u8>)
        ensures
            r@ == self.bytes@,
    {
        &self.bytes
    }

    /// Reads the entry framed at the given position.
    pub fn read_at(&self, position: u64) -> (r: Result<WalEntry, WalError>)
        requires
            self.wf(),
        ensures
            r is Ok <==> (16 <= position < self.bytes@.len() && parse_wal_entry(
                self.bytes@.subrange(position as int, self.bytes@.len() as int),
            ) is Parsed),
            r is Ok ==> r->Ok_0.wf() && parse_wal_entry(
                self.bytes@.subrange(position as int, self.bytes@.len() as int),
            ) == WalParse::Parsed(
                r->Ok_0.model(),
                39 + r->Ok_0.header.document_id@.len() as int + r->Ok_0.data@.len() as int,
            ),
            r is Err ==> (r->Err_0 is CorruptedEntry || r->Err_0 is Other),
    {
        let len = self.bytes.len();
        if position < (WAL_HEADER_SIZE as u64) || position >= (len as u64) {
            return Err(WalError::Other("invalid WAL position".to_owned()));
        }
        let pos = position as usize;
        let window = slice_subrange(self.bytes.as_slice(), pos, len);
        match WalEntry::from_bytes(window) {
            Ok((entry, consumed)) => {
                proof {
                    assert(parse_wal_entry(window@) == WalParse::Parsed(
                        entry.model(),
                        consumed as int,
                    ));
                }
                Ok(entry)
            },
            Err(Error::CorruptedEntry) => Err(WalError::CorruptedEntry),
            Err(_) => Err(WalError::Other("invalid WAL entry".to_owned())),
        }
    }

    /// Walks every framed entry from the front of the log, each with its
    /// position. A truncated tail ends the walk cleanly — it models a
    /// crash-torn final write — while a malformed frame is an error.
    pub fn iterate(&self) -> (r: Result<Vec<(u64, WalEntry)>, WalError>)
        requires
            self.wf(),
        ensures
            r is Ok <==> wal_tail_clean(self.bytes@, 16),
            r is Ok ==> iter_views(r->Ok_0@) == self.entries(),
            r is Ok ==> forall|i: int|
                0 <= i < r->Ok_0@.len() ==> (#[trigger] r->Ok_0@[i]).1.wf(),
            r is Err ==> (r->Err_0 is CorruptedEntry || r->Err_0 is Other),
    {
        let len = self.bytes.len();
        let mut out: Vec<(u64, WalEntry)> = Vec::new();
        let mut pos: usize = WAL_HEADER_SIZE;
        let mut clean_end: bool = false;
        proof {
            assert(iter_views(out@) =~= Seq::<(int, WalEntryModel)>::empty());
        }
        while pos < len && !clean_end
            invariant
                16 <= pos <= len,
                len == self.bytes@.len(),
                self.wf(),
                self.entries() == iter_views(out@) + wal_entries_from(self.bytes@, pos as int),
                wal_tail_clean(self.bytes@, 16) == wal_tail_clean(self.bytes@, pos as int),
                forall|i: int| 0 <= i < out@.len() ==> (#[trigger] out@[i]).1.wf(),
                clean_end ==> wal_tail_clean(self.bytes@, pos as int) && wal_entries_from(
                    self.bytes@,
                    pos as int,
                ) == Seq::<(int, WalEntryModel)>::empty(),
            decreases len - pos, (if clean_end { 0int } else { 1int }),
        {
            let window = slice_subrange(self.bytes.as_slice(), pos, len);
            let ghost pre_out = out@;
            match WalEntry::from_bytes(window) {
                Ok((entry, consumed)) => {
                    proof {
                        assert(parse_wal_entry(window@) == WalParse::Parsed(
                            entry.model(),
                            consumed as int,
                        ));
                        assert(wal_entries_from(self.bytes@, pos as int) =~= seq![
                            (pos as int, entry.model()),
                        ] + wal_entries_from(self.bytes@, pos + consumed));
                    }
                    let position = pos as u64;
                    pos = pos + consumed;
                    out.push((position, entry));
                    proof {
                        assert(iter_views(out@) =~= iter_views(pre_out).push(
                            (position as int, out@.last().1.model()),
                        ));
                        assert(iter_views(pre_out) + (seq![(position as int, out@.last().1.model())]
                            + wal_entries_from(self.bytes@, pos as int)) =~= iter_views(out@)
                            + wal_entries_from(self.bytes@, pos as int));
                    }
                },
                Err(Error::Truncated) => {
                    proof {
                        assert(parse_wal_entry(window@) is Truncated);
                        assert(wal_entries_from(self.bytes@, pos as int) =~= Seq::<
                            (int, WalEntryModel),
                        >::empty());
                    }
                    clean_end = true;
                },
                Err(Error::CorruptedEntry) => {
                    proof {
                        assert(parse_wal_entry(window@) is Malformed);
                        assert(!wal_tail_clean(self.bytes@, pos as int));
                    }
                    return Err(WalError::CorruptedEntry);
                },
                Err(_) => {
                    proof {
                        assert(parse_wal_entry(window@) is Malformed);
                        assert(!wal_tail_clean(self.bytes@, pos as int));
                    }
                    return Err(WalError::Other("invalid WAL entry".to_owned()));
                },
            }
        }
        proof {
            if !clean_end {
                assert(pos == len);
                assert(wal_entries_from(self.bytes@, pos as int) =~= Seq::<
                    (int, WalEntryModel),
                >::empty());
            }
            assert(self.entries() =~= iter_views(out@));
        }
        Ok(out)
    }
}

/// Framing invariant of the log: each iterated entry is followed by exactly
/// the payload its header declares, so the next entry — or the end of the
/// walk — begins right after those bytes.
pub proof fn lemma_wal_framing(b: Seq<u8>, pos: int)
    ensures
        forall|i: int|
            0 <= i < wal_entries_from(b, pos).len() - 1 ==> {
                let (p, m) = #[trigger] wal_entries_from(b, pos)[i];
                wal_entries_from(b, pos)[i + 1].0 == p + 39 + m.document_id.len() + m.data.len()
            },
        wal_entries_from(b, pos).len() > 0 ==> {
            let (p, m) = wal_entries_from(b, pos).last();
            p + 39 + m.document_id.len() + m.data.len() <= b.len()
        },
    decreases b.len() - pos,
{
    if 0 <= pos < b.len() {
        match parse_wal_entry(b.subrange(pos, b.len() as int)) {
            WalParse::Parsed(m, n) => {
                assert(n == 39 + m.document_id.len() + m.data.len());
                lemma_wal_framing(b, pos + n);
                let es = wal_entries_from(b, pos);
                let rest = wal_entries_from(b, pos + n);
                assert forall|i: int| 0 <= i < es.len() - 1 implies {
                    let (p, mm) = #[trigger] es[i];
                    es[i + 1].0 == p + 39 + mm.document_id.len() + mm.data.len()
                } by {
                    if i == 0 {
                        if rest.len() == 0 {
                        } else {
                            assert(es[1] == rest[0]);
                            assert(rest.len() > 0 ==> rest[0].0 == pos + n) by {
                                lemma_wal_entries_head(b, pos + n);
                            }
                        }
                    } else {
                        assert(es[i] == rest[i - 1]);
                        assert(es[i + 1] == rest[i]);
                    }
                }
            },
            _ => {},
        }
    }
}

/// The first entry of a walk sits exactly at the walk's starting position.
pub proof fn lemma_wal_entries_head(b: Seq<u8>, pos: int)
    ensures
        wal_entries_from(b, pos).len() > 0 ==> wal_entries_from(b, pos)[0].0 == pos,
{
}

} // verus!
