//! Block manager: the per-collection active block and the image of the
//! collection's block file.
//!
//! The block file is a run of fixed-width slots; slot `i` occupies bytes
//! `i * block_size .. (i + 1) * block_size`. A flushed block is written at the
//! front of its slot and the rest of the slot is zero padding; the header's
//! `compressed_size` field recovers the block's true extent on read. A slot
//! that does not decode (torn write, zeroed region) is skipped by readers.
//!
//! The manager owns the file image in memory. The surrounding binary loads
//! the image when the collection opens and persists it after each flush.

use vstd::prelude::*;
use vstd::bytes::{spec_u64_from_le_bytes, u64_from_le_bytes, lemma_auto_spec_u16_to_from_le_bytes, lemma_auto_spec_u32_to_from_le_bytes, lemma_auto_spec_u64_to_from_le_bytes};
use vstd::slice::slice_subrange;
use crate::block::{
    Block, block_decode_ok, payload_entries, spec_block_bytes, spec_block_magic, BLOCK_HEADER_SIZE,
    BLOCK_FOOTER_SIZE,
};
use crate::config::StorageConfig;
use crate::errors::Error;

verus! {

/// One recovered `(id, value)` pair, as the model speaks of it.
pub type EntryPair = (Seq<u8>, Seq<u8>);

impl StorageConfig {
    /// Bounds under which the slot arithmetic stays exact: a slot holds at
    /// least an empty block, and document counts stay within `u32`.
    pub open spec fn wf(&self) -> bool {
        42 <= self.block_size <= 0x4_0000_0000
    }
}

/// The bytes of slot `i` in a block file.
pub open spec fn slot_seq(file: Seq<u8>, stride: int, i: int) -> Seq<u8> {
    file.subrange(i * stride, (i + 1) * stride)
}

/// The claimed extent of the block at the front of a slot: header, the
/// payload length named by the `compressed_size` field, footer.
pub open spec fn slot_block_len(s: Seq<u8>) -> int {
    42 + spec_u64_from_le_bytes(s.subrange(18, 26)) as int
}

/// Whether a slot holds a readable block: magic at the front, the claimed
/// extent within the slot, and that extent decoding as a block.
pub open spec fn slot_decodable(s: Seq<u8>) -> bool {
    &&& s.len() >= 42
    &&& s.subrange(0, 4) == spec_block_magic()
    &&& slot_block_len(s) <= s.len()
    &&& block_decode_ok(s.subrange(0, slot_block_len(s)))
}

/// The payload of the block held in a readable slot.
pub open spec fn slot_payload(s: Seq<u8>) -> Seq<u8> {
    s.subrange(34, slot_block_len(s) - 8)
}

/// The entries contributed by one slot: the walk of its payload when the
/// slot is readable, nothing otherwise.
pub open spec fn slot_entries(s: Seq<u8>) -> Seq<EntryPair> {
    if slot_decodable(s) {
        payload_entries(slot_payload(s))
    } else {
        Seq::empty()
    }
}

/// The entries of slots `0 .. n`, in slot order.
pub open spec fn slots_entries(file: Seq<u8>, stride: int, n: int) -> Seq<EntryPair>
    decreases n,
{
    if n <= 0 {
        Seq::empty()
    } else {
        slots_entries(file, stride, n - 1) + slot_entries(slot_seq(file, stride, n - 1))
    }
}

/// The value of the newest entry carrying `id`: the last match in the
/// sequence, since later entries shadow earlier ones.
pub open spec fn spec_find_last(entries: Seq<EntryPair>, id: Seq<u8>) -> Option<Seq<u8>>
    decreases entries.len(),
{
    if entries.len() == 0 {
        None
    } else if entries.last().0 == id {
        Some(entries.last().1)
    } else {
        spec_find_last(entries.drop_last(), id)
    }
}

/// Searching a concatenation searches the newer half first.
pub proof fn lemma_find_last_append(a: Seq<EntryPair>, b: Seq<EntryPair>, id: Seq<u8>)
    ensures
        spec_find_last(a + b, id) == if spec_find_last(b, id) is Some {
            spec_find_last(b, id)
        } else {
            spec_find_last(a, id)
        },
    decreases b.len(),
{
    if b.len() == 0 {
        assert(a + b =~= a);
    } else {
        assert((a + b).last() == b.last());
        assert((a + b).drop_last() =~= a + b.drop_last());
        lemma_find_last_append(a, b.drop_last(), id);
    }
}

/// An id is tombstone shaped when it both starts and ends with `_`.
pub open spec fn tombstone_shaped(id: Seq<u8>) -> bool {
    id.len() >= 1 && id[0] == 0x5F && id[id.len() - 1] == 0x5F
}

/// The ids a scan reports from a run of entries: every id in order, with the
/// tombstone-shaped ones left out.
pub open spec fn scan_ids_spec(entries: Seq<EntryPair>) -> Seq<Seq<u8>>
    decreases entries.len(),
{
    if entries.len() == 0 {
        Seq::empty()
    } else {
        scan_ids_spec(entries.drop_last()) + if tombstone_shaped(entries.last().0) {
            Seq::empty()
        } else {
            seq![entries.last().0]
        }
    }
}

/// The scan of a concatenation is the two scans in order.
pub proof fn lemma_scan_ids_append(a: Seq<EntryPair>, b: Seq<EntryPair>)
    ensures
        scan_ids_spec(a + b) == scan_ids_spec(a) + scan_ids_spec(b),
    decreases b.len(),
{
    if b.len() == 0 {
        assert(a + b =~= a);
        assert(scan_ids_spec(a) + scan_ids_spec(b) =~= scan_ids_spec(a));
    } else {
        assert((a + b).last() == b.last());
        assert((a + b).drop_last() =~= a + b.drop_last());
        lemma_scan_ids_append(a, b.drop_last());
        assert(scan_ids_spec(a + b) =~= scan_ids_spec(a) + scan_ids_spec(b));
    }
}

/// In every readable slot, the header magic is byte-equal to the footer
/// magic of the block it holds.
pub proof fn lemma_persisted_block_magics(s: Seq<u8>)
    requires
        slot_decodable(s),
    ensures
        s.subrange(0, 4) == s.subrange(slot_block_len(s) - 4, slot_block_len(s)),
        s.subrange(0, 4) == spec_block_magic(),
{
    let bb = s.subrange(0, slot_block_len(s));
    assert(bb.subrange(0, 4) =~= s.subrange(0, 4));
    assert(bb.subrange(bb.len() - 4, bb.len() as int) =~= s.subrange(
        slot_block_len(s) - 4,
        slot_block_len(s),
    ));
}

/// A slot of all zeros carries no magic, so readers ignore it; the other
/// slots stay readable, since each slot is judged on its own bytes.
pub proof fn lemma_zero_slot_unreadable(s: Seq<u8>)
    requires
        forall|k: int| 0 <= k < s.len() ==> s[k] == 0,
    ensures
        slot_entries(s) == Seq::<EntryPair>::empty(),
{
    if s.len() >= 42 {
        assert(s.subrange(0, 4)[0] == 0);
        assert(spec_block_magic()[0] == 0x4E);
        assert(s.subrange(0, 4) != spec_block_magic());
    }
}

/// A scan keeps whatever length bound the entry ids have.
pub proof fn lemma_scan_ids_short(entries: Seq<EntryPair>)
    requires
        forall|i: int| 0 <= i < entries.len() ==> (#[trigger] entries[i]).0.len() <= 0xFFFF,
    ensures
        forall|j: int|
            0 <= j < scan_ids_spec(entries).len() ==> (#[trigger] scan_ids_spec(entries)[j]).len()
                <= 0xFFFF,
    decreases entries.len(),
{
    if entries.len() > 0 {
        assert(forall|i: int|
            0 <= i < entries.drop_last().len() ==> (#[trigger] entries.drop_last()[i]).0.len()
                <= 0xFFFF);
        lemma_scan_ids_short(entries.drop_last());
        let head = scan_ids_spec(entries.drop_last());
        assert forall|j: int| 0 <= j < scan_ids_spec(entries).len() implies (
        #[trigger] scan_ids_spec(entries)[j]).len() <= 0xFFFF by {
            if j < head.len() {
                assert(scan_ids_spec(entries)[j] == head[j]);
            } else {
                assert(scan_ids_spec(entries)[j] == (entries[entries.len() - 1]).0);
            }
        }
    }
}

/// Every id scanned out of the slots fits the two-byte length field.
pub proof fn lemma_slots_scan_ids_short(file: Seq<u8>, stride: int, n: int)
    ensures
        forall|j: int|
            0 <= j < slots_scan(file, stride, n).len() ==> (#[trigger] slots_scan(
                file,
                stride,
                n,
            )[j]).len() <= 0xFFFF,
    decreases n,
{
    if n > 0 {
        lemma_slots_scan_ids_short(file, stride, n - 1);
        let s = slot_seq(file, stride, n - 1);
        crate::block::lemma_payload_entry_ids_short(slot_payload(s));
        lemma_scan_ids_short(slot_entries(s));
        let head = slots_scan(file, stride, n - 1);
        let tail = scan_ids_spec(slot_entries(s));
        assert forall|j: int| 0 <= j < slots_scan(file, stride, n).len() implies (
        #[trigger] slots_scan(file, stride, n)[j]).len() <= 0xFFFF by {
            if j < head.len() {
                assert(slots_scan(file, stride, n)[j] == head[j]);
            } else {
                assert(slots_scan(file, stride, n)[j] == tail[j - head.len()]);
            }
        }
    }
}

/// The views of a vector of byte vectors, for contracts over id lists.
pub open spec fn views_of(vs: Seq<Vec<u8>>) -> Seq<Seq<u8>> {
    vs.map_values(|v: Vec<u8>| v@)
}

/// Slots below `n` read the same in two files that agree below `n * stride`.
pub proof fn lemma_slots_entries_same(file1: Seq<u8>, file2: Seq<u8>, stride: int, n: int)
    requires
        stride > 0,
        n >= 0,
        n * stride <= file1.len(),
        n * stride <= file2.len(),
        forall|k: int| 0 <= k < n * stride ==> file1[k] == file2[k],
    ensures
        slots_entries(file1, stride, n) == slots_entries(file2, stride, n),
    decreases n,
{
    if n > 0 {
        assert((n - 1) * stride >= 0 && (n - 1) * stride + stride == n * stride) by (nonlinear_arith)
            requires
                stride > 0,
                n > 0,
        ;
        lemma_slots_entries_same(file1, file2, stride, n - 1);
        assert(slot_seq(file1, stride, n - 1) =~= slot_seq(file2, stride, n - 1));
    }
}

/// Block manager for one collection.
#[derive(Debug, Clone)]
pub struct BlockManager {
    /// Name of the collection.
    pub name: String,
    /// Storage configuration; `block_size` is the slot stride.
    pub config: StorageConfig,
    /// The block being filled, if any.
    pub active_block: Option<Block>,
    /// Index of the slot the next flush writes.
    pub current_block_idx: usize,
    /// In-memory image of the collection's block file.
    pub file: Vec<u8>,
}

impl BlockManager {
    /// The slot stride, for contracts.
    pub open spec fn spec_stride(&self) -> int {
        self.config.block_size as int
    }

    /// The manager's invariant: sound configuration, a slot index that names
    /// the first slot not fully present in the file, and an active block
    /// that is well formed and fits a slot.
    pub open spec fn wf(&self) -> bool {
        &&& self.config.wf()
        &&& (self.current_block_idx as int) * self.spec_stride() <= self.file@.len()
        &&& self.file@.len() < (self.current_block_idx as int + 1) * self.spec_stride()
        &&& match self.active_block {
            Some(b) => b.wf() && b.spec_size() <= self.spec_stride(),
            None => true,
        }
    }

    /// The entries of the block being filled, newest last.
    pub open spec fn active_entries(&self) -> Seq<EntryPair> {
        match self.active_block {
            Some(b) => payload_entries(b.data@),
            None => Seq::empty(),
        }
    }

    /// Every entry the manager can see: persisted slots in slot order, then
    /// the active block. Later entries shadow earlier ones on lookup.
    pub open spec fn all_entries(&self) -> Seq<EntryPair> {
        slots_entries(self.file@, self.spec_stride(), self.current_block_idx as int)
            + self.active_entries()
    }

    /// The entries already persisted to the file image.
    pub open spec fn persisted_entries(&self) -> Seq<EntryPair> {
        slots_entries(self.file@, self.spec_stride(), self.current_block_idx as int)
    }

    /// The file image, for the caller that persists it.
    pub fn file_bytes(&self) -> (r: &Vec<u8>)
        ensures
            r@ == self.file@,
    {
        &self.file
    }

    /// The collection name this manager serves.
    pub fn collection_name(&self) -> (r: &String)
        ensures
            r@ == self.name@,
    {
        &self.name
    }

    /// Creates a manager over the given file image. The next slot index is
    /// probed from the file size; a trailing partial slot will be overwritten
    /// by the next flush.
    pub fn new(name: &str, config: StorageConfig, file: Vec<u8>) -> (r: Self)
        requires
            config.wf(),
        ensures
            r.wf(),
            r.config == config,
            r.name@ == name@,
            r.file@ == file@,
            r.active_block is None,
            r.all_entries() == slots_entries(file@, config.block_size as int, r.current_block_idx as int),
            r.current_block_idx == file@.len() as int / config.block_size as int,
    {
        let stride = config.block_size;
        let idx = file.len() / stride;
        proof {
            let l = file@.len() as int;
            let st = stride as int;
            vstd::arithmetic::div_mod::lemma_fundamental_div_mod(l, st);
            assert(l == st * (l / st) + (l % st));
            assert(0 <= l % st < st);
            assert((l / st) * st == st * (l / st)) by (nonlinear_arith);
            assert((l / st + 1) * st == st * (l / st) + st) by (nonlinear_arith);
        }
        let r = BlockManager {
            name: name.to_owned(),
            config,
            active_block: None,
            current_block_idx: idx,
            file,
        };
        proof {
            assert(r.all_entries() =~= slots_entries(
                r.file@,
                r.config.block_size as int,
                r.current_block_idx as int,
            ));
        }
        r
    }

    /// Makes sure a fresh empty block is ready to take entries. Visible
    /// entries do not change.
    fn ensure_active_block(&mut self)
        requires
            old(self).wf(),
        ensures
            final(self).wf(),
            final(self).active_block is Some,
            final(self).all_entries() == old(self).all_entries(),
            final(self).file@ == old(self).file@,
            final(self).config == old(self).config,
            final(self).name@ == old(self).name@,
            final(self).current_block_idx == old(self).current_block_idx,
            old(self).active_block is Some ==> final(self).active_block == old(self).active_block,
            old(self).active_block is None ==> final(self).active_entries() == Seq::<
                EntryPair,
            >::empty(),
    {
        if self.active_block.is_none() {
            let block = Block::new(self.config.compression);
            proof {
                assert(payload_entries(block.data@) =~= Seq::<EntryPair>::empty());
            }
            self.active_block = Some(block);
            proof {
                assert(self.all_entries() =~= old(self).all_entries());
            }
        }
    }

    /// Reads the block at the front of a slot: magic, claimed extent from
    /// the `compressed_size` field, then a full decode of that extent.
    fn read_block_from_slot(slot: &[u8]) -> (r: Option<Block>)
        ensures
            r is Some <==> slot_decodable(slot@),
            r is Some ==> r->0.data@ == slot_payload(slot@),
    {
        if slot.len() < BLOCK_HEADER_SIZE + BLOCK_FOOTER_SIZE {
            return None;
        }
        let magic = crate::block::block_magic();
        if !bytes_equal_front(slot, magic.as_slice()) {
            return None;
        }
        let cs = u64_from_le_bytes(slice_subrange(slot, 18, 26));
        if cs > (slot.len() - 42) as u64 {
            return None;
        }
        let bl = 42 + (cs as usize);
        let block_bytes = slice_subrange(slot, 0, bl);
        match Block::from_bytes(block_bytes) {
            Ok(b) => {
                proof {
                    assert(slot_block_len(slot@) == bl);
                    assert(block_bytes@.subrange(34, block_bytes@.len() - 8) =~= slot_payload(
                        slot@,
                    ));
                }
                Some(b)
            },
            Err(_) => None,
        }
    }

    /// Scans a block for the document with the given id; the newest entry in
    /// the block wins.
    fn search_block_for_document(block: &Block, doc_id: &[u8]) -> (r: Option<Vec<u8>>)
        ensures
            r is Some <==> spec_find_last(payload_entries(block.data@), doc_id@) is Some,
            r is Some ==> r->0@ == spec_find_last(payload_entries(block.data@), doc_id@)->0,
    {
        let data_len = block.data.len();
        let mut best: Option<Vec<u8>> = None;
        let mut p: usize = 0;
        let mut stopped: bool = false;
        let ghost mut done: Seq<EntryPair> = Seq::empty();
        proof {
            assert(block.data@.skip(0) =~= block.data@);
            assert(Seq::<EntryPair>::empty() + payload_entries(block.data@) =~= payload_entries(
                block.data@,
            ));
        }
        while p < data_len && !stopped
            invariant
                0 <= p <= data_len,
                data_len == block.data@.len(),
                payload_entries(block.data@) == done + payload_entries(
                    block.data@.skip(p as int),
                ),
                best is Some <==> spec_find_last(done, doc_id@) is Some,
                best is Some ==> best->0@ == spec_find_last(done, doc_id@)->0,
                stopped ==> payload_entries(block.data@.skip(p as int)) == Seq::<
                    EntryPair,
                >::empty(),
            decreases data_len - p, (if stopped { 0int } else { 1int }),
        {
            let rest = slice_subrange(block.data.as_slice(), p, data_len);
            match crate::block::DocumentEntry::from_bytes(rest, p) {
                Ok(entry) => {
                    let ghost pair: EntryPair = (entry.id@, entry.data@);
                    let n = 2 + entry.id.len() + 4 + entry.data.len();
                    proof {
                        let (pid, pdata, pn) = crate::block::parse_entry(rest@)->0;
                        assert(crate::block::parse_entry(rest@) is Some);
                        assert(pn == n);
                        assert(block.data@.skip((p + n) as int) =~= rest@.subrange(
                            n as int,
                            rest@.len() as int,
                        ));
                        assert(payload_entries(rest@) =~= seq![pair] + payload_entries(
                            block.data@.skip((p + n) as int),
                        ));
                        assert(done + payload_entries(rest@) =~= done.push(pair)
                            + payload_entries(block.data@.skip((p + n) as int)));
                        assert(done.push(pair).drop_last() =~= done);
                    }
                    if crate::bytesutil::bytes_equal(entry.id.as_slice(), doc_id) {
                        best = Some(entry.data);
                    }
                    proof {
                        done = done.push(pair);
                    }
                    p = p + n;
                },
                Err(_) => {
                    stopped = true;
                },
            }
        }
        proof {
            if !stopped {
                assert(p == data_len);
                assert(block.data@.skip(p as int) =~= Seq::<u8>::empty());
                assert(payload_entries(block.data@.skip(p as int)) =~= Seq::<EntryPair>::empty());
            }
            assert(payload_entries(block.data@) =~= done);
        }
        best
    }

    /// Collects the ids in one block, skipping tombstone-shaped ids.
    fn scan_block_for_document_ids(block: &Block) -> (r: Vec<Vec<u8>>)
        ensures
            views_of(r@) == scan_ids_spec(payload_entries(block.data@)),
    {
        let data_len = block.data.len();
        let mut ids: Vec<Vec<u8>> = Vec::new();
        let mut p: usize = 0;
        let mut stopped: bool = false;
        let ghost mut done: Seq<EntryPair> = Seq::empty();
        proof {
            assert(block.data@.skip(0) =~= block.data@);
            assert(Seq::<EntryPair>::empty() + payload_entries(block.data@) =~= payload_entries(
                block.data@,
            ));
            assert(views_of(ids@) =~= scan_ids_spec(done));
        }
        while p < data_len && !stopped
            invariant
                0 <= p <= data_len,
                data_len == block.data@.len(),
                payload_entries(block.data@) == done + payload_entries(
                    block.data@.skip(p as int),
                ),
                views_of(ids@) == scan_ids_spec(done),
                stopped ==> payload_entries(block.data@.skip(p as int)) == Seq::<
                    EntryPair,
                >::empty(),
            decreases data_len - p, (if stopped { 0int } else { 1int }),
        {
            let rest = slice_subrange(block.data.as_slice(), p, data_len);
            match crate::block::DocumentEntry::from_bytes(rest, p) {
                Ok(entry) => {
                    let ghost pair: EntryPair = (entry.id@, entry.data@);
                    let n = 2 + entry.id.len() + 4 + entry.data.len();
                    proof {
                        let (pid, pdata, pn) = crate::block::parse_entry(rest@)->0;
                        assert(crate::block::parse_entry(rest@) is Some);
                        assert(pn == n);
                        assert(block.data@.skip((p + n) as int) =~= rest@.subrange(
                            n as int,
                            rest@.len() as int,
                        ));
                        assert(payload_entries(rest@) =~= seq![pair] + payload_entries(
                            block.data@.skip((p + n) as int),
                        ));
                        assert(done + payload_entries(rest@) =~= done.push(pair)
                            + payload_entries(block.data@.skip((p + n) as int)));
                        assert(done.push(pair).drop_last() =~= done);
                    }
                    let keep = !Self::id_is_tombstone_shaped(entry.id.as_slice());
                    if keep {
                        ids.push(entry.id);
                    }
                    proof {
                        done = done.push(pair);
                        assert(views_of(ids@) =~= scan_ids_spec(done));
                    }
                    p = p + n;
                },
                Err(_) => {
                    stopped = true;
                },
            }
        }
        proof {
            if !stopped {
                assert(p == data_len);
                assert(block.data@.skip(p as int) =~= Seq::<u8>::empty());
                assert(payload_entries(block.data@.skip(p as int)) =~= Seq::<EntryPair>::empty());
            }
            assert(payload_entries(block.data@) =~= done);
        }
        ids
    }

    /// Whether an id starts and ends with the underscore byte.
    pub fn id_is_tombstone_shaped(id: &[u8]) -> (r: bool)
        ensures
            r == tombstone_shaped(id@),
    {
        if id.len() == 0 {
            return false;
        }
        id[0] == 0x5F && id[id.len() - 1] == 0x5F
    }

    /// Persists the active block: writes it at the front of its slot, pads
    /// the slot with zeros to the stride, advances the slot index, and
    /// installs a fresh empty block. The entries the manager can see do not
    /// change; they only move from the active block to the file image.
    ///
    /// A flush with no active block, or an empty one, succeeds without
    /// touching the file. The only failure is a file image that cannot grow
    /// by one more slot within `usize`.
    pub fn flush(&mut self) -> (r: Result<(), Error>)
        requires
            old(self).wf(),
        ensures
            final(self).wf(),
            final(self).config == old(self).config,
            final(self).name@ == old(self).name@,
            r is Ok <==> (old(self).active_entries().len() == 0 || (old(self).current_block_idx
                as int) * old(self).spec_stride() + old(self).spec_stride() <= usize::MAX),
            r is Ok ==> final(self).all_entries() == old(self).all_entries(),
            r is Ok ==> final(self).persisted_entries() == old(self).all_entries(),
            r is Ok ==> final(self).active_entries() == Seq::<EntryPair>::empty(),
            r is Ok ==> final(self).file@.len() <= old(self).file@.len() + old(
                self,
            ).spec_stride(),
            r is Ok && old(self).active_entries().len() > 0 ==> {
                &&& final(self).current_block_idx == old(self).current_block_idx + 1
                &&& final(self).file@.len() == (final(self).current_block_idx as int)
                    * old(self).spec_stride()
            },
            r is Err ==> *final(self) == *old(self),
            r is Err ==> r->Err_0 is Other,
            old(self).active_entries().len() == 0 ==> *final(self) == *old(self),
    {
        let needs = match &self.active_block {
            Some(b) => b.data.len() > 0,
            None => false,
        };
        if !needs {
            proof {
                if self.active_block is Some {
                    let b = self.active_block->0;
                    assert(b.data@.len() == 0);
                    assert(payload_entries(b.data@) =~= Seq::<EntryPair>::empty());
                }
                assert(self.all_entries() =~= self.persisted_entries());
            }
            return Ok(());
        }
        let stride = self.config.block_size;
        let idx = self.current_block_idx;
        let file_len = self.file.len();
        proof {
            assert((idx as int) * (stride as int) <= self.file@.len());
            assert(self.file@.len() == file_len);
        }
        let target = idx * stride;
        if stride > usize::MAX - target {
            return Err(Error::Other("block file cannot grow by another slot".to_owned()));
        }
        let end = target + stride;
        let bytes = match &self.active_block {
            Some(b) => {
                match b.to_bytes() {
                    Ok(v) => v,
                    Err(_) => {
                        proof {
                            assert(false);
                        }
                        return Err(Error::Other("block store state lost".to_owned()));
                    },
                }
            },
            None => {
                proof {
                    assert(false);
                }
                return Err(Error::Other("block store state lost".to_owned()));
            },
        };
        let ghost block = self.active_block->0;
        let ghost old_file = self.file@;
        proof {
            lemma_auto_spec_u16_to_from_le_bytes();
            lemma_auto_spec_u32_to_from_le_bytes();
            lemma_auto_spec_u64_to_from_le_bytes();
            assert(bytes@.len() == 42 + block.data@.len());
            assert(bytes@.len() <= stride);
        }
        self.file.truncate(target);
        crate::bytesutil::push_bytes(&mut self.file, bytes.as_slice());
        let ghost written = self.file@;
        while self.file.len() < end
            invariant
                written.len() <= self.file@.len() <= end,
                written == old_file.subrange(0, target as int) + bytes@,
                self.file@.subrange(0, written.len() as int) == written,
                forall|k: int| written.len() <= k < self.file@.len() ==> self.file@[k] == 0,
                self.config == old(self).config,
                self.name == old(self).name,
                self.current_block_idx == old(self).current_block_idx,
                self.active_block == old(self).active_block,
            decreases end - self.file@.len(),
        {
            self.file.push(0);
            proof {
                assert(self.file@.subrange(0, written.len() as int) =~= written);
            }
        }
        proof {
            assert(idx + 1 <= (idx as int + 1) * (stride as int)) by (nonlinear_arith)
                requires
                    stride >= 42,
                    idx >= 0,
            ;
            assert((idx as int + 1) * (stride as int) == (idx as int) * (stride as int)
                + stride as int) by (nonlinear_arith);
        }
        self.current_block_idx = idx + 1;
        self.active_block = Some(Block::new(self.config.compression));
        proof {
            self.lemma_flush_shape(*old(self), block, bytes@, old_file);
        }
        Ok(())
    }

    /// The reasoning behind `flush`: the new file keeps every old slot, the
    /// new slot holds exactly the flushed block, and the model is preserved.
    proof fn lemma_flush_shape(
        self,
        prev: BlockManager,
        block: Block,
        bytes: Seq<u8>,
        old_file: Seq<u8>,
    )
        requires
            prev.wf(),
            prev.active_block == Some(block),
            block.data@.len() > 0,
            bytes == spec_block_bytes(block),
            bytes.len() == 42 + block.data@.len(),
            bytes.len() <= prev.spec_stride(),
            old_file == prev.file@,
            self.config == prev.config,
            self.name == prev.name,
            self.current_block_idx == prev.current_block_idx + 1,
            self.active_block is Some,
            self.active_block->0.wf(),
            self.active_block->0.data@.len() == 0,
            (prev.current_block_idx as int) * prev.spec_stride() + prev.spec_stride()
                <= usize::MAX,
            self.file@.len() == (prev.current_block_idx as int) * prev.spec_stride()
                + prev.spec_stride(),
            self.file@.subrange(
                0,
                (prev.current_block_idx as int) * prev.spec_stride() + bytes.len() as int,
            ) == old_file.subrange(0, (prev.current_block_idx as int) * prev.spec_stride())
                + bytes,
            forall|k: int|
                (prev.current_block_idx as int) * prev.spec_stride() + bytes.len() <= k
                    < self.file@.len() ==> self.file@[k] == 0,
        ensures
            self.wf(),
            self.persisted_entries() == prev.all_entries(),
            self.all_entries() == prev.all_entries(),
            self.active_entries() == Seq::<EntryPair>::empty(),
    {
        let st = prev.spec_stride();
        let idx = prev.current_block_idx as int;
        let target = idx * st;
        // The new index still bounds the file length.
        assert((idx + 1) * st == idx * st + st) by (nonlinear_arith);
        assert((idx + 2) * st == idx * st + st + st) by (nonlinear_arith);
        assert(st >= 42);
        let flat = old_file.subrange(0, target) + bytes;
        // Old slots are unchanged.
        assert forall|k: int| 0 <= k < target implies self.file@[k] == old_file[k] by {
            assert(self.file@.subrange(0, target + bytes.len() as int)[k] == flat[k]);
            assert(self.file@[k] == flat[k]);
            assert(flat[k] == old_file.subrange(0, target)[k]);
        }
        lemma_slots_entries_same(self.file@, old_file, st, idx);
        // The new slot begins with the block's bytes and ends with zeros.
        let slot = slot_seq(self.file@, st, idx);
        assert(slot.len() == st);
        assert forall|k: int| 0 <= k < bytes.len() implies slot[k] == bytes[k] by {
            assert(slot[k] == self.file@[idx * st + k]);
            assert(self.file@.subrange(0, target + bytes.len() as int)[target + k] == flat[
                target + k
            ]);
            assert(self.file@[target + k] == flat[target + k]);
            assert(flat[target + k] == bytes[k]);
        }
        crate::block::lemma_block_round_trip(block);
        let eb = spec_block_bytes(block);
        assert(slot.subrange(0, 4) =~= eb.subrange(0, 4));
        assert(eb.subrange(0, 4) =~= spec_block_magic());
        assert(slot.subrange(18, 26) =~= eb.subrange(18, 26));
        assert(eb.subrange(18, 26) =~= eb.subrange(18, 26));
        // The compressed-size field names the payload length, so the claimed
        // extent is exactly the encoded block.
        assert(spec_u64_from_le_bytes(slot.subrange(18, 26)) == block.header.compressed_size);
        assert(block.header.compressed_size == block.data@.len());
        assert(slot_block_len(slot) == bytes.len());
        assert(slot.subrange(0, bytes.len() as int) =~= eb);
        assert(slot_decodable(slot));
        assert(slot_payload(slot) =~= eb.subrange(34, eb.len() - 8));
        assert(slot_payload(slot) == block.data@);
        assert(slot_entries(slot) == payload_entries(block.data@));
        // Assemble the model.
        assert(self.persisted_entries() == slots_entries(self.file@, st, idx + 1));
        assert(slots_entries(self.file@, st, idx + 1) == slots_entries(self.file@, st, idx)
            + slot_entries(slot));
        assert(prev.all_entries() == slots_entries(old_file, st, idx) + payload_entries(
            block.data@,
        ));
        assert(self.active_entries() =~= Seq::<EntryPair>::empty());
        assert(self.all_entries() =~= self.persisted_entries());
    }
}

/// Whether an insert is rejected for its argument lengths: the id must be
/// 1 to 65535 bytes, the value at most `u32::MAX` bytes, and the framed
/// entry must leave room for header and footer within one slot.
pub open spec fn spec_insert_rejected(id: Seq<u8>, data: Seq<u8>, config: StorageConfig) -> bool {
    ||| id.len() == 0
    ||| id.len() > 0xFFFF
    ||| data.len() > 0xFFFF_FFFF
    ||| 48 + id.len() + data.len() > config.block_size
}

/// Whether an insert stages its entry without any flush: the entry fits
/// the block being filled — the open block if one exists, a fresh empty one
/// otherwise — and the grown block stays below the flush threshold.
pub open spec fn spec_insert_stages_only(m: BlockManager, id: Seq<u8>, data: Seq<u8>) -> bool {
    let active_size: int = match m.active_block {
        Some(b) => 42 + b.data@.len() as int,
        None => 42,
    };
    let entry: int = 6 + id.len() as int + data.len() as int;
    &&& active_size + entry <= m.spec_stride()
    &&& active_size + entry < m.config.flush_threshold
}

/// The ids scanned out of slots `0 .. n`, in slot order.
pub open spec fn slots_scan(file: Seq<u8>, stride: int, n: int) -> Seq<Seq<u8>>
    decreases n,
{
    if n <= 0 {
        Seq::empty()
    } else {
        slots_scan(file, stride, n - 1) + scan_ids_spec(slot_entries(slot_seq(file, stride, n - 1)))
    }
}

impl BlockManager {
    /// What a scan reports: ids from the active block first, then every
    /// persisted slot in slot order, tombstone-shaped ids left out.
    pub open spec fn scan_spec(&self) -> Seq<Seq<u8>> {
        scan_ids_spec(self.active_entries()) + slots_scan(
            self.file@,
            self.spec_stride(),
            self.current_block_idx as int,
        )
    }

    /// Inserts a document: validates the lengths, stages the entry in the
    /// active block, and flushes first when the entry would not fit the
    /// block's slot, and after when the block has reached the flush
    /// threshold.
    pub fn insert(&mut self, id: &[u8], data: &[u8]) -> (r: Result<(), Error>)
        requires
            old(self).wf(),
        ensures
            final(self).wf(),
            final(self).config == old(self).config,
            final(self).name@ == old(self).name@,
            (r is Err && r->Err_0 is ArgumentOutOfRange) <==> spec_insert_rejected(
                id@,
                data@,
                old(self).config,
            ),
            (r is Err && r->Err_0 is Other) <==> (!spec_insert_rejected(
                id@,
                data@,
                old(self).config,
            ) && old(self).file@.len() + 2 * old(self).spec_stride() > usize::MAX),
            r is Err ==> (r->Err_0 is ArgumentOutOfRange || r->Err_0 is Other),
            r is Err ==> *final(self) == *old(self),
            r is Ok ==> final(self).all_entries() == old(self).all_entries().push((id@, data@)),
            r is Ok ==> final(self).file@.len() <= old(self).file@.len() + 2 * old(
                self,
            ).spec_stride(),
            r is Ok ==> (final(self).active_entries().len() == 0 || final(self).file@.len() <= old(
                self,
            ).file@.len() + old(self).spec_stride()),
            r is Ok ==> {
                ||| (final(self).file@ == old(self).file@ && final(self).current_block_idx == old(
                    self,
                ).current_block_idx)
                ||| {
                    &&& old(self).current_block_idx + 1 <= final(self).current_block_idx
                    &&& final(self).current_block_idx <= old(self).current_block_idx + 2
                    &&& final(self).file@.len() == (final(self).current_block_idx as int) * old(
                        self,
                    ).spec_stride()
                }
            },
            r is Ok && spec_insert_stages_only(*old(self), id@, data@) ==> {
                &&& final(self).file@ == old(self).file@
                &&& final(self).current_block_idx == old(self).current_block_idx
                &&& final(self).persisted_entries() == old(self).persisted_entries()
                &&& final(self).active_entries() == old(self).active_entries().push((id@, data@))
            },
    {
        if id.len() == 0 || id.len() > 0xFFFF {
            return Err(Error::ArgumentOutOfRange);
        }
        if (data.len() as u64) > 0xFFFF_FFFFu64 {
            return Err(Error::ArgumentOutOfRange);
        }
        let stride = self.config.block_size;
        let entry_size_wide: u64 = 6u64 + (id.len() as u64) + (data.len() as u64);
        if 42u64 + entry_size_wide > (stride as u64) {
            return Err(Error::ArgumentOutOfRange);
        }
        let file_len = self.file.len();
        if stride > usize::MAX - file_len || stride > usize::MAX - file_len - stride {
            return Err(Error::Other("block file cannot grow by another slot".to_owned()));
        }
        self.ensure_active_block();
        let entry_size = 6 + id.len() + data.len();
        let active_size = match &self.active_block {
            Some(b) => b.size(),
            None => {
                proof {
                    assert(false);
                }
                0
            },
        };
        if active_size + entry_size > stride {
            let flushed = self.flush();
            match flushed {
                Ok(_) => {},
                Err(_) => {
                    proof {
                        assert(false);
                    }
                    return Err(Error::Other("block store state lost".to_owned()));
                },
            }
            self.ensure_active_block();
        }
        let ghost staged = *self;
        let doc = crate::block::DocumentEntry::new(
            vstd::slice::slice_to_vec(id),
            vstd::slice::slice_to_vec(data),
        );
        proof {
            assert(staged.all_entries() == old(self).all_entries());
            let b = self.active_block->0;
            crate::block::lemma_payload_entries_len(b.data@);
            assert(b.spec_size() + entry_size <= self.spec_stride());
        }
        let added = match &mut self.active_block {
            Some(b) => b.add_document(doc),
            None => {
                proof {
                    assert(false);
                }
                Err(Error::ArgumentOutOfRange)
            },
        };
        match added {
            Ok(_) => {},
            Err(_) => {
                proof {
                    assert(false);
                }
                return Err(Error::Other("block store state lost".to_owned()));
            },
        }
        proof {
            lemma_auto_spec_u16_to_from_le_bytes();
            lemma_auto_spec_u32_to_from_le_bytes();
            assert(crate::block::spec_entry_bytes(id@, data@).len() == 6 + id@.len()
                + data@.len());
            assert(self.wf());
            assert(self.all_entries() =~= staged.persisted_entries() + staged.active_entries()
                .push((id@, data@)));
            assert(staged.persisted_entries() + staged.active_entries().push((id@, data@)) =~= (
            staged.persisted_entries() + staged.active_entries()).push((id@, data@)));
        }
        let new_size = match &self.active_block {
            Some(b) => b.size(),
            None => {
                proof {
                    assert(false);
                }
                0
            },
        };
        if new_size >= self.config.flush_threshold {
            let flushed = self.flush();
            match flushed {
                Ok(_) => {},
                Err(_) => {
                    proof {
                        assert(false);
                    }
                    return Err(Error::Other("block store state lost".to_owned()));
                },
            }
        }
        Ok(())
    }

    /// Looks a document up by id: the active block first, then every
    /// persisted slot from the newest down, skipping slots that do not
    /// decode. The newest entry with the id wins.
    pub fn find_document(&self, doc_id: &[u8]) -> (r: Option<Vec<u8>>)
        requires
            self.wf(),
        ensures
            r is Some <==> spec_find_last(self.all_entries(), doc_id@) is Some,
            r is Some ==> r->0@ == spec_find_last(self.all_entries(), doc_id@)->0,
    {
        proof {
            lemma_find_last_append(self.persisted_entries(), self.active_entries(), doc_id@);
        }
        match &self.active_block {
            Some(block) => {
                match Self::search_block_for_document(block, doc_id) {
                    Some(v) => {
                        return Some(v);
                    },
                    None => {},
                }
            },
            None => {},
        }
        let stride = self.config.block_size;
        let file_len = self.file.len();
        let mut i = self.current_block_idx;
        while i > 0
            invariant
                self.wf(),
                stride == self.config.block_size,
                self.file@.len() <= usize::MAX,
                i <= self.current_block_idx,
                spec_find_last(self.all_entries(), doc_id@) == spec_find_last(
                    slots_entries(self.file@, stride as int, i as int),
                    doc_id@,
                ),
            decreases i,
        {
            i = i - 1;
            proof {
                assert((i as int + 1) * (stride as int) <= (self.current_block_idx as int) * (
                stride as int)) by (nonlinear_arith)
                    requires
                        i + 1 <= self.current_block_idx,
                        stride >= 42,
                ;
                assert((i as int + 1) * (stride as int) == (i as int) * (stride as int)
                    + stride as int) by (nonlinear_arith);
            }
            let start = i * stride;
            let slot = slice_subrange(self.file.as_slice(), start, start + stride);
            proof {
                assert(slot@ =~= slot_seq(self.file@, stride as int, i as int));
                lemma_find_last_append(
                    slots_entries(self.file@, stride as int, i as int),
                    slot_entries(slot_seq(self.file@, stride as int, i as int)),
                    doc_id@,
                );
            }
            match Self::read_block_from_slot(slot) {
                Some(block) => {
                    match Self::search_block_for_document(&block, doc_id) {
                        Some(v) => {
                            return Some(v);
                        },
                        None => {},
                    }
                },
                None => {},
            }
        }
        None
    }

    /// Lists every visible document id: the active block first, then the
    /// persisted slots in slot order. Tombstone-shaped ids are left out;
    /// duplicates are reported as they stand.
    pub fn scan_document_ids(&self) -> (r: Vec<Vec<u8>>)
        requires
            self.wf(),
        ensures
            views_of(r@) == self.scan_spec(),
    {
        let mut ids: Vec<Vec<u8>> = match &self.active_block {
            Some(block) => Self::scan_block_for_document_ids(block),
            None => Vec::new(),
        };
        proof {
            if self.active_block is None {
                assert(self.active_entries() =~= Seq::<EntryPair>::empty());
                assert(scan_ids_spec(self.active_entries()) =~= Seq::<Seq<u8>>::empty());
            }
            assert(views_of(ids@) =~= scan_ids_spec(self.active_entries()));
        }
        let stride = self.config.block_size;
        let file_len = self.file.len();
        let idx = self.current_block_idx;
        let mut i: usize = 0;
        while i < idx
            invariant
                self.wf(),
                stride == self.config.block_size,
                self.file@.len() <= usize::MAX,
                idx == self.current_block_idx,
                i <= idx,
                views_of(ids@) == scan_ids_spec(self.active_entries()) + slots_scan(
                    self.file@,
                    stride as int,
                    i as int,
                ),
            decreases idx - i,
        {
            proof {
                assert((i as int + 1) * (stride as int) <= (self.current_block_idx as int) * (
                stride as int)) by (nonlinear_arith)
                    requires
                        i + 1 <= self.current_block_idx,
                        stride >= 42,
                ;
                assert((i as int + 1) * (stride as int) == (i as int) * (stride as int)
                    + stride as int) by (nonlinear_arith);
            }
            let start = i * stride;
            let slot = slice_subrange(self.file.as_slice(), start, start + stride);
            proof {
                assert(slot@ =~= slot_seq(self.file@, stride as int, i as int));
            }
            match Self::read_block_from_slot(slot) {
                Some(block) => {
                    let more = Self::scan_block_for_document_ids(&block);
                    append_ids(&mut ids, more);
                },
                None => {
                    proof {
                        assert(slot_entries(slot@) =~= Seq::<EntryPair>::empty());
                        assert(scan_ids_spec(slot_entries(slot@)) =~= Seq::<Seq<u8>>::empty());
                    }
                },
            }
            proof {
                assert(views_of(ids@) =~= scan_ids_spec(self.active_entries()) + slots_scan(
                    self.file@,
                    stride as int,
                    i as int + 1,
                ));
            }
            i = i + 1;
        }
        ids
    }
}

/// Moves every id of `src` onto the end of `dst`, in order.
fn append_ids(dst: &mut Vec<Vec<u8>>, src: Vec<Vec<u8>>)
    ensures
        views_of(final(dst)@) == views_of(old(dst)@) + views_of(src@),
{
    let mut src = src;
    let ghost orig = src@;
    while src.len() > 0
        invariant
            views_of(dst@) + views_of(src@) == views_of(old(dst)@) + views_of(orig),
        decreases src@.len(),
    {
        let ghost pre_dst = dst@;
        let ghost pre_src = src@;
        let v = src.remove(0);
        dst.push(v);
        proof {
            assert(views_of(dst@) =~= views_of(pre_dst).push(pre_src[0]@));
            assert(views_of(pre_src) =~= seq![pre_src[0]@] + views_of(src@));
            assert(views_of(dst@) + views_of(src@) =~= views_of(pre_dst) + views_of(pre_src));
        }
    }
    proof {
        assert(views_of(src@) =~= Seq::<Seq<u8>>::empty());
        assert(views_of(old(dst)@) + views_of(orig) =~= (views_of(old(dst)@) + views_of(orig))
            + views_of(src@));
        assert(views_of(dst@) =~= views_of(old(dst)@) + views_of(orig));
    }
}

/// Compares the front of `slot` with `prefix`.
fn bytes_equal_front(slot: &[u8], prefix: &[u8]) -> (r: bool)
    requires
        prefix@.len() <= slot@.len(),
    ensures
        r == (slot@.subrange(0, prefix@.len() as int) == prefix@),
{
    let front = slice_subrange(slot, 0, prefix.len());
    crate::bytesutil::bytes_equal(front, prefix)
}

} // verus!
