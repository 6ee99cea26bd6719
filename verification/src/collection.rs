//! Collection layer: routes reads and writes through the block manager and
//! applies tombstone-based logical deletion.
//!
//! Deleting a document never removes its entries. Instead a tombstone — an
//! entry whose id is the document id bracketed by underscores — is inserted,
//! and reads treat a document with a tombstone as absent. Compaction of
//! shadowed entries is left to a future step.

use vstd::prelude::*;
use crate::bytesutil::{push_bytes, u64_to_decimal};
use crate::clock::now_unix_seconds;
use crate::config::StorageConfig;
use crate::errors::Error;
use crate::manager::{
    slots_entries, spec_find_last, spec_insert_rejected, views_of, BlockManager, EntryPair,
};

verus! {

/// The id under which a document's deletion marker is stored: the original
/// id bracketed by underscores.
pub open spec fn spec_tombstone_id(id: Seq<u8>) -> Seq<u8> {
    seq![0x5Fu8] + id + seq![0x5Fu8]
}

/// Builds the tombstone id for a document id.
pub fn tombstone_id_for(id: &[u8]) -> (r: Vec<u8>)
    requires
        id@.len() + 2 <= usize::MAX,
    ensures
        r@ == spec_tombstone_id(id@),
{
    let mut t: Vec<u8> = Vec::new();
    t.push(0x5F);
    push_bytes(&mut t, id);
    t.push(0x5F);
    proof {
        assert(t@ =~= spec_tombstone_id(id@));
    }
    t
}

/// The opening of the deletion marker: the bytes of `{"_deleted": true, "_id": "`.
pub open spec fn spec_marker_head() -> Seq<u8> {
    seq![
        123u8, 34, 95, 100, 101, 108, 101, 116, 101, 100, 34, 58, 32, 116, 114, 117, 101, 44,
        32, 34, 95, 105, 100, 34, 58, 32, 34,
    ]
}

/// The middle of the deletion marker: the bytes of `", "_deleted_at": `.
pub open spec fn spec_marker_mid() -> Seq<u8> {
    seq![34u8, 44, 32, 34, 95, 100, 101, 108, 101, 116, 101, 100, 95, 97, 116, 34, 58, 32]
}

/// The deletion marker stored for a document: the JSON text
/// `{"_deleted": true, "_id": "<id>", "_deleted_at": <seconds>}`.
pub open spec fn spec_tombstone_payload(id: Seq<u8>, deleted_at: u64) -> Seq<u8> {
    spec_marker_head() + id + spec_marker_mid() + crate::bytesutil::spec_decimal(deleted_at)
        + seq![125u8]
}

/// Builds the deletion marker payload naming the deleted id and the
/// deletion time.
fn tombstone_payload(id: &[u8], deleted_at: u64) -> (r: Vec<u8>)
    requires
        id@.len() + 67 <= usize::MAX,
    ensures
        r@ == spec_tombstone_payload(id@, deleted_at),
        r@.len() <= id@.len() + 67,
{
    let mut p: Vec<u8> = Vec::new();
    p.push(123);
    p.push(34);
    p.push(95);
    p.push(100);
    p.push(101);
    p.push(108);
    p.push(101);
    p.push(116);
    p.push(101);
    p.push(100);
    p.push(34);
    p.push(58);
    p.push(32);
    p.push(116);
    p.push(114);
    p.push(117);
    p.push(101);
    p.push(44);
    p.push(32);
    p.push(34);
    p.push(95);
    p.push(105);
    p.push(100);
    p.push(34);
    p.push(58);
    p.push(32);
    p.push(34);
    push_bytes(&mut p, id);
    p.push(34);
    p.push(44);
    p.push(32);
    p.push(34);
    p.push(95);
    p.push(100);
    p.push(101);
    p.push(108);
    p.push(101);
    p.push(116);
    p.push(101);
    p.push(100);
    p.push(95);
    p.push(97);
    p.push(116);
    p.push(34);
    p.push(58);
    p.push(32);
    let digits = u64_to_decimal(deleted_at);
    push_bytes(&mut p, digits.as_slice());
    p.push(125);
    proof {
        assert(p@ =~= spec_tombstone_payload(id@, deleted_at));
    }
    p
}

/// A collection in the store: a name and the block manager holding its data.
pub struct Collection {
    /// Name of the collection.
    pub name: String,
    /// Block manager for this collection.
    pub block_manager: BlockManager,
}

/// What `get` returns over a run of entries: the newest value stored under
/// the id, unless a tombstone for the id exists anywhere.
pub open spec fn get_model(entries: Seq<EntryPair>, id: Seq<u8>) -> Option<Seq<u8>> {
    if spec_find_last(entries, id) is Some && spec_find_last(
        entries,
        spec_tombstone_id(id),
    ) is None {
        spec_find_last(entries, id)
    } else {
        None
    }
}

/// Inserting a document makes it the one a read returns: for any entry run
/// holding no tombstone for the id, appending `(id, value)` makes the
/// collection's read yield `value`. Flushing and reopening preserve the
/// entry run, so the read survives both.
pub proof fn lemma_insert_then_get(entries: Seq<EntryPair>, id: Seq<u8>, value: Seq<u8>)
    requires
        spec_find_last(entries, spec_tombstone_id(id)) is None,
    ensures
        get_model(entries.push((id, value)), id) == Some(value),
{
    let pushed = entries.push((id, value));
    assert(pushed.drop_last() =~= entries);
    assert(spec_tombstone_id(id).len() == id.len() + 2);
    assert(pushed.last().0 != spec_tombstone_id(id));
}

/// The newest insert wins: after storing `v1` and then `v2` under one id,
/// a read returns `v2`, whether or not a flush sits between the writes.
pub proof fn lemma_newest_wins(entries: Seq<EntryPair>, id: Seq<u8>, v1: Seq<u8>, v2: Seq<u8>)
    requires
        spec_find_last(entries, spec_tombstone_id(id)) is None,
    ensures
        get_model(entries.push((id, v1)).push((id, v2)), id) == Some(v2),
{
    let once = entries.push((id, v1));
    assert(once.drop_last() =~= entries);
    assert(spec_tombstone_id(id).len() == id.len() + 2);
    lemma_insert_then_get(once, id, v2);
}

/// A tombstone hides its document: once an entry under the tombstone id is
/// appended, a read of the id reports absence, whatever was stored before.
/// Deleting again then reports that nothing was there — the second delete
/// returns `false` where the first returned `true`.
pub proof fn lemma_tombstone_hides(entries: Seq<EntryPair>, id: Seq<u8>, marker: Seq<u8>)
    ensures
        get_model(entries.push((spec_tombstone_id(id), marker)), id) is None,
{
    let pushed = entries.push((spec_tombstone_id(id), marker));
    assert(pushed.last().0 == spec_tombstone_id(id));
    assert(spec_find_last(pushed, spec_tombstone_id(id)) is Some);
}

/// The ids of `ids` that have no tombstone among `entries`, in order.
pub open spec fn visible_ids(ids: Seq<Seq<u8>>, entries: Seq<EntryPair>) -> Seq<Seq<u8>>
    decreases ids.len(),
{
    if ids.len() == 0 {
        Seq::empty()
    } else {
        visible_ids(ids.drop_last(), entries) + if spec_find_last(
            entries,
            spec_tombstone_id(ids.last()),
        ) is Some {
            Seq::empty()
        } else {
            seq![ids.last()]
        }
    }
}

impl Collection {
    /// The collection's invariant is its block manager's.
    pub open spec fn wf(&self) -> bool {
        self.block_manager.wf()
    }

    /// Every entry the collection can see.
    pub open spec fn entries(&self) -> Seq<EntryPair> {
        self.block_manager.all_entries()
    }

    /// Opens a collection over the image of its block file; an empty image
    /// stands for a collection created fresh.
    pub fn open(name: &str, config: StorageConfig, file: Vec<u8>) -> (r: Self)
        requires
            config.wf(),
        ensures
            r.wf(),
            r.name@ == name@,
            r.block_manager.config == config,
            r.block_manager.active_block is None,
            r.entries() == slots_entries(
                file@,
                config.block_size as int,
                r.block_manager.current_block_idx as int,
            ),
            r.block_manager.current_block_idx == file@.len() as int / config.block_size as int,
    {
        let block_manager = BlockManager::new(name, config, file);
        Collection { name: name.to_owned(), block_manager }
    }

    /// Inserts a document into the collection.
    pub fn insert(&mut self, id: &[u8], data: &[u8]) -> (r: Result<(), Error>)
        requires
            old(self).wf(),
        ensures
            final(self).wf(),
            final(self).name@ == old(self).name@,
            final(self).block_manager.config == old(self).block_manager.config,
            (r is Err && r->Err_0 is ArgumentOutOfRange) <==> spec_insert_rejected(
                id@,
                data@,
                old(self).block_manager.config,
            ),
            (r is Err && r->Err_0 is Other) <==> (!spec_insert_rejected(
                id@,
                data@,
                old(self).block_manager.config,
            ) && old(self).block_manager.file@.len() + 2 * old(self).block_manager.spec_stride()
                > usize::MAX),
            r is Err ==> (r->Err_0 is ArgumentOutOfRange || r->Err_0 is Other),
            r is Err ==> *final(self) == *old(self),
            r is Ok ==> final(self).entries() == old(self).entries().push((id@, data@)),
            r is Ok ==> final(self).block_manager.file@.len()
                <= old(self).block_manager.file@.len()
                + 2 * old(self).block_manager.spec_stride(),
            r is Ok ==> (final(self).block_manager.active_entries().len() == 0
                || final(self).block_manager.file@.len()
                <= old(self).block_manager.file@.len() + old(self).block_manager.spec_stride()),
            r is Ok ==> {
                ||| (final(self).block_manager.file@ == old(self).block_manager.file@
                    && final(self).block_manager.current_block_idx
                    == old(self).block_manager.current_block_idx)
                ||| {
                    &&& old(self).block_manager.current_block_idx + 1
                        <= final(self).block_manager.current_block_idx
                    &&& final(self).block_manager.current_block_idx
                        <= old(self).block_manager.current_block_idx + 2
                    &&& final(self).block_manager.file@.len()
                        == (final(self).block_manager.current_block_idx as int)
                        * old(self).block_manager.spec_stride()
                }
            },
            r is Ok && crate::manager::spec_insert_stages_only(old(self).block_manager, id@, data@)
                ==> {
                &&& final(self).block_manager.file@ == old(self).block_manager.file@
                &&& final(self).block_manager.current_block_idx
                    == old(self).block_manager.current_block_idx
                &&& final(self).block_manager.persisted_entries()
                    == old(self).block_manager.persisted_entries()
                &&& final(self).block_manager.active_entries()
                    == old(self).block_manager.active_entries().push((id@, data@))
            },
    {
        self.block_manager.insert(id, data)
    }

    /// Retrieves a document: the newest value stored under the id, unless a
    /// tombstone for the id exists.
    pub fn get(&self, id: &[u8]) -> (r: Option<Vec<u8>>)
        requires
            self.wf(),
            id@.len() + 2 <= usize::MAX,
        ensures
            r is Some <==> get_model(self.entries(), id@) is Some,
            r is Some ==> r->0@ == get_model(self.entries(), id@)->0,
    {
        match self.block_manager.find_document(id) {
            Some(data) => {
                let tombstone_id = tombstone_id_for(id);
                match self.block_manager.find_document(tombstone_id.as_slice()) {
                    Some(_) => None,
                    None => Some(data),
                }
            },
            None => None,
        }
    }

    /// Deletes a document: reports whether it was visible, and if it was,
    /// inserts a tombstone that shadows it from then on. The stored entries
    /// for the id remain in place.
    pub fn delete(&mut self, id: &[u8]) -> (r: Result<bool, Error>)
        requires
            old(self).wf(),
            id@.len() + 67 <= usize::MAX,
        ensures
            final(self).wf(),
            final(self).name@ == old(self).name@,
            final(self).block_manager.config == old(self).block_manager.config,
            r is Ok ==> (r->Ok_0 <==> get_model(old(self).entries(), id@) is Some),
            get_model(old(self).entries(), id@) is None ==> r is Ok && !r->Ok_0,
            r is Ok && !r->Ok_0 ==> *final(self) == *old(self),
            r is Ok && r->Ok_0 ==> {
                &&& final(self).entries().len() == old(self).entries().len() + 1
                &&& final(self).entries().drop_last() == old(self).entries()
                &&& exists|ts: u64|
                    final(self).entries().last() == (
                        spec_tombstone_id(id@),
                        #[trigger] spec_tombstone_payload(id@, ts),
                    )
            },
            r is Err ==> *final(self) == *old(self),
            (get_model(old(self).entries(), id@) is Some && id@.len() + 2 <= 0xFFFF && 2 * id@.len()
                + 117 <= old(self).block_manager.config.block_size && old(
                self,
            ).block_manager.file@.len() + 2 * old(self).block_manager.spec_stride()
                <= usize::MAX) ==> r is Ok,
    {
        let exists = match self.get(id) {
            Some(_) => true,
            None => false,
        };
        if !exists {
            return Ok(false);
        }
        let deleted_at = now_unix_seconds();
        let tombstone_data = tombstone_payload(id, deleted_at);
        let tombstone_id = tombstone_id_for(id);
        let ghost before = *self;
        match self.block_manager.insert(tombstone_id.as_slice(), tombstone_data.as_slice()) {
            Ok(_) => {
                proof {
                    assert(self.entries().drop_last() =~= before.entries());
                    assert(self.entries().last() == (
                        spec_tombstone_id(id@),
                        spec_tombstone_payload(id@, deleted_at),
                    ));
                }
                Ok(true)
            },
            Err(e) => Err(e),
        }
    }

    /// Lists the visible document ids: those the block manager reports that
    /// have no tombstone. Duplicates are reported as they stand.
    pub fn scan(&self) -> (r: Vec<Vec<u8>>)
        requires
            self.wf(),
        ensures
            views_of(r@) == visible_ids(self.block_manager.scan_spec(), self.entries()),
    {
        let ids = self.block_manager.scan_document_ids();
        proof {
            self.lemma_scan_spec_ids_short();
        }
        let mut ids = ids;
        let ghost orig = ids@;
        let mut out: Vec<Vec<u8>> = Vec::new();
        let ghost mut seen: Seq<Seq<u8>> = Seq::empty();
        proof {
            assert(visible_ids(seen, self.entries()) =~= Seq::<Seq<u8>>::empty());
            assert(views_of(out@) =~= visible_ids(seen, self.entries()));
        }
        while ids.len() > 0
            invariant
                self.wf(),
                seen + views_of(ids@) == views_of(orig),
                views_of(orig) == self.block_manager.scan_spec(),
                forall|j: int|
                    0 <= j < views_of(orig).len() ==> (#[trigger] views_of(orig)[j]).len()
                        <= 0xFFFF,
                views_of(out@) == visible_ids(seen, self.entries()),
            decreases ids@.len(),
        {
            let ghost pre_ids = ids@;
            let ghost pre_seen = seen;
            let id = ids.remove(0);
            proof {
                assert(views_of(pre_ids)[0] == id@);
                assert(seen + views_of(pre_ids) == views_of(orig));
                assert(0 <= seen.len() < views_of(orig).len());
                assert(views_of(orig)[seen.len() as int] == id@);
                assert(id@.len() <= 0xFFFF);
            }
            let tombstone_id = tombstone_id_for(id.as_slice());
            let keep = match self.block_manager.find_document(tombstone_id.as_slice()) {
                Some(_) => false,
                None => true,
            };
            if keep {
                out.push(id);
            }
            proof {
                seen = pre_seen.push(id@);
                assert(seen.drop_last() =~= pre_seen);
                assert(views_of(out@) =~= visible_ids(seen, self.entries()));
                assert(views_of(pre_ids) =~= seq![id@] + views_of(ids@));
                assert(seen + views_of(ids@) =~= pre_seen + views_of(pre_ids));
            }
        }
        proof {
            assert(views_of(ids@) =~= Seq::<Seq<u8>>::empty());
            assert(seen =~= views_of(orig));
        }
        out
    }

    /// Closes the collection, persisting any staged entries.
    pub fn close(&mut self) -> (r: Result<(), Error>)
        requires
            old(self).wf(),
        ensures
            final(self).wf(),
            final(self).name@ == old(self).name@,
            final(self).block_manager.config == old(self).block_manager.config,
            r is Ok ==> final(self).entries() == old(self).entries(),
            r is Ok ==> final(self).block_manager.persisted_entries() == old(self).entries(),
            r is Ok && old(self).block_manager.active_entries().len() > 0 ==> {
                &&& final(self).block_manager.current_block_idx
                    == old(self).block_manager.current_block_idx + 1
                &&& final(self).block_manager.file@.len()
                    == (final(self).block_manager.current_block_idx as int)
                    * old(self).block_manager.spec_stride()
            },
            r is Ok <==> (old(self).block_manager.active_entries().len() == 0 || (old(
                self,
            ).block_manager.current_block_idx as int) * old(self).block_manager.spec_stride()
                + old(self).block_manager.spec_stride() <= usize::MAX),
    {
        self.block_manager.flush()
    }

    /// Every id the block manager's scan reports fits the two-byte length
    /// field of the entry frame.
    proof fn lemma_scan_spec_ids_short(&self)
        ensures
            forall|j: int|
                0 <= j < self.block_manager.scan_spec().len() ==> (
                #[trigger] self.block_manager.scan_spec()[j]).len() <= 0xFFFF,
    {
        let active = self.block_manager.active_entries();
        if self.block_manager.active_block is Some {
            crate::block::lemma_payload_entry_ids_short(self.block_manager.active_block->0.data@);
        }
        crate::manager::lemma_scan_ids_short(active);
        crate::manager::lemma_slots_scan_ids_short(
            self.block_manager.file@,
            self.block_manager.spec_stride(),
            self.block_manager.current_block_idx as int,
        );
    }
}

} // verus!
