//! Store facade: binds a data directory, the storage and WAL configuration,
//! the open collections, and the write-ahead log manager.
//!
//! Writes go to the WAL first and to the collection's block store second:
//! the caller persists the WAL image before the block image, so a reader
//! never observes a block-store write whose log entry is not durable.

use vstd::prelude::*;
use crate::collection::{get_model, spec_tombstone_id, visible_ids, Collection};
use crate::config::{StorageConfig, WalConfig};
use crate::errors::Error;
use crate::manager::{slots_entries, spec_find_last, views_of};
use crate::wal_entry::{EntryType, WalEntry};
use crate::wal_manager::{cache_view, op_applied, spec_name_hash, spec_tx_home, WalManager};
use vstd::string::StringSliceAdditionalSpecFns;

verus! {

/// The storage engine of one store: its collections and their shared WAL.
pub struct Storage {
    /// Base path for the store's data, for the caller that persists it.
    pub path: String,
    /// Configuration every collection opens with.
    pub config: StorageConfig,
    /// The write-ahead log manager.
    pub wal: WalManager,
    /// Open collections, in the order they were opened.
    pub collections: Vec<(String, Collection)>,
}

impl Storage {
    /// The store's invariant: sound configuration, a sound WAL manager,
    /// and one well-formed collection per name.
    pub open spec fn wf(&self) -> bool {
        &&& self.config.wf()
        &&& self.wal.wf()
        &&& forall|i: int, j: int|
            0 <= i < j < self.collections@.len() ==> (#[trigger] self.collections@[i]).0@ != (
            #[trigger] self.collections@[j]).0@
        &&& forall|i: int|
            0 <= i < self.collections@.len() ==> (#[trigger] self.collections@[i]).1.wf()
    }

    /// Whether a collection of this name is open.
    pub open spec fn has_collection(&self, name: Seq<char>) -> bool {
        exists|i: int|
            0 <= i < self.collections@.len() && (#[trigger] self.collections@[i]).0@ == name
    }

    /// Opens a store over a data directory. The caller creates the
    /// directory; collections are opened on demand.
    pub fn open(path: &str, config: Option<StorageConfig>, wal_config: WalConfig) -> (r: Self)
        requires
            config is Some ==> config->0.wf(),
        ensures
            r.wf(),
            r.path@ == path@,
            r.collections@.len() == 0,
            config is Some ==> r.config == config->0,
    {
        let config = match config {
            Some(c) => c,
            None => StorageConfig::default(),
        };
        Storage {
            path: path.to_owned(),
            config,
            wal: WalManager::new(wal_config),
            collections: Vec::new(),
        }
    }

    /// The index of an open collection.
    fn find_collection_index(&self, name: &str) -> (r: Option<usize>)
        ensures
            r is Some ==> 0 <= r->0 < self.collections@.len() && self.collections@[
                r->0 as int
            ].0@ == name@,
            r is None ==> !self.has_collection(name@),
    {
        let wanted = name.to_owned();
        let mut i: usize = 0;
        while i < self.collections.len()
            invariant
                0 <= i <= self.collections@.len(),
                wanted@ == name@,
                forall|j: int| 0 <= j < i ==> (#[trigger] self.collections@[j]).0@ != name@,
            decreases self.collections@.len() - i,
        {
            if self.collections[i].0 == wanted {
                return Some(i);
            }
            i = i + 1;
        }
        None
    }

    /// Opens a collection over the image of its block file, or leaves an
    /// already open collection as it stands. Idempotent.
    pub fn open_collection(&mut self, name: &str, file: Vec<u8>) -> (r: Result<(), Error>)
        requires
            old(self).wf(),
        ensures
            final(self).wf(),
            final(self).config == old(self).config,
            final(self).wal == old(self).wal,
            r is Ok,
            final(self).has_collection(name@),
            old(self).has_collection(name@) ==> *final(self) == *old(self),
            !old(self).has_collection(name@) ==> {
                &&& final(self).collections@ == old(self).collections@.push(
                    final(self).collections@.last(),
                )
                &&& final(self).collections@.last().0@ == name@
                &&& final(self).collections@.last().1.entries() == slots_entries(
                    file@,
                    old(self).config.block_size as int,
                    file@.len() as int / old(self).config.block_size as int,
                )
            },
    {
        match self.find_collection_index(name) {
            Some(i) => {
                proof {
                    assert(self.collections@[i as int].0@ == name@);
                }
                Ok(())
            },
            None => {
                let collection = Collection::open(name, self.config.clone_for_collection(), file);
                self.collections.push((name.to_owned(), collection));
                proof {
                    assert(self.collections@[self.collections@.len() - 1].0@ == name@);
                }
                Ok(())
            },
        }
    }

    /// Closes a collection: flushes its staged entries and drops it from
    /// the open set. The caller persists the final block image first.
    pub fn close_collection(&mut self, name: &str) -> (r: Result<(), Error>)
        requires
            old(self).wf(),
        ensures
            final(self).wf(),
            final(self).config == old(self).config,
            final(self).wal == old(self).wal,
            r is Ok ==> !final(self).has_collection(name@),
    {
        let idx = match self.find_collection_index(name) {
            Some(i) => i,
            None => {
                proof {
                    assert(!self.has_collection(name@));
                }
                return Ok(());
            },
        };
        let slot = collection_at(&mut self.collections, idx);
        let closed = slot.1.close();
        match closed {
            Ok(_) => {},
            Err(e) => {
                return Err(e);
            },
        }
        let ghost before_remove = self.collections@;
        let _ = self.collections.remove(idx);
        proof {
            assert forall|k: int|
                0 <= k < self.collections@.len() implies (#[trigger] self.collections@[k]).0@
                != name@ by {
                if k < idx {
                    assert(self.collections@[k] == before_remove[k]);
                } else {
                    assert(self.collections@[k] == before_remove[k + 1]);
                }
            }
        }
        Ok(())
    }

    /// Drops a collection from the open set after closing it. The caller
    /// removes the collection's directory.
    pub fn drop_collection(&mut self, name: &str) -> (r: Result<(), Error>)
        requires
            old(self).wf(),
        ensures
            final(self).wf(),
            final(self).config == old(self).config,
            final(self).wal == old(self).wal,
            r is Ok ==> !final(self).has_collection(name@),
    {
        self.close_collection(name)
    }

    /// Inserts a document: the WAL entry first, then the collection's
    /// block store. The collection must be open.
    pub fn insert_document(&mut self, name: &str, id: &[u8], data: &[u8]) -> (r: Result<
        (),
        Error,
    >)
        requires
            old(self).wf(),
        ensures
            final(self).wf(),
            final(self).config == old(self).config,
            !old(self).has_collection(name@) ==> r is Err && *final(self) == *old(self),
            r is Ok ==> exists|k: int|
                {
                    &&& 0 <= k < final(self).collections@.len()
                    &&& (#[trigger] final(self).collections@[k]).0@ == name@
                    &&& final(self).collections@[k].1.entries() == old(self).collections@[
                        k
                    ].1.entries().push((id@, data@))
                },
            r is Ok ==> final(self).wal.active_transactions == old(self).wal.active_transactions,
            r is Ok ==> exists|jw: int, e: WalEntry, pos: int|
                #![trigger op_applied(
                    old(self).wal,
                    final(self).wal.collection_wals@[jw].1.log.bytes@,
                    name@,
                    e,
                    pos,
                )]
                {
                    &&& 0 <= jw < final(self).wal.collection_wals@.len()
                    &&& final(self).wal.collection_wals@[jw].0@ == name@
                    &&& e.wf()
                    &&& e.header.entry_type == EntryType::Insert
                    &&& e.header.collection_id == spec_name_hash(name.spec_bytes())
                    &&& e.header.transaction_id == 0
                    &&& e.header.document_id@ == id@
                    &&& e.data@ == data@
                    &&& 0 <= pos <= u64::MAX
                    &&& op_applied(
                        old(self).wal,
                        final(self).wal.collection_wals@[jw].1.log.bytes@,
                        name@,
                        e,
                        pos,
                    )
                    &&& cache_view(final(self).wal.entry_cache@) == cache_view(
                        old(self).wal.entry_cache@,
                    ).insert((name@, id@), pos as u64)
                },
    {
        let idx = match self.find_collection_index(name) {
            Some(i) => i,
            None => {
                return Err(Error::Other("collection not open".to_owned()));
            },
        };
        let ghost wal_after: WalManager;
        match self.wal.insert(name, id, data) {
            Ok(_) => {
                proof {
                    wal_after = self.wal;
                }
            },
            Err(e) => {
                return Err(e);
            },
        }
        let slot = collection_at(&mut self.collections, idx);
        let inserted = slot.1.insert(id, data);
        match inserted {
            Ok(_) => {
                proof {
                    assert(self.collections@[idx as int].0@ == name@);
                    assert(self.wal == wal_after);
                    let (jw, e, pos) = choose|jw: int, e: WalEntry, pos: int|
                        #![trigger op_applied(
                            old(self).wal,
                            wal_after.collection_wals@[jw].1.log.bytes@,
                            name@,
                            e,
                            pos,
                        )]
                        {
                            &&& 0 <= jw < wal_after.collection_wals@.len()
                            &&& wal_after.collection_wals@[jw].0@ == name@
                            &&& e.wf()
                            &&& e.header.entry_type == EntryType::Insert
                            &&& e.header.collection_id == spec_name_hash(name.spec_bytes())
                            &&& e.header.transaction_id == 0
                            &&& e.header.document_id@ == id@
                            &&& e.data@ == data@
                            &&& 0 <= pos <= u64::MAX
                            &&& op_applied(
                                old(self).wal,
                                wal_after.collection_wals@[jw].1.log.bytes@,
                                name@,
                                e,
                                pos,
                            )
                            &&& cache_view(wal_after.entry_cache@) == cache_view(
                                old(self).wal.entry_cache@,
                            ).insert((name@, id@), pos as u64)
                        };
                    assert(op_applied(
                        old(self).wal,
                        self.wal.collection_wals@[jw].1.log.bytes@,
                        name@,
                        e,
                        pos,
                    ));
                }
                Ok(())
            },
            Err(e) => Err(e),
        }
    }

    /// Retrieves a document from an open collection.
    pub fn get_document(&self, name: &str, id: &[u8]) -> (r: Result<Option<Vec<u8>>, Error>)
        requires
            self.wf(),
            id@.len() + 2 <= usize::MAX,
        ensures
            r is Ok <==> self.has_collection(name@),
            r is Ok ==> exists|k: int|
                {
                    &&& 0 <= k < self.collections@.len()
                    &&& (#[trigger] self.collections@[k]).0@ == name@
                    &&& (r->Ok_0 is Some <==> get_model(
                        self.collections@[k].1.entries(),
                        id@,
                    ) is Some)
                    &&& (r->Ok_0 is Some ==> r->Ok_0->0@ == get_model(
                        self.collections@[k].1.entries(),
                        id@,
                    )->0)
                },
    {
        let idx = match self.find_collection_index(name) {
            Some(i) => i,
            None => {
                return Err(Error::Other("collection not open".to_owned()));
            },
        };
        let found = self.collections[idx].1.get(id);
        proof {
            assert(self.collections@[idx as int].0@ == name@);
        }
        Ok(found)
    }

    /// Deletes a document: the WAL entry first, then the tombstone in the
    /// collection's block store. Reports whether the document was visible.
    pub fn delete_document(&mut self, name: &str, id: &[u8]) -> (r: Result<bool, Error>)
        requires
            old(self).wf(),
            id@.len() + 67 <= usize::MAX,
        ensures
            final(self).wf(),
            final(self).config == old(self).config,
            !old(self).has_collection(name@) ==> r is Err && *final(self) == *old(self),
            r is Ok ==> exists|k: int|
                {
                    &&& 0 <= k < final(self).collections@.len()
                    &&& (#[trigger] final(self).collections@[k]).0@ == name@
                    &&& (r->Ok_0 <==> get_model(
                        old(self).collections@[k].1.entries(),
                        id@,
                    ) is Some)
                    &&& (r->Ok_0 ==> get_model(
                        final(self).collections@[k].1.entries(),
                        id@,
                    ) is None)
                    &&& (!r->Ok_0 ==> final(self).collections@[k] == old(self).collections@[k])
                },
            r is Ok ==> final(self).wal.active_transactions == old(self).wal.active_transactions,
            r is Ok ==> exists|jw: int, e: WalEntry, pos: int|
                #![trigger op_applied(
                    old(self).wal,
                    final(self).wal.collection_wals@[jw].1.log.bytes@,
                    name@,
                    e,
                    pos,
                )]
                {
                    &&& 0 <= jw < final(self).wal.collection_wals@.len()
                    &&& final(self).wal.collection_wals@[jw].0@ == name@
                    &&& e.wf()
                    &&& e.header.entry_type == EntryType::Delete
                    &&& e.header.collection_id == spec_name_hash(name.spec_bytes())
                    &&& e.header.transaction_id == 0
                    &&& e.header.document_id@ == id@
                    &&& e.data@.len() == 0
                    &&& 0 <= pos <= u64::MAX
                    &&& op_applied(
                        old(self).wal,
                        final(self).wal.collection_wals@[jw].1.log.bytes@,
                        name@,
                        e,
                        pos,
                    )
                    &&& cache_view(final(self).wal.entry_cache@) == cache_view(
                        old(self).wal.entry_cache@,
                    ).insert((name@, id@), pos as u64)
                },
    {
        let idx = match self.find_collection_index(name) {
            Some(i) => i,
            None => {
                return Err(Error::Other("collection not open".to_owned()));
            },
        };
        let ghost wal_after: WalManager;
        match self.wal.delete(name, id) {
            Ok(_) => {
                proof {
                    wal_after = self.wal;
                }
            },
            Err(e) => {
                return Err(e);
            },
        }
        let ghost before = self.collections@[idx as int].1;
        let slot = collection_at(&mut self.collections, idx);
        let deleted = slot.1.delete(id);
        match deleted {
            Ok(hit) => {
                proof {
                    assert(self.collections@[idx as int].0@ == name@);
                    if hit {
                        let now_entries = self.collections@[idx as int].1.entries();
                        assert(spec_find_last(now_entries, spec_tombstone_id(id@)) is Some);
                    }
                    assert(self.wal == wal_after);
                    let (jw, e, pos) = choose|jw: int, e: WalEntry, pos: int|
                        #![trigger op_applied(
                            old(self).wal,
                            wal_after.collection_wals@[jw].1.log.bytes@,
                            name@,
                            e,
                            pos,
                        )]
                        {
                            &&& 0 <= jw < wal_after.collection_wals@.len()
                            &&& wal_after.collection_wals@[jw].0@ == name@
                            &&& e.wf()
                            &&& e.header.entry_type == EntryType::Delete
                            &&& e.header.collection_id == spec_name_hash(name.spec_bytes())
                            &&& e.header.transaction_id == 0
                            &&& e.header.document_id@ == id@
                            &&& e.data@.len() == 0
                            &&& 0 <= pos <= u64::MAX
                            &&& op_applied(
                                old(self).wal,
                                wal_after.collection_wals@[jw].1.log.bytes@,
                                name@,
                                e,
                                pos,
                            )
                            &&& cache_view(wal_after.entry_cache@) == cache_view(
                                old(self).wal.entry_cache@,
                            ).insert((name@, id@), pos as u64)
                        };
                    assert(op_applied(
                        old(self).wal,
                        self.wal.collection_wals@[jw].1.log.bytes@,
                        name@,
                        e,
                        pos,
                    ));
                }
                Ok(hit)
            },
            Err(e) => Err(e),
        }
    }

    /// Lists the visible document ids of an open collection.
    pub fn scan_documents(&self, name: &str) -> (r: Result<Vec<Vec<u8>>, Error>)
        requires
            self.wf(),
        ensures
            r is Ok <==> self.has_collection(name@),
            r is Ok ==> exists|k: int|
                {
                    &&& 0 <= k < self.collections@.len()
                    &&& (#[trigger] self.collections@[k]).0@ == name@
                    &&& views_of(r->Ok_0@) == visible_ids(
                        self.collections@[k].1.block_manager.scan_spec(),
                        self.collections@[k].1.entries(),
                    )
                },
    {
        let idx = match self.find_collection_index(name) {
            Some(i) => i,
            None => {
                return Err(Error::Other("collection not open".to_owned()));
            },
        };
        let ids = self.collections[idx].1.scan();
        proof {
            assert(self.collections@[idx as int].0@ == name@);
        }
        Ok(ids)
    }

    /// Begins a transaction through the WAL manager.
    pub fn begin_transaction(&mut self) -> (r: Result<u64, Error>)
        requires
            old(self).wf(),
        ensures
            final(self).wf(),
            final(self).collections == old(self).collections,
            r is Ok ==> final(self).wal.tx_active(r->Ok_0),
    {
        self.wal.begin_transaction()
    }

    /// Commits a transaction through the WAL manager.
    pub fn commit_transaction(&mut self, tx_id: u64) -> (r: Result<(), Error>)
        requires
            old(self).wf(),
        ensures
            final(self).wf(),
            final(self).collections == old(self).collections,
            (r is Err && r->Err_0 is UnknownTransaction) <==> !old(self).wal.tx_active(tx_id),
            r is Ok ==> !final(self).wal.tx_active(tx_id),
            r is Ok ==> old(self).wal.collection_wals@.len() > 0,
            r is Ok ==> exists|e: WalEntry, pos: int|
                #![trigger op_applied(
                    old(self).wal,
                    final(self).wal.collection_wals@[0].1.log.bytes@,
                    spec_tx_home(old(self).wal),
                    e,
                    pos,
                )]
                {
                    &&& final(self).wal.collection_wals@.len() == old(
                        self,
                    ).wal.collection_wals@.len()
                    &&& final(self).wal.collection_wals@[0].0 == old(self).wal.collection_wals@[0].0
                    &&& e.wf()
                    &&& e.header.entry_type == EntryType::CommitTx
                    &&& e.header.transaction_id == tx_id
                    &&& 0 <= pos <= u64::MAX
                    &&& op_applied(
                        old(self).wal,
                        final(self).wal.collection_wals@[0].1.log.bytes@,
                        spec_tx_home(old(self).wal),
                        e,
                        pos,
                    )
                },
    {
        self.wal.commit_transaction(tx_id)
    }

    /// Aborts a transaction through the WAL manager.
    pub fn abort_transaction(&mut self, tx_id: u64) -> (r: Result<(), Error>)
        requires
            old(self).wf(),
        ensures
            final(self).wf(),
            final(self).collections == old(self).collections,
            (r is Err && r->Err_0 is UnknownTransaction) <==> !old(self).wal.tx_active(tx_id),
            r is Ok ==> !final(self).wal.tx_active(tx_id),
            r is Ok ==> old(self).wal.collection_wals@.len() > 0,
            r is Ok ==> exists|e: WalEntry, pos: int|
                #![trigger op_applied(
                    old(self).wal,
                    final(self).wal.collection_wals@[0].1.log.bytes@,
                    spec_tx_home(old(self).wal),
                    e,
                    pos,
                )]
                {
                    &&& final(self).wal.collection_wals@.len() == old(
                        self,
                    ).wal.collection_wals@.len()
                    &&& final(self).wal.collection_wals@[0].0 == old(self).wal.collection_wals@[0].0
                    &&& e.wf()
                    &&& e.header.entry_type == EntryType::AbortTx
                    &&& e.header.transaction_id == tx_id
                    &&& 0 <= pos <= u64::MAX
                    &&& op_applied(
                        old(self).wal,
                        final(self).wal.collection_wals@[0].1.log.bytes@,
                        spec_tx_home(old(self).wal),
                        e,
                        pos,
                    )
                },
    {
        self.wal.abort_transaction(tx_id)
    }

    /// Checkpoints every open collection: a WAL marker each, then a flush
    /// of each block manager, so every collection's visible entries are
    /// preserved and fully persisted and each has an open log.
    pub fn checkpoint(&mut self) -> (r: Result<(), Error>)
        requires
            old(self).wf(),
        ensures
            final(self).wf(),
            final(self).config == old(self).config,
            r is Ok ==> final(self).collections@.len() == old(self).collections@.len(),
            r is Ok ==> forall|k: int|
                0 <= k < old(self).collections@.len() ==> {
                    &&& (#[trigger] final(self).collections@[k]).0 == old(self).collections@[k].0
                    &&& final(self).collections@[k].1.entries() == old(
                        self,
                    ).collections@[k].1.entries()
                    &&& final(self).collections@[k].1.block_manager.persisted_entries() == old(
                        self,
                    ).collections@[k].1.entries()
                    &&& final(self).collections@[k].1.block_manager.active_entries().len() == 0
                    &&& final(self).wal.has_wal(old(self).collections@[k].0@)
                },
    {
        let n = self.collections.len();
        let mut i: usize = 0;
        while i < n
            invariant
                0 <= i <= n,
                n == self.collections@.len(),
                n == old(self).collections@.len(),
                self.wf(),
                self.config == old(self).config,
                forall|k: int|
                    i <= k < n ==> #[trigger] self.collections@[k] == old(self).collections@[k],
                forall|k: int|
                    0 <= k < i ==> {
                        &&& (#[trigger] self.collections@[k]).0 == old(self).collections@[k].0
                        &&& self.collections@[k].1.entries() == old(
                            self,
                        ).collections@[k].1.entries()
                        &&& self.collections@[k].1.block_manager.persisted_entries() == old(
                            self,
                        ).collections@[k].1.entries()
                        &&& self.collections@[k].1.block_manager.active_entries().len() == 0
                        &&& self.wal.has_wal(old(self).collections@[k].0@)
                    },
            decreases n - i,
        {
            let ghost wal_pre = self.wal;
            let marked = self.wal.checkpoint(self.collections[i].0.as_str());
            match marked {
                Ok(_) => {},
                Err(e) => {
                    return Err(e);
                },
            }
            proof {
                let this_name = old(self).collections@[i as int].0@;
                assert(self.wal.has_wal(this_name)) by {
                    let (jw, e, pos) = choose|jw: int, e: WalEntry, pos: int|
                        #![trigger op_applied(
                            wal_pre,
                            self.wal.collection_wals@[jw].1.log.bytes@,
                            this_name,
                            e,
                            pos,
                        )]
                        {
                            &&& 0 <= jw < self.wal.collection_wals@.len()
                            &&& self.wal.collection_wals@[jw].0@ == this_name
                            &&& e.wf()
                            &&& e.header.entry_type == EntryType::Checkpoint
                            &&& op_applied(
                                wal_pre,
                                self.wal.collection_wals@[jw].1.log.bytes@,
                                this_name,
                                e,
                                pos,
                            )
                        };
                }
                assert forall|k: int| 0 <= k < i implies #[trigger] self.wal.has_wal(
                    old(self).collections@[k].0@,
                ) by {
                    let prev_name = old(self).collections@[k].0@;
                    let k0 = choose|k0: int|
                        0 <= k0 < wal_pre.collection_wals@.len() && (
                        #[trigger] wal_pre.collection_wals@[k0]).0@ == prev_name;
                    assert(self.collections@[k].0@ == prev_name);
                    assert(self.collections@[i as int].0@ == this_name);
                    assert(self.collections@[k].0@ != self.collections@[i as int].0@);
                    assert(prev_name != this_name);
                    assert(self.wal.collection_wals@[k0].0 == wal_pre.collection_wals@[k0].0);
                }
            }
            let ghost pre = self.collections@;
            let slot = collection_at(&mut self.collections, i);
            let flushed = slot.1.close();
            proof {
                assert(forall|k: int|
                    0 <= k < pre.len() && k != i ==> #[trigger] self.collections@[k] == pre[k]);
                assert(self.collections@[i as int].0 == pre[i as int].0);
            }
            match flushed {
                Ok(_) => {},
                Err(e) => {
                    return Err(e);
                },
            }
            i = i + 1;
        }
        Ok(())
    }

    /// Closes the store: flushes and drops every open collection.
    pub fn close(&mut self) -> (r: Result<(), Error>)
        requires
            old(self).wf(),
        ensures
            final(self).wf(),
            final(self).config == old(self).config,
            r is Ok ==> final(self).collections@.len() == 0,
    {
        while self.collections.len() > 0
            invariant
                self.wf(),
                self.config == old(self).config,
            decreases self.collections@.len(),
        {
            let last = self.collections.len() - 1;
            let slot = collection_at(&mut self.collections, last);
            let closed = slot.1.close();
            match closed {
                Ok(_) => {},
                Err(e) => {
                    return Err(e);
                },
            }
            let _ = self.collections.pop();
        }
        Ok(())
    }
}

impl StorageConfig {
    /// A field-for-field copy handed to each collection.
    pub fn clone_for_collection(&self) -> (r: Self)
        ensures
            r == *self,
    {
        StorageConfig {
            base: crate::config::Config {
                data_dir: self.base.data_dir.clone(),
                max_size: self.base.max_size,
            },
            block_size: self.block_size,
            compression: self.compression,
            flush_threshold: self.flush_threshold,
        }
    }
}

/// A mutable handle on one slot of the collection table.
fn collection_at(v: &mut Vec<(String, Collection)>, i: usize) -> (r: &mut (String, Collection))
    requires
        i < old(v).len(),
    ensures
        *r == old(v)@[i as int],
        final(v)@ == old(v)@.update(i as int, *final(r)),
{
    &mut v[i]
}

} // verus!
