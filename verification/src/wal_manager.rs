//! WAL manager: one log per collection, transaction tracking, checkpoint
//! scheduling, and crash recovery.
//!
//! The manager owns every log image. The surrounding binary persists a log's
//! bytes after each operation and, for recovery, hands the manager the raw
//! images of the `.wal` files it finds.

use vstd::prelude::*;
use vstd::string::StringSliceAdditionalSpecFns;
use crate::clock::now_unix_seconds;
use crate::config::WalConfig;
use crate::errors::{Error, WalError};
use crate::wal_entry::{spec_wal_entry_bytes, EntryType, WalEntry, WalEntryModel};
use crate::wal_log::{wal_framed, WalLog};

verus! {

/// The deterministic 64-bit fold that names a collection on disk:
/// start at 0 and, for each byte of the name, multiply by 31 and add the
/// byte, wrapping at 64 bits.
pub open spec fn spec_name_hash(bytes: Seq<u8>) -> u64
    decreases bytes.len(),
{
    if bytes.len() == 0 {
        0u64
    } else {
        vstd::wrapping::u64_specs::wrapping_add(
            vstd::wrapping::u64_specs::wrapping_mul(spec_name_hash(bytes.drop_last()), 31),
            bytes.last() as u64,
        )
    }
}

/// Derives the collection id from a collection name; stable across runs
/// and processes.
pub fn collection_id_from_name(name: &str) -> (r: u64)
    ensures
        r == spec_name_hash(name.spec_bytes()),
{
    let bytes = name.as_bytes();
    let mut hash: u64 = 0;
    let mut i: usize = 0;
    while i < bytes.len()
        invariant
            0 <= i <= bytes@.len(),
            bytes@ == name.spec_bytes(),
            hash == spec_name_hash(bytes@.take(i as int)),
        decreases bytes@.len() - i,
    {
        proof {
            assert(bytes@.take(i + 1).drop_last() =~= bytes@.take(i as int));
            assert(bytes@.take(i + 1).last() == bytes@[i as int]);
        }
        hash = hash.wrapping_mul(31).wrapping_add(bytes[i] as u64);
        i = i + 1;
    }
    proof {
        assert(bytes@.take(bytes@.len() as int) =~= bytes@);
    }
    hash
}

/// A collection's write-ahead log and its bookkeeping.
#[derive(Debug, Clone)]
pub struct CollectionWal {
    /// The log image.
    pub log: WalLog,
    /// Path of the log file, for the caller that persists it.
    pub path: String,
    /// When the collection was last checkpointed, in seconds since the
    /// Unix epoch.
    pub last_checkpoint: u64,
    /// The next transaction id this collection's counter hands out.
    pub next_tx_id: u64,
}

/// The recovery index view: the newest WAL position recorded for each
/// `(collection name, document id)` pair, later records overriding earlier.
pub open spec fn cache_view(s: Seq<(String, Vec<u8>, u64)>) -> Map<(Seq<char>, Seq<u8>), u64>
    decreases s.len(),
{
    if s.len() == 0 {
        Map::empty()
    } else {
        cache_view(s.drop_last()).insert((s.last().0@, s.last().1@), s.last().2)
    }
}

/// Whether `post` is `pre` untouched or extended by exactly one checkpoint
/// marker for the collection: the trace an opportunistic auto-checkpoint
/// may leave on a log between two operations.
pub open spec fn auto_ck_extension(pre: Seq<u8>, post: Seq<u8>) -> bool {
    ||| post == pre
    ||| exists|c: WalEntry|
        c.wf() && c.header.entry_type == EntryType::Checkpoint && post == pre
            + spec_wal_entry_bytes(c)
}

/// The effect of one logged operation on its collection's log: after the
/// optional auto-checkpoint, the entry's frame is appended, and `pos` is
/// where it begins.
pub open spec fn op_log_effect(pre: Seq<u8>, post: Seq<u8>, e: WalEntry, pos: int) -> bool {
    exists|mid: Seq<u8>|
        auto_ck_extension(pre, mid) && post == mid + spec_wal_entry_bytes(e) && pos == mid.len()
}

/// Whether every collection other than the named one kept its log entry:
/// same name, counter, path and checkpoint time, and a log grown by at
/// most the one marker an opportunistic auto-checkpoint may add.
pub open spec fn other_logs_preserved(pre: WalManager, post: WalManager, name: Seq<char>) -> bool {
    forall|k: int|
        0 <= k < pre.collection_wals@.len() && (#[trigger] pre.collection_wals@[k]).0@ != name
            ==> {
            &&& k < post.collection_wals@.len()
            &&& post.collection_wals@[k].0 == pre.collection_wals@[k].0
            &&& post.collection_wals@[k].1.next_tx_id == pre.collection_wals@[k].1.next_tx_id
            &&& post.collection_wals@[k].1.path == pre.collection_wals@[k].1.path
            &&& post.collection_wals@[k].1.last_checkpoint
                == pre.collection_wals@[k].1.last_checkpoint
            &&& auto_ck_extension(
                pre.collection_wals@[k].1.log.bytes@,
                post.collection_wals@[k].1.log.bytes@,
            )
        }
}

/// Manages WAL operations for every collection of one store.
pub struct WalManager {
    /// WAL configuration.
    pub config: WalConfig,
    /// Open logs, one per collection, in the order they were opened.
    pub collection_wals: Vec<(String, CollectionWal)>,
    /// Active transactions: each id with the positions of its entries.
    pub active_transactions: Vec<(u64, Vec<u64>)>,
    /// Recovery index: the newest position for each `(collection, id)`.
    pub entry_cache: Vec<(String, Vec<u8>, u64)>,
    /// When the last auto-checkpoint pass ran.
    pub last_auto_checkpoint: u64,
}

impl WalManager {
    /// The manager's invariant: one log per collection name, each with a
    /// sound preamble, and distinct active transaction ids.
    pub open spec fn wf(&self) -> bool {
        &&& forall|i: int, j: int|
            0 <= i < j < self.collection_wals@.len() ==> (
            #[trigger] self.collection_wals@[i]).0@ != (#[trigger] self.collection_wals@[j]).0@
        &&& forall|i: int|
            0 <= i < self.collection_wals@.len() ==> (
            #[trigger] self.collection_wals@[i]).1.log.wf()
        &&& forall|i: int|
            0 <= i < self.collection_wals@.len() ==> (
            #[trigger] self.collection_wals@[i]).1.next_tx_id >= 1
        &&& forall|i: int, j: int|
            0 <= i < j < self.active_transactions@.len() ==> (
            #[trigger] self.active_transactions@[i]).0 != (
            #[trigger] self.active_transactions@[j]).0
    }

    /// Whether a collection of this name has an open log.
    pub open spec fn has_wal(&self, name: Seq<char>) -> bool {
        exists|i: int|
            0 <= i < self.collection_wals@.len() && (#[trigger] self.collection_wals@[i]).0@
                == name
    }

    /// Whether a transaction id is active.
    pub open spec fn tx_active(&self, tx_id: u64) -> bool {
        exists|i: int|
            0 <= i < self.active_transactions@.len() && (
            #[trigger] self.active_transactions@[i]).0 == tx_id
    }

    /// Creates a manager with no open logs. The caller creates the WAL
    /// directory named by the configuration.
    pub fn new(config: WalConfig) -> (r: Self)
        ensures
            r.wf(),
            r.config == config,
            r.collection_wals@.len() == 0,
            r.active_transactions@.len() == 0,
            r.entry_cache@.len() == 0,
    {
        WalManager {
            config,
            collection_wals: Vec::new(),
            active_transactions: Vec::new(),
            entry_cache: Vec::new(),
            last_auto_checkpoint: now_unix_seconds(),
        }
    }

    /// The path of a collection's WAL file under the configured directory.
    pub fn wal_path(&self, collection_name: &str) -> (r: String)
        ensures
            r@ == self.config.dir_path@ + "/"@ + collection_name@ + ".wal"@,
    {
        let mut p = self.config.dir_path.clone();
        p.append("/");
        p.append(collection_name);
        p.append(".wal");
        p
    }

    /// The index of the collection's log, if one is open.
    fn find_wal_index(&self, collection_name: &str) -> (r: Option<usize>)
        ensures
            r is Some ==> 0 <= r->0 < self.collection_wals@.len() && self.collection_wals@[
                r->0 as int
            ].0@ == collection_name@,
            r is None ==> !self.has_wal(collection_name@),
    {
        let name = collection_name.to_owned();
        let mut i: usize = 0;
        while i < self.collection_wals.len()
            invariant
                0 <= i <= self.collection_wals@.len(),
                name@ == collection_name@,
                forall|j: int|
                    0 <= j < i ==> (#[trigger] self.collection_wals@[j]).0@ != collection_name@,
            decreases self.collection_wals@.len() - i,
        {
            if self.collection_wals[i].0 == name {
                return Some(i);
            }
            i = i + 1;
        }
        None
    }

    /// Opens the collection's log entry in the table, creating a fresh
    /// empty log when none is open yet. Returns the log's index.
    fn ensure_wal(&mut self, collection_name: &str) -> (idx: usize)
        requires
            old(self).wf(),
        ensures
            final(self).wf(),
            final(self).config == old(self).config,
            final(self).entry_cache == old(self).entry_cache,
            final(self).active_transactions == old(self).active_transactions,
            final(self).last_auto_checkpoint == old(self).last_auto_checkpoint,
            0 <= idx < final(self).collection_wals@.len(),
            final(self).collection_wals@[idx as int].0@ == collection_name@,
            old(self).has_wal(collection_name@) ==> final(self).collection_wals
                == old(self).collection_wals,
            !old(self).has_wal(collection_name@) ==> {
                &&& idx == old(self).collection_wals@.len()
                &&& final(self).collection_wals@ == old(self).collection_wals@.push(
                    final(self).collection_wals@[idx as int],
                )
                &&& final(self).collection_wals@[idx as int].1.log.bytes@.len() == 16
                &&& wal_framed(final(self).collection_wals@[idx as int].1.log.bytes@, 16)
                &&& final(self).collection_wals@[idx as int].1.next_tx_id == 1
            },
    {
        match self.find_wal_index(collection_name) {
            Some(i) => i,
            None => {
                let log = WalLog::create(self.config.sync_on_write);
                let path = self.wal_path(collection_name);
                let wal = CollectionWal {
                    log,
                    path,
                    last_checkpoint: now_unix_seconds(),
                    next_tx_id: 1,
                };
                let idx = self.collection_wals.len();
                self.collection_wals.push((collection_name.to_owned(), wal));
                idx
            },
        }
    }

    /// Appends a checkpoint marker to every open log when the configured
    /// interval has elapsed since the last pass. Transactions, the recovery
    /// index and every counter stay as they were; each log gains at most
    /// one checkpoint marker.
    pub fn check_auto_checkpoint(&mut self) -> (r: Result<(), Error>)
        requires
            old(self).wf(),
        ensures
            final(self).wf(),
            final(self).config == old(self).config,
            final(self).entry_cache == old(self).entry_cache,
            final(self).active_transactions == old(self).active_transactions,
            final(self).collection_wals@.len() == old(self).collection_wals@.len(),
            forall|i: int|
                0 <= i < old(self).collection_wals@.len() ==> {
                    &&& (#[trigger] final(self).collection_wals@[i]).0
                        == old(self).collection_wals@[i].0
                    &&& final(self).collection_wals@[i].1.next_tx_id
                        == old(self).collection_wals@[i].1.next_tx_id
                    &&& final(self).collection_wals@[i].1.path
                        == old(self).collection_wals@[i].1.path
                    &&& final(self).collection_wals@[i].1.last_checkpoint
                        == old(self).collection_wals@[i].1.last_checkpoint
                    &&& auto_ck_extension(
                        old(self).collection_wals@[i].1.log.bytes@,
                        final(self).collection_wals@[i].1.log.bytes@,
                    )
                },
            r is Err ==> r->Err_0 is Other,
    {
        if self.config.checkpoint_interval == 0 {
            return Ok(());
        }
        let now = now_unix_seconds();
        let elapsed = if now >= self.last_auto_checkpoint {
            now - self.last_auto_checkpoint
        } else {
            0
        };
        if elapsed < self.config.checkpoint_interval {
            return Ok(());
        }
        let n = self.collection_wals.len();
        let mut i: usize = 0;
        while i < n
            invariant
                0 <= i <= n,
                n == self.collection_wals@.len(),
                old(self).wf(),
                self.wf(),
                self.config == old(self).config,
                self.entry_cache == old(self).entry_cache,
                self.active_transactions == old(self).active_transactions,
                self.collection_wals@.len() == old(self).collection_wals@.len(),
                forall|k: int|
                    0 <= k < old(self).collection_wals@.len() ==> {
                        &&& (#[trigger] self.collection_wals@[k]).0
                            == old(self).collection_wals@[k].0
                        &&& self.collection_wals@[k].1.next_tx_id
                            == old(self).collection_wals@[k].1.next_tx_id
                        &&& self.collection_wals@[k].1.path
                            == old(self).collection_wals@[k].1.path
                        &&& self.collection_wals@[k].1.last_checkpoint
                            == old(self).collection_wals@[k].1.last_checkpoint
                        &&& auto_ck_extension(
                            old(self).collection_wals@[k].1.log.bytes@,
                            self.collection_wals@[k].1.log.bytes@,
                        )
                    },
                forall|k: int|
                    i <= k < old(self).collection_wals@.len() ==> #[trigger] self.collection_wals@[
                        k
                    ] == old(self).collection_wals@[k],
            decreases n - i,
        {
            let name_hash = collection_id_from_name(self.collection_wals[i].0.as_str());
            let entry = WalEntry::checkpoint(name_hash);
            let ghost pre = self.collection_wals@;
            proof {
                assert((pre[i as int]).1.log.wf());
            }
            let slot = wal_entry_at(&mut self.collection_wals, i);
            let appended = slot.1.log.append(&entry);
            proof {
                assert(self.collection_wals@[i as int].0 == pre[i as int].0);
                assert(forall|k: int|
                    0 <= k < pre.len() && k != i ==> #[trigger] self.collection_wals@[k] == pre[
                    k]);
            }
            match appended {
                Ok(_) => {
                    proof {
                        let c = entry;
                        assert(c.wf() && c.header.entry_type == EntryType::Checkpoint
                            && self.collection_wals@[i as int].1.log.bytes@ == old(
                            self,
                        ).collection_wals@[i as int].1.log.bytes@ + spec_wal_entry_bytes(c));
                    }
                },
                Err(_) => {
                    return Err(Error::Other("wal append failed".to_owned()));
                },
            }
            i = i + 1;
        }
        self.last_auto_checkpoint = now;
        Ok(())
    }
}

impl WalManager {
    /// Validates, makes the collection's log ready, lets the opportunistic
    /// checkpoint run, and appends one typed entry. Returns the position at
    /// which the entry's frame begins.
    fn log_operation(
        &mut self,
        entry_type: EntryType,
        collection_name: &str,
        tx_id: u64,
        document_id: &[u8],
        document_data: &[u8],
    ) -> (r: (Result<u64, Error>, Ghost<(int, WalEntry)>))
        requires
            old(self).wf(),
        ensures
            final(self).wf(),
            final(self).config == old(self).config,
            final(self).entry_cache == old(self).entry_cache,
            final(self).active_transactions == old(self).active_transactions,
            (r.0 is Err && r.0->Err_0 is ArgumentOutOfRange) <==> (document_id@.len() > 0xFFFF
                || document_data@.len() > 0xFFFF_FFFF),
            r.0 is Err ==> (r.0->Err_0 is ArgumentOutOfRange || r.0->Err_0 is Other),
            r.0 is Ok ==> other_logs_preserved(*old(self), *final(self), collection_name@),
            r.0 is Ok ==> {
                let (j, e) = r.1@;
                &&& 0 <= j < final(self).collection_wals@.len()
                &&& final(self).collection_wals@[j].0@ == collection_name@
                &&& e.wf()
                &&& e.header.entry_type == entry_type
                &&& e.header.collection_id == spec_name_hash(collection_name.spec_bytes())
                &&& e.header.transaction_id == tx_id
                &&& e.header.document_id@ == document_id@
                &&& e.data@ == document_data@
                &&& op_applied(
                    *old(self),
                    final(self).collection_wals@[j].1.log.bytes@,
                    collection_name@,
                    e,
                    r.0->Ok_0 as int,
                )
            },
    {
        if document_id.len() > 0xFFFF {
            return (Err(Error::ArgumentOutOfRange), Ghost(arbitrary()));
        }
        if (document_data.len() as u64) > 0xFFFF_FFFFu64 {
            return (Err(Error::ArgumentOutOfRange), Ghost(arbitrary()));
        }
        let collection_id = collection_id_from_name(collection_name);
        let idx = self.ensure_wal(collection_name);
        proof {
            if old(self).has_wal(collection_name@) {
                let j0 = choose|j0: int|
                    0 <= j0 < old(self).collection_wals@.len() && (
                    #[trigger] old(self).collection_wals@[j0]).0@ == collection_name@;
                assert(self.collection_wals@[idx as int].0@ == old(
                    self,
                ).collection_wals@[j0].0@);
                assert(idx == j0);
                assert(self.collection_wals@[idx as int].1.log.bytes@ == spec_pre_log(
                    *old(self),
                    collection_name@,
                ));
            } else {
                assert(self.collection_wals@[idx as int].1.log.bytes@.len() == 16);
            }
        }
        let ghost after_ensure = *self;
        match self.check_auto_checkpoint() {
            Ok(_) => {},
            Err(e) => {
                return (Err(e), Ghost(arbitrary()));
            },
        }
        let entry = WalEntry::new(
            entry_type,
            collection_id,
            tx_id,
            vstd::slice::slice_to_vec(document_id),
            vstd::slice::slice_to_vec(document_data),
        );
        proof {
            assert((self.collection_wals@[idx as int]).1.log.wf());
            assert(auto_ck_extension(
                after_ensure.collection_wals@[idx as int].1.log.bytes@,
                self.collection_wals@[idx as int].1.log.bytes@,
            ));
        }
        let ghost mid = self.collection_wals@[idx as int].1.log.bytes@;
        let slot = wal_entry_at(&mut self.collection_wals, idx);
        let appended = slot.1.log.append(&entry);
        match appended {
            Ok(pos) => {
                proof {
                    assert(self.collection_wals@[idx as int].1.log.bytes@ == mid
                        + spec_wal_entry_bytes(entry));
                    assert(op_log_effect(
                        (if old(self).has_wal(collection_name@) {
                            spec_pre_log(*old(self), collection_name@)
                        } else {
                            after_ensure.collection_wals@[idx as int].1.log.bytes@
                        }),
                        self.collection_wals@[idx as int].1.log.bytes@,
                        entry,
                        pos as int,
                    ));
                    assert(op_applied(
                        *old(self),
                        self.collection_wals@[idx as int].1.log.bytes@,
                        collection_name@,
                        entry,
                        pos as int,
                    ));
                    assert forall|k: int|
                        0 <= k < old(self).collection_wals@.len() && (
                        #[trigger] old(self).collection_wals@[k]).0@ != collection_name@ implies {
                        &&& k < self.collection_wals@.len()
                        &&& self.collection_wals@[k].0 == old(self).collection_wals@[k].0
                        &&& self.collection_wals@[k].1.next_tx_id
                            == old(self).collection_wals@[k].1.next_tx_id
                        &&& self.collection_wals@[k].1.path
                            == old(self).collection_wals@[k].1.path
                        &&& self.collection_wals@[k].1.last_checkpoint
                            == old(self).collection_wals@[k].1.last_checkpoint
                        &&& auto_ck_extension(
                            old(self).collection_wals@[k].1.log.bytes@,
                            self.collection_wals@[k].1.log.bytes@,
                        )
                    } by {
                        assert(after_ensure.collection_wals@[k] == old(
                            self,
                        ).collection_wals@[k]);
                        assert(after_ensure.collection_wals@[k].0@ != collection_name@);
                        assert(k != idx);
                    }
                    assert(other_logs_preserved(*old(self), *self, collection_name@));
                }
                (Ok(pos), Ghost((idx as int, entry)))
            },
            Err(_) => (Err(Error::Other("wal append failed".to_owned())), Ghost(arbitrary())),
        }
    }

    /// Logs a non-transactional insert and records the newest position for
    /// the document in the recovery index.
    pub fn insert(
        &mut self,
        collection_name: &str,
        document_id: &[u8],
        document_data: &[u8],
    ) -> (r: Result<(), Error>)
        requires
            old(self).wf(),
        ensures
            final(self).wf(),
            final(self).config == old(self).config,
            final(self).active_transactions == old(self).active_transactions,
            (r is Err && r->Err_0 is ArgumentOutOfRange) <==> (document_id@.len() > 0xFFFF
                || document_data@.len() > 0xFFFF_FFFF),
            r is Err ==> (r->Err_0 is ArgumentOutOfRange || r->Err_0 is Other),
            r is Err ==> final(self).entry_cache == old(self).entry_cache,
            r is Ok ==> other_logs_preserved(*old(self), *final(self), collection_name@),
            r is Ok ==> exists|j: int, e: WalEntry, pos: int|
                #![trigger op_applied(
                    *old(self),
                    final(self).collection_wals@[j].1.log.bytes@,
                    collection_name@,
                    e,
                    pos,
                )]
                {
                    &&& 0 <= j < final(self).collection_wals@.len()
                    &&& final(self).collection_wals@[j].0@ == collection_name@
                    &&& e.wf()
                    &&& e.header.entry_type == EntryType::Insert
                    &&& e.header.collection_id == spec_name_hash(collection_name.spec_bytes())
                    &&& e.header.transaction_id == 0
                    &&& e.header.document_id@ == document_id@
                    &&& e.data@ == document_data@
                    &&& 0 <= pos <= u64::MAX
                    &&& op_applied(
                        *old(self),
                        final(self).collection_wals@[j].1.log.bytes@,
                        collection_name@,
                        e,
                        pos,
                    )
                    &&& cache_view(final(self).entry_cache@) == cache_view(
                        old(self).entry_cache@,
                    ).insert((collection_name@, document_id@), pos as u64)
                },
    {
        self.log_typed(EntryType::Insert, collection_name, document_id, document_data)
    }

    /// Logs a non-transactional update and records the newest position for
    /// the document in the recovery index.
    pub fn update(
        &mut self,
        collection_name: &str,
        document_id: &[u8],
        document_data: &[u8],
    ) -> (r: Result<(), Error>)
        requires
            old(self).wf(),
        ensures
            final(self).wf(),
            final(self).config == old(self).config,
            final(self).active_transactions == old(self).active_transactions,
            (r is Err && r->Err_0 is ArgumentOutOfRange) <==> (document_id@.len() > 0xFFFF
                || document_data@.len() > 0xFFFF_FFFF),
            r is Err ==> (r->Err_0 is ArgumentOutOfRange || r->Err_0 is Other),
            r is Err ==> final(self).entry_cache == old(self).entry_cache,
            r is Ok ==> other_logs_preserved(*old(self), *final(self), collection_name@),
            r is Ok ==> exists|j: int, e: WalEntry, pos: int|
                #![trigger op_applied(
                    *old(self),
                    final(self).collection_wals@[j].1.log.bytes@,
                    collection_name@,
                    e,
                    pos,
                )]
                {
                    &&& 0 <= j < final(self).collection_wals@.len()
                    &&& final(self).collection_wals@[j].0@ == collection_name@
                    &&& e.wf()
                    &&& e.header.entry_type == EntryType::Update
                    &&& e.header.collection_id == spec_name_hash(collection_name.spec_bytes())
                    &&& e.header.transaction_id == 0
                    &&& e.header.document_id@ == document_id@
                    &&& e.data@ == document_data@
                    &&& 0 <= pos <= u64::MAX
                    &&& op_applied(
                        *old(self),
                        final(self).collection_wals@[j].1.log.bytes@,
                        collection_name@,
                        e,
                        pos,
                    )
                    &&& cache_view(final(self).entry_cache@) == cache_view(
                        old(self).entry_cache@,
                    ).insert((collection_name@, document_id@), pos as u64)
                },
    {
        self.log_typed(EntryType::Update, collection_name, document_id, document_data)
    }

    /// Logs a non-transactional delete — an entry with no payload — and
    /// records its position in the recovery index.
    pub fn delete(&mut self, collection_name: &str, document_id: &[u8]) -> (r: Result<
        (),
        Error,
    >)
        requires
            old(self).wf(),
        ensures
            final(self).wf(),
            final(self).config == old(self).config,
            final(self).active_transactions == old(self).active_transactions,
            (r is Err && r->Err_0 is ArgumentOutOfRange) <==> document_id@.len() > 0xFFFF,
            r is Err ==> (r->Err_0 is ArgumentOutOfRange || r->Err_0 is Other),
            r is Err ==> final(self).entry_cache == old(self).entry_cache,
            r is Ok ==> other_logs_preserved(*old(self), *final(self), collection_name@),
            r is Ok ==> exists|j: int, e: WalEntry, pos: int|
                #![trigger op_applied(
                    *old(self),
                    final(self).collection_wals@[j].1.log.bytes@,
                    collection_name@,
                    e,
                    pos,
                )]
                {
                    &&& 0 <= j < final(self).collection_wals@.len()
                    &&& final(self).collection_wals@[j].0@ == collection_name@
                    &&& e.wf()
                    &&& e.header.entry_type == EntryType::Delete
                    &&& e.header.collection_id == spec_name_hash(collection_name.spec_bytes())
                    &&& e.header.transaction_id == 0
                    &&& e.header.document_id@ == document_id@
                    &&& e.data@.len() == 0
                    &&& 0 <= pos <= u64::MAX
                    &&& op_applied(
                        *old(self),
                        final(self).collection_wals@[j].1.log.bytes@,
                        collection_name@,
                        e,
                        pos,
                    )
                    &&& cache_view(final(self).entry_cache@) == cache_view(
                        old(self).entry_cache@,
                    ).insert((collection_name@, document_id@), pos as u64)
                },
    {
        let empty: Vec<u8> = Vec::new();
        self.log_typed(EntryType::Delete, collection_name, document_id, empty.as_slice())
    }

    /// The shared body of the three non-transactional operations.
    fn log_typed(
        &mut self,
        entry_type: EntryType,
        collection_name: &str,
        document_id: &[u8],
        document_data: &[u8],
    ) -> (r: Result<(), Error>)
        requires
            old(self).wf(),
        ensures
            final(self).wf(),
            final(self).config == old(self).config,
            final(self).active_transactions == old(self).active_transactions,
            (r is Err && r->Err_0 is ArgumentOutOfRange) <==> (document_id@.len() > 0xFFFF
                || document_data@.len() > 0xFFFF_FFFF),
            r is Err ==> (r->Err_0 is ArgumentOutOfRange || r->Err_0 is Other),
            r is Err ==> final(self).entry_cache == old(self).entry_cache,
            r is Ok ==> other_logs_preserved(*old(self), *final(self), collection_name@),
            r is Ok ==> exists|j: int, e: WalEntry, pos: int|
                #![trigger op_applied(
                    *old(self),
                    final(self).collection_wals@[j].1.log.bytes@,
                    collection_name@,
                    e,
                    pos,
                )]
                {
                    &&& 0 <= j < final(self).collection_wals@.len()
                    &&& final(self).collection_wals@[j].0@ == collection_name@
                    &&& e.wf()
                    &&& e.header.entry_type == entry_type
                    &&& e.header.collection_id == spec_name_hash(collection_name.spec_bytes())
                    &&& e.header.transaction_id == 0
                    &&& e.header.document_id@ == document_id@
                    &&& e.data@ == document_data@
                    &&& 0 <= pos <= u64::MAX
                    &&& op_applied(
                        *old(self),
                        final(self).collection_wals@[j].1.log.bytes@,
                        collection_name@,
                        e,
                        pos,
                    )
                    &&& cache_view(final(self).entry_cache@) == cache_view(
                        old(self).entry_cache@,
                    ).insert((collection_name@, document_id@), pos as u64)
                },
    {
        let (outcome, witness) = self.log_operation(
            entry_type,
            collection_name,
            0,
            document_id,
            document_data,
        );
        let position = match outcome {
            Ok(p) => p,
            Err(e) => {
                return Err(e);
            },
        };
        self.entry_cache.push(
            (collection_name.to_owned(), vstd::slice::slice_to_vec(document_id), position),
        );
        proof {
            assert(self.entry_cache@.drop_last() =~= old(self).entry_cache@);
            let (j, e) = witness@;
            assert(op_applied(
                *old(self),
                self.collection_wals@[j].1.log.bytes@,
                collection_name@,
                e,
                position as int,
            ));
            assert(cache_view(self.entry_cache@) == cache_view(old(self).entry_cache@).insert(
                (collection_name@, document_id@),
                position,
            ));
        }
        Ok(())
    }
}

/// The collection's log image before an operation: its open log's bytes,
/// or the fresh 16-byte preamble the operation creates for it. The preamble
/// content is not pinned here; the operation's effect is stated from the
/// log's bytes onward.
pub open spec fn spec_pre_log(m: WalManager, name: Seq<char>) -> Seq<u8> {
    if m.has_wal(name) {
        let j = choose|j: int|
            0 <= j < m.collection_wals@.len() && (#[trigger] m.collection_wals@[j]).0@ == name;
        m.collection_wals@[j].1.log.bytes@
    } else {
        Seq::empty()
    }
}

/// The effect of one logged operation as seen from the whole manager: if
/// the collection's log was open, the entry lands after its old bytes and
/// the optional checkpoint; if not, it lands in a fresh log right after the
/// 16-byte preamble and the optional checkpoint.
pub open spec fn op_applied(
    pre: WalManager,
    post_log: Seq<u8>,
    name: Seq<char>,
    e: WalEntry,
    pos: int,
) -> bool {
    if pre.has_wal(name) {
        op_log_effect(spec_pre_log(pre, name), post_log, e, pos)
    } else {
        exists|hdr: Seq<u8>|
            hdr.len() == 16 && wal_framed(hdr, 16) && op_log_effect(hdr, post_log, e, pos)
    }
}

/// The collection whose counter hands out transaction ids: the first open
/// collection, or the sentinel log created for the purpose.
pub open spec fn spec_tx_home(m: WalManager) -> Seq<char> {
    if m.collection_wals@.len() > 0 {
        m.collection_wals@[0].0@
    } else {
        "_tx_manager"@
    }
}

impl WalManager {
    /// The index of an active transaction's record.
    fn find_tx_index(&self, tx_id: u64) -> (r: Option<usize>)
        ensures
            r is Some ==> 0 <= r->0 < self.active_transactions@.len()
                && self.active_transactions@[r->0 as int].0 == tx_id,
            r is None ==> !self.tx_active(tx_id),
    {
        let mut i: usize = 0;
        while i < self.active_transactions.len()
            invariant
                0 <= i <= self.active_transactions@.len(),
                forall|j: int|
                    0 <= j < i ==> (#[trigger] self.active_transactions@[j]).0 != tx_id,
            decreases self.active_transactions@.len() - i,
        {
            if self.active_transactions[i].0 == tx_id {
                return Some(i);
            }
            i = i + 1;
        }
        None
    }

    /// Begins a transaction: draws a fresh id from the first collection's
    /// counter — creating the sentinel log when no collection is open —
    /// writes a begin marker, and starts tracking the transaction.
    pub fn begin_transaction(&mut self) -> (r: Result<u64, Error>)
        requires
            old(self).wf(),
        ensures
            final(self).wf(),
            final(self).config == old(self).config,
            final(self).entry_cache == old(self).entry_cache,
            r is Err ==> r->Err_0 is Other,
            r is Ok ==> final(self).tx_active(r->Ok_0) && r->Ok_0 >= 1,
            r is Ok && old(self).collection_wals@.len() > 0 ==> r->Ok_0 == old(
                self,
            ).collection_wals@[0].1.next_tx_id,
            r is Ok && old(self).collection_wals@.len() == 0 ==> r->Ok_0 == 1,
            r is Ok ==> exists|j: int, e: WalEntry, pos: int, t: int|
                #![trigger op_applied(
                    *old(self),
                    final(self).collection_wals@[j].1.log.bytes@,
                    spec_tx_home(*old(self)),
                    e,
                    pos,
                ), final(self).active_transactions@[t]]
                {
                    &&& 0 <= j < final(self).collection_wals@.len()
                    &&& final(self).collection_wals@[j].0@ == spec_tx_home(*old(self))
                    &&& e.wf()
                    &&& e.header.entry_type == EntryType::BeginTx
                    &&& e.header.transaction_id == r->Ok_0
                    &&& 0 <= pos <= u64::MAX
                    &&& op_applied(
                        *old(self),
                        final(self).collection_wals@[j].1.log.bytes@,
                        spec_tx_home(*old(self)),
                        e,
                        pos,
                    )
                    &&& final(self).collection_wals@[j].1.next_tx_id == r->Ok_0 + 1
                    &&& 0 <= t < final(self).active_transactions@.len()
                    &&& final(self).active_transactions@[t].0 == r->Ok_0
                    &&& final(self).active_transactions@[t].1@ == seq![pos as u64]
                },
    {
        let idx: usize = if self.collection_wals.len() > 0 {
            0
        } else {
            self.ensure_wal("_tx_manager")
        };
        proof {
            if old(self).collection_wals@.len() > 0 {
                assert(self.collection_wals@[idx as int].0@ == spec_tx_home(*old(self)));
                assert(old(self).has_wal(spec_tx_home(*old(self))));
                let j0 = choose|j0: int|
                    0 <= j0 < old(self).collection_wals@.len() && (
                    #[trigger] old(self).collection_wals@[j0]).0@ == spec_tx_home(*old(self));
                assert(j0 == 0);
            } else {
                assert(!old(self).has_wal(spec_tx_home(*old(self))));
            }
        }
        let ghost after_ensure = *self;
        match self.check_auto_checkpoint() {
            Ok(_) => {},
            Err(e) => {
                return Err(e);
            },
        }
        let tx = self.collection_wals[idx].1.next_tx_id;
        if tx == u64::MAX {
            return Err(Error::Other("transaction counter exhausted".to_owned()));
        }
        let entry = WalEntry::begin_tx(tx);
        proof {
            assert((self.collection_wals@[idx as int]).1.log.wf());
            assert(auto_ck_extension(
                after_ensure.collection_wals@[idx as int].1.log.bytes@,
                self.collection_wals@[idx as int].1.log.bytes@,
            ));
        }
        let ghost mid = self.collection_wals@[idx as int].1.log.bytes@;
        let slot = wal_entry_at(&mut self.collection_wals, idx);
        slot.1.next_tx_id = tx + 1;
        let appended = slot.1.log.append(&entry);
        let pos = match appended {
            Ok(p) => p,
            Err(_) => {
                return Err(Error::Other("wal append failed".to_owned()));
            },
        };
        proof {
            assert(op_log_effect(
                (if old(self).has_wal(spec_tx_home(*old(self))) {
                    spec_pre_log(*old(self), spec_tx_home(*old(self)))
                } else {
                    after_ensure.collection_wals@[idx as int].1.log.bytes@
                }),
                self.collection_wals@[idx as int].1.log.bytes@,
                entry,
                pos as int,
            ));
            assert(op_applied(
                *old(self),
                self.collection_wals@[idx as int].1.log.bytes@,
                spec_tx_home(*old(self)),
                entry,
                pos as int,
            ));
        }
        let mut positions: Vec<u64> = Vec::new();
        positions.push(pos);
        match self.find_tx_index(tx) {
            Some(i) => {
                let t = tx_entry_at(&mut self.active_transactions, i);
                t.1 = positions;
                proof {
                    assert(self.active_transactions@[i as int].0 == tx);
                }
            },
            None => {
                self.active_transactions.push((tx, positions));
                proof {
                    assert(self.active_transactions@[self.active_transactions@.len() - 1].0
                        == tx);
                }
            },
        }
        proof {
            assert(self.tx_active(tx));
            assert(op_applied(
                *old(self),
                self.collection_wals@[idx as int].1.log.bytes@,
                spec_tx_home(*old(self)),
                entry,
                pos as int,
            ));
        }
        Ok(tx)
    }

    /// Logs an insert under an open transaction. The entry is durable in
    /// the WAL only; it reaches the block store after a commit.
    pub fn insert_in_transaction(
        &mut self,
        tx_id: u64,
        collection_name: &str,
        document_id: &[u8],
        document_data: &[u8],
    ) -> (r: Result<(), Error>)
        requires
            old(self).wf(),
        ensures
            final(self).wf(),
            final(self).config == old(self).config,
            final(self).entry_cache == old(self).entry_cache,
            (r is Err && r->Err_0 is UnknownTransaction) <==> !old(self).tx_active(tx_id),
            r is Err ==> (r->Err_0 is UnknownTransaction || r->Err_0 is ArgumentOutOfRange
                || r->Err_0 is Other),
            r is Ok ==> final(self).tx_active(tx_id),
            r is Ok ==> other_logs_preserved(*old(self), *final(self), collection_name@),
            r is Ok ==> exists|j: int, e: WalEntry, pos: int, t: int|
                #![trigger op_applied(
                    *old(self),
                    final(self).collection_wals@[j].1.log.bytes@,
                    collection_name@,
                    e,
                    pos,
                ), final(self).active_transactions@[t]]
                {
                    &&& 0 <= j < final(self).collection_wals@.len()
                    &&& final(self).collection_wals@[j].0@ == collection_name@
                    &&& e.wf()
                    &&& e.header.entry_type == EntryType::Insert
                    &&& e.header.collection_id == spec_name_hash(collection_name.spec_bytes())
                    &&& e.header.transaction_id == tx_id
                    &&& e.header.document_id@ == document_id@
                    &&& e.data@ == document_data@
                    &&& 0 <= pos <= u64::MAX
                    &&& op_applied(
                        *old(self),
                        final(self).collection_wals@[j].1.log.bytes@,
                        collection_name@,
                        e,
                        pos,
                    )
                    &&& 0 <= t < old(self).active_transactions@.len()
                    &&& old(self).active_transactions@[t].0 == tx_id
                    &&& final(self).active_transactions@.len() == old(
                        self,
                    ).active_transactions@.len()
                    &&& final(self).active_transactions@[t].0 == tx_id
                    &&& final(self).active_transactions@[t].1@ == old(
                        self,
                    ).active_transactions@[t].1@.push(pos as u64)
                    &&& forall|k2: int|
                        0 <= k2 < old(self).active_transactions@.len() && k2 != t ==> (
                        #[trigger] final(self).active_transactions@[k2]) == old(
                        self,
                        ).active_transactions@[k2]
                },
    {
        self.log_in_transaction(EntryType::Insert, tx_id, collection_name, document_id,
            document_data)
    }

    /// Logs an update under an open transaction.
    pub fn update_in_transaction(
        &mut self,
        tx_id: u64,
        collection_name: &str,
        document_id: &[u8],
        document_data: &[u8],
    ) -> (r: Result<(), Error>)
        requires
            old(self).wf(),
        ensures
            final(self).wf(),
            final(self).config == old(self).config,
            final(self).entry_cache == old(self).entry_cache,
            (r is Err && r->Err_0 is UnknownTransaction) <==> !old(self).tx_active(tx_id),
            r is Err ==> (r->Err_0 is UnknownTransaction || r->Err_0 is ArgumentOutOfRange
                || r->Err_0 is Other),
            r is Ok ==> final(self).tx_active(tx_id),
            r is Ok ==> other_logs_preserved(*old(self), *final(self), collection_name@),
            r is Ok ==> exists|j: int, e: WalEntry, pos: int, t: int|
                #![trigger op_applied(
                    *old(self),
                    final(self).collection_wals@[j].1.log.bytes@,
                    collection_name@,
                    e,
                    pos,
                ), final(self).active_transactions@[t]]
                {
                    &&& 0 <= j < final(self).collection_wals@.len()
                    &&& final(self).collection_wals@[j].0@ == collection_name@
                    &&& e.wf()
                    &&& e.header.entry_type == EntryType::Update
                    &&& e.header.collection_id == spec_name_hash(collection_name.spec_bytes())
                    &&& e.header.transaction_id == tx_id
                    &&& e.header.document_id@ == document_id@
                    &&& e.data@ == document_data@
                    &&& 0 <= pos <= u64::MAX
                    &&& op_applied(
                        *old(self),
                        final(self).collection_wals@[j].1.log.bytes@,
                        collection_name@,
                        e,
                        pos,
                    )
                    &&& 0 <= t < old(self).active_transactions@.len()
                    &&& old(self).active_transactions@[t].0 == tx_id
                    &&& final(self).active_transactions@.len() == old(
                        self,
                    ).active_transactions@.len()
                    &&& final(self).active_transactions@[t].0 == tx_id
                    &&& final(self).active_transactions@[t].1@ == old(
                        self,
                    ).active_transactions@[t].1@.push(pos as u64)
                    &&& forall|k2: int|
                        0 <= k2 < old(self).active_transactions@.len() && k2 != t ==> (
                        #[trigger] final(self).active_transactions@[k2]) == old(
                        self,
                        ).active_transactions@[k2]
                },
    {
        self.log_in_transaction(EntryType::Update, tx_id, collection_name, document_id,
            document_data)
    }

    /// Logs a delete under an open transaction.
    pub fn delete_in_transaction(
        &mut self,
        tx_id: u64,
        collection_name: &str,
        document_id: &[u8],
    ) -> (r: Result<(), Error>)
        requires
            old(self).wf(),
        ensures
            final(self).wf(),
            final(self).config == old(self).config,
            final(self).entry_cache == old(self).entry_cache,
            (r is Err && r->Err_0 is UnknownTransaction) <==> !old(self).tx_active(tx_id),
            r is Err ==> (r->Err_0 is UnknownTransaction || r->Err_0 is ArgumentOutOfRange
                || r->Err_0 is Other),
            r is Ok ==> final(self).tx_active(tx_id),
            r is Ok ==> other_logs_preserved(*old(self), *final(self), collection_name@),
            r is Ok ==> exists|j: int, e: WalEntry, pos: int, t: int|
                #![trigger op_applied(
                    *old(self),
                    final(self).collection_wals@[j].1.log.bytes@,
                    collection_name@,
                    e,
                    pos,
                ), final(self).active_transactions@[t]]
                {
                    &&& 0 <= j < final(self).collection_wals@.len()
                    &&& final(self).collection_wals@[j].0@ == collection_name@
                    &&& e.wf()
                    &&& e.header.entry_type == EntryType::Delete
                    &&& e.header.collection_id == spec_name_hash(collection_name.spec_bytes())
                    &&& e.header.transaction_id == tx_id
                    &&& e.header.document_id@ == document_id@
                    &&& e.data@.len() == 0
                    &&& 0 <= pos <= u64::MAX
                    &&& op_applied(
                        *old(self),
                        final(self).collection_wals@[j].1.log.bytes@,
                        collection_name@,
                        e,
                        pos,
                    )
                    &&& 0 <= t < old(self).active_transactions@.len()
                    &&& old(self).active_transactions@[t].0 == tx_id
                    &&& final(self).active_transactions@.len() == old(
                        self,
                    ).active_transactions@.len()
                    &&& final(self).active_transactions@[t].0 == tx_id
                    &&& final(self).active_transactions@[t].1@ == old(
                        self,
                    ).active_transactions@[t].1@.push(pos as u64)
                    &&& forall|k2: int|
                        0 <= k2 < old(self).active_transactions@.len() && k2 != t ==> (
                        #[trigger] final(self).active_transactions@[k2]) == old(
                        self,
                        ).active_transactions@[k2]
                },
    {
        let empty: Vec<u8> = Vec::new();
        self.log_in_transaction(EntryType::Delete, tx_id, collection_name, document_id,
            empty.as_slice())
    }

    /// The shared body of the transactional operations: requires the
    /// transaction to be active, appends the typed entry under its id, and
    /// records the entry's position against the transaction.
    fn log_in_transaction(
        &mut self,
        entry_type: EntryType,
        tx_id: u64,
        collection_name: &str,
        document_id: &[u8],
        document_data: &[u8],
    ) -> (r: Result<(), Error>)
        requires
            old(self).wf(),
        ensures
            final(self).wf(),
            final(self).config == old(self).config,
            final(self).entry_cache == old(self).entry_cache,
            (r is Err && r->Err_0 is UnknownTransaction) <==> !old(self).tx_active(tx_id),
            r is Err ==> (r->Err_0 is UnknownTransaction || r->Err_0 is ArgumentOutOfRange
                || r->Err_0 is Other),
            r is Ok ==> final(self).tx_active(tx_id),
            r is Ok ==> other_logs_preserved(*old(self), *final(self), collection_name@),
            r is Ok ==> exists|j: int, e: WalEntry, pos: int, t: int|
                #![trigger op_applied(
                    *old(self),
                    final(self).collection_wals@[j].1.log.bytes@,
                    collection_name@,
                    e,
                    pos,
                ), final(self).active_transactions@[t]]
                {
                    &&& 0 <= j < final(self).collection_wals@.len()
                    &&& final(self).collection_wals@[j].0@ == collection_name@
                    &&& e.wf()
                    &&& e.header.entry_type == entry_type
                    &&& e.header.collection_id == spec_name_hash(collection_name.spec_bytes())
                    &&& e.header.transaction_id == tx_id
                    &&& e.header.document_id@ == document_id@
                    &&& e.data@ == document_data@
                    &&& 0 <= pos <= u64::MAX
                    &&& op_applied(
                        *old(self),
                        final(self).collection_wals@[j].1.log.bytes@,
                        collection_name@,
                        e,
                        pos,
                    )
                    &&& 0 <= t < old(self).active_transactions@.len()
                    &&& old(self).active_transactions@[t].0 == tx_id
                    &&& final(self).active_transactions@.len() == old(
                        self,
                    ).active_transactions@.len()
                    &&& final(self).active_transactions@[t].0 == tx_id
                    &&& final(self).active_transactions@[t].1@ == old(
                        self,
                    ).active_transactions@[t].1@.push(pos as u64)
                    &&& forall|k2: int|
                        0 <= k2 < old(self).active_transactions@.len() && k2 != t ==> (
                        #[trigger] final(self).active_transactions@[k2]) == old(
                        self,
                        ).active_transactions@[k2]
                },
    {
        let tx_index = match self.find_tx_index(tx_id) {
            Some(i) => i,
            None => {
                return Err(Error::UnknownTransaction);
            },
        };
        let (outcome, witness) = self.log_operation(
            entry_type,
            collection_name,
            tx_id,
            document_id,
            document_data,
        );
        let position = match outcome {
            Ok(p) => p,
            Err(e) => {
                proof {
                    assert(self.tx_active(tx_id));
                }
                return Err(e);
            },
        };
        let ghost at_op = *self;
        let t = tx_entry_at(&mut self.active_transactions, tx_index);
        t.1.push(position);
        proof {
            let (j, e) = witness@;
            assert(self.collection_wals == at_op.collection_wals);
            assert(op_applied(
                *old(self),
                self.collection_wals@[j].1.log.bytes@,
                collection_name@,
                e,
                position as int,
            ));
            assert(self.active_transactions@[tx_index as int].0 == tx_id);
            assert(self.active_transactions@[tx_index as int].1@ == old(
                self,
            ).active_transactions@[tx_index as int].1@.push(position));
            assert(forall|k2: int|
                0 <= k2 < old(self).active_transactions@.len() && k2 != tx_index ==> (
                #[trigger] self.active_transactions@[k2]) == old(
                self,
                ).active_transactions@[k2]);
        }
        Ok(())
    }

    /// Commits a transaction: writes the commit marker and stops tracking
    /// the id. The logged entries stand; recovery will honour them.
    pub fn commit_transaction(&mut self, tx_id: u64) -> (r: Result<(), Error>)
        requires
            old(self).wf(),
        ensures
            final(self).wf(),
            final(self).config == old(self).config,
            final(self).entry_cache == old(self).entry_cache,
            (r is Err && r->Err_0 is UnknownTransaction) <==> !old(self).tx_active(tx_id),
            r is Err ==> (r->Err_0 is UnknownTransaction || r->Err_0 is Other),
            r is Err ==> final(self).active_transactions == old(self).active_transactions,
            r is Ok ==> !final(self).tx_active(tx_id),
            r is Ok ==> old(self).collection_wals@.len() > 0,
            r is Ok ==> exists|e: WalEntry, pos: int|
                #![trigger op_applied(
                    *old(self),
                    final(self).collection_wals@[0].1.log.bytes@,
                    spec_tx_home(*old(self)),
                    e,
                    pos,
                )]
                {
                    &&& final(self).collection_wals@.len() == old(self).collection_wals@.len()
                    &&& final(self).collection_wals@[0].0 == old(self).collection_wals@[0].0
                    &&& e.wf()
                    &&& e.header.entry_type == EntryType::CommitTx
                    &&& e.header.transaction_id == tx_id
                    &&& 0 <= pos <= u64::MAX
                    &&& op_applied(
                        *old(self),
                        final(self).collection_wals@[0].1.log.bytes@,
                        spec_tx_home(*old(self)),
                        e,
                        pos,
                    )
                },
    {
        self.end_transaction(tx_id, true)
    }

    /// Aborts a transaction: writes the abort marker and stops tracking
    /// the id. The logged entries remain in the log but recovery will skip
    /// them.
    pub fn abort_transaction(&mut self, tx_id: u64) -> (r: Result<(), Error>)
        requires
            old(self).wf(),
        ensures
            final(self).wf(),
            final(self).config == old(self).config,
            final(self).entry_cache == old(self).entry_cache,
            (r is Err && r->Err_0 is UnknownTransaction) <==> !old(self).tx_active(tx_id),
            r is Err ==> (r->Err_0 is UnknownTransaction || r->Err_0 is Other),
            r is Err ==> final(self).active_transactions == old(self).active_transactions,
            r is Ok ==> !final(self).tx_active(tx_id),
            r is Ok ==> old(self).collection_wals@.len() > 0,
            r is Ok ==> exists|e: WalEntry, pos: int|
                #![trigger op_applied(
                    *old(self),
                    final(self).collection_wals@[0].1.log.bytes@,
                    spec_tx_home(*old(self)),
                    e,
                    pos,
                )]
                {
                    &&& final(self).collection_wals@.len() == old(self).collection_wals@.len()
                    &&& final(self).collection_wals@[0].0 == old(self).collection_wals@[0].0
                    &&& e.wf()
                    &&& e.header.entry_type == EntryType::AbortTx
                    &&& e.header.transaction_id == tx_id
                    &&& 0 <= pos <= u64::MAX
                    &&& op_applied(
                        *old(self),
                        final(self).collection_wals@[0].1.log.bytes@,
                        spec_tx_home(*old(self)),
                        e,
                        pos,
                    )
                },
    {
        self.end_transaction(tx_id, false)
    }

    /// The shared body of commit and abort.
    fn end_transaction(&mut self, tx_id: u64, commit: bool) -> (r: Result<(), Error>)
        requires
            old(self).wf(),
        ensures
            final(self).wf(),
            final(self).config == old(self).config,
            final(self).entry_cache == old(self).entry_cache,
            (r is Err && r->Err_0 is UnknownTransaction) <==> !old(self).tx_active(tx_id),
            r is Err ==> (r->Err_0 is UnknownTransaction || r->Err_0 is Other),
            r is Err ==> final(self).active_transactions == old(self).active_transactions,
            r is Ok ==> !final(self).tx_active(tx_id),
            r is Ok ==> old(self).collection_wals@.len() > 0,
            r is Ok ==> exists|e: WalEntry, pos: int|
                #![trigger op_applied(
                    *old(self),
                    final(self).collection_wals@[0].1.log.bytes@,
                    spec_tx_home(*old(self)),
                    e,
                    pos,
                )]
                {
                    &&& final(self).collection_wals@.len() == old(self).collection_wals@.len()
                    &&& final(self).collection_wals@[0].0 == old(self).collection_wals@[0].0
                    &&& e.wf()
                    &&& e.header.entry_type == (if commit {
                        EntryType::CommitTx
                    } else {
                        EntryType::AbortTx
                    })
                    &&& e.header.transaction_id == tx_id
                    &&& 0 <= pos <= u64::MAX
                    &&& op_applied(
                        *old(self),
                        final(self).collection_wals@[0].1.log.bytes@,
                        spec_tx_home(*old(self)),
                        e,
                        pos,
                    )
                },
    {
        let tx_index = match self.find_tx_index(tx_id) {
            Some(i) => i,
            None => {
                return Err(Error::UnknownTransaction);
            },
        };
        if self.collection_wals.len() == 0 {
            return Err(Error::Other("no collections available".to_owned()));
        }
        match self.check_auto_checkpoint() {
            Ok(_) => {},
            Err(e) => {
                return Err(e);
            },
        }
        let entry = if commit {
            WalEntry::commit_tx(tx_id)
        } else {
            WalEntry::abort_tx(tx_id)
        };
        proof {
            assert((self.collection_wals@[0]).1.log.wf());
            assert(old(self).has_wal(spec_tx_home(*old(self))));
            let j0 = choose|j0: int|
                0 <= j0 < old(self).collection_wals@.len() && (
                #[trigger] old(self).collection_wals@[j0]).0@ == spec_tx_home(*old(self));
            assert(j0 == 0);
            assert(auto_ck_extension(
                old(self).collection_wals@[0].1.log.bytes@,
                self.collection_wals@[0].1.log.bytes@,
            ));
        }
        let ghost mid = self.collection_wals@[0].1.log.bytes@;
        let slot = wal_entry_at(&mut self.collection_wals, 0);
        let appended = slot.1.log.append(&entry);
        let marker_pos = match appended {
            Ok(p) => p,
            Err(_) => {
                return Err(Error::Other("wal append failed".to_owned()));
            },
        };
        proof {
            assert(self.collection_wals@[0].1.log.bytes@ == mid + spec_wal_entry_bytes(entry));
            assert(op_log_effect(
                spec_pre_log(*old(self), spec_tx_home(*old(self))),
                self.collection_wals@[0].1.log.bytes@,
                entry,
                marker_pos as int,
            ));
            assert(op_applied(
                *old(self),
                self.collection_wals@[0].1.log.bytes@,
                spec_tx_home(*old(self)),
                entry,
                marker_pos as int,
            ));
        }
        let ghost before_remove = self.active_transactions@;
        let _ = self.active_transactions.remove(tx_index);
        proof {
            assert forall|k: int|
                0 <= k < self.active_transactions@.len() implies (
            #[trigger] self.active_transactions@[k]).0 != tx_id by {
                if k < tx_index {
                    assert(self.active_transactions@[k] == before_remove[k]);
                } else {
                    assert(self.active_transactions@[k] == before_remove[k + 1]);
                }
            }
            assert(op_applied(
                *old(self),
                self.collection_wals@[0].1.log.bytes@,
                spec_tx_home(*old(self)),
                entry,
                marker_pos as int,
            ));
        }
        Ok(())
    }

    /// Writes a checkpoint marker for the collection and records the time:
    /// the named collection's `last_checkpoint` is set from the wall clock,
    /// of whose value nothing can be promised. Entries before the marker are
    /// meant to be reflected in the block store; retiring the log prefix is
    /// left to a future step.
    pub fn checkpoint(&mut self, collection_name: &str) -> (r: Result<(), Error>)
        requires
            old(self).wf(),
        ensures
            final(self).wf(),
            final(self).config == old(self).config,
            final(self).entry_cache == old(self).entry_cache,
            final(self).active_transactions == old(self).active_transactions,
            r is Ok ==> other_logs_preserved(*old(self), *final(self), collection_name@),
            r is Err ==> r->Err_0 is Other,
            r is Ok ==> exists|j: int, e: WalEntry, pos: int|
                #![trigger op_applied(
                    *old(self),
                    final(self).collection_wals@[j].1.log.bytes@,
                    collection_name@,
                    e,
                    pos,
                )]
                {
                    &&& 0 <= j < final(self).collection_wals@.len()
                    &&& final(self).collection_wals@[j].0@ == collection_name@
                    &&& e.wf()
                    &&& e.header.entry_type == EntryType::Checkpoint
                    &&& e.header.collection_id == spec_name_hash(collection_name.spec_bytes())
                    &&& op_applied(
                        *old(self),
                        final(self).collection_wals@[j].1.log.bytes@,
                        collection_name@,
                        e,
                        pos,
                    )
                },
    {
        let empty: Vec<u8> = Vec::new();
        let (outcome, witness) = self.log_operation(
            EntryType::Checkpoint,
            collection_name,
            0,
            empty.as_slice(),
            empty.as_slice(),
        );
        let position = match outcome {
            Ok(p) => p,
            Err(e) => {
                return Err(e);
            },
        };
        let ghost at_op = *self;
        let stamp = now_unix_seconds();
        match self.find_wal_index(collection_name) {
            Some(k) => {
                let slot = wal_entry_at(&mut self.collection_wals, k);
                slot.1.last_checkpoint = stamp;
            },
            None => {},
        }
        proof {
            let (j, e) = witness@;
            assert(self.collection_wals@[j].1.log.bytes@ == at_op.collection_wals@[j].1.log.bytes@);
            assert(self.collection_wals@[j].0@ == collection_name@);
            assert(op_applied(
                *old(self),
                self.collection_wals@[j].1.log.bytes@,
                collection_name@,
                e,
                position as int,
            ));
            assert forall|k: int|
                0 <= k < old(self).collection_wals@.len() && (
                #[trigger] old(self).collection_wals@[k]).0@ != collection_name@ implies {
                &&& k < self.collection_wals@.len()
                &&& self.collection_wals@[k] == at_op.collection_wals@[k]
            } by {
                assert(at_op.collection_wals@[k].0 == old(self).collection_wals@[k].0);
            }
            assert(other_logs_preserved(*old(self), *self, collection_name@));
        }
        Ok(())
    }
}

/// The tracked transaction-outcome table, later records overriding earlier.
pub open spec fn outcome_view(s: Seq<(u64, bool)>) -> Map<u64, bool>
    decreases s.len(),
{
    if s.len() == 0 {
        Map::empty()
    } else {
        outcome_view(s.drop_last()).insert(s.last().0, s.last().1)
    }
}

/// Recovery pass one over one log's entries: collect the highest
/// transaction id begun, and each transaction's final outcome — `true` for
/// a commit marker, `false` for an abort, the last marker winning.
pub open spec fn fold_markers(
    entries: Seq<(int, WalEntryModel)>,
    max_tx: u64,
    outcome: Map<u64, bool>,
) -> (u64, Map<u64, bool>)
    decreases entries.len(),
{
    if entries.len() == 0 {
        (max_tx, outcome)
    } else {
        let m = entries[0].1;
        let max2 = if m.entry_type == 4 && m.transaction_id > max_tx {
            m.transaction_id
        } else {
            max_tx
        };
        let o2 = if m.entry_type == 5 {
            outcome.insert(m.transaction_id, true)
        } else if m.entry_type == 6 {
            outcome.insert(m.transaction_id, false)
        } else {
            outcome
        };
        fold_markers(entries.drop_first(), max2, o2)
    }
}

/// Recovery pass one over every log, in order.
pub open spec fn fold_markers_logs(
    ls: Seq<Seq<(int, WalEntryModel)>>,
    max_tx: u64,
    outcome: Map<u64, bool>,
) -> (u64, Map<u64, bool>)
    decreases ls.len(),
{
    if ls.len() == 0 {
        (max_tx, outcome)
    } else {
        let (m2, o2) = fold_markers(ls[0], max_tx, outcome);
        fold_markers_logs(ls.drop_first(), m2, o2)
    }
}

/// Recovery pass two over one log: for every mutation that is outside any
/// transaction or in a committed one, record its position as the newest
/// for its `(collection, id)` pair.
pub open spec fn fold_cache(
    name: Seq<char>,
    entries: Seq<(int, WalEntryModel)>,
    outcome: Map<u64, bool>,
    cache: Map<(Seq<char>, Seq<u8>), u64>,
) -> Map<(Seq<char>, Seq<u8>), u64>
    decreases entries.len(),
{
    if entries.len() == 0 {
        cache
    } else {
        let (p, m) = entries[0];
        let c2 = if (m.entry_type == 1 || m.entry_type == 2 || m.entry_type == 3) && (
        m.transaction_id == 0 || (outcome.contains_key(m.transaction_id) && outcome[
            m.transaction_id
        ])) {
            cache.insert((name, m.document_id), p as u64)
        } else {
            cache
        };
        fold_cache(name, entries.drop_first(), outcome, c2)
    }
}

/// Recovery pass two over every log, in order.
pub open spec fn fold_cache_logs(
    names: Seq<Seq<char>>,
    ls: Seq<Seq<(int, WalEntryModel)>>,
    outcome: Map<u64, bool>,
    cache: Map<(Seq<char>, Seq<u8>), u64>,
) -> Map<(Seq<char>, Seq<u8>), u64>
    decreases ls.len(),
{
    if ls.len() == 0 || names.len() == 0 {
        cache
    } else {
        fold_cache_logs(
            names.drop_first(),
            ls.drop_first(),
            outcome,
            fold_cache(names[0], ls[0], outcome, cache),
        )
    }
}

/// The parsed entries of each handed log image.
pub open spec fn logs_models(ls: Seq<(String, Vec<u8>)>) -> Seq<Seq<(int, WalEntryModel)>> {
    ls.map_values(|p: (String, Vec<u8>)| crate::wal_log::wal_entries_from(p.1@, 16))
}

/// The collection names of the handed log images.
pub open spec fn logs_names(ls: Seq<(String, Vec<u8>)>) -> Seq<Seq<char>> {
    ls.map_values(|p: (String, Vec<u8>)| p.0@)
}

/// The highest transaction id begun anywhere in the handed logs.
pub open spec fn spec_recovered_max(ls: Seq<Seq<(int, WalEntryModel)>>) -> u64 {
    fold_markers_logs(ls, 0, Map::empty()).0
}

/// Each transaction's final outcome across the handed logs.
pub open spec fn spec_recovered_outcomes(ls: Seq<Seq<(int, WalEntryModel)>>) -> Map<u64, bool> {
    fold_markers_logs(ls, 0, Map::empty()).1
}

/// The transaction counter every recovered collection starts from: one
/// past the highest begun id, saturating at the id space's end.
pub open spec fn spec_next_tx(ls: Seq<Seq<(int, WalEntryModel)>>) -> u64 {
    if spec_recovered_max(ls) == u64::MAX {
        u64::MAX
    } else {
        (spec_recovered_max(ls) + 1) as u64
    }
}

/// Whether a log image can be recovered: a sound preamble and a walk that
/// ends cleanly, at the end of the file or at a torn tail.
pub open spec fn log_recoverable(b: Seq<u8>) -> bool {
    &&& b.len() >= 16
    &&& b.subrange(0, 4) == crate::wal_log::spec_wal_file_magic()
    &&& b[4] == 1
    &&& crate::wal_log::wal_tail_clean(b, 16)
}

impl WalManager {
    /// Rebuilds the manager's state from the raw images of the `.wal`
    /// files: first every log's markers decide each transaction's fate and
    /// the highest begun id, then every mutation that is non-transactional
    /// or committed lands in the recovery index. Recovery reads only; it
    /// does not re-apply mutations to the block store.
    pub fn recover(&mut self, logs: Vec<(String, Vec<u8>)>) -> (r: Result<(), Error>)
        requires
            old(self).wf(),
            forall|i: int, j: int|
                0 <= i < j < logs@.len() ==> (#[trigger] logs@[i]).0@ != (
                #[trigger] logs@[j]).0@,
        ensures
            final(self).wf(),
            final(self).config == old(self).config,
            final(self).active_transactions == old(self).active_transactions,
            r is Ok <==> forall|i: int|
                0 <= i < logs@.len() ==> log_recoverable((#[trigger] logs@[i]).1@),
            r is Err ==> (r->Err_0 is Other || r->Err_0 is CorruptedEntry),
            r is Ok ==> cache_view(final(self).entry_cache@) == fold_cache_logs(
                logs_names(logs@),
                logs_models(logs@),
                spec_recovered_outcomes(logs_models(logs@)),
                cache_view(old(self).entry_cache@),
            ),
            r is Ok ==> forall|i: int|
                0 <= i < logs@.len() ==> exists|k: int|
                    {
                        &&& 0 <= k < final(self).collection_wals@.len()
                        &&& (#[trigger] final(self).collection_wals@[k]).0@ == (
                        #[trigger] logs@[i]).0@
                        &&& final(self).collection_wals@[k].1.log.bytes@ == logs@[i].1@
                        &&& final(self).collection_wals@[k].1.next_tx_id == spec_next_tx(
                            logs_models(logs@),
                        )
                    },
    {
        let logs_len = logs.len();
        let ghost orig = logs@;
        let ghost models = logs_models(logs@);
        let ghost names = logs_names(logs@);
        // Open every image and walk its frames.
        let mut opened: Vec<(String, WalLog, Vec<(u64, WalEntry)>)> = Vec::new();
        let mut remaining = logs;
        while remaining.len() > 0
            invariant
                opened@.len() + remaining@.len() == orig.len(),
                remaining@ == orig.subrange(opened@.len() as int, orig.len() as int),
                orig == logs@,
                models == logs_models(logs@),
                names == logs_names(logs@),
                *self == *old(self),
                old(self).wf(),
                forall|k: int|
                    0 <= k < opened@.len() ==> {
                        &&& (#[trigger] opened@[k]).0@ == orig[k].0@
                        &&& opened@[k].1.bytes@ == orig[k].1@
                        &&& opened@[k].1.wf()
                        &&& crate::wal_log::iter_views(opened@[k].2@) == models[k]
                        &&& log_recoverable(orig[k].1@)
                        &&& forall|t: int|
                            0 <= t < opened@[k].2@.len() ==> (#[trigger] opened@[k].2@[t]).1.wf()
                    },
            decreases remaining@.len(),
        {
            let ghost done = opened@.len() as int;
            let (name, bytes) = remaining.remove(0);
            proof {
                assert(orig.subrange(done, orig.len() as int)[0] == orig[done]);
                assert(remaining@ =~= orig.subrange(done + 1, orig.len() as int));
                assert(models[done] == crate::wal_log::wal_entries_from(orig[done].1@, 16));
            }
            let log = match WalLog::open(bytes, self.config.sync_on_write) {
                Ok(l) => l,
                Err(_) => {
                    proof {
                        assert(!log_recoverable(logs@[done].1@));
                    }
                    return Err(Error::Other("invalid WAL file".to_owned()));
                },
            };
            let entries = match log.iterate() {
                Ok(es) => es,
                Err(WalError::CorruptedEntry) => {
                    proof {
                        assert(!log_recoverable(logs@[done].1@));
                    }
                    return Err(Error::CorruptedEntry);
                },
                Err(_) => {
                    proof {
                        assert(!log_recoverable(logs@[done].1@));
                    }
                    return Err(Error::Other("invalid WAL entry".to_owned()));
                },
            };
            let ghost pre_push = opened@;
            opened.push((name, log, entries));
            proof {
                assert(opened@.len() == done + 1);
                assert forall|k: int| 0 <= k < opened@.len() implies {
                    &&& (#[trigger] opened@[k]).0@ == orig[k].0@
                    &&& opened@[k].1.bytes@ == orig[k].1@
                    &&& opened@[k].1.wf()
                    &&& crate::wal_log::iter_views(opened@[k].2@) == models[k]
                    &&& log_recoverable(orig[k].1@)
                    &&& forall|t: int|
                        0 <= t < opened@[k].2@.len() ==> (#[trigger] opened@[k].2@[t]).1.wf()
                } by {
                    if k < done {
                        assert(opened@[k] == pre_push[k]);
                    } else {
                        assert(opened@[k] == (name, log, entries));
                        assert(log.entries() == models[done]);
                    }
                }
            }
        }
        proof {
            assert forall|i2: int| 0 <= i2 < logs@.len() implies log_recoverable(
                (#[trigger] logs@[i2]).1@,
            ) by {
                assert(opened@[i2].0@ == orig[i2].0@);
            }
        }
        // Pass one: markers.
        let mut max_tx: u64 = 0;
        let mut outcomes: Vec<(u64, bool)> = Vec::new();
        let n = opened.len();
        let mut i: usize = 0;
        proof {
            assert(models.subrange(0, models.len() as int) =~= models);
            assert(outcomes@ =~= Seq::<(u64, bool)>::empty());
        }
        while i < n
            invariant
                0 <= i <= n,
                n == opened@.len(),
                n == models.len(),
                forall|k: int|
                    0 <= k < opened@.len() ==> {
                        &&& crate::wal_log::iter_views((#[trigger] opened@[k]).2@) == models[k]
                    },
                fold_markers_logs(models.subrange(i as int, models.len() as int), max_tx,
                    outcome_view(outcomes@)) == fold_markers_logs(models, 0, Map::empty()),
            decreases n - i,
        {
            proof {
                let suff = models.subrange(i as int, models.len() as int);
                assert(suff[0] == models[i as int]);
                assert(suff.drop_first() =~= models.subrange(i + 1, models.len() as int));
                assert(models[i as int].subrange(0, models[i as int].len() as int)
                    =~= models[i as int]);
            }
            let entries_len = opened[i].2.len();
            let mut j: usize = 0;
            while j < entries_len
                invariant
                    0 <= i < n,
                    0 <= j <= entries_len,
                    n == opened@.len(),
                    n == models.len(),
                    entries_len == opened@[i as int].2@.len(),
                    forall|k: int|
                        0 <= k < opened@.len() ==> {
                            &&& crate::wal_log::iter_views((#[trigger] opened@[k]).2@)
                                == models[k]
                        },
                    fold_markers_logs(models.subrange(i + 1, models.len() as int), fold_markers(
                        models[i as int].subrange(j as int, models[i as int].len() as int),
                        max_tx,
                        outcome_view(outcomes@),
                    ).0, fold_markers(
                        models[i as int].subrange(j as int, models[i as int].len() as int),
                        max_tx,
                        outcome_view(outcomes@),
                    ).1) == fold_markers_logs(models, 0, Map::empty()),
                decreases entries_len - j,
            {
                let ghost pre_rest = models[i as int].subrange(
                    j as int,
                    models[i as int].len() as int,
                );
                proof {
                    assert(pre_rest[0] == models[i as int][j as int]);
                    assert(pre_rest.drop_first() =~= models[i as int].subrange(
                        j + 1,
                        models[i as int].len() as int,
                    ));
                    assert(models[i as int][j as int] == crate::wal_log::iter_views(
                        opened@[i as int].2@,
                    )[j as int]);
                }
                let code = opened[i].2[j].1.header.entry_type.to_byte();
                let tx = opened[i].2[j].1.header.transaction_id;
                let ghost pre_max = max_tx;
                let ghost pre_out = outcomes@;
                if code == 4 {
                    if tx > max_tx {
                        max_tx = tx;
                    }
                } else if code == 5 {
                    outcomes.push((tx, true));
                } else if code == 6 {
                    outcomes.push((tx, false));
                }
                proof {
                    if code == 5 || code == 6 {
                        assert(outcomes@.drop_last() =~= pre_out);
                    }
                    let m = pre_rest[0].1;
                    assert(m.entry_type == code);
                    assert(fold_markers(pre_rest, pre_max, outcome_view(pre_out))
                        == fold_markers(pre_rest.drop_first(), max_tx, outcome_view(outcomes@)));
                }
                j = j + 1;
            }
            proof {
                assert(models[i as int].subrange(
                    models[i as int].len() as int,
                    models[i as int].len() as int,
                ) =~= Seq::<(int, WalEntryModel)>::empty());
                assert(models.subrange(i as int, models.len() as int).drop_first()
                    =~= models.subrange(i + 1, models.len() as int));
                assert(models.subrange(i as int, models.len() as int)[0] == models[i as int]);
            }
            i = i + 1;
        }
        proof {
            assert(models.subrange(models.len() as int, models.len() as int) =~= Seq::<
                Seq<(int, WalEntryModel)>,
            >::empty());
            assert(max_tx == spec_recovered_max(models));
            assert(outcome_view(outcomes@) == spec_recovered_outcomes(models));
        }
        // Pass two: committed and non-transactional mutations.
        let ghost out_map = outcome_view(outcomes@);
        let mut i: usize = 0;
        proof {
            assert(names.subrange(0, names.len() as int) =~= names);
            assert(models.subrange(0, models.len() as int) =~= models);
        }
        while i < n
            invariant
                0 <= i <= n,
                n == opened@.len(),
                n == models.len(),
                n == names.len(),
                out_map == outcome_view(outcomes@),
                forall|k: int|
                    0 <= k < opened@.len() ==> {
                        &&& crate::wal_log::iter_views((#[trigger] opened@[k]).2@) == models[k]
                        &&& opened@[k].0@ == names[k]
                    },
                fold_cache_logs(names.subrange(i as int, names.len() as int), models.subrange(
                    i as int,
                    models.len() as int,
                ), out_map, cache_view(self.entry_cache@)) == fold_cache_logs(
                    names,
                    models,
                    out_map,
                    cache_view(old(self).entry_cache@),
                ),
                self.wf(),
                self.config == old(self).config,
                self.active_transactions == old(self).active_transactions,
                self.collection_wals == old(self).collection_wals,
            decreases n - i,
        {
            proof {
                let nsuff = names.subrange(i as int, names.len() as int);
                let msuff = models.subrange(i as int, models.len() as int);
                assert(nsuff[0] == names[i as int]);
                assert(msuff[0] == models[i as int]);
                assert(nsuff.drop_first() =~= names.subrange(i + 1, names.len() as int));
                assert(msuff.drop_first() =~= models.subrange(i + 1, models.len() as int));
                assert(models[i as int].subrange(0, models[i as int].len() as int)
                    =~= models[i as int]);
            }
            let entries_len = opened[i].2.len();
            let mut j: usize = 0;
            while j < entries_len
                invariant
                    0 <= i < n,
                    0 <= j <= entries_len,
                    n == opened@.len(),
                    n == models.len(),
                    n == names.len(),
                    out_map == outcome_view(outcomes@),
                    entries_len == opened@[i as int].2@.len(),
                    forall|k: int|
                        0 <= k < opened@.len() ==> {
                            &&& crate::wal_log::iter_views((#[trigger] opened@[k]).2@)
                                == models[k]
                            &&& opened@[k].0@ == names[k]
                        },
                    fold_cache_logs(names.subrange(i + 1, names.len() as int), models.subrange(
                        i + 1,
                        models.len() as int,
                    ), out_map, fold_cache(names[i as int], models[i as int].subrange(
                        j as int,
                        models[i as int].len() as int,
                    ), out_map, cache_view(self.entry_cache@))) == fold_cache_logs(
                        names,
                        models,
                        out_map,
                        cache_view(old(self).entry_cache@),
                    ),
                    self.wf(),
                    self.config == old(self).config,
                    self.active_transactions == old(self).active_transactions,
                    self.collection_wals == old(self).collection_wals,
                decreases entries_len - j,
            {
                let ghost pre_rest = models[i as int].subrange(
                    j as int,
                    models[i as int].len() as int,
                );
                proof {
                    assert(pre_rest[0] == models[i as int][j as int]);
                    assert(pre_rest.drop_first() =~= models[i as int].subrange(
                        j + 1,
                        models[i as int].len() as int,
                    ));
                    assert(models[i as int][j as int] == crate::wal_log::iter_views(
                        opened@[i as int].2@,
                    )[j as int]);
                }
                let code = opened[i].2[j].1.header.entry_type.to_byte();
                let tx = opened[i].2[j].1.header.transaction_id;
                let applies = (code == 1 || code == 2 || code == 3) && (tx == 0 || match
                    outcome_of(&outcomes, tx) {
                    Some(committed) => committed,
                    None => false,
                });
                let ghost pre_cache = self.entry_cache@;
                if applies {
                    let position = opened[i].2[j].0;
                    let document_id = vstd::slice::slice_to_vec(
                        opened[i].2[j].1.header.document_id.as_slice(),
                    );
                    let name = opened[i].0.clone();
                    self.entry_cache.push((name, document_id, position));
                    proof {
                        let (p, m) = pre_rest[0];
                        assert(self.entry_cache@.drop_last() =~= pre_cache);
                        assert(name@ == names[i as int]);
                        assert(document_id@ == m.document_id);
                        assert(p == position as int);
                        assert(cache_view(self.entry_cache@) == cache_view(pre_cache).insert(
                            (names[i as int], m.document_id),
                            p as u64,
                        ));
                    }
                }
                proof {
                    let (p, m) = pre_rest[0];
                    assert(m.entry_type == code);
                    assert(m.transaction_id == tx);
                    assert(fold_cache(names[i as int], pre_rest, out_map, cache_view(pre_cache))
                        == fold_cache(
                        names[i as int],
                        pre_rest.drop_first(),
                        out_map,
                        cache_view(self.entry_cache@),
                    ));
                }
                j = j + 1;
            }
            proof {
                assert(models[i as int].subrange(
                    models[i as int].len() as int,
                    models[i as int].len() as int,
                ) =~= Seq::<(int, WalEntryModel)>::empty());
                assert(names.subrange(i as int, names.len() as int).drop_first() =~= names.subrange(
                    i + 1,
                    names.len() as int,
                ));
                assert(models.subrange(i as int, models.len() as int).drop_first()
                    =~= models.subrange(i + 1, models.len() as int));
                assert(names.subrange(i as int, names.len() as int)[0] == names[i as int]);
                assert(models.subrange(i as int, models.len() as int)[0] == models[i as int]);
            }
            i = i + 1;
        }
        proof {
            assert(names.subrange(names.len() as int, names.len() as int) =~= Seq::<
                Seq<char>,
            >::empty());
            assert(models.subrange(models.len() as int, models.len() as int) =~= Seq::<
                Seq<(int, WalEntryModel)>,
            >::empty());
            assert(cache_view(self.entry_cache@) == fold_cache_logs(
                names,
                models,
                out_map,
                cache_view(old(self).entry_cache@),
            ));
        }
        // Register every recovered log with a fresh transaction counter.
        let next_tx = if max_tx == u64::MAX {
            u64::MAX
        } else {
            max_tx + 1
        };
        let stamp = now_unix_seconds();
        let ghost cache_done = self.entry_cache@;
        let mut taken: usize = 0;
        let mut opened = opened;
        while opened.len() > 0
            invariant
                taken + opened@.len() == orig.len(),
                orig.len() <= usize::MAX,
                orig == logs@,
                models == logs_models(logs@),
                names == logs_names(logs@),
                out_map == spec_recovered_outcomes(models),
                self.wf(),
                self.config == old(self).config,
                self.active_transactions == old(self).active_transactions,
                self.entry_cache@ == cache_done,
                cache_view(self.entry_cache@) == fold_cache_logs(
                    names,
                    models,
                    out_map,
                    cache_view(old(self).entry_cache@),
                ),
                next_tx == spec_next_tx(models),
                forall|k: int|
                    0 <= k < opened@.len() ==> {
                        &&& (#[trigger] opened@[k]).0@ == orig[taken + k].0@
                        &&& opened@[k].1.bytes@ == orig[taken + k].1@
                        &&& opened@[k].1.wf()
                    },
                forall|i2: int|
                    0 <= i2 < taken ==> exists|k: int|
                        {
                            &&& 0 <= k < self.collection_wals@.len()
                            &&& (#[trigger] self.collection_wals@[k]).0@ == (
                            #[trigger] orig[i2]).0@
                            &&& self.collection_wals@[k].1.log.bytes@ == orig[i2].1@
                            &&& self.collection_wals@[k].1.next_tx_id == spec_next_tx(models)
                        },
                forall|i2: int, j2: int|
                    0 <= i2 < j2 < orig.len() ==> (#[trigger] orig[i2]).0@ != (
                    #[trigger] orig[j2]).0@,
            decreases opened@.len(),
        {
            let ghost pre_wals = self.collection_wals@;
            let ghost pre_opened = opened@;
            let (name, log, _entries) = opened.remove(0);
            proof {
                assert(name == pre_opened[0].0 && log == pre_opened[0].1);
                assert(name@ == orig[taken as int].0@);
                assert(log.bytes@ == orig[taken as int].1@);
                assert forall|k2: int| 0 <= k2 < opened@.len() implies {
                    &&& (#[trigger] opened@[k2]).0@ == orig[taken + 1 + k2].0@
                    &&& opened@[k2].1.bytes@ == orig[taken + 1 + k2].1@
                    &&& opened@[k2].1.wf()
                } by {
                    assert(opened@[k2] == pre_opened[k2 + 1]);
                }
            }
            let path = self.wal_path(name.as_str());
            let ghost kw: int;
            match self.find_wal_index(name.as_str()) {
                Some(k) => {
                    let slot = wal_entry_at(&mut self.collection_wals, k);
                    slot.1 = CollectionWal { log, path, last_checkpoint: stamp, next_tx_id: next_tx };
                    proof {
                        kw = k as int;
                        assert(self.collection_wals@[kw].0@ == name@);
                        assert(forall|k2: int|
                            0 <= k2 < pre_wals.len() && k2 != kw
                                ==> #[trigger] self.collection_wals@[k2] == pre_wals[k2]);
                    }
                },
                None => {
                    self.collection_wals.push(
                        (name, CollectionWal { log, path, last_checkpoint: stamp, next_tx_id: next_tx }),
                    );
                    proof {
                        kw = pre_wals.len() as int;
                        assert(self.collection_wals@[kw].0@ == orig[taken as int].0@);
                        assert(forall|k2: int|
                            0 <= k2 < pre_wals.len() ==> #[trigger] self.collection_wals@[k2]
                                == pre_wals[k2]);
                    }
                },
            }
            proof {
                assert(0 <= kw < self.collection_wals@.len());
                assert(self.collection_wals@[kw].0@ == orig[taken as int].0@);
                assert(self.collection_wals@[kw].1.log.bytes@ == orig[taken as int].1@);
                assert(self.collection_wals@[kw].1.next_tx_id == spec_next_tx(models));
                assert forall|i2: int| 0 <= i2 < taken + 1 implies exists|k: int|
                    {
                        &&& 0 <= k < self.collection_wals@.len()
                        &&& (#[trigger] self.collection_wals@[k]).0@ == (#[trigger] orig[i2]).0@
                        &&& self.collection_wals@[k].1.log.bytes@ == orig[i2].1@
                        &&& self.collection_wals@[k].1.next_tx_id == spec_next_tx(models)
                    } by {
                    if i2 < taken {
                        let k_old = choose|k: int|
                            0 <= k < pre_wals.len() && (#[trigger] pre_wals[k]).0@ == orig[i2].0@
                                && pre_wals[k].1.log.bytes@ == orig[i2].1@ && pre_wals[
                                k
                            ].1.next_tx_id == spec_next_tx(models);
                        assert(k_old != kw);
                        assert(self.collection_wals@[k_old] == pre_wals[k_old]);
                    }
                }
            }
            taken = taken + 1;
        }
        Ok(())
    }
}

/// Pass one's running maximum never decreases and ends at least as high as
/// every transaction id a begin marker in the entries names.
pub proof fn lemma_fold_markers_max(
    entries: Seq<(int, WalEntryModel)>,
    max_tx: u64,
    outcome: Map<u64, bool>,
)
    ensures
        fold_markers(entries, max_tx, outcome).0 >= max_tx,
        forall|t: int|
            0 <= t < entries.len() && (#[trigger] entries[t]).1.entry_type == 4 ==> fold_markers(
                entries,
                max_tx,
                outcome,
            ).0 >= entries[t].1.transaction_id,
    decreases entries.len(),
{
    if entries.len() > 0 {
        let m = entries[0].1;
        let max2 = if m.entry_type == 4 && m.transaction_id > max_tx {
            m.transaction_id
        } else {
            max_tx
        };
        let o2 = if m.entry_type == 5 {
            outcome.insert(m.transaction_id, true)
        } else if m.entry_type == 6 {
            outcome.insert(m.transaction_id, false)
        } else {
            outcome
        };
        lemma_fold_markers_max(entries.drop_first(), max2, o2);
        assert forall|t: int|
            0 <= t < entries.len() && (#[trigger] entries[t]).1.entry_type == 4 implies fold_markers(
            entries,
            max_tx,
            outcome,
        ).0 >= entries[t].1.transaction_id by {
            if t > 0 {
                assert(entries[t] == entries.drop_first()[t - 1]);
            }
        }
    }
}

/// The maximum over every log dominates each log's begin markers.
pub proof fn lemma_fold_markers_logs_max(
    ls: Seq<Seq<(int, WalEntryModel)>>,
    max_tx: u64,
    outcome: Map<u64, bool>,
)
    ensures
        fold_markers_logs(ls, max_tx, outcome).0 >= max_tx,
        forall|i: int, t: int|
            0 <= i < ls.len() && 0 <= t < ls[i].len() && (#[trigger] ls[i][t]).1.entry_type == 4
                ==> fold_markers_logs(ls, max_tx, outcome).0 >= ls[i][t].1.transaction_id,
    decreases ls.len(),
{
    if ls.len() > 0 {
        let (m2, o2) = fold_markers(ls[0], max_tx, outcome);
        lemma_fold_markers_max(ls[0], max_tx, outcome);
        lemma_fold_markers_logs_max(ls.drop_first(), m2, o2);
        assert forall|i: int, t: int|
            0 <= i < ls.len() && 0 <= t < ls[i].len() && (#[trigger] ls[i][t]).1.entry_type == 4
                implies fold_markers_logs(ls, max_tx, outcome).0 >= ls[i][t].1.transaction_id by {
            if i > 0 {
                assert(ls[i] == ls.drop_first()[i - 1]);
            }
        }
    }
}

/// After recovery, the transaction counter that every recovered collection
/// starts from exceeds each transaction id present in the recovered logs —
/// provided a begin marker for the id stands somewhere in those logs, and
/// the id space is not exhausted. A log holding an operation whose begin
/// marker was written to a log that is not handed in falls outside the
/// promise: its id can be handed out again.
pub proof fn lemma_recovery_counter_dominates(ls: Seq<Seq<(int, WalEntryModel)>>)
    requires
        spec_recovered_max(ls) < u64::MAX,
        forall|i: int, t: int|
            0 <= i < ls.len() && 0 <= t < ls[i].len() ==> ((#[trigger] ls[i][t]).1.transaction_id
                == 0 || exists|i2: int, t2: int|
                {
                    &&& 0 <= i2 < ls.len()
                    &&& 0 <= t2 < ls[i2].len()
                    &&& (#[trigger] ls[i2][t2]).1.entry_type == 4
                    &&& ls[i2][t2].1.transaction_id == ls[i][t].1.transaction_id
                }),
    ensures
        forall|i: int, t: int|
            0 <= i < ls.len() && 0 <= t < ls[i].len() ==> spec_next_tx(ls) > (
            #[trigger] ls[i][t]).1.transaction_id,
{
    lemma_fold_markers_logs_max(ls, 0, Map::empty());
    assert forall|i: int, t: int|
        0 <= i < ls.len() && 0 <= t < ls[i].len() implies spec_next_tx(ls) > (
    #[trigger] ls[i][t]).1.transaction_id by {
        if ls[i][t].1.transaction_id != 0 {
            let (i2, t2) = choose|i2: int, t2: int|
                {
                    &&& 0 <= i2 < ls.len()
                    &&& 0 <= t2 < ls[i2].len()
                    &&& (#[trigger] ls[i2][t2]).1.entry_type == 4
                    &&& ls[i2][t2].1.transaction_id == ls[i][t].1.transaction_id
                };
            assert(spec_recovered_max(ls) >= ls[i2][t2].1.transaction_id);
        }
    }
}

/// Looks a transaction's final outcome up in the tracked table: the last
/// record for the id wins.
fn outcome_of(outcomes: &Vec<(u64, bool)>, tx: u64) -> (r: Option<bool>)
    ensures
        r == if outcome_view(outcomes@).contains_key(tx) {
            Some(outcome_view(outcomes@)[tx])
        } else {
            None::<bool>
        },
{
    let mut i: usize = outcomes.len();
    proof {
        assert(outcomes@.take(outcomes@.len() as int) =~= outcomes@);
    }
    while i > 0
        invariant
            0 <= i <= outcomes@.len(),
            outcome_view(outcomes@).contains_key(tx) == outcome_view(
                outcomes@.take(i as int),
            ).contains_key(tx),
            outcome_view(outcomes@.take(i as int)).contains_key(tx) ==> outcome_view(outcomes@)[tx]
                == outcome_view(outcomes@.take(i as int))[tx],
        decreases i,
    {
        i = i - 1;
        proof {
            assert(outcomes@.take(i + 1).drop_last() =~= outcomes@.take(i as int));
            assert(outcomes@.take(i + 1).last() == outcomes@[i as int]);
        }
        if outcomes[i].0 == tx {
            return Some(outcomes[i].1);
        }
    }
    proof {
        assert(outcomes@.take(0) =~= Seq::<(u64, bool)>::empty());
    }
    None
}

/// A mutable handle on one slot of the transaction table.
fn tx_entry_at(v: &mut Vec<(u64, Vec<u64>)>, i: usize) -> (r: &mut (u64, Vec<u64>))
    requires
        i < old(v).len(),
    ensures
        *r == old(v)@[i as int],
        final(v)@ == old(v)@.update(i as int, *final(r)),
{
    &mut v[i]
}

/// A mutable handle on one slot of the log table.
fn wal_entry_at(v: &mut Vec<(String, CollectionWal)>, i: usize) -> (r: &mut (String, CollectionWal))
    requires
        i < old(v).len(),
    ensures
        *r == old(v)@[i as int],
        final(v)@ == old(v)@.update(i as int, *final(r)),
{
    &mut v[i]
}

} // verus!
