//! An in-memory multi-version concurrency-control storage engine:
//! serializable transactions over a keyed record space with optimistic
//! validation, per-thread logical clocks, version-chain storage with an
//! inline fast path, adaptive contention management and watermark-based
//! garbage collection.

use vstd::prelude::*;

pub mod clock;
pub mod contention;
pub mod error;
pub mod gc;
pub mod index;
pub mod record;
pub mod transaction;
pub mod version;

pub use clock::{Clock, ClockManager};
pub use contention::ContentionManager;
pub use error::MaemioError;
pub use gc::GarbageCollector;
pub use index::{HashIndex, IndexKey, IndexNode, IndexStatus, IndexType};
pub use record::RecordHead;
pub use transaction::{Transaction, TransactionManager};
pub use version::{Version, VersionStatus};

use crate::gc::gc_pass;
use crate::record::store_view;

verus! {

/// Configuration of a database instance.
#[derive(Debug, Clone, Copy)]
pub struct MaemioConfig {
    /// Number of worker threads (each owns a clock).
    pub thread_count: usize,
    /// Garbage collection period, in microseconds.
    pub gc_interval: u64,
    /// Clock synchronization period, in microseconds.
    pub clock_sync_interval: u64,
    /// Initial capacity hint for hash indexes.
    pub initial_index_capacity: usize,
}

impl Default for MaemioConfig {
    /// One worker per logical processor, with the stock maintenance
    /// periods.
    fn default() -> (r: MaemioConfig)
        ensures
            r.thread_count >= 1,
            r.gc_interval == 10,
            r.clock_sync_interval == 100,
            r.initial_index_capacity == 1024,
    {
        MaemioConfig {
            thread_count: cpu_count(),
            gc_interval: 10,
            clock_sync_interval: 100,
            initial_index_capacity: 1024,
        }
    }
}

/// The database instance: the transaction manager (clocks, record
/// store, contention control) and the garbage collector.
#[derive(Debug)]
pub struct Maemio {
    pub transaction_manager: TransactionManager,
    pub gc: Option<GarbageCollector>,
    pub contention_manager: ContentionManager,
    pub config: MaemioConfig,
}

impl Maemio {
    /// Well-formedness of the whole instance.
    pub open spec fn wf(self) -> bool {
        &&& self.transaction_manager.wf()
        &&& self.contention_manager.wf()
    }

    /// A database with the default configuration.
    pub fn new() -> (r: Result<Maemio, MaemioError>)
        ensures
            r matches Ok(db) ==> {
                &&& db.wf()
                &&& db.config.gc_interval == 10
                &&& db.config.clock_sync_interval == 100
                &&& db.config.initial_index_capacity == 1024
                &&& db.transaction_manager.records@ == Map::<u64, RecordHead>::empty()
            },
            r matches Err(e) ==> e is System,
    {
        Maemio::with_config(MaemioConfig::default())
    }

    /// A database with the given configuration.  Fails iff the thread
    /// count exceeds the number of representable thread ids.
    pub fn with_config(config: MaemioConfig) -> (r: Result<Maemio, MaemioError>)
        ensures
            r is Ok <==> config.thread_count <= 255,
            r matches Ok(db) ==> {
                &&& db.wf()
                &&& db.config == config
                &&& db.transaction_manager.clock_manager.clocks@.len() == config.thread_count
                &&& db.transaction_manager.records@ == Map::<u64, RecordHead>::empty()
                &&& db.gc matches Some(g) && g.gc_interval == config.gc_interval && g.queue@
                    == Seq::<(u64, u64)>::empty()
                &&& db.contention_manager.thread_stats@.len() == config.thread_count
            },
            r matches Err(e) ==> e is System,
    {
        let clock_manager = match ClockManager::new(
            config.thread_count,
            config.clock_sync_interval,
        ) {
            Ok(cm) => cm,
            Err(e) => {
                return Err(e);
            },
        };
        let contention_manager = ContentionManager::new(
            config.thread_count,
            contention::DEFAULT_HILL_CLIMB_INTERVAL,
            contention::DEFAULT_BACKOFF_STEP,
        );
        let transaction_manager = match TransactionManager::new(clock_manager, config.thread_count) {
            Ok(tm) => tm,
            Err(e) => {
                return Err(e);
            },
        };
        let gc = Some(GarbageCollector::new(config.gc_interval));
        Ok(Maemio { transaction_manager, gc, contention_manager, config })
    }

    /// Open a transaction for worker `thread_id`.
    pub fn begin_transaction(&mut self, thread_id: usize) -> (tx: Transaction)
        requires
            old(self).wf(),
            thread_id < old(self).transaction_manager.clock_manager.clocks@.len(),
        ensures
            final(self).wf(),
            final(self).transaction_manager.records@ == old(self).transaction_manager.records@,
            final(self).gc == old(self).gc,
            final(self).config == old(self).config,
            tx.thread_id == thread_id,
            tx@.read_set == Seq::<(u64, crate::version::VersionView)>::empty(),
            tx@.write_set == Seq::<(u64, crate::version::VersionView)>::empty(),
            tx.timestamp % 256 == thread_id,
    {
        self.transaction_manager.begin_transaction(thread_id)
    }

    /// Create a record in the store; fails iff the id is taken.
    pub fn create_record(&mut self, record_id: u64) -> (r: Result<(), MaemioError>)
        requires
            old(self).wf(),
        ensures
            final(self).wf(),
            final(self).gc == old(self).gc,
            final(self).config == old(self).config,
            r is Ok <==> !store_view(old(self).transaction_manager.records@).contains_key(
                record_id,
            ),
            r is Ok ==> store_view(final(self).transaction_manager.records@) == store_view(
                old(self).transaction_manager.records@,
            ).insert(
                record_id,
                crate::record::RecordHeadView {
                    inline_version: None,
                    version_list: Seq::empty(),
                    min_wts: old(self).transaction_manager.clock_manager.min_write_ts,
                    gc_locked: false,
                    creation_timestamp: old(self).transaction_manager.clock_manager.min_write_ts,
                },
            ),
            r matches Err(e) ==> e is System && final(self).transaction_manager.records@ == old(
                self,
            ).transaction_manager.records@,
    {
        self.transaction_manager.create_record(record_id)
    }

    /// Commit a transaction, tracking its writes with the garbage
    /// collector when one is configured.
    pub fn commit_transaction(&mut self, tx: &mut Transaction) -> (r: Result<(), MaemioError>)
        requires
            old(self).wf(),
            old(tx).thread_id < old(self).transaction_manager.clock_manager.clocks@.len(),
        ensures
            final(self).wf(),
            final(tx).thread_id == old(tx).thread_id,
            final(self).config == old(self).config,
            ({
                let pre = old(tx)@;
                let store0 = store_view(old(self).transaction_manager.records@);
                match transaction::validate_result(pre, store0) {
                    Some(e) => r == Result::<(), MaemioError>::Err(e) && store_view(
                        final(self).transaction_manager.records@,
                    ) == store0,
                    None => {
                        let inst = transaction::install_all(store0, pre.write_set);
                        &&& store_view(final(self).transaction_manager.records@) == inst.0
                        &&& match inst.1 {
                            None => r is Ok,
                            Some(e) => r == Result::<(), MaemioError>::Err(e),
                        }
                    },
                }
            }),
    {
        match &mut self.gc {
            Some(g) => self.transaction_manager.commit_and_track(tx, g),
            None => self.transaction_manager.commit_transaction(tx),
        }
    }

    /// One garbage-collection pass against the current global minimum
    /// read watermark.
    pub fn collect_garbage(&mut self) -> (r: Result<(), MaemioError>)
        requires
            old(self).wf(),
        ensures
            final(self).wf(),
            r is Ok,
            final(self).config == old(self).config,
            old(self).gc is None ==> final(self).transaction_manager.records@ == old(
                self,
            ).transaction_manager.records@,
            old(self).gc matches Some(g) ==> {
                let pass = gc_pass(
                    store_view(old(self).transaction_manager.records@),
                    g.queue@,
                    old(self).transaction_manager.clock_manager.min_read_ts,
                );
                &&& store_view(final(self).transaction_manager.records@) == pass.0
                &&& final(self).gc matches Some(g2) && g2.queue@ == pass.1 && g2.gc_interval
                    == g.gc_interval
            },
    {
        let min_rts = self.transaction_manager.clock_manager.get_min_read_ts();
        match &mut self.gc {
            Some(g) => g.collect_garbage(&mut self.transaction_manager.records, min_rts),
            None => Ok(()),
        }
    }

    /// Stop background activity.  The engine holds no background state
    /// of its own, so there is nothing to wind down.
    pub fn shutdown(&self) -> (r: Result<(), MaemioError>)
        ensures
            r is Ok,
    {
        Ok(())
    }
}

/// Relies on `num_cpus::get`: the number of logical processors
/// available to the process, always at least 1.
#[verifier::external_body]
fn cpu_count() -> (r: usize)
    ensures
        r >= 1,
{
    num_cpus::get()
}

} // verus!
