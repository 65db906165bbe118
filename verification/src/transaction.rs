use vstd::prelude::*;

use std::collections::HashMap;

use crate::clock::{advanced_local_clock, next_timestamp, Clock, ClockManager, MAX_LOGICAL_CLOCK};
use crate::contention::ContentionManager;
use crate::error::MaemioError;
use crate::gc::GarbageCollector;
use crate::record::{store_view, store_wf, RecordHead, RecordHeadView};
use crate::version::{Version, VersionStatus, VersionView};

verus! {

broadcast use vstd::std_specs::hash::group_hash_axioms;

/// The mathematical view of a read or write set: the entries in
/// insertion order, with payloads as byte sequences.
pub open spec fn entries_view(s: Seq<(u64, Version)>) -> Seq<(u64, VersionView)> {
    s.map_values(|p: (u64, Version)| (p.0, p.1@))
}

/// The index of the first entry carrying `id`, or -1 if there is none.
pub open spec fn index_of_key(s: Seq<(u64, VersionView)>, id: u64) -> int
    decreases s.len(),
{
    if s.len() == 0 {
        -1
    } else if s[0].0 == id {
        0
    } else {
        let r = index_of_key(s.drop_first(), id);
        if r < 0 {
            -1
        } else {
            r + 1
        }
    }
}

/// The version stored under `id`, if any.
pub open spec fn lookup(s: Seq<(u64, VersionView)>, id: u64) -> Option<VersionView> {
    let i = index_of_key(s, id);
    if i < 0 {
        None
    } else {
        Some(s[i].1)
    }
}

/// The set after storing `v` under `id`: the existing entry is replaced
/// in place, or a new entry is appended (last-write-wins).
pub open spec fn put_entry(s: Seq<(u64, VersionView)>, id: u64, v: VersionView) -> Seq<
    (u64, VersionView),
> {
    let i = index_of_key(s, id);
    if i < 0 {
        s.push((id, v))
    } else {
        s.update(i, (id, v))
    }
}

/// The index returned by `index_of_key` is the first occurrence of the
/// key, and -1 exactly when the key is absent.
pub proof fn lemma_index_of_key(s: Seq<(u64, VersionView)>, id: u64)
    ensures
        -1 <= index_of_key(s, id) < s.len(),
        index_of_key(s, id) >= 0 ==> s[index_of_key(s, id)].0 == id,
        index_of_key(s, id) >= 0 ==> forall|k: int|
            0 <= k < index_of_key(s, id) ==> (#[trigger] s[k]).0 != id,
        index_of_key(s, id) == -1 ==> forall|k: int| 0 <= k < s.len() ==> (#[trigger] s[k]).0 != id,
    decreases s.len(),
{
    if s.len() > 0 && s[0].0 != id {
        lemma_index_of_key(s.drop_first(), id);
        let r = index_of_key(s.drop_first(), id);
        if r >= 0 {
            assert(s[r + 1] == s.drop_first()[r]);
            assert forall|k: int| 0 <= k < r + 1 implies (#[trigger] s[k]).0 != id by {
                if k > 0 {
                    assert(s.drop_first()[k - 1] == s[k]);
                }
            }
        } else {
            assert forall|k: int| 0 <= k < s.len() implies (#[trigger] s[k]).0 != id by {
                if k > 0 {
                    assert(s.drop_first()[k - 1] == s[k]);
                }
            }
        }
    }
}

/// Storing a version and then looking its key up returns exactly that
/// version; other keys are unaffected.
pub proof fn lemma_put_entry_lookup(s: Seq<(u64, VersionView)>, id: u64, v: VersionView)
    ensures
        lookup(put_entry(s, id, v), id) == Some(v),
        forall|k: u64| k != id ==> lookup(put_entry(s, id, v), k) == lookup(s, k),
{
    lemma_index_of_key(s, id);
    let i = index_of_key(s, id);
    let s2 = put_entry(s, id, v);
    if i < 0 {
        lemma_index_of_key_append(s, id, v);
        assert(lookup(s2, id) == Some(v));
        assert forall|k: u64| k != id implies lookup(s2, k) == lookup(s, k) by {
            lemma_index_of_key_push_other(s, id, v, k);
        }
    } else {
        lemma_index_of_key_update(s, i, id, v);
        assert(lookup(s2, id) == Some(v));
        assert forall|k: u64| k != id implies lookup(s2, k) == lookup(s, k) by {
            lemma_index_of_key_update_other(s, i, id, v, k);
        }
    }
}

/// Appending an entry with a fresh key makes it the key's first (and
/// only) occurrence.
proof fn lemma_index_of_key_append(s: Seq<(u64, VersionView)>, id: u64, v: VersionView)
    requires
        index_of_key(s, id) == -1,
    ensures
        index_of_key(s.push((id, v)), id) == s.len(),
    decreases s.len(),
{
    if s.len() == 0 {
        assert(s.push((id, v))[0] == (id, v));
    } else {
        lemma_index_of_key(s, id);
        assert(s[0].0 != id);
        assert(index_of_key(s.drop_first(), id) == -1) by {
            lemma_index_of_key(s.drop_first(), id);
            if index_of_key(s.drop_first(), id) >= 0 {
                assert(s.drop_first()[index_of_key(s.drop_first(), id)].0 == id);
                assert(s[index_of_key(s.drop_first(), id) + 1].0 == id);
            }
        }
        lemma_index_of_key_append(s.drop_first(), id, v);
        assert(s.push((id, v)).drop_first() =~= s.drop_first().push((id, v)));
    }
}

/// Appending an entry for one key leaves every other key's first
/// occurrence where it was.
proof fn lemma_index_of_key_push_other(s: Seq<(u64, VersionView)>, id: u64, v: VersionView, k: u64)
    requires
        k != id,
    ensures
        index_of_key(s.push((id, v)), k) == index_of_key(s, k),
        lookup(s.push((id, v)), k) == lookup(s, k),
    decreases s.len(),
{
    lemma_index_of_key(s, k);
    let s2 = s.push((id, v));
    if s.len() == 0 {
        assert(s2[0] == (id, v));
        assert(s2.drop_first() =~= Seq::<(u64, VersionView)>::empty());
        assert(index_of_key(Seq::<(u64, VersionView)>::empty(), k) == -1);
        assert(index_of_key(s2, k) == -1);
        assert(index_of_key(s, k) == -1);
    } else if s[0].0 == k {
        assert(s2[0] == s[0]);
        assert(index_of_key(s2, k) == 0);
        assert(index_of_key(s, k) == 0);
        assert(lookup(s2, k) == Some(s[0].1));
        assert(lookup(s, k) == Some(s[0].1));
    } else {
        assert(s2[0] == s[0]);
        lemma_index_of_key_push_other(s.drop_first(), id, v, k);
        assert(s2.drop_first() =~= s.drop_first().push((id, v)));
        let r = index_of_key(s.drop_first(), k);
        assert(index_of_key(s2.drop_first(), k) == r);
        if r < 0 {
            assert(index_of_key(s2, k) == -1);
            assert(index_of_key(s, k) == -1);
        } else {
            assert(index_of_key(s2, k) == r + 1);
            assert(index_of_key(s, k) == r + 1);
            assert(s2[r + 1] == s[r + 1]);
            assert(lookup(s2, k) == Some(s2[r + 1].1));
            assert(lookup(s, k) == Some(s[r + 1].1));
        }
    }
}

/// Updating the entry at the key's first occurrence keeps that index
/// as the first occurrence.
proof fn lemma_index_of_key_update(s: Seq<(u64, VersionView)>, i: int, id: u64, v: VersionView)
    requires
        0 <= i < s.len(),
        index_of_key(s, id) == i,
    ensures
        index_of_key(s.update(i, (id, v)), id) == i,
    decreases s.len(),
{
    lemma_index_of_key(s, id);
    if i == 0 {
        assert(s.update(0, (id, v))[0] == (id, v));
    } else {
        assert(s[0].0 != id);
        assert(s.update(i, (id, v))[0] == s[0]);
        assert(index_of_key(s.drop_first(), id) == i - 1) by {
            lemma_index_of_key(s.drop_first(), id);
            let r = index_of_key(s.drop_first(), id);
            if r < 0 {
                assert(s.drop_first()[i - 1] == s[i]);
            } else {
                assert(index_of_key(s, id) == r + 1);
            }
        }
        lemma_index_of_key_update(s.drop_first(), i - 1, id, v);
        assert(s.update(i, (id, v)).drop_first() =~= s.drop_first().update(i - 1, (id, v)));
    }
}

/// Updating one key's entry leaves every other key's first occurrence
/// and value unchanged.
proof fn lemma_index_of_key_update_other(
    s: Seq<(u64, VersionView)>,
    i: int,
    id: u64,
    v: VersionView,
    k: u64,
)
    requires
        0 <= i < s.len(),
        s[i].0 == id,
        k != id,
    ensures
        index_of_key(s.update(i, (id, v)), k) == index_of_key(s, k),
        lookup(s.update(i, (id, v)), k) == lookup(s, k),
    decreases s.len(),
{
    lemma_index_of_key(s, k);
    lemma_index_of_key(s.update(i, (id, v)), k);
    if i == 0 {
        assert(s.update(0, (id, v))[0] == (id, v));
        if s.len() > 1 {
            assert(s.update(0, (id, v)).drop_first() =~= s.drop_first());
        } else {
            assert(s.update(0, (id, v)).drop_first() =~= s.drop_first());
        }
        assert(s[0].0 == id);
    } else {
        assert(s.update(i, (id, v))[0] == s[0]);
        if s[0].0 != k {
            lemma_index_of_key_update_other(s.drop_first(), i - 1, id, v, k);
            assert(s.update(i, (id, v)).drop_first() =~= s.drop_first().update(i - 1, (id, v)));
        }
    }
}

/// Find the index of the entry carrying `id`, if any.
fn find_entry(entries: &Vec<(u64, Version)>, id: u64) -> (r: Option<usize>)
    ensures
        match r {
            Some(i) => i < entries@.len() && index_of_key(entries_view(entries@), id) == i,
            None => index_of_key(entries_view(entries@), id) == -1,
        },
{
    let ghost s = entries_view(entries@);
    proof {
        lemma_index_of_key(s, id);
    }
    let mut i: usize = 0;
    while i < entries.len()
        invariant
            i <= entries@.len(),
            s == entries_view(entries@),
            s.len() == entries@.len(),
            forall|k: int| 0 <= k < s.len() ==> (#[trigger] s[k]) == (entries@[k].0, entries@[k].1@),
            forall|k: int| 0 <= k < i ==> (#[trigger] s[k]).0 != id,
        decreases entries@.len() - i,
    {
        if entries[i].0 == id {
            proof {
                assert(s[i as int].0 == id);
                lemma_index_of_key(s, id);
                let r = index_of_key(s, id);
                assert(r >= 0);
                if r < i {
                    assert(s[r].0 != id);
                }
                if r > i {
                    assert(s[i as int].0 != id);
                }
            }
            return Some(i);
        }
        i = i + 1;
    }
    proof {
        lemma_index_of_key(s, id);
        let r = index_of_key(s, id);
        if r >= 0 {
            assert(s[r].0 != id);
        }
    }
    None
}

/// Look the version stored under `id` up.
fn get_entry<'a>(entries: &'a Vec<(u64, Version)>, id: u64) -> (r: Option<&'a Version>)
    ensures
        match r {
            Some(v) => lookup(entries_view(entries@), id) == Some(v@),
            None => lookup(entries_view(entries@), id) is None,
        },
{
    match find_entry(entries, id) {
        Some(i) => Some(&entries[i].1),
        None => None,
    }
}

/// Store `version` under `id`, replacing an existing entry in place or
/// appending a new one.
fn store_entry(entries: &mut Vec<(u64, Version)>, id: u64, version: Version)
    ensures
        entries_view(final(entries)@) == put_entry(entries_view(old(entries)@), id, version@),
{
    let ghost s = entries_view(entries@);
    match find_entry(entries, id) {
        Some(i) => {
            entries[i] = (id, version);
            proof {
                assert(entries_view(entries@) =~= s.update(i as int, (id, version@)));
            }
        },
        None => {
            entries.push((id, version));
            proof {
                assert(entries_view(entries@) =~= s.push((id, version@)));
            }
        },
    }
}

/// An ephemeral optimistic transaction: a begin timestamp, the versions
/// observed by reads, and the pending versions produced by writes
/// (which double as the read-your-own-writes cache).
#[derive(Debug)]
pub struct Transaction {
    pub timestamp: u64,
    pub read_set: Vec<(u64, Version)>,
    pub write_set: Vec<(u64, Version)>,
    pub thread_id: usize,
}

/// Mathematical model of a `Transaction`.
pub struct TransactionView {
    pub timestamp: u64,
    pub read_set: Seq<(u64, VersionView)>,
    pub write_set: Seq<(u64, VersionView)>,
    pub thread_id: int,
}

impl View for Transaction {
    type V = TransactionView;

    open spec fn view(&self) -> TransactionView {
        TransactionView {
            timestamp: self.timestamp,
            read_set: entries_view(self.read_set@),
            write_set: entries_view(self.write_set@),
            thread_id: self.thread_id as int,
        }
    }
}

impl Transaction {
    /// Open a transaction: stamp it from the worker's clock and start
    /// with empty read and write sets.
    pub fn new(clock: &mut Clock, thread_id: usize) -> (tx: Transaction)
        requires
            old(clock).wf(),
        ensures
            final(clock).wf(),
            tx.thread_id == thread_id,
            tx@.read_set == Seq::<(u64, VersionView)>::empty(),
            tx@.write_set == Seq::<(u64, VersionView)>::empty(),
            tx.timestamp == final(clock).last_timestamp,
            exists|tick: u64|
                {
                    &&& tx.timestamp == #[trigger] next_timestamp(*old(clock), tick)
                    &&& final(clock).local_clock == advanced_local_clock(*old(clock), tick)
                },
            final(clock).thread_id == old(clock).thread_id,
            final(clock).clock_boost == old(clock).clock_boost,
            final(clock).read_timestamp == old(clock).read_timestamp,
            tx.timestamp % 256 == old(clock).thread_id,
            old(clock).last_timestamp < MAX_LOGICAL_CLOCK ==> tx.timestamp > old(
                clock,
            ).last_timestamp,
    {
        let timestamp = clock.generate_write_timestamp();
        let tx = Transaction {
            timestamp,
            read_set: Vec::new(),
            write_set: Vec::new(),
            thread_id,
        };
        proof {
            assert(tx@.read_set =~= Seq::<(u64, VersionView)>::empty());
            assert(tx@.write_set =~= Seq::<(u64, VersionView)>::empty());
        }
        tx
    }

    /// The transaction's begin timestamp.
    pub fn get_timestamp(&self) -> (r: u64)
        ensures
            r == self.timestamp,
    {
        self.timestamp
    }

    /// Read a record: the transaction's own pending write if it has
    /// one, otherwise the newest version visible at the transaction's
    /// timestamp, which is recorded in the read set.
    pub fn read(&mut self, records: &HashMap<u64, RecordHead>, record_id: u64) -> (r: Result<
        Version,
        MaemioError,
    >)
        ensures
            ({
                let pre = old(self)@;
                let store = store_view(records@);
                match lookup(pre.write_set, record_id) {
                    Some(v) => r matches Ok(rv) && rv@ == v && final(self)@ == pre,
                    None => {
                        if !store.contains_key(record_id) {
                            &&& r == Result::<Version, MaemioError>::Err(
                                MaemioError::RecordNotFound(record_id),
                            )
                            &&& final(self)@ == pre
                        } else {
                            match store[record_id].find_visible(pre.timestamp) {
                                None => r == Result::<Version, MaemioError>::Err(
                                    MaemioError::NoVisibleVersion,
                                ) && final(self)@ == pre,
                                Some(v) => r matches Ok(rv) && rv@ == v && final(self)@
                                    == (TransactionView {
                                    read_set: put_entry(pre.read_set, record_id, v),
                                    ..pre
                                }),
                            }
                        }
                    },
                }
            }),
    {
        match get_entry(&self.write_set, record_id) {
            Some(v) => {
                return Ok(v.duplicate());
            },
            None => {},
        }
        let record = match records.get(&record_id) {
            Some(r) => r,
            None => {
                return Err(MaemioError::RecordNotFound(record_id));
            },
        };
        match record.find_visible_version(self.timestamp) {
            None => Err(MaemioError::NoVisibleVersion),
            Some(v) => {
                let copy = v.duplicate();
                store_entry(&mut self.read_set, record_id, v);
                Ok(copy)
            },
        }
    }

    /// Write `data` to a record: the record must exist; a pending
    /// version stamped with the transaction's timestamp is stored in
    /// the write set.  The global record is not touched until commit.
    pub fn write(&mut self, records: &HashMap<u64, RecordHead>, record_id: u64, data: Vec<u8>) -> (r:
        Result<(), MaemioError>)
        ensures
            !store_view(records@).contains_key(record_id) ==> r == Result::<(), MaemioError>::Err(
                MaemioError::RecordNotFound(record_id),
            ) && final(self)@ == old(self)@,
            store_view(records@).contains_key(record_id) ==> r is Ok && final(self)@
                == (TransactionView {
                write_set: put_entry(
                    old(self)@.write_set,
                    record_id,
                    VersionView {
                        wts: old(self).timestamp,
                        rts: 0,
                        status: VersionStatus::Pending,
                        data: data@,
                    },
                ),
                ..old(self)@
            }),
    {
        if !records.contains_key(&record_id) {
            return Err(MaemioError::RecordNotFound(record_id));
        }
        let new_version = Version::new(self.timestamp, data);
        store_entry(&mut self.write_set, record_id, new_version);
        Ok(())
    }

    /// Create a record stamped with the transaction's own timestamp,
    /// overwriting any record already stored under the id.
    pub fn create_record(&self, records: &mut HashMap<u64, RecordHead>, record_id: u64) -> (r:
        Result<(), MaemioError>)
        ensures
            r is Ok,
            store_view(final(records)@) == store_view(old(records)@).insert(
                record_id,
                RecordHeadView {
                    inline_version: None,
                    version_list: Seq::empty(),
                    min_wts: self.timestamp,
                    gc_locked: false,
                    creation_timestamp: self.timestamp,
                },
            ),
    {
        let head = RecordHead::new(self.timestamp);
        records.insert(record_id, head);
        proof {
            assert(store_view(records@) =~= store_view(old(records)@).insert(
                record_id,
                RecordHeadView {
                    inline_version: None,
                    version_list: Seq::empty(),
                    min_wts: self.timestamp,
                    gc_locked: false,
                    creation_timestamp: self.timestamp,
                },
            ));
        }
        Ok(())
    }
}

/// The first validation failure among the write checks: every written
/// record must still exist, and the version visible at the
/// transaction's timestamp must not be from the future.
pub open spec fn validate_writes(
    ws: Seq<(u64, VersionView)>,
    store: Map<u64, RecordHeadView>,
    ts: u64,
) -> Option<MaemioError>
    decreases ws.len(),
{
    if ws.len() == 0 {
        None
    } else {
        let id = ws[0].0;
        if !store.contains_key(id) {
            Some(MaemioError::RecordNotFound(id))
        } else {
            match store[id].find_visible(ts) {
                Some(cv) => if cv.wts > ts {
                    Some(MaemioError::Conflict)
                } else {
                    validate_writes(ws.drop_first(), store, ts)
                },
                None => validate_writes(ws.drop_first(), store, ts),
            }
        }
    }
}

/// The first validation failure among the read checks: every read
/// record must still exist, must still have a visible version, and
/// that version must be the one the transaction observed.
pub open spec fn validate_reads(
    rs: Seq<(u64, VersionView)>,
    store: Map<u64, RecordHeadView>,
    ts: u64,
) -> Option<MaemioError>
    decreases rs.len(),
{
    if rs.len() == 0 {
        None
    } else {
        let id = rs[0].0;
        let observed = rs[0].1;
        if !store.contains_key(id) {
            Some(MaemioError::RecordNotFound(id))
        } else {
            match store[id].find_visible(ts) {
                None => Some(MaemioError::ValidationFailed),
                Some(cv) => if cv.wts != observed.wts {
                    Some(MaemioError::Conflict)
                } else {
                    validate_reads(rs.drop_first(), store, ts)
                },
            }
        }
    }
}

/// The outcome of optimistic validation: the write checks first, then
/// the read checks; `None` means the transaction may install.
pub open spec fn validate_result(tx: TransactionView, store: Map<u64, RecordHeadView>) -> Option<
    MaemioError,
> {
    match validate_writes(tx.write_set, store, tx.timestamp) {
        Some(e) => Some(e),
        None => validate_reads(tx.read_set, store, tx.timestamp),
    }
}

/// The store after the write set is installed, together with the first
/// installation error, if any.  Each pending version flips to
/// committed and is published into its record; a structural failure
/// stops the pass, leaving the earlier installations in place.
pub open spec fn install_all(
    store: Map<u64, RecordHeadView>,
    ws: Seq<(u64, VersionView)>,
) -> (Map<u64, RecordHeadView>, Option<MaemioError>)
    decreases ws.len(),
{
    if ws.len() == 0 {
        (store, None)
    } else {
        let id = ws[0].0;
        let vc = VersionView { status: VersionStatus::Committed, ..ws[0].1 };
        if !store.contains_key(id) {
            (store, Some(MaemioError::RecordNotFound(id)))
        } else if store[id].install_ok(vc) {
            install_all(store.insert(id, store[id].installed(vc)), ws.drop_first())
        } else {
            (store, Some(MaemioError::VersionInstallationFailed))
        }
    }
}

/// The `(record id, write timestamp)` pairs of the write-set entries
/// whose records resolve in the store, in write-set order.
pub open spec fn gc_pairs_prefix(
    ws: Seq<(u64, VersionView)>,
    store: Map<u64, RecordHeadView>,
    n: int,
) -> Seq<(u64, u64)>
    decreases n,
{
    if n <= 0 {
        Seq::empty()
    } else {
        let p = gc_pairs_prefix(ws, store, n - 1);
        if store.contains_key(ws[n - 1].0) {
            p.push((ws[n - 1].0, ws[n - 1].1.wts))
        } else {
            p
        }
    }
}

/// The garbage-collection handoff for a transaction's write set.
pub open spec fn gc_pairs(ws: Seq<(u64, VersionView)>, store: Map<u64, RecordHeadView>) -> Seq<
    (u64, u64),
> {
    gc_pairs_prefix(ws, store, ws.len() as int)
}

impl Transaction {
    /// Optimistic validation against the current store, under a shared
    /// view: write checks first, then read checks.
    fn validate(&self, records: &HashMap<u64, RecordHead>) -> (r: Result<(), MaemioError>)
        ensures
            r is Ok <==> validate_result(self@, store_view(records@)) is None,
            r matches Err(e) ==> validate_result(self@, store_view(records@)) == Some(e),
    {
        let ghost store = store_view(records@);
        let ghost ws = self@.write_set;
        let ghost rs = self@.read_set;
        proof {
            assert(ws.skip(0) =~= ws);
        }
        let mut i: usize = 0;
        while i < self.write_set.len()
            invariant
                store == store_view(records@),
                ws == self@.write_set,
                ws.len() == self.write_set@.len(),
                i <= ws.len(),
                forall|k: int|
                    0 <= k < ws.len() ==> (#[trigger] ws[k]) == (
                        self.write_set@[k].0,
                        self.write_set@[k].1@,
                    ),
                validate_writes(ws, store, self.timestamp) == validate_writes(
                    ws.skip(i as int),
                    store,
                    self.timestamp,
                ),
            decreases ws.len() - i,
        {
            let id = self.write_set[i].0;
            proof {
                assert(ws.skip(i as int)[0] == (id, self.write_set@[i as int].1@));
                assert(ws.skip(i as int).drop_first() =~= ws.skip(i as int + 1));
            }
            match records.get(&id) {
                None => {
                    proof {
                        assert(!store.contains_key(id));
                    }
                    return Err(MaemioError::RecordNotFound(id));
                },
                Some(record) => {
                    proof {
                        assert(store.contains_key(id));
                        assert(store[id] == record@);
                    }
                    match record.find_visible_version(self.timestamp) {
                        Some(current_visible) => {
                            if current_visible.wts > self.timestamp {
                                return Err(MaemioError::Conflict);
                            }
                        },
                        None => {},
                    }
                },
            }
            i = i + 1;
        }
        proof {
            assert(ws.skip(i as int) =~= Seq::<(u64, VersionView)>::empty());
            assert(validate_writes(ws, store, self.timestamp) is None);
            assert(rs.skip(0) =~= rs);
        }
        let mut j: usize = 0;
        while j < self.read_set.len()
            invariant
                store == store_view(records@),
                rs == self@.read_set,
                rs.len() == self.read_set@.len(),
                j <= rs.len(),
                forall|k: int|
                    0 <= k < rs.len() ==> (#[trigger] rs[k]) == (
                        self.read_set@[k].0,
                        self.read_set@[k].1@,
                    ),
                validate_writes(self@.write_set, store, self.timestamp) is None,
                validate_reads(rs, store, self.timestamp) == validate_reads(
                    rs.skip(j as int),
                    store,
                    self.timestamp,
                ),
            decreases rs.len() - j,
        {
            let id = self.read_set[j].0;
            let observed_wts = self.read_set[j].1.wts;
            proof {
                assert(rs.skip(j as int)[0] == (id, self.read_set@[j as int].1@));
                assert(rs.skip(j as int).drop_first() =~= rs.skip(j as int + 1));
            }
            match records.get(&id) {
                None => {
                    proof {
                        assert(!store.contains_key(id));
                    }
                    return Err(MaemioError::RecordNotFound(id));
                },
                Some(record) => {
                    proof {
                        assert(store.contains_key(id));
                        assert(store[id] == record@);
                    }
                    match record.find_visible_version(self.timestamp) {
                        None => {
                            return Err(MaemioError::ValidationFailed);
                        },
                        Some(current_visible) => {
                            if current_visible.wts != observed_wts {
                                return Err(MaemioError::Conflict);
                            }
                        },
                    }
                },
            }
            j = j + 1;
        }
        proof {
            assert(rs.skip(j as int) =~= Seq::<(u64, VersionView)>::empty());
        }
        Ok(())
    }

    /// Commit: validate the read and write sets against the current
    /// store, then flip every pending write to committed and install it
    /// into its record.  On success the write set is consumed and the
    /// clock's boost is cleared; a validation failure leaves the store
    /// untouched.
    pub fn commit(&mut self, records: &mut HashMap<u64, RecordHead>, clock: &mut Clock) -> (r:
        Result<(), MaemioError>)
        requires
            store_wf(store_view(old(records)@)),
        ensures
            store_wf(store_view(final(records)@)),
            ({
                let pre = old(self)@;
                let store0 = store_view(old(records)@);
                match validate_result(pre, store0) {
                    Some(e) => {
                        &&& r == Result::<(), MaemioError>::Err(e)
                        &&& final(self)@ == pre
                        &&& store_view(final(records)@) == store0
                        &&& *final(clock) == *old(clock)
                    },
                    None => {
                        let inst = install_all(store0, pre.write_set);
                        &&& store_view(final(records)@) == inst.0
                        &&& final(self)@ == (TransactionView {
                            write_set: Seq::empty(),
                            ..pre
                        })
                        &&& match inst.1 {
                            None => r is Ok && *final(clock) == (Clock {
                                clock_boost: 0,
                                ..*old(clock)
                            }),
                            Some(e) => r == Result::<(), MaemioError>::Err(e) && *final(clock)
                                == *old(clock),
                        }
                    },
                }
            }),
    {
        match self.validate(records) {
            Err(e) => {
                return Err(e);
            },
            Ok(()) => {},
        }
        let mut ws: Vec<(u64, Version)> = Vec::new();
        core::mem::swap(&mut ws, &mut self.write_set);
        let ghost wsv = entries_view(ws@);
        let ghost store0 = store_view(records@);
        proof {
            assert(wsv.skip(0) =~= wsv);
            assert(self@.write_set =~= Seq::<(u64, VersionView)>::empty());
        }
        let mut i: usize = 0;
        while i < ws.len()
            invariant
                store_wf(store_view(records@)),
                i <= ws@.len(),
                wsv == entries_view(ws@),
                wsv == old(self)@.write_set,
                store0 == store_view(old(records)@),
                validate_result(old(self)@, store0) is None,
                wsv.len() == ws@.len(),
                forall|k: int|
                    0 <= k < wsv.len() ==> (#[trigger] wsv[k]) == (ws@[k].0, ws@[k].1@),
                install_all(store0, wsv) == install_all(
                    store_view(records@),
                    wsv.skip(i as int),
                ),
                self@ == (TransactionView { write_set: Seq::<(u64, VersionView)>::empty(), ..old(self)@ }),
                *clock == *old(clock),
            decreases ws@.len() - i,
        {
            let ghost pre_store = store_view(records@);
            let id = ws[i].0;
            let mut version = ws[i].1.duplicate();
            version.commit();
            proof {
                assert(wsv.skip(i as int)[0] == (id, ws@[i as int].1@));
                assert(wsv.skip(i as int).drop_first() =~= wsv.skip(i as int + 1));
                assert(version@ == (VersionView {
                    status: VersionStatus::Committed,
                    ..ws@[i as int].1@
                }));
            }
            match records.remove(&id) {
                None => {
                    proof {
                        assert(!pre_store.contains_key(id));
                        assert(store_view(records@) =~= pre_store);
                        assert(install_all(pre_store, wsv.skip(i as int)) == (
                            pre_store,
                            Some(MaemioError::RecordNotFound(id)),
                        ));
                    }
                    return Err(MaemioError::RecordNotFound(id));
                },
                Some(mut rh) => {
                    proof {
                        assert(pre_store.contains_key(id));
                        assert(pre_store[id] == rh@);
                        assert(rh@.wf());
                    }
                    let ghost pre_rh = rh@;
                    match rh.install_version(version) {
                        Ok(()) => {
                            records.insert(id, rh);
                            proof {
                                assert(rh@ == pre_rh.installed(version@));
                                assert(store_view(records@) =~= pre_store.insert(id, rh@));
                                assert(install_all(pre_store, wsv.skip(i as int))
                                    == install_all(
                                    pre_store.insert(id, pre_rh.installed(version@)),
                                    wsv.skip(i as int + 1),
                                ));
                            }
                        },
                        Err(_) => {
                            records.insert(id, rh);
                            proof {
                                assert(!pre_rh.install_ok(version@));
                                assert(store_view(records@) =~= pre_store);
                                assert(install_all(pre_store, wsv.skip(i as int)) == (
                                    pre_store,
                                    Some(MaemioError::VersionInstallationFailed),
                                ));
                            }
                            return Err(MaemioError::VersionInstallationFailed);
                        },
                    }
                },
            }
            i = i + 1;
        }
        proof {
            assert(wsv.skip(i as int) =~= Seq::<(u64, VersionView)>::empty());
        }
        clock.reset_boost();
        Ok(())
    }

    /// The garbage-collection handoff: one `(record id, write
    /// timestamp)` pair for every write-set entry whose record
    /// resolves.
    pub fn prepare_gc_tracking(&self, records: &HashMap<u64, RecordHead>) -> (r: Vec<(u64, u64)>)
        ensures
            r@ == gc_pairs(self@.write_set, store_view(records@)),
    {
        let ghost ws = self@.write_set;
        let ghost store = store_view(records@);
        let mut out: Vec<(u64, u64)> = Vec::new();
        proof {
            assert(out@ =~= gc_pairs_prefix(ws, store, 0));
        }
        let mut i: usize = 0;
        while i < self.write_set.len()
            invariant
                ws == self@.write_set,
                store == store_view(records@),
                ws.len() == self.write_set@.len(),
                i <= ws.len(),
                forall|k: int|
                    0 <= k < ws.len() ==> (#[trigger] ws[k]) == (
                        self.write_set@[k].0,
                        self.write_set@[k].1@,
                    ),
                out@ == gc_pairs_prefix(ws, store, i as int),
            decreases ws.len() - i,
        {
            let id = self.write_set[i].0;
            let wts = self.write_set[i].1.wts;
            proof {
                assert(ws[i as int] == (id, self.write_set@[i as int].1@));
                assert(ws[i as int].1.wts == wts);
            }
            if records.contains_key(&id) {
                out.push((id, wts));
            }
            i = i + 1;
        }
        out
    }
}

/// Read-your-own-writes: after a transaction stores a pending version
/// for a record, looking that record up in its write set returns
/// exactly the written bytes, whatever the store holds.
pub proof fn lemma_read_own_writes(tx: TransactionView, id: u64, data: Seq<u8>)
    ensures
        ({
            let wv = VersionView {
                wts: tx.timestamp,
                rts: 0,
                status: VersionStatus::Pending,
                data,
            };
            lookup(put_entry(tx.write_set, id, wv), id) == Some(wv)
        }),
{
    let wv = VersionView { wts: tx.timestamp, rts: 0, status: VersionStatus::Pending, data };
    lemma_put_entry_lookup(tx.write_set, id, wv);
}

/// Cap on the transactional retry loop: after this many attempts a
/// conflicting transaction degrades to a terminal system error.
pub const MAX_ATTEMPTS: u32 = 10;

/// No entry of the sequence repeats a record id.
pub open spec fn distinct_keys(s: Seq<(u64, VersionView)>) -> bool {
    forall|i: int, j: int|
        0 <= i < j < s.len() ==> (#[trigger] s[i]).0 != (#[trigger] s[j]).0
}

/// Installing a write set leaves records it does not mention exactly
/// as they were.
pub proof fn lemma_install_all_untouched(
    store: Map<u64, RecordHeadView>,
    ws: Seq<(u64, VersionView)>,
    k: u64,
)
    requires
        forall|i: int| 0 <= i < ws.len() ==> (#[trigger] ws[i]).0 != k,
    ensures
        install_all(store, ws).0.contains_key(k) == store.contains_key(k),
        store.contains_key(k) ==> install_all(store, ws).0[k] == store[k],
    decreases ws.len(),
{
    if ws.len() > 0 {
        let id = ws[0].0;
        let vc = VersionView { status: VersionStatus::Committed, ..ws[0].1 };
        assert(ws[0].0 != k);
        assert forall|i: int|
            0 <= i < ws.drop_first().len() implies (#[trigger] ws.drop_first()[i]).0 != k by {
            assert(ws.drop_first()[i] == ws[i + 1]);
        }
        if store.contains_key(id) && store[id].install_ok(vc) {
            lemma_install_all_untouched(store.insert(id, store[id].installed(vc)), ws.drop_first(), k);
        } else {
            lemma_install_all_untouched(store, ws.drop_first(), k);
        }
    }
}

/// After a transaction's writes install successfully at timestamp
/// `ts`, every record in its write set shows a committed version with
/// write timestamp exactly `ts` when looked up at `ts`.
pub proof fn lemma_committed_writes_visible(
    store: Map<u64, RecordHeadView>,
    ws: Seq<(u64, VersionView)>,
    ts: u64,
    id: u64,
)
    requires
        store_wf(store),
        distinct_keys(ws),
        install_all(store, ws).1 is None,
        forall|k: int| 0 <= k < ws.len() ==> (#[trigger] ws[k]).1.wts == ts,
        forall|k: int|
            0 <= k < ws.len() && store.contains_key((#[trigger] ws[k]).0)
                ==> store[ws[k].0].creation_timestamp <= ts,
        exists|k: int| 0 <= k < ws.len() && (#[trigger] ws[k]).0 == id,
    ensures
        install_all(store, ws).0.contains_key(id),
        install_all(store, ws).0[id].find_visible(ts) matches Some(w) && w.wts == ts && w.status
            is Committed,
    decreases ws.len(),
{
    let id0 = ws[0].0;
    let v0 = ws[0].1;
    let vc = VersionView { status: VersionStatus::Committed, ..v0 };
    assert(store.contains_key(id0));
    assert(store[id0].install_ok(vc));
    let rh = store[id0];
    let store1 = store.insert(id0, rh.installed(vc));
    assert(install_all(store, ws) == install_all(store1, ws.drop_first()));
    crate::record::lemma_installed_wf(rh, vc);
    assert(store_wf(store1)) by {
        assert forall|k: u64| store1.contains_key(k) implies (#[trigger] store1[k]).wf() by {
            if k != id0 {
                assert(store1[k] == store[k]);
            }
        }
    }
    if id0 == id {
        assert forall|i: int|
            0 <= i < ws.drop_first().len() implies (#[trigger] ws.drop_first()[i]).0 != id by {
            assert(ws.drop_first()[i] == ws[i + 1]);
        }
        lemma_install_all_untouched(store1, ws.drop_first(), id);
        assert(install_all(store, ws).0[id] == store1[id]);
        assert(vc.wts == ts);
        assert(rh.creation_timestamp <= ts);
        crate::record::lemma_installed_version_visible(rh, vc);
    } else {
        let k0 = choose|k: int| 0 <= k < ws.len() && (#[trigger] ws[k]).0 == id;
        assert(k0 > 0);
        assert(ws.drop_first()[k0 - 1] == ws[k0]);
        assert(distinct_keys(ws.drop_first())) by {
            assert forall|i: int, j: int|
                0 <= i < j < ws.drop_first().len() implies (#[trigger] ws.drop_first()[i]).0
                != (#[trigger] ws.drop_first()[j]).0 by {
                assert(ws.drop_first()[i] == ws[i + 1]);
                assert(ws.drop_first()[j] == ws[j + 1]);
            }
        }
        assert forall|k: int|
            0 <= k < ws.drop_first().len() implies (#[trigger] ws.drop_first()[k]).1.wts
            == ts by {
            assert(ws.drop_first()[k] == ws[k + 1]);
        }
        assert forall|k: int|
            0 <= k < ws.drop_first().len() && store1.contains_key(
                (#[trigger] ws.drop_first()[k]).0,
            ) implies store1[ws.drop_first()[k].0].creation_timestamp <= ts by {
            assert(ws.drop_first()[k] == ws[k + 1]);
            let key = ws[k + 1].0;
            if key == id0 {
                assert(store1[key] == rh.installed(vc));
                assert(rh.installed(vc).creation_timestamp == rh.creation_timestamp);
            } else {
                assert(store1[key] == store[key]);
            }
        }
        lemma_committed_writes_visible(store1, ws.drop_first(), ts, id);
    }
}

/// Coordinator of the engine: the per-thread clocks, the record store
/// and the contention manager.
#[derive(Debug)]
pub struct TransactionManager {
    pub clock_manager: ClockManager,
    pub records: HashMap<u64, RecordHead>,
    pub contention_manager: ContentionManager,
}

impl TransactionManager {
    /// Well-formedness of the whole engine state.
    pub open spec fn wf(self) -> bool {
        &&& self.clock_manager.wf()
        &&& self.contention_manager.wf()
        &&& store_wf(store_view(self.records@))
    }

    /// A manager over the given clocks, with an empty record store and
    /// a default-tuned contention manager.
    pub fn new(clock_manager: ClockManager, thread_count: usize) -> (r: Result<
        TransactionManager,
        MaemioError,
    >)
        ensures
            r is Ok,
            r matches Ok(tm) ==> {
                &&& tm.clock_manager == clock_manager
                &&& tm.records@ == Map::<u64, RecordHead>::empty()
                &&& tm.contention_manager.thread_stats@.len() == thread_count
                &&& tm.contention_manager.max_backoff_time == 0
                &&& tm.contention_manager.hill_climb_interval
                    == crate::contention::DEFAULT_HILL_CLIMB_INTERVAL
                &&& tm.contention_manager.backoff_step == crate::contention::DEFAULT_BACKOFF_STEP
                &&& (clock_manager.wf() ==> tm.wf())
            },
    {
        let contention_manager = ContentionManager::new(
            thread_count,
            crate::contention::DEFAULT_HILL_CLIMB_INTERVAL,
            crate::contention::DEFAULT_BACKOFF_STEP,
        );
        let tm = TransactionManager {
            clock_manager,
            records: HashMap::new(),
            contention_manager,
        };
        proof {
            assert(store_wf(store_view(tm.records@)));
        }
        Ok(tm)
    }

    /// Open a transaction for worker `thread_id`, stamping it from that
    /// worker's clock.
    pub fn begin_transaction(&mut self, thread_id: usize) -> (tx: Transaction)
        requires
            old(self).wf(),
            thread_id < old(self).clock_manager.clocks@.len(),
        ensures
            final(self).wf(),
            final(self).records@ == old(self).records@,
            final(self).contention_manager == old(self).contention_manager,
            final(self).clock_manager.clocks@.len() == old(self).clock_manager.clocks@.len(),
            final(self).clock_manager.min_write_ts == old(self).clock_manager.min_write_ts,
            final(self).clock_manager.min_read_ts == old(self).clock_manager.min_read_ts,
            final(self).clock_manager.sync_interval == old(self).clock_manager.sync_interval,
            tx.thread_id == thread_id,
            tx@.read_set == Seq::<(u64, VersionView)>::empty(),
            tx@.write_set == Seq::<(u64, VersionView)>::empty(),
            tx.timestamp == final(self).clock_manager.clocks@[thread_id as int].last_timestamp,
            tx.timestamp % 256 == thread_id,
            old(self).clock_manager.clocks@[thread_id as int].last_timestamp < MAX_LOGICAL_CLOCK
                ==> tx.timestamp > old(self).clock_manager.clocks@[thread_id as int].last_timestamp,
            exists|tick: u64|
                {
                    &&& tx.timestamp == #[trigger] next_timestamp(
                        old(self).clock_manager.clocks@[thread_id as int],
                        tick,
                    )
                    &&& final(self).clock_manager.clocks@ == old(self).clock_manager.clocks@.update(
                        thread_id as int,
                        Clock {
                            local_clock: advanced_local_clock(
                                old(self).clock_manager.clocks@[thread_id as int],
                                tick,
                            ),
                            last_timestamp: tx.timestamp,
                            ..old(self).clock_manager.clocks@[thread_id as int]
                        },
                    )
                },
    {
        let mut c = self.clock_manager.clocks[thread_id];
        let tx = Transaction::new(&mut c, thread_id);
        self.clock_manager.clocks[thread_id] = c;
        tx
    }

    /// Create a record under `record_id`, stamped with the current
    /// global minimum write timestamp.  Fails iff the id is taken.
    pub fn create_record(&mut self, record_id: u64) -> (r: Result<(), MaemioError>)
        requires
            old(self).wf(),
        ensures
            final(self).wf(),
            final(self).clock_manager == old(self).clock_manager,
            final(self).contention_manager == old(self).contention_manager,
            r is Ok <==> !store_view(old(self).records@).contains_key(record_id),
            r is Ok ==> store_view(final(self).records@) == store_view(old(self).records@).insert(
                record_id,
                RecordHeadView {
                    inline_version: None,
                    version_list: Seq::empty(),
                    min_wts: old(self).clock_manager.min_write_ts,
                    gc_locked: false,
                    creation_timestamp: old(self).clock_manager.min_write_ts,
                },
            ),
            r matches Err(e) ==> e is System && final(self).records@ == old(self).records@,
    {
        if self.records.contains_key(&record_id) {
            return Err(MaemioError::System("record already exists".to_owned()));
        }
        let creation_ts = self.clock_manager.get_min_write_ts();
        let head = RecordHead::new(creation_ts);
        records_insert_view(&mut self.records, record_id, head);
        Ok(())
    }

    /// Shared access to the record stored under `record_id`.
    pub fn get_record(&self, record_id: u64) -> (r: Result<&RecordHead, MaemioError>)
        ensures
            store_view(self.records@).contains_key(record_id) ==> (r matches Ok(rh) && rh@
                == store_view(self.records@)[record_id]),
            !store_view(self.records@).contains_key(record_id) ==> r == Result::<
                &RecordHead,
                MaemioError,
            >::Err(MaemioError::RecordNotFound(record_id)),
    {
        match self.records.get(&record_id) {
            Some(rh) => Ok(rh),
            None => Err(MaemioError::RecordNotFound(record_id)),
        }
    }

    /// Commit a transaction against this engine: validation and
    /// installation run on the store, and the worker's clock boost is
    /// cleared on success.
    pub fn commit_transaction(&mut self, tx: &mut Transaction) -> (r: Result<(), MaemioError>)
        requires
            old(self).wf(),
            old(tx).thread_id < old(self).clock_manager.clocks@.len(),
        ensures
            final(self).wf(),
            final(self).contention_manager == old(self).contention_manager,
            final(self).clock_manager.clocks@.len() == old(self).clock_manager.clocks@.len(),
            final(self).clock_manager.min_write_ts == old(self).clock_manager.min_write_ts,
            final(self).clock_manager.min_read_ts == old(self).clock_manager.min_read_ts,
            final(self).clock_manager.sync_interval == old(self).clock_manager.sync_interval,
            final(tx).thread_id == old(tx).thread_id,
            final(tx).timestamp == old(tx).timestamp,
            ({
                let pre = old(tx)@;
                let store0 = store_view(old(self).records@);
                match validate_result(pre, store0) {
                    Some(e) => {
                        &&& r == Result::<(), MaemioError>::Err(e)
                        &&& final(tx)@ == pre
                        &&& store_view(final(self).records@) == store0
                        &&& final(self).clock_manager.clocks@ == old(self).clock_manager.clocks@
                    },
                    None => {
                        let inst = install_all(store0, pre.write_set);
                        &&& store_view(final(self).records@) == inst.0
                        &&& final(tx)@ == (TransactionView {
                            write_set: Seq::<(u64, VersionView)>::empty(),
                            ..pre
                        })
                        &&& ({
                            let old_clocks = old(self).clock_manager.clocks@;
                            let new_clocks = final(self).clock_manager.clocks@;
                            let tid = old(tx).thread_id as int;
                            match inst.1 {
                                None => r is Ok && new_clocks == old_clocks.update(
                                    tid,
                                    Clock { clock_boost: 0, ..old_clocks[tid] },
                                ),
                                Some(e) => r == Result::<(), MaemioError>::Err(e) && new_clocks
                                    == old_clocks,
                            }
                        })
                    },
                }
            }),
    {
        let tid = tx.thread_id;
        let mut c = self.clock_manager.clocks[tid];
        let ghost c0 = c;
        let r = tx.commit(&mut self.records, &mut c);
        self.clock_manager.clocks[tid] = c;
        proof {
            if c == c0 {
                assert(self.clock_manager.clocks@ =~= old(self).clock_manager.clocks@);
            }
        }
        r
    }

    /// Commit a transaction and, on success, record the commit with the
    /// contention manager and queue the written records with the
    /// garbage collector.
    pub fn commit_and_track(&mut self, tx: &mut Transaction, gc: &mut GarbageCollector) -> (r:
        Result<(), MaemioError>)
        requires
            old(self).wf(),
            old(tx).thread_id < old(self).clock_manager.clocks@.len(),
        ensures
            final(self).wf(),
            final(tx).thread_id == old(tx).thread_id,
            final(gc).gc_interval == old(gc).gc_interval,
            ({
                let pre = old(tx)@;
                let store0 = store_view(old(self).records@);
                match validate_result(pre, store0) {
                    Some(e) => {
                        &&& r == Result::<(), MaemioError>::Err(e)
                        &&& store_view(final(self).records@) == store0
                        &&& final(gc).queue@ == old(gc).queue@
                        &&& final(self).contention_manager == old(self).contention_manager
                    },
                    None => {
                        let inst = install_all(store0, pre.write_set);
                        &&& store_view(final(self).records@) == inst.0
                        &&& match inst.1 {
                            None => {
                                &&& r is Ok
                                &&& final(gc).queue@ == old(gc).queue@ + gc_pairs(
                                    pre.write_set,
                                    store0,
                                )
                                &&& ({
                                    let old_stats = old(self).contention_manager.thread_stats@;
                                    let new_stats = final(self).contention_manager.thread_stats@;
                                    let tid = old(tx).thread_id as int;
                                    old(tx).thread_id < old_stats.len() ==> new_stats
                                        == old_stats.update(
                                        tid,
                                        crate::contention::ThreadStats {
                                            commit_count: old_stats[tid].commit_count.saturating_add(1),
                                            last_commit_count: old_stats[tid].last_commit_count,
                                        },
                                    )
                                })
                            },
                            Some(e) => {
                                &&& r == Result::<(), MaemioError>::Err(e)
                                &&& final(gc).queue@ == old(gc).queue@
                                &&& final(self).contention_manager == old(self).contention_manager
                            },
                        }
                    },
                }
            }),
    {
        let gc_info = tx.prepare_gc_tracking(&self.records);
        match self.commit_transaction(tx) {
            Ok(()) => {
                self.contention_manager.record_commit(tx.thread_id);
                let ghost q0 = gc.queue@;
                proof {
                    assert(q0 + gc_info@.take(0) =~= q0);
                }
                let mut i: usize = 0;
                while i < gc_info.len()
                    invariant
                        i <= gc_info@.len(),
                        gc.queue@ == q0 + gc_info@.take(i as int),
                        gc.gc_interval == old(gc).gc_interval,
                    decreases gc_info@.len() - i,
                {
                    let pair = gc_info[i];
                    gc.track_version(pair.0, pair.1);
                    proof {
                        assert(gc_info@.take(i as int).push(gc_info@[i as int]) =~= gc_info@.take(
                            i as int + 1,
                        ));
                        assert((q0 + gc_info@.take(i as int)).push(gc_info@[i as int]) =~= q0
                            + gc_info@.take(i as int + 1));
                    }
                    i = i + 1;
                }
                proof {
                    assert(gc_info@.take(gc_info@.len() as int) =~= gc_info@);
                }
                Ok(())
            },
            Err(e) => Err(e),
        }
    }
}

/// Insert a record into the store, keeping the store's view in step.
fn records_insert_view(records: &mut HashMap<u64, RecordHead>, record_id: u64, head: RecordHead)
    ensures
        store_view(final(records)@) == store_view(old(records)@).insert(record_id, head@),
{
    records.insert(record_id, head);
    proof {
        assert(store_view(records@) =~= store_view(old(records)@).insert(record_id, head@));
    }
}

} // verus!
