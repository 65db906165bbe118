use vstd::prelude::*;

use std::collections::HashMap;

use crate::error::MaemioError;
use crate::record::{
    first_visible, newest_first, store_view, store_wf, RecordHead, RecordHeadView,
};
use crate::version::{Version, VersionView};

verus! {

broadcast use vstd::std_specs::hash::group_hash_axioms;

/// The versions of a chain that survive reclamation at watermark `w`:
/// exactly those written at or after `w`, in their original order.
pub open spec fn kept_versions(s: Seq<VersionView>, w: u64) -> Seq<VersionView>
    decreases s.len(),
{
    if s.len() == 0 {
        Seq::empty()
    } else if s[0].wts >= w {
        seq![s[0]] + kept_versions(s.drop_first(), w)
    } else {
        kept_versions(s.drop_first(), w)
    }
}

/// A record after one reclamation pass at watermark `w`: the chain is
/// rebuilt keeping only versions written at or after `w`, the inline
/// slot is cleared if it fell below `w`, and the record's own watermark
/// is advanced.
pub open spec fn reclaimed(r: RecordHeadView, w: u64) -> RecordHeadView {
    RecordHeadView {
        inline_version: match r.inline_version {
            Some(iv) => if iv.wts >= w {
                Some(iv)
            } else {
                None
            },
            None => None,
        },
        version_list: kept_versions(r.version_list, w),
        min_wts: w,
        ..r
    }
}

/// The store and the remaining queue after one collection pass at
/// watermark `w`.  Entries tracked at or above the watermark, and
/// entries whose record's reclamation lock is busy, are kept for a
/// later pass; entries for records no longer in the store are dropped;
/// the rest are reclaimed.
pub open spec fn gc_pass(
    store: Map<u64, RecordHeadView>,
    q: Seq<(u64, u64)>,
    w: u64,
) -> (Map<u64, RecordHeadView>, Seq<(u64, u64)>)
    decreases q.len(),
{
    if q.len() == 0 {
        (store, Seq::empty())
    } else {
        let (id, wts) = q[0];
        if wts >= w {
            let rest = gc_pass(store, q.drop_first(), w);
            (rest.0, seq![(id, wts)] + rest.1)
        } else if !store.contains_key(id) {
            gc_pass(store, q.drop_first(), w)
        } else if store[id].gc_locked {
            let rest = gc_pass(store, q.drop_first(), w);
            (rest.0, seq![(id, wts)] + rest.1)
        } else {
            gc_pass(store.insert(id, reclaimed(store[id], w)), q.drop_first(), w)
        }
    }
}

/// Multi-version garbage collector: a FIFO queue of recently written
/// `(record id, write timestamp)` pairs, reclaimed against the global
/// minimum read watermark.
#[derive(Debug)]
pub struct GarbageCollector {
    pub queue: Vec<(u64, u64)>,
    /// Collection period, in microseconds.
    pub gc_interval: u64,
}

impl GarbageCollector {
    /// A collector with an empty queue.
    pub fn new(gc_interval_micros: u64) -> (r: GarbageCollector)
        ensures
            r.queue@ == Seq::<(u64, u64)>::empty(),
            r.gc_interval == gc_interval_micros,
    {
        let r = GarbageCollector { queue: Vec::new(), gc_interval: gc_interval_micros };
        proof {
            assert(r.queue@ =~= Seq::<(u64, u64)>::empty());
        }
        r
    }

    /// Queue a freshly committed version for later reclamation.
    pub fn track_version(&mut self, record_id: u64, wts: u64)
        ensures
            final(self).queue@ == old(self).queue@.push((record_id, wts)),
            final(self).gc_interval == old(self).gc_interval,
    {
        self.queue.push((record_id, wts));
    }

    /// Reclaim one record at watermark `min_rts`: advance the record's
    /// watermark, rebuild the chain keeping only versions written at or
    /// after `min_rts`, and clear the inline slot if it fell below.
    pub fn collect_record_versions(&self, record: &mut RecordHead, min_rts: u64)
        requires
            old(record)@.wf(),
        ensures
            final(record)@ == reclaimed(old(record)@, min_rts),
            final(record)@.wf(),
    {
        proof {
            lemma_kept_versions_props(old(record)@.version_list, min_rts);
        }
        record.update_min_wts(min_rts);
        let ghost chain = record@.version_list;
        let mut kept: Vec<Version> = Vec::new();
        proof {
            assert(chain.skip(0) =~= chain);
            assert(kept@.map_values(|v: Version| v@) + kept_versions(chain, min_rts)
                =~= kept_versions(chain, min_rts));
        }
        let mut i: usize = 0;
        while i < record.version_list.len()
            invariant
                i <= record.version_list@.len(),
                chain == record@.version_list,
                chain.len() == record.version_list@.len(),
                forall|k: int|
                    0 <= k < chain.len() ==> chain[k] == (#[trigger] record.version_list@[k])@,
                kept_versions(chain, min_rts) == kept@.map_values(|v: Version| v@)
                    + kept_versions(chain.skip(i as int), min_rts),
            decreases record.version_list@.len() - i,
        {
            let v = &record.version_list[i];
            let ghost pre_kept = kept@.map_values(|w: Version| w@);
            if v.wts >= min_rts {
                kept.push(v.duplicate());
            }
            proof {
                let tail = chain.skip(i as int);
                assert(tail[0] == v@);
                assert(tail.drop_first() =~= chain.skip(i as int + 1));
                if v@.wts >= min_rts {
                    assert(kept@.map_values(|w: Version| w@) =~= pre_kept.push(v@));
                    assert(pre_kept + (seq![v@] + kept_versions(tail.drop_first(), min_rts))
                        =~= pre_kept.push(v@) + kept_versions(tail.drop_first(), min_rts));
                }
            }
            i = i + 1;
        }
        proof {
            assert(chain.skip(i as int) =~= Seq::<VersionView>::empty());
            assert(kept@.map_values(|v: Version| v@) + Seq::<VersionView>::empty()
                =~= kept@.map_values(|v: Version| v@));
        }
        record.version_list = kept;
        let drop_inline = match &record.inline_version {
            Some(iv) => iv.wts < min_rts,
            None => false,
        };
        if drop_inline {
            record.inline_version = None;
        }
        proof {
            lemma_reclaimed_wf(old(record)@, min_rts);
            assert(record@ == reclaimed(old(record)@, min_rts));
        }
    }

    /// One collection pass over the queue at watermark `min_rts`.  Each
    /// entry is either kept for a later pass (still above the watermark,
    /// or its record's reclamation lock is busy), dropped (record no
    /// longer in the store), or reclaimed.
    pub fn collect_garbage(&mut self, records: &mut HashMap<u64, RecordHead>, min_rts: u64) -> (r:
        Result<(), MaemioError>)
        requires
            store_wf(store_view(old(records)@)),
        ensures
            r is Ok,
            ({
                let pass = gc_pass(store_view(old(records)@), old(self).queue@, min_rts);
                &&& store_view(final(records)@) == pass.0
                &&& final(self).queue@ == pass.1
            }),
            final(self).gc_interval == old(self).gc_interval,
            store_wf(store_view(final(records)@)),
    {
        let ghost q = self.queue@;
        let ghost store0 = store_view(records@);
        let mut remaining: Vec<(u64, u64)> = Vec::new();
        let mut i: usize = 0;
        proof {
            assert(q.skip(0) =~= q);
        }
        while i < self.queue.len()
            invariant
                store_wf(store_view(records@)),
                i <= self.queue@.len(),
                q == self.queue@,
                gc_pass(store0, q, min_rts) == ({
                    let rest = gc_pass(store_view(records@), q.skip(i as int), min_rts);
                    (rest.0, remaining@ + rest.1)
                }),
            decreases self.queue@.len() - i,
        {
            let ghost pre_store = store_view(records@);
            let ghost pre_rem = remaining@;
            let ghost tail = q.skip(i as int);
            let entry = self.queue[i];
            let id = entry.0;
            let wts = entry.1;
            proof {
                assert(tail[0] == (id, wts));
                assert(tail.drop_first() =~= q.skip(i as int + 1));
            }
            if wts >= min_rts {
                remaining.push(entry);
                proof {
                    let rest = gc_pass(pre_store, tail.drop_first(), min_rts);
                    assert(pre_rem + (seq![(id, wts)] + rest.1) =~= remaining@ + rest.1);
                }
            } else {
                match records.remove(&id) {
                    None => {
                        proof {
                            assert(!pre_store.contains_key(id));
                            assert(store_view(records@) =~= pre_store);
                        }
                    },
                    Some(mut rh) => {
                        if !rh.try_gc_lock() {
                            records.insert(id, rh);
                            remaining.push(entry);
                            proof {
                                assert(store_view(records@) =~= pre_store);
                                let rest = gc_pass(pre_store, tail.drop_first(), min_rts);
                                assert(pre_rem + (seq![(id, wts)] + rest.1) =~= remaining@
                                    + rest.1);
                            }
                        } else {
                            proof {
                                assert(pre_store.contains_key(id));
                                assert(pre_store[id] == rh@);
                                assert(rh@.wf());
                            }
                            self.collect_record_versions(&mut rh, min_rts);
                            records.insert(id, rh);
                            proof {
                                assert(store_view(records@) =~= pre_store.insert(
                                    id,
                                    reclaimed(pre_store[id], min_rts),
                                ));
                            }
                        }
                    },
                }
            }
            i = i + 1;
        }
        proof {
            assert(q.skip(i as int) =~= Seq::<(u64, u64)>::empty());
            let rest = gc_pass(store_view(records@), q.skip(i as int), min_rts);
            assert(remaining@ + rest.1 =~= remaining@);
        }
        self.queue = remaining;
        Ok(())
    }
}

/// The surviving versions at watermark `w` are versions of the original
/// chain, all written at or after `w`, still ordered newest first.
pub proof fn lemma_kept_versions_props(s: Seq<VersionView>, w: u64)
    requires
        newest_first(s),
    ensures
        newest_first(kept_versions(s, w)),
        forall|k: int|
            0 <= k < kept_versions(s, w).len() ==> (#[trigger] kept_versions(s, w)[k]).wts >= w,
        forall|k: int|
            0 <= k < kept_versions(s, w).len() ==> exists|i: int|
                0 <= i < s.len() && (#[trigger] kept_versions(s, w)[k]) == s[i],
    decreases s.len(),
{
    if s.len() > 0 {
        assert(newest_first(s.drop_first())) by {
            assert forall|i: int, j: int|
                0 <= i <= j < s.drop_first().len() implies (#[trigger] s.drop_first()[i]).wts
                >= (#[trigger] s.drop_first()[j]).wts by {
                assert(s.drop_first()[i] == s[i + 1]);
                assert(s.drop_first()[j] == s[j + 1]);
            }
        }
        lemma_kept_versions_props(s.drop_first(), w);
        let kept = kept_versions(s, w);
        let rest = kept_versions(s.drop_first(), w);
        if s[0].wts >= w {
            assert(kept == seq![s[0]] + rest);
            assert forall|k: int| 0 <= k < kept.len() implies (#[trigger] kept[k]).wts >= w by {
                if k > 0 {
                    assert(kept[k] == rest[k - 1]);
                }
            }
            assert forall|k: int| 0 <= k < kept.len() implies exists|i: int|
                0 <= i < s.len() && (#[trigger] kept[k]) == s[i] by {
                if k == 0 {
                    assert(kept[0] == s[0]);
                } else {
                    assert(kept[k] == rest[k - 1]);
                    let tail = s.drop_first();
                    let i0 = choose|i: int| 0 <= i < tail.len() && rest[k - 1] == tail[i];
                    assert(tail[i0] == s[i0 + 1]);
                    assert(kept[k] == s[i0 + 1]);
                }
            }
            assert forall|i: int, j: int|
                0 <= i <= j < kept.len() implies (#[trigger] kept[i]).wts
                >= (#[trigger] kept[j]).wts by {
                if i == 0 && j > 0 {
                    assert(kept[j] == rest[j - 1]);
                    let i0 = choose|x: int| 0 <= x < s.drop_first().len() && rest[j - 1]
                        == s.drop_first()[x];
                    assert(s.drop_first()[i0] == s[i0 + 1]);
                    assert(s[0].wts >= s[i0 + 1].wts);
                } else if i > 0 {
                    assert(kept[i] == rest[i - 1]);
                    assert(kept[j] == rest[j - 1]);
                }
            }
        } else {
            assert forall|k: int| 0 <= k < kept.len() implies exists|i: int|
                0 <= i < s.len() && (#[trigger] kept[k]) == s[i] by {
                let tail = s.drop_first();
                let i0 = choose|i: int| 0 <= i < tail.len() && rest[k] == tail[i];
                assert(s.drop_first()[i0] == s[i0 + 1]);
                assert(kept[k] == s[i0 + 1]);
            }
        }
    }
}

/// Reclamation preserves well-formedness and leaves only versions at or
/// above the watermark in the record.
pub proof fn lemma_reclaimed_wf(r: RecordHeadView, w: u64)
    requires
        r.wf(),
    ensures
        reclaimed(r, w).wf(),
        forall|i: int|
            0 <= i < reclaimed(r, w).all_versions().len() ==> (#[trigger] reclaimed(
                r,
                w,
            ).all_versions()[i]).wts >= w,
{
    lemma_kept_versions_props(r.version_list, w);
    let post = reclaimed(r, w);
    let kept = kept_versions(r.version_list, w);
    match r.inline_version {
        Some(iv) => {
            assert forall|i: int|
                0 <= i < kept.len() implies iv.wts >= (#[trigger] kept[i]).wts by {
                let i0 = choose|x: int| 0 <= x < r.version_list.len() && kept[i]
                    == r.version_list[x];
                assert(iv.wts >= r.version_list[i0].wts);
            }
            if iv.wts >= w {
                let pall = post.all_versions();
                assert(pall == seq![iv] + kept);
                assert forall|i: int|
                    0 <= i < pall.len() implies (#[trigger] pall[i]).wts >= w by {
                    if i > 0 {
                        assert(pall[i] == kept[i - 1]);
                    }
                }
            } else {
                assert(post.all_versions() == kept);
            }
        },
        None => {
            assert(post.all_versions() == kept);
        },
    }
}

/// Reclamation never denies a reader its version: if the version
/// visible at `ts` before the pass was written at or after the
/// watermark, the same version is visible after the pass.
pub proof fn lemma_reclaim_preserves_visible(r: RecordHeadView, w: u64, ts: u64)
    requires
        r.wf(),
    ensures
        r.find_visible(ts) matches Some(v) ==> (v.wts >= w ==> reclaimed(r, w).find_visible(ts)
            == Some(v)),
{
    let post = reclaimed(r, w);
    match r.find_visible(ts) {
        Some(v) => {
            if v.wts >= w {
                assert(!(ts < r.creation_timestamp));
                match r.inline_version {
                    Some(iv) => {
                        assert(r.all_versions() == seq![iv] + r.version_list);
                        assert(r.all_versions()[0] == iv);
                        if iv.visible_to(ts) {
                            assert(v == iv);
                            assert(post.inline_version == Some(iv));
                            assert(post.all_versions() == seq![iv] + kept_versions(
                                r.version_list,
                                w,
                            ));
                            assert(post.all_versions()[0] == iv);
                        } else {
                            assert(r.all_versions().drop_first() =~= r.version_list);
                            assert(first_visible(r.version_list, ts) == Some(v));
                            lemma_first_visible_filter(r.version_list, w, ts);
                            if iv.wts >= w {
                                assert(post.all_versions() == seq![iv] + kept_versions(
                                    r.version_list,
                                    w,
                                ));
                                assert(post.all_versions()[0] == iv);
                                assert(post.all_versions().drop_first() =~= kept_versions(
                                    r.version_list,
                                    w,
                                ));
                            } else {
                                assert(post.all_versions() == kept_versions(r.version_list, w));
                            }
                        }
                    },
                    None => {
                        assert(r.all_versions() == r.version_list);
                        lemma_first_visible_filter(r.version_list, w, ts);
                        assert(post.all_versions() == kept_versions(r.version_list, w));
                    },
                }
            }
        },
        None => {},
    }
}

/// Filtering a chain at watermark `w` does not change which version is
/// first visible, as long as that version survives the filter.
proof fn lemma_first_visible_filter(s: Seq<VersionView>, w: u64, ts: u64)
    requires
        first_visible(s, ts) matches Some(v) && v.wts >= w,
    ensures
        first_visible(kept_versions(s, w), ts) == first_visible(s, ts),
    decreases s.len(),
{
    let kept = kept_versions(s, w);
    match first_visible(s, ts) {
        Some(v) => {
            if s[0].visible_to(ts) {
                assert(v == s[0]);
                assert(s[0].wts >= w);
                assert(kept == seq![s[0]] + kept_versions(s.drop_first(), w));
                assert(kept[0] == s[0]);
            } else {
                assert(first_visible(s.drop_first(), ts) == Some(v));
                lemma_first_visible_filter(s.drop_first(), w, ts);
                if s[0].wts >= w {
                    assert(kept == seq![s[0]] + kept_versions(s.drop_first(), w));
                    assert(kept[0] == s[0]);
                    assert(!kept[0].visible_to(ts));
                    assert(kept.drop_first() =~= kept_versions(s.drop_first(), w));
                } else {
                    assert(kept == kept_versions(s.drop_first(), w));
                }
            }
        },
        None => {},
    }
}

} // verus!
