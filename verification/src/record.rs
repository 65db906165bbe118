use vstd::prelude::*;

use crate::error::MaemioError;
use crate::version::{Version, VersionView};

verus! {

/// Payloads up to this many bytes may occupy a record's inline slot;
/// larger ones always go to the overflow chain.
pub const MAX_INLINE_SIZE: usize = 216;

/// Container for one logical record: an inline fast-path slot for small
/// hot payloads and an overflow chain of older versions, newest first.
#[derive(Debug)]
pub struct RecordHead {
    pub inline_version: Option<Version>,
    pub version_list: Vec<Version>,
    pub min_wts: u64,
    pub gc_locked: bool,
    pub creation_timestamp: u64,
}

/// Mathematical model of a `RecordHead`.
pub struct RecordHeadView {
    pub inline_version: Option<VersionView>,
    pub version_list: Seq<VersionView>,
    pub min_wts: u64,
    pub gc_locked: bool,
    pub creation_timestamp: u64,
}

impl View for RecordHead {
    type V = RecordHeadView;

    open spec fn view(&self) -> RecordHeadView {
        RecordHeadView {
            inline_version: match self.inline_version {
                Some(v) => Some(v@),
                None => None,
            },
            version_list: self.version_list@.map_values(|v: Version| v@),
            min_wts: self.min_wts,
            gc_locked: self.gc_locked,
            creation_timestamp: self.creation_timestamp,
        }
    }
}

/// A version sequence ordered newest first (non-increasing write
/// timestamps).
pub open spec fn newest_first(s: Seq<VersionView>) -> bool {
    forall|i: int, j: int|
        0 <= i <= j < s.len() ==> (#[trigger] s[i]).wts >= (#[trigger] s[j]).wts
}

/// The first version in search order that is visible to `ts`, if any.
pub open spec fn first_visible(s: Seq<VersionView>, ts: u64) -> Option<VersionView>
    decreases s.len(),
{
    if s.len() == 0 {
        None
    } else if s[0].visible_to(ts) {
        Some(s[0])
    } else {
        first_visible(s.drop_first(), ts)
    }
}

impl RecordHeadView {
    /// Every version reachable from the head, in search order: the
    /// inline slot first, then the chain newest to oldest.
    pub open spec fn all_versions(self) -> Seq<VersionView> {
        match self.inline_version {
            Some(v) => seq![v] + self.version_list,
            None => self.version_list,
        }
    }

    /// Well-formedness: the chain is ordered newest first, and an
    /// occupied inline slot is at least as new as everything on the
    /// chain.
    pub open spec fn wf(self) -> bool {
        &&& newest_first(self.version_list)
        &&& self.inline_version matches Some(iv) ==> forall|i: int|
            0 <= i < self.version_list.len() ==> iv.wts >= (#[trigger] self.version_list[i]).wts
    }

    /// The newest version visible to timestamp `ts`: nothing below the
    /// record's creation timestamp, otherwise the first visible version
    /// in search order.
    pub open spec fn find_visible(self, ts: u64) -> Option<VersionView> {
        if ts < self.creation_timestamp {
            None
        } else {
            first_visible(self.all_versions(), ts)
        }
    }

    /// Whether a version written at `w` may be pushed onto the chain
    /// head without breaking the newest-first order.
    pub open spec fn chain_accepts(self, w: u64) -> bool {
        self.version_list.len() == 0 || w >= self.version_list[0].wts
    }

    /// Whether the inline slot (if occupied) is at least as new as a
    /// version written at `w`.
    pub open spec fn inline_dominates(self, w: u64) -> bool {
        match self.inline_version {
            Some(iv) => iv.wts >= w,
            None => true,
        }
    }

    /// Whether installing `v` preserves the record's invariants: small
    /// payloads go inline (empty slot) or displace an older inline
    /// (occupied slot); everything else must fit the chain order.
    pub open spec fn install_ok(self, v: VersionView) -> bool {
        if v.data.len() <= MAX_INLINE_SIZE {
            match self.inline_version {
                None => self.chain_accepts(v.wts),
                Some(iv) => v.wts >= iv.wts || self.chain_accepts(v.wts),
            }
        } else {
            self.chain_accepts(v.wts) && self.inline_dominates(v.wts)
        }
    }

    /// The record after a successful installation of `v`.
    pub open spec fn installed(self, v: VersionView) -> RecordHeadView {
        if v.data.len() <= MAX_INLINE_SIZE {
            match self.inline_version {
                None => RecordHeadView { inline_version: Some(v), ..self },
                Some(iv) => if v.wts >= iv.wts {
                    RecordHeadView {
                        inline_version: Some(v),
                        version_list: seq![iv] + self.version_list,
                        ..self
                    }
                } else {
                    RecordHeadView { version_list: seq![v] + self.version_list, ..self }
                },
            }
        } else {
            RecordHeadView { version_list: seq![v] + self.version_list, ..self }
        }
    }
}

impl RecordHead {
    /// A fresh record with no versions installed.
    pub fn new(creation_ts: u64) -> (r: RecordHead)
        ensures
            r@ == (RecordHeadView {
                inline_version: None,
                version_list: Seq::empty(),
                min_wts: creation_ts,
                gc_locked: false,
                creation_timestamp: creation_ts,
            }),
            r@.wf(),
    {
        let r = RecordHead {
            inline_version: None,
            version_list: Vec::new(),
            min_wts: creation_ts,
            gc_locked: false,
            creation_timestamp: creation_ts,
        };
        proof {
            assert(r@.version_list =~= Seq::<VersionView>::empty());
        }
        r
    }

    /// Attempt to place `version` in the inline slot.  Succeeds iff the
    /// payload is small enough, the slot is empty and the chain order is
    /// preserved.
    pub fn try_inline_version(&mut self, version: Version) -> (r: bool)
        requires
            old(self)@.wf(),
        ensures
            final(self)@.wf(),
            r <==> (version@.data.len() <= MAX_INLINE_SIZE && old(self)@.inline_version is None
                && old(self)@.chain_accepts(version@.wts)),
            r ==> final(self)@ == (RecordHeadView {
                inline_version: Some(version@),
                ..old(self)@
            }),
            !r ==> final(self)@ == old(self)@,
    {
        if version.data.len() > MAX_INLINE_SIZE {
            return false;
        }
        if self.inline_version.is_some() {
            return false;
        }
        if self.version_list.len() > 0 && version.wts < self.version_list[0].wts {
            return false;
        }
        proof {
            assert forall|i: int|
                0 <= i < self@.version_list.len() implies version@.wts
                >= (#[trigger] self@.version_list[i]).wts by {
                assert(self@.version_list[0].wts >= self@.version_list[i].wts);
            }
        }
        self.inline_version = Some(version);
        true
    }

    /// Add a new version, preferring the inline slot and falling back to
    /// the chain head.  The caller supplies a version that keeps the
    /// record newest-first: at least as new as the chain head, and no
    /// newer than an occupied inline slot.
    pub fn add_version(&mut self, version: Version)
        requires
            old(self)@.wf(),
            old(self)@.chain_accepts(version@.wts),
            old(self)@.inline_version matches Some(iv) ==> iv.wts >= version@.wts,
        ensures
            final(self)@.wf(),
            final(self)@ == if version@.data.len() <= MAX_INLINE_SIZE && old(
                self,
            )@.inline_version is None {
                RecordHeadView { inline_version: Some(version@), ..old(self)@ }
            } else {
                RecordHeadView {
                    version_list: seq![version@] + old(self)@.version_list,
                    ..old(self)@
                }
            },
    {
        let ghost pre = self@;
        let dup = version.duplicate();
        if !self.try_inline_version(dup) {
            self.version_list.insert(0, version);
            proof {
                assert(self@.version_list =~= seq![version@] + pre.version_list);
                assert(self@ == (RecordHeadView {
                    version_list: seq![version@] + pre.version_list,
                    ..pre
                }));
            }
        }
    }

    /// Atomically publish `version` into the record, per the inline
    /// fast-path rules.  Fails, leaving the record unchanged, exactly
    /// when the installation would break the record's invariants.
    pub fn install_version(&mut self, version: Version) -> (r: Result<(), MaemioError>)
        requires
            old(self)@.wf(),
        ensures
            final(self)@.wf(),
            r is Ok <==> old(self)@.install_ok(version@),
            r is Ok ==> final(self)@ == old(self)@.installed(version@),
            r is Err ==> final(self)@ == old(self)@,
            r matches Err(e) ==> e is VersionInstallationFailed,
    {
        let ghost pre = self@;
        if version.data.len() <= MAX_INLINE_SIZE {
            let occupied = self.inline_version.is_some();
            if !occupied {
                if self.version_list.len() == 0 || version.wts >= self.version_list[0].wts {
                    self.inline_version = Some(version);
                    return Ok(());
                }
                return Err(MaemioError::VersionInstallationFailed);
            }
            let inline_wts = match &self.inline_version {
                Some(v) => v.wts,
                None => 0,
            };
            if version.wts >= inline_wts {
                let old_inline = self.inline_version.take();
                match old_inline {
                    Some(iv) => {
                        let ghost ivv = iv@;
                        self.version_list.insert(0, iv);
                        self.inline_version = Some(version);
                        proof {
                            assert(self@.version_list =~= seq![ivv] + pre.version_list);
                            assert(self@ == pre.installed(version@));
                        }
                        return Ok(());
                    },
                    None => {
                        return Err(MaemioError::VersionInstallationFailed);
                    },
                }
            }
        }
        // Chain path: large payloads, and small ones older than the
        // occupied inline slot.
        let chain_ok = self.version_list.len() == 0 || version.wts >= self.version_list[0].wts;
        let inline_ok = match &self.inline_version {
            Some(v) => v.wts >= version.wts,
            None => true,
        };
        if chain_ok && inline_ok {
            let ghost vv = version@;
            self.version_list.insert(0, version);
            proof {
                assert(self@.version_list =~= seq![vv] + pre.version_list);
                assert(self@ == pre.installed(vv));
            }
            Ok(())
        } else {
            Err(MaemioError::VersionInstallationFailed)
        }
    }

    /// A copy of the newest version on the overflow chain, if any.
    pub fn get_current_version(&self) -> (r: Option<Version>)
        ensures
            match r {
                Some(v) => self@.version_list.len() > 0 && v@ == self@.version_list[0],
                None => self@.version_list.len() == 0,
            },
    {
        if self.version_list.len() == 0 {
            None
        } else {
            Some(self.version_list[0].duplicate())
        }
    }

    /// The newest version visible to `ts`, searching the inline slot
    /// first and then the chain newest to oldest.  Returns nothing for
    /// timestamps below the record's creation timestamp.
    pub fn find_visible_version(&self, ts: u64) -> (r: Option<Version>)
        ensures
            match r {
                Some(v) => self@.find_visible(ts) == Some(v@),
                None => self@.find_visible(ts) is None,
            },
            ts < self@.creation_timestamp ==> r is None,
    {
        if ts < self.creation_timestamp {
            return None;
        }
        match &self.inline_version {
            Some(v) => {
                if v.is_visible_to(ts) {
                    proof {
                        assert(self@.all_versions()[0] == v@);
                    }
                    return Some(v.duplicate());
                }
                proof {
                    assert(self@.all_versions().drop_first() =~= self@.version_list);
                }
            },
            None => {},
        }
        let ghost chain = self@.version_list;
        proof {
            assert(chain.skip(0) =~= chain);
        }
        let mut i: usize = 0;
        while i < self.version_list.len()
            invariant
                i <= self.version_list@.len(),
                chain == self@.version_list,
                chain.len() == self.version_list@.len(),
                forall|k: int|
                    0 <= k < chain.len() ==> chain[k] == (#[trigger] self.version_list@[k])@,
                self@.find_visible(ts) == first_visible(chain.skip(i as int), ts),
            decreases self.version_list@.len() - i,
        {
            let v = &self.version_list[i];
            if v.is_visible_to(ts) {
                proof {
                    assert(chain.skip(i as int)[0] == v@);
                }
                return Some(v.duplicate());
            }
            proof {
                assert(chain.skip(i as int).drop_first() =~= chain.skip(i as int + 1));
            }
            i = i + 1;
        }
        proof {
            assert(chain.skip(i as int) =~= Seq::<VersionView>::empty());
        }
        None
    }

    /// Non-blocking attempt on the per-record reclamation lock.
    pub fn try_gc_lock(&self) -> (r: bool)
        ensures
            r == !self@.gc_locked,
    {
        !self.gc_locked
    }

    /// Record the garbage-collection watermark for this record.
    pub fn update_min_wts(&mut self, ts: u64)
        ensures
            final(self)@ == (RecordHeadView { min_wts: ts, ..old(self)@ }),
    {
        self.min_wts = ts;
    }
}

/// The process-wide record store, modelled as a map from record id to
/// the record's mathematical view.
pub open spec fn store_view(m: Map<u64, RecordHead>) -> Map<u64, RecordHeadView> {
    Map::new(|k: u64| m.contains_key(k), |k: u64| m[k]@)
}

/// Every record in the store is well-formed.
pub open spec fn store_wf(m: Map<u64, RecordHeadView>) -> bool {
    forall|k: u64| m.contains_key(k) ==> (#[trigger] m[k]).wf()
}

/// What `find_visible_version` returns is the newest committed version
/// at or below the reader's timestamp: the result is visible, and no
/// other version of the record with a write timestamp in `(result.wts,
/// ts]` has committed.
pub proof fn lemma_find_visible_is_newest(r: RecordHeadView, ts: u64)
    requires
        r.wf(),
    ensures
        r.find_visible(ts) matches Some(v) ==> {
            &&& v.visible_to(ts)
            &&& forall|i: int|
                0 <= i < r.all_versions().len() && (#[trigger] r.all_versions()[i]).wts > v.wts
                    && r.all_versions()[i].wts <= ts ==> !(r.all_versions()[i].status
                    is Committed)
        },
{
    if r.find_visible(ts) is Some {
        let s = r.all_versions();
        assert(forall|i: int, j: int|
            0 <= i <= j < s.len() ==> (#[trigger] s[i]).wts >= (#[trigger] s[j]).wts) by {
            match r.inline_version {
                Some(iv) => {
                    assert(forall|k: int|
                        1 <= k < s.len() ==> (#[trigger] s[k]) == r.version_list[k - 1]);
                },
                None => {},
            }
        }
        lemma_first_visible_is_newest(s, ts);
    }
}

/// On a newest-first sequence, the first visible version is the newest
/// visible one: everything committed at or below `ts` and newer than it
/// would have been found earlier.
proof fn lemma_first_visible_is_newest(s: Seq<VersionView>, ts: u64)
    requires
        forall|i: int, j: int|
            0 <= i <= j < s.len() ==> (#[trigger] s[i]).wts >= (#[trigger] s[j]).wts,
    ensures
        first_visible(s, ts) matches Some(v) ==> {
            &&& v.visible_to(ts)
            &&& forall|i: int|
                0 <= i < s.len() && (#[trigger] s[i]).wts > v.wts && s[i].wts <= ts ==> !(
                s[i].status is Committed)
        },
    decreases s.len(),
{
    if s.len() > 0 && !s[0].visible_to(ts) {
        lemma_first_visible_is_newest(s.drop_first(), ts);
        match first_visible(s, ts) {
            Some(v) => {
                assert(first_visible(s.drop_first(), ts) == Some(v));
                assert forall|i: int|
                    0 <= i < s.len() && (#[trigger] s[i]).wts > v.wts && s[i].wts <= ts implies !(
                s[i].status is Committed) by {
                    if i == 0 {
                        assert(!s[0].visible_to(ts));
                    } else {
                        assert(s.drop_first()[i - 1] == s[i]);
                    }
                }
            },
            None => {},
        }
    }
}

/// A payload larger than the inline threshold always lands on the
/// chain, never in the inline slot.
pub proof fn lemma_large_payload_lands_in_chain(r: RecordHeadView, v: VersionView)
    requires
        r.wf(),
        v.data.len() > MAX_INLINE_SIZE,
        r.install_ok(v),
    ensures
        r.installed(v).inline_version == r.inline_version,
        r.installed(v).version_list == seq![v] + r.version_list,
{
}

/// After a successful installation of a committed version at timestamp
/// `v.wts`, looking the record up at that timestamp finds a committed
/// version carrying exactly that write timestamp.
pub proof fn lemma_installed_version_visible(r: RecordHeadView, v: VersionView)
    requires
        r.wf(),
        r.install_ok(v),
        v.status is Committed,
        r.creation_timestamp <= v.wts,
    ensures
        r.installed(v).find_visible(v.wts) matches Some(w) && w.wts == v.wts && w.status
            is Committed,
{
    let post = r.installed(v);
    let s = post.all_versions();
    if v.data.len() <= MAX_INLINE_SIZE {
        match r.inline_version {
            None => {
                assert(s[0] == v);
                assert(first_visible(s, v.wts) == Some(v));
            },
            Some(iv) => {
                if v.wts >= iv.wts {
                    assert(s[0] == v);
                    assert(first_visible(s, v.wts) == Some(v));
                } else {
                    assert(s[0] == iv);
                    if iv.visible_to(v.wts) {
                        assert(iv.wts == v.wts);
                        assert(first_visible(s, v.wts) == Some(iv));
                    } else {
                        assert(s.drop_first() =~= post.version_list);
                        assert(s.drop_first()[0] == v);
                        assert(first_visible(s.drop_first(), v.wts) == Some(v));
                        assert(first_visible(s, v.wts) == Some(v));
                    }
                }
            },
        }
    } else {
        match r.inline_version {
            Some(iv) => {
                assert(s[0] == iv);
                if iv.visible_to(v.wts) {
                    assert(iv.wts == v.wts);
                    assert(first_visible(s, v.wts) == Some(iv));
                } else {
                    assert(s.drop_first() =~= post.version_list);
                    assert(s.drop_first()[0] == v);
                    assert(first_visible(s.drop_first(), v.wts) == Some(v));
                    assert(first_visible(s, v.wts) == Some(v));
                }
            },
            None => {
                assert(s[0] == v);
                assert(first_visible(s, v.wts) == Some(v));
            },
        }
    }
    assert(!(v.wts < post.creation_timestamp));
}

/// Pushing a version onto the head of a newest-first chain keeps it
/// newest first, provided the version is at least as new as the head.
pub proof fn lemma_push_front_sorted(list: Seq<VersionView>, v: VersionView)
    requires
        newest_first(list),
        list.len() == 0 || v.wts >= list[0].wts,
    ensures
        newest_first(seq![v] + list),
{
    let s = seq![v] + list;
    assert forall|i: int, j: int|
        0 <= i <= j < s.len() implies (#[trigger] s[i]).wts >= (#[trigger] s[j]).wts by {
        if i == 0 && j > 0 {
            assert(s[j] == list[j - 1]);
            assert(list[0].wts >= list[j - 1].wts);
        } else if i > 0 {
            assert(s[i] == list[i - 1]);
            assert(s[j] == list[j - 1]);
        }
    }
}

/// A successful installation preserves the record's invariants.
pub proof fn lemma_installed_wf(r: RecordHeadView, v: VersionView)
    requires
        r.wf(),
        r.install_ok(v),
    ensures
        r.installed(v).wf(),
{
    let post = r.installed(v);
    if v.data.len() <= MAX_INLINE_SIZE {
        match r.inline_version {
            None => {
                assert forall|i: int|
                    0 <= i < post.version_list.len() implies v.wts
                    >= (#[trigger] post.version_list[i]).wts by {
                    assert(r.version_list[0].wts >= r.version_list[i].wts);
                }
            },
            Some(iv) => {
                if v.wts >= iv.wts {
                    lemma_push_front_sorted(r.version_list, iv);
                    assert forall|i: int|
                        0 <= i < post.version_list.len() implies v.wts
                        >= (#[trigger] post.version_list[i]).wts by {
                        if i > 0 {
                            assert(post.version_list[i] == r.version_list[i - 1]);
                        }
                    }
                } else {
                    lemma_push_front_sorted(r.version_list, v);
                    assert forall|i: int|
                        0 <= i < post.version_list.len() implies iv.wts
                        >= (#[trigger] post.version_list[i]).wts by {
                        if i > 0 {
                            assert(post.version_list[i] == r.version_list[i - 1]);
                        }
                    }
                }
            },
        }
    } else {
        lemma_push_front_sorted(r.version_list, v);
        match r.inline_version {
            Some(iv) => {
                assert forall|i: int|
                    0 <= i < post.version_list.len() implies iv.wts
                    >= (#[trigger] post.version_list[i]).wts by {
                    if i > 0 {
                        assert(post.version_list[i] == r.version_list[i - 1]);
                    }
                }
            },
            None => {},
        }
    }
}

} // verus!
