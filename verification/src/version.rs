use vstd::prelude::*;

verus! {

/// Lifecycle of a version.  A version is created `Pending` by a writer,
/// flips to `Committed` or `Aborted` at commit time, and may later be
/// removed from its record by the garbage collector.
#[derive(Debug, Clone, Copy, PartialEq, Eq, Structural)]
pub enum VersionStatus {
    Unused,
    Pending,
    Committed,
    Aborted,
    Deleted,
}

/// One write of a record: the writer's timestamp, the highest reader
/// timestamp observed so far, the lifecycle status and the payload.
#[derive(Debug)]
pub struct Version {
    pub wts: u64,
    pub rts: u64,
    pub status: VersionStatus,
    pub data: Vec<u8>,
}

/// Mathematical model of a `Version`: the payload as a sequence of bytes.
pub struct VersionView {
    pub wts: u64,
    pub rts: u64,
    pub status: VersionStatus,
    pub data: Seq<u8>,
}

impl View for Version {
    type V = VersionView;

    open spec fn view(&self) -> VersionView {
        VersionView { wts: self.wts, rts: self.rts, status: self.status, data: self.data@ }
    }
}

impl VersionView {
    /// A version is visible to timestamp `ts` iff it was written at or
    /// before `ts` and has committed.
    pub open spec fn visible_to(self, ts: u64) -> bool {
        self.wts <= ts && self.status is Committed
    }
}

impl Version {
    /// A fresh pending version stamped with the writer's timestamp.
    pub fn new(wts: u64, data: Vec<u8>) -> (r: Version)
        ensures
            r@ == (VersionView {
                wts,
                rts: 0,
                status: VersionStatus::Pending,
                data: data@,
            }),
    {
        Version { wts, rts: 0, status: VersionStatus::Pending, data }
    }

    /// An identical copy of this version.
    pub fn duplicate(&self) -> (r: Version)
        ensures
            r@ == self@,
    {
        let data = clone_bytes(&self.data);
        Version { wts: self.wts, rts: self.rts, status: self.status, data }
    }

    /// Whether this version is visible to a reader at timestamp `ts`.
    pub fn is_visible_to(&self, ts: u64) -> (r: bool)
        ensures
            r == self@.visible_to(ts),
    {
        self.wts <= ts && self.status == VersionStatus::Committed
    }

    /// Mark this version committed.
    pub fn commit(&mut self)
        ensures
            final(self)@ == (VersionView { status: VersionStatus::Committed, ..old(self)@ }),
    {
        self.status = VersionStatus::Committed;
    }

    /// Mark this version aborted.
    pub fn abort(&mut self)
        ensures
            final(self)@ == (VersionView { status: VersionStatus::Aborted, ..old(self)@ }),
    {
        self.status = VersionStatus::Aborted;
    }

    /// In the concurrent engine a reader spins while the writer is still
    /// pending; in this model the status cannot change while waiting, so
    /// the wait concludes at once.  Returns whether the version ended up
    /// committed.
    pub fn wait_pending(&self) -> (r: bool)
        ensures
            r == (self@.status is Committed),
    {
        self.status == VersionStatus::Committed
    }

    /// Monotonic maximum on the read timestamp: record `ts` iff it is
    /// greater than the current value.
    pub fn update_rts(&mut self, ts: u64)
        ensures
            final(self)@ == (VersionView {
                rts: if ts > old(self).rts { ts } else { old(self).rts },
                ..old(self)@
            }),
    {
        if ts > self.rts {
            self.rts = ts;
        }
    }
}

/// An identical copy of a byte vector.
pub fn clone_bytes(data: &Vec<u8>) -> (r: Vec<u8>)
    ensures
        r@ == data@,
{
    let mut out: Vec<u8> = Vec::new();
    let mut i: usize = 0;
    while i < data.len()
        invariant
            i <= data.len(),
            out@ == data@.subrange(0, i as int),
        decreases data.len() - i,
    {
        out.push(data[i]);
        i = i + 1;
        proof {
            assert(out@ =~= data@.subrange(0, i as int));
        }
    }
    proof {
        assert(out@ =~= data@);
    }
    out
}

} // verus!
