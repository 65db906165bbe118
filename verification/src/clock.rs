use vstd::prelude::*;

use crate::error::MaemioError;

verus! {

/// Largest value of the 56-bit logical counter.  A timestamp encodes
/// `(logical << 8) | thread_id`, so the logical part must stay below
/// 2^56 for the encoding to be injective.
pub const MAX_LOGICAL_CLOCK: u64 = 0x00FF_FFFF_FFFF_FFFF;

/// Largest encodable timestamp: `MAX_LOGICAL_CLOCK * 256 + 254`.
pub const MAX_TIMESTAMP: u64 = 0xFFFF_FFFF_FFFF_FFFE;

/// Per-thread logical clock.  Successive write timestamps from the same
/// clock are strictly increasing (until the 56-bit logical counter
/// saturates), and every timestamp carries the thread id in its low
/// eight bits.
#[derive(Debug, Clone, Copy)]
pub struct Clock {
    pub local_clock: u64,
    pub clock_boost: u64,
    pub thread_id: u8,
    pub last_timestamp: u64,
    pub read_timestamp: u64,
}

/// The local counter after advancing by `tick`, saturating at the
/// largest logical value.
pub open spec fn advanced_local_clock(c: Clock, tick: u64) -> u64 {
    if c.local_clock + tick <= MAX_LOGICAL_CLOCK {
        (c.local_clock + tick) as u64
    } else {
        MAX_LOGICAL_CLOCK
    }
}

/// The logical value the next timestamp is built from: the boosted local
/// counter or one past the last emitted timestamp, whichever is larger,
/// clipped to the 56-bit logical range.
pub open spec fn next_logical(c: Clock, tick: u64) -> u64 {
    let lc = advanced_local_clock(c, tick) as int;
    let cand = if lc + c.clock_boost >= c.last_timestamp + 1 {
        lc + c.clock_boost
    } else {
        c.last_timestamp + 1
    };
    if cand <= MAX_LOGICAL_CLOCK {
        cand as u64
    } else {
        MAX_LOGICAL_CLOCK
    }
}

/// The timestamp emitted by clock `c` when advanced by `tick`:
/// `(next_logical << 8) | thread_id`, written arithmetically.
pub open spec fn next_timestamp(c: Clock, tick: u64) -> u64 {
    (next_logical(c, tick) * 256 + c.thread_id) as u64
}

impl Clock {
    /// Well-formedness: the thread id is a valid tag and every counter
    /// stays within the range the timestamp encoding can carry.
    pub open spec fn wf(self) -> bool {
        &&& self.thread_id < 255
        &&& self.local_clock <= MAX_LOGICAL_CLOCK
        &&& self.clock_boost <= MAX_LOGICAL_CLOCK
        &&& self.last_timestamp <= MAX_TIMESTAMP
    }

    /// A fresh clock for worker `thread_id`.  Fails iff the id is the
    /// reserved value 255 (or larger).
    pub fn new(thread_id: u8) -> (r: Result<Clock, MaemioError>)
        ensures
            r is Ok <==> thread_id < 255,
            r matches Ok(c) ==> c == (Clock {
                local_clock: 0,
                clock_boost: 0,
                thread_id,
                last_timestamp: 0,
                read_timestamp: 0,
            }),
            r matches Ok(c) ==> c.wf(),
            r matches Err(e) ==> e is System,
    {
        if thread_id >= 255 {
            return Err(MaemioError::System("Thread ID must be less than 255".to_owned()));
        }
        Ok(Clock {
            local_clock: 0,
            clock_boost: 0,
            thread_id,
            last_timestamp: 0,
            read_timestamp: 0,
        })
    }

    /// Advance the local counter by `tick` and emit the next write
    /// timestamp.  The result is strictly larger than the previously
    /// emitted timestamp as long as the logical counter has room, and it
    /// always carries the thread id in its low eight bits.
    pub fn generate_write_timestamp_with_tick(&mut self, tick: u64) -> (ts: u64)
        requires
            old(self).wf(),
        ensures
            final(self).wf(),
            ts == next_timestamp(*old(self), tick),
            final(self).local_clock == advanced_local_clock(*old(self), tick),
            final(self).last_timestamp == ts,
            final(self).thread_id == old(self).thread_id,
            final(self).clock_boost == old(self).clock_boost,
            final(self).read_timestamp == old(self).read_timestamp,
            ts % 256 == old(self).thread_id,
            old(self).last_timestamp < MAX_LOGICAL_CLOCK ==> ts > old(self).last_timestamp,
            old(self).last_timestamp <= 0xFFFF_FFFF_FFFF_FF00u64 ==> ts >= old(
                self,
            ).last_timestamp,
    {
        let lc = if tick <= MAX_LOGICAL_CLOCK - self.local_clock {
            self.local_clock + tick
        } else {
            MAX_LOGICAL_CLOCK
        };
        self.local_clock = lc;

        let boosted = lc + self.clock_boost;
        let bumped = self.last_timestamp + 1;
        let cand = if boosted >= bumped { boosted } else { bumped };
        let clipped = if cand <= MAX_LOGICAL_CLOCK { cand } else { MAX_LOGICAL_CLOCK };

        let ts = clipped * 256 + (self.thread_id as u64);
        proof {
            let tid = old(self).thread_id;
            let last = old(self).last_timestamp;
            assert(ts % 256 == tid) by (nonlinear_arith)
                requires
                    ts == clipped * 256 + tid,
                    tid < 255,
            ;
            if last < MAX_LOGICAL_CLOCK {
                assert(clipped >= last + 1);
                assert(ts > last) by (nonlinear_arith)
                    requires
                        ts == clipped * 256 + tid,
                        clipped >= last + 1,
                ;
            }
            if MAX_LOGICAL_CLOCK <= last <= 0xFFFF_FFFF_FFFF_FF00u64 {
                assert(clipped == MAX_LOGICAL_CLOCK);
                assert(ts >= last) by (nonlinear_arith)
                    requires
                        ts == clipped * 256 + tid,
                        clipped == MAX_LOGICAL_CLOCK,
                        last <= 0xFFFF_FFFF_FFFF_FF00u64,
                ;
            }
        }
        self.last_timestamp = ts;
        ts
    }

    /// Emit the next write timestamp, advancing the local counter by the
    /// elapsed micro-tick read from the machine clock.  Whatever the tick,
    /// the result is strictly larger than the previously emitted timestamp
    /// while the logical counter has room, and its low eight bits are the
    /// thread id.
    pub fn generate_write_timestamp(&mut self) -> (ts: u64)
        requires
            old(self).wf(),
        ensures
            final(self).wf(),
            exists|tick: u64|
                {
                    &&& ts == #[trigger] next_timestamp(*old(self), tick)
                    &&& final(self).local_clock == advanced_local_clock(*old(self), tick)
                },
            final(self).last_timestamp == ts,
            final(self).thread_id == old(self).thread_id,
            final(self).clock_boost == old(self).clock_boost,
            final(self).read_timestamp == old(self).read_timestamp,
            final(self).local_clock >= old(self).local_clock,
            ts % 256 == old(self).thread_id,
            old(self).last_timestamp < MAX_LOGICAL_CLOCK ==> ts > old(self).last_timestamp,
            old(self).last_timestamp <= 0xFFFF_FFFF_FFFF_FF00u64 ==> ts >= old(
                self,
            ).last_timestamp,
    {
        let tick = elapsed_micro_tick();
        let ts = self.generate_write_timestamp_with_tick(tick);
        proof {
            assert(ts == next_timestamp(*old(self), tick));
        }
        ts
    }

    /// Derive a read timestamp from the global minimum write watermark:
    /// `max(0, min_write_ts - 1)`, so that a reader never observes an
    /// in-flight writer at the watermark boundary.
    pub fn generate_read_timestamp(&mut self, min_write_ts: u64) -> (ts: u64)
        ensures
            ts == if min_write_ts > 0 { (min_write_ts - 1) as u64 } else { 0u64 },
            *final(self) == (Clock { read_timestamp: ts, ..*old(self) }),
    {
        let read_ts = if min_write_ts > 0 { min_write_ts - 1 } else { 0 };
        self.read_timestamp = read_ts;
        read_ts
    }

    /// Lift this clock's local counter to the other's if the other is
    /// ahead.  Pairwise and non-symmetric.
    pub fn synchronize_with(&mut self, other: &Clock)
        ensures
            final(self).local_clock == if other.local_clock > old(self).local_clock {
                other.local_clock
            } else {
                old(self).local_clock
            },
            *final(self) == (Clock { local_clock: final(self).local_clock, ..*old(self) }),
            old(self).wf() && other.wf() ==> final(self).wf(),
    {
        if other.local_clock > self.local_clock {
            self.local_clock = other.local_clock;
        }
    }

    /// Transiently inflate the next generated timestamp; used by aborted
    /// transactions to bias retries past the conflicting writer.
    pub fn apply_boost(&mut self, boost_amount: u64)
        requires
            boost_amount <= MAX_LOGICAL_CLOCK,
        ensures
            *final(self) == (Clock { clock_boost: boost_amount, ..*old(self) }),
    {
        self.clock_boost = boost_amount;
    }

    /// Clear the boost after a successful commit.
    pub fn reset_boost(&mut self)
        ensures
            *final(self) == (Clock { clock_boost: 0, ..*old(self) }),
    {
        self.clock_boost = 0;
    }
}

/// Strict monotonicity of write timestamps: from any well-formed clock,
/// two successive timestamp generations return strictly increasing
/// values, whatever the micro-ticks were, as long as the first
/// generation's logical value has not saturated the 56-bit counter.
pub proof fn lemma_write_timestamps_strictly_increase(c: Clock, tick1: u64, tick2: u64)
    requires
        c.wf(),
        next_logical(c, tick1) < MAX_LOGICAL_CLOCK,
    ensures
        ({
            let ts1 = next_timestamp(c, tick1);
            let c1 = Clock {
                local_clock: advanced_local_clock(c, tick1),
                last_timestamp: ts1,
                ..c
            };
            next_timestamp(c1, tick2) > ts1
        }),
{
    let ts1 = next_timestamp(c, tick1);
    let c1 = Clock { local_clock: advanced_local_clock(c, tick1), last_timestamp: ts1, ..c };
    let l1 = next_logical(c, tick1);
    let l2 = next_logical(c1, tick2);
    assert(ts1 == l1 * 256 + c.thread_id);
    assert(ts1 < MAX_TIMESTAMP) by (nonlinear_arith)
        requires
            ts1 == l1 * 256 + c.thread_id,
            l1 < MAX_LOGICAL_CLOCK,
            c.thread_id < 255,
    ;
    if ts1 < MAX_LOGICAL_CLOCK {
        assert(l2 >= ts1 + 1);
        assert(l2 * 256 + c.thread_id > ts1) by (nonlinear_arith)
            requires
                l2 >= ts1 + 1,
        ;
    } else {
        assert(l2 == MAX_LOGICAL_CLOCK);
        assert(l2 * 256 + c.thread_id > l1 * 256 + c.thread_id) by (nonlinear_arith)
            requires
                l2 > l1,
        ;
    }
}

/// The low eight bits of every emitted timestamp are the generating
/// thread's id.
pub proof fn lemma_timestamp_tags_thread(c: Clock, tick: u64)
    requires
        c.wf(),
    ensures
        next_timestamp(c, tick) % 256 == c.thread_id,
{
    let l = next_logical(c, tick);
    assert((l * 256 + c.thread_id) % 256 == c.thread_id) by (nonlinear_arith)
        requires
            c.thread_id < 255,
    ;
    assert(l * 256 + c.thread_id <= MAX_LOGICAL_CLOCK * 256 + 254) by (nonlinear_arith)
        requires
            l <= MAX_LOGICAL_CLOCK,
            c.thread_id < 255,
    ;
}

/// Relies on `std::time::Instant`: the machine's monotonic clock, read
/// as elapsed microseconds and truncated to 64 bits.  The result depends
/// on the machine and the moment, so nothing is promised of it.
#[verifier::external_body]
fn elapsed_micro_tick() -> u64 {
    std::time::Instant::now().elapsed().as_micros() as u64
}

/// The smaller of two timestamps.
pub open spec fn min_u64(a: u64, b: u64) -> u64 {
    if a <= b {
        a
    } else {
        b
    }
}

/// Minimum of `last_timestamp` over the first `n` clocks, starting from
/// the identity of minimum.
pub open spec fn min_last_timestamp_prefix(s: Seq<Clock>, n: int) -> u64
    decreases n,
{
    if n <= 0 {
        0xFFFF_FFFF_FFFF_FFFFu64
    } else {
        min_u64(min_last_timestamp_prefix(s, n - 1), s[n - 1].last_timestamp)
    }
}

/// The global minimum write watermark over a set of clocks; 0 when there
/// are no clocks.
pub open spec fn min_last_timestamp(s: Seq<Clock>) -> u64 {
    if s.len() == 0 {
        0u64
    } else {
        min_last_timestamp_prefix(s, s.len() as int)
    }
}

/// Minimum of `read_timestamp` over the first `n` clocks.
pub open spec fn min_read_timestamp_prefix(s: Seq<Clock>, n: int) -> u64
    decreases n,
{
    if n <= 0 {
        0xFFFF_FFFF_FFFF_FFFFu64
    } else {
        min_u64(min_read_timestamp_prefix(s, n - 1), s[n - 1].read_timestamp)
    }
}

/// The global minimum read watermark over a set of clocks; 0 when there
/// are no clocks.
pub open spec fn min_read_timestamp(s: Seq<Clock>) -> u64 {
    if s.len() == 0 {
        0u64
    } else {
        min_read_timestamp_prefix(s, s.len() as int)
    }
}

/// The left clock lifted to the right one's local counter, if the right
/// one is ahead.
pub open spec fn sync_one(a: Clock, b: Clock) -> Clock {
    Clock {
        local_clock: if b.local_clock > a.local_clock {
            b.local_clock
        } else {
            a.local_clock
        },
        ..a
    }
}

/// The clocks after the first `i` of them have each synchronized with
/// their right neighbour (in ring order, in increasing index order).
pub open spec fn synced_prefix(orig: Seq<Clock>, i: int) -> Seq<Clock>
    decreases i,
{
    if i <= 0 {
        orig
    } else {
        let prev = synced_prefix(orig, i - 1);
        prev.update(i - 1, sync_one(prev[i - 1], prev[i % orig.len() as int]))
    }
}

/// Owner of the per-thread clocks and of the global minimum read/write
/// watermarks.
#[derive(Debug)]
pub struct ClockManager {
    pub clocks: Vec<Clock>,
    pub min_write_ts: u64,
    pub min_read_ts: u64,
    /// Pairwise synchronization period, in microseconds.
    pub sync_interval: u64,
}

impl ClockManager {
    /// Well-formedness: every clock is well-formed and tagged with its
    /// own index.
    pub open spec fn wf(self) -> bool {
        &&& self.clocks@.len() <= 255
        &&& forall|i: int|
            0 <= i < self.clocks@.len() ==> (#[trigger] self.clocks@[i]).wf()
                && self.clocks@[i].thread_id == i
    }

    /// One fresh clock per worker thread.  Fails iff `thread_count`
    /// exceeds the number of representable thread ids.
    pub fn new(thread_count: usize, sync_interval_micros: u64) -> (r: Result<
        ClockManager,
        MaemioError,
    >)
        ensures
            r is Ok <==> thread_count <= 255,
            r matches Ok(m) ==> {
                &&& m.wf()
                &&& m.clocks@.len() == thread_count
                &&& forall|i: int|
                    0 <= i < thread_count ==> #[trigger] m.clocks@[i] == (Clock {
                        local_clock: 0,
                        clock_boost: 0,
                        thread_id: i as u8,
                        last_timestamp: 0,
                        read_timestamp: 0,
                    })
                &&& m.min_write_ts == 0
                &&& m.min_read_ts == 0
                &&& m.sync_interval == sync_interval_micros
            },
            r matches Err(e) ==> e is System,
    {
        let mut clocks: Vec<Clock> = Vec::new();
        let mut id: usize = 0;
        while id < thread_count
            invariant
                id <= thread_count,
                id <= 255,
                clocks@.len() == id,
                forall|i: int|
                    0 <= i < id ==> #[trigger] clocks@[i] == (Clock {
                        local_clock: 0,
                        clock_boost: 0,
                        thread_id: i as u8,
                        last_timestamp: 0,
                        read_timestamp: 0,
                    }),
            decreases thread_count - id,
        {
            match Clock::new(id as u8) {
                Ok(c) => clocks.push(c),
                Err(e) => {
                    return Err(e);
                },
            }
            id = id + 1;
        }
        Ok(ClockManager { clocks, min_write_ts: 0, min_read_ts: 0, sync_interval: sync_interval_micros })
    }

    /// Read access to the clock of worker `thread_id`.
    pub fn get_clock(&self, thread_id: usize) -> (r: &Clock)
        requires
            thread_id < self.clocks@.len(),
        ensures
            *r == self.clocks@[thread_id as int],
    {
        &self.clocks[thread_id]
    }

    /// Emit the next write timestamp of worker `thread_id`'s clock,
    /// storing the advanced clock back.
    pub fn generate_write_timestamp(&mut self, thread_id: usize) -> (ts: u64)
        requires
            old(self).wf(),
            thread_id < old(self).clocks@.len(),
        ensures
            final(self).wf(),
            exists|tick: u64|
                {
                    &&& ts == #[trigger] next_timestamp(
                        old(self).clocks@[thread_id as int],
                        tick,
                    )
                    &&& final(self).clocks@ == old(self).clocks@.update(
                        thread_id as int,
                        Clock {
                            local_clock: advanced_local_clock(
                                old(self).clocks@[thread_id as int],
                                tick,
                            ),
                            last_timestamp: ts,
                            ..old(self).clocks@[thread_id as int]
                        },
                    )
                },
            final(self).clocks@[thread_id as int].last_timestamp == ts,
            ts % 256 == old(self).clocks@[thread_id as int].thread_id,
            old(self).clocks@[thread_id as int].last_timestamp < MAX_LOGICAL_CLOCK ==> ts > old(
                self,
            ).clocks@[thread_id as int].last_timestamp,
            old(self).clocks@[thread_id as int].last_timestamp <= 0xFFFF_FFFF_FFFF_FF00u64
                ==> ts >= old(self).clocks@[thread_id as int].last_timestamp,
            final(self).min_write_ts == old(self).min_write_ts,
            final(self).min_read_ts == old(self).min_read_ts,
            final(self).sync_interval == old(self).sync_interval,
    {
        let mut c = self.clocks[thread_id];
        let ts = c.generate_write_timestamp();
        self.clocks[thread_id] = c;
        ts
    }

    /// One pairwise synchronization round: each clock, in index order,
    /// lifts its local counter to its right neighbour's (ring order).
    pub fn synchronize_all(&mut self)
        requires
            old(self).wf(),
        ensures
            final(self).wf(),
            final(self).clocks@ == synced_prefix(old(self).clocks@, old(self).clocks@.len() as int),
            final(self).min_write_ts == old(self).min_write_ts,
            final(self).min_read_ts == old(self).min_read_ts,
            final(self).sync_interval == old(self).sync_interval,
    {
        let n = self.clocks.len();
        if n == 0 {
            return ;
        }
        let mut i: usize = 0;
        while i < n
            invariant
                old(self).wf(),
                n == old(self).clocks@.len(),
                0 < n,
                i <= n,
                self.clocks@ == synced_prefix(old(self).clocks@, i as int),
                self.clocks@.len() == n,
                forall|j: int| 0 <= j < n ==> (#[trigger] self.clocks@[j]).wf(),
                forall|j: int|
                    0 <= j < n ==> (#[trigger] self.clocks@[j]).thread_id == j,
                self.min_write_ts == old(self).min_write_ts,
                self.min_read_ts == old(self).min_read_ts,
                self.sync_interval == old(self).sync_interval,
            decreases n - i,
        {
            let next_idx = if i + 1 < n {
                i + 1
            } else {
                0
            };
            let other = self.clocks[next_idx];
            let mut c = self.clocks[i];
            c.synchronize_with(&other);
            self.clocks[i] = c;
            proof {
                if i + 1 < n {
                    vstd::arithmetic::div_mod::lemma_small_mod((i + 1) as nat, n as nat);
                } else {
                    assert((i + 1) as int % (n as int) == 0) by (nonlinear_arith)
                        requires
                            i + 1 == n,
                            0 < n,
                    ;
                }
                assert(next_idx as int == ((i + 1) as int) % (old(self).clocks@.len() as int));
                assert(self.clocks@ =~= synced_prefix(old(self).clocks@, i as int + 1));
            }
            i = i + 1;
        }
    }

    /// Recompute both global watermarks from the clocks' last emitted
    /// write timestamps and last read timestamps.
    pub fn update_min_timestamps(&mut self)
        ensures
            final(self).min_write_ts == min_last_timestamp(old(self).clocks@),
            final(self).min_read_ts == min_read_timestamp(old(self).clocks@),
            final(self).clocks@ == old(self).clocks@,
            final(self).sync_interval == old(self).sync_interval,
            old(self).wf() ==> final(self).wf(),
    {
        let n = self.clocks.len();
        if n == 0 {
            self.min_write_ts = 0;
            self.min_read_ts = 0;
            return ;
        }
        let mut min_wts: u64 = 0xFFFF_FFFF_FFFF_FFFF;
        let mut min_rts: u64 = 0xFFFF_FFFF_FFFF_FFFF;
        let mut i: usize = 0;
        while i < n
            invariant
                n == self.clocks@.len(),
                i <= n,
                self == old(self),
                min_wts == min_last_timestamp_prefix(self.clocks@, i as int),
                min_rts == min_read_timestamp_prefix(self.clocks@, i as int),
            decreases n - i,
        {
            let c = self.clocks[i];
            if c.last_timestamp < min_wts {
                min_wts = c.last_timestamp;
            }
            if c.read_timestamp < min_rts {
                min_rts = c.read_timestamp;
            }
            i = i + 1;
        }
        self.min_write_ts = min_wts;
        self.min_read_ts = min_rts;
    }

    /// The most recently computed global minimum write timestamp.
    pub fn get_min_write_ts(&self) -> (r: u64)
        ensures
            r == self.min_write_ts,
    {
        self.min_write_ts
    }

    /// The most recently computed global minimum read timestamp.
    pub fn get_min_read_ts(&self) -> (r: u64)
        ensures
            r == self.min_read_ts,
    {
        self.min_read_ts
    }
}

} // verus!
