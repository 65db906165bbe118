use vstd::prelude::*;

use rand::RngExt;

verus! {

/// Hill-climbing period, in microseconds.
pub const DEFAULT_HILL_CLIMB_INTERVAL: u64 = 5000;

/// Size of one hill-climbing step, in microseconds.
pub const DEFAULT_BACKOFF_STEP: u64 = 5;

/// Default ceiling for the randomized backoff, in microseconds.
pub const DEFAULT_MAX_BACKOFF_TIME: u64 = 100;

/// Per-thread commit counters: the cumulative count and the snapshot
/// taken at the last throughput sample.
#[derive(Debug, Clone, Copy)]
pub struct ThreadStats {
    pub commit_count: u64,
    pub last_commit_count: u64,
}

impl ThreadStats {
    /// Fresh counters.
    pub fn new() -> (r: ThreadStats)
        ensures
            r == (ThreadStats { commit_count: 0, last_commit_count: 0 }),
    {
        ThreadStats { commit_count: 0, last_commit_count: 0 }
    }
}

/// Mathematical sum of the commits gathered since the last sample, over
/// the first `n` threads.
pub open spec fn throughput_prefix(s: Seq<ThreadStats>, n: int) -> int
    decreases n,
{
    if n <= 0 {
        0
    } else {
        throughput_prefix(s, n - 1) + s[n - 1].commit_count - s[n - 1].last_commit_count
    }
}

/// The throughput a sampling pass observes: the total commits since the
/// last pass, saturated to 64 bits.
pub open spec fn observed_throughput(s: Seq<ThreadStats>) -> u64 {
    let total = throughput_prefix(s, s.len() as int);
    if total <= u64::MAX {
        total as u64
    } else {
        u64::MAX
    }
}

/// The counters after a sampling pass: every snapshot caught up to its
/// cumulative count.
pub open spec fn drained_stats(s: Seq<ThreadStats>) -> Seq<ThreadStats> {
    s.map_values(
        |t: ThreadStats| ThreadStats { commit_count: t.commit_count, last_commit_count: t.commit_count },
    )
}

/// The sign of the throughput gradient with respect to the backoff
/// change: positive when both moved the same way, or when the backoff
/// did not move at all.
pub open spec fn gradient_positive(
    last_throughput: u64,
    current_throughput: u64,
    last_backoff: u64,
    current_backoff: u64,
) -> bool {
    if current_backoff == last_backoff {
        true
    } else if current_backoff > last_backoff {
        current_throughput >= last_throughput
    } else {
        current_throughput <= last_throughput
    }
}

/// The backoff ceiling moved one step in the chosen direction, with
/// saturating arithmetic.
pub open spec fn stepped_backoff(current: u64, step: u64, positive: bool) -> u64 {
    if positive {
        if current + step <= u64::MAX {
            (current + step) as u64
        } else {
            u64::MAX
        }
    } else {
        if current >= step {
            (current - step) as u64
        } else {
            0u64
        }
    }
}

/// Adaptive contention control: per-thread commit counters feed a
/// throughput sample, and a hill-climbing step adjusts the ceiling of
/// the randomized backoff applied after aborted attempts.
#[derive(Debug)]
pub struct ContentionManager {
    pub thread_stats: Vec<ThreadStats>,
    pub max_backoff_time: u64,
    pub last_throughput: u64,
    pub last_backoff: u64,
    pub positive_gradient: bool,
    /// Hill-climbing period, in microseconds.
    pub hill_climb_interval: u64,
    pub backoff_step: u64,
}

impl ContentionManager {
    /// Well-formedness: no snapshot is ahead of its cumulative counter.
    pub open spec fn wf(self) -> bool {
        forall|i: int|
            0 <= i < self.thread_stats@.len() ==> (#[trigger] self.thread_stats@[i]).last_commit_count
                <= self.thread_stats@[i].commit_count
    }

    /// A manager for `thread_count` worker threads, with no backoff yet.
    pub fn new(thread_count: usize, hill_climb_interval_micros: u64, backoff_step: u64) -> (r:
        ContentionManager)
        ensures
            r.wf(),
            r.thread_stats@.len() == thread_count,
            forall|i: int|
                0 <= i < thread_count ==> #[trigger] r.thread_stats@[i] == (ThreadStats {
                    commit_count: 0,
                    last_commit_count: 0,
                }),
            r.max_backoff_time == 0,
            r.last_throughput == 0,
            r.last_backoff == 0,
            r.positive_gradient == true,
            r.hill_climb_interval == hill_climb_interval_micros,
            r.backoff_step == backoff_step,
    {
        let mut stats: Vec<ThreadStats> = Vec::new();
        let mut i: usize = 0;
        while i < thread_count
            invariant
                i <= thread_count,
                stats@.len() == i,
                forall|j: int|
                    0 <= j < i ==> #[trigger] stats@[j] == (ThreadStats {
                        commit_count: 0,
                        last_commit_count: 0,
                    }),
            decreases thread_count - i,
        {
            stats.push(ThreadStats::new());
            i = i + 1;
        }
        ContentionManager {
            thread_stats: stats,
            max_backoff_time: 0,
            last_throughput: 0,
            last_backoff: 0,
            positive_gradient: true,
            hill_climb_interval: hill_climb_interval_micros,
            backoff_step,
        }
    }

    /// Record a successful commit for `thread_id`; ids out of range are
    /// ignored.
    pub fn record_commit(&mut self, thread_id: usize)
        requires
            old(self).wf(),
        ensures
            final(self).wf(),
            thread_id < old(self).thread_stats@.len() ==> final(self).thread_stats@ == old(
                self,
            ).thread_stats@.update(
                thread_id as int,
                ThreadStats {
                    commit_count: old(self).thread_stats@[thread_id as int].commit_count.saturating_add(1),
                    last_commit_count: old(self).thread_stats@[thread_id as int].last_commit_count,
                },
            ),
            thread_id >= old(self).thread_stats@.len() ==> final(self).thread_stats@ == old(
                self,
            ).thread_stats@,
            *final(self) == (ContentionManager { thread_stats: final(self).thread_stats, ..*old(self) }),
    {
        if thread_id < self.thread_stats.len() {
            let t = self.thread_stats[thread_id];
            self.thread_stats[thread_id] = ThreadStats {
                commit_count: t.commit_count.saturating_add(1),
                last_commit_count: t.last_commit_count,
            };
        }
    }

    /// One throughput sample: the total commits across all threads since
    /// the previous sample (saturated to 64 bits), with every snapshot
    /// caught up.
    pub fn calculate_throughput(&mut self) -> (r: u64)
        requires
            old(self).wf(),
        ensures
            final(self).wf(),
            r == observed_throughput(old(self).thread_stats@),
            final(self).thread_stats@ == drained_stats(old(self).thread_stats@),
            *final(self) == (ContentionManager { thread_stats: final(self).thread_stats, ..*old(self) }),
    {
        let n = self.thread_stats.len();
        let mut total: u64 = 0;
        let mut i: usize = 0;
        while i < n
            invariant
                old(self).wf(),
                i <= n,
                n == old(self).thread_stats@.len(),
                self.thread_stats@.len() == n,
                forall|j: int| i <= j < n ==> self.thread_stats@[j] == old(self).thread_stats@[j],
                forall|j: int|
                    0 <= j < i ==> (#[trigger] self.thread_stats@[j]) == (ThreadStats {
                        commit_count: old(self).thread_stats@[j].commit_count,
                        last_commit_count: old(self).thread_stats@[j].commit_count,
                    }),
                ({
                    let p = throughput_prefix(old(self).thread_stats@, i as int);
                    total == if p <= u64::MAX {
                        p
                    } else {
                        u64::MAX as int
                    }
                }),
                self.max_backoff_time == old(self).max_backoff_time,
                self.last_throughput == old(self).last_throughput,
                self.last_backoff == old(self).last_backoff,
                self.positive_gradient == old(self).positive_gradient,
                self.hill_climb_interval == old(self).hill_climb_interval,
                self.backoff_step == old(self).backoff_step,
            decreases n - i,
        {
            let t = self.thread_stats[i];
            let diff = t.commit_count - t.last_commit_count;
            total = total.saturating_add(diff);
            self.thread_stats[i] = ThreadStats {
                commit_count: t.commit_count,
                last_commit_count: t.commit_count,
            };
            i = i + 1;
        }
        proof {
            assert(self.thread_stats@ =~= drained_stats(old(self).thread_stats@));
        }
        total
    }

    /// One hill-climbing step.  With no historical throughput (the very
    /// first sample) the backoff ceiling is left unchanged and only the
    /// snapshot is recorded; otherwise the ceiling moves one step in the
    /// direction given by the throughput gradient.
    pub fn update_max_backoff(&mut self)
        requires
            old(self).wf(),
        ensures
            final(self).wf(),
            final(self).thread_stats@ == drained_stats(old(self).thread_stats@),
            final(self).last_throughput == observed_throughput(old(self).thread_stats@),
            final(self).last_backoff == old(self).max_backoff_time,
            old(self).last_throughput == 0 ==> final(self).max_backoff_time == old(
                self,
            ).max_backoff_time && final(self).positive_gradient == old(self).positive_gradient,
            old(self).last_throughput > 0 ==> {
                let positive = gradient_positive(
                    old(self).last_throughput,
                    observed_throughput(old(self).thread_stats@),
                    old(self).last_backoff,
                    old(self).max_backoff_time,
                );
                &&& final(self).positive_gradient == positive
                &&& final(self).max_backoff_time == stepped_backoff(
                    old(self).max_backoff_time,
                    old(self).backoff_step,
                    positive,
                )
            },
            final(self).hill_climb_interval == old(self).hill_climb_interval,
            final(self).backoff_step == old(self).backoff_step,
    {
        let current_throughput = self.calculate_throughput();
        let current_backoff = self.max_backoff_time;
        let last_throughput = self.last_throughput;
        let last_backoff = self.last_backoff;

        if last_throughput > 0 {
            let positive = if current_backoff == last_backoff {
                true
            } else if current_backoff > last_backoff {
                current_throughput >= last_throughput
            } else {
                current_throughput <= last_throughput
            };
            self.positive_gradient = positive;
            let new_backoff = if positive {
                current_backoff.saturating_add(self.backoff_step)
            } else {
                current_backoff.saturating_sub(self.backoff_step)
            };
            self.max_backoff_time = new_backoff;
        }
        self.last_throughput = current_throughput;
        self.last_backoff = current_backoff;
    }

    /// The current ceiling of the randomized backoff, in microseconds.
    pub fn get_max_backoff(&self) -> (r: u64)
        ensures
            r == self.max_backoff_time,
    {
        self.max_backoff_time
    }

    /// The duration of one randomized backoff, in microseconds: zero
    /// when no backoff is configured, otherwise a random value bounded
    /// by the current ceiling.  The caller performs the actual sleep.
    pub fn backoff_duration(&self) -> (r: u64)
        ensures
            r <= self.max_backoff_time,
            self.max_backoff_time == 0 ==> r == 0,
    {
        if self.max_backoff_time == 0 {
            0
        } else {
            random_below(self.max_backoff_time)
        }
    }
}

/// Relies on `rand::rng` and `rand::RngExt::random_range`: a uniformly
/// random value in `0..=bound`, drawn from the thread-local generator.
#[verifier::external_body]
fn random_below(bound: u64) -> (r: u64)
    ensures
        r <= bound,
{
    rand::rng().random_range(0..=bound)
}

} // verus!
