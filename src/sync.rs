//! Network synchronization measurement: when enough nodes agree on a chain
//! height, and how long it took them.
use vstd::prelude::*;

verus! {

/// Overall cap on a sync measurement unless another is given.
pub const DEFAULT_SYNC_CAP_MS: u64 = 300000;

/// What counts as a synchronized network: at least `network_size - tolerance`
/// nodes share the majority height, within `cap_ms`.
#[derive(Debug, Clone, Copy, PartialEq, Eq, Structural)]
pub struct SyncWaitParams {
    pub network_size: u64,
    pub tolerance: u64,
    pub cap_ms: u64,
}

/// Number of nodes that must agree: `network_size - tolerance`, or none when
/// the tolerance covers the whole network.
pub open spec fn required_agreement_spec(p: SyncWaitParams) -> nat {
    if p.tolerance >= p.network_size {
        0
    } else {
        (p.network_size - p.tolerance) as nat
    }
}

impl SyncWaitParams {
    /// A network of `network_size` nodes of which `tolerance` may lag, with the default cap.
    pub fn network_size(network_size: u64, tolerance: u64) -> (r: SyncWaitParams)
        ensures
            r == (SyncWaitParams { network_size, tolerance, cap_ms: DEFAULT_SYNC_CAP_MS }),
    {
        SyncWaitParams { network_size, tolerance, cap_ms: DEFAULT_SYNC_CAP_MS }
    }

    /// Two nodes that must both agree.
    pub fn two_nodes() -> (r: SyncWaitParams)
        ensures
            r == (SyncWaitParams { network_size: 2, tolerance: 0, cap_ms: DEFAULT_SYNC_CAP_MS }),
    {
        SyncWaitParams::network_size(2, 0)
    }

    /// The same parameters with another overall cap.
    pub fn with_cap_ms(self, cap_ms: u64) -> (r: SyncWaitParams)
        ensures
            r == (SyncWaitParams { cap_ms, ..self }),
    {
        SyncWaitParams { cap_ms, ..self }
    }

    pub fn required_agreement(&self) -> (r: u64)
        ensures
            r == required_agreement_spec(*self),
    {
        if self.tolerance >= self.network_size {
            0
        } else {
            self.network_size - self.tolerance
        }
    }
}

/// One node's reading in a polling round: its chain height and tip hash.
#[derive(Debug, Clone, PartialEq, Eq)]
pub struct TipReading {
    pub alias: String,
    pub height: u32,
    pub tip_hash: String,
}

/// How many of the first `n` readings are at height `h`.
pub open spec fn agreeing_upto(snap: Seq<TipReading>, h: u32, n: int) -> nat
    decreases n,
{
    if n <= 0 {
        0
    } else {
        agreeing_upto(snap, h, n - 1) + if snap[n - 1].height == h {
            1nat
        } else {
            0nat
        }
    }
}

/// How many readings are at height `h`.
pub open spec fn agreeing(snap: Seq<TipReading>, h: u32) -> nat {
    agreeing_upto(snap, h, snap.len() as int)
}

/// At least `required` readings share one height.
pub open spec fn converged(snap: Seq<TipReading>, required: nat) -> bool {
    required == 0 || exists|i: int| 0 <= i < snap.len() && agreeing(snap, #[trigger] snap[i].height) >= required
}

proof fn lemma_agreeing_upto_bound(snap: Seq<TipReading>, h: u32, n: int)
    requires
        0 <= n <= snap.len(),
    ensures
        agreeing_upto(snap, h, n) <= n,
    decreases n,
{
    if n > 0 {
        lemma_agreeing_upto_bound(snap, h, n - 1);
    }
}

/// Number of readings at height `h`.
fn count_at_height(snap: &Vec<TipReading>, h: u32) -> (r: u64)
    requires
        snap@.len() <= u64::MAX,
    ensures
        r == agreeing(snap@, h),
{
    let mut c: u64 = 0;
    let mut i: usize = 0;
    while i < snap.len()
        invariant
            snap@.len() <= u64::MAX,
            i <= snap@.len(),
            c == agreeing_upto(snap@, h, i as int),
        decreases snap.len() - i,
    {
        proof {
            lemma_agreeing_upto_bound(snap@, h, i as int);
        }
        if snap[i].height == h {
            c = c + 1;
        }
        i += 1;
    }
    c
}

/// The majority of a snapshot: the height that most readings share (the
/// first such in the snapshot), and how many share it.
pub fn majority(snap: &Vec<TipReading>) -> (r: (Option<u32>, u64))
    requires
        snap@.len() <= u64::MAX,
    ensures
        snap@.len() == 0 ==> r == (None::<u32>, 0u64),
        snap@.len() > 0 ==> exists|i: int|
            {
                &&& 0 <= i < snap@.len()
                &&& r.0 == Some(snap@[i].height)
                &&& r.1 == agreeing(snap@, snap@[i].height)
                &&& forall|j: int| 0 <= j < i ==> agreeing(snap@, #[trigger] snap@[j].height) < r.1
            },
        forall|j: int| 0 <= j < snap@.len() ==> agreeing(snap@, #[trigger] snap@[j].height) <= r.1,
{
    let mut best: Option<u32> = None;
    let mut best_count: u64 = 0;
    let ghost mut best_i: int = 0;
    let mut i: usize = 0;
    while i < snap.len()
        invariant
            snap@.len() <= u64::MAX,
            i <= snap@.len(),
            i == 0 ==> best == None::<u32> && best_count == 0,
            i > 0 ==> {
                &&& 0 <= best_i < i
                &&& best == Some(snap@[best_i].height)
                &&& best_count == agreeing(snap@, snap@[best_i].height)
                &&& forall|j: int| 0 <= j < best_i ==> agreeing(snap@, #[trigger] snap@[j].height) < best_count
            },
            forall|j: int| 0 <= j < i ==> agreeing(snap@, #[trigger] snap@[j].height) <= best_count,
        decreases snap.len() - i,
    {
        let c = count_at_height(snap, snap[i].height);
        if best.is_none() || c > best_count {
            best = Some(snap[i].height);
            best_count = c;
            proof {
                best_i = i as int;
            }
        }
        i += 1;
    }
    (best, best_count)
}

/// Whether the network has converged, and after how long.
#[derive(Debug, Clone, Copy, PartialEq, Eq, Structural)]
pub enum SyncDecision {
    Converged { elapsed_ms: u64 },
    Wait,
}

/// The network did not converge within the cap; the last snapshot is kept.
#[derive(Debug, Clone, PartialEq, Eq)]
pub enum SyncError {
    SyncTimeoutExceeded { achieved_state: Vec<TipReading>, elapsed_ms: u64 },
}

/// How often progress of a measurement is reported.
#[derive(Debug, Clone, Copy, PartialEq, Eq, Structural)]
pub enum MeasurementReportInterval {
    /// Every 20 seconds.
    Standard,
    /// Every 100 seconds.
    Long,
    /// Every so many milliseconds.
    Custom(u64),
}

impl MeasurementReportInterval {
    pub open spec fn interval_ms_spec(self) -> u64 {
        match self {
            MeasurementReportInterval::Standard => 20000,
            MeasurementReportInterval::Long => 100000,
            MeasurementReportInterval::Custom(ms) => ms,
        }
    }

    pub fn interval_ms(&self) -> (r: u64)
        ensures
            r == self.interval_ms_spec(),
    {
        match self {
            MeasurementReportInterval::Standard => 20000,
            MeasurementReportInterval::Long => 100000,
            MeasurementReportInterval::Custom(ms) => *ms,
        }
    }
}

/// State of one sync measurement across polling rounds.
#[derive(Debug, Clone, Copy, PartialEq, Eq, Structural)]
pub struct SyncMeasurer {
    pub params: SyncWaitParams,
    pub report_interval: MeasurementReportInterval,
    /// Time measured so far; it never goes back.
    pub elapsed_ms: u64,
    /// Measured time of the last progress report.
    pub last_report_ms: u64,
}

impl SyncMeasurer {
    pub fn new(params: SyncWaitParams, report_interval: MeasurementReportInterval) -> (r: SyncMeasurer)
        ensures
            r == (SyncMeasurer { params, report_interval, elapsed_ms: 0, last_report_ms: 0 }),
    {
        SyncMeasurer { params, report_interval, elapsed_ms: 0, last_report_ms: 0 }
    }

    /// Decision on one polling round whose snapshot `snap` was taken
    /// `clock_ms` after the measurement began. A clock reading earlier than
    /// the time already measured counts as no time passing. The network has
    /// converged when enough readings share a height and the cap is not
    /// exceeded; at the cap without convergence the measurement fails with the
    /// snapshot; before it, it goes on.
    pub fn poll(&mut self, clock_ms: u64, snap: Vec<TipReading>) -> (r: Result<SyncDecision, SyncError>)
        requires
            snap@.len() <= u64::MAX,
        ensures
            final(self).params == old(self).params,
            final(self).report_interval == old(self).report_interval,
            final(self).last_report_ms == old(self).last_report_ms,
            final(self).elapsed_ms == if clock_ms > old(self).elapsed_ms {
                clock_ms
            } else {
                old(self).elapsed_ms
            },
            final(self).elapsed_ms >= old(self).elapsed_ms,
            ({
                let e = final(self).elapsed_ms;
                let ok = converged(snap@, required_agreement_spec(old(self).params));
                &&& ok && e <= old(self).params.cap_ms ==> r == Ok::<SyncDecision, SyncError>(
                    SyncDecision::Converged { elapsed_ms: e },
                )
                &&& !ok && e >= old(self).params.cap_ms ==> (r matches Err(
                    SyncError::SyncTimeoutExceeded { achieved_state, elapsed_ms },
                ) && achieved_state@ == snap@ && elapsed_ms == e)
                &&& ok && e > old(self).params.cap_ms ==> (r matches Err(
                    SyncError::SyncTimeoutExceeded { achieved_state, elapsed_ms },
                ) && achieved_state@ == snap@ && elapsed_ms == e)
                &&& !ok && e < old(self).params.cap_ms ==> r == Ok::<SyncDecision, SyncError>(
                    SyncDecision::Wait,
                )
            }),
            r matches Ok(SyncDecision::Converged { elapsed_ms }) ==> elapsed_ms
                <= old(self).params.cap_ms,
    {
        if clock_ms > self.elapsed_ms {
            self.elapsed_ms = clock_ms;
        }
        let required = self.params.required_agreement();
        let (_, count) = majority(&snap);
        let ok = required == 0 || count >= required;
        proof {
            if snap@.len() > 0 {
                let i = choose|i: int|
                    {
                        &&& 0 <= i < snap@.len()
                        &&& agreeing(snap@, snap@[i].height) == count
                    };
            }
            if !ok && converged(snap@, required as nat) {
                let i = choose|i: int| 0 <= i < snap@.len() && agreeing(snap@, #[trigger] snap@[i].height) >= required;
            }
        }
        assert(ok == converged(snap@, required as nat));
        if ok && self.elapsed_ms <= self.params.cap_ms {
            Ok(SyncDecision::Converged { elapsed_ms: self.elapsed_ms })
        } else if self.elapsed_ms >= self.params.cap_ms || ok {
            Err(SyncError::SyncTimeoutExceeded { achieved_state: snap, elapsed_ms: self.elapsed_ms })
        } else {
            Ok(SyncDecision::Wait)
        }
    }

    /// Whether progress is to be reported now: when a report interval has
    /// passed since the last report, which is then recorded. This has no
    /// bearing on the convergence decision.
    pub fn report_due(&mut self) -> (r: bool)
        ensures
            final(self).params == old(self).params,
            final(self).report_interval == old(self).report_interval,
            final(self).elapsed_ms == old(self).elapsed_ms,
            r == (old(self).elapsed_ms >= old(self).last_report_ms && old(self).elapsed_ms
                - old(self).last_report_ms >= old(self).report_interval.interval_ms_spec()),
            r ==> final(self).last_report_ms == old(self).elapsed_ms,
            !r ==> final(self).last_report_ms == old(self).last_report_ms,
    {
        let interval = self.report_interval.interval_ms();
        if self.elapsed_ms >= self.last_report_ms && self.elapsed_ms - self.last_report_ms >= interval {
            self.last_report_ms = self.elapsed_ms;
            true
        } else {
            false
        }
    }
}

} // verus!
