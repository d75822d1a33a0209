use std::collections::HashMap;

use vstd::prelude::*;

use crate::monitor::rcpu::{SThreadCpuSnapshot, Tid};

verus! {

broadcast use vstd::std_specs::hash::group_hash_axioms;

/// Consecutive samples over the threshold after which a thread counts as burning.
pub const MAX_DETECTS: u8 = 3;

/// Rounds spent confirming before the detector settles into the burning state.
pub const MAX_CONFIRMS: u8 = 3;

/// Cap on the back-off multiplier of the sampling interval while burning.
pub const MAX_BURNING_UNITS: u32 = u32::MAX / 4;

/// The longest span a `std::time::Duration` can hold, in nanoseconds.
pub const MAX_DURATION_NANOS: u128 = 18446744073709551615999999999;

/// How many consecutive samples showed one thread over the threshold.
#[derive(Clone, Copy)]
pub struct BurningThread {
    pub tid: Tid,
    pub num_burning: u8,
}

/// The counter after one more sample over the threshold: one more, capped at `MAX_DETECTS`.
pub open spec fn inc_count(n: u8) -> u8 {
    if n + 1 > MAX_DETECTS {
        MAX_DETECTS
    } else {
        (n + 1) as u8
    }
}

impl BurningThread {
    /// Counts one more sample over the threshold, saturating at `MAX_DETECTS`,
    /// and returns the new count.
    pub fn inc_detect(&mut self) -> (r: u8)
        requires
            old(self).num_burning < u8::MAX,
        ensures
            r == inc_count(old(self).num_burning),
            final(self).num_burning == r,
            final(self).tid == old(self).tid,
    {
        self.num_burning += 1;
        if self.num_burning > MAX_DETECTS {
            self.num_burning = MAX_DETECTS;
        }
        self.num_burning
    }
}

/// The phase of the detector between two samples.
#[derive(Clone, Copy, PartialEq, Eq, Structural)]
pub enum DetectorState {
    Idle,
    Detecting { num: u8 },
    Confirming { num: u8 },
    Burning { last_units: u32 },
}

/// What the detector asks of its driver after one sample.
pub struct HandleOutcome {
    /// How long to wait before taking the next sample, in nanoseconds.
    pub interval_nanos: u128,
    /// How long the next sample should measure, in nanoseconds.
    pub duration_nanos: u128,
    /// Whether the user callback is to be run on this sample.
    pub callback: bool,
}

/// Detects threads that keep one core busy.
///
/// Each sample updates a counter per thread over the threshold; once some
/// thread has been over it `MAX_DETECTS` times in a row, the detector
/// confirms for a while, then enters the burning phase in which it asks for
/// the callback and backs off its sampling interval exponentially.
pub struct BuringThreadsMonitor {
    threshold: u64,
    unit_interval: u128,
    duration: u128,
    state: Option<DetectorState>,
    burnings: HashMap<Tid, BurningThread>,
    curr_max: u8,
    callback: bool,
}

/// The abstract state of a `BuringThreadsMonitor`.
pub struct MonitorView {
    /// `None` is the ready state, before the first decision or after a reset.
    pub state: Option<DetectorState>,
    pub burnings: Map<Tid, BurningThread>,
    /// The largest counter seen in the last sample.
    pub curr_max: u8,
    /// Threshold in hundredths of a percent.
    pub threshold: u64,
    pub unit_interval: u128,
    pub duration: u128,
}

pub open spec fn burnings_wf(m: Map<Tid, BurningThread>) -> bool {
    forall|k: Tid|
        #![trigger m[k]]
        m.contains_key(k) ==> m[k].tid == k && 1 <= m[k].num_burning <= MAX_DETECTS
}

pub open spec fn state_wf(s: Option<DetectorState>) -> bool {
    match s {
        None => true,
        Some(DetectorState::Idle) => true,
        Some(DetectorState::Detecting { num }) => 1 <= num < MAX_DETECTS,
        Some(DetectorState::Confirming { num }) => 1 <= num < MAX_CONFIRMS,
        Some(DetectorState::Burning { last_units }) => last_units <= MAX_BURNING_UNITS,
    }
}

impl MonitorView {
    pub open spec fn wf(self) -> bool {
        &&& burnings_wf(self.burnings)
        &&& self.curr_max <= MAX_DETECTS
        &&& forall|k: Tid|
            #![trigger self.burnings[k]]
            self.burnings.contains_key(k) ==> self.burnings[k].num_burning <= self.curr_max
        &&& state_wf(self.state)
        &&& self.unit_interval <= MAX_DURATION_NANOS
        &&& self.duration <= MAX_DURATION_NANOS
    }
}

impl BuringThreadsMonitor {
    /// What every monitor keeps between calls: counters in range and keyed by
    /// their own thread, a maximum of at most `MAX_DETECTS`, a phase in range,
    /// and spans that fit in a `Duration`.
    #[verifier::type_invariant]
    closed spec fn inv(self) -> bool {
        &&& burnings_wf(self.burnings@)
        &&& self.curr_max <= MAX_DETECTS
        &&& state_wf(self.state)
        &&& self.unit_interval <= MAX_DURATION_NANOS
        &&& self.duration <= MAX_DURATION_NANOS
    }
}

impl View for BuringThreadsMonitor {
    type V = MonitorView;

    closed spec fn view(&self) -> MonitorView {
        MonitorView {
            state: self.state,
            burnings: self.burnings@,
            curr_max: self.curr_max,
            threshold: self.threshold,
            unit_interval: self.unit_interval,
            duration: self.duration,
        }
    }
}

/// Splits a span of `nanos` nanoseconds into whole seconds and the
/// nanoseconds left over, as a `Duration` holds it; `None` when the span is
/// longer than any `Duration`.
pub fn duration_parts(nanos: u128) -> (r: Option<(u64, u32)>)
    ensures
        r is Some <==> nanos <= MAX_DURATION_NANOS,
        r matches Some((secs, sub)) ==> secs * 1_000_000_000 + sub == nanos && sub < 1_000_000_000,
{
    if nanos > MAX_DURATION_NANOS {
        return None;
    }
    let secs = nanos / 1_000_000_000;
    let sub = nanos % 1_000_000_000;
    assert(secs <= u64::MAX && secs * 1_000_000_000 + sub == nanos) by (nonlinear_arith)
        requires
            nanos <= MAX_DURATION_NANOS,
            secs == nanos / 1_000_000_000,
            sub == nanos % 1_000_000_000,
    ;
    Some((secs as u64, sub as u32))
}

// ---------------------------------------------------------------------------
// The per-thread counters
// ---------------------------------------------------------------------------

/// The entries of `old` whose thread appears among the first `n` samples.
pub open spec fn retained(
    old: Map<Tid, BurningThread>,
    threads: Seq<SThreadCpuSnapshot>,
    n: int,
) -> Map<Tid, BurningThread>
    decreases n,
{
    if n <= 0 {
        Map::empty()
    } else {
        let r = retained(old, threads, n - 1);
        let k = threads[n - 1].thread.tid;
        if old.contains_key(k) {
            r.insert(k, old[k])
        } else {
            r
        }
    }
}

/// The largest counter among the entries of `old` whose thread appears
/// among the first `n` samples (0 if there is none).
pub open spec fn retained_max(
    old: Map<Tid, BurningThread>,
    threads: Seq<SThreadCpuSnapshot>,
    n: int,
) -> u8
    decreases n,
{
    if n <= 0 {
        0
    } else {
        let m = retained_max(old, threads, n - 1);
        let k = threads[n - 1].thread.tid;
        if old.contains_key(k) && m < old[k].num_burning {
            old[k].num_burning
        } else {
            m
        }
    }
}

/// One sample applied to the counters: a thread over the threshold gets its
/// counter raised, any other thread loses its counter.
pub open spec fn update_one(
    m: Map<Tid, BurningThread>,
    mx: u8,
    t: SThreadCpuSnapshot,
    threshold: u64,
) -> (Map<Tid, BurningThread>, u8) {
    let k = t.thread.tid;
    if t.cpu >= threshold {
        let c = inc_count(
            if m.contains_key(k) {
                m[k].num_burning
            } else {
                0
            },
        );
        (m.insert(k, BurningThread { tid: k, num_burning: c }), if mx < c {
            c
        } else {
            mx
        })
    } else {
        (m.remove(k), mx)
    }
}

/// The first `n` samples applied in order.
pub open spec fn updated(
    m0: Map<Tid, BurningThread>,
    mx0: u8,
    threads: Seq<SThreadCpuSnapshot>,
    threshold: u64,
    n: int,
) -> (Map<Tid, BurningThread>, u8)
    decreases n,
{
    if n <= 0 {
        (m0, mx0)
    } else {
        let p = updated(m0, mx0, threads, threshold, n - 1);
        update_one(p.0, p.1, threads[n - 1], threshold)
    }
}

/// The counters and their maximum after a sample of `threads`: entries of
/// threads that no longer exist are dropped, then each sample is applied.
pub open spec fn checked(
    old: Map<Tid, BurningThread>,
    threads: Seq<SThreadCpuSnapshot>,
    threshold: u64,
) -> (Map<Tid, BurningThread>, u8) {
    let n = threads.len() as int;
    updated(retained(old, threads, n), retained_max(old, threads, n), threads, threshold, n)
}


// ---------------------------------------------------------------------------
// The phase decisions
// ---------------------------------------------------------------------------

/// A decision: the next phase, the sampling interval in units of the unit
/// interval, and whether the callback is due.
pub type Decision = (Option<DetectorState>, u32, bool);

/// Back to the ready state, waiting one unit interval.
pub open spec fn to_idle() -> Decision {
    (None, 1, false)
}

/// The back-off multiplier after `u`: doubled, capped at `MAX_BURNING_UNITS`.
pub open spec fn next_units(u: u32) -> u32 {
    if u * 2 > MAX_BURNING_UNITS {
        MAX_BURNING_UNITS
    } else {
        (u * 2) as u32
    }
}

pub open spec fn decide_burning(last_units: u32, has_burning: bool, curr_max: u8) -> Decision {
    if !has_burning || curr_max < MAX_DETECTS {
        to_idle()
    } else {
        let u = next_units(last_units);
        (Some(DetectorState::Burning { last_units: u }), u, true)
    }
}

pub open spec fn decide_confirming(num: u8, has_burning: bool, curr_max: u8) -> Decision {
    if !has_burning || curr_max < MAX_DETECTS {
        to_idle()
    } else if num + 1 < MAX_CONFIRMS {
        (Some(DetectorState::Confirming { num: (num + 1) as u8 }), 0, true)
    } else {
        decide_burning(1, has_burning, curr_max)
    }
}

pub open spec fn decide_detecting(num: u8, has_burning: bool, curr_max: u8) -> Decision {
    if !has_burning {
        to_idle()
    } else if num + 1 < MAX_DETECTS {
        (Some(DetectorState::Detecting { num: (num + 1) as u8 }), 0, false)
    } else if curr_max < MAX_DETECTS {
        to_idle()
    } else {
        decide_confirming(0, has_burning, curr_max)
    }
}

/// The decision taken in phase `state` once the counters have been updated:
/// `has_burning` tells whether any thread has a counter, `curr_max` is the
/// largest counter seen in the sample.
pub open spec fn decide(state: Option<DetectorState>, has_burning: bool, curr_max: u8) -> Decision {
    match state {
        None => if has_burning {
            decide_detecting(0, has_burning, curr_max)
        } else {
            (Some(DetectorState::Idle), 0, false)
        },
        Some(DetectorState::Idle) => if has_burning {
            decide_detecting(0, has_burning, curr_max)
        } else {
            (Some(DetectorState::Detecting { num: 1 }), 0, false)
        },
        Some(DetectorState::Detecting { num }) => decide_detecting(num, has_burning, curr_max),
        Some(DetectorState::Confirming { num }) => decide_confirming(num, has_burning, curr_max),
        Some(DetectorState::Burning { last_units }) => decide_burning(
            last_units,
            has_burning,
            curr_max,
        ),
    }
}

/// One sample taken by a detector in state `v`: the state after it, and
/// whether the callback is due.
pub open spec fn sample_step(v: MonitorView, threads: Seq<SThreadCpuSnapshot>) -> (MonitorView, bool) {
    let (m, mx) = checked(v.burnings, threads, v.threshold);
    let d = decide(v.state, m.len() > 0, mx);
    (MonitorView { state: d.0, burnings: m, curr_max: mx, ..v }, d.2)
}

/// The state of a detector that started in `v0` after the first `n` samples.
pub open spec fn state_after(v0: MonitorView, samples: Seq<Seq<SThreadCpuSnapshot>>, n: int) -> MonitorView
    decreases n,
{
    if n <= 0 {
        v0
    } else {
        sample_step(state_after(v0, samples, n - 1), samples[n - 1]).0
    }
}

/// Whether the callback is due on sample `i` of a detector that started in `v0`.
pub open spec fn callback_at(v0: MonitorView, samples: Seq<Seq<SThreadCpuSnapshot>>, i: int) -> bool {
    sample_step(state_after(v0, samples, i), samples[i]).1
}

// ---------------------------------------------------------------------------
// The detector
// ---------------------------------------------------------------------------

impl BuringThreadsMonitor {
    /// A detector in the ready state with no counters.
    ///
    /// `threshold` is in hundredths of a percent; the two spans are in
    /// nanoseconds and must each fit in a `Duration`.
    pub fn new(threshold: u64, unit_interval: u128, duration: u128) -> (r: Self)
        requires
            unit_interval <= MAX_DURATION_NANOS,
            duration <= MAX_DURATION_NANOS,
        ensures
            r@.wf(),
            r@.state == None::<DetectorState>,
            r@.burnings == Map::<Tid, BurningThread>::empty(),
            r@.curr_max == 0,
            r@.threshold == threshold,
            r@.unit_interval == unit_interval,
            r@.duration == duration,
    {
        BuringThreadsMonitor {
            burnings: HashMap::new(),
            curr_max: 0,
            state: None,
            threshold,
            unit_interval,
            duration,
            callback: false,
        }
    }

    pub open spec fn same_config(self, other: Self) -> bool {
        &&& self@.threshold == other@.threshold
        &&& self@.unit_interval == other@.unit_interval
        &&& self@.duration == other@.duration
    }

    closed spec fn pre_decision(self) -> bool {
        !self.callback
    }

    closed spec fn post_decision(self, old: Self, d: Decision, units: u32) -> bool {
        &&& self.state == d.0
        &&& units == d.1
        &&& self.callback == d.2
        &&& self.burnings@ == old.burnings@
        &&& self.curr_max == old.curr_max
        &&& self.same_config(old)
    }

    /// Takes one sample: updates the counters, then decides the next phase.
    ///
    /// The returned interval is the unit interval times the decision's
    /// multiplier; it may exceed what a `Duration` can hold only once the
    /// multiplier has grown far enough, which the driver has to check.
    pub fn handle(&mut self, threads: &Vec<SThreadCpuSnapshot>) -> (out: HandleOutcome)
        ensures
            final(self)@.wf(),
            final(self)@.burnings.dom().finite(),
            (final(self)@, out.callback) == sample_step(old(self)@, threads@),
            (final(self)@.burnings, final(self)@.curr_max) == checked(
                old(self)@.burnings,
                threads@,
                old(self)@.threshold,
            ),
            ({
                let d = decide(
                    old(self)@.state,
                    final(self)@.burnings.len() > 0,
                    final(self)@.curr_max,
                );
                &&& final(self)@.state == d.0
                &&& out.interval_nanos == old(self)@.unit_interval * d.1
                &&& out.callback == d.2
            }),
            out.duration_nanos == old(self)@.duration,
            final(self).same_config(*old(self)),
    {
        proof {
            use_type_invariant(&*self);
        }
        self.callback = false;
        self.check_thread_states(threads);
        let state = self.state;
        self.state = None;
        let units = match state {
            Some(DetectorState::Idle) => self.handle_idle(),
            Some(DetectorState::Detecting { num }) => self.handle_detecting(num),
            Some(DetectorState::Confirming { num }) => self.handle_confirming(num),
            Some(DetectorState::Burning { last_units }) => self.handle_burning(last_units),
            None => self.handle_ready(),
        };
        proof {
            use_type_invariant(&*self);
            lemma_decide_wf(state, self.burnings@.len() > 0, self.curr_max);
        }
        assert(self.unit_interval * (units as u128) <= MAX_DURATION_NANOS * MAX_BURNING_UNITS)
            by (nonlinear_arith)
            requires
                self.unit_interval <= MAX_DURATION_NANOS,
                units <= MAX_BURNING_UNITS,
        ;
        let interval_nanos = self.unit_interval * (units as u128);
        HandleOutcome { interval_nanos, duration_nanos: self.duration, callback: self.callback }
    }

    fn check_thread_states(&mut self, threads: &Vec<SThreadCpuSnapshot>)
        requires
            !old(self).callback,
        ensures
            (final(self)@.burnings, final(self)@.curr_max) == checked(
                old(self)@.burnings,
                threads@,
                old(self)@.threshold,
            ),
            final(self)@.wf(),
            final(self).state == old(self).state,
            !final(self).callback,
            final(self).same_config(*old(self)),
    {
        proof {
            use_type_invariant(&*self);
        }
        let ghost old_map = self.burnings@;
        let n = threads.len();
        let mut max: u8 = 0;
        let mut kept: HashMap<Tid, BurningThread> = HashMap::new();
        let mut i: usize = 0;
        while i < n
            invariant
                n == threads.len(),
                i <= n,
                self.burnings@ == old_map,
                kept@ == retained(old_map, threads@, i as int),
                max == retained_max(old_map, threads@, i as int),
            decreases n - i,
        {
            let tid = threads[i].tid();
            match self.burnings.get(&tid) {
                Some(b) => {
                    let b = *b;
                    kept.insert(tid, b);
                    if max < b.num_burning {
                        max = b.num_burning;
                    }
                },
                None => {},
            }
            i += 1;
        }
        proof {
            lemma_retained(old_map, threads@, n as int);
        }
        let ghost m0 = kept@;
        let ghost mx0 = max;
        let mut j: usize = 0;
        while j < n
            invariant
                n == threads.len(),
                j <= n,
                m0 == retained(old_map, threads@, n as int),
                mx0 == retained_max(old_map, threads@, n as int),
                burnings_wf(m0),
                mx0 <= MAX_DETECTS,
                forall|k: Tid| #![trigger m0[k]] m0.contains_key(k) ==> m0[k].num_burning <= mx0,
                (kept@, max) == updated(m0, mx0, threads@, self.threshold, j as int),
            decreases n - j,
        {
            proof {
                lemma_updated(m0, mx0, threads@, self.threshold, j as int);
            }
            let t = &threads[j];
            let tid = t.tid();
            if t.cpu() >= self.threshold {
                let mut entry = match kept.get(&tid) {
                    Some(b) => *b,
                    None => BurningThread { tid, num_burning: 0 },
                };
                let num = entry.inc_detect();
                kept.insert(tid, entry);
                if max < num {
                    max = num;
                }
            } else {
                kept.remove(&tid);
            }
            j += 1;
        }
        proof {
            lemma_updated(m0, mx0, threads@, self.threshold, n as int);
        }
        self.burnings = kept;
        self.curr_max = max;
    }

    fn change_to_idle(&mut self) -> (units: u32)
        requires
            old(self).pre_decision(),
        ensures
            final(self).post_decision(*old(self), to_idle(), units),
    {
        proof {
            use_type_invariant(&*self);
        }
        self.state = None;
        1
    }

    fn handle_ready(&mut self) -> (units: u32)
        requires
            old(self).pre_decision(),
        ensures
            final(self).post_decision(
                *old(self),
                decide(None, old(self)@.burnings.len() > 0, old(self).curr_max),
                units,
            ),
    {
        proof {
            use_type_invariant(&*self);
        }
        if self.burnings.len() > 0 {
            return self.handle_detecting(0);
        }
        self.state = Some(DetectorState::Idle);
        0
    }

    fn handle_idle(&mut self) -> (units: u32)
        requires
            old(self).pre_decision(),
        ensures
            final(self).post_decision(
                *old(self),
                decide(Some(DetectorState::Idle), old(self)@.burnings.len() > 0, old(self).curr_max),
                units,
            ),
    {
        proof {
            use_type_invariant(&*self);
        }
        if self.burnings.len() > 0 {
            return self.handle_detecting(0);
        }
        self.state = Some(DetectorState::Detecting { num: 1 });
        0
    }

    fn handle_detecting(&mut self, num: u8) -> (units: u32)
        requires
            old(self).pre_decision(),
            num < MAX_DETECTS,
        ensures
            final(self).post_decision(
                *old(self),
                decide_detecting(num, old(self)@.burnings.len() > 0, old(self).curr_max),
                units,
            ),
    {
        proof {
            use_type_invariant(&*self);
        }
        if self.burnings.len() == 0 {
            return self.change_to_idle();
        }
        let num = num + 1;
        if num < MAX_DETECTS {
            self.state = Some(DetectorState::Detecting { num });
            return 0;
        }
        if self.curr_max < MAX_DETECTS {
            return self.change_to_idle();
        }
        self.handle_confirming(0)
    }

    fn handle_confirming(&mut self, num: u8) -> (units: u32)
        requires
            old(self).pre_decision(),
            num < MAX_CONFIRMS,
        ensures
            final(self).post_decision(
                *old(self),
                decide_confirming(num, old(self)@.burnings.len() > 0, old(self).curr_max),
                units,
            ),
    {
        proof {
            use_type_invariant(&*self);
        }
        if self.burnings.len() == 0 {
            return self.change_to_idle();
        }
        if self.curr_max < MAX_DETECTS {
            return self.change_to_idle();
        }
        let num = num + 1;
        if num < MAX_CONFIRMS {
            self.callback = true;
            self.state = Some(DetectorState::Confirming { num });
            return 0;
        }
        self.handle_burning(1)
    }

    fn handle_burning(&mut self, last_units: u32) -> (units: u32)
        requires
            old(self).pre_decision(),
            last_units <= u32::MAX / 2,
        ensures
            final(self).post_decision(
                *old(self),
                decide_burning(last_units, old(self)@.burnings.len() > 0, old(self).curr_max),
                units,
            ),
    {
        proof {
            use_type_invariant(&*self);
        }
        if self.burnings.len() == 0 {
            return self.change_to_idle();
        }
        if self.curr_max < MAX_DETECTS {
            return self.change_to_idle();
        }
        self.callback = true;
        let doubled = last_units * 2;
        let last_units = if doubled > MAX_BURNING_UNITS {
            MAX_BURNING_UNITS
        } else {
            doubled
        };
        self.state = Some(DetectorState::Burning { last_units });
        last_units
    }
}


// ---------------------------------------------------------------------------
// Lemmas
// ---------------------------------------------------------------------------

proof fn lemma_retained(old: Map<Tid, BurningThread>, threads: Seq<SThreadCpuSnapshot>, n: int)
    requires
        burnings_wf(old),
    ensures
        burnings_wf(retained(old, threads, n)),
        retained_max(old, threads, n) <= MAX_DETECTS,
        forall|k: Tid|
            #![trigger retained(old, threads, n)[k]]
            retained(old, threads, n).contains_key(k) ==> retained(old, threads, n)[k].num_burning
                <= retained_max(old, threads, n),
    decreases n,
{
    if n > 0 {
        lemma_retained(old, threads, n - 1);
    }
}

proof fn lemma_updated(
    m0: Map<Tid, BurningThread>,
    mx0: u8,
    threads: Seq<SThreadCpuSnapshot>,
    threshold: u64,
    n: int,
)
    requires
        burnings_wf(m0),
        mx0 <= MAX_DETECTS,
        forall|k: Tid| #![trigger m0[k]] m0.contains_key(k) ==> m0[k].num_burning <= mx0,
    ensures
        ({
            let p = updated(m0, mx0, threads, threshold, n);
            &&& burnings_wf(p.0)
            &&& p.1 <= MAX_DETECTS
            &&& forall|k: Tid| #![trigger p.0[k]] p.0.contains_key(k) ==> p.0[k].num_burning <= p.1
        }),
    decreases n,
{
    if n > 0 {
        lemma_updated(m0, mx0, threads, threshold, n - 1);
    }
}

proof fn lemma_decide_wf(state: Option<DetectorState>, has_burning: bool, curr_max: u8)
    requires
        state_wf(state),
    ensures
        state_wf(decide(state, has_burning, curr_max).0),
        decide(state, has_burning, curr_max).1 <= MAX_BURNING_UNITS,
{
}


// ---------------------------------------------------------------------------
// Laws
// ---------------------------------------------------------------------------

/// Some sample among the first `n` is of thread `k`.
pub open spec fn appears(threads: Seq<SThreadCpuSnapshot>, k: Tid, n: int) -> bool {
    exists|j: int| 0 <= j < n && #[trigger] threads[j].thread.tid == k
}

/// The last sample of thread `k` among the first `n` is over the threshold.
pub open spec fn last_sample_over(
    threads: Seq<SThreadCpuSnapshot>,
    k: Tid,
    threshold: u64,
    n: int,
) -> bool {
    exists|i: int|
        0 <= i < n && #[trigger] threads[i].thread.tid == k && threads[i].cpu >= threshold
            && forall|j: int| i < j < n ==> #[trigger] threads[j].thread.tid != k
}

proof fn lemma_retained_dom(
    old: Map<Tid, BurningThread>,
    threads: Seq<SThreadCpuSnapshot>,
    n: int,
    k: Tid,
)
    requires
        0 <= n <= threads.len(),
    ensures
        retained(old, threads, n).contains_key(k) <==> old.contains_key(k) && appears(threads, k, n),
        retained(old, threads, n).contains_key(k) ==> retained(old, threads, n)[k] == old[k],
    decreases n,
{
    if n > 0 {
        lemma_retained_dom(old, threads, n - 1, k);
        if threads[n - 1].thread.tid == k {
            assert(appears(threads, k, n));
        } else if appears(threads, k, n) {
            let j = choose|j: int| 0 <= j < n && #[trigger] threads[j].thread.tid == k;
            assert(j < n - 1);
            assert(appears(threads, k, n - 1));
        }
    }
}

/// Samples of other threads leave the entry of `k` as it was.
proof fn lemma_updated_untouched(
    m0: Map<Tid, BurningThread>,
    mx0: u8,
    threads: Seq<SThreadCpuSnapshot>,
    threshold: u64,
    a: int,
    n: int,
    k: Tid,
)
    requires
        0 <= a <= n <= threads.len(),
        forall|j: int| a <= j < n ==> #[trigger] threads[j].thread.tid != k,
    ensures
        updated(m0, mx0, threads, threshold, n).0.contains_key(k) == updated(
            m0,
            mx0,
            threads,
            threshold,
            a,
        ).0.contains_key(k),
        updated(m0, mx0, threads, threshold, n).0.contains_key(k) ==> updated(
            m0,
            mx0,
            threads,
            threshold,
            n,
        ).0[k] == updated(m0, mx0, threads, threshold, a).0[k],
    decreases n - a,
{
    if n > a {
        lemma_updated_untouched(m0, mx0, threads, threshold, a, n - 1, k);
        assert(threads[n - 1].thread.tid != k);
    }
}

proof fn lemma_updated_dom(
    m0: Map<Tid, BurningThread>,
    mx0: u8,
    threads: Seq<SThreadCpuSnapshot>,
    threshold: u64,
    n: int,
    k: Tid,
)
    requires
        0 <= n <= threads.len(),
    ensures
        updated(m0, mx0, threads, threshold, n).0.contains_key(k) <==> if appears(threads, k, n) {
            last_sample_over(threads, k, threshold, n)
        } else {
            m0.contains_key(k)
        },
    decreases n,
{
    if n > 0 {
        lemma_updated_dom(m0, mx0, threads, threshold, n - 1, k);
        let t = threads[n - 1];
        if t.thread.tid == k {
            assert(appears(threads, k, n));
            if t.cpu >= threshold {
                assert(last_sample_over(threads, k, threshold, n)) by {
                    assert(forall|j: int| n - 1 < j < n ==> #[trigger] threads[j].thread.tid != k);
                }
            } else if last_sample_over(threads, k, threshold, n) {
                let i = choose|i: int|
                    0 <= i < n && #[trigger] threads[i].thread.tid == k && threads[i].cpu
                        >= threshold && forall|j: int| i < j < n ==> #[trigger] threads[j].thread.tid
                        != k;
                if i < n - 1 {
                    assert(threads[n - 1].thread.tid != k);
                }
            }
        } else {
            if appears(threads, k, n) {
                let j = choose|j: int| 0 <= j < n && #[trigger] threads[j].thread.tid == k;
                assert(appears(threads, k, n - 1));
            }
            if appears(threads, k, n - 1) {
                let j = choose|j: int| 0 <= j < n - 1 && #[trigger] threads[j].thread.tid == k;
                assert(appears(threads, k, n));
            }
            if last_sample_over(threads, k, threshold, n) {
                let i = choose|i: int|
                    0 <= i < n && #[trigger] threads[i].thread.tid == k && threads[i].cpu
                        >= threshold && forall|j: int| i < j < n ==> #[trigger] threads[j].thread.tid
                        != k;
                assert(i < n - 1);
                assert(last_sample_over(threads, k, threshold, n - 1));
            }
            if last_sample_over(threads, k, threshold, n - 1) {
                let i = choose|i: int|
                    0 <= i < n - 1 && #[trigger] threads[i].thread.tid == k && threads[i].cpu
                        >= threshold && forall|j: int| i < j < n - 1 ==> #[trigger] threads[j].thread.tid
                        != k;
                assert(forall|j: int| i < j < n ==> #[trigger] threads[j].thread.tid != k);
                assert(last_sample_over(threads, k, threshold, n));
            }
        }
    }
}

/// After a sample, a thread has a counter exactly when its last snapshot in
/// the sample is at or over the threshold; threads missing from the sample
/// lose their counter.
pub proof fn law_counter_kept_iff_last_sample_over(
    old: Map<Tid, BurningThread>,
    threads: Seq<SThreadCpuSnapshot>,
    threshold: u64,
    k: Tid,
)
    ensures
        checked(old, threads, threshold).0.contains_key(k) <==> last_sample_over(
            threads,
            k,
            threshold,
            threads.len() as int,
        ),
{
    let n = threads.len() as int;
    lemma_updated_dom(retained(old, threads, n), retained_max(old, threads, n), threads, threshold, n, k);
    lemma_retained_dom(old, threads, n, k);
}

/// When every thread appears once in the sample, the counter of a thread at
/// or over the threshold is its previous counter (0 if it had none) plus one,
/// capped at `MAX_DETECTS`.
pub proof fn law_counter_counts_consecutive_samples(
    old: Map<Tid, BurningThread>,
    threads: Seq<SThreadCpuSnapshot>,
    threshold: u64,
    i: int,
)
    requires
        forall|a: int, b: int|
            0 <= a < b < threads.len() ==> #[trigger] threads[a].thread.tid
                != #[trigger] threads[b].thread.tid,
        0 <= i < threads.len(),
        threads[i].cpu >= threshold,
    ensures
        ({
            let k = threads[i].thread.tid;
            let m = checked(old, threads, threshold).0;
            &&& m.contains_key(k)
            &&& m[k].num_burning == inc_count(
                if old.contains_key(k) {
                    old[k].num_burning
                } else {
                    0
                },
            )
        }),
{
    let n = threads.len() as int;
    let k = threads[i].thread.tid;
    let m0 = retained(old, threads, n);
    let mx0 = retained_max(old, threads, n);
    assert forall|j: int| i + 1 <= j < n implies #[trigger] threads[j].thread.tid != k by {
        assert(threads[i].thread.tid != threads[j].thread.tid);
    }
    lemma_updated_untouched(m0, mx0, threads, threshold, i + 1, n, k);
    assert forall|j: int| 0 <= j < i implies #[trigger] threads[j].thread.tid != k by {
        assert(threads[j].thread.tid != threads[i].thread.tid);
    }
    lemma_updated_untouched(m0, mx0, threads, threshold, 0, i, k);
    lemma_retained_dom(old, threads, n, k);
    assert(appears(threads, k, n));
}

/// Every counter left by a sample is at most the recorded maximum, which is
/// at most `MAX_DETECTS`.
pub proof fn law_max_bounds_counters(
    old: Map<Tid, BurningThread>,
    threads: Seq<SThreadCpuSnapshot>,
    threshold: u64,
)
    requires
        burnings_wf(old),
    ensures
        ({
            let (m, mx) = checked(old, threads, threshold);
            &&& burnings_wf(m)
            &&& mx <= MAX_DETECTS
            &&& forall|k: Tid| #![trigger m[k]] m.contains_key(k) ==> m[k].num_burning <= mx
        }),
{
    let n = threads.len() as int;
    lemma_retained(old, threads, n);
    lemma_updated(retained(old, threads, n), retained_max(old, threads, n), threads, threshold, n);
}

/// A sample in which no thread reaches the threshold clears every counter,
/// and the decision that follows it never asks for the callback.
pub proof fn law_cold_sample_clears_and_stays_quiet(
    old: Map<Tid, BurningThread>,
    threads: Seq<SThreadCpuSnapshot>,
    threshold: u64,
    state: Option<DetectorState>,
)
    requires
        forall|i: int| 0 <= i < threads.len() ==> #[trigger] threads[i].cpu < threshold,
    ensures
        checked(old, threads, threshold).0 == Map::<Tid, BurningThread>::empty(),
        !decide(
            state,
            checked(old, threads, threshold).0.len() > 0,
            checked(old, threads, threshold).1,
        ).2,
{
    let m = checked(old, threads, threshold).0;
    assert forall|k: Tid| !m.contains_key(k) by {
        law_counter_kept_iff_last_sample_over(old, threads, threshold, k);
        if last_sample_over(threads, k, threshold, threads.len() as int) {
            let i = choose|i: int|
                0 <= i < threads.len() && #[trigger] threads[i].thread.tid == k && threads[i].cpu
                    >= threshold && forall|j: int|
                    i < j < threads.len() ==> #[trigger] threads[j].thread.tid != k;
            assert(threads[i].cpu < threshold);
        }
    }
    assert(m =~= Map::<Tid, BurningThread>::empty());
}

/// The callback is only ever asked for when some thread has a counter and
/// the largest counter of the sample has reached `MAX_DETECTS`.
pub proof fn law_callback_needs_full_count(
    state: Option<DetectorState>,
    has_burning: bool,
    curr_max: u8,
)
    ensures
        decide(state, has_burning, curr_max).2 ==> has_burning && curr_max >= MAX_DETECTS,
{
}

/// The callback is asked for exactly when the detector is (then) in the
/// confirming or the burning phase.
pub proof fn law_callback_iff_confirming_or_burning(
    state: Option<DetectorState>,
    has_burning: bool,
    curr_max: u8,
)
    ensures
        decide(state, has_burning, curr_max).2 <==> (decide(state, has_burning, curr_max).0 matches Some(
            DetectorState::Confirming { .. } | DetectorState::Burning { .. },
        )),
{
}

/// A reset to the ready state waits one unit interval and never asks for
/// the callback; the idle, detecting and confirming phases sample again
/// without waiting.
pub proof fn law_interval_by_phase(
    state: Option<DetectorState>,
    has_burning: bool,
    curr_max: u8,
)
    ensures
        ({
            let d = decide(state, has_burning, curr_max);
            &&& d.0 is None ==> d.1 == 1 && !d.2
            &&& d.0 matches Some(DetectorState::Idle | DetectorState::Detecting { .. } | DetectorState::Confirming { .. }) ==> d.1 == 0
            &&& d.0 matches Some(DetectorState::Burning { last_units }) ==> d.1 == last_units
        }),
{
}

/// While a thread keeps burning, each sample in the burning phase doubles
/// the back-off multiplier, up to `MAX_BURNING_UNITS`; it never shrinks.
pub proof fn law_burning_backoff(last_units: u32, curr_max: u8)
    requires
        1 <= last_units <= MAX_BURNING_UNITS,
        curr_max >= MAX_DETECTS,
    ensures
        ({
            let d = decide(Some(DetectorState::Burning { last_units }), true, curr_max);
            &&& d.0 == Some(DetectorState::Burning { last_units: d.1 })
            &&& d.2
            &&& last_units <= d.1 <= MAX_BURNING_UNITS
            &&& d.1 == if 2 * last_units <= MAX_BURNING_UNITS {
                2 * last_units
            } else {
                MAX_BURNING_UNITS as int
            }
        }),
{
}

/// From the ready state, the first two decisions never ask for the
/// callback, whatever the samples show.
pub proof fn law_quiet_first_two_samples(h1: bool, m1: u8, h2: bool, m2: u8)
    ensures
        ({
            let d1 = decide(None, h1, m1);
            let d2 = decide(d1.0, h2, m2);
            !d1.2 && !d2.2
        }),
{
}

// ---------------------------------------------------------------------------
// Several samples
// ---------------------------------------------------------------------------

/// Thread `k` is in the sample, and every snapshot of it is at or over the threshold.
pub open spec fn all_hot(threads: Seq<SThreadCpuSnapshot>, k: Tid, threshold: u64) -> bool {
    &&& appears(threads, k, threads.len() as int)
    &&& forall|i: int|
        0 <= i < threads.len() && #[trigger] threads[i].thread.tid == k ==> threads[i].cpu
            >= threshold
}

/// The counter of `k` in `m`, 0 if it has none.
pub open spec fn count_of(m: Map<Tid, BurningThread>, k: Tid) -> u8 {
    if m.contains_key(k) {
        m[k].num_burning
    } else {
        0
    }
}

proof fn lemma_retained_finite(old: Map<Tid, BurningThread>, threads: Seq<SThreadCpuSnapshot>, n: int)
    ensures
        retained(old, threads, n).dom().finite(),
    decreases n,
{
    if n > 0 {
        lemma_retained_finite(old, threads, n - 1);
    }
}

proof fn lemma_updated_finite(
    m0: Map<Tid, BurningThread>,
    mx0: u8,
    threads: Seq<SThreadCpuSnapshot>,
    threshold: u64,
    n: int,
)
    requires
        m0.dom().finite(),
    ensures
        updated(m0, mx0, threads, threshold, n).0.dom().finite(),
    decreases n,
{
    if n > 0 {
        lemma_updated_finite(m0, mx0, threads, threshold, n - 1);
    }
}

/// While every snapshot of `k` is hot, the samples so far leave `k` a
/// counter of at least one more than it had before the sample.
proof fn lemma_hot_prefix(
    old: Map<Tid, BurningThread>,
    threads: Seq<SThreadCpuSnapshot>,
    threshold: u64,
    k: Tid,
    n: int,
)
    requires
        burnings_wf(old),
        all_hot(threads, k, threshold),
        0 <= n <= threads.len(),
    ensures
        ({
            let len = threads.len() as int;
            let m0 = retained(old, threads, len);
            let p = updated(m0, retained_max(old, threads, len), threads, threshold, n);
            &&& appears(threads, k, n) ==> p.0.contains_key(k) && p.0[k].num_burning >= inc_count(
                count_of(old, k),
            )
            &&& !appears(threads, k, n) ==> count_of(p.0, k) == count_of(old, k)
        }),
    decreases n,
{
    let len = threads.len() as int;
    let m0 = retained(old, threads, len);
    let mx0 = retained_max(old, threads, len);
    lemma_retained_dom(old, threads, len, k);
    if n > 0 {
        lemma_hot_prefix(old, threads, threshold, k, n - 1);
        let t = threads[n - 1];
        let before = updated(m0, mx0, threads, threshold, n - 1).0;
        if t.thread.tid == k {
            assert(appears(threads, k, n));
            assert(t.cpu >= threshold);
            if appears(threads, k, n - 1) {
                assert(count_of(before, k) >= inc_count(count_of(old, k)));
            } else {
                assert(count_of(before, k) == count_of(old, k));
            }
            assert(old.contains_key(k) ==> old[k].num_burning <= MAX_DETECTS);
        } else {
            if appears(threads, k, n) {
                let j = choose|j: int| 0 <= j < n && #[trigger] threads[j].thread.tid == k;
                assert(appears(threads, k, n - 1));
            }
            if appears(threads, k, n - 1) {
                let j = choose|j: int| 0 <= j < n - 1 && #[trigger] threads[j].thread.tid == k;
                assert(appears(threads, k, n));
            }
        }
    } else {
        if old.contains_key(k) {
            assert(m0.contains_key(k));
        }
    }
}

/// A sample in which every snapshot of `k` is hot leaves `k` a counter one
/// higher than before (capped), no higher than the maximum.
proof fn lemma_hot_sample(v: MonitorView, threads: Seq<SThreadCpuSnapshot>, k: Tid)
    requires
        v.wf(),
        all_hot(threads, k, v.threshold),
    ensures
        ({
            let (m, mx) = checked(v.burnings, threads, v.threshold);
            &&& m.contains_key(k)
            &&& m[k].num_burning >= inc_count(count_of(v.burnings, k))
            &&& m[k].num_burning <= mx <= MAX_DETECTS
            &&& m.len() > 0
        }),
{
    let len = threads.len() as int;
    lemma_hot_prefix(v.burnings, threads, v.threshold, k, len);
    law_max_bounds_counters(v.burnings, threads, v.threshold);
    lemma_retained_finite(v.burnings, threads, len);
    lemma_updated_finite(
        retained(v.burnings, threads, len),
        retained_max(v.burnings, threads, len),
        threads,
        v.threshold,
        len,
    );
    let m = checked(v.burnings, threads, v.threshold).0;
    vstd::set::axiom_set_remove_len(m.dom(), k);
}

proof fn lemma_step_wf(v: MonitorView, threads: Seq<SThreadCpuSnapshot>)
    requires
        v.wf(),
    ensures
        sample_step(v, threads).0.wf(),
        sample_step(v, threads).0.threshold == v.threshold,
{
    law_max_bounds_counters(v.burnings, threads, v.threshold);
    let (m, mx) = checked(v.burnings, threads, v.threshold);
    lemma_decide_wf(v.state, m.len() > 0, mx);
}

proof fn lemma_run_wf(v0: MonitorView, samples: Seq<Seq<SThreadCpuSnapshot>>, n: int)
    requires
        v0.wf(),
    ensures
        state_after(v0, samples, n).wf(),
        state_after(v0, samples, n).threshold == v0.threshold,
    decreases n,
{
    if n > 0 {
        lemma_run_wf(v0, samples, n - 1);
        lemma_step_wf(state_after(v0, samples, n - 1), samples[n - 1]);
    }
}

/// After `j + 1` hot samples in a row, `k` has a counter of at least
/// `min(j + 1, MAX_DETECTS)`, and some counter exists.
proof fn lemma_hot_run(v0: MonitorView, samples: Seq<Seq<SThreadCpuSnapshot>>, k: Tid, j: int)
    requires
        v0.wf(),
        0 <= j < samples.len(),
        forall|a: int| 0 <= a <= j ==> all_hot(#[trigger] samples[a], k, v0.threshold),
    ensures
        ({
            let v = state_after(v0, samples, j + 1);
            &&& v.burnings.contains_key(k)
            &&& v.burnings[k].num_burning >= if j >= 2 {
                3
            } else {
                j + 1
            }
            &&& v.burnings[k].num_burning <= v.curr_max
            &&& v.burnings.len() > 0
        }),
    decreases j,
{
    lemma_run_wf(v0, samples, j);
    assert(all_hot(samples[j], k, v0.threshold));
    lemma_hot_sample(state_after(v0, samples, j), samples[j], k);
    if j > 0 {
        lemma_hot_run(v0, samples, k, j - 1);
    }
}

/// From here on the detector calls back on the next hot sample.
pub open spec fn calls_back_next(s: Option<DetectorState>) -> bool {
    s matches Some(
        DetectorState::Detecting { num: 2 } | DetectorState::Confirming { .. }
        | DetectorState::Burning { .. },
    )
}

proof fn lemma_hot_phases(s: Option<DetectorState>)
    requires
        state_wf(s),
    ensures
        decide(s, true, MAX_DETECTS).0 matches Some(
            DetectorState::Detecting { .. } | DetectorState::Confirming { .. }
            | DetectorState::Burning { .. },
        ),
        (s matches Some(
            DetectorState::Detecting { .. } | DetectorState::Confirming { .. }
            | DetectorState::Burning { .. },
        )) ==> calls_back_next(decide(s, true, MAX_DETECTS).0),
        calls_back_next(s) ==> calls_back_next(decide(s, true, MAX_DETECTS).0) && decide(
            s,
            true,
            MAX_DETECTS,
        ).2,
{
}

/// Once `k` has been hot in three samples in a row, each further hot sample
/// is decided with some counter present and a maximum of `MAX_DETECTS`.
proof fn lemma_hot_decision(v0: MonitorView, samples: Seq<Seq<SThreadCpuSnapshot>>, k: Tid, j: int)
    requires
        v0.wf(),
        2 <= j < samples.len(),
        forall|a: int| 0 <= a <= j ==> all_hot(#[trigger] samples[a], k, v0.threshold),
    ensures
        ({
            let v = state_after(v0, samples, j);
            let (m, mx) = checked(v.burnings, samples[j], v.threshold);
            &&& m.len() > 0
            &&& mx == MAX_DETECTS
            &&& sample_step(v, samples[j]).1 == decide(v.state, true, MAX_DETECTS).2
            &&& state_after(v0, samples, j + 1).state == decide(v.state, true, MAX_DETECTS).0
        }),
{
    lemma_hot_run(v0, samples, k, j);
    lemma_run_wf(v0, samples, j + 1);
}

proof fn lemma_calls_back_next(v0: MonitorView, samples: Seq<Seq<SThreadCpuSnapshot>>, k: Tid, i: int)
    requires
        v0.wf(),
        4 <= i <= samples.len(),
        forall|a: int| 0 <= a < i ==> all_hot(#[trigger] samples[a], k, v0.threshold),
    ensures
        calls_back_next(state_after(v0, samples, i).state),
    decreases i,
{
    lemma_run_wf(v0, samples, i - 1);
    lemma_run_wf(v0, samples, i - 2);
    lemma_hot_decision(v0, samples, k, i - 1);
    if i == 4 {
        lemma_run_wf(v0, samples, 2);
        lemma_hot_decision(v0, samples, k, 2);
        lemma_hot_phases(state_after(v0, samples, 2).state);
        lemma_hot_phases(state_after(v0, samples, 3).state);
    } else {
        lemma_calls_back_next(v0, samples, k, i - 1);
        lemma_hot_phases(state_after(v0, samples, i - 1).state);
    }
}

/// A thread whose every snapshot is at or over the threshold in five
/// samples in a row makes the detector call back on the fifth sample, and on
/// every further sample as long as it stays that hot, whatever state the
/// detector started in.
pub proof fn law_persistent_burning_calls_back(
    v0: MonitorView,
    samples: Seq<Seq<SThreadCpuSnapshot>>,
    k: Tid,
    i: int,
)
    requires
        v0.wf(),
        4 <= i < samples.len(),
        forall|a: int| 0 <= a <= i ==> all_hot(#[trigger] samples[a], k, v0.threshold),
    ensures
        callback_at(v0, samples, i),
{
    lemma_calls_back_next(v0, samples, k, i);
    lemma_run_wf(v0, samples, i);
    lemma_hot_decision(v0, samples, k, i);
    lemma_hot_phases(state_after(v0, samples, i).state);
}

// ---------------------------------------------------------------------------
// Resets and the maximum
// ---------------------------------------------------------------------------

/// A sample that leaves no thread with a counter ends any detecting,
/// confirming or burning phase: the detector goes back to the ready state,
/// waits exactly one unit interval and does not call back. From the ready
/// state it goes to idle, and from idle to detecting, without waiting.
pub proof fn law_no_counter_resets(s: DetectorState, curr_max: u8)
    ensures
        !(s is Idle) ==> decide(Some(s), false, curr_max) == (None::<DetectorState>, 1u32, false),
        decide(None, false, curr_max) == (Some(DetectorState::Idle), 0u32, false),
        decide(Some(DetectorState::Idle), false, curr_max) == (
            Some(DetectorState::Detecting { num: 1 }),
            0u32,
            false,
        ),
{
}

/// Every snapshot in the sample is of a different thread.
pub open spec fn distinct_threads(threads: Seq<SThreadCpuSnapshot>) -> bool {
    forall|a: int, b: int|
        0 <= a < b < threads.len() ==> #[trigger] threads[a].thread.tid != #[trigger] threads[b].thread.tid
}

/// `mx` is the largest of the old counters of the threads in the sample and
/// of the new counters, or 0 when there is none.
pub open spec fn is_largest_count(
    mx: u8,
    old: Map<Tid, BurningThread>,
    threads: Seq<SThreadCpuSnapshot>,
    m: Map<Tid, BurningThread>,
) -> bool {
    &&& forall|k: Tid|
        #![trigger old[k]]
        old.contains_key(k) && appears(threads, k, threads.len() as int) ==> old[k].num_burning <= mx
    &&& forall|k: Tid| #![trigger m[k]] m.contains_key(k) ==> m[k].num_burning <= mx
    &&& (mx == 0 || exists|k: Tid|
        #![trigger old[k]]
        #![trigger m[k]]
        (old.contains_key(k) && appears(threads, k, threads.len() as int) && old[k].num_burning == mx)
            || (m.contains_key(k) && m[k].num_burning == mx))
}

proof fn lemma_retained_max_reached(
    old: Map<Tid, BurningThread>,
    threads: Seq<SThreadCpuSnapshot>,
    n: int,
)
    requires
        0 <= n <= threads.len(),
    ensures
        retained_max(old, threads, n) == 0 || exists|k: Tid|
            retained(old, threads, n).contains_key(k) && #[trigger] retained(old, threads, n)[k].num_burning
                == retained_max(old, threads, n),
    decreases n,
{
    if n > 0 {
        lemma_retained_max_reached(old, threads, n - 1);
        let r = retained(old, threads, n - 1);
        let k = threads[n - 1].thread.tid;
        if retained_max(old, threads, n) != 0 {
            if old.contains_key(k) && retained_max(old, threads, n - 1) < old[k].num_burning {
                assert(retained(old, threads, n)[k].num_burning == retained_max(old, threads, n));
            } else {
                let k2 = choose|k2: Tid|
                    r.contains_key(k2) && #[trigger] r[k2].num_burning == retained_max(
                        old,
                        threads,
                        n - 1,
                    );
                if old.contains_key(k) {
                    if k2 == k {
                        assert(retained(old, threads, n)[k].num_burning == old[k].num_burning);
                        assert(r[k] == old[k]) by {
                            lemma_retained_dom(old, threads, n - 1, k);
                        }
                    }
                }
                assert(retained(old, threads, n)[k2].num_burning == retained_max(old, threads, n));
            }
        }
    }
}

/// Over the first `n` samples the maximum only grows, and it is either the
/// starting maximum or the counter that some hot snapshot set.
proof fn lemma_updated_max_reached(
    m0: Map<Tid, BurningThread>,
    mx0: u8,
    threads: Seq<SThreadCpuSnapshot>,
    threshold: u64,
    n: int,
)
    requires
        0 <= n <= threads.len(),
    ensures
        ({
            let p = updated(m0, mx0, threads, threshold, n);
            &&& mx0 <= p.1
            &&& p.1 == mx0 || exists|j: int|
                0 <= j < n && threads[j].cpu >= threshold && #[trigger] updated(
                    m0,
                    mx0,
                    threads,
                    threshold,
                    j + 1,
                ).0[threads[j].thread.tid].num_burning == p.1 && updated(
                    m0,
                    mx0,
                    threads,
                    threshold,
                    j + 1,
                ).0.contains_key(threads[j].thread.tid)
        }),
    decreases n,
{
    if n > 0 {
        lemma_updated_max_reached(m0, mx0, threads, threshold, n - 1);
        let p = updated(m0, mx0, threads, threshold, n - 1);
        let q = updated(m0, mx0, threads, threshold, n);
        if q.1 != p.1 {
            assert(updated(m0, mx0, threads, threshold, (n - 1) + 1).0[threads[n - 1].thread.tid].num_burning
                == q.1);
        } else if q.1 != mx0 {
            let j = choose|j: int|
                0 <= j < n - 1 && threads[j].cpu >= threshold && #[trigger] updated(
                    m0,
                    mx0,
                    threads,
                    threshold,
                    j + 1,
                ).0[threads[j].thread.tid].num_burning == p.1 && updated(
                    m0,
                    mx0,
                    threads,
                    threshold,
                    j + 1,
                ).0.contains_key(threads[j].thread.tid);
            assert(0 <= j < n);
        }
    }
}

/// The maximum recorded by a sample is at least the old counter of every
/// thread in the sample and every new counter; when each thread appears
/// once in the sample, it is exactly the largest of these (0 if none).
pub proof fn law_max_is_largest_count(
    old: Map<Tid, BurningThread>,
    threads: Seq<SThreadCpuSnapshot>,
    threshold: u64,
)
    requires
        burnings_wf(old),
    ensures
        ({
            let (m, mx) = checked(old, threads, threshold);
            &&& forall|k: Tid|
                #![trigger old[k]]
                old.contains_key(k) && appears(threads, k, threads.len() as int) ==> old[k].num_burning
                    <= mx
            &&& forall|k: Tid| #![trigger m[k]] m.contains_key(k) ==> m[k].num_burning <= mx
            &&& distinct_threads(threads) ==> is_largest_count(mx, old, threads, m)
        }),
{
    let n = threads.len() as int;
    let m0 = retained(old, threads, n);
    let mx0 = retained_max(old, threads, n);
    let (m, mx) = checked(old, threads, threshold);
    lemma_retained(old, threads, n);
    lemma_updated(m0, mx0, threads, threshold, n);
    lemma_updated_max_reached(m0, mx0, threads, threshold, n);
    assert forall|k: Tid| old.contains_key(k) && appears(threads, k, n) implies #[trigger] old[k].num_burning
        <= mx by {
        lemma_retained_dom(old, threads, n, k);
    }
    if distinct_threads(threads) && mx != 0 {
        if mx == mx0 {
            lemma_retained_max_reached(old, threads, n);
            let k = choose|k: Tid| m0.contains_key(k) && #[trigger] m0[k].num_burning == mx0;
            lemma_retained_dom(old, threads, n, k);
            assert(old[k].num_burning == mx);
            assert(old.contains_key(k) && appears(threads, k, threads.len() as int));
        } else {
            let j = choose|j: int|
                0 <= j < n && threads[j].cpu >= threshold && #[trigger] updated(
                    m0,
                    mx0,
                    threads,
                    threshold,
                    j + 1,
                ).0[threads[j].thread.tid].num_burning == mx && updated(
                    m0,
                    mx0,
                    threads,
                    threshold,
                    j + 1,
                ).0.contains_key(threads[j].thread.tid);
            let k = threads[j].thread.tid;
            assert forall|x: int| j + 1 <= x < n implies #[trigger] threads[x].thread.tid != k by {
                assert(threads[j].thread.tid != threads[x].thread.tid);
            }
            lemma_updated_untouched(m0, mx0, threads, threshold, j + 1, n, k);
            assert(m.contains_key(k) && m[k].num_burning == mx);
        }
    }
}

/// The phase a detector is in after `i + 1` samples in a row, taken from the
/// ready state, in which some thread stays hot: two detecting samples, two
/// confirming ones, then burning with a back-off of `2^(i - 3)` units,
/// capped at `MAX_BURNING_UNITS`.
pub open spec fn phase_after_hot_run(i: int) -> Option<DetectorState> {
    if i == 0 {
        Some(DetectorState::Detecting { num: 1 })
    } else if i == 1 {
        Some(DetectorState::Detecting { num: 2 })
    } else if i == 2 {
        Some(DetectorState::Confirming { num: 1 })
    } else if i == 3 {
        Some(DetectorState::Confirming { num: 2 })
    } else {
        let p = vstd::arithmetic::power2::pow2((i - 3) as nat);
        Some(
            DetectorState::Burning {
                last_units: if p < MAX_BURNING_UNITS {
                    p as u32
                } else {
                    MAX_BURNING_UNITS
                },
            },
        )
    }
}

/// From the ready state, a thread whose every snapshot is at or over the
/// threshold sample after sample drives the detector through two detecting
/// samples, two confirming ones and then burning, doubling its back-off each
/// time up to the cap; the callback is due from the third sample on, and not
/// before.
pub proof fn law_hot_run_from_ready(
    v0: MonitorView,
    samples: Seq<Seq<SThreadCpuSnapshot>>,
    k: Tid,
    i: int,
)
    requires
        v0.wf(),
        v0.state is None,
        0 <= i < samples.len(),
        forall|a: int| 0 <= a <= i ==> all_hot(#[trigger] samples[a], k, v0.threshold),
    ensures
        state_after(v0, samples, i + 1).state == phase_after_hot_run(i),
        callback_at(v0, samples, i) <==> i >= 2,
    decreases i,
{
    lemma_run_wf(v0, samples, i);
    assert(all_hot(samples[i], k, v0.threshold));
    lemma_hot_sample(state_after(v0, samples, i), samples[i], k);
    if i > 0 {
        law_hot_run_from_ready(v0, samples, k, i - 1);
    }
    if i >= 2 {
        lemma_hot_decision(v0, samples, k, i);
    }
    if i >= 5 {
        let e = (i - 3) as nat;
        vstd::arithmetic::power2::lemma_pow2_unfold(e);
    }
    if i == 4 {
        vstd::arithmetic::power2::lemma_pow2_unfold(1);
        assert(vstd::arithmetic::power2::pow2(0) == 1) by {
            vstd::arithmetic::power2::lemma2_to64();
        }
    }
}

} // verus!
