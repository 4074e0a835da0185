//! An adaptive regulator that bounds the time spent in one receive or one
//! send pass. Instants are nanosecond counts of a monotonic clock, read by
//! the caller and handed in.
use vstd::prelude::*;

verus! {

/// One cycle in this many measures the cost of a unit of work afresh.
pub const SAMPLING_INTERVAL: u64 = 256;

/// Work limiter state. In a measuring cycle the wall clock decides; in the
/// others, the count of units that the last measurement allows.
#[derive(Clone, Copy, Debug)]
pub struct WorkLimiter {
    /// Whether the current cycle measures elapsed time.
    pub measuring: bool,
    /// Cycles started, modulo the sampling interval.
    pub cycle: u64,
    /// Instant at which the current measuring cycle began.
    pub start: u64,
    /// Units of work recorded in the current cycle.
    pub completed: u64,
    /// Units of work a cycle may do when it does not measure.
    pub allowed: u64,
    /// The time budget of one cycle, in nanoseconds.
    pub budget: u64,
    /// Smoothed cost of one unit in nanoseconds; zero before the first sample.
    pub nanos_per_item: u64,
}

/// Time from `start` to `now`; a clock that reads earlier counts as no time.
pub open spec fn elapsed(start: u64, now: u64) -> u64 {
    if now >= start { (now - start) as u64 } else { 0 }
}

/// New smoothed cost: the sample itself at first, then an exponential
/// average that gives the sample one eighth of the weight.
pub open spec fn smoothed(old_cost: u64, sample: u64) -> u64 {
    if old_cost == 0 { sample } else { ((7 * old_cost + sample) / 8) as u64 }
}

/// Units that fit in the budget at a given cost, at least one.
pub open spec fn units_in_budget(budget: u64, cost: u64) -> u64 {
    if cost == 0 || budget / cost == 0 { 1 } else { (budget / cost) as u64 }
}

/// A limiter after its cycle ends at `now`: a measuring cycle that did some
/// work turns its time into a new cost and allowance and stops measuring;
/// any other cycle leaves the limiter as it is.
pub open spec fn finished(l: WorkLimiter, now: u64) -> WorkLimiter {
    if l.completed > 0 && l.measuring {
        let sample = elapsed(l.start, now) / l.completed;
        let cost = smoothed(l.nanos_per_item, if sample == 0 { 1 } else { sample });
        WorkLimiter { measuring: false, nanos_per_item: cost, allowed: units_in_budget(l.budget, cost), ..l }
    } else {
        l
    }
}

/// A limiter after `work` more units are recorded (saturating).
pub open spec fn worked(l: WorkLimiter, work: u64) -> WorkLimiter {
    WorkLimiter {
        completed: if l.completed + work > u64::MAX { u64::MAX } else { (l.completed + work) as u64 },
        ..l
    }
}

impl WorkLimiter {
    pub open spec fn wf(&self) -> bool {
        &&& self.cycle < SAMPLING_INTERVAL
        &&& self.allowed >= 1
    }

    /// Whether more work may be done in the current cycle at `now`.
    pub open spec fn allows(&self, now: u64) -> bool {
        if self.measuring {
            elapsed(self.start, now) < self.budget
        } else {
            self.completed < self.allowed
        }
    }

    /// A limiter with the given per-cycle budget; its first cycle measures.
    pub fn new(budget: u64) -> (r: WorkLimiter)
        ensures
            r.wf(),
            r.budget == budget,
            r.measuring,
            r.cycle == 0,
            r.completed == 0,
            r.nanos_per_item == 0,
    {
        WorkLimiter {
            measuring: true,
            cycle: 0,
            start: 0,
            completed: 0,
            allowed: 1,
            budget,
            nanos_per_item: 0,
        }
    }

    /// Begins a cycle: the work count restarts, and every
    /// `SAMPLING_INTERVAL`-th cycle measures, starting its clock at `now`.
    pub fn start_cycle(&mut self, now: u64)
        requires
            old(self).wf(),
        ensures
            final(self).wf(),
            final(self).completed == 0,
            final(self).cycle == (old(self).cycle + 1) % (SAMPLING_INTERVAL as int),
            old(self).cycle == 0 ==> final(self).measuring && final(self).start == now,
            old(self).cycle != 0 ==> final(self).measuring == old(self).measuring
                && final(self).start == old(self).start,
            final(self).allowed == old(self).allowed,
            final(self).budget == old(self).budget,
            final(self).nanos_per_item == old(self).nanos_per_item,
    {
        self.completed = 0;
        if self.cycle == 0 {
            self.measuring = true;
            self.start = now;
        }
        self.cycle = (self.cycle + 1) % SAMPLING_INTERVAL;
    }

    /// Adds `work` units to the cycle's count (saturating).
    pub fn record_work(&mut self, work: u64)
        requires
            old(self).wf(),
        ensures
            final(self).wf(),
            *final(self) == worked(*old(self), work),
    {
        self.completed = self.completed.saturating_add(work);
    }

    /// Whether the cycle may go on at `now`.
    pub fn allow_work(&self, now: u64) -> (r: bool)
        ensures
            r == self.allows(now),
    {
        if self.measuring {
            let e: u64 = if now >= self.start { now - self.start } else { 0 };
            e < self.budget
        } else {
            self.completed < self.allowed
        }
    }

    /// Ends a cycle. A measuring cycle that did some work turns its time into
    /// a new cost estimate and a new allowance, and measuring stops.
    pub fn finish_cycle(&mut self, now: u64)
        requires
            old(self).wf(),
        ensures
            final(self).wf(),
            final(self).completed == old(self).completed,
            final(self).cycle == old(self).cycle,
            final(self).start == old(self).start,
            final(self).budget == old(self).budget,
            *final(self) == finished(*old(self), now),
    {
        if self.completed == 0 || !self.measuring {
            return;
        }
        let e: u64 = if now >= self.start { now - self.start } else { 0 };
        let s: u64 = e / self.completed;
        let sample: u64 = if s == 0 { 1 } else { s };
        let cost: u64 = if self.nanos_per_item == 0 {
            sample
        } else {
            let sum: u128 = 7 * (self.nanos_per_item as u128) + sample as u128;
            (sum / 8) as u64
        };
        let units: u64 = if cost == 0 || self.budget / cost == 0 { 1 } else { self.budget / cost };
        self.nanos_per_item = cost;
        self.allowed = units;
        self.measuring = false;
    }
}

/// A cycle cannot go on for ever: a measuring cycle stops once its budget of
/// time is spent, any other once it has done the units it is allowed, and
/// every allowance is at least one unit.
pub proof fn lemma_cycle_bounded(l: WorkLimiter, now: u64)
    requires
        l.wf(),
    ensures
        l.measuring && elapsed(l.start, now) >= l.budget ==> !l.allows(now),
        !l.measuring && l.completed >= l.allowed ==> !l.allows(now),
        !l.measuring && l.completed == 0 ==> l.allows(now),
{
}

/// A counted cycle goes on at most `allowed` times: each batch of at least
/// one unit of work that it may still follow raises the count by at least
/// one and leaves it below the allowance.
pub proof fn lemma_counted_cycle_progress(l: WorkLimiter, work: u64, now: u64)
    requires
        l.wf(),
        !l.measuring,
        work >= 1,
        worked(l, work).allows(now),
    ensures
        worked(l, work).completed >= l.completed + 1,
        worked(l, work).completed < l.allowed,
{
}

} // verus!
