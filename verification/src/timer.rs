//! Per-stage profiling accumulators.
//!
//! The accumulators do not read a clock: the caller measures, and hands in
//! what it measured.

use vstd::prelude::*;

verus! {

/// Accumulates the time spent in one stage of a pipeline, and how often the
/// stage ran.
pub struct Timer {
    name: &'static str,
    total_micros: u64,
    count: u64,
}

/// Counts ticks, and reports how many there were each time an interval has
/// gone by.
pub struct FpsCounter {
    name: &'static str,
    interval_millis: u64,
    started_millis: u64,
    ticks: u32,
}

/// The sum `a + b`, or the largest `u64` where the sum is larger.
pub open spec fn saturating_sum(a: u64, b: u64) -> u64 {
    if a + b > u64::MAX {
        u64::MAX
    } else {
        (a + b) as u64
    }
}

impl Timer {
    /// The label of the stage.
    pub closed spec fn label(&self) -> Seq<char> {
        self.name@
    }

    /// The time accumulated, in microseconds.
    pub closed spec fn spec_total(&self) -> u64 {
        self.total_micros
    }

    /// The number of measurements accumulated.
    pub closed spec fn spec_count(&self) -> u64 {
        self.count
    }

    /// Creates a timer for the stage `name`, with nothing accumulated.
    pub fn new(name: &'static str) -> (timer: Timer)
        ensures
            timer.label() == name@,
            timer.spec_total() == 0,
            timer.spec_count() == 0,
    {
        Timer { name, total_micros: 0, count: 0 }
    }

    /// Returns the label of the stage.
    pub fn name(&self) -> (name: &'static str)
        ensures
            name@ == self.label(),
    {
        self.name
    }

    /// Adds one measurement of `micros` microseconds. The sums stop at the
    /// largest number they can hold.
    pub fn record(&mut self, micros: u64)
        ensures
            final(self).label() == old(self).label(),
            final(self).spec_total() == saturating_sum(old(self).spec_total(), micros),
            final(self).spec_count() == saturating_sum(old(self).spec_count(), 1),
    {
        self.total_micros = if micros > u64::MAX - self.total_micros {
            u64::MAX
        } else {
            self.total_micros + micros
        };
        self.count = if self.count == u64::MAX {
            u64::MAX
        } else {
            self.count + 1
        };
    }

    /// Returns the time accumulated, in microseconds.
    #[verifier::when_used_as_spec(spec_total)]
    pub fn total(&self) -> (total: u64)
        ensures
            total == self.spec_total(),
    {
        self.total_micros
    }

    /// Returns the number of measurements accumulated.
    #[verifier::when_used_as_spec(spec_count)]
    pub fn count(&self) -> (count: u64)
        ensures
            count == self.spec_count(),
    {
        self.count
    }

    /// Returns the average measurement in microseconds, rounded down, or
    /// `None` where there is no measurement.
    pub fn average(&self) -> (average: Option<u64>)
        ensures
            self.spec_count() == 0 ==> average is None,
            self.spec_count() > 0 ==> average == Some(
                (self.spec_total() / self.spec_count()) as u64,
            ),
    {
        if self.count == 0 {
            None
        } else {
            Some(self.total_micros / self.count)
        }
    }

    /// Forgets what was accumulated.
    pub fn reset(&mut self)
        ensures
            final(self).label() == old(self).label(),
            final(self).spec_total() == 0,
            final(self).spec_count() == 0,
    {
        self.total_micros = 0;
        self.count = 0;
    }
}

impl FpsCounter {
    /// The label of what is counted.
    pub closed spec fn label(&self) -> Seq<char> {
        self.name@
    }

    /// The length of an interval, in milliseconds.
    pub closed spec fn interval(&self) -> u64 {
        self.interval_millis
    }

    /// The time at which the running interval began, in milliseconds.
    pub closed spec fn started(&self) -> u64 {
        self.started_millis
    }

    /// The number of ticks in the running interval.
    pub closed spec fn ticks(&self) -> u32 {
        self.ticks
    }

    /// Creates a counter whose first interval of `interval_millis`
    /// milliseconds begins at `now_millis`.
    pub fn new(name: &'static str, interval_millis: u64, now_millis: u64) -> (counter: FpsCounter)
        ensures
            counter.label() == name@,
            counter.interval() == interval_millis,
            counter.started() == now_millis,
            counter.ticks() == 0,
    {
        FpsCounter { name, interval_millis, started_millis: now_millis, ticks: 0 }
    }

    /// Returns the label of what is counted.
    pub fn name(&self) -> (name: &'static str)
        ensures
            name@ == self.label(),
    {
        self.name
    }

    /// Counts one tick at the time `now_millis`. Where the running interval
    /// has gone by, returns the number of ticks in it, this one included,
    /// and begins the next interval at `now_millis`; the caller then reports
    /// the number together with the averages of its timers, and resets
    /// them.
    pub fn tick(&mut self, now_millis: u64) -> (report: Option<u32>)
        ensures
            final(self).label() == old(self).label(),
            final(self).interval() == old(self).interval(),
            now_millis - old(self).started() >= old(self).interval() ==> {
                &&& report == Some(saturating_ticks(old(self).ticks()))
                &&& final(self).started() == now_millis
                &&& final(self).ticks() == 0
            },
            now_millis - old(self).started() < old(self).interval() ==> {
                &&& report is None
                &&& final(self).started() == old(self).started()
                &&& final(self).ticks() == saturating_ticks(old(self).ticks())
            },
    {
        let ticks = if self.ticks == u32::MAX {
            u32::MAX
        } else {
            self.ticks + 1
        };
        if now_millis >= self.started_millis && now_millis - self.started_millis
            >= self.interval_millis {
            self.started_millis = now_millis;
            self.ticks = 0;
            Some(ticks)
        } else {
            self.ticks = ticks;
            None
        }
    }
}

/// One tick more than `ticks`, or the largest `u32` where there is none.
pub open spec fn saturating_ticks(ticks: u32) -> u32 {
    if ticks == u32::MAX {
        u32::MAX
    } else {
        (ticks + 1) as u32
    }
}

} // verus!
