//! Background synchronization scheduler: a cancellable repeating task that
//! runs the synchronization engine for every account at a configurable
//! interval.  The loop itself lives outside the crate; this module holds the
//! schedule state and its decisions, with idempotent start and stop.

use vstd::prelude::*;

verus! {

/// State of the background synchronization schedule.
#[derive(Clone, Copy, PartialEq, Eq, Structural, Debug)]
pub struct BackgroundScheduler {
    pub running: bool,
    /// Milliseconds between sync rounds.
    pub interval: u64,
    /// When the last round started; the baseline for the next tick.
    pub last_run: u64,
}

/// Schedule state after a start request at `now`: starting an already
/// running scheduler changes nothing.
pub open spec fn spec_start(s: BackgroundScheduler, now: u64) -> BackgroundScheduler {
    if s.running {
        s
    } else {
        BackgroundScheduler { running: true, interval: s.interval, last_run: now }
    }
}

/// Schedule state after a stop request: stopping a stopped scheduler
/// changes nothing.
pub open spec fn spec_stop(s: BackgroundScheduler) -> BackgroundScheduler {
    BackgroundScheduler { running: false, interval: s.interval, last_run: s.last_run }
}

impl BackgroundScheduler {
    /// A stopped scheduler with the given interval.
    pub fn new(interval: u64) -> (r: BackgroundScheduler)
        ensures
            !r.running,
            r.interval == interval,
    {
        BackgroundScheduler { running: false, interval, last_run: 0 }
    }

    /// Start the schedule; a no-op when it is already running.
    pub fn start(&mut self, now: u64)
        ensures
            *final(self) == spec_start(*old(self), now),
            final(self).running,
    {
        if !self.running {
            self.running = true;
            self.last_run = now;
        }
    }

    /// Stop the schedule; a no-op when it is already stopped.  The running
    /// sync round, if any, finishes its current account before the loop
    /// observes the stop: cancellation happens between accounts only.
    pub fn stop(&mut self)
        ensures
            *final(self) == spec_stop(*old(self)),
            !final(self).running,
    {
        self.running = false;
    }

    /// Whether the next sync round is due at `now`.
    pub fn is_due(&self, now: u64) -> (r: bool)
        ensures
            r == (self.running && now >= self.last_run && now - self.last_run >= self.interval),
    {
        self.running && now >= self.last_run && now - self.last_run >= self.interval
    }

    /// Record that a sync round started at `now`.
    pub fn record_run(&mut self, now: u64)
        ensures
            final(self).running == old(self).running,
            final(self).interval == old(self).interval,
            final(self).last_run == now,
    {
        self.last_run = now;
    }
}

/// Starting is idempotent: a second start request changes nothing.
pub proof fn lemma_start_idempotent(s: BackgroundScheduler, now1: u64, now2: u64)
    ensures
        spec_start(spec_start(s, now1), now2) == spec_start(s, now1),
{
}

/// Stopping is idempotent: a second stop request changes nothing.
pub proof fn lemma_stop_idempotent(s: BackgroundScheduler)
    ensures
        spec_stop(spec_stop(s)) == spec_stop(s),
{
}

} // verus!
