//! Liveness and throughput counters, as the core sees them.
//!
//! The process-wide registry and its HTTP exposition live outside the
//! core; the core only increments and reads these plain values.

use vstd::prelude::*;

verus! {

/// The counter and gauge set the session and the supervisor update.
#[derive(Debug, Clone, Copy, PartialEq, Eq, Structural)]
pub struct Metrics {
    /// Total events processed (monotonic).
    pub events_total: u64,
    /// Total errors encountered (monotonic).
    pub errors_total: u64,
    /// Whether the connection is live.
    pub ws_connected: bool,
}

/// A counter bumped by one, saturating at its width.
pub open spec fn bumped(n: u64) -> u64 {
    if n < u64::MAX {
        (n + 1) as u64
    } else {
        n
    }
}

impl Metrics {
    /// All counters at zero, the liveness gauge down.
    pub fn new() -> (r: Metrics)
        ensures
            r.events_total == 0,
            r.errors_total == 0,
            !r.ws_connected,
    {
        Metrics { events_total: 0, errors_total: 0, ws_connected: false }
    }

    /// Count one processed event.
    pub fn inc_events(&mut self)
        ensures
            final(self).events_total == bumped(old(self).events_total),
            final(self).errors_total == old(self).errors_total,
            final(self).ws_connected == old(self).ws_connected,
    {
        if self.events_total < u64::MAX {
            self.events_total = self.events_total + 1;
        }
    }

    /// Count one error.
    pub fn inc_errors(&mut self)
        ensures
            final(self).errors_total == bumped(old(self).errors_total),
            final(self).events_total == old(self).events_total,
            final(self).ws_connected == old(self).ws_connected,
    {
        if self.errors_total < u64::MAX {
            self.errors_total = self.errors_total + 1;
        }
    }

    /// Count errors, by `n` at a time.
    pub fn inc_errors_by(&mut self, n: u64)
        ensures
            final(self).errors_total == if old(self).errors_total + n <= u64::MAX {
                (old(self).errors_total + n) as u64
            } else {
                u64::MAX
            },
            final(self).events_total == old(self).events_total,
            final(self).ws_connected == old(self).ws_connected,
    {
        if self.errors_total <= u64::MAX - n {
            self.errors_total = self.errors_total + n;
        } else {
            self.errors_total = u64::MAX;
        }
    }

    /// Raise or clear the liveness gauge.
    pub fn set_connected(&mut self, up: bool)
        ensures
            final(self).ws_connected == up,
            final(self).events_total == old(self).events_total,
            final(self).errors_total == old(self).errors_total,
    {
        self.ws_connected = up;
    }
}

} // verus!
