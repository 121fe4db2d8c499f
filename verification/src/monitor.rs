//! The monitor's own state: the "monitoring active" latch and the
//! last-updated bookkeeping.
//!
//! Collecting host data is the external collaborator's work; what belongs
//! to the core is the one piece of shared mutable state the collaborator
//! carries: a boolean latch toggled by the start/stop operations (each an
//! idempotent no-op when already in the requested state, reported by the
//! returned boolean) and the timestamp refreshed on every operation.

use vstd::prelude::*;

verus! {

/// Shared monitor state: the latch and the refresh timestamp.
#[derive(Debug)]
pub struct SystemMonitor {
    monitoring_active: bool,
    last_update: i64,
}

impl SystemMonitor {
    /// Whether continuous monitoring is currently active.
    pub closed spec fn active(self) -> bool {
        self.monitoring_active
    }

    /// The timestamp of the last refresh, in epoch milliseconds as handed
    /// in by the caller.
    pub closed spec fn updated_at(self) -> int {
        self.last_update as int
    }

    /// A fresh monitor: not active, last updated `now`.
    pub fn new(now: i64) -> (r: SystemMonitor)
        ensures
            !r.active(),
            r.updated_at() == now as int,
    {
        SystemMonitor { monitoring_active: false, last_update: now }
    }

    /// Refreshes the last-update timestamp.
    pub fn refresh(&mut self, now: i64)
        ensures
            final(self).active() == old(self).active(),
            final(self).updated_at() == now as int,
    {
        self.last_update = now;
    }

    /// Sets the latch; reports whether that was a state transition.
    pub fn start_monitoring(&mut self) -> (started: bool)
        ensures
            final(self).active(),
            final(self).updated_at() == old(self).updated_at(),
            started == !old(self).active(),
    {
        if self.monitoring_active {
            false
        } else {
            self.monitoring_active = true;
            true
        }
    }

    /// Clears the latch; reports whether that was a state transition.
    pub fn stop_monitoring(&mut self) -> (stopped: bool)
        ensures
            !final(self).active(),
            final(self).updated_at() == old(self).updated_at(),
            stopped == old(self).active(),
    {
        if self.monitoring_active {
            self.monitoring_active = false;
            true
        } else {
            false
        }
    }

    /// Whether monitoring is currently active.
    pub fn is_monitoring_active(&self) -> (r: bool)
        ensures
            r == self.active(),
    {
        self.monitoring_active
    }

    /// The last refresh timestamp.
    pub fn last_update(&self) -> (r: i64)
        ensures
            r as int == self.updated_at(),
    {
        self.last_update
    }
}

} // verus!
