//! The decisions of the health checker: which backends to probe, and what a
//! probe's outcome changes.

use vstd::prelude::*;
use crate::addr::SocketAddress;
use crate::state::{Backend, State, StateView};

verus! {

/// What recording a probe outcome did to a backend's health flag.
#[derive(Clone, Copy, Debug, PartialEq, Eq, Structural)]
pub enum HealthChange {
    /// The flag already matched the outcome.
    Unchanged,
    /// The backend was unhealthy and is now healthy.
    BecameHealthy,
    /// The backend was healthy and is now unhealthy.
    BecameUnhealthy,
}

/// The change that recording `healthy` makes to a backend flagged `was`.
pub open spec fn health_change(was: bool, healthy: bool) -> HealthChange {
    if was == healthy {
        HealthChange::Unchanged
    } else if healthy {
        HealthChange::BecameHealthy
    } else {
        HealthChange::BecameUnhealthy
    }
}

/// The state after recording that backend `idx` is `healthy` (nothing
/// changes for an index past the list).
pub open spec fn with_health(s: StateView, idx: int, healthy: bool) -> StateView {
    if 0 <= idx < s.backends.len() {
        StateView {
            backends: s.backends.update(idx, Backend { addr: s.backends[idx].addr, is_healthy: healthy }),
            next_backend: s.next_backend,
            flows: s.flows,
            arps: s.arps,
        }
    } else {
        s
    }
}

impl State {
    /// Each backend's index with its address, in order: what a round of
    /// health checks probes.
    pub fn health_targets(&self) -> (r: Vec<(usize, SocketAddress)>)
        ensures
            r@.len() == self@.backends.len(),
            forall|i: int| 0 <= i < r@.len() ==> #[trigger] r@[i] == (i as usize, self@.backends[i].addr),
    {
        let mut r: Vec<(usize, SocketAddress)> = Vec::new();
        let mut i: usize = 0;
        while i < self.backends.len()
            invariant
                0 <= i <= self.backends.len(),
                r@.len() == i,
                forall|j: int| 0 <= j < i ==> #[trigger] r@[j] == (j as usize, self@.backends[j].addr),
            decreases self.backends.len() - i,
        {
            r.push((i, self.backends[i].addr));
            i = i + 1;
        }
        r
    }

    /// Records the outcome of probing backend `idx`: its health flag becomes
    /// `healthy`, and nothing else changes.
    pub fn record_health(&mut self, idx: usize, healthy: bool) -> (r: HealthChange)
        requires
            idx < old(self)@.backends.len(),
        ensures
            r == health_change(old(self)@.backends[idx as int].is_healthy, healthy),
            final(self)@.backends == old(self)@.backends.update(
                idx as int,
                Backend { addr: old(self)@.backends[idx as int].addr, is_healthy: healthy },
            ),
            final(self)@.next_backend == old(self)@.next_backend,
            final(self)@.flows == old(self)@.flows,
            final(self)@.arps == old(self)@.arps,
            final(self)@ == with_health(old(self)@, idx as int, healthy),
            final(self).clock == old(self).clock,
    {
        let current = self.backends[idx];
        if current.is_healthy == healthy {
            assert(self@.backends =~= old(self)@.backends.update(
                idx as int,
                Backend { addr: old(self)@.backends[idx as int].addr, is_healthy: healthy },
            ));
            return HealthChange::Unchanged;
        }
        self.backends.set(idx, Backend { addr: current.addr, is_healthy: healthy });
        if healthy {
            HealthChange::BecameHealthy
        } else {
            HealthChange::BecameUnhealthy
        }
    }
}

} // verus!
