use vstd::prelude::*;

use crate::addr::SocketAddr;
use crate::backend::{first_at, Backend, BackendPool};
use crate::config::HealthCheckConfig;

verus! {

/// The outcome of one health check of one backend.
#[derive(Clone, Copy, Debug, PartialEq, Eq, Structural)]
pub enum HealthCheckResult {
    Healthy,
    Unhealthy,
}

/// What a health check request came to: a response with a status code, or
/// none (the request failed or timed out).
#[derive(Clone, Copy, Debug, PartialEq, Eq, Structural)]
pub enum CheckOutcome {
    Responded(u16),
    NoResponse,
}

/// A check is healthy exactly when the backend answered with 200 OK.
pub fn check_result(outcome: CheckOutcome) -> (r: HealthCheckResult)
    ensures
        r == (if outcome == CheckOutcome::Responded(200) {
            HealthCheckResult::Healthy
        } else {
            HealthCheckResult::Unhealthy
        }),
{
    match outcome {
        CheckOutcome::Responded(status) => {
            if status == 200 {
                HealthCheckResult::Healthy
            } else {
                HealthCheckResult::Unhealthy
            }
        },
        CheckOutcome::NoResponse => HealthCheckResult::Unhealthy,
    }
}

/// The run of checks of one backend: how many checks in a row, up to the
/// last one, were healthy, and how many were unhealthy. One of them is 0
/// after any check.
#[derive(Clone, Copy, Debug, PartialEq, Eq, Structural)]
pub struct BackendStatus {
    pub consecutive_successes: u32,
    pub consecutive_failures: u32,
}

impl BackendStatus {
    /// The status after one more check with `result` (the counters as
    /// integers: they must not pass the largest `u32`).
    pub open spec fn after(self, result: HealthCheckResult) -> BackendStatus {
        match result {
            HealthCheckResult::Healthy => BackendStatus {
                consecutive_successes: (self.consecutive_successes + 1) as u32,
                consecutive_failures: 0,
            },
            HealthCheckResult::Unhealthy => BackendStatus {
                consecutive_successes: 0,
                consecutive_failures: (self.consecutive_failures + 1) as u32,
            },
        }
    }

    /// Whether one more check with `result` keeps the counter it raises within `u32`.
    pub open spec fn can_count(self, result: HealthCheckResult) -> bool {
        match result {
            HealthCheckResult::Healthy => self.consecutive_successes < u32::MAX,
            HealthCheckResult::Unhealthy => self.consecutive_failures < u32::MAX,
        }
    }

    /// Counts one more check: a healthy one raises the successes and clears
    /// the failures, an unhealthy one the other way round.
    pub fn update(&mut self, result: &HealthCheckResult)
        requires
            old(self).can_count(*result),
        ensures
            *final(self) == old(self).after(*result),
    {
        match result {
            HealthCheckResult::Healthy => {
                self.consecutive_successes = self.consecutive_successes + 1;
                self.consecutive_failures = 0;
            },
            HealthCheckResult::Unhealthy => {
                self.consecutive_successes = 0;
                self.consecutive_failures = self.consecutive_failures + 1;
            },
        }
    }
}

/// The counters count only the latest run of equal results: a healthy check
/// raises the successes by one and clears the failures, an unhealthy one
/// raises the failures by one and clears the successes, so after any check
/// at most one of the two is not 0.
pub proof fn law_status_counts_runs(s: BackendStatus, result: HealthCheckResult)
    requires
        s.can_count(result),
    ensures
        result == HealthCheckResult::Healthy ==> s.after(result).consecutive_failures == 0
            && s.after(result).consecutive_successes == s.consecutive_successes + 1,
        result == HealthCheckResult::Unhealthy ==> s.after(result).consecutive_successes == 0
            && s.after(result).consecutive_failures == s.consecutive_failures + 1,
        s.after(result).consecutive_successes == 0 || s.after(result).consecutive_failures == 0,
{
}

/// The status before the first check.
pub open spec fn fresh_status() -> BackendStatus {
    BackendStatus { consecutive_successes: 0, consecutive_failures: 0 }
}

/// The status kept for `addr`: that of its first entry, or a fresh one.
pub open spec fn status_of(entries: Seq<(SocketAddr, BackendStatus)>, addr: SocketAddr) -> BackendStatus {
    if exists|i: int| is_entry_of(entries, addr, i) {
        entries[choose|i: int| is_entry_of(entries, addr, i)].1
    } else {
        fresh_status()
    }
}

/// Position `i` holds the first entry for `addr`.
pub open spec fn is_entry_of(entries: Seq<(SocketAddr, BackendStatus)>, addr: SocketAddr, i: int) -> bool {
    &&& 0 <= i < entries.len()
    &&& entries[i].0 == addr
    &&& forall|j: int| 0 <= j < i ==> entries[j].0 != addr
}

/// The entries with the status of `addr` set to `s`: in place where `addr`
/// has an entry, else as a new last entry.
pub open spec fn with_status(
    entries: Seq<(SocketAddr, BackendStatus)>,
    addr: SocketAddr,
    s: BackendStatus,
) -> Seq<(SocketAddr, BackendStatus)> {
    if exists|i: int| is_entry_of(entries, addr, i) {
        entries.update(choose|i: int| is_entry_of(entries, addr, i), (addr, s))
    } else {
        entries.push((addr, s))
    }
}

/// The backends with the first one at `addr` (if any) set to health `h`.
pub open spec fn with_health(bs: Seq<Backend>, addr: SocketAddr, h: bool) -> Seq<Backend> {
    match first_at(bs, addr) {
        Some(i) => bs.update(i, Backend { healthy: h, ..bs[i] }),
        None => bs,
    }
}

/// The health of the first backend at `addr`, if any.
pub open spec fn health_at(bs: Seq<Backend>, addr: SocketAddr) -> Option<bool> {
    match first_at(bs, addr) {
        Some(i) => Some(bs[i].healthy),
        None => None,
    }
}

proof fn lemma_entry_unique(entries: Seq<(SocketAddr, BackendStatus)>, addr: SocketAddr, i: int)
    requires
        is_entry_of(entries, addr, i),
    ensures
        (choose|k: int| is_entry_of(entries, addr, k)) == i,
{
    let k = choose|k: int| is_entry_of(entries, addr, k);
    assert(is_entry_of(entries, addr, k));
    if k < i {
        assert(entries[k].0 != addr);
    }
    if i < k {
        assert(entries[i].0 != addr);
    }
}

/// What a health check changed in a backend's standing.
#[derive(Clone, Copy, Debug, PartialEq, Eq, Structural)]
pub struct HealthTransition {
    /// The backend, healthy before, was marked unhealthy.
    pub became_unhealthy: bool,
    /// The backend, unhealthy by then, was marked healthy.
    pub became_healthy: bool,
}

/// The runs of check results of the backends, by address, and the rule that
/// turns them into the pool's health marks.
pub struct HealthTracker {
    entries: Vec<(SocketAddr, BackendStatus)>,
}

impl View for HealthTracker {
    type V = Seq<(SocketAddr, BackendStatus)>;

    closed spec fn view(&self) -> Seq<(SocketAddr, BackendStatus)> {
        self.entries@
    }
}

impl HealthTracker {
    /// A tracker that has seen no check yet.
    pub fn new() -> (r: HealthTracker)
        ensures
            r@ == Seq::<(SocketAddr, BackendStatus)>::empty(),
    {
        HealthTracker { entries: Vec::new() }
    }

    /// The status kept for `addr`.
    pub fn status(&self, addr: SocketAddr) -> (r: BackendStatus)
        ensures
            r == status_of(self@, addr),
    {
        match self.find(addr) {
            Some(i) => self.entries[i].1,
            None => BackendStatus { consecutive_successes: 0, consecutive_failures: 0 },
        }
    }

    fn find(&self, addr: SocketAddr) -> (r: Option<usize>)
        ensures
            r matches Some(i) ==> is_entry_of(self@, addr, i as int),
            r is None ==> !exists|i: int| is_entry_of(self@, addr, i),
    {
        let n = self.entries.len();
        let mut i: usize = 0;
        while i < n
            invariant
                n == self@.len(),
                i <= n,
                forall|j: int| 0 <= j < i ==> self@[j].0 != addr,
            decreases n - i,
        {
            if self.entries[i].0 == addr {
                return Some(i);
            }
            i = i + 1;
        }
        None
    }

    /// Takes in one check of the backend at `addr`: its run is counted on,
    /// then, if the failures have reached the unhealthy threshold while the
    /// backend stood healthy, it is marked unhealthy; and then if the
    /// successes have reached the healthy threshold while it stands
    /// unhealthy, it is marked healthy.
    pub fn record(
        &mut self,
        pool: &mut BackendPool,
        config: &HealthCheckConfig,
        addr: SocketAddr,
        result: HealthCheckResult,
    ) -> (r: HealthTransition)
        requires
            old(pool).wf(),
            status_of(old(self)@, addr).can_count(result),
        ensures
            final(pool).wf(),
            ({
                let s = status_of(old(self)@, addr).after(result);
                let down = s.consecutive_failures >= config.unhealthy_threshold && health_at(
                    old(pool)@,
                    addr,
                ) == Some(true);
                let mid = if down {
                    with_health(old(pool)@, addr, false)
                } else {
                    old(pool)@
                };
                let up = s.consecutive_successes >= config.healthy_threshold && health_at(
                    mid,
                    addr,
                ) == Some(false);
                &&& final(self)@ == with_status(old(self)@, addr, s)
                &&& r == (HealthTransition { became_unhealthy: down, became_healthy: up })
                &&& final(pool)@ == if up {
                    with_health(mid, addr, true)
                } else {
                    mid
                }
            }),
    {
        let found = self.find(addr);
        let mut status = match found {
            Some(i) => self.entries[i].1,
            None => BackendStatus { consecutive_successes: 0, consecutive_failures: 0 },
        };
        proof {
            if let Some(i) = found {
                lemma_entry_unique(old(self)@, addr, i as int);
            }
        }
        status.update(&result);
        match found {
            Some(i) => {
                self.entries.set(i, (addr, status));
            },
            None => {
                self.entries.push((addr, status));
            },
        }
        let mut became_unhealthy = false;
        let mut became_healthy = false;
        if status.consecutive_failures >= config.unhealthy_threshold && pool.get_health_by_addr(addr)
            == Some(true) {
            pool.mark_unhealthy_by_addr(addr);
            became_unhealthy = true;
        }
        if status.consecutive_successes >= config.healthy_threshold && pool.get_health_by_addr(addr)
            == Some(false) {
            pool.mark_healthy_by_addr(addr);
            became_healthy = true;
        }
        HealthTransition { became_unhealthy, became_healthy }
    }
}

} // verus!
