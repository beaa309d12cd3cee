use vstd::prelude::*;

use crate::addr::SocketAddr;
use crate::backend::Backend;
use crate::config::Algorithm;

pub mod ip_hash;
pub mod least_connections;
pub mod random;
pub mod round_robin;
pub mod weighted_round_robin;

pub use ip_hash::{nginx_ip_hash, IpHash};
pub use least_connections::{lemma_first_least_loaded, LeastConnections};
pub use random::Random;
pub use round_robin::RoundRobin;
pub use weighted_round_robin::WeightedRoundRobin;

verus! {

/// A way of choosing one backend of a list for each request.
pub trait LoadBalancingStrategy {
    /// Whether the strategy, in its present state, can choose among `backends`.
    spec fn accepts(&self, backends: Seq<Backend>) -> bool;

    /// The algorithm the strategy follows.
    spec fn kind(&self) -> Algorithm;

    /// Chooses a position in `backends`; `None` exactly where the list is
    /// empty.
    fn select(&mut self, backends: &[Backend], client_addr: Option<&SocketAddr>) -> (r: Option<
        usize,
    >)
        requires
            old(self).accepts(backends@),
        ensures
            r is Some <==> backends@.len() > 0,
            r matches Some(i) ==> i < backends@.len(),
            final(self).kind() == old(self).kind(),
    ;

    /// The algorithm the strategy follows.
    fn algorithm(&self) -> (r: Algorithm)
        ensures
            r == self.kind(),
    ;

    /// Whether the strategy, in its present state, can choose among
    /// `backends`.
    fn can_select(&self, backends: &[Backend]) -> (r: bool)
        ensures
            r == self.accepts(backends@),
    ;
}

/// One of the strategies, chosen by algorithm.
#[derive(Debug)]
pub enum Strategy {
    RoundRobin(RoundRobin),
    WeightedRoundRobin(WeightedRoundRobin),
    LeastConnections(LeastConnections),
    IpHash(IpHash),
    Random(Random),
}

impl Strategy {
    /// What one call of `select` with `backends` and `client_addr` does, from
    /// state `self` to state `next`, giving `r`.
    pub open spec fn select_post(
        self,
        backends: Seq<Backend>,
        client_addr: Option<&SocketAddr>,
        next: Strategy,
        r: Option<usize>,
    ) -> bool {
        match self {
            Strategy::RoundRobin(s) => next matches Strategy::RoundRobin(t) && s.select_post(
                backends,
                t,
                r,
            ),
            Strategy::WeightedRoundRobin(s) => next matches Strategy::WeightedRoundRobin(t)
                && s.select_post(backends, t, r),
            Strategy::LeastConnections(s) => next == self && r == LeastConnections::choice(
                backends,
            ),
            Strategy::IpHash(s) => next == self && r == IpHash::choice(backends, client_addr),
            Strategy::Random(s) => {
                &&& next == self
                &&& r is Some <==> backends.len() > 0
                &&& r matches Some(i) ==> i < backends.len()
            },
        }
    }
}

impl LoadBalancingStrategy for Strategy {
    open spec fn accepts(&self, backends: Seq<Backend>) -> bool {
        match self {
            Strategy::RoundRobin(s) => s.accepts(backends),
            Strategy::WeightedRoundRobin(s) => s.accepts(backends),
            Strategy::LeastConnections(s) => s.accepts(backends),
            Strategy::IpHash(s) => s.accepts(backends),
            Strategy::Random(s) => s.accepts(backends),
        }
    }

    open spec fn kind(&self) -> Algorithm {
        match self {
            Strategy::RoundRobin(_) => Algorithm::RoundRobin,
            Strategy::WeightedRoundRobin(_) => Algorithm::WeightedRoundRobin,
            Strategy::LeastConnections(_) => Algorithm::LeastConnections,
            Strategy::IpHash(_) => Algorithm::IpHash,
            Strategy::Random(_) => Algorithm::Random,
        }
    }

    fn select(&mut self, backends: &[Backend], client_addr: Option<&SocketAddr>) -> (r: Option<
        usize,
    >)
        ensures
            old(self).select_post(backends@, client_addr, *final(self), r),
    {
        match self {
            Strategy::RoundRobin(s) => s.select(backends, client_addr),
            Strategy::WeightedRoundRobin(s) => s.select(backends, client_addr),
            Strategy::LeastConnections(s) => s.select(backends, client_addr),
            Strategy::IpHash(s) => s.select(backends, client_addr),
            Strategy::Random(s) => s.select(backends, client_addr),
        }
    }

    fn algorithm(&self) -> (r: Algorithm) {
        match self {
            Strategy::RoundRobin(s) => s.algorithm(),
            Strategy::WeightedRoundRobin(s) => s.algorithm(),
            Strategy::LeastConnections(s) => s.algorithm(),
            Strategy::IpHash(s) => s.algorithm(),
            Strategy::Random(s) => s.algorithm(),
        }
    }

    fn can_select(&self, backends: &[Backend]) -> (r: bool) {
        match self {
            Strategy::RoundRobin(s) => s.can_select(backends),
            Strategy::WeightedRoundRobin(s) => s.can_select(backends),
            Strategy::LeastConnections(s) => s.can_select(backends),
            Strategy::IpHash(s) => s.can_select(backends),
            Strategy::Random(s) => s.can_select(backends),
        }
    }
}

/// The strategy for `algorithm`, fresh. Only the round-robin, weighted
/// round-robin and least-connections algorithms are offered.
pub fn create_strategy(algorithm: &Algorithm) -> (r: Strategy)
    requires
        *algorithm == Algorithm::RoundRobin || *algorithm == Algorithm::WeightedRoundRobin
            || *algorithm == Algorithm::LeastConnections,
    ensures
        r.kind() == *algorithm,
        r matches Strategy::RoundRobin(s) ==> s@ == 0,
        r matches Strategy::WeightedRoundRobin(s) ==> s@ is None,
{
    match algorithm {
        Algorithm::RoundRobin => Strategy::RoundRobin(RoundRobin::new()),
        Algorithm::WeightedRoundRobin => Strategy::WeightedRoundRobin(WeightedRoundRobin::new()),
        _ => Strategy::LeastConnections(LeastConnections::new()),
    }
}


/// A least-connections strategy, as `create_strategy` gives it, answers a
/// call over a non-empty list with a position whose backend has no more open
/// connections than any other and fewer than every backend before it, and
/// stays as it was.
pub proof fn law_strategy_least_connections(
    s: Strategy,
    backends: Seq<Backend>,
    client_addr: Option<&SocketAddr>,
    next: Strategy,
    r: Option<usize>,
)
    requires
        s is LeastConnections,
        0 < backends.len() <= usize::MAX,
        s.select_post(backends, client_addr, next, r),
    ensures
        next == s,
        r matches Some(k) && {
            &&& k < backends.len()
            &&& forall|j: int|
                0 <= j < backends.len() ==> backends[k as int].active_connections
                    <= #[trigger] backends[j].active_connections
            &&& forall|j: int|
                0 <= j < k ==> backends[k as int].active_connections
                    < #[trigger] backends[j].active_connections
        },
{
    lemma_first_least_loaded(backends, backends.len());
}

/// An IP-hash strategy answers a call over a non-empty list, for a client at
/// a known address of either family, with the nginx hash of the address's
/// octets modulo the number of backends, and stays as it was.
pub proof fn law_strategy_ip_hash(
    s: Strategy,
    backends: Seq<Backend>,
    a: SocketAddr,
    next: Strategy,
    r: Option<usize>,
)
    requires
        s is IpHash,
        0 < backends.len() <= usize::MAX,
        s.select_post(backends, Some(&a), next, r),
    ensures
        next == s,
        r matches Some(k) && k < backends.len() && k as int == nginx_ip_hash(a.octets()) as int
            % backends.len() as int,
{
}


/// A round-robin strategy answers a call over a non-empty list of `n`
/// backends with its counter modulo `n` and moves the counter on by one; over
/// an empty list it answers nothing and keeps its counter.
pub proof fn law_strategy_round_robin(
    s: Strategy,
    backends: Seq<Backend>,
    client_addr: Option<&SocketAddr>,
    next: Strategy,
    r: Option<usize>,
)
    requires
        s is RoundRobin,
        backends.len() <= usize::MAX,
        s.select_post(backends, client_addr, next, r),
    ensures
        next is RoundRobin,
        backends.len() == 0 ==> r is None && next->RoundRobin_0@ == s->RoundRobin_0@,
        backends.len() > 0 ==> r == Some((s->RoundRobin_0@ as int % backends.len() as int) as usize)
            && next->RoundRobin_0@ == crate::backend::wrapping_inc(s->RoundRobin_0@),
{
}

/// A weighted round-robin strategy makes one smooth weighted round robin step
/// over a non-empty list, from the credits it keeps (zero for positions not
/// seen before): it answers the first position whose credit, with its weight
/// added, is the largest, and keeps the new credits; over an empty list it
/// answers nothing and keeps its credits.
pub proof fn law_strategy_weighted_round_robin(
    s: Strategy,
    backends: Seq<Backend>,
    client_addr: Option<&SocketAddr>,
    next: Strategy,
    r: Option<usize>,
)
    requires
        s is WeightedRoundRobin,
        backends.len() <= usize::MAX,
        s.select_post(backends, client_addr, next, r),
    ensures
        next is WeightedRoundRobin,
        backends.len() == 0 ==> r is None && next->WeightedRoundRobin_0@ == s->WeightedRoundRobin_0@,
        backends.len() > 0 ==> {
            let start = s->WeightedRoundRobin_0.start_credits(backends.len());
            let c = crate::lb::weighted_round_robin::credited(start, backends);
            &&& r matches Some(k) && k < backends.len()
            &&& forall|j: int| 0 <= j < backends.len() ==> #[trigger] c[j] <= c[r->0 as int]
            &&& forall|j: int| 0 <= j < r->0 ==> #[trigger] c[j] < c[r->0 as int]
            &&& next->WeightedRoundRobin_0@ == Some(
                crate::lb::weighted_round_robin::swrr_step(start, backends).0,
            )
        },
{
    if backends.len() > 0 {
        let w = s->WeightedRoundRobin_0;
        let n = backends.len();
        let start = w.start_credits(n);
        let c = crate::lb::weighted_round_robin::credited(start, backends);
        match w@ {
            Some(kept) => {
                if kept.len() < n {
                    assert(start.len() == n);
                } else {
                    assert(start.len() >= n);
                }
            },
            None => {
                assert(start.len() == n);
            },
        }
        assert(c.len() == start.len());
        crate::lb::weighted_round_robin::lemma_first_max(c, n);
        let k = crate::lb::weighted_round_robin::first_max(c, n);
        assert(r == Some(k as usize));
        assert(k as usize == k);
    }
}

/// A random strategy answers a call over a non-empty list with some position
/// of it, over an empty list nothing, and stays as it was.
pub proof fn law_strategy_random(
    s: Strategy,
    backends: Seq<Backend>,
    client_addr: Option<&SocketAddr>,
    next: Strategy,
    r: Option<usize>,
)
    requires
        s is Random,
        s.select_post(backends, client_addr, next, r),
    ensures
        next == s,
        r is Some <==> backends.len() > 0,
        r matches Some(k) ==> k < backends.len(),
{
}

} // verus!
