use vstd::prelude::*;

use super::LoadBalancingStrategy;
use crate::addr::SocketAddr;
use crate::backend::Backend;
use crate::config::Algorithm;

verus! {

/// The position of the first backend among the first `n` of `bs` with the
/// fewest open connections.
pub open spec fn first_least_loaded(bs: Seq<Backend>, n: nat) -> nat
    decreases n,
{
    if n <= 1 {
        0
    } else {
        let k = first_least_loaded(bs, (n - 1) as nat);
        if bs[n - 1].active_connections < bs[k as int].active_connections {
            (n - 1) as nat
        } else {
            k
        }
    }
}

/// `first_least_loaded` is a position whose backend has no more connections
/// than any other, and fewer than every backend before it.
pub proof fn lemma_first_least_loaded(bs: Seq<Backend>, n: nat)
    requires
        0 < n <= bs.len(),
    ensures
        first_least_loaded(bs, n) < n,
        forall|j: int|
            0 <= j < n ==> bs[first_least_loaded(bs, n) as int].active_connections
                <= #[trigger] bs[j].active_connections,
        forall|j: int|
            0 <= j < first_least_loaded(bs, n) ==> bs[first_least_loaded(bs, n) as int].active_connections
                < #[trigger] bs[j].active_connections,
    decreases n,
{
    if n > 1 {
        lemma_first_least_loaded(bs, (n - 1) as nat);
    }
}

/// Sends each request to the backend with the fewest open connections, the
/// first such where several tie.
#[derive(Debug, Clone, Copy)]
pub struct LeastConnections;

impl LeastConnections {
    pub fn new() -> (r: LeastConnections) {
        LeastConnections
    }

    /// The choice among `backends`.
    pub open spec fn choice(backends: Seq<Backend>) -> Option<usize> {
        if backends.len() == 0 {
            None
        } else {
            Some(first_least_loaded(backends, backends.len()) as usize)
        }
    }
}

impl Default for LeastConnections {
    fn default() -> (r: LeastConnections) {
        LeastConnections::new()
    }
}

impl LoadBalancingStrategy for LeastConnections {
    open spec fn accepts(&self, backends: Seq<Backend>) -> bool {
        true
    }

    open spec fn kind(&self) -> Algorithm {
        Algorithm::LeastConnections
    }

    fn select(&mut self, backends: &[Backend], client_addr: Option<&SocketAddr>) -> (r: Option<
        usize,
    >)
        ensures
            r == LeastConnections::choice(backends@),
            *final(self) == *old(self),
    {
        let n = backends.len();
        if n == 0 {
            return None;
        }
        let mut least_index: usize = 0;
        let mut least_conns: usize = usize::MAX;
        let mut i: usize = 0;
        while i < n
            invariant
                n == backends@.len(),
                0 < n,
                i <= n,
                i == 0 ==> least_index == 0 && least_conns == usize::MAX,
                i > 0 ==> least_index == first_least_loaded(backends@, i as nat) && least_index < i
                    && least_conns == backends@[least_index as int].active_connections,
            decreases n - i,
        {
            proof {
                lemma_first_least_loaded(backends@, (i + 1) as nat);
            }
            let conns = backends[i].get_active_connections();
            if conns < least_conns {
                least_conns = conns;
                least_index = i;
            }
            i = i + 1;
        }
        Some(least_index)
    }

    fn algorithm(&self) -> (r: Algorithm) {
        Algorithm::LeastConnections
    }

    fn can_select(&self, backends: &[Backend]) -> (r: bool) {
        true
    }
}

/// The backend chosen has no more open connections than any other, and every
/// backend before it has more.
pub proof fn law_least_connections_choice(backends: Seq<Backend>)
    requires
        0 < backends.len() <= usize::MAX,
    ensures
        LeastConnections::choice(backends) matches Some(k) && {
            &&& k < backends.len()
            &&& forall|j: int|
                0 <= j < backends.len() ==> backends[k as int].active_connections
                    <= #[trigger] backends[j].active_connections
            &&& forall|j: int|
                0 <= j < k ==> backends[k as int].active_connections
                    < #[trigger] backends[j].active_connections
        },
{
    lemma_first_least_loaded(backends, backends.len());
}

} // verus!
