use vstd::prelude::*;

use crate::addr::{AddrParseError, SocketAddr};
use crate::config::{has_invalid_addr, BackendConfig};

verus! {

/// One backend server: its address and weight, whether it is counted as
/// healthy, and how many connections to it are open.
#[derive(Clone, Copy, Debug, PartialEq, Eq, Structural)]
pub struct Backend {
    pub addr: SocketAddr,
    pub weight: u32,
    pub healthy: bool,
    pub active_connections: usize,
}

/// `c + 1`, wrapping round to 0 past the largest `usize`.
pub open spec fn wrapping_inc(c: usize) -> usize {
    if c == usize::MAX {
        0
    } else {
        (c + 1) as usize
    }
}

/// `c - 1`, wrapping round to the largest `usize` below 0.
pub open spec fn wrapping_dec(c: usize) -> usize {
    if c == 0 {
        usize::MAX
    } else {
        (c - 1) as usize
    }
}

impl Default for Backend {
    /// A healthy backend at 127.0.0.1:0 of weight 1 with no connections.
    fn default() -> (r: Backend)
        ensures
            r == (Backend {
                addr: SocketAddr::V4 { ip: 0x7f00_0001, port: 0 },
                weight: 1,
                healthy: true,
                active_connections: 0,
            }),
    {
        Backend::new(SocketAddr::V4 { ip: 0x7f00_0001, port: 0 })
    }
}

impl Backend {
    /// A healthy backend at `addr` of weight 1 with no connections.
    pub fn new(addr: SocketAddr) -> (r: Backend)
        ensures
            r == (Backend { addr, weight: 1, healthy: true, active_connections: 0 }),
    {
        Backend { addr, weight: 1, healthy: true, active_connections: 0 }
    }

    /// The backend that `config` names, healthy and without connections.
    /// `parsed_addr` is what reading `config.addr` as a socket address gave;
    /// its error is passed on.
    pub fn from_config(config: &BackendConfig, parsed_addr: Result<SocketAddr, AddrParseError>) -> (r:
        Result<Backend, AddrParseError>)
        ensures
            match parsed_addr {
                Ok(a) => r == Ok::<Backend, AddrParseError>(
                    Backend { addr: a, weight: config.weight, healthy: true, active_connections: 0 },
                ),
                Err(e) => r == Err::<Backend, AddrParseError>(e),
            },
    {
        match parsed_addr {
            Ok(a) => Ok(Backend { addr: a, weight: config.weight, healthy: true, active_connections: 0 }),
            Err(e) => Err(e),
        }
    }

    pub fn get_addr(&self) -> (r: SocketAddr)
        ensures
            r == self.addr,
    {
        self.addr
    }

    pub fn get_weight(&self) -> (r: u32)
        ensures
            r == self.weight,
    {
        self.weight
    }

    pub fn get_health(&self) -> (r: bool)
        ensures
            r == self.healthy,
    {
        self.healthy
    }

    pub fn set_health(&mut self, healthy: bool)
        ensures
            *final(self) == (Backend { healthy, ..*old(self) }),
    {
        self.healthy = healthy;
    }

    pub fn get_active_connections(&self) -> (r: usize)
        ensures
            r == self.active_connections,
    {
        self.active_connections
    }

    /// Counts one more open connection (wrapping past the largest `usize`).
    pub fn increment_connections(&mut self)
        ensures
            *final(self) == (Backend {
                active_connections: wrapping_inc(old(self).active_connections),
                ..*old(self)
            }),
    {
        self.active_connections = self.active_connections.wrapping_add(1);
    }

    /// Counts one open connection less (wrapping below 0).
    pub fn decrement_connections(&mut self)
        ensures
            *final(self) == (Backend {
                active_connections: wrapping_dec(old(self).active_connections),
                ..*old(self)
            }),
    {
        self.active_connections = self.active_connections.wrapping_sub(1);
    }
}

/// The backends with one more connection counted to backend `i`.
pub open spec fn connection_opened(bs: Seq<Backend>, i: int) -> Seq<Backend> {
    bs.update(i, Backend { active_connections: wrapping_inc(bs[i].active_connections), ..bs[i] })
}

/// The backends with one connection less counted to backend `i`.
pub open spec fn connection_closed(bs: Seq<Backend>, i: int) -> Seq<Backend> {
    bs.update(i, Backend { active_connections: wrapping_dec(bs[i].active_connections), ..bs[i] })
}

/// Counting a connection opened and then closed leaves the backends as they
/// were, even where the count wraps.
pub proof fn law_open_close_restores(bs: Seq<Backend>, i: int)
    requires
        0 <= i < bs.len(),
    ensures
        connection_closed(connection_opened(bs, i), i) == bs,
{
    assert(connection_closed(connection_opened(bs, i), i) =~= bs);
}

/// The positions, in order, of the healthy backends of `bs`.
pub open spec fn healthy_indices(bs: Seq<Backend>) -> Seq<usize>
    decreases bs.len(),
{
    if bs.len() == 0 {
        Seq::empty()
    } else {
        let rest = healthy_indices(bs.drop_last());
        if bs.last().healthy {
            rest.push((bs.len() - 1) as usize)
        } else {
            rest
        }
    }
}

/// The healthy backends of `bs`, in their order.
pub open spec fn healthy_view(bs: Seq<Backend>) -> Seq<Backend> {
    healthy_indices(bs).map_values(|i: usize| bs[i as int])
}

/// Position `i` holds the first backend of `bs` at address `a`.
pub open spec fn is_first_at(bs: Seq<Backend>, a: SocketAddr, i: int) -> bool {
    &&& 0 <= i < bs.len()
    &&& bs[i].addr == a
    &&& forall|j: int| 0 <= j < i ==> bs[j].addr != a
}

/// The position of the first backend of `bs` at address `a`, if there is one.
pub open spec fn first_at(bs: Seq<Backend>, a: SocketAddr) -> Option<int> {
    if exists|i: int| is_first_at(bs, a, i) {
        Some(choose|i: int| is_first_at(bs, a, i))
    } else {
        None
    }
}

/// The first position at an address is the only one.
pub proof fn lemma_first_at_unique(bs: Seq<Backend>, a: SocketAddr, i: int)
    requires
        is_first_at(bs, a, i),
    ensures
        first_at(bs, a) == Some(i),
{
    let k = choose|k: int| is_first_at(bs, a, k);
    assert(is_first_at(bs, a, k));
    if k < i {
        assert(bs[k].addr != a);
    }
    if i < k {
        assert(bs[i].addr != a);
    }
}

/// Facts about `healthy_indices`: each listed position is in range and
/// healthy, the list is strictly increasing, and every healthy position is
/// listed.
pub proof fn lemma_healthy_indices(bs: Seq<Backend>)
    requires
        bs.len() <= usize::MAX,
    ensures
        healthy_indices(bs).len() <= bs.len(),
        forall|k: int|
            0 <= k < healthy_indices(bs).len() ==> {
                &&& (#[trigger] healthy_indices(bs)[k]) < bs.len()
                &&& bs[healthy_indices(bs)[k] as int].healthy
            },
        forall|k: int, l: int|
            0 <= k < l < healthy_indices(bs).len() ==> #[trigger] healthy_indices(bs)[k]
                < #[trigger] healthy_indices(bs)[l],
        forall|i: int|
            0 <= i < bs.len() && #[trigger] bs[i].healthy ==> healthy_indices(bs).contains(
                i as usize,
            ),
    decreases bs.len(),
{
    if bs.len() > 0 {
        let rest = bs.drop_last();
        lemma_healthy_indices(rest);
        assert forall|i: int| 0 <= i < bs.len() && #[trigger] bs[i].healthy implies healthy_indices(
            bs,
        ).contains(i as usize) by {
            if i < bs.len() - 1 {
                assert(rest[i].healthy);
                let k = choose|k: int|
                    0 <= k < healthy_indices(rest).len() && healthy_indices(rest)[k] == i as usize;
                if bs.last().healthy {
                    assert(healthy_indices(bs)[k] == i as usize);
                } else {
                    assert(healthy_indices(bs)[k] == i as usize);
                }
            } else {
                let hs = healthy_indices(bs);
                assert(hs[hs.len() - 1] == i as usize);
            }
        }
    }
}

/// Two lists of backends that agree on length and health agree on the
/// positions of the healthy ones.
pub proof fn lemma_same_health_same_indices(a: Seq<Backend>, b: Seq<Backend>)
    requires
        a.len() == b.len(),
        forall|i: int| 0 <= i < a.len() ==> #[trigger] a[i].healthy == b[i].healthy,
    ensures
        healthy_indices(a) == healthy_indices(b),
    decreases a.len(),
{
    if a.len() > 0 {
        lemma_same_health_same_indices(a.drop_last(), b.drop_last());
    }
}

/// The subsequence of the healthy backends of `bs`.
pub open spec fn healthy_subsequence(bs: Seq<Backend>) -> Seq<Backend> {
    bs.filter(|b: Backend| b.healthy)
}

/// The healthy backends of a list are its subsequence of healthy backends:
/// the same backends, in the same order.
pub proof fn law_healthy_view_is_filter(bs: Seq<Backend>)
    requires
        bs.len() <= usize::MAX,
    ensures
        healthy_view(bs) == healthy_subsequence(bs),
    decreases bs.len(),
{
    reveal(Seq::filter);
    if bs.len() > 0 {
        let dl = bs.drop_last();
        law_healthy_view_is_filter(dl);
        lemma_healthy_indices(dl);
        let hd = healthy_indices(dl);
        assert(hd.map_values(|i: usize| bs[i as int]) =~= healthy_view(dl)) by {
            assert forall|k: int| 0 <= k < hd.len() implies bs[hd[k] as int] == dl[hd[k] as int] by {
                assert(hd[k] < dl.len());
            }
        }
        assert(healthy_subsequence(bs) == if bs.last().healthy {
            healthy_subsequence(dl).push(bs.last())
        } else {
            healthy_subsequence(dl)
        });
        if bs.last().healthy {
            assert(healthy_view(bs) =~= healthy_view(dl).push(bs.last()));
        } else {
            assert(healthy_view(bs) =~= healthy_view(dl));
        }
    } else {
        assert(healthy_view(bs) =~= healthy_subsequence(bs));
    }
}

/// Why a pool could not be built from a configuration.
#[derive(Clone, Copy, Debug, PartialEq, Eq, Structural)]
pub enum BackendPoolError {
    /// The configuration names no backend.
    NoBackends,
    /// A backend's address is no socket address.
    AddrParseError(AddrParseError),
}

/// The backends that requests are balanced over, with the positions of the
/// healthy ones kept at hand.
pub struct BackendPool {
    backends: Vec<Backend>,
    healthy_cache: Vec<usize>,
}

impl View for BackendPool {
    type V = Seq<Backend>;

    closed spec fn view(&self) -> Seq<Backend> {
        self.backends@
    }
}

impl BackendPool {
    /// The pool's invariant: the positions kept at hand are exactly those of
    /// its healthy backends, in order.
    pub closed spec fn wf(&self) -> bool {
        &&& self.backends@.len() <= usize::MAX
        &&& self.healthy_cache@ == healthy_indices(self.backends@)
    }

    /// A well-formed pool's backends can be counted in a `usize`.
    pub proof fn lemma_len_fits(&self)
        requires
            self.wf(),
        ensures
            self@.len() <= usize::MAX,
    {
    }

    fn healthy_positions(backends: &Vec<Backend>) -> (r: Vec<usize>)
        ensures
            r@ == healthy_indices(backends@),
    {
        let n = backends.len();
        let mut out: Vec<usize> = Vec::new();
        let mut i: usize = 0;
        while i < n
            invariant
                n == backends@.len(),
                i <= n,
                out@ == healthy_indices(backends@.take(i as int)),
            decreases n - i,
        {
            assert(backends@.take(i + 1).drop_last() =~= backends@.take(i as int));
            if backends[i].healthy {
                out.push(i);
            }
            i = i + 1;
        }
        assert(backends@.take(n as int) =~= backends@);
        out
    }

    /// A pool of `backends`, in their order.
    pub fn new(backends: Vec<Backend>) -> (r: BackendPool)
        ensures
            r.wf(),
            r@ == backends@,
    {
        let healthy_cache = Self::healthy_positions(&backends);
        let _n = backends.len();
        BackendPool { backends, healthy_cache }
    }

    /// The pool of the backends that `configs` names, all healthy and
    /// without connections; `parsed[i]` is what reading the address text of
    /// `configs[i]` as a socket address gave. Refused when `configs` is empty
    /// or an address is no socket address.
    pub fn from_config(
        configs: &[BackendConfig],
        parsed: &[Result<SocketAddr, AddrParseError>],
    ) -> (r: Result<BackendPool, BackendPoolError>)
        requires
            parsed@.len() == configs@.len(),
        ensures
            configs@.len() == 0 ==> r == Err::<BackendPool, BackendPoolError>(
                BackendPoolError::NoBackends,
            ),
            configs@.len() > 0 && has_invalid_addr(parsed@) ==> r == Err::<
                BackendPool,
                BackendPoolError,
            >(BackendPoolError::AddrParseError(AddrParseError)),
            configs@.len() > 0 && !has_invalid_addr(parsed@) ==> r is Ok,
            r matches Ok(pool) ==> {
                &&& pool.wf()
                &&& pool@.len() == configs@.len()
                &&& forall|i: int|
                    0 <= i < configs@.len() ==> #[trigger] pool@[i] == (Backend {
                        addr: parsed@[i]->Ok_0,
                        weight: configs@[i].weight,
                        healthy: true,
                        active_connections: 0,
                    })
            },
    {
        let n = configs.len();
        if n == 0 {
            return Err(BackendPoolError::NoBackends);
        }
        let mut backends: Vec<Backend> = Vec::new();
        let mut i: usize = 0;
        while i < n
            invariant
                n == configs@.len(),
                n == parsed@.len(),
                i <= n,
                backends@.len() == i,
                forall|k: int| 0 <= k < i ==> #[trigger] parsed@[k] is Ok,
                forall|k: int|
                    0 <= k < i ==> #[trigger] backends@[k] == (Backend {
                        addr: parsed@[k]->Ok_0,
                        weight: configs@[k].weight,
                        healthy: true,
                        active_connections: 0,
                    }),
            decreases n - i,
        {
            match Backend::from_config(&configs[i], parsed[i]) {
                Ok(b) => {
                    backends.push(b);
                },
                Err(e) => {
                    assert(has_invalid_addr(parsed@)) by {
                        assert(parsed@[i as int] is Err);
                    }
                    return Err(BackendPoolError::AddrParseError(e));
                },
            }
            i = i + 1;
        }
        Ok(BackendPool::new(backends))
    }

    /// All backends of the pool, in order.
    pub fn all_backends(&self) -> (r: &[Backend])
        ensures
            r@ == self@,
    {
        self.backends.as_slice()
    }

    fn find_addr(&self, addr: SocketAddr) -> (r: Option<usize>)
        requires
            self.wf(),
        ensures
            r matches Some(i) ==> i < self@.len(),
            r == match first_at(self@, addr) {
                Some(i) => Some(i as usize),
                None => None::<usize>,
            },
    {
        let n = self.backends.len();
        let mut i: usize = 0;
        while i < n
            invariant
                n == self@.len(),
                i <= n,
                forall|j: int| 0 <= j < i ==> self@[j].addr != addr,
            decreases n - i,
        {
            if self.backends[i].addr == addr {
                proof {
                    lemma_first_at_unique(self@, addr, i as int);
                }
                return Some(i);
            }
            i = i + 1;
        }
        assert(!exists|i: int| is_first_at(self@, addr, i));
        None
    }

    /// Whether the first backend at `addr` is healthy; `None` where no
    /// backend has that address.
    pub fn get_health_by_addr(&self, addr: SocketAddr) -> (r: Option<bool>)
        requires
            self.wf(),
        ensures
            r == match first_at(self@, addr) {
                Some(i) => Some(self@[i].healthy),
                None => None::<bool>,
            },
    {
        match self.find_addr(addr) {
            Some(i) => Some(self.backends[i].healthy),
            None => None,
        }
    }

    /// The healthy backends, in their order in the pool.
    pub fn healthy_backends(&self) -> (r: Vec<Backend>)
        requires
            self.wf(),
        ensures
            r@ == healthy_view(self@),
            r@ == healthy_subsequence(self@),
    {
        let n = self.healthy_cache.len();
        let mut out: Vec<Backend> = Vec::new();
        let mut k: usize = 0;
        proof {
            lemma_healthy_indices(self@);
            law_healthy_view_is_filter(self@);
        }
        while k < n
            invariant
                self.wf(),
                n == self.healthy_cache@.len(),
                k <= n,
                forall|j: int| 0 <= j < n ==> #[trigger] self.healthy_cache@[j] < self@.len(),
                out@ =~= healthy_view(self@).take(k as int),
            decreases n - k,
        {
            let i = self.healthy_cache[k];
            out.push(self.backends[i]);
            k = k + 1;
        }
        out
    }

    /// The position in the pool of the `k`-th healthy backend.
    pub fn healthy_position(&self, k: usize) -> (r: usize)
        requires
            self.wf(),
            k < healthy_indices(self@).len(),
        ensures
            r == healthy_indices(self@)[k as int],
            r < self@.len(),
    {
        proof {
            lemma_healthy_indices(self@);
        }
        self.healthy_cache[k]
    }

    /// Recomputes the positions of the healthy backends from the backends'
    /// health; the backends stay as they are.
    pub fn rebuild_healthy_cache(&mut self)
        ensures
            final(self).wf(),
            final(self)@ == old(self)@,
            healthy_view(final(self)@) == healthy_subsequence(final(self)@),
    {
        let _n = self.backends.len();
        self.healthy_cache = Self::healthy_positions(&self.backends);
        proof {
            law_healthy_view_is_filter(self@);
        }
    }

    fn set_health_at(&mut self, index: usize, healthy: bool)
        requires
            old(self).wf(),
            index < old(self)@.len(),
        ensures
            final(self).wf(),
            final(self)@ == old(self)@.update(index as int, Backend { healthy, ..old(self)@[index as int] }),
    {
        let mut b = self.backends[index];
        b.set_health(healthy);
        self.backends.set(index, b);
        self.rebuild_healthy_cache();
    }

    /// Marks backend `index` healthy; `None`, and no change, where there is
    /// no such backend.
    pub fn mark_healthy(&mut self, index: usize) -> (r: Option<()>)
        requires
            old(self).wf(),
        ensures
            final(self).wf(),
            index < old(self)@.len() ==> r is Some && final(self)@ == old(self)@.update(
                index as int,
                Backend { healthy: true, ..old(self)@[index as int] },
            ),
            index >= old(self)@.len() ==> r is None && final(self)@ == old(self)@,
    {
        if index < self.backends.len() {
            self.set_health_at(index, true);
            Some(())
        } else {
            None
        }
    }

    /// Marks backend `index` unhealthy; `None`, and no change, where there is
    /// no such backend.
    pub fn mark_unhealthy(&mut self, index: usize) -> (r: Option<()>)
        requires
            old(self).wf(),
        ensures
            final(self).wf(),
            index < old(self)@.len() ==> r is Some && final(self)@ == old(self)@.update(
                index as int,
                Backend { healthy: false, ..old(self)@[index as int] },
            ),
            index >= old(self)@.len() ==> r is None && final(self)@ == old(self)@,
    {
        if index < self.backends.len() {
            self.set_health_at(index, false);
            Some(())
        } else {
            None
        }
    }

    /// Marks the first backend at `addr` healthy; `None`, and no change,
    /// where no backend has that address.
    pub fn mark_healthy_by_addr(&mut self, addr: SocketAddr) -> (r: Option<()>)
        requires
            old(self).wf(),
        ensures
            final(self).wf(),
            match first_at(old(self)@, addr) {
                Some(i) => r is Some && final(self)@ == old(self)@.update(
                    i,
                    Backend { healthy: true, ..old(self)@[i] },
                ),
                None => r is None && final(self)@ == old(self)@,
            },
    {
        match self.find_addr(addr) {
            Some(i) => {
                self.set_health_at(i, true);
                Some(())
            },
            None => None,
        }
    }

    /// Marks the first backend at `addr` unhealthy; `None`, and no change,
    /// where no backend has that address.
    pub fn mark_unhealthy_by_addr(&mut self, addr: SocketAddr) -> (r: Option<()>)
        requires
            old(self).wf(),
        ensures
            final(self).wf(),
            match first_at(old(self)@, addr) {
                Some(i) => r is Some && final(self)@ == old(self)@.update(
                    i,
                    Backend { healthy: false, ..old(self)@[i] },
                ),
                None => r is None && final(self)@ == old(self)@,
            },
    {
        match self.find_addr(addr) {
            Some(i) => {
                self.set_health_at(i, false);
                Some(())
            },
            None => None,
        }
    }

    /// Counts one more open connection to backend `index` (wrapping past the
    /// largest `usize`); `None`, and no change, where there is no such backend.
    pub fn increment_connections(&mut self, index: usize) -> (r: Option<()>)
        requires
            old(self).wf(),
        ensures
            final(self).wf(),
            index < old(self)@.len() ==> r is Some && final(self)@ == connection_opened(
                old(self)@,
                index as int,
            ),
            index >= old(self)@.len() ==> r is None && final(self)@ == old(self)@,
    {
        if index < self.backends.len() {
            let mut b = self.backends[index];
            b.increment_connections();
            self.backends.set(index, b);
            proof {
                assert(healthy_indices(self.backends@) == healthy_indices(old(self).backends@))
                    by {
                    lemma_same_health_same_indices(old(self).backends@, self.backends@);
                }
            }
            Some(())
        } else {
            None
        }
    }

    /// Counts one open connection less to backend `index` (wrapping below 0);
    /// `None`, and no change, where there is no such backend.
    pub fn decrement_connections(&mut self, index: usize) -> (r: Option<()>)
        requires
            old(self).wf(),
        ensures
            final(self).wf(),
            index < old(self)@.len() ==> r is Some && final(self)@ == connection_closed(
                old(self)@,
                index as int,
            ),
            index >= old(self)@.len() ==> r is None && final(self)@ == old(self)@,
    {
        if index < self.backends.len() {
            let mut b = self.backends[index];
            b.decrement_connections();
            self.backends.set(index, b);
            proof {
                assert(healthy_indices(self.backends@) == healthy_indices(old(self).backends@))
                    by {
                    lemma_same_health_same_indices(old(self).backends@, self.backends@);
                }
            }
            Some(())
        } else {
            None
        }
    }
}

impl Default for BackendPool {
    fn default() -> (r: BackendPool)
        ensures
            r.wf(),
            r@ == Seq::<Backend>::empty(),
    {
        let r = BackendPool { backends: Vec::new(), healthy_cache: Vec::new() };
        assert(healthy_indices(r.backends@) == Seq::<usize>::empty());
        r
    }
}

} // verus!
