use vstd::prelude::*;

use super::LoadBalancingStrategy;
use crate::addr::SocketAddr;
use crate::backend::{wrapping_inc, Backend};
use crate::config::Algorithm;

verus! {

/// Hands requests to the backends in turn, by a counter of the calls made.
#[derive(Debug)]
pub struct RoundRobin {
    counter: usize,
}

impl View for RoundRobin {
    type V = usize;

    /// The counter of calls made so far (wrapping past the largest `usize`).
    closed spec fn view(&self) -> usize {
        self.counter
    }
}

impl RoundRobin {
    /// A round robin whose next choice is the first backend.
    pub fn new() -> (r: RoundRobin)
        ensures
            r@ == 0,
    {
        RoundRobin { counter: 0 }
    }

    /// What one call of `select` with `backends` does, from state `self` to
    /// state `next`, giving `r`.
    pub open spec fn select_post(self, backends: Seq<Backend>, next: RoundRobin, r: Option<usize>) -> bool {
        if backends.len() == 0 {
            r is None && next@ == self@
        } else {
            r == Some((self@ as int % backends.len() as int) as usize) && next@ == wrapping_inc(self@)
        }
    }
}

impl LoadBalancingStrategy for RoundRobin {
    open spec fn accepts(&self, backends: Seq<Backend>) -> bool {
        true
    }

    open spec fn kind(&self) -> Algorithm {
        Algorithm::RoundRobin
    }

    /// The backend at the counter modulo the number of backends; the counter
    /// then moves on by one. An empty list leaves the counter as it is.
    fn select(&mut self, backends: &[Backend], client_addr: Option<&SocketAddr>) -> (r: Option<
        usize,
    >)
        ensures
            old(self).select_post(backends@, *final(self), r),
    {
        if backends.len() == 0 {
            return None;
        }
        let index = self.counter % backends.len();
        self.counter = self.counter.wrapping_add(1);
        Some(index)
    }

    fn algorithm(&self) -> (r: Algorithm) {
        Algorithm::RoundRobin
    }

    fn can_select(&self, backends: &[Backend]) -> (r: bool) {
        true
    }
}

/// The counter after `j` calls with non-empty lists, starting from `c`.
pub open spec fn counter_after(c: usize, j: nat) -> usize
    decreases j,
{
    if j == 0 {
        c
    } else {
        wrapping_inc(counter_after(c, (j - 1) as nat))
    }
}

proof fn lemma_counter_after(c: usize, j: nat)
    requires
        c + j <= usize::MAX,
    ensures
        counter_after(c, j) == c + j,
    decreases j,
{
    if j > 0 {
        lemma_counter_after(c, (j - 1) as nat);
    }
}

/// A fresh round robin, called `k` times with lists of `n` backends, has its
/// counter at `k`, so call number `k` (counting from 0) chooses backend
/// `k % n`, as long as the counter has not wrapped.
pub proof fn law_round_robin_sequence(n: usize, k: nat)
    requires
        0 < n,
        k <= usize::MAX,
    ensures
        counter_after(0, k) == k,
        counter_after(0, k) as int % n as int == k as int % n as int,
{
    lemma_counter_after(0, k);
}

/// One of the `n` calls made from counter `c` with lists of `n` backends
/// chooses backend `i`.
pub open spec fn chosen_within(c: usize, n: usize, i: int) -> bool {
    exists|j: int| 0 <= j < n && #[trigger] counter_after(c, j as nat) % n == i
}

/// Any `n` consecutive calls with lists of `n` backends choose every one of
/// the `n` backends, wherever the counter stands (as long as it does not wrap
/// within them).
pub proof fn law_round_robin_cycle(c: usize, n: usize)
    requires
        0 < n,
        c + n - 1 <= usize::MAX,
    ensures
        forall|i: int| 0 <= i < n ==> #[trigger] chosen_within(c, n, i),
{
    assert forall|i: int| 0 <= i < n implies #[trigger] chosen_within(c, n, i) by {
        let r = (c % n) as int;
        let q = (c / n) as int;
        vstd::arithmetic::div_mod::lemma_fundamental_div_mod(c as int, n as int);
        let j: int = if i >= r {
            i - r
        } else {
            i + n - r
        };
        lemma_counter_after(c, j as nat);
        if i >= r {
            vstd::arithmetic::div_mod::lemma_fundamental_div_mod_converse(c + j, n as int, q, i);
        } else {
            assert(c + j == (q + 1) * n + i) by (nonlinear_arith)
                requires
                    c == n * q + r,
                    j == i + n - r,
            ;
            vstd::arithmetic::div_mod::lemma_fundamental_div_mod_converse(
                c + j,
                n as int,
                q + 1,
                i,
            );
        }
        assert(counter_after(c, j as nat) % n == i);
    }
}

/// How many of the first `j` lists of `lists` are non-empty.
pub open spec fn nonempty_calls(lists: Seq<Seq<Backend>>, j: nat) -> nat
    decreases j,
{
    if j == 0 {
        0
    } else {
        nonempty_calls(lists, (j - 1) as nat) + if lists[j - 1].len() > 0 {
            1nat
        } else {
            0nat
        }
    }
}

/// A run of `select` calls: call `j` is made with `lists[j]` on the strategy
/// `states[j]`, leaves `states[j + 1]` and gives `results[j]`.
pub open spec fn round_robin_run(
    states: Seq<RoundRobin>,
    lists: Seq<Seq<Backend>>,
    results: Seq<Option<usize>>,
) -> bool {
    &&& states.len() == lists.len() + 1
    &&& results.len() == lists.len()
    &&& forall|j: int|
        0 <= j < lists.len() ==> #[trigger] states[j].select_post(
            lists[j],
            states[j + 1],
            results[j],
        )
}

/// A fresh round robin called with the same `n` backends, the calls
/// interleaved with calls on an empty list (fewer calls in all than the
/// largest `usize`): the `k`-th call with the backends (counting from 0)
/// chooses backend `k % n`, and a call on an empty list chooses nothing and
/// leaves the rotation where it was.
pub proof fn law_round_robin_interleaved(
    b: Seq<Backend>,
    states: Seq<RoundRobin>,
    lists: Seq<Seq<Backend>>,
    results: Seq<Option<usize>>,
)
    requires
        b.len() > 0,
        lists.len() < usize::MAX,
        round_robin_run(states, lists, results),
        states[0]@ == 0,
        forall|j: int| 0 <= j < lists.len() ==> #[trigger] lists[j] == b || lists[j].len() == 0,
    ensures
        forall|j: int|
            0 <= j < lists.len() && lists[j].len() == 0 ==> (#[trigger] results[j]) is None
                && states[j + 1]@ == states[j]@,
        forall|j: int|
            0 <= j < lists.len() && lists[j].len() > 0 ==> #[trigger] results[j] == Some(
                (nonempty_calls(lists, j as nat) % b.len()) as usize,
            ),
{
    assert forall|j: int| 0 <= j <= lists.len() implies #[trigger] states[j]@ == nonempty_calls(
        lists,
        j as nat,
    ) && nonempty_calls(lists, j as nat) <= j by {
        lemma_round_robin_run_counter(b, states, lists, results, j as nat);
    }
    assert forall|j: int| 0 <= j < lists.len() implies (lists[j].len() == 0 ==> (
    #[trigger] results[j]) is None && states[j + 1]@ == states[j]@) && (lists[j].len() > 0
        ==> results[j] == Some((nonempty_calls(lists, j as nat) % b.len()) as usize)) by {
        assert(states[j].select_post(lists[j], states[j + 1], results[j]));
        assert(states[j]@ == nonempty_calls(lists, j as nat));
        assert(states[j + 1]@ == nonempty_calls(lists, (j + 1) as nat));
    }
}

proof fn lemma_round_robin_run_counter(
    b: Seq<Backend>,
    states: Seq<RoundRobin>,
    lists: Seq<Seq<Backend>>,
    results: Seq<Option<usize>>,
    j: nat,
)
    requires
        j <= lists.len() < usize::MAX,
        round_robin_run(states, lists, results),
        states[0]@ == 0,
    ensures
        states[j as int]@ == nonempty_calls(lists, j),
        nonempty_calls(lists, j) <= j,
    decreases j,
{
    if j > 0 {
        let p = (j - 1) as int;
        lemma_round_robin_run_counter(b, states, lists, results, (j - 1) as nat);
        assert(states[p].select_post(lists[p], states[p + 1], results[p]));
    }
}

} // verus!
