use vstd::prelude::*;

use super::LoadBalancingStrategy;
use crate::addr::SocketAddr;
use crate::backend::Backend;
use crate::config::Algorithm;

verus! {

/// `a + b`, wrapping round within `i64`.
pub open spec fn wrapping_add_i64(a: i64, b: int) -> i64 {
    vstd::wrapping::i64_specs::wrapping_add(a, b as i64)
}

/// The sum of the weights of the first `n` backends of `bs`.
pub open spec fn total_weight(bs: Seq<Backend>, n: nat) -> int
    decreases n,
{
    if n == 0 {
        0
    } else {
        total_weight(bs, (n - 1) as nat) + bs[n - 1].weight
    }
}

/// The credits after each backend's weight is added to its own credit
/// (wrapping); credits beyond the backends are kept.
pub open spec fn credited(credits: Seq<i64>, bs: Seq<Backend>) -> Seq<i64> {
    Seq::new(
        credits.len(),
        |i: int|
            if i < bs.len() {
                wrapping_add_i64(credits[i], bs[i].weight as int)
            } else {
                credits[i]
            },
    )
}

/// The position of the first largest among the first `n` of `s`.
pub open spec fn first_max(s: Seq<i64>, n: nat) -> nat
    decreases n,
{
    if n <= 1 {
        0
    } else {
        let k = first_max(s, (n - 1) as nat);
        if s[n - 1] > s[k as int] {
            (n - 1) as nat
        } else {
            k
        }
    }
}

/// `first_max` is a position holding the largest of the first `n`, and
/// everything before it is smaller.
pub proof fn lemma_first_max(s: Seq<i64>, n: nat)
    requires
        0 < n <= s.len(),
    ensures
        first_max(s, n) < n,
        forall|j: int| 0 <= j < n ==> #[trigger] s[j] <= s[first_max(s, n) as int],
        forall|j: int| 0 <= j < first_max(s, n) ==> #[trigger] s[j] < s[first_max(s, n) as int],
    decreases n,
{
    if n > 1 {
        lemma_first_max(s, (n - 1) as nat);
    }
}

/// The weights of a prefix add up to no more than those of a longer one.
pub proof fn lemma_total_weight_monotone(bs: Seq<Backend>, m: nat, n: nat)
    requires
        m <= n,
    ensures
        0 <= total_weight(bs, m) <= total_weight(bs, n),
    decreases n,
{
    if n > 0 && m < n {
        lemma_total_weight_monotone(bs, m, (n - 1) as nat);
    } else if n > 0 {
        lemma_total_weight_monotone(bs, (n - 1) as nat, (n - 1) as nat);
    }
}

/// One call of smooth weighted round robin on `credits`: every backend's
/// weight is added to its credit, the first backend with the largest credit
/// is chosen, and the total weight is taken from its credit (all wrapping).
/// Gives the new credits and the position chosen.
pub open spec fn swrr_step(credits: Seq<i64>, bs: Seq<Backend>) -> (Seq<i64>, nat) {
    let c = credited(credits, bs);
    let k = first_max(c, bs.len());
    (
        c.update(
            k as int,
            vstd::wrapping::i64_specs::wrapping_sub(c[k as int], total_weight(bs, bs.len()) as i64),
        ),
        k,
    )
}

/// Smooth weighted round robin, as nginx does it. Each backend keeps a
/// credit. On each call every backend's weight is added to its credit, the
/// backend with the largest credit (the first of several) is chosen, and the
/// total weight is taken from the chosen backend's credit. Credits are kept
/// by position; a position first seen (on the first call, or when the list
/// has grown) starts with a zero credit.
#[derive(Debug)]
pub struct WeightedRoundRobin {
    credits: Option<Vec<i64>>,
}

impl View for WeightedRoundRobin {
    type V = Option<Seq<i64>>;

    /// The credits, once the first call has set them up.
    closed spec fn view(&self) -> Option<Seq<i64>> {
        match self.credits {
            Some(c) => Some(c@),
            None => None,
        }
    }
}

impl WeightedRoundRobin {
    /// A strategy whose credits are not set up yet.
    pub fn new() -> (r: WeightedRoundRobin)
        ensures
            r@ is None,
    {
        WeightedRoundRobin { credits: None }
    }

    /// The credits a call with `n` backends starts from: those kept, with a
    /// zero credit for each position not seen before.
    pub open spec fn start_credits(self, n: nat) -> Seq<i64> {
        match self@ {
            Some(c) => if c.len() < n {
                c + zero_credits((n - c.len()) as nat)
            } else {
                c
            },
            None => zero_credits(n),
        }
    }

    /// What one call of `select` with `backends` does, from state `self` to
    /// state `next`, giving `r`: one step of the credits the call starts from.
    pub open spec fn select_post(self, backends: Seq<Backend>, next: WeightedRoundRobin, r: Option<
        usize,
    >) -> bool {
        if backends.len() == 0 {
            r is None && next@ == self@
        } else {
            let (credits, k) = swrr_step(self.start_credits(backends.len()), backends);
            r == Some(k as usize) && next@ == Some(credits)
        }
    }
}

impl LoadBalancingStrategy for WeightedRoundRobin {
    /// The backends' weights must add up within `i64`.
    open spec fn accepts(&self, backends: Seq<Backend>) -> bool {
        total_weight(backends, backends.len()) <= i64::MAX
    }

    open spec fn kind(&self) -> Algorithm {
        Algorithm::WeightedRoundRobin
    }

    fn select(&mut self, backends: &[Backend], client_addr: Option<&SocketAddr>) -> (r: Option<
        usize,
    >)
        ensures
            old(self).select_post(backends@, *final(self), r),
    {
        let n = backends.len();
        if n == 0 {
            return None;
        }
        let ghost start = old(self).start_credits(n as nat);
        let mut credits: Vec<i64> = match self.credits.take() {
            Some(c) => c,
            None => Vec::new(),
        };
        let ghost kept = credits@;
        while credits.len() < n
            invariant
                kept.len() <= credits@.len(),
                credits@.len() <= kept.len() || credits@.len() <= n,
                credits@ =~= kept + zero_credits((credits@.len() - kept.len()) as nat),
            decreases n - credits@.len(),
        {
            credits.push(0);
        }
        proof {
            if kept.len() >= n {
                assert(credits@ =~= kept);
            }
        }
        assert(credits@ == start);
        let ghost c = credited(start, backends@);
        let mut total: i64 = 0;
        let mut best_index: usize = 0;
        let mut best_credit: i64 = i64::MIN;
        let mut i: usize = 0;
        while i < n
            invariant
                n == backends@.len(),
                0 < n <= start.len(),
                c == credited(start, backends@),
                total_weight(backends@, n as nat) <= i64::MAX,
                i <= n,
                total == total_weight(backends@, i as nat),
                credits@.len() == start.len(),
                forall|j: int| 0 <= j < i ==> #[trigger] credits@[j] == c[j],
                forall|j: int| i <= j < start.len() ==> #[trigger] credits@[j] == start[j],
                i == 0 ==> best_index == 0 && best_credit == i64::MIN,
                i > 0 ==> best_index == first_max(c, i as nat) && best_index < i && best_credit
                    == c[best_index as int],
            decreases n - i,
        {
            proof {
                lemma_first_max(c, (i + 1) as nat);
                lemma_total_weight_monotone(backends@, (i + 1) as nat, n as nat);
            }
            let w = backends[i].get_weight() as i64;
            total = total + w;
            let credit = credits[i].wrapping_add(w);
            credits.set(i, credit);
            if credit > best_credit {
                best_credit = credit;
                best_index = i;
            }
            i = i + 1;
        }
        assert(credits@ =~= c);
        let winner = credits[best_index].wrapping_sub(total);
        credits.set(best_index, winner);
        self.credits = Some(credits);
        Some(best_index)
    }

    fn algorithm(&self) -> (r: Algorithm) {
        Algorithm::WeightedRoundRobin
    }

    fn can_select(&self, backends: &[Backend]) -> (r: bool) {
        let n = backends.len();
        let mut total: i64 = 0;
        let mut i: usize = 0;
        while i < n
            invariant
                n == backends@.len(),
                i <= n,
                total == total_weight(backends@, i as nat),
            decreases n - i,
        {
            let w = backends[i].get_weight() as i64;
            if total > i64::MAX - w {
                proof {
                    lemma_total_weight_monotone(backends@, (i + 1) as nat, n as nat);
                }
                return false;
            }
            total = total + w;
            i = i + 1;
        }
        true
    }
}

/// The credits after `t` calls with `bs`, starting from `credits`.
pub open spec fn credits_after(credits: Seq<i64>, bs: Seq<Backend>, t: nat) -> Seq<i64>
    decreases t,
{
    if t == 0 {
        credits
    } else {
        swrr_step(credits_after(credits, bs, (t - 1) as nat), bs).0
    }
}

/// The position chosen by call number `t` (counting from 0) with `bs`,
/// starting from `credits`.
pub open spec fn pick_at(credits: Seq<i64>, bs: Seq<Backend>, t: nat) -> nat {
    swrr_step(credits_after(credits, bs, t), bs).1
}

/// How many of the first `t` calls with `bs`, starting from `credits`, chose
/// position `i`.
pub open spec fn times_picked(credits: Seq<i64>, bs: Seq<Backend>, i: nat, t: nat) -> nat
    decreases t,
{
    if t == 0 {
        0
    } else {
        times_picked(credits, bs, i, (t - 1) as nat) + if pick_at(credits, bs, (t - 1) as nat)
            == i {
            1nat
        } else {
            0nat
        }
    }
}

/// All-zero credits for `n` backends, as the first call sets them up.
pub open spec fn zero_credits(n: nat) -> Seq<i64> {
    Seq::new(n, |i: int| 0i64)
}

/// The sum of the first `n` credits of `s`.
pub open spec fn credit_sum(s: Seq<i64>, n: nat) -> int
    decreases n,
{
    if n == 0 {
        0
    } else {
        credit_sum(s, (n - 1) as nat) + s[n - 1]
    }
}

proof fn lemma_credit_sum_update(s: Seq<i64>, n: nat, k: int, v: i64)
    requires
        0 <= k < n <= s.len(),
    ensures
        credit_sum(s.update(k, v), n) == credit_sum(s, n) - s[k] + v,
    decreases n,
{
    if n - 1 > k {
        lemma_credit_sum_update(s, (n - 1) as nat, k, v);
    } else {
        lemma_credit_sum_same(s, s.update(k, v), (n - 1) as nat);
    }
}

proof fn lemma_credit_sum_same(s: Seq<i64>, u: Seq<i64>, n: nat)
    requires
        n <= s.len(),
        n <= u.len(),
        forall|i: int| 0 <= i < n ==> s[i] == u[i],
    ensures
        credit_sum(s, n) == credit_sum(u, n),
    decreases n,
{
    if n > 0 {
        lemma_credit_sum_same(s, u, (n - 1) as nat);
    }
}

proof fn lemma_credit_sum_credited(s: Seq<i64>, bs: Seq<Backend>, n: nat)
    requires
        n <= bs.len() <= s.len(),
        forall|i: int|
            0 <= i < n ==> i64::MIN <= #[trigger] s[i] + bs[i].weight <= i64::MAX,
    ensures
        credit_sum(credited(s, bs), n) == credit_sum(s, n) + total_weight(bs, n),
    decreases n,
{
    if n > 0 {
        lemma_credit_sum_credited(s, bs, (n - 1) as nat);
    }
}

proof fn lemma_credit_sum_positive_max(s: Seq<i64>, n: nat)
    requires
        0 < n <= s.len(),
        credit_sum(s, n) > 0,
    ensures
        s[first_max(s, n) as int] > 0,
{
    lemma_first_max(s, n);
    let m = s[first_max(s, n) as int];
    if m <= 0 {
        lemma_credit_sum_nonpositive(s, n, n);
    }
}

proof fn lemma_credit_sum_nonpositive(s: Seq<i64>, n: nat, full: nat)
    requires
        0 < full <= s.len(),
        n <= full,
        forall|j: int| 0 <= j < full ==> #[trigger] s[j] <= 0,
    ensures
        credit_sum(s, n) <= 0,
    decreases n,
{
    if n > 0 {
        lemma_credit_sum_nonpositive(s, (n - 1) as nat, full);
    }
}

proof fn lemma_credit_sum_zero(s: Seq<i64>, n: nat, full: nat)
    requires
        n <= full <= s.len(),
        forall|j: int| 0 <= j < full ==> #[trigger] s[j] >= 0,
        credit_sum(s, n) == 0,
    ensures
        forall|j: int| 0 <= j < n ==> #[trigger] s[j] == 0,
    decreases n,
{
    if n > 0 {
        lemma_credit_sum_nonnegative(s, (n - 1) as nat, full);
        lemma_credit_sum_zero(s, (n - 1) as nat, full);
    }
}

proof fn lemma_credit_sum_nonnegative(s: Seq<i64>, n: nat, full: nat)
    requires
        n <= full <= s.len(),
        forall|j: int| 0 <= j < full ==> #[trigger] s[j] >= 0,
    ensures
        credit_sum(s, n) >= 0,
    decreases n,
{
    if n > 0 {
        lemma_credit_sum_nonnegative(s, (n - 1) as nat, full);
    }
}

/// The sum of the first `m` credits, each above `-W`, is at least
/// `m * (1 - W)`.
proof fn lemma_credit_sum_lower(s: Seq<i64>, m: nat, w: int)
    requires
        m <= s.len(),
        forall|j: int| 0 <= j < m ==> #[trigger] s[j] > -w,
    ensures
        credit_sum(s, m) >= m * (1 - w),
    decreases m,
{
    if m > 0 {
        lemma_credit_sum_lower(s, (m - 1) as nat, w);
        let p: int = m - 1;
        assert(s[p] >= 1 - w);
        assert(p * (1 - w) + (1 - w) == (p + 1) * (1 - w)) by (nonlinear_arith);
        assert(credit_sum(s, m) == credit_sum(s, (m - 1) as nat) + s[p]);
        assert(m * (1 - w) == (p + 1) * (1 - w));
    } else {
        assert(m * (1 - w) == 0) by (nonlinear_arith)
            requires
                m == 0,
        ;
    }
}

/// Credits that add up to 0 and are each above `-W` are each at most
/// `(n - 1) * W`.
proof fn lemma_credit_upper(s: Seq<i64>, n: nat, w: int, i: int)
    requires
        0 <= i < n <= s.len(),
        1 <= w <= i64::MAX,
        credit_sum(s, n) == 0,
        forall|j: int| 0 <= j < n ==> #[trigger] s[j] > -w,
    ensures
        s[i] <= (n - 1) * w,
{
    let v = (1 - w) as i64;
    let t = s.update(i, v);
    lemma_credit_sum_update(s, n, i, v);
    assert forall|j: int| 0 <= j < n implies #[trigger] t[j] > -w by {
        if j != i {
            assert(t[j] == s[j]);
        }
    }
    lemma_credit_sum_lower(t, n, w);
    assert((n - 1) * (w - 1) <= (n - 1) * w) by (nonlinear_arith)
        requires
            n >= 1,
    ;
    assert(1 - w - n * (1 - w) == (n - 1) * (w - 1)) by (nonlinear_arith);
}

/// No credit addition overflows `i64` in the first `t` calls from all-zero
/// credits with `bs`: each credit plus its backend's weight stays within
/// `i64` before each of those calls. While this holds the wrapping
/// arithmetic of a call is exact.
pub open spec fn swrr_adds_fit(bs: Seq<Backend>, t: nat) -> bool {
    forall|s: nat, i: int|
        s < t && 0 <= i < bs.len() ==> #[trigger] credits_after(zero_credits(bs.len()), bs, s)[i]
            + bs[i].weight <= i64::MAX
}

/// What holds after any number `t` of calls from all-zero credits with the
/// same `n` backends, `W` being the total weight (positive and within
/// `i64`), as long as no credit addition has overflowed: credit `i` is
/// `t * w_i - W * (times i was chosen)`, it is above `-W`, and the credits
/// add up to 0.
#[verifier::spinoff_prover]
pub proof fn law_swrr_run_invariant(bs: Seq<Backend>, t: nat)
    requires
        bs.len() > 0,
        0 < total_weight(bs, bs.len()) <= i64::MAX,
        swrr_adds_fit(bs, t),
    ensures
        ({
            let n = bs.len();
            let w = total_weight(bs, n);
            let c = credits_after(zero_credits(n), bs, t);
            &&& c.len() == n
            &&& credit_sum(c, n) == 0
            &&& forall|i: int|
                0 <= i < n ==> #[trigger] c[i] == t * bs[i].weight - w * times_picked(
                    zero_credits(n),
                    bs,
                    i as nat,
                    t,
                ) && c[i] > -w
        }),
    decreases t,
{
    let n = bs.len();
    let w = total_weight(bs, n);
    let z = zero_credits(n);
    if t == 0 {
        lemma_credit_sum_zero_seq(n);
    } else {
        let tp = (t - 1) as nat;
        assert(swrr_adds_fit(bs, tp));
        law_swrr_run_invariant(bs, tp);
        let prev = credits_after(z, bs, tp);
        let c = credited(prev, bs);
        assert forall|i: int| 0 <= i < n implies i64::MIN <= #[trigger] prev[i] + bs[i].weight
            <= i64::MAX && c[i] == prev[i] + bs[i].weight by {
            assert(credits_after(z, bs, tp)[i] + bs[i].weight <= i64::MAX);
        }
        lemma_credit_sum_credited(prev, bs, n);
        assert(credit_sum(c, n) == w);
        lemma_first_max(c, n);
        lemma_credit_sum_positive_max(c, n);
        let k = first_max(c, n);
        assert(pick_at(z, bs, tp) == k);
        let next = c.update(k as int, vstd::wrapping::i64_specs::wrapping_sub(c[k as int], w as i64));
        assert(next == credits_after(z, bs, t));
        assert((w as i64) as int == w);
        assert(next[k as int] == c[k as int] - w);
        lemma_credit_sum_update(c, n, k as int, next[k as int]);
        assert forall|i: int| 0 <= i < n implies #[trigger] next[i] == t * bs[i].weight - w
            * times_picked(z, bs, i as nat, t) && next[i] > -w by {
            let wi = bs[i].weight as int;
            assert(t * wi == tp * wi + wi) by (nonlinear_arith)
                requires
                    tp == t - 1,
            ;
            let cnt = times_picked(z, bs, i as nat, tp) as int;
            if i == k {
                assert(w * (cnt + 1) == w * cnt + w) by (nonlinear_arith);
            }
        }
    }
}

/// Where the number of backends times the total weight fits in `i64`, no
/// credit addition overflows in any number of calls: credits that add up to
/// 0 and are each above `-W` are each at most `(n - 1) * W`.
#[verifier::spinoff_prover]
pub proof fn lemma_swrr_adds_fit_small(bs: Seq<Backend>, t: nat)
    requires
        bs.len() > 0,
        total_weight(bs, bs.len()) > 0,
        bs.len() * total_weight(bs, bs.len()) <= i64::MAX,
    ensures
        swrr_adds_fit(bs, t),
    decreases t,
{
    let n = bs.len();
    let w = total_weight(bs, n);
    let z = zero_credits(n);
    assert(w <= n * w) by (nonlinear_arith)
        requires
            n >= 1,
            w > 0,
    ;
    if t > 0 {
        let tp = (t - 1) as nat;
        lemma_swrr_adds_fit_small(bs, tp);
        law_swrr_run_invariant(bs, tp);
        let prev = credits_after(z, bs, tp);
        assert forall|s: nat, i: int| s < t && 0 <= i < n implies #[trigger] credits_after(
            z,
            bs,
            s,
        )[i] + bs[i].weight <= i64::MAX by {
            if s == tp {
                lemma_weight_le_total(bs, i, n);
                lemma_credit_upper(prev, n, w, i);
                assert((n - 1) * w + w == n * w) by (nonlinear_arith);
            }
        }
    }
}

/// Credits each at least `-(W - 1)` times their backend's weight add up to at
/// least `-(W - 1)` times the backends' total weight.
proof fn lemma_credit_sum_weighted_lower(s: Seq<i64>, bs: Seq<Backend>, m: nat, w: int)
    requires
        m <= s.len(),
        m <= bs.len(),
        forall|j: int| 0 <= j < m ==> #[trigger] s[j] >= -(w - 1) * bs[j].weight,
    ensures
        credit_sum(s, m) >= -(w - 1) * total_weight(bs, m),
    decreases m,
{
    if m > 0 {
        lemma_credit_sum_weighted_lower(s, bs, (m - 1) as nat, w);
        let p = (m - 1) as nat;
        let tw = total_weight(bs, p);
        let wi = bs[p as int].weight as int;
        assert(-(w - 1) * tw + -(w - 1) * wi == -(w - 1) * (tw + wi)) by (nonlinear_arith);
    }
}

/// A credit `t * w_j - W * k` above `-W` is at least `-(W - 1) * w_j`: for
/// weight 0 it is 0 (`k` is 0), and otherwise it is at least `1 - W`.
proof fn lemma_credit_weighted_floor(c: int, t: int, wj: int, w: int, k: int)
    requires
        c == t * wj - w * k,
        c > -w,
        w >= 1,
        wj >= 0,
        t >= 0,
        k >= 0,
    ensures
        c >= -(w - 1) * wj,
{
    if wj == 0 {
        assert(t * wj == 0 && -(w - 1) * wj == 0) by (nonlinear_arith)
            requires
                wj == 0,
        ;
        assert(k == 0) by (nonlinear_arith)
            requires
                -(w * k) > -w,
                w >= 1,
                k >= 0,
        ;
        assert(w * k == 0) by (nonlinear_arith)
            requires
                k == 0,
        ;
    } else {
        assert(1 - w >= -(w - 1) * wj) by (nonlinear_arith)
            requires
                wj >= 1,
                w >= 1,
        ;
    }
}

/// Where the total weight squared fits in `i64`, no credit addition
/// overflows in any number of calls, however many backends there are: a
/// backend of weight 0 is never chosen and keeps a zero credit, every other
/// credit is above `-W`, so credit `i` is at most `(W - 1) * (W - w_i)`.
#[verifier::spinoff_prover]
pub proof fn lemma_swrr_adds_fit_light(bs: Seq<Backend>, t: nat)
    requires
        bs.len() > 0,
        total_weight(bs, bs.len()) > 0,
        total_weight(bs, bs.len()) * total_weight(bs, bs.len()) <= i64::MAX,
    ensures
        swrr_adds_fit(bs, t),
    decreases t,
{
    let n = bs.len();
    let w = total_weight(bs, n);
    let z = zero_credits(n);
    assert(w <= w * w) by (nonlinear_arith)
        requires
            w >= 1,
    ;
    if t > 0 {
        let tp = (t - 1) as nat;
        lemma_swrr_adds_fit_light(bs, tp);
        law_swrr_run_invariant(bs, tp);
        let prev = credits_after(z, bs, tp);
        assert forall|j: int| 0 <= j < n implies #[trigger] prev[j] >= -(w - 1) * bs[j].weight by {
            let wj = bs[j].weight as int;
            let cnt = times_picked(z, bs, j as nat, tp) as int;
            assert(prev[j] == tp * wj - w * cnt && prev[j] > -w);
            lemma_credit_weighted_floor(prev[j] as int, tp as int, wj, w, cnt);
        }
        assert forall|s: nat, i: int| s < t && 0 <= i < n implies #[trigger] credits_after(
            z,
            bs,
            s,
        )[i] + bs[i].weight <= i64::MAX by {
            if s == tp {
                let wi = bs[i].weight as int;
                lemma_weight_le_total(bs, i, n);
                assert(0 <= (w - 1) * wi <= w * w) by (nonlinear_arith)
                    requires
                        0 <= wi <= w,
                        w >= 1,
                ;
                let v = (-(w - 1) * wi) as i64;
                let u = prev.update(i, v);
                lemma_credit_sum_update(prev, n, i, v);
                assert forall|j: int| 0 <= j < n implies #[trigger] u[j] >= -(w - 1)
                    * bs[j].weight by {
                    if j != i {
                        assert(u[j] == prev[j]);
                    }
                }
                lemma_credit_sum_weighted_lower(u, bs, n, w);
                assert(-(w - 1) * wi == -((w - 1) * wi)) by (nonlinear_arith);
                assert(v as int == -(w - 1) * wi);
                assert(credit_sum(prev, n) == 0);
                assert(credit_sum(u, n) == v - prev[i]);
                assert(-(w - 1) * w == -((w - 1) * w)) by (nonlinear_arith);
                assert(prev[i] + wi <= w * w) by (nonlinear_arith)
                    requires
                        prev[i] <= -(w - 1) * wi + (w - 1) * w,
                        1 <= w,
                        0 <= wi <= w,
                ;
            }
        }
    }
}

/// `a + b` calls are `a` calls followed by `b` more.
proof fn lemma_credits_after_add(c: Seq<i64>, bs: Seq<Backend>, a: nat, b: nat)
    ensures
        credits_after(c, bs, a + b) == credits_after(credits_after(c, bs, a), bs, b),
    decreases b,
{
    if b > 0 {
        lemma_credits_after_add(c, bs, a, (b - 1) as nat);
        assert((a + b - 1) as nat == a + (b - 1) as nat);
    }
}

/// Where `p` calls bring all-zero credits back to all zero, the credits
/// repeat with period `p`.
proof fn lemma_credits_periodic(bs: Seq<Backend>, p: nat, m: nat, r: nat)
    requires
        credits_after(zero_credits(bs.len()), bs, p) == zero_credits(bs.len()),
    ensures
        credits_after(zero_credits(bs.len()), bs, m * p + r) == credits_after(
            zero_credits(bs.len()),
            bs,
            r,
        ),
    decreases m,
{
    if m > 0 {
        let rest = ((m - 1) * p + r) as nat;
        assert(m * p + r == p + rest) by (nonlinear_arith)
            requires
                rest == (m - 1) * p + r,
        ;
        lemma_credits_periodic(bs, p, (m - 1) as nat, r);
        lemma_credits_after_add(zero_credits(bs.len()), bs, p, rest);
    } else {
        assert(m * p + r == r) by (nonlinear_arith)
            requires
                m == 0,
        ;
    }
}

/// After `k` full cycles of `W` calls from all-zero credits, with no credit
/// addition overflowing, every backend has been chosen `k` times its weight
/// and the credits are all zero again.
proof fn lemma_swrr_cycles(bs: Seq<Backend>, k: nat)
    requires
        bs.len() > 0,
        0 < total_weight(bs, bs.len()) <= i64::MAX,
        swrr_adds_fit(bs, k * total_weight(bs, bs.len()) as nat),
    ensures
        forall|i: int|
            0 <= i < bs.len() ==> #[trigger] times_picked(
                zero_credits(bs.len()),
                bs,
                i as nat,
                k * total_weight(bs, bs.len()) as nat,
            ) == k * bs[i].weight,
        credits_after(zero_credits(bs.len()), bs, k * total_weight(bs, bs.len()) as nat)
            == zero_credits(bs.len()),
{
    let n = bs.len();
    let w = total_weight(bs, n);
    let z = zero_credits(n);
    let t = (k * w) as nat;
    assert(k * w >= 0) by (nonlinear_arith)
        requires
            w >= 0,
    ;
    law_swrr_run_invariant(bs, t);
    let c = credits_after(z, bs, t);
    assert forall|i: int| 0 <= i < n implies #[trigger] c[i] >= 0 by {
        let wi = bs[i].weight as int;
        let cnt = times_picked(z, bs, i as nat, t) as int;
        assert(c[i] == w * (k * wi - cnt)) by (nonlinear_arith)
            requires
                c[i] == t * wi - w * cnt,
                t == k * w,
        ;
        if k * wi - cnt <= -1 {
            assert(w * (k * wi - cnt) <= -w) by (nonlinear_arith)
                requires
                    k * wi - cnt <= -1,
                    w > 0,
            ;
        }
    }
    lemma_credit_sum_zero(c, n, n);
    assert forall|i: int| 0 <= i < n implies #[trigger] times_picked(z, bs, i as nat, t) == k
        * bs[i].weight by {
        let wi = bs[i].weight as int;
        let cnt = times_picked(z, bs, i as nat, t) as int;
        assert(c[i] == 0);
        assert(k * wi == cnt) by (nonlinear_arith)
            requires
                0 == t * wi - w * cnt,
                t == k * w,
                w > 0,
        ;
    }
    assert(c =~= z);
}

proof fn lemma_credit_sum_zero_seq(n: nat)
    ensures
        credit_sum(zero_credits(n), n) == 0,
    decreases n,
{
    if n > 0 {
        lemma_credit_sum_same(zero_credits(n), zero_credits((n - 1) as nat), (n - 1) as nat);
        lemma_credit_sum_zero_seq((n - 1) as nat);
    }
}

proof fn lemma_weight_le_total(bs: Seq<Backend>, i: int, n: nat)
    requires
        0 <= i < n <= bs.len(),
    ensures
        bs[i].weight <= total_weight(bs, n),
    decreases n,
{
    if i < n - 1 {
        lemma_weight_le_total(bs, i, (n - 1) as nat);
    } else {
        lemma_total_weight_monotone(bs, (n - 1) as nat, (n - 1) as nat);
    }
}

/// Calls keep the number of credits.
proof fn lemma_credits_after_len(c: Seq<i64>, bs: Seq<Backend>, t: nat)
    requires
        0 < bs.len() <= c.len(),
    ensures
        credits_after(c, bs, t).len() == c.len(),
    decreases t,
{
    if t > 0 {
        lemma_credits_after_len(c, bs, (t - 1) as nat);
        let prev = credits_after(c, bs, (t - 1) as nat);
        lemma_first_max(credited(prev, bs), bs.len());
    }
}

/// A call of `select` with the same non-empty backends, on a strategy whose
/// credits stand where `t` calls from all-zero credits leave them (fresh,
/// where `t` is 0), chooses call `t`'s pick and leaves the credits where
/// `t + 1` calls leave them. So a run of `select` calls on a fresh strategy
/// follows `credits_after` and `pick_at`.
pub proof fn lemma_select_follows_run(
    s: WeightedRoundRobin,
    bs: Seq<Backend>,
    t: nat,
    next: WeightedRoundRobin,
    r: Option<usize>,
)
    requires
        bs.len() > 0,
        if t == 0 {
            s@ is None || s@ == Some(zero_credits(bs.len()))
        } else {
            s@ == Some(credits_after(zero_credits(bs.len()), bs, t))
        },
        s.select_post(bs, next, r),
    ensures
        next@ == Some(credits_after(zero_credits(bs.len()), bs, t + 1)),
        r == Some(pick_at(zero_credits(bs.len()), bs, t) as usize),
{
    lemma_credits_after_len(zero_credits(bs.len()), bs, t);
    assert(s.start_credits(bs.len()) == credits_after(zero_credits(bs.len()), bs, t));
}

/// Over any number `k` of full cycles of calls, as many calls as `k` times
/// the sum `W` of the weights, started from fresh (all-zero) credits with the
/// same backends each time, every backend is chosen exactly `k` times its
/// weight, and the credits are all zero again afterwards: each cycle starts
/// as a fresh strategy does. The law holds wherever the credits' arithmetic
/// is exact, that is where no credit addition overflows `i64` during the
/// first cycle (the cycles repeat, so none overflows afterwards either).
#[verifier::spinoff_prover]
pub proof fn law_swrr_weighted_cycle(bs: Seq<Backend>, k: nat)
    requires
        total_weight(bs, bs.len()) <= i64::MAX,
        swrr_adds_fit(bs, total_weight(bs, bs.len()) as nat),
    ensures
        forall|i: int|
            0 <= i < bs.len() ==> #[trigger] times_picked(
                zero_credits(bs.len()),
                bs,
                i as nat,
                k * total_weight(bs, bs.len()) as nat,
            ) == k * bs[i].weight,
        credits_after(zero_credits(bs.len()), bs, k * total_weight(bs, bs.len()) as nat)
            == zero_credits(bs.len()),
{
    let n = bs.len();
    lemma_total_weight_monotone(bs, 0, n);
    let w = total_weight(bs, n);
    let z = zero_credits(n);
    let t = (k * w) as nat;
    assert(k * w >= 0) by (nonlinear_arith)
        requires
            w >= 0,
    ;
    if w == 0 {
        assert(t == 0) by (nonlinear_arith)
            requires
                w == 0,
                t == k * w,
        ;
        assert forall|i: int| 0 <= i < n implies #[trigger] times_picked(z, bs, i as nat, t)
            == k * bs[i].weight by {
            lemma_weight_le_total(bs, i, n);
            assert(k * bs[i].weight == 0) by (nonlinear_arith)
                requires
                    bs[i].weight == 0,
            ;
        }
        assert(credits_after(z, bs, 0) == z);
    } else {
        if n == 0 {
            assert(w == 0);
        }
        let wn = w as nat;
        assert(1 * w == w);
        lemma_swrr_cycles(bs, 1);
        assert forall|s: nat, i: int| s < t && 0 <= i < n implies #[trigger] credits_after(
            z,
            bs,
            s,
        )[i] + bs[i].weight <= i64::MAX by {
            let m = s / wn;
            let r = s % wn;
            vstd::arithmetic::div_mod::lemma_fundamental_div_mod(s as int, w);
            assert(s == m * wn + r) by (nonlinear_arith)
                requires
                    s as int == w * (s as int / w) + (s as int % w),
                    m == s / wn,
                    r == s % wn,
                    wn == w,
            ;
            lemma_credits_periodic(bs, wn, m, r);
            assert(credits_after(z, bs, r)[i] + bs[i].weight <= i64::MAX);
        }
        lemma_swrr_cycles(bs, k);
    }
}

/// Where the number of backends times the total weight, or the total weight
/// squared, fits in `i64`, the weighted cycle law holds: no credit addition
/// overflows there.
pub proof fn law_swrr_weighted_cycle_bounded(bs: Seq<Backend>, k: nat)
    requires
        bs.len() * total_weight(bs, bs.len()) <= i64::MAX || total_weight(bs, bs.len())
            * total_weight(bs, bs.len()) <= i64::MAX,
    ensures
        forall|i: int|
            0 <= i < bs.len() ==> #[trigger] times_picked(
                zero_credits(bs.len()),
                bs,
                i as nat,
                k * total_weight(bs, bs.len()) as nat,
            ) == k * bs[i].weight,
        credits_after(zero_credits(bs.len()), bs, k * total_weight(bs, bs.len()) as nat)
            == zero_credits(bs.len()),
{
    let n = bs.len();
    let w = total_weight(bs, n);
    lemma_total_weight_monotone(bs, 0, n);
    if n > 0 && w > 0 {
        assert(w <= n * w && w <= w * w) by (nonlinear_arith)
            requires
                n >= 1,
                w >= 1,
        ;
        if n * w <= i64::MAX {
            lemma_swrr_adds_fit_small(bs, w as nat);
        } else {
            lemma_swrr_adds_fit_light(bs, w as nat);
        }
    } else if n == 0 {
        assert(swrr_adds_fit(bs, w as nat));
    } else {
        assert(swrr_adds_fit(bs, 0));
    }
    law_swrr_weighted_cycle(bs, k);
}

} // verus!
