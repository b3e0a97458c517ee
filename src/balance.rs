use vstd::prelude::*;
use crate::migration::{Mode, Parameters, MAX_BALANCE};

verus! {

/// Margin added to the mean queue length to get the balance threshold.
pub const BALANCE_MARGIN: usize = 4;

pub open spec fn sum_lengths(s: Seq<usize>) -> int
    decreases s.len(),
{
    if s.len() == 0 { 0 } else { sum_lengths(s.drop_last()) + s.last() }
}

/// The balance threshold: the mean queue length plus the margin.
pub open spec fn threshold(s: Seq<usize>) -> int {
    sum_lengths(s) / (s.len() as int) + BALANCE_MARGIN
}

/// Worker `a` comes before worker `b`: shorter queue first, ties by id.
pub open spec fn comes_before(lengths: Seq<usize>, a: int, b: int) -> bool {
    lengths[a] < lengths[b] || (lengths[a] == lengths[b] && a < b)
}

/// Worker `k` appears in `order`.
pub open spec fn covers(order: Seq<usize>, k: int) -> bool {
    exists|s: int| 0 <= s < order.len() && order[s] == k
}

/// `order` lists every worker once, shortest queue first, ties by id.
pub open spec fn sorted_workers(lengths: Seq<usize>, order: Seq<usize>) -> bool {
    &&& order.len() == lengths.len()
    &&& forall|k: int| 0 <= k < lengths.len() ==> #[trigger] covers(order, k)
    &&& forall|i: int| 0 <= i < order.len() ==> #[trigger] order[i] < lengths.len()
    &&& forall|i: int, j: int| 0 <= i < j < order.len() ==> comes_before(lengths, #[trigger] order[i] as int, #[trigger] order[j] as int)
}

/// In `order`, the first `below` workers have queues shorter than `avg`,
/// the last `above` longer, and no others.
pub open spec fn split_at(lengths: Seq<usize>, order: Seq<usize>, avg: int, below: int, above: int) -> bool {
    &&& 0 <= below && 0 <= above && below + above <= order.len()
    &&& forall|i: int| 0 <= i < order.len() ==> (lengths[#[trigger] order[i] as int] < avg <==> i < below)
    &&& forall|i: int| 0 <= i < order.len() ==> (lengths[#[trigger] order[i] as int] > avg <==> i >= order.len() - above)
}

pub open spec fn clamp_balance(avg: int) -> usize {
    if avg <= MAX_BALANCE { avg as usize } else { MAX_BALANCE }
}

/// The order for the worker at position `i` of `order`. Walking inward from
/// both ends: the `i`-th shortest queue below the threshold pulls from the
/// longest queues above it, in turn; the `m`-th longest above pushes to the
/// shortest below, in turn.
#[verifier::opaque]
pub open spec fn planned(order: Seq<usize>, avg: int, below: int, above: int, i: int) -> Parameters {
    let n = order.len() as int;
    if i < below && above > 0 {
        Parameters { target: order[n - 1 - i % above], mode: Mode::Pull, balance: clamp_balance(avg) }
    } else if i >= n - above && below > 0 {
        Parameters { target: order[(n - 1 - i) % below], mode: Mode::Push, balance: clamp_balance(avg) }
    } else {
        Parameters { target: 0, mode: Mode::Idle, balance: 0 }
    }
}

/// The balancer's plan is exactly the one the inward walk gives.
pub open spec fn is_plan(lengths: Seq<usize>, plan: Seq<Parameters>) -> bool {
    exists|order: Seq<usize>, below: int, above: int|
        #[trigger] sorted_workers(lengths, order) && #[trigger] split_at(lengths, order, threshold(lengths), below, above)
        && plan.len() == lengths.len()
        && forall|i: int| 0 <= i < order.len() ==> plan[#[trigger] order[i] as int] == planned(order, threshold(lengths), below, above, i)
}

proof fn lemma_sum_bound(s: Seq<usize>)
    ensures
        0 <= sum_lengths(s) <= s.len() * 0x1_0000_0000_0000_0000,
    decreases s.len(),
{
    if s.len() > 0 {
        lemma_sum_bound(s.drop_last());
    }
}

/// The threshold: mean queue length plus the margin.
fn compute_threshold(lengths: &Vec<usize>) -> (r: u128)
    requires
        lengths@.len() > 0,
    ensures
        r == threshold(lengths@),
{
    let mut sum: u128 = 0;
    let mut i: usize = 0;
    while i < lengths.len()
        invariant
            i <= lengths@.len(),
            sum == sum_lengths(lengths@.subrange(0, i as int)),
            lengths@.len() > 0,
        decreases lengths@.len() - i,
    {
        proof {
            let p = lengths@.subrange(0, i as int + 1);
            assert(p.drop_last() =~= lengths@.subrange(0, i as int));
            lemma_sum_bound(lengths@.subrange(0, i as int));
            assert(i < 0x1_0000_0000_0000_0000);
        }
        assert(sum <= 0xFFFF_FFFF_FFFF_FFFF * 0x1_0000_0000_0000_0000) by (nonlinear_arith)
            requires sum <= i * 0x1_0000_0000_0000_0000, i < 0x1_0000_0000_0000_0000;
        sum = sum + lengths[i] as u128;
        i = i + 1;
    }
    assert(lengths@.subrange(0, i as int) =~= lengths@);
    proof { lemma_sum_bound(lengths@); }
    let n = lengths.len() as u128;
    assert(sum / n <= 0x1_0000_0000_0000_0000) by (nonlinear_arith)
        requires sum <= n * 0x1_0000_0000_0000_0000, n > 0;
    sum / n + BALANCE_MARGIN as u128
}

/// Orders the workers by queue length, ties by id.
fn sort_workers(lengths: &Vec<usize>) -> (order: Vec<usize>)
    ensures
        sorted_workers(lengths@, order@),
{
    let n = lengths.len();
    let mut order: Vec<usize> = Vec::new();
    let mut k: usize = 0;
    while k < n
        invariant
            n == lengths@.len(),
            k <= n,
            order@.len() == k,
            forall|i: int| 0 <= i < k ==> #[trigger] order@[i] == i,
        decreases n - k,
    {
        order.push(k);
        k = k + 1;
    }
    assert forall|t: int| 0 <= t < n implies #[trigger] covers(order@, t) by {
        assert(order@[t] == t);
    }
    let mut pos: usize = 0;
    while pos < n
        invariant
            n == lengths@.len(),
            order@.len() == n,
            pos <= n,
            forall|i: int| 0 <= i < n ==> #[trigger] order@[i] < n,
            forall|i: int, j: int| 0 <= i < j < n ==> order@[i] != order@[j],
            forall|i: int, j: int| 0 <= i < j < n && i < pos ==> comes_before(lengths@, #[trigger] order@[i] as int, #[trigger] order@[j] as int),
            forall|t: int| 0 <= t < n ==> #[trigger] covers(order@, t),
        decreases n - pos,
    {
        let mut best: usize = pos;
        let mut j: usize = pos + 1;
        while j < n
            invariant
                n == lengths@.len(),
                order@.len() == n,
                pos < n,
                pos <= best < j <= n,
                forall|i: int| 0 <= i < n ==> #[trigger] order@[i] < n,
                forall|t: int| pos <= t < j && t != best ==> comes_before(lengths@, order@[best as int] as int, #[trigger] order@[t] as int),
                forall|i: int, j2: int| 0 <= i < j2 < n ==> order@[i] != order@[j2],
            decreases n - j,
        {
            let a = order[best];
            let b = order[j];
            if lengths[b] < lengths[a] || (lengths[b] == lengths[a] && b < a) {
                best = j;
            }
            j = j + 1;
        }
        let ghost before = order@;
        let x = order[pos];
        let y = order[best];
        order.set(pos, y);
        order.set(best, x);
        assert forall|i: int, j2: int| 0 <= i < j2 < n implies order@[i] != order@[j2] by {
            let i0 = if i == pos { best as int } else if i == best { pos as int } else { i };
            let j0 = if j2 == pos { best as int } else if j2 == best { pos as int } else { j2 };
            assert(order@[i] == before[i0]);
            assert(order@[j2] == before[j0]);
        }
        assert forall|t: int| 0 <= t < n implies #[trigger] covers(order@, t) by {
            assert(covers(before, t));
            let w = choose|w: int| 0 <= w < n && before[w] == t;
            let w2 = if w == pos { best as int } else if w == best { pos as int } else { w };
            assert(order@[w2] == t);
        }
        assert forall|i: int, j2: int| 0 <= i < j2 < n && i < pos + 1 implies comes_before(lengths@, #[trigger] order@[i] as int, #[trigger] order@[j2] as int) by {
            if i < pos {
                let j0 = if j2 == pos { best as int } else if j2 == best { pos as int } else { j2 };
                assert(order@[j2] == before[j0]);
                assert(order@[i] == before[i]);
            } else {
                let j0 = if j2 == best { pos as int } else { j2 };
                assert(order@[j2] == before[j0]);
                assert(before[j0] != before[best as int]);
            }
        }
        pos = pos + 1;
    }
    order
}

/// Where the scans for the two ends of a sorted order stop, the order splits
/// into below, middle and above.
proof fn lemma_split(lengths: Seq<usize>, order: Seq<usize>, avg: int, below: int, above: int)
    requires
        sorted_workers(lengths, order),
        0 <= below <= order.len(),
        0 <= above <= order.len() - below,
        forall|i: int| 0 <= i < below ==> lengths[#[trigger] order[i] as int] < avg,
        below < order.len() ==> lengths[order[below] as int] >= avg,
        forall|i: int| order.len() - above <= i < order.len() ==> lengths[#[trigger] order[i] as int] > avg,
        above < order.len() - below ==> lengths[order[order.len() - 1 - above] as int] <= avg,
    ensures
        split_at(lengths, order, avg, below, above),
{
    let n = order.len() as int;
    assert forall|i: int| 0 <= i < n implies (lengths[#[trigger] order[i] as int] < avg <==> i < below) by {
        if i > below {
            assert(comes_before(lengths, order[below] as int, order[i] as int));
        }
    }
    assert forall|i: int| 0 <= i < n implies (lengths[#[trigger] order[i] as int] > avg <==> i >= n - above) by {
        if i < n - above {
            let e = n - 1 - above;
            if e >= below {
                if i < e {
                    assert(comes_before(lengths, order[i] as int, order[e] as int));
                }
            }
        }
    }
}

/// The order for the worker at position `i` of `order`.
fn planned_at(order: &Vec<usize>, avg: u128, balance: usize, below: usize, above: usize, i: usize) -> (p: Parameters)
    requires
        below + above <= order@.len(),
        i < order@.len(),
        balance == clamp_balance(avg as int),
    ensures
        p == planned(order@, avg as int, below as int, above as int, i as int),
{
    reveal(planned);
    let n = order.len();
    if i < below && above > 0 {
        let m = i % above;
        assert(0 <= m < above);
        Parameters { target: order[n - 1 - m], mode: Mode::Pull, balance }
    } else if i >= n - above && below > 0 {
        let m = (n - 1 - i) % below;
        assert(0 <= m < below);
        Parameters { target: order[m], mode: Mode::Push, balance }
    } else {
        Parameters::none()
    }
}

/// Writes each worker's order, given the sorted order and the split.
fn fill_plan(order: &Vec<usize>, avg: u128, balance: usize, below: usize, above: usize) -> (plan: Vec<Parameters>)
    requires
        below + above <= order@.len(),
        balance == clamp_balance(avg as int),
        forall|i: int| 0 <= i < order@.len() ==> #[trigger] order@[i] < order@.len(),
        forall|a: int, b: int| 0 <= a < b < order@.len() ==> order@[a] != order@[b],
    ensures
        plan@.len() == order@.len(),
        forall|s: int| 0 <= s < order@.len() ==> plan@[#[trigger] order@[s] as int] == planned(order@, avg as int, below as int, above as int, s),
{
    let n = order.len();
    let mut plan: Vec<Parameters> = Vec::new();
    let mut k: usize = 0;
    while k < n
        invariant
            k <= n,
            plan@.len() == k,
        decreases n - k,
    {
        plan.push(Parameters::none());
        k = k + 1;
    }
    let mut i: usize = 0;
    while i < n
        invariant
            n == order@.len(),
            below + above <= n,
            balance == clamp_balance(avg as int),
            plan@.len() == n,
            i <= n,
            forall|i: int| 0 <= i < n ==> #[trigger] order@[i] < n,
            forall|a: int, b: int| 0 <= a < b < n ==> order@[a] != order@[b],
            forall|s: int| 0 <= s < i ==> plan@[#[trigger] order@[s] as int] == planned(order@, avg as int, below as int, above as int, s),
        decreases n - i,
    {
        let p = planned_at(order, avg, balance, below, above, i);
        let ghost before = plan@;
        plan.set(order[i], p);
        assert forall|s: int| 0 <= s < i + 1 implies plan@[#[trigger] order@[s] as int] == planned(order@, avg as int, below as int, above as int, s) by {
            if s < i {
                assert(order@[s] != order@[i as int]);
                assert(plan@[order@[s] as int] == before[order@[s] as int]);
            }
        }
        i = i + 1;
    }
    plan
}

/// Computes every worker's migration order from the queue lengths the
/// workers observed: `r[w]` is the order for worker `w`.
pub fn plan_balance(lengths: &Vec<usize>) -> (r: Vec<Parameters>)
    requires
        lengths@.len() > 0,
    ensures
        is_plan(lengths@, r@),
        forall|k: int| 0 <= k < r@.len() ==> (#[trigger] r@[k]).target < r@.len() && r@[k].balance <= MAX_BALANCE,
        // When every worker observed the same length, nothing moves.
        (forall|i: int| 0 <= i < lengths@.len() ==> #[trigger] lengths@[i] == lengths@[0])
            ==> forall|k: int| 0 <= k < r@.len() ==> #[trigger] r@[k].mode == Mode::Idle,
{
    let n = lengths.len();
    let avg = compute_threshold(lengths);
    let balance: usize = if avg <= MAX_BALANCE as u128 { avg as usize } else { MAX_BALANCE };
    let order = sort_workers(lengths);
    let mut below: usize = 0;
    while below < n && (lengths[order[below]] as u128) < avg
        invariant
            n == lengths@.len(),
            sorted_workers(lengths@, order@),
            below <= n,
            forall|i: int| 0 <= i < below ==> lengths@[#[trigger] order@[i] as int] < avg,
        decreases n - below,
    {
        below = below + 1;
    }
    let mut above: usize = 0;
    while above < n - below && (lengths[order[n - 1 - above]] as u128) > avg
        invariant
            n == lengths@.len(),
            sorted_workers(lengths@, order@),
            below <= n,
            above <= n - below,
            forall|i: int| n - above <= i < n ==> lengths@[#[trigger] order@[i] as int] > avg,
        decreases n - below - above,
    {
        above = above + 1;
    }
    proof { lemma_split(lengths@, order@, avg as int, below as int, above as int); }
    assert forall|a: int, b: int| 0 <= a < b < n implies order@[a] != order@[b] by {
        assert(comes_before(lengths@, order@[a] as int, order@[b] as int));
    }
    let plan = fill_plan(&order, avg, balance, below, above);
    assert forall|k: int| 0 <= k < plan@.len() implies (#[trigger] plan@[k]).target < plan@.len() && plan@[k].balance <= MAX_BALANCE by {
        assert(covers(order@, k));
        let s = choose|s: int| 0 <= s < order@.len() && order@[s] == k;
        assert(plan@[order@[s] as int] == planned(order@, avg as int, below as int, above as int, s));
        lemma_planned_fits(order@, avg as int, below as int, above as int, s);
    }
    proof {
        if forall|i: int| 0 <= i < lengths@.len() ==> #[trigger] lengths@[i] == lengths@[0] {
            lemma_threshold_of_equal(lengths@);
            assert(order@[n - 1] < n);
            assert(lengths@[order@[n - 1] as int] == lengths@[0]);
            assert(above == 0);
            lemma_idle_when_nothing_above(plan@, order@, avg as int, below as int);
        }
    }
    assert(sorted_workers(lengths@, order@) && split_at(lengths@, order@, threshold(lengths@), below as int, above as int));
    assert(is_plan(lengths@, plan@));
    plan
}

proof fn lemma_idle_when_nothing_above(plan: Seq<Parameters>, order: Seq<usize>, avg: int, below: int)
    requires
        forall|k: int| 0 <= k < plan.len() ==> #[trigger] covers(order, k),
        forall|i: int| 0 <= i < order.len() ==> plan[#[trigger] order[i] as int] == planned(order, avg, below, 0, i),
    ensures
        forall|k: int| 0 <= k < plan.len() ==> #[trigger] plan[k].mode == Mode::Idle,
{
    assert forall|k: int| 0 <= k < plan.len() implies #[trigger] plan[k].mode == Mode::Idle by {
        assert(covers(order, k));
        let s = choose|s: int| 0 <= s < order.len() && order[s] == k;
        assert(plan[order[s] as int] == planned(order, avg, below, 0, s));
        lemma_planned_idle(order, avg, below, s);
    }
}

proof fn lemma_planned_fits(order: Seq<usize>, avg: int, below: int, above: int, i: int)
    requires
        0 <= i < order.len(),
        0 <= avg,
        0 <= below,
        0 <= above,
        below + above <= order.len(),
        forall|j: int| 0 <= j < order.len() ==> #[trigger] order[j] < order.len(),
    ensures
        planned(order, avg, below, above, i).target < order.len(),
        planned(order, avg, below, above, i).balance <= MAX_BALANCE,
{
    reveal(planned);
    let n = order.len() as int;
    if i < below && above > 0 {
        assert(0 <= i % above < above) by (nonlinear_arith) requires above > 0, i >= 0;
        assert(order[n - 1 - i % above] < n);
    } else if i >= n - above && below > 0 {
        assert(0 <= (n - 1 - i) % below < below) by (nonlinear_arith) requires below > 0, n - 1 - i >= 0;
        assert(order[(n - 1 - i) % below] < n);
    }
}

proof fn lemma_planned_idle(order: Seq<usize>, avg: int, below: int, i: int)
    requires
        0 <= i < order.len(),
    ensures
        planned(order, avg, below, 0, i).mode == Mode::Idle,
{
    reveal(planned);
}

proof fn lemma_threshold_of_equal(lengths: Seq<usize>)
    requires
        lengths.len() > 0,
        forall|i: int| 0 <= i < lengths.len() ==> #[trigger] lengths[i] == lengths[0],
    ensures
        threshold(lengths) == lengths[0] + BALANCE_MARGIN,
{
    let n = lengths.len() as int;
    lemma_sum_of_equal(lengths, n);
    let l = lengths[0] as int;
    let t = sum_lengths(lengths);
    assert(t / n == l) by (nonlinear_arith)
        requires t == n * l, n > 0;
}

proof fn lemma_sum_of_equal(lengths: Seq<usize>, n: int)
    requires
        n == lengths.len(),
        forall|i: int| 0 <= i < lengths.len() ==> #[trigger] lengths[i] == lengths[0],
    ensures
        n > 0 ==> sum_lengths(lengths) == n * lengths[0],
    decreases lengths.len(),
{
    if n > 1 {
        let t = lengths.drop_last();
        assert(t[0] == lengths[0]);
        lemma_sum_of_equal(t, n - 1);
        assert(sum_lengths(lengths) == (n - 1) * lengths[0] + lengths[0]);
        assert((n - 1) * lengths[0] + lengths[0] == n * lengths[0]) by (nonlinear_arith);
    } else if n == 1 {
        assert(sum_lengths(lengths.drop_last()) == 0);
    }
}

} // verus!
