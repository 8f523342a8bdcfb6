//! Makespan minimisation for independent tasks on identical processors
//! (the P||Cmax problem), by exhaustive search and by branch and bound.

use vstd::prelude::*;

verus! {

use crate::min64;

/// The sum of a sequence of durations, as an unbounded integer.
pub open spec fn seq_sum(s: Seq<u64>) -> int
    decreases s.len(),
{
    if s.len() == 0 {
        0
    } else {
        s[0] + seq_sum(s.drop_first())
    }
}

/// The largest element of a sequence of loads; zero for an empty sequence.
pub open spec fn seq_max(s: Seq<u64>) -> u64
    decreases s.len(),
{
    if s.len() == 0 {
        0
    } else {
        let m = seq_max(s.drop_first());
        if s[0] >= m {
            s[0]
        } else {
            m
        }
    }
}

/// The best achievable makespan when the loads in `procs` are already
/// committed and every duration in `times` must still be assigned to
/// some processor.
pub open spec fn best_makespan(procs: Seq<u64>, times: Seq<u64>) -> u64
    decreases times.len(), procs.len() + 2int,
{
    if times.len() == 0 {
        seq_max(procs)
    } else {
        best_in_range(procs, times, 0, procs.len() as int)
    }
}

/// The best achievable makespan when the first remaining duration may only
/// be placed on a processor with index in `[from, to)`; `u64::MAX` for an
/// empty range.  For an empty `times` the range is irrelevant and the value
/// is the current makespan.
pub open spec fn best_in_range(procs: Seq<u64>, times: Seq<u64>, from: int, to: int) -> u64
    decreases times.len(), to - from + 1int,
{
    if from >= to {
        u64::MAX
    } else if times.len() == 0 {
        seq_max(procs)
    } else if !(0 <= from < procs.len()) {
        u64::MAX
    } else {
        min64(
            best_makespan(procs.update(from, (procs[from] + times[0]) as u64), times.drop_first()),
            best_in_range(procs, times, from + 1, to),
        )
    }
}

proof fn lemma_seq_sum_nonneg(s: Seq<u64>)
    ensures
        seq_sum(s) >= 0,
    decreases s.len(),
{
    if s.len() > 0 {
        lemma_seq_sum_nonneg(s.drop_first());
    }
}

/// Summing a prefix of one more element.
proof fn lemma_seq_sum_take(s: Seq<u64>, i: int)
    requires
        0 <= i < s.len(),
    ensures
        seq_sum(s.take(i + 1)) == seq_sum(s.take(i)) + s[i],
    decreases i,
{
    if i == 0 {
        assert(s.take(1).drop_first() =~= s.take(0));
        assert(s.take(0).len() == 0);
    } else {
        assert(s.take(i + 1).drop_first() =~= s.drop_first().take(i));
        assert(s.take(i).drop_first() =~= s.drop_first().take(i - 1));
        lemma_seq_sum_take(s.drop_first(), i - 1);
    }
}

proof fn lemma_seq_sum_whole(s: Seq<u64>)
    ensures
        seq_sum(s.take(s.len() as int)) == seq_sum(s),
{
    assert(s.take(s.len() as int) =~= s);
}

/// Every element is bounded by the sum of its sequence.
proof fn lemma_seq_sum_element(s: Seq<u64>, i: int)
    requires
        0 <= i < s.len(),
    ensures
        s[i] <= seq_sum(s),
    decreases s.len(),
{
    if i == 0 {
        lemma_seq_sum_nonneg(s.drop_first());
    } else {
        lemma_seq_sum_element(s.drop_first(), i - 1);
    }
}

/// Raising one load by `v` raises the sum by `v`.
proof fn lemma_seq_sum_update(s: Seq<u64>, i: int, v: u64)
    requires
        0 <= i < s.len(),
    ensures
        seq_sum(s.update(i, v)) == seq_sum(s) - s[i] + v,
    decreases s.len(),
{
    if i == 0 {
        assert(s.update(0, v).drop_first() =~= s.drop_first());
    } else {
        assert(s.update(i, v).drop_first() =~= s.drop_first().update(i - 1, v));
        lemma_seq_sum_update(s.drop_first(), i - 1, v);
    }
}

/// The largest element as seen from a prefix of one more element.
proof fn lemma_seq_max_take(s: Seq<u64>, i: int)
    requires
        0 <= i < s.len(),
    ensures
        seq_max(s.take(i + 1)) == if s[i] >= seq_max(s.take(i)) {
            s[i]
        } else {
            seq_max(s.take(i))
        },
    decreases i,
{
    if i == 0 {
        assert(s.take(1).drop_first() =~= s.take(0));
        assert(s.take(1)[0] == s[0]);
    } else {
        assert(s.take(i + 1).drop_first() =~= s.drop_first().take(i));
        assert(s.take(i).drop_first() =~= s.drop_first().take(i - 1));
        lemma_seq_max_take(s.drop_first(), i - 1);
    }
}

/// Raising one load can only raise the current makespan.
proof fn lemma_seq_max_update_ge(s: Seq<u64>, i: int, v: u64)
    requires
        0 <= i < s.len(),
        v >= s[i],
    ensures
        seq_max(s.update(i, v)) >= seq_max(s),
    decreases s.len(),
{
    if i == 0 {
        assert(s.update(0, v).drop_first() =~= s.drop_first());
    } else {
        assert(s.update(i, v).drop_first() =~= s.drop_first().update(i - 1, v));
        lemma_seq_max_update_ge(s.drop_first(), i - 1, v);
    }
}

/// Committed loads only grow while durations are assigned, so the best
/// reachable makespan is never below the largest committed load.
proof fn lemma_best_ge_max(procs: Seq<u64>, times: Seq<u64>)
    requires
        seq_sum(procs) + seq_sum(times) <= u64::MAX,
    ensures
        best_makespan(procs, times) >= seq_max(procs),
    decreases times.len(), procs.len() + 2int,
{
    if times.len() > 0 {
        lemma_best_in_range_ge_max(procs, times, 0, procs.len() as int);
    }
}

proof fn lemma_best_in_range_ge_max(procs: Seq<u64>, times: Seq<u64>, from: int, to: int)
    requires
        seq_sum(procs) + seq_sum(times) <= u64::MAX,
    ensures
        best_in_range(procs, times, from, to) >= seq_max(procs),
    decreases times.len(), to - from + 1int,
{
    if from >= to || times.len() == 0 || !(0 <= from < procs.len()) {
    } else {
        let p2 = procs.update(from, (procs[from] + times[0]) as u64);
        lemma_seq_sum_element(procs, from);
        lemma_seq_sum_nonneg(times.drop_first());
        lemma_seq_sum_update(procs, from, (procs[from] + times[0]) as u64);
        assert(seq_sum(times) == times[0] + seq_sum(times.drop_first()));
        lemma_best_ge_max(p2, times.drop_first());
        lemma_seq_max_update_ge(procs, from, (procs[from] + times[0]) as u64);
        lemma_best_in_range_ge_max(procs, times, from + 1, to);
    }
}

/// Widening the processor range by its upper branch.
proof fn lemma_best_in_range_snoc(procs: Seq<u64>, times: Seq<u64>, from: int, to: int)
    requires
        0 <= from <= to < procs.len(),
        times.len() > 0,
    ensures
        best_in_range(procs, times, from, to + 1) == min64(
            best_in_range(procs, times, from, to),
            best_makespan(procs.update(to, (procs[to] + times[0]) as u64), times.drop_first()),
        ),
    decreases to - from,
{
    let branch = |k: int| best_makespan(
        procs.update(k, (procs[k] + times[0]) as u64),
        times.drop_first(),
    );
    if from == to {
        assert(best_in_range(procs, times, from, to) == u64::MAX);
        assert(best_in_range(procs, times, to + 1, to + 1) == u64::MAX);
        assert(best_in_range(procs, times, from, to + 1) == min64(branch(from), u64::MAX));
    } else {
        lemma_best_in_range_snoc(procs, times, from + 1, to);
        assert(best_in_range(procs, times, from, to + 1) == min64(
            branch(from),
            best_in_range(procs, times, from + 1, to + 1),
        ));
        assert(best_in_range(procs, times, from, to) == min64(
            branch(from),
            best_in_range(procs, times, from + 1, to),
        ));
    }
}

/// The largest element of a slice of loads; zero when it is empty.
pub fn max_of(v: &[u64]) -> (r: u64)
    ensures
        r == seq_max(v@),
{
    let mut r: u64 = 0;
    let mut i: usize = 0;
    while i < v.len()
        invariant
            i <= v.len(),
            r == seq_max(v@.take(i as int)),
        decreases v.len() - i,
    {
        proof {
            lemma_seq_max_take(v@, i as int);
        }
        if v[i] >= r {
            r = v[i];
        }
        i += 1;
    }
    proof {
        assert(v@.take(v.len() as int) =~= v@);
    }
    r
}

/// The sum of a slice of durations.
pub fn sum_of(v: &[u64]) -> (r: u64)
    requires
        seq_sum(v@) <= u64::MAX,
    ensures
        r == seq_sum(v@),
{
    let mut r: u64 = 0;
    let mut i: usize = 0;
    while i < v.len()
        invariant
            i <= v@.len(),
            seq_sum(v@) <= u64::MAX,
            r == seq_sum(v@.take(i as int)),
        decreases v@.len() - i,
    {
        proof {
            lemma_seq_sum_take(v@, i as int);
            lemma_seq_sum_tail_bound(v@, i as int);
        }
        r = r + v[i];
        i += 1;
    }
    proof {
        lemma_seq_sum_whole(v@);
    }
    r
}

/// A prefix sum plus the next element stays within the whole sum.
proof fn lemma_seq_sum_tail_bound(s: Seq<u64>, i: int)
    requires
        0 <= i < s.len(),
    ensures
        seq_sum(s.take(i)) + s[i] <= seq_sum(s),
    decreases s.len(),
{
    lemma_seq_sum_prefix_le(s, i + 1);
    lemma_seq_sum_take(s, i);
}

proof fn lemma_seq_sum_prefix_le(s: Seq<u64>, i: int)
    requires
        0 <= i <= s.len(),
    ensures
        seq_sum(s.take(i)) <= seq_sum(s),
    decreases s.len(),
{
    if i == 0 {
        lemma_seq_sum_nonneg(s);
    } else {
        assert(s.take(i).drop_first() =~= s.drop_first().take(i - 1));
        lemma_seq_sum_prefix_le(s.drop_first(), i - 1);
    }
}

/// Exhaustive search over all assignments of `times` onto the loads in
/// `procs`, restoring `procs` before returning.
pub fn brute_force_rec(procs: &mut Vec<u64>, times: &[u64]) -> (r: u64)
    requires
        old(procs).len() >= 1,
        seq_sum(old(procs)@) + seq_sum(times@) <= u64::MAX,
    ensures
        final(procs)@ == old(procs)@,
        r == best_makespan(old(procs)@, times@),
    decreases times@.len(),
{
    if times.len() == 0 {
        return max_of(procs.as_slice());
    }
    let time = times[0];
    let rest = &times[1..times.len()];
    proof {
        assert(rest@ =~= times@.drop_first());
    }
    let ghost procs0 = procs@;
    let mut best: u64 = u64::MAX;
    let mut i: usize = 0;
    while i < procs.len()
        invariant
            procs.len() == procs0.len() >= 1,
            procs@ == procs0,
            i <= procs.len(),
            seq_sum(procs0) + seq_sum(times@) <= u64::MAX,
            times@.len() > 0,
            time == times@[0],
            rest@ == times@.drop_first(),
            best == best_in_range(procs0, times@, 0, i as int),
        decreases procs.len() - i,
    {
        proof {
            lemma_seq_sum_element(procs0, i as int);
            lemma_seq_sum_nonneg(rest@);
            assert(seq_sum(times@) == time + seq_sum(rest@));
        }
        let load = procs[i];
        procs.set(i, load + time);
        proof {
            lemma_seq_sum_update(procs0, i as int, (load + time) as u64);
        }
        let r = brute_force_rec(procs, rest);
        procs.set(i, load);
        proof {
            assert(procs@ =~= procs0);
            lemma_best_in_range_snoc(procs0, times@, 0, i as int);
        }
        if r < best {
            best = r;
        }
        i += 1;
    }
    best
}

/// Exhaustive search; the entry point of the sequential baseline.
pub fn brute_force(times: &[u64], procs: Vec<u64>) -> (r: u64)
    requires
        procs.len() >= 1,
        seq_sum(procs@) + seq_sum(times@) <= u64::MAX,
    ensures
        r == best_makespan(procs@, times@),
{
    let mut procs = procs;
    brute_force_rec(&mut procs, times)
}

/// The number of doublings needed to reach `n`; `ceil(log2(n))`.
pub open spec fn clog2(n: int) -> nat
    decreases n,
{
    if n <= 1 {
        0
    } else {
        1 + clog2((n + 1) / 2)
    }
}

fn ceil_log2(n: usize) -> (r: usize)
    requires
        n >= 1,
    ensures
        r == clog2(n as int),
        r <= n,
{
    let mut m: usize = n;
    let mut r: usize = 0;
    while m > 1
        invariant
            1 <= m <= n,
            r + clog2(m as int) == clog2(n as int),
            r + m <= n + 1,
        decreases m,
    {
        m = m / 2 + m % 2;
        r = r + 1;
    }
    r
}

/// The search restructured as a binary split on the two processors, the
/// shape used when work is handed out by repeated halving.
pub fn brute_force_rec_par_split(procs: Vec<u64>, times: &[u64]) -> (r: u64)
    requires
        procs.len() == 2,
        seq_sum(procs@) + seq_sum(times@) <= u64::MAX,
    ensures
        r == best_makespan(procs@, times@),
    decreases times@.len(),
{
    if times.len() == 0 {
        return max_of(procs.as_slice());
    }
    let time = times[0];
    let rest = &times[1..times.len()];
    proof {
        assert(rest@ =~= times@.drop_first());
        lemma_seq_sum_element(procs@, 0);
        lemma_seq_sum_element(procs@, 1);
        lemma_seq_sum_nonneg(rest@);
        assert(seq_sum(times@) == time + seq_sum(rest@));
    }
    let ghost procs0 = procs@;
    let mut procs2 = procs.clone();
    let mut procs = procs;
    let load0 = procs[0];
    procs.set(0, load0 + time);
    let load1 = procs2[1];
    procs2.set(1, load1 + time);
    proof {
        lemma_seq_sum_update(procs0, 0, (load0 + time) as u64);
        lemma_seq_sum_update(procs0, 1, (load1 + time) as u64);
    }
    let a = brute_force_rec_par_split(procs, rest);
    let b = brute_force_rec_par_split(procs2, rest);
    proof {
        assert(best_in_range(procs0, times@, 2, 2) == u64::MAX);
        assert(best_in_range(procs0, times@, 1, 2) == min64(
            best_makespan(procs0.update(1, (procs0[1] + times@[0]) as u64), times@.drop_first()),
            u64::MAX,
        ));
    }
    if a <= b {
        a
    } else {
        b
    }
}

/// The larger of two machine words.
pub open spec fn max64(a: u64, b: u64) -> u64 {
    if a >= b {
        a
    } else {
        b
    }
}

/// A row of `p` processors that carry no load yet.
pub open spec fn zero_procs(p: int) -> Seq<u64> {
    Seq::new(p as nat, |i: int| 0u64)
}

proof fn lemma_seq_sum_zeros(p: int)
    requires
        p >= 0,
    ensures
        seq_sum(zero_procs(p)) == 0,
    decreases p,
{
    if p > 0 {
        assert(zero_procs(p).drop_first() =~= zero_procs(p - 1));
        lemma_seq_sum_zeros(p - 1);
    }
}

/// The search again, but handing each branch below `levels` to a worker of
/// its own on a private copy of the loads.  Here the copies are explored in
/// turn; the value is the same as that of the sequential search.
pub fn brute_force_rec_par(procs: &mut Vec<u64>, times: &[u64], levels: usize) -> (r: u64)
    requires
        old(procs).len() >= 1,
        seq_sum(old(procs)@) + seq_sum(times@) <= u64::MAX,
    ensures
        final(procs)@ == old(procs)@,
        r == best_makespan(old(procs)@, times@),
    decreases levels,
{
    if levels == 0 {
        return brute_force_rec(procs, times);
    }
    if times.len() == 0 {
        return max_of(procs.as_slice());
    }
    let time = times[0];
    let rest = &times[1..times.len()];
    proof {
        assert(rest@ =~= times@.drop_first());
    }
    let ghost procs0 = procs@;
    let mut best: u64 = u64::MAX;
    let mut i: usize = 0;
    while i < procs.len()
        invariant
            procs.len() == procs0.len() >= 1,
            procs@ == procs0,
            i <= procs.len(),
            seq_sum(procs0) + seq_sum(times@) <= u64::MAX,
            times@.len() > 0,
            time == times@[0],
            rest@ == times@.drop_first(),
            levels >= 1,
            best == best_in_range(procs0, times@, 0, i as int),
        decreases procs.len() - i,
    {
        proof {
            lemma_seq_sum_element(procs0, i as int);
            lemma_seq_sum_nonneg(rest@);
            assert(seq_sum(times@) == time + seq_sum(rest@));
        }
        let mut branch_procs = procs.clone();
        let load = branch_procs[i];
        branch_procs.set(i, load + time);
        proof {
            lemma_seq_sum_update(procs0, i as int, (load + time) as u64);
        }
        let r = brute_force_rec_par(&mut branch_procs, rest, levels - 1);
        proof {
            lemma_best_in_range_snoc(procs0, times@, 0, i as int);
        }
        if r < best {
            best = r;
        }
        i += 1;
    }
    best
}

/// Entry point of the search that spreads branches over `num_threads`
/// workers; the handed-out depth grows with the worker count.
pub fn brute_force_par(times: &[u64], procs: Vec<u64>, num_threads: usize) -> (r: u64)
    requires
        procs.len() >= 1,
        num_threads >= 1,
        seq_sum(procs@) + seq_sum(times@) <= u64::MAX,
    ensures
        r == best_makespan(procs@, times@),
{
    if procs.len() == 2 {
        return brute_force_rec_par_split(procs, times);
    }
    let l = ceil_log2(num_threads);
    // a recursion-depth budget; beyond 64 every branch is already parallel
    let levels: usize = if l > 32 {
        64
    } else {
        2 * l
    };
    let mut procs = procs;
    brute_force_rec_par(&mut procs, times, levels)
}

/// Search with pruning: a partial assignment whose makespan already
/// reaches the best known solution is abandoned.  The value is the best
/// known solution improved by every completed assignment, which is exactly
/// the exhaustive optimum capped at the incoming bound.
pub fn branch_and_bound_rec(procs: &mut Vec<u64>, times: &[u64], best_solution: u64) -> (r: u64)
    requires
        old(procs).len() >= 1,
        seq_sum(old(procs)@) + seq_sum(times@) <= u64::MAX,
    ensures
        final(procs)@ == old(procs)@,
        r == min64(best_solution, best_makespan(old(procs)@, times@)),
    decreases times@.len(),
{
    let ghost procs0 = procs@;
    let mx = max_of(procs.as_slice());
    if mx >= best_solution {
        proof {
            lemma_best_ge_max(procs0, times@);
        }
        return best_solution;
    }
    if times.len() == 0 {
        return mx;
    }
    let time = times[0];
    let rest = &times[1..times.len()];
    proof {
        assert(rest@ =~= times@.drop_first());
    }
    let mut best_solution = best_solution;
    let ghost b0 = best_solution;
    let mut i: usize = 0;
    while i < procs.len()
        invariant
            procs.len() == procs0.len() >= 1,
            procs@ == procs0,
            i <= procs.len(),
            seq_sum(procs0) + seq_sum(times@) <= u64::MAX,
            times@.len() > 0,
            time == times@[0],
            rest@ == times@.drop_first(),
            best_solution == min64(b0, best_in_range(procs0, times@, 0, i as int)),
        decreases procs.len() - i,
    {
        proof {
            lemma_seq_sum_element(procs0, i as int);
            lemma_seq_sum_nonneg(rest@);
            assert(seq_sum(times@) == time + seq_sum(rest@));
        }
        let load = procs[i];
        procs.set(i, load + time);
        proof {
            lemma_seq_sum_update(procs0, i as int, (load + time) as u64);
        }
        let r = branch_and_bound_rec(procs, rest, best_solution);
        procs.set(i, load);
        proof {
            assert(procs@ =~= procs0);
            lemma_best_in_range_snoc(procs0, times@, 0, i as int);
        }
        if r < best_solution {
            best_solution = r;
        }
        i += 1;
    }
    best_solution
}

/// Pruned search from an initial solution, on three processors.
pub fn branch_and_bound(times: &[u64], initial_solution: u64) -> (r: u64)
    requires
        seq_sum(times@) <= u64::MAX,
    ensures
        r == min64(initial_solution, best_makespan(zero_procs(3), times@)),
{
    let mut procs: Vec<u64> = Vec::new();
    procs.push(0);
    procs.push(0);
    procs.push(0);
    proof {
        assert(procs@ =~= zero_procs(3));
        lemma_seq_sum_zeros(3);
    }
    branch_and_bound_rec(&mut procs, times, initial_solution)
}

/// Pruned search where workers share the best known solution; here the
/// shared cell is a plain word threaded through the recursion.
pub fn branch_and_bound_rec_par(procs: &mut Vec<u64>, times: &[u64], best_solution: &mut u64)
    requires
        old(procs).len() >= 1,
        seq_sum(old(procs)@) + seq_sum(times@) <= u64::MAX,
    ensures
        final(procs)@ == old(procs)@,
        *final(best_solution) == min64(*old(best_solution), best_makespan(old(procs)@, times@)),
{
    let ghost procs0 = procs@;
    let ghost b0 = *best_solution;
    let mx = max_of(procs.as_slice());
    if mx >= *best_solution {
        proof {
            lemma_best_ge_max(procs0, times@);
        }
        return ;
    }
    if times.len() == 0 {
        *best_solution = mx;
        return ;
    }
    let time = times[0];
    let rest = &times[1..times.len()];
    proof {
        assert(rest@ =~= times@.drop_first());
    }
    let mut i: usize = 0;
    while i < procs.len()
        invariant
            procs.len() == procs0.len() >= 1,
            procs@ == procs0,
            i <= procs.len(),
            seq_sum(procs0) + seq_sum(times@) <= u64::MAX,
            times@.len() > 0,
            time == times@[0],
            rest@ == times@.drop_first(),
            *best_solution == min64(b0, best_in_range(procs0, times@, 0, i as int)),
        decreases procs.len() - i,
    {
        proof {
            lemma_seq_sum_element(procs0, i as int);
            lemma_seq_sum_nonneg(rest@);
            assert(seq_sum(times@) == time + seq_sum(rest@));
        }
        let mut branch_procs = procs.clone();
        let load = branch_procs[i];
        branch_procs.set(i, load + time);
        proof {
            lemma_seq_sum_update(procs0, i as int, (load + time) as u64);
        }
        branch_and_bound_rec_fallback(&mut branch_procs, rest, best_solution);
        proof {
            lemma_best_in_range_snoc(procs0, times@, 0, i as int);
        }
        i += 1;
    }
}

/// The sequential arm of the shared-bound search, mutating the loads in
/// place and restoring them.
pub fn branch_and_bound_rec_fallback(procs: &mut Vec<u64>, times: &[u64], best_solution: &mut u64)
    requires
        old(procs).len() >= 1,
        seq_sum(old(procs)@) + seq_sum(times@) <= u64::MAX,
    ensures
        final(procs)@ == old(procs)@,
        *final(best_solution) == min64(*old(best_solution), best_makespan(old(procs)@, times@)),
    decreases times@.len(),
{
    let ghost procs0 = procs@;
    let ghost b0 = *best_solution;
    let mx = max_of(procs.as_slice());
    if mx >= *best_solution {
        proof {
            lemma_best_ge_max(procs0, times@);
        }
        return ;
    }
    if times.len() == 0 {
        *best_solution = mx;
        return ;
    }
    let time = times[0];
    let rest = &times[1..times.len()];
    proof {
        assert(rest@ =~= times@.drop_first());
    }
    let mut i: usize = 0;
    while i < procs.len()
        invariant
            procs.len() == procs0.len() >= 1,
            procs@ == procs0,
            i <= procs.len(),
            seq_sum(procs0) + seq_sum(times@) <= u64::MAX,
            times@.len() > 0,
            time == times@[0],
            rest@ == times@.drop_first(),
            *best_solution == min64(b0, best_in_range(procs0, times@, 0, i as int)),
        decreases procs.len() - i,
    {
        proof {
            lemma_seq_sum_element(procs0, i as int);
            lemma_seq_sum_nonneg(rest@);
            assert(seq_sum(times@) == time + seq_sum(rest@));
        }
        let load = procs[i];
        procs.set(i, load + time);
        proof {
            lemma_seq_sum_update(procs0, i as int, (load + time) as u64);
        }
        branch_and_bound_rec_fallback(procs, rest, best_solution);
        procs.set(i, load);
        proof {
            assert(procs@ =~= procs0);
            lemma_best_in_range_snoc(procs0, times@, 0, i as int);
        }
        i += 1;
    }
}

/// Pruned search behind a shared bound, from an initial solution, on three
/// processors.
pub fn branch_and_bound_par(times: &[u64], initial_solution: u64) -> (r: u64)
    requires
        seq_sum(times@) <= u64::MAX,
    ensures
        r == min64(initial_solution, best_makespan(zero_procs(3), times@)),
{
    let mut procs: Vec<u64> = Vec::new();
    procs.push(0);
    procs.push(0);
    procs.push(0);
    proof {
        assert(procs@ =~= zero_procs(3));
        lemma_seq_sum_zeros(3);
    }
    let mut best_value: u64 = initial_solution;
    branch_and_bound_rec_par(&mut procs, times, &mut best_value);
    best_value
}

/// A quick lower bound on the optimum: no schedule beats the longest task,
/// nor the total work spread evenly over `p` processors.
pub fn _compute_lower_bound(times: &[u64], times_sum: u64, p: usize) -> (r: u64)
    requires
        p >= 1,
        seq_sum(times@) == times_sum,
    ensures
        r == max64(seq_max(times@), (times_sum as int / p as int) as u64),
{
    let longest = max_of(times);
    let spread = times_sum / (p as u64);
    if longest >= spread {
        longest
    } else {
        spread
    }
}


/// A clone of everything after the first duration.
fn tail_vec(v: &Vec<u64>) -> (r: Vec<u64>)
    requires
        v.len() >= 1,
    ensures
        r@ == v@.drop_first(),
{
    let mut r: Vec<u64> = Vec::new();
    let mut j: usize = 1;
    while j < v.len()
        invariant
            1 <= j <= v.len(),
            r@ == v@.subrange(1, j as int),
        decreases v.len() - j,
    {
        r.push(v[j]);
        proof {
            assert(r@ =~= v@.subrange(1, j + 1 as int));
        }
        j += 1;
    }
    proof {
        assert(v@.subrange(1, v.len() as int) =~= v@.drop_first());
    }
    r
}

/// Fold of `min64` over the answers of a row of scheduling tasks.
pub open spec fn sched_fold(acc: u64, rest: Seq<Scheduling>) -> u64
    decreases rest.len(),
{
    if rest.len() == 0 {
        acc
    } else {
        sched_fold(min64(acc, rest[0].task_answer()), rest.drop_first())
    }
}

proof fn lemma_sched_fold_push(acc: u64, rest: Seq<Scheduling>, x: Scheduling)
    ensures
        sched_fold(acc, rest.push(x)) == min64(sched_fold(acc, rest), x.task_answer()),
    decreases rest.len(),
{
    if rest.len() == 0 {
        assert(rest.push(x).drop_first() =~= Seq::<Scheduling>::empty());
        assert(sched_fold(min64(acc, x.task_answer()), Seq::<Scheduling>::empty()) == min64(
            acc,
            x.task_answer(),
        ));
        assert(sched_fold(acc, rest) == acc);
    } else {
        assert(rest.push(x).drop_first() =~= rest.drop_first().push(x));
        lemma_sched_fold_push(min64(acc, rest[0].task_answer()), rest.drop_first(), x);
    }
}

/// Splitting the processor range splits the optimum.
proof fn lemma_best_in_range_concat(procs: Seq<u64>, times: Seq<u64>, a: int, b: int, c: int)
    requires
        0 <= a <= b <= c,
        b <= procs.len(),
        times.len() > 0,
    ensures
        min64(best_in_range(procs, times, a, b), best_in_range(procs, times, b, c))
            == best_in_range(procs, times, a, c),
    decreases b - a,
{
    if a == b {
        assert(best_in_range(procs, times, a, b) == u64::MAX);
    } else {
        lemma_best_in_range_concat(procs, times, a + 1, b, c);
        assert(best_in_range(procs, times, a, b) == min64(
            best_makespan(procs.update(a, (procs[a] + times[0]) as u64), times.drop_first()),
            best_in_range(procs, times, a + 1, b),
        ));
        assert(best_in_range(procs, times, a, c) == min64(
            best_makespan(procs.update(a, (procs[a] + times[0]) as u64), times.drop_first()),
            best_in_range(procs, times, a + 1, c),
        ));
    }
}

/// One node of the scheduling search, run as an adaptive task.
///
/// The node owns the remaining durations `times` and the processor loads
/// `procs`, and is responsible for the branches that place the first
/// duration on a processor with index in `[counter, limit)`.  `best` is
/// the best makespan found so far; `sum` is the total of all durations and
/// loads, which never changes and certifies that no addition overflows.
#[derive(Debug, Clone)]
pub struct Scheduling {
    pub times: Vec<u64>,
    pub best: u64,
    pub procs: Vec<u64>,
    pub counter: usize,
    pub sum: u64,
    pub limit: usize,
}

impl Scheduling {
    /// The node's invariant: the accounted total matches the durations
    /// and loads, and the branch range lies within the processor row.
    pub open spec fn inv(&self) -> bool {
        &&& self.procs@.len() >= 1
        &&& self.counter <= self.limit
        &&& self.limit <= self.procs@.len()
        &&& self.sum == seq_sum(self.times@) + seq_sum(self.procs@)
    }

    /// The makespan this node will report: the best found so far, or any
    /// better one reachable through its remaining branches.
    pub open spec fn task_answer(&self) -> u64 {
        min64(
            self.best,
            best_in_range(self.procs@, self.times@, self.counter as int, self.limit as int),
        )
    }

    /// A root node over all processors, with no makespan found yet.
    pub fn new(times: &Vec<u64>, procs: &Vec<u64>) -> (r: Scheduling)
        requires
            procs.len() >= 1,
            seq_sum(times@) + seq_sum(procs@) <= u64::MAX,
        ensures
            r.times@ == times@,
            r.procs@ == procs@,
            r.best == u64::MAX,
            r.counter == 0usize,
            r.limit == procs.len(),
            r.inv(),
    {
        proof {
            lemma_seq_sum_nonneg(times@);
            lemma_seq_sum_nonneg(procs@);
        }
        let ts = sum_of(times.as_slice());
        let ps = sum_of(procs.as_slice());
        Scheduling {
            times: times.clone(),
            best: u64::MAX,
            procs: procs.clone(),
            counter: 0,
            sum: ts + ps,
            limit: procs.len(),
        }
    }

    /// The accounting check: the stored total matches the durations and
    /// loads.  A debug build would recompute and compare at run time;
    /// here the comparison is discharged statically.
    pub fn verify(&self)
        requires
            self.inv(),
    {
        proof {
            lemma_seq_sum_nonneg(self.times@);
            lemma_seq_sum_nonneg(self.procs@);
        }
        let ts = sum_of(self.times.as_slice());
        let ps = sum_of(self.procs.as_slice());
        assert(self.sum == ts + ps);
    }
}

impl crate::task::Task<u64> for Scheduling {
    open spec fn wf(&self) -> bool {
        self.inv()
    }

    open spec fn answer(&self) -> u64 {
        self.task_answer()
    }

    open spec fn combine(a: u64, b: u64) -> u64 {
        min64(a, b)
    }

    open spec fn done(&self) -> bool {
        self.counter == self.limit
    }

    open spec fn measure(&self) -> nat {
        (self.times@.len() * (self.procs@.len() + 1) + (self.limit - self.counter)) as nat
    }

    open spec fn splittable(&self) -> bool {
        self.times@.len() > 5 && self.limit - self.counter >= 2
    }

    open spec fn fold_siblings(acc: u64, rest: Seq<Scheduling>) -> u64 {
        sched_fold(acc, rest)
    }

    proof fn fold_siblings_zero(acc: u64) {
    }

    proof fn fold_siblings_succ(acc: u64, rest: Seq<Scheduling>) {
    }

    fn is_finished(&self) -> (r: bool) {
        self.counter == self.limit
    }

    fn can_split(&self) -> (r: bool) {
        self.times.len() > 5 && self.limit - self.counter >= 2
    }

    fn step(&mut self)
        ensures
            final(self).times@ == old(self).times@,
            final(self).procs@ == old(self).procs@,
            final(self).sum == old(self).sum,
            final(self).limit == old(self).limit,
    {
        let ghost self0 = *self;
        if self.times.len() == 0 {
            let m = max_of(self.procs.as_slice());
            if m < self.best {
                self.best = m;
            }
            self.counter = self.limit;
        } else {
            let time = self.times[0];
            let i = self.counter;
            let load = self.procs[i];
            proof {
                lemma_seq_sum_element(self0.procs@, i as int);
                lemma_seq_sum_element(self0.times@, 0);
                lemma_seq_sum_nonneg(self0.times@.drop_first());
                lemma_seq_sum_nonneg(self0.procs@);
                assert(seq_sum(self0.times@) == time + seq_sum(self0.times@.drop_first()));
            }
            self.procs.set(i, load + time);
            proof {
                lemma_seq_sum_update(self0.procs@, i as int, (load + time) as u64);
            }
            let tail = &self.times.as_slice()[1..self.times.len()];
            proof {
                assert(tail@ =~= self0.times@.drop_first());
            }
            let r = brute_force_rec(&mut self.procs, tail);
            self.procs.set(i, load);
            proof {
                assert(self.procs@ =~= self0.procs@);
                lemma_best_in_range_snoc(self0.procs@, self0.times@, i as int, i as int);
            }
            if r < self.best {
                self.best = r;
            }
            self.counter = i + 1;
        }
    }

    fn split(&mut self, n: usize) -> (sibs: Vec<Scheduling>)
        ensures
            final(self).times@ == old(self).times@,
            final(self).procs@ == old(self).procs@,
            final(self).sum == old(self).sum,
            final(self).limit == old(self).limit,
            final(self).best == old(self).best,
            final(self).counter == old(self).counter + sibs@.len(),
    {
        let ghost self0 = *self;
        let c = self.counter;
        let l = self.limit;
        let remaining = l - c;
        let k = if n < remaining - 1 {
            n
        } else {
            remaining - 1
        };
        let time = self.times[0];
        proof {
            lemma_seq_sum_element(self0.times@, 0);
            lemma_seq_sum_nonneg(self0.times@.drop_first());
            lemma_seq_sum_nonneg(self0.procs@);
            assert(seq_sum(self0.times@) == time + seq_sum(self0.times@.drop_first()));
        }
        let rest_times = tail_vec(&self.times);
        self.counter = c + k;
        let ghost kept = *self;
        let mut sibs: Vec<Scheduling> = Vec::new();
        let mut j: usize = 0;
        while j < k
            invariant
                j <= k,
                1 <= k,
                c + k <= l,
                *self == kept,
                self0.counter == c,
                self0.limit == l,
                self0.inv(),
                self0.times@.len() > 5,
                kept.times == self0.times,
                kept.best == self0.best,
                kept.procs == self0.procs,
                kept.sum == self0.sum,
                kept.limit == self0.limit,
                kept.counter == c + k,
                time == self0.times@[0],
                rest_times@ == self0.times@.drop_first(),
                sibs@.len() == j,
                forall|q: int|
                    0 <= q < j ==> (#[trigger] sibs@[q]).inv() && sibs@[q].measure()
                        < self0.measure(),
                sched_fold(kept.task_answer(), sibs@) == min64(
                    self0.best,
                    min64(
                        best_in_range(self0.procs@, self0.times@, c as int, c + j),
                        best_in_range(self0.procs@, self0.times@, c + k, l as int),
                    ),
                ),
            decreases k - j,
        {
            let ghost sibs0 = sibs@;
            let mut p = self.procs.clone();
            let idx = c + j;
            let load = p[idx];
            proof {
                lemma_seq_sum_element(self0.procs@, idx as int);
                lemma_seq_sum_element(self0.times@, 0);
                lemma_seq_sum_nonneg(self0.times@.drop_first());
                lemma_seq_sum_nonneg(self0.procs@);
                assert(seq_sum(self0.times@) == time + seq_sum(self0.times@.drop_first()));
            }
            p.set(idx, load + time);
            proof {
                lemma_seq_sum_update(self0.procs@, idx as int, (load + time) as u64);
            }
            let sib = Scheduling {
                times: rest_times.clone(),
                best: u64::MAX,
                procs: p,
                counter: 0,
                sum: self.sum,
                limit: self.procs.len(),
            };
            sibs.push(sib);
            proof {
                lemma_sched_fold_push(kept.task_answer(), sibs0, sib);
                lemma_best_in_range_snoc(self0.procs@, self0.times@, c as int, idx as int);
                assert(best_in_range(sib.procs@, sib.times@, 0, sib.limit as int)
                    == best_makespan(sib.procs@, sib.times@));
                assert(sib.measure() < self0.measure()) by (nonlinear_arith)
                    requires
                        sib.measure() == sib.times@.len() * (sib.procs@.len() + 1) + sib.limit,
                        self0.measure() == self0.times@.len() * (self0.procs@.len() + 1) + (
                        self0.limit - self0.counter),
                        sib.times@.len() + 1 == self0.times@.len(),
                        sib.procs@.len() == self0.procs@.len(),
                        sib.limit == self0.procs@.len(),
                        self0.limit >= self0.counter,
                ;
            }
            j += 1;
        }
        proof {
            lemma_best_in_range_concat(self0.procs@, self0.times@, c as int, c + k, l as int);
        }
        sibs
    }

    fn fuse(&mut self, other: &Self)
        ensures
            final(self).times@ == old(self).times@,
            final(self).procs@ == old(self).procs@,
            final(self).sum == old(self).sum,
            final(self).limit == old(self).limit,
            final(self).counter == old(self).counter,
            final(self).best == min64(old(self).best, other.best),
    {
        if other.best < self.best {
            self.best = other.best;
        }
    }
}

impl crate::adaptive_bench::Benchable<u64> for Scheduling {
    open spec fn ready(&self) -> bool {
        self.inv()
    }

    open spec fn expected(&self) -> Option<u64> {
        Some(best_makespan(self.procs@, self.times@))
    }

    /// Reset the search state and run the adaptive loop, with no demand
    /// present; the durations and loads are left untouched, so a second
    /// start returns the same makespan.
    fn start(&mut self) -> (r: Option<u64>) {
        self.best = u64::MAX;
        self.counter = 0;
        self.limit = self.procs.len();
        let root = Scheduling {
            times: self.times.clone(),
            best: u64::MAX,
            procs: self.procs.clone(),
            counter: 0,
            sum: self.sum,
            limit: self.procs.len(),
        };
        proof {
            lemma_fresh_answer(root);
        }
        let mut demand = crate::task::DemandSchedule::quiet();
        let mut stats = crate::task::Statistics::new();
        let done = crate::task::run(root, &mut demand, &mut stats);
        self.best = done.best;
        self.counter = self.limit;
        Some(done.best)
    }

    fn name(&self) -> &'static str {
        "Adaptive"
    }
}

/// The sequential exhaustive search, packaged for the harness.
pub struct BruteForce {
    times: Vec<u64>,
    procs: Vec<u64>,
}

impl BruteForce {
    pub fn new(times: Vec<u64>, procs: Vec<u64>) -> (r: BruteForce)
        ensures
            r.times_view() == times@,
            r.procs_view() == procs@,
    {
        BruteForce { times, procs }
    }

    pub closed spec fn times_view(&self) -> Seq<u64> {
        self.times@
    }

    pub closed spec fn procs_view(&self) -> Seq<u64> {
        self.procs@
    }
}

impl crate::adaptive_bench::Benchable<u64> for BruteForce {
    open spec fn ready(&self) -> bool {
        self.procs_view().len() >= 1 && seq_sum(self.procs_view()) + seq_sum(self.times_view())
            <= u64::MAX
    }

    open spec fn expected(&self) -> Option<u64> {
        Some(best_makespan(self.procs_view(), self.times_view()))
    }

    fn start(&mut self) -> (r: Option<u64>) {
        Some(brute_force(self.times.as_slice(), self.procs.clone()))
    }

    fn name(&self) -> &'static str {
        "BruteForce-Sequential"
    }
}

/// The exhaustive search that hands branches out to workers, packaged
/// for the harness; the worker count is taken from the host.
pub struct BruteForcePar {
    times: Vec<u64>,
    procs: Vec<u64>,
}

impl BruteForcePar {
    pub fn new(times: Vec<u64>, procs: Vec<u64>) -> (r: BruteForcePar)
        ensures
            r.times_view() == times@,
            r.procs_view() == procs@,
    {
        BruteForcePar { times, procs }
    }

    pub closed spec fn times_view(&self) -> Seq<u64> {
        self.times@
    }

    pub closed spec fn procs_view(&self) -> Seq<u64> {
        self.procs@
    }
}

impl crate::adaptive_bench::Benchable<u64> for BruteForcePar {
    open spec fn ready(&self) -> bool {
        self.procs_view().len() >= 1 && seq_sum(self.procs_view()) + seq_sum(self.times_view())
            <= u64::MAX
    }

    open spec fn expected(&self) -> Option<u64> {
        Some(best_makespan(self.procs_view(), self.times_view()))
    }

    fn start(&mut self) -> (r: Option<u64>) {
        let num_threads = crate::steal::cpu_count();
        Some(brute_force_par(self.times.as_slice(), self.procs.clone(), num_threads))
    }

    fn name(&self) -> &'static str {
        "BruteForce"
    }
}



/// A fresh search node reports exactly the exhaustive optimum: running it
/// under any demand pattern therefore produces the same makespan as the
/// plain sequential search, whose contracts name the same value.
pub proof fn lemma_fresh_answer(s: Scheduling)
    requires
        s.inv(),
        s.best == u64::MAX,
        s.counter == 0usize,
        s.limit == s.procs@.len(),
    ensures
        s.task_answer() == best_makespan(s.procs@, s.times@),
{
}

} // verus!
