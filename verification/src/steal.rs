//! The demand-signalling channel: a per-worker word of request bits and a
//! bounded-spin handshake by which an idle worker asks a busy one to split
//! off part of its work.
//!
//! Bit `i` of worker `w`'s word is set while worker `i` has a pending
//! steal request against `w`.  Only `w` ever clears its whole word — that
//! is the acknowledgement — and a stealer clears nothing but its own bit,
//! on its own timeout path.

use vstd::prelude::*;

verus! {

use crate::task::{DemandSource, Statistics, sat_add64};

/// Relies on `num_cpus::get`: the number of logical CPUs of the host,
/// always at least one.
#[verifier::external_body]
pub fn cpu_count() -> (r: usize)
    ensures
        r >= 1,
{
    num_cpus::get()
}

#[verifier::external_type_specification]
#[verifier::external_body]
pub struct ExBackoff(crossbeam_utils::Backoff);

/// Relies on `crossbeam_utils::Backoff::new`: a fresh backoff state.
pub assume_specification[ crossbeam_utils::Backoff::new ]() -> (b: crossbeam_utils::Backoff);

/// Relies on `crossbeam_utils::Backoff::spin`: busy-waits briefly; no
/// observable effect.
pub assume_specification[ crossbeam_utils::Backoff::spin ](b: &crossbeam_utils::Backoff);

/// The number of set bits among the low `bits` bits of `x`.
pub open spec fn popcount_rec(x: u64, bits: nat) -> nat
    decreases bits,
{
    if bits == 0 {
        0
    } else {
        ((x & 1) as nat) + popcount_rec(x >> 1u64, (bits - 1) as nat)
    }
}

/// The number of set bits of a request word: how many distinct workers
/// are asking.
pub open spec fn popcount(x: u64) -> nat {
    popcount_rec(x, 64)
}

proof fn lemma_popcount_zero(bits: nat)
    ensures
        popcount_rec(0u64, bits) == 0,
    decreases bits,
{
    if bits > 0 {
        assert(0u64 >> 1u64 == 0u64) by (bit_vector);
        assert(0u64 & 1u64 == 0u64) by (bit_vector);
        lemma_popcount_zero((bits - 1) as nat);
    }
}

/// The number of set bits of `x`, counted bit by bit.
pub fn count_bits(x: u64) -> (r: usize)
    ensures
        r == popcount(x),
        r <= 64,
{
    let mut cur: u64 = x;
    let mut r: usize = 0;
    let mut i: usize = 0;
    while i < 64
        invariant
            i <= 64,
            r <= i,
            r + popcount_rec(cur, (64 - i) as nat) == popcount(x),
        decreases 64 - i,
    {
        proof {
            assert(popcount_rec(cur, (64 - i) as nat) == ((cur & 1) as nat) + popcount_rec(
                cur >> 1u64,
                (64 - (i + 1)) as nat,
            ));
            assert((cur & 1) <= 1) by (bit_vector);
        }
        if cur & 1 == 1 {
            r = r + 1;
        }
        cur = cur >> 1u64;
        i = i + 1;
    }
    proof {
        assert(popcount_rec(cur, 0) == 0);
    }
    r
}

/// Setting a request bit clears nothing: every set bit stays set.
pub proof fn lemma_set_bit_preserves(w: u64, i: u64, j: u64)
    requires
        i < 64,
        j < 64,
    ensures
        w & (1u64 << j) != 0 ==> (w | (1u64 << i)) & (1u64 << j) != 0,
        (w | (1u64 << i)) & (1u64 << i) != 0,
{
    assert(w & (1u64 << j) != 0 ==> (w | (1u64 << i)) & (1u64 << j) != 0) by (bit_vector);
    assert(i < 64 ==> (w | (1u64 << i)) & (1u64 << i) != 0) by (bit_vector);
}

/// Withdrawing a request clears exactly the stealer's own bit; every
/// other worker's bit is untouched.
pub proof fn lemma_clear_own_bit(w: u64, i: u64, j: u64)
    requires
        i < 64,
        j < 64,
        i != j,
    ensures
        (w & !(1u64 << i)) & (1u64 << j) == w & (1u64 << j),
        (w & !(1u64 << i)) & (1u64 << i) == 0,
{
    assert(i != j ==> (w & !(1u64 << i)) & (1u64 << j) == w & (1u64 << j)) by (bit_vector);
    assert((w & !(1u64 << i)) & (1u64 << i) == 0) by (bit_vector);
}

/// The per-worker demand vector.  In a pool each slot is one worker's
/// atomic word; here the words are held in one place and every operation
/// states exactly which word it changes and how.
pub struct DemandChannel {
    words: Vec<u64>,
}

impl DemandChannel {
    /// The request words, one per worker.
    pub closed spec fn words(&self) -> Seq<u64> {
        self.words@
    }

    /// How many workers the channel serves.
    pub closed spec fn spec_worker_count(&self) -> nat {
        self.words@.len()
    }

    /// One word per worker, at most one bit per worker.
    pub open spec fn inv(&self) -> bool {
        1 <= self.spec_worker_count() <= 64
    }

    /// The demand seen by worker `me`, capped at the number of other
    /// workers.
    pub open spec fn demand_of(&self, me: int) -> nat {
        if popcount(self.words()[me]) <= self.spec_worker_count() - 1 {
            popcount(self.words()[me])
        } else {
            (self.spec_worker_count() - 1) as nat
        }
    }

    /// A channel for `num_threads` workers, with no demand anywhere.
    pub fn new(num_threads: usize) -> (r: DemandChannel)
        requires
            1 <= num_threads <= 64,
        ensures
            r.inv(),
            r.spec_worker_count() == num_threads,
            forall|w: int| 0 <= w < num_threads ==> r.words()[w] == 0u64,
    {
        let mut words: Vec<u64> = Vec::new();
        let mut i: usize = 0;
        while i < num_threads
            invariant
                i <= num_threads,
                words@.len() == i,
                forall|w: int| 0 <= w < i ==> words@[w] == 0u64,
            decreases num_threads - i,
        {
            words.push(0);
            i += 1;
        }
        DemandChannel { words }
    }

    /// A channel with one slot per logical CPU of the host, as a pool
    /// sized to the machine would use.
    pub fn for_host() -> (r: DemandChannel)
        ensures
            r.inv(),
            forall|w: int| 0 <= w < r.spec_worker_count() ==> r.words()[w] == 0u64,
    {
        let n = cpu_count();
        let n = if n > 64 {
            64
        } else {
            n
        };
        DemandChannel::new(n)
    }

    pub fn worker_count(&self) -> (r: usize)
        ensures
            r == self.spec_worker_count(),
    {
        self.words.len()
    }

    /// Post a steal request: set the caller's bit in the victim's word.
    /// No bit is cleared.
    pub fn request_steal(&mut self, victim: usize, me: usize)
        requires
            old(self).inv(),
            victim < old(self).spec_worker_count(),
            me < old(self).spec_worker_count(),
            me != victim,
        ensures
            final(self).inv(),
            final(self).spec_worker_count() == old(self).spec_worker_count(),
            final(self).words()[victim as int] == (old(self).words()[victim as int] | (1u64 << (
            me as u64))),
            forall|w: int|
                0 <= w < old(self).spec_worker_count() && w != victim
                    ==> final(self).words()[w] == old(self).words()[w],
    {
        let word = self.words[victim];
        self.words.set(victim, word | (1u64 << (me as u64)));
    }

    /// The timeout path: withdraw the caller's own request bit, and only
    /// that bit, so the victim does not later see a stale request.
    pub fn withdraw_request(&mut self, victim: usize, me: usize)
        requires
            old(self).inv(),
            victim < old(self).spec_worker_count(),
            me < old(self).spec_worker_count(),
            me != victim,
        ensures
            final(self).inv(),
            final(self).spec_worker_count() == old(self).spec_worker_count(),
            final(self).words()[victim as int] == (old(self).words()[victim as int] & !(1u64 << (
            me as u64))),
            forall|w: int|
                0 <= w < old(self).spec_worker_count() && w != victim
                    ==> final(self).words()[w] == old(self).words()[w],
    {
        let word = self.words[victim];
        self.words.set(victim, word & !(1u64 << (me as u64)));
    }

    /// The demand currently signalled to worker `me`: the number of
    /// distinct requesters, capped at the number of other workers.
    pub fn get_my_steal_count(&self, me: usize) -> (r: usize)
        requires
            self.inv(),
            me < self.spec_worker_count(),
        ensures
            r == self.demand_of(me as int),
    {
        let steal_counter = count_bits(self.words[me]);
        let cap = self.words.len() - 1;
        if steal_counter <= cap {
            steal_counter
        } else {
            cap
        }
    }

    /// The acknowledgement: worker `me` clears its own word, releasing
    /// every stealer spinning on it.  Only the owner does this.
    pub fn reset_my_steal_count(&mut self, me: usize)
        requires
            old(self).inv(),
            me < old(self).spec_worker_count(),
        ensures
            final(self).inv(),
            final(self).spec_worker_count() == old(self).spec_worker_count(),
            final(self).words()[me as int] == 0u64,
            forall|w: int|
                0 <= w < old(self).spec_worker_count() && w != me ==> final(self).words()[w] == old(
                    self,
                ).words()[w],
    {
        self.words.set(me, 0);
    }

    /// The waiting half of the handshake: spin up to `backoffs` times
    /// (or, for a zero budget, the adaptive default) until the victim has
    /// acknowledged by clearing its word; on timeout, withdraw the
    /// caller's own bit.  Every call returns within the budget: the
    /// request never blocks.
    pub fn await_release(
        &mut self,
        backoffs: usize,
        victim: usize,
        me: usize,
        stats: &mut Statistics,
    ) -> (r: Option<()>)
        requires
            old(self).inv(),
            victim < old(self).spec_worker_count(),
            me < old(self).spec_worker_count(),
            me != victim,
        ensures
            final(self).inv(),
            final(self).spec_worker_count() == old(self).spec_worker_count(),
            r.is_some() <==> old(self).words()[victim as int] == 0u64,
            r.is_some() ==> final(self).words() == old(self).words() && final(stats).steal_success
                == sat_inc(old(stats).steal_success) && final(stats).steal_fail == old(
                stats,
            ).steal_fail,
            r.is_none() ==> final(self).words()[victim as int] == (old(self).words()[
            victim as int] & !(1u64 << (me as u64))) && final(stats).steal_fail == sat_inc(
                old(stats).steal_fail,
            ) && final(stats).steal_success == old(stats).steal_success,
            forall|w: int|
                0 <= w < old(self).spec_worker_count() && w != victim
                    ==> final(self).words()[w] == old(self).words()[w],
            final(stats).steps == old(stats).steps,
            final(stats).successful_steals == old(stats).successful_steals,
            final(stats).total_steal_counter == old(stats).total_steal_counter,
    {
        let mut budget = backoffs;
        if budget == 0 {
            budget = default_backoff(self.worker_count());
        }
        let backoff = crossbeam_utils::Backoff::new();
        let mut spins: usize = 0;
        while spins < budget
            invariant
                self.inv(),
                self.words() == old(self).words(),
                self.spec_worker_count() == old(self).spec_worker_count(),
                victim < self.spec_worker_count(),
                me < self.spec_worker_count(),
                me != victim,
                budget >= 1,
                spins > 0 ==> self.words()[victim as int] != 0u64,
                stats.steal_success == old(stats).steal_success,
                stats.steal_fail == old(stats).steal_fail,
                stats.steps == old(stats).steps,
                stats.successful_steals == old(stats).successful_steals,
                stats.total_steal_counter == old(stats).total_steal_counter,
            decreases budget - spins,
        {
            backoff.spin();
            let c = self.words[victim];
            if c == 0 {
                stats.steal_success = sat_add64(stats.steal_success, 1);
                return Some(());
            }
            spins += 1;
        }
        let word = self.words[victim];
        self.words.set(victim, word & !(1u64 << (me as u64)));
        stats.steal_fail = sat_add64(stats.steal_fail, 1);
        None
    }

    /// One full handshake: post the request, wait within the budget, and
    /// withdraw the request on timeout.  With no other worker acting
    /// between the posting and the wait, the posted bit itself keeps the
    /// word nonzero, so a single call times out; the rendezvous succeeds
    /// when the victim's acknowledgement comes between `request_steal`
    /// and `await_release`.
    pub fn steal(
        &mut self,
        backoffs: usize,
        victim: usize,
        me: usize,
        stats: &mut Statistics,
    ) -> (r: Option<()>)
        requires
            old(self).inv(),
            victim < old(self).spec_worker_count(),
            me < old(self).spec_worker_count(),
            me != victim,
        ensures
            final(self).inv(),
            final(self).spec_worker_count() == old(self).spec_worker_count(),
            r.is_none(),
            final(self).words()[victim as int] == (old(self).words()[victim as int] & !(1u64 << (
            me as u64))),
            forall|w: int|
                0 <= w < old(self).spec_worker_count() && w != victim
                    ==> final(self).words()[w] == old(self).words()[w],
            final(stats).steal_fail == sat_inc(old(stats).steal_fail),
            final(stats).steal_success == old(stats).steal_success,
            final(stats).steps == old(stats).steps,
            final(stats).successful_steals == old(stats).successful_steals,
            final(stats).total_steal_counter == old(stats).total_steal_counter,
    {
        let ghost w0 = old(self).words()[victim as int];
        let ghost m = me as u64;
        self.request_steal(victim, me);
        proof {
            assert(m < 64 ==> (w0 | (1u64 << m)) != 0u64) by (bit_vector);
        }
        let r = self.await_release(backoffs, victim, me, stats);
        proof {
            assert(((w0 | (1u64 << m)) & !(1u64 << m)) == (w0 & !(1u64 << m))) by (bit_vector);
        }
        r
    }

    /// The handshake with the adaptive budget derived from the worker
    /// count.
    pub fn optimized_steal(&mut self, victim: usize, me: usize, stats: &mut Statistics) -> (r:
        Option<()>)
        requires
            old(self).inv(),
            victim < old(self).spec_worker_count(),
            me < old(self).spec_worker_count(),
            me != victim,
        ensures
            final(self).inv(),
            final(self).spec_worker_count() == old(self).spec_worker_count(),
            r.is_none(),
            final(self).words()[victim as int] == (old(self).words()[victim as int] & !(1u64 << (
            me as u64))),
            forall|w: int|
                0 <= w < old(self).spec_worker_count() && w != victim
                    ==> final(self).words()[w] == old(self).words()[w],
            final(stats).steal_fail == sat_inc(old(stats).steal_fail),
            final(stats).steal_success == old(stats).steal_success,
    {
        let budget = default_backoff(self.worker_count());
        self.steal(budget, victim, me, stats)
    }
}

/// A counter one higher, stuck at the top value.
pub open spec fn sat_inc(x: u64) -> u64 {
    if x < u64::MAX {
        (x + 1) as u64
    } else {
        u64::MAX
    }
}

/// The default spin budget for a pool of `num_threads` workers: with few
/// threads the victim is likely to finish something soon, so patience
/// pays; with many, the stealer had better look elsewhere.
pub open spec fn default_backoff_spec(num_threads: int) -> int {
    if num_threads <= 8 {
        6
    } else if num_threads <= 12 {
        4
    } else {
        1
    }
}

/// The adaptive spin budget.  A lone worker has nobody to steal from.
pub fn default_backoff(num_threads: usize) -> (r: usize)
    requires
        num_threads >= 2,
    ensures
        r == default_backoff_spec(num_threads as int),
        r >= 1,
{
    if num_threads <= 8 {
        6
    } else if num_threads <= 12 {
        4
    } else {
        1
    }
}

/// A worker's own view of the channel, as polled by its run loop: the
/// demand is its steal count, the acknowledgement clears its word.
pub struct VictimPort {
    pub channel: DemandChannel,
    pub me: usize,
}

impl VictimPort {
    /// The port of worker `me` on `channel`.
    pub fn new(channel: DemandChannel, me: usize) -> (r: VictimPort)
        requires
            channel.inv(),
            me < channel.spec_worker_count(),
        ensures
            r.channel == channel,
            r.me == me,
            r.inv(),
    {
        VictimPort { channel, me }
    }
}

impl DemandSource for VictimPort {
    open spec fn inv(&self) -> bool {
        self.channel.inv() && (self.me as int) < self.channel.spec_worker_count()
    }

    open spec fn silent(&self) -> bool {
        self.channel.demand_of(self.me as int) == 0
    }

    fn poll(&mut self) -> (d: usize)
        ensures
            *final(self) == *old(self),
            d == old(self).channel.demand_of(old(self).me as int),
    {
        self.channel.get_my_steal_count(self.me)
    }

    fn acknowledge(&mut self)
        ensures
            final(self).me == old(self).me,
            final(self).channel.spec_worker_count() == old(self).channel.spec_worker_count(),
            final(self).channel.words()[old(self).me as int] == 0u64,
            forall|w: int|
                0 <= w < old(self).channel.spec_worker_count() && w != old(self).me
                    ==> final(self).channel.words()[w] == old(self).channel.words()[w],
            final(self).silent(),
    {
        self.channel.reset_my_steal_count(self.me);
        proof {
            lemma_popcount_zero(64);
        }
    }
}

/// A pool of one worker can never signal demand: no other worker exists
/// to post a request, and the observed steal count is capped at zero.  A
/// run driven by such a port therefore never splits.
pub proof fn lemma_single_worker_silent(p: VictimPort)
    requires
        p.inv(),
        p.channel.spec_worker_count() == 1,
    ensures
        p.silent(),
{
}

} // verus!
