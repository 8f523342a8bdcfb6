//! The adaptive task protocol and its run loop.
//!
//! A computation implements [`Task`]: it advances by small steps, can say
//! whether its remaining work is divisible, can split that work into
//! sibling tasks on demand, and can fuse a finished sibling's partial
//! result back into its own.  The run loop polls a [`DemandSource`]
//! between steps and splits only when demand is present.

use vstd::prelude::*;

verus! {

/// A computation that can be advanced, split on demand, and fused.
///
/// `A` is the type of the abstract answer the computation is after.  The
/// contracts pin the protocol down: a step never changes the answer, a
/// split partitions it so that combining the pieces in left-to-right order
/// restores it, and a fuse performs exactly that combination.
pub trait Task<A>: Sized {
    /// The task's internal invariant.
    spec fn wf(&self) -> bool;

    /// The answer the computation will have reached once it has run and every
    /// sibling has been fused back; a step or a split never changes it.
    spec fn answer(&self) -> A;

    /// How two partial answers merge, the left one first.  Associativity
    /// is not assumed anywhere; the runtime combines strictly left to
    /// right.
    spec fn combine(a: A, b: A) -> A;

    /// Whether no further step is needed.
    spec fn done(&self) -> bool;

    /// An upper bound on the steps and splits still ahead.
    spec fn measure(&self) -> nat;

    /// Whether the remaining work can be partitioned.
    spec fn splittable(&self) -> bool;

    /// True once no further `step` is needed.
    fn is_finished(&self) -> (r: bool)
        requires
            self.wf(),
        ensures
            r == self.done(),
    ;

    /// True iff the remaining work can be split into at least two pieces.
    fn can_split(&self) -> (r: bool)
        requires
            self.wf(),
        ensures
            r == self.splittable(),
    ;

    /// Advance the computation by one grain of work.
    fn step(&mut self)
        requires
            old(self).wf(),
            !old(self).done(),
        ensures
            final(self).wf(),
            final(self).answer() == old(self).answer(),
            final(self).measure() < old(self).measure(),
    ;

    /// The answer obtained by combining `acc` with the answers of `rest`,
    /// in order, left to right.  Every implementation defines it by the
    /// same recursion; the two laws below pin that down.
    spec fn fold_siblings(acc: A, rest: Seq<Self>) -> A;

    /// Folding over no siblings changes nothing.
    proof fn fold_siblings_zero(acc: A)
        ensures
            Self::fold_siblings(acc, Seq::<Self>::empty()) == acc,
    ;

    /// Folding combines the leftmost sibling's answer first.
    proof fn fold_siblings_succ(acc: A, rest: Seq<Self>)
        requires
            rest.len() > 0,
        ensures
            Self::fold_siblings(acc, rest) == Self::fold_siblings(
                Self::combine(acc, rest[0].answer()),
                rest.drop_first(),
            ),
    ;

    /// Partition the remaining work: `self` keeps one piece and at most
    /// `n` sibling tasks carry the rest, in left-to-right order.
    /// Combining the retained piece with the siblings' answers, left to
    /// right, restores the original answer, and every piece carries
    /// strictly less work than the whole did.
    fn split(&mut self, n: usize) -> (sibs: Vec<Self>)
        requires
            old(self).wf(),
            old(self).splittable(),
            n >= 1,
        ensures
            final(self).wf(),
            1 <= sibs@.len() <= n,
            forall|j: int|
                0 <= j < sibs@.len() ==> (#[trigger] sibs@[j]).wf() && sibs@[j].measure() < old(
                    self,
                ).measure(),
            final(self).measure() < old(self).measure(),
            Self::fold_siblings(final(self).answer(), sibs@) == old(self).answer(),
    ;

    /// Merge a completed sibling's partial result into this completed
    /// task.
    fn fuse(&mut self, other: &Self)
        requires
            old(self).wf(),
            other.wf(),
            old(self).done(),
            other.done(),
        ensures
            final(self).wf(),
            final(self).done(),
            final(self).answer() == Self::combine(old(self).answer(), other.answer()),
    ;
}

/// Where the demand observed by a running task comes from.
///
/// In a pool this is the worker's slot of the demand vector; in a test it
/// can be a scripted schedule.  The run loop assumes nothing about the
/// values handed back, so whatever it guarantees holds under every demand
/// pattern.
pub trait DemandSource: Sized {
    /// The source's own invariant.
    spec fn inv(&self) -> bool;

    /// Whether the source can no longer report any demand.  A silent
    /// source stays silent and polls as zero, so a run driven by one
    /// never splits.
    spec fn silent(&self) -> bool;

    /// How many workers currently ask the running computation for work.
    fn poll(&mut self) -> (d: usize)
        requires
            old(self).inv(),
        ensures
            final(self).inv(),
            old(self).silent() ==> d == 0 && final(self).silent(),
    ;

    /// Release the workers whose demand was just answered by a split.
    fn acknowledge(&mut self)
        requires
            old(self).inv(),
        ensures
            final(self).inv(),
            old(self).silent() ==> final(self).silent(),
    ;
}

/// A scripted demand pattern: each poll consumes the next entry, and zero
/// once the script is exhausted.  Acknowledgement is a no-op; a script
/// has no waiting workers to release.
pub struct DemandSchedule {
    pub events: Vec<usize>,
    pub pos: usize,
}

impl DemandSchedule {
    /// A schedule that answers every poll from `events`, then with zero.
    pub fn new(events: Vec<usize>) -> (r: DemandSchedule)
        ensures
            r.events == events,
            r.pos == 0usize,
    {
        DemandSchedule { events, pos: 0 }
    }

    /// A schedule under which no demand ever appears.
    pub fn quiet() -> (r: DemandSchedule)
        ensures
            r.events@.len() == 0,
            r.pos == 0usize,
            r.silent(),
    {
        DemandSchedule { events: Vec::new(), pos: 0 }
    }
}

impl DemandSource for DemandSchedule {
    open spec fn inv(&self) -> bool {
        true
    }

    open spec fn silent(&self) -> bool {
        forall|i: int| self.pos <= i < self.events@.len() ==> self.events@[i] == 0
    }

    fn poll(&mut self) -> (d: usize)
        ensures
            final(self).events == old(self).events,
            old(self).pos < old(self).events@.len() ==> d == old(self).events@[old(
                self,
            ).pos as int] && final(self).pos == old(self).pos + 1,
            old(self).pos >= old(self).events@.len() ==> d == 0 && final(self).pos == old(
                self,
            ).pos,
    {
        if self.pos < self.events.len() {
            let d = self.events[self.pos];
            self.pos = self.pos + 1;
            d
        } else {
            0
        }
    }

    fn acknowledge(&mut self)
        ensures
            *final(self) == *old(self),
    {
    }
}

/// Counters describing one run; they are best-effort tallies, saturating
/// instead of wrapping.
pub struct Statistics {
    /// Splits performed, each answering one observed steal request batch.
    pub successful_steals: u64,
    /// Total demand observed over all splits.
    pub total_steal_counter: u64,
    /// Steps taken.
    pub steps: u64,
    /// Steal handshakes that ended in success.
    pub steal_success: u64,
    /// Steal handshakes that timed out.
    pub steal_fail: u64,
}

impl Statistics {
    /// Fresh counters, all zero.
    pub fn new() -> (r: Statistics)
        ensures
            r.successful_steals == 0u64,
            r.total_steal_counter == 0u64,
            r.steps == 0u64,
            r.steal_success == 0u64,
            r.steal_fail == 0u64,
    {
        Statistics {
            successful_steals: 0,
            total_steal_counter: 0,
            steps: 0,
            steal_success: 0,
            steal_fail: 0,
        }
    }
}

/// Clear all counters between runs.
pub fn reset_statistics(stats: &mut Statistics)
    ensures
        final(stats).successful_steals == 0u64,
        final(stats).total_steal_counter == 0u64,
        final(stats).steps == 0u64,
        final(stats).steal_success == 0u64,
        final(stats).steal_fail == 0u64,
{
    stats.successful_steals = 0;
    stats.total_steal_counter = 0;
    stats.steps = 0;
    stats.steal_success = 0;
    stats.steal_fail = 0;
}

/// Addition that sticks at the largest value instead of wrapping.
pub fn sat_add64(a: u64, b: u64) -> (r: u64)
    ensures
        r == if a + b <= u64::MAX {
            (a + b) as u64
        } else {
            u64::MAX
        },
{
    if a <= u64::MAX - b {
        a + b
    } else {
        u64::MAX
    }
}

/// Run `task` to completion, splitting whenever the demand source reports
/// waiting workers and the task agrees to split.
///
/// The postcondition is the runtime's central guarantee: whatever demand
/// pattern drives the run, the result is finished, well formed, and its
/// answer is exactly the answer the task had at the start — equal, in
/// particular, to what a purely sequential run produces.
pub fn run<A, T: Task<A>, D: DemandSource>(task: T, demand: &mut D, stats: &mut Statistics) -> (r:
    T)
    requires
        task.wf(),
        old(demand).inv(),
    ensures
        r.wf(),
        r.done(),
        r.answer() == task.answer(),
        final(demand).inv(),
        final(stats).steps >= old(stats).steps,
        final(stats).successful_steals >= old(stats).successful_steals,
        final(stats).total_steal_counter >= old(stats).total_steal_counter,
        final(stats).steal_success == old(stats).steal_success,
        final(stats).steal_fail == old(stats).steal_fail,
        old(demand).silent() ==> final(demand).silent() && final(stats).successful_steals == old(
            stats,
        ).successful_steals && final(stats).total_steal_counter == old(stats).total_steal_counter,
    decreases task.measure(),
{
    if task.is_finished() {
        return task;
    }
    let mut t = task;
    let d = demand.poll();
    if d > 0 && t.can_split() {
        let mut sibs = t.split(d);
        stats.successful_steals = sat_add64(stats.successful_steals, 1);
        stats.total_steal_counter = sat_add64(stats.total_steal_counter, d as u64);
        // the released stealers will find the siblings posted
        demand.acknowledge();
        let mut fused = run(t, demand, stats);
        while sibs.len() > 0
            invariant
                fused.wf(),
                fused.done(),
                demand.inv(),
                forall|j: int|
                    0 <= j < sibs@.len() ==> (#[trigger] sibs@[j]).wf() && sibs@[j].measure()
                        < task.measure(),
                T::fold_siblings(fused.answer(), sibs@) == task.answer(),
                stats.steps >= old(stats).steps,
                stats.successful_steals >= old(stats).successful_steals,
                stats.total_steal_counter >= old(stats).total_steal_counter,
                stats.steal_success == old(stats).steal_success,
                stats.steal_fail == old(stats).steal_fail,
                !old(demand).silent(),
            decreases sibs@.len(),
        {
            let ghost sibs0 = sibs@;
            let sib = sibs.remove(0);
            proof {
                assert(sibs@ =~= sibs0.drop_first());
                T::fold_siblings_succ(fused.answer(), sibs0);
            }
            let sib = run(sib, demand, stats);
            fused.fuse(&sib);
        }
        proof {
            T::fold_siblings_zero(fused.answer());
            assert(sibs@ =~= Seq::<T>::empty());
        }
        fused
    } else {
        stats.steps = sat_add64(stats.steps, 1);
        t.step();
        run(t, demand, stats)
    }
}

} // verus!
