//! The uniform interface under which a harness drives the example
//! computations: run, hand back the result, and be ready to run again.

use vstd::prelude::*;

verus! {

/// A computation a harness can run repeatedly.
///
/// `expected` names the result the computation is after; `start` must
/// return exactly that and leave the value ready for another run with the
/// same expectation.  Running, resetting and rerunning therefore yields
/// identical results.
pub trait Benchable<R>: Sized {
    /// Whether the value is fit to run.
    spec fn ready(&self) -> bool;

    /// The result a run will produce.
    spec fn expected(&self) -> Option<R>;

    /// Run the computation once and hand back its result.
    fn start(&mut self) -> (r: Option<R>)
        requires
            old(self).ready(),
        ensures
            final(self).ready(),
            r == old(self).expected(),
            final(self).expected() == old(self).expected(),
    ;

    /// A short label for reports.
    fn name(&self) -> &'static str;
}

} // verus!
