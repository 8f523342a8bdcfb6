//! An adaptive work-stealing task runtime, modelled sequentially.
//!
//! A computation implementing the [`Task`](task::Task) contract stays
//! sequential until another worker signals demand through a
//! [`DemandChannel`](steal::DemandChannel); only then does it split into
//! sibling subtasks whose partial results are fused back in order.

use vstd::prelude::*;

pub mod adaptive_bench;
pub mod concat;
pub mod scheduling;
pub mod steal;
pub mod task;

pub use crate::adaptive_bench::Benchable;
pub use crate::scheduling::BruteForce;
pub use crate::scheduling::BruteForcePar;
pub use crate::scheduling::Scheduling;
pub use crate::task::Task;

verus! {

/// The smaller of two machine words; the identity element of the
/// accumulation done by the scheduling searches is `u64::MAX`.
pub open spec fn min64(a: u64, b: u64) -> u64 {
    if a <= b {
        a
    } else {
        b
    }
}

} // verus!
