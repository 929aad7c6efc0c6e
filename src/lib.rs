//! Cycle-counter profiling: calibrating the cycle counter against an OS timer,
//! accumulating elapsed cycles per named region, and reporting the breakdown.
pub mod clock;
pub mod profiler;
pub mod report;
pub mod text;

use vstd::prelude::*;

verus! {

} // verus!
