//! A harness for benchmarking naive dense integer matrix multiplication:
//! the on-disk matrix format, the timed kernel, exact sample statistics and
//! the decisions of a benchmark run, each with a proved contract.

use vstd::prelude::*;

pub mod codec;
pub mod error;
pub mod kernel;
pub mod samples;
pub mod schedule;
pub mod stats;

verus! {

} // verus!
