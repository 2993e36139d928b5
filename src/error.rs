use vstd::prelude::*;

verus! {

/// The ways a benchmark run can fail. Every one of them is fatal to the run.
#[derive(Debug, Clone, Copy, PartialEq, Eq, Structural)]
pub enum BenchError {
    /// A file could not be opened, created or written.
    Io,
    /// A matrix file holds fewer bytes than its declared size needs.
    TruncatedData,
    /// Statistics were asked of an empty sample sequence.
    EmptySample,
    /// An exact aggregate does not fit the 128-bit accumulator.
    AccumulatorOverflow,
}

} // verus!
