use vstd::prelude::*;

use crate::error::BenchError;
use crate::stats::is_mean;
use crate::stats::is_median;
use crate::stats::is_variance;
use crate::stats::summarize;
use crate::stats::variance_fits;
use crate::stats::Summary;

verus! {

/// The change in resident memory across one kernel call, in bytes; `None`
/// when it does not fit an `i64`.
pub fn memory_delta(before: u64, after: u64) -> (r: Option<i64>)
    ensures
        r matches Some(d) ==> d == after - before,
        r is None <==> !(i64::MIN <= after - before <= i64::MAX),
{
    let d: i128 = after as i128 - before as i128;
    if d < i64::MIN as i128 || d > i64::MAX as i128 {
        None
    } else {
        Some(d as i64)
    }
}

/// The samples of one matrix size, one entry per measured iteration:
/// elapsed time in nanoseconds, CPU use in millionths of a percent and the
/// resident-memory change in bytes.
pub struct SampleSet {
    pub times: Vec<i64>,
    pub cpu: Vec<i64>,
    pub memory: Vec<i64>,
}

impl SampleSet {
    /// An empty set.
    pub fn new() -> (r: SampleSet)
        ensures
            r.times@.len() == 0,
            r.cpu@.len() == 0,
            r.memory@.len() == 0,
    {
        SampleSet { times: Vec::new(), cpu: Vec::new(), memory: Vec::new() }
    }

    /// Appends the time sample of one iteration.
    pub fn record_time(&mut self, elapsed_ns: i64)
        ensures
            final(self).times@ == old(self).times@.push(elapsed_ns),
            final(self).cpu@ == old(self).cpu@,
            final(self).memory@ == old(self).memory@,
    {
        self.times.push(elapsed_ns);
    }

    /// Appends the resource samples of one iteration.
    pub fn record_resources(&mut self, cpu_micro_percent: i64, memory_delta_bytes: i64)
        ensures
            final(self).times@ == old(self).times@,
            final(self).cpu@ == old(self).cpu@.push(cpu_micro_percent),
            final(self).memory@ == old(self).memory@.push(memory_delta_bytes),
    {
        self.cpu.push(cpu_micro_percent);
        self.memory.push(memory_delta_bytes);
    }
}

/// One row of results: a size, its two input files, the aggregates of each
/// metric, and the language label.
pub struct ResultRow {
    pub size: usize,
    pub file_a: String,
    pub file_b: String,
    pub time: Summary,
    pub cpu: Option<Summary>,
    pub memory: Option<Summary>,
    pub language: String,
}

/// `q` holds the three aggregates of `s`.
pub open spec fn summarizes(s: Seq<i64>, q: Summary) -> bool {
    is_mean(s, q.mean) && is_median(s, q.median) && is_variance(s, q.variance)
}

/// Every sequence that is aggregated is non-empty and small enough.
pub open spec fn aggregates_ok(s: Seq<i64>) -> bool {
    s.len() > 0 && variance_fits(s)
}

/// Aggregates the samples of one size into its result row. The resource
/// metrics are aggregated only when `with_resources` holds. Any empty
/// sequence that is aggregated fails the whole row.
pub fn build_row(
    size: usize,
    file_a: String,
    file_b: String,
    samples: &SampleSet,
    with_resources: bool,
    language: String,
) -> (r: Result<ResultRow, BenchError>)
    ensures
        r is Ok <==> aggregates_ok(samples.times@) && (with_resources ==> aggregates_ok(
            samples.cpu@,
        ) && aggregates_ok(samples.memory@)),
        samples.times@.len() == 0 ==> r == Err::<ResultRow, BenchError>(BenchError::EmptySample),
        r matches Ok(row) ==> {
            &&& row.size == size
            &&& row.file_a == file_a
            &&& row.file_b == file_b
            &&& row.language == language
            &&& summarizes(samples.times@, row.time)
            &&& with_resources <==> row.cpu is Some
            &&& with_resources <==> row.memory is Some
            &&& (row.cpu matches Some(q) ==> summarizes(samples.cpu@, q))
            &&& (row.memory matches Some(q) ==> summarizes(samples.memory@, q))
        },
{
    let time = match summarize(&samples.times) {
        Ok(q) => q,
        Err(e) => {
            return Err(e);
        },
    };
    let (cpu, memory) = if with_resources {
        let c = match summarize(&samples.cpu) {
            Ok(q) => q,
            Err(e) => {
                return Err(e);
            },
        };
        let m = match summarize(&samples.memory) {
            Ok(q) => q,
            Err(e) => {
                return Err(e);
            },
        };
        (Some(c), Some(m))
    } else {
        (None, None)
    };
    Ok(ResultRow { size, file_a, file_b, time, cpu, memory, language })
}

} // verus!
