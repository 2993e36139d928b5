use vstd::prelude::*;
use vstd::relations::sorted_by;
use vstd::relations::total_ordering;
use vstd::seq_lib::lemma_sorted_unique;

use crate::error::BenchError;

verus! {

/// An exact rational value `num / den`.
#[derive(Debug, Clone, Copy, PartialEq, Eq, Structural)]
pub struct Ratio {
    pub num: i128,
    pub den: u128,
}

/// The three aggregates of one sample sequence.
#[derive(Debug, Clone, Copy, PartialEq, Eq, Structural)]
pub struct Summary {
    pub mean: Ratio,
    pub median: Ratio,
    pub variance: Ratio,
}

/// The samples as mathematical integers.
pub open spec fn ints(s: Seq<i64>) -> Seq<int> {
    s.map_values(|x: i64| x as int)
}

/// The sum of the samples.
pub open spec fn sum(s: Seq<i64>) -> int
    decreases s.len(),
{
    if s.len() == 0 {
        0
    } else {
        sum(s.drop_last()) + s.last()
    }
}

/// The sum of the squares of the samples.
pub open spec fn sum_sq(s: Seq<i64>) -> int
    decreases s.len(),
{
    if s.len() == 0 {
        0
    } else {
        sum_sq(s.drop_last()) + s.last() * s.last()
    }
}

/// The sum over the samples `x` of `(c * x - d)^2`. With `c` the count and
/// `d` the sum, this is `c^2` times the summed squared deviations from the mean.
pub open spec fn scaled_sq_dev(s: Seq<i64>, c: int, d: int) -> int
    decreases s.len(),
{
    if s.len() == 0 {
        0
    } else {
        let t = c * s.last() - d;
        scaled_sq_dev(s.drop_last(), c, d) + t * t
    }
}

/// The samples in ascending order.
pub open spec fn sorted_samples(s: Seq<i64>) -> Seq<int> {
    ints(s).sort()
}

/// The median of an ascending sequence as a fraction: the middle element
/// over 1 for an odd count, the sum of the two middle elements over 2 for an
/// even count.
pub open spec fn median_num(t: Seq<int>) -> int {
    let h = t.len() as int / 2;
    if t.len() % 2 == 1 {
        t[h]
    } else {
        t[h - 1] + t[h]
    }
}

pub open spec fn median_den(t: Seq<int>) -> int {
    if t.len() % 2 == 1 {
        1
    } else {
        2
    }
}

/// The arithmetic mean, as `sum / count`.
pub open spec fn is_mean(s: Seq<i64>, q: Ratio) -> bool {
    q.num == sum(s) && q.den == s.len()
}

/// The median of the samples.
pub open spec fn is_median(s: Seq<i64>, q: Ratio) -> bool {
    q.num == median_num(sorted_samples(s)) && q.den == median_den(sorted_samples(s))
}

/// The population variance, as `(count * sum_sq - sum^2) / count^2`.
pub open spec fn is_variance(s: Seq<i64>, q: Ratio) -> bool {
    q.num == s.len() * sum_sq(s) - sum(s) * sum(s) && q.den == s.len() * s.len()
}

/// The variance needs `count * sum_sq` to fit in an `i128`.
pub open spec fn variance_fits(s: Seq<i64>) -> bool {
    s.len() * sum_sq(s) <= i128::MAX
}

proof fn lemma_prefix_step(s: Seq<i64>, k: int)
    requires
        0 <= k < s.len(),
    ensures
        sum(s.take(k + 1)) == sum(s.take(k)) + s[k],
        sum_sq(s.take(k + 1)) == sum_sq(s.take(k)) + s[k] * s[k],
{
    assert(s.take(k + 1).drop_last() =~= s.take(k));
}

proof fn lemma_sum_sq_nonneg_prefix(s: Seq<i64>, k: int)
    requires
        0 <= k <= s.len(),
    ensures
        0 <= sum_sq(s.take(k)) <= sum_sq(s),
    decreases s.len() - k,
{
    if k == s.len() {
        assert(s.take(k) =~= s);
        lemma_sum_sq_nonneg(s);
    } else {
        lemma_prefix_step(s, k);
        lemma_sum_sq_nonneg_prefix(s, k + 1);
        lemma_sum_sq_nonneg(s.take(k));
        assert(s[k] * s[k] >= 0) by (nonlinear_arith);
    }
}

proof fn lemma_sum_sq_nonneg(s: Seq<i64>)
    ensures
        sum_sq(s) >= 0,
    decreases s.len(),
{
    if s.len() > 0 {
        lemma_sum_sq_nonneg(s.drop_last());
        assert(s.last() * s.last() >= 0) by (nonlinear_arith);
    }
}

proof fn lemma_scaled_sq_dev_nonneg(s: Seq<i64>, c: int, d: int)
    ensures
        scaled_sq_dev(s, c, d) >= 0,
    decreases s.len(),
{
    if s.len() > 0 {
        lemma_scaled_sq_dev_nonneg(s.drop_last(), c, d);
        let t = c * s.last() - d;
        assert(t * t >= 0) by (nonlinear_arith);
    }
}

/// Expands the sum of `(c * x - d)^2` over the samples.
pub proof fn lemma_scaled_sq_dev_expand(s: Seq<i64>, c: int, d: int)
    ensures
        scaled_sq_dev(s, c, d) == c * c * sum_sq(s) - 2 * c * d * sum(s) + s.len() * d * d,
    decreases s.len(),
{
    if s.len() > 0 {
        let p = s.drop_last();
        lemma_scaled_sq_dev_expand(p, c, d);
        let x = s.last() as int;
        let q = sum_sq(p);
        let m = sum(p);
        let n = p.len() as int;
        assert((c * c * q - 2 * c * d * m + n * d * d) + (c * x - d) * (c * x - d) == c * c * (q
            + x * x) - 2 * c * d * (m + x) + (n + 1) * d * d) by (nonlinear_arith);
    }
}

/// The population variance is the mean of the squared deviations from the
/// mean: `count` times the numerator equals the sum of
/// `(count * x - sum)^2`, which is `count^3` times the summed squared
/// deviations. In particular the variance is never negative.
pub proof fn lemma_variance_is_mean_square_deviation(s: Seq<i64>)
    ensures
        s.len() * (s.len() * sum_sq(s) - sum(s) * sum(s)) == scaled_sq_dev(s, s.len() as int, sum(s)),
        s.len() * sum_sq(s) - sum(s) * sum(s) >= 0,
{
    let n = s.len() as int;
    let q = sum_sq(s);
    let m = sum(s);
    lemma_scaled_sq_dev_expand(s, n, m);
    lemma_scaled_sq_dev_nonneg(s, n, m);
    lemma_sum_sq_nonneg(s);
    assert(n * (n * q - m * m) == n * n * q - 2 * n * m * m + n * m * m) by (nonlinear_arith);
    if n > 0 {
        assert(n * q - m * m >= 0) by (nonlinear_arith)
            requires
                n > 0,
                n * (n * q - m * m) >= 0,
        ;
    } else {
        assert(s =~= Seq::<i64>::empty());
        assert(m == 0);
    }
}

/// The exact sum of the samples.
fn total(data: &Vec<i64>) -> (r: i128)
    ensures
        r == sum(data@),
{
    let mut acc: i128 = 0;
    let mut k: usize = 0;
    while k < data.len()
        invariant
            0 <= k <= data@.len(),
            acc == sum(data@.take(k as int)),
            -(k * 0x8000_0000_0000_0000) <= acc <= k * 0x7FFF_FFFF_FFFF_FFFF,
        decreases data@.len() - k,
    {
        proof {
            lemma_prefix_step(data@, k as int);
        }
        acc = acc + data[k] as i128;
        k += 1;
    }
    assert(data@.take(k as int) =~= data@);
    acc
}

/// The arithmetic mean of the samples, exactly.
pub fn mean(data: &Vec<i64>) -> (r: Result<Ratio, BenchError>)
    ensures
        data@.len() == 0 <==> r == Err::<Ratio, BenchError>(BenchError::EmptySample),
        data@.len() > 0 <==> r is Ok,
        r matches Ok(q) ==> is_mean(data@, q),
{
    if data.len() == 0 {
        return Err(BenchError::EmptySample);
    }
    let s = total(data);
    Ok(Ratio { num: s, den: data.len() as u128 })
}

/// The samples in ascending order, by insertion.
pub fn sort_samples(data: &Vec<i64>) -> (r: Vec<i64>)
    ensures
        ints(r@) == sorted_samples(data@),
        r@.len() == data@.len(),
{
    broadcast use vstd::seq_lib::group_to_multiset_ensures;

    let mut out: Vec<i64> = Vec::with_capacity(data.len());
    let mut k: usize = 0;
    while k < data.len()
        invariant
            0 <= k <= data@.len(),
            out@.len() == k,
            forall|p: int, q: int| 0 <= p < q < out@.len() ==> out@[p] <= out@[q],
            ints(out@).to_multiset() == ints(data@.take(k as int)).to_multiset(),
        decreases data@.len() - k,
    {
        let x = data[k];
        let mut pos: usize = 0;
        while pos < out.len() && out[pos] <= x
            invariant
                0 <= pos <= out@.len(),
                forall|p: int| 0 <= p < pos ==> out@[p] <= x,
            decreases out@.len() - pos,
        {
            pos += 1;
        }
        let ghost before = out@;
        out.insert(pos, x);
        proof {
            assert(ints(out@) =~= ints(before).insert(pos as int, x as int));
            assert(ints(data@.take(k + 1)) =~= ints(data@.take(k as int)).push(x as int));
            vstd::seq_lib::to_multiset_insert(ints(before), pos as int, x as int);
            ints(data@.take(k as int)).to_multiset_ensures();
            assert(ints(out@).to_multiset() == ints(data@.take(k + 1)).to_multiset());
            assert forall|p: int, q: int| 0 <= p < q < out@.len() implies out@[p] <= out@[q] by {
                if q < pos {
                } else if q == pos {
                } else if p < pos {
                    assert(out@[q] == before[q - 1]);
                    if pos < before.len() {
                        assert(before[pos as int] > x);
                    }
                } else if p == pos {
                    assert(before[pos as int] > x);
                } else {
                }
            }
        }
        k += 1;
    }
    proof {
        assert(data@.take(k as int) =~= data@);
        let leq = |a: int, b: int| a <= b;
        ints(data@).lemma_sort_ensures();
        let t = ints(data@).sort();
        assert(sorted_by(ints(out@), leq));
        assert(sorted_by(t, leq)) by {
            assert forall|p: int, q: int| 0 <= p < q < t.len() implies #[trigger] leq(t[p], t[q]) by {
                assert(sorted_by(t, |a: int, b: int| a <= b));
            }
        }
        assert(total_ordering(leq));
        lemma_sorted_unique(ints(out@), t, leq);
    }
    out
}

/// The median of the samples, exactly.
pub fn median(data: &Vec<i64>) -> (r: Result<Ratio, BenchError>)
    ensures
        data@.len() == 0 <==> r == Err::<Ratio, BenchError>(BenchError::EmptySample),
        data@.len() > 0 <==> r is Ok,
        r matches Ok(q) ==> is_median(data@, q),
{
    if data.len() == 0 {
        return Err(BenchError::EmptySample);
    }
    let sorted = sort_samples(data);
    let n = sorted.len();
    let ghost t = ints(sorted@);
    if n % 2 == 1 {
        assert(t[(n / 2) as int] == sorted@[(n / 2) as int] as int);
        Ok(Ratio { num: sorted[n / 2] as i128, den: 1 })
    } else {
        assert(t[(n / 2) as int] == sorted@[(n / 2) as int] as int);
        assert(t[(n / 2 - 1) as int] == sorted@[(n / 2 - 1) as int] as int);
        Ok(Ratio { num: sorted[n / 2 - 1] as i128 + sorted[n / 2] as i128, den: 2 })
    }
}

/// The population variance of the samples (squared deviations divided by
/// the count), exactly. Its square root is the standard deviation.
pub fn variance(data: &Vec<i64>) -> (r: Result<Ratio, BenchError>)
    ensures
        data@.len() == 0 <==> r == Err::<Ratio, BenchError>(BenchError::EmptySample),
        data@.len() > 0 && !variance_fits(data@) <==> r == Err::<Ratio, BenchError>(
            BenchError::AccumulatorOverflow,
        ),
        r is Ok <==> data@.len() > 0 && variance_fits(data@),
        r matches Ok(q) ==> is_variance(data@, q),
{
    if data.len() == 0 {
        return Err(BenchError::EmptySample);
    }
    let n = data.len();
    let mut acc: i128 = 0;
    let mut k: usize = 0;
    while k < n
        invariant
            n == data@.len(),
            0 <= k <= n,
            acc == sum_sq(data@.take(k as int)),
        decreases n - k,
    {
        let x = data[k] as i128;
        proof {
            lemma_prefix_step(data@, k as int);
            lemma_sum_sq_nonneg_prefix(data@, k as int);
            lemma_sum_sq_nonneg_prefix(data@, k as int + 1);
            assert(x * x <= 0x4000_0000_0000_0000_0000_0000_0000_0000) by (nonlinear_arith)
                requires
                    -0x8000_0000_0000_0000 <= x <= 0x8000_0000_0000_0000,
            ;
            assert(x * x >= 0) by (nonlinear_arith);
        }
        match acc.checked_add(x * x) {
            Some(v) => {
                acc = v;
            },
            None => {
                proof {
                    assert(n * sum_sq(data@) >= sum_sq(data@)) by (nonlinear_arith)
                        requires
                            n >= 1,
                            sum_sq(data@) >= 0,
                    ;
                }
                return Err(BenchError::AccumulatorOverflow);
            },
        }
        k += 1;
    }
    assert(data@.take(n as int) =~= data@);
    proof {
        lemma_sum_sq_nonneg(data@);
    }
    let scaled = match (n as i128).checked_mul(acc) {
        Some(v) => v,
        None => {
            return Err(BenchError::AccumulatorOverflow);
        },
    };
    let s = total(data);
    proof {
        lemma_variance_is_mean_square_deviation(data@);
        assert(s * s >= 0) by (nonlinear_arith);
    }
    let num = scaled - s * s;
    assert((n as int) * (n as int) <= u128::MAX) by (nonlinear_arith)
        requires
            0 <= n <= usize::MAX,
            usize::MAX <= 0xFFFF_FFFF_FFFF_FFFF,
    ;
    let den = (n as u128) * (n as u128);
    Ok(Ratio { num, den })
}

/// Mean, median and population variance of one sample sequence.
pub fn summarize(data: &Vec<i64>) -> (r: Result<Summary, BenchError>)
    ensures
        data@.len() == 0 <==> r == Err::<Summary, BenchError>(BenchError::EmptySample),
        data@.len() > 0 && !variance_fits(data@) <==> r == Err::<Summary, BenchError>(
            BenchError::AccumulatorOverflow,
        ),
        r is Ok <==> data@.len() > 0 && variance_fits(data@),
        r matches Ok(q) ==> is_mean(data@, q.mean) && is_median(data@, q.median) && is_variance(
            data@,
            q.variance,
        ),
{
    let m = mean(data);
    let md = median(data);
    let v = variance(data);
    match (m, md, v) {
        (Ok(m), Ok(md), Ok(v)) => Ok(Summary { mean: m, median: md, variance: v }),
        (_, _, Err(e)) => Err(e),
        _ => Err(BenchError::EmptySample),
    }
}

} // verus!
