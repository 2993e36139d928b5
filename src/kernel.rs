use vstd::prelude::*;
use vstd::arithmetic::div_mod::lemma_add_mod_noop;
use vstd::arithmetic::div_mod::lemma_fundamental_div_mod_converse;
use vstd::arithmetic::div_mod::lemma_mod_add_multiples_vanish;
use vstd::arithmetic::div_mod::lemma_mod_sub_multiples_vanish;
use vstd::arithmetic::div_mod::lemma_mod_twice;

use crate::codec::is_square;
use crate::codec::rows_of;

verus! {

/// The number of values a 32-bit integer can hold.
pub open spec fn word_range() -> int {
    0x1_0000_0000
}

/// `x` reduced to the signed 32-bit range by two's-complement wraparound.
pub open spec fn wrap_i32(x: int) -> int {
    let r = x % word_range();
    if r > i32::MAX {
        r - word_range()
    } else {
        r
    }
}

/// The exact sum of the first `k` terms `a[i][t] * b[t][j]`.
pub open spec fn dot(a: Seq<Seq<i32>>, b: Seq<Seq<i32>>, i: int, j: int, k: int) -> int
    decreases k,
{
    if k <= 0 {
        0
    } else {
        dot(a, b, i, j, k - 1) + a[i][k - 1] * b[k - 1][j]
    }
}

/// `c` is the product of the `n` by `n` matrices `a` and `b` in 32-bit
/// wrapping arithmetic.
pub open spec fn is_product(a: Seq<Seq<i32>>, b: Seq<Seq<i32>>, n: int, c: Seq<Seq<i32>>) -> bool {
    &&& is_square(c, n)
    &&& forall|i: int, j: int|
        0 <= i < n && 0 <= j < n ==> #[trigger] c[i][j] == wrap_i32(dot(a, b, i, j, n))
}

proof fn lemma_wrap_identity(x: int)
    requires
        i32::MIN <= x <= i32::MAX,
    ensures
        wrap_i32(x) == x,
{
    if x >= 0 {
        lemma_fundamental_div_mod_converse(x, word_range(), 0, x);
    } else {
        lemma_fundamental_div_mod_converse(x, word_range(), -1, x + word_range());
    }
}

proof fn lemma_wrap_absorbs(p: int, q: int)
    ensures
        wrap_i32(wrap_i32(p) + q) == wrap_i32(p + q),
{
    let m = word_range();
    lemma_add_mod_noop(p, q, m);
    lemma_add_mod_noop(p % m, q, m);
    lemma_mod_twice(p, m);
    lemma_mod_sub_multiples_vanish(p % m + q, m);
    assert((wrap_i32(p) + q) % m == (p + q) % m);
}

proof fn lemma_wrapping_step(acc: i32, x: i32, y: i32, d: int)
    requires
        acc as int == wrap_i32(d),
    ensures
        acc.wrapping_add(x.wrapping_mul(y)) as int == wrap_i32(d + x * y),
{
    let m = word_range();
    let w = x.wrapping_mul(y);
    assert(w as int == wrap_i32(x * y));
    let s = acc.wrapping_add(w);
    if acc + w > i32::MAX {
        lemma_wrap_identity(acc + w - m);
        lemma_mod_add_multiples_vanish(acc + w - m, m);
    } else if acc + w < i32::MIN {
        lemma_wrap_identity(acc + w + m);
        lemma_mod_sub_multiples_vanish(acc + w + m, m);
    } else {
        lemma_wrap_identity(acc + w);
    }
    assert(s as int == wrap_i32(acc + w));
    lemma_wrap_absorbs(d, w as int);
    lemma_wrap_absorbs(x * y, d);
}

/// `m` is the `n` by `n` identity matrix.
pub open spec fn is_identity(m: Seq<Seq<i32>>, n: int) -> bool {
    &&& is_square(m, n)
    &&& forall|i: int, j: int|
        0 <= i < n && 0 <= j < n ==> #[trigger] m[i][j] == if i == j {
            1int
        } else {
            0int
        }
}

/// `m` is the `n` by `n` matrix of ones.
pub open spec fn is_all_ones(m: Seq<Seq<i32>>, n: int) -> bool {
    &&& is_square(m, n)
    &&& forall|i: int, j: int| 0 <= i < n && 0 <= j < n ==> #[trigger] m[i][j] == 1
}

proof fn lemma_dot_identity(a: Seq<Seq<i32>>, b: Seq<Seq<i32>>, n: int, i: int, j: int, k: int)
    requires
        is_identity(a, n),
        is_square(b, n),
        0 <= i < n,
        0 <= j < n,
        0 <= k <= n,
    ensures
        dot(a, b, i, j, k) == if i < k {
            b[i][j] as int
        } else {
            0int
        },
    decreases k,
{
    if k > 0 {
        lemma_dot_identity(a, b, n, i, j, k - 1);
        assert(a[i][k - 1] == if i == k - 1 {
            1int
        } else {
            0int
        });
    }
}

proof fn lemma_dot_ones(a: Seq<Seq<i32>>, b: Seq<Seq<i32>>, n: int, i: int, j: int, k: int)
    requires
        is_all_ones(a, n),
        is_all_ones(b, n),
        0 <= i < n,
        0 <= j < n,
        0 <= k <= n,
    ensures
        dot(a, b, i, j, k) == k,
    decreases k,
{
    if k > 0 {
        lemma_dot_ones(a, b, n, i, j, k - 1);
        assert(a[i][k - 1] == 1 && b[k - 1][j] == 1);
    }
}

/// The identity times any matrix is that matrix, unchanged.
pub proof fn lemma_identity_product(a: Seq<Seq<i32>>, b: Seq<Seq<i32>>, n: int, c: Seq<Seq<i32>>)
    requires
        is_identity(a, n),
        is_square(b, n),
        is_product(a, b, n, c),
    ensures
        c =~~= b,
{
    assert forall|i: int, j: int| 0 <= i < n && 0 <= j < n implies #[trigger] c[i][j] == b[i][j] by {
        lemma_dot_identity(a, b, n, i, j, n);
        lemma_wrap_identity(b[i][j] as int);
    }
    assert forall|i: int| 0 <= i < n implies #[trigger] c[i] =~= b[i] by {
        assert forall|j: int| 0 <= j < n implies #[trigger] c[i][j] == b[i][j] by {}
    }
}

/// Every cell of the product of two `n` by `n` matrices of ones is `n`,
/// for every `n` that a 32-bit cell can hold.
pub proof fn lemma_all_ones_product(a: Seq<Seq<i32>>, b: Seq<Seq<i32>>, n: int, c: Seq<Seq<i32>>)
    requires
        is_all_ones(a, n),
        is_all_ones(b, n),
        is_product(a, b, n, c),
        n <= i32::MAX,
    ensures
        forall|i: int, j: int| 0 <= i < n && 0 <= j < n ==> #[trigger] c[i][j] == n,
{
    assert forall|i: int, j: int| 0 <= i < n && 0 <= j < n implies #[trigger] c[i][j] == n by {
        lemma_dot_ones(a, b, n, i, j, n);
        lemma_wrap_identity(n);
    }
}

/// Multiplies two `n` by `n` matrices with the elementary triple loop, rows
/// outermost, then columns, then the summation index, accumulating each cell
/// from zero in 32-bit wrapping arithmetic.
pub fn multiply(a: &Vec<Vec<i32>>, b: &Vec<Vec<i32>>, n: usize) -> (c: Vec<Vec<i32>>)
    requires
        is_square(rows_of(a), n as int),
        is_square(rows_of(b), n as int),
    ensures
        is_product(rows_of(a), rows_of(b), n as int, rows_of(&c)),
{
    let ghost ra = rows_of(a);
    let ghost rb = rows_of(b);
    let mut c: Vec<Vec<i32>> = Vec::with_capacity(n);
    let mut i: usize = 0;
    while i < n
        invariant
            0 <= i <= n,
            ra == rows_of(a),
            rb == rows_of(b),
            is_square(ra, n as int),
            is_square(rb, n as int),
            c@.len() == i,
            forall|p: int| 0 <= p < i ==> #[trigger] c@[p]@.len() == n,
            forall|p: int, q: int|
                0 <= p < i && 0 <= q < n ==> #[trigger] c@[p]@[q] == wrap_i32(
                    dot(ra, rb, p, q, n as int),
                ),
        decreases n - i,
    {
        let mut row: Vec<i32> = Vec::with_capacity(n);
        let mut j: usize = 0;
        while j < n
            invariant
                0 <= i < n,
                0 <= j <= n,
                ra == rows_of(a),
                rb == rows_of(b),
                is_square(ra, n as int),
                is_square(rb, n as int),
                row@.len() == j,
                forall|q: int| 0 <= q < j ==> #[trigger] row@[q] == wrap_i32(
                    dot(ra, rb, i as int, q, n as int),
                ),
            decreases n - j,
        {
            let mut acc: i32 = 0;
            let mut k: usize = 0;
            proof {
                lemma_wrap_identity(0);
            }
            while k < n
                invariant
                    0 <= i < n,
                    0 <= j < n,
                    0 <= k <= n,
                    ra == rows_of(a),
                    rb == rows_of(b),
                    is_square(ra, n as int),
                    is_square(rb, n as int),
                    acc as int == wrap_i32(dot(ra, rb, i as int, j as int, k as int)),
                decreases n - k,
            {
                assert(ra[i as int] == a@[i as int]@);
                assert(rb[k as int] == b@[k as int]@);
                let x = a[i][k];
                let y = b[k][j];
                proof {
                    lemma_wrapping_step(acc, x, y, dot(ra, rb, i as int, j as int, k as int));
                }
                acc = acc.wrapping_add(x.wrapping_mul(y));
                k += 1;
            }
            row.push(acc);
            j += 1;
        }
        c.push(row);
        i += 1;
    }
    assert(rows_of(&c) =~= Seq::new(c@.len(), |p: int| c@[p]@));
    c
}

} // verus!
