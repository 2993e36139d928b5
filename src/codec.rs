use vstd::prelude::*;
use vstd::arithmetic::div_mod::lemma_fundamental_div_mod;
use vstd::arithmetic::div_mod::lemma_fundamental_div_mod_converse;

use crate::error::BenchError;

verus! {

/// The signed 32-bit integer whose little-endian bytes are `b0..b3`.
pub open spec fn le_i32(b0: u8, b1: u8, b2: u8, b3: u8) -> int {
    let u = b0 + 256 * (b1 + 256 * (b2 + 256 * b3));
    if u < 0x8000_0000 {
        u
    } else {
        u - 0x1_0000_0000
    }
}

/// The `k`-th little-endian 32-bit word of `bytes`.
pub open spec fn word_at(bytes: Seq<u8>, k: int) -> int {
    le_i32(bytes[4 * k], bytes[4 * k + 1], bytes[4 * k + 2], bytes[4 * k + 3])
}

/// The number of bytes a square matrix of dimension `n` takes on disk.
pub open spec fn matrix_bytes(n: int) -> int {
    n * n * 4
}

/// `m` is an `n` by `n` matrix.
pub open spec fn is_square(m: Seq<Seq<i32>>, n: int) -> bool {
    &&& m.len() == n
    &&& forall|i: int| 0 <= i < n ==> #[trigger] m[i].len() == n
}

/// `m` is the `n` by `n` matrix whose element `(i, j)` is the word at flat
/// offset `i * n + j` of `bytes`.
pub open spec fn decodes_to(bytes: Seq<u8>, n: int, m: Seq<Seq<i32>>) -> bool {
    &&& is_square(m, n)
    &&& forall|i: int, j: int|
        0 <= i < n && 0 <= j < n ==> #[trigger] m[i][j] == word_at(bytes, i * n + j)
}

/// The rows of a matrix held as nested vectors.
pub open spec fn rows_of(m: &Vec<Vec<i32>>) -> Seq<Seq<i32>> {
    Seq::new(m@.len(), |i: int| m@[i]@)
}

/// The unsigned 32-bit pattern of `x`.
pub open spec fn bits_of(x: i32) -> int {
    if x >= 0 {
        x as int
    } else {
        x + 0x1_0000_0000
    }
}

/// Byte `t` (0 to 3, least significant first) of the little-endian encoding of `x`.
pub open spec fn le_byte(x: i32, t: int) -> u8 {
    let u = bits_of(x);
    if t == 0 {
        (u % 256) as u8
    } else if t == 1 {
        ((u / 256) % 256) as u8
    } else if t == 2 {
        ((u / 256 / 256) % 256) as u8
    } else {
        ((u / 256 / 256 / 256) % 256) as u8
    }
}

/// The little-endian encoding of a flat sequence of words.
pub open spec fn encode_words(s: Seq<i32>) -> Seq<u8> {
    Seq::new(4 * s.len(), |p: int| le_byte(s[p / 4], p % 4))
}

/// The row-major flattening of an `n` by `n` matrix.
pub open spec fn flatten(m: Seq<Seq<i32>>, n: int) -> Seq<i32> {
    Seq::new((n * n) as nat, |k: int| m[k / n][k % n])
}

/// Decodes one little-endian signed 32-bit integer.
pub fn i32_from_le(b0: u8, b1: u8, b2: u8, b3: u8) -> (r: i32)
    ensures
        r as int == le_i32(b0, b1, b2, b3),
{
    let u: u32 = b0 as u32 + 256 * (b1 as u32 + 256 * (b2 as u32 + 256 * b3 as u32));
    if u < 0x8000_0000 {
        u as i32
    } else {
        let low: u32 = u - 0x8000_0000;
        (low as i32) - 0x7FFF_FFFF - 1
    }
}

/// The word at offset `k` of `bytes`, as an exec value.
fn word_from(bytes: &[u8], k: usize) -> (r: i32)
    requires
        4 * k + 3 < bytes@.len(),
        4 * k + 3 <= usize::MAX,
    ensures
        r as int == word_at(bytes@, k as int),
{
    let p: usize = 4 * k;
    i32_from_le(bytes[p], bytes[p + 1], bytes[p + 2], bytes[p + 3])
}

proof fn lemma_index_in_square(n: int, i: int, j: int)
    requires
        0 <= i < n,
        0 <= j < n,
    ensures
        0 <= i * n + j < n * n,
        i * n + n <= n * n,
{
    assert(i * n + j < n * n && i * n + n <= n * n && 0 <= i * n) by (nonlinear_arith)
        requires
            0 <= i < n,
            0 <= j < n,
    ;
}

/// Reads a square matrix of dimension `n` out of its on-disk form: `n * n`
/// little-endian signed 32-bit integers in row-major order. Bytes past the
/// first `n * n * 4` are ignored; fewer than that is an error, and no partial
/// matrix is returned.
pub fn decode_matrix(bytes: &[u8], n: usize) -> (r: Result<Vec<Vec<i32>>, BenchError>)
    ensures
        bytes@.len() < matrix_bytes(n as int) <==> r == Err::<Vec<Vec<i32>>, BenchError>(
            BenchError::TruncatedData,
        ),
        r is Ok <==> bytes@.len() >= matrix_bytes(n as int),
        r matches Ok(m) ==> decodes_to(bytes@, n as int, rows_of(&m)),
{
    let len = bytes.len();
    let cells = n.checked_mul(n);
    let needed = match cells {
        Some(c) => c.checked_mul(4),
        None => None,
    };
    let needed = match needed {
        Some(v) => v,
        None => {
            assert(n * n * 4 > usize::MAX) by (nonlinear_arith)
                requires
                    n * n > usize::MAX || (n * n) * 4 > usize::MAX,
            ;
            return Err(BenchError::TruncatedData);
        },
    };
    if len < needed {
        return Err(BenchError::TruncatedData);
    }
    let mut m: Vec<Vec<i32>> = Vec::with_capacity(n);
    let mut i: usize = 0;
    while i < n
        invariant
            0 <= i <= n,
            needed == n * n * 4,
            bytes@.len() >= needed,
            m@.len() == i,
            forall|a: int| 0 <= a < i ==> #[trigger] m@[a]@.len() == n,
            forall|a: int, b: int|
                0 <= a < i && 0 <= b < n ==> #[trigger] m@[a]@[b] == word_at(
                    bytes@,
                    a * n + b,
                ),
        decreases n - i,
    {
        let mut row: Vec<i32> = Vec::with_capacity(n);
        proof {
            lemma_index_in_square(n as int, i as int, 0);
        }
        let base: usize = i * n;
        let mut j: usize = 0;
        while j < n
            invariant
                0 <= i < n,
                0 <= j <= n,
                base == i * n,
                base + n <= n * n,
                needed == n * n * 4,
                bytes@.len() >= needed,
                row@.len() == j,
                forall|b: int| 0 <= b < j ==> #[trigger] row@[b] == word_at(bytes@, base + b),
            decreases n - j,
        {
            proof {
                assert((base + j) * 4 + 3 < n * n * 4) by (nonlinear_arith)
                    requires
                        base + j < n * n,
                ;
            }
            row.push(word_from(bytes, base + j));
            j += 1;
        }
        m.push(row);
        i += 1;
    }
    assert(rows_of(&m) =~= Seq::new(m@.len(), |a: int| m@[a]@));
    Ok(m)
}

/// Decoding the bytes of `i32::to_le_bytes` gives back the integer.
pub proof fn lemma_word_round_trip(x: i32)
    ensures
        le_i32(le_byte(x, 0), le_byte(x, 1), le_byte(x, 2), le_byte(x, 3)) == x as int,
{
    let u = bits_of(x);
    let u1 = u / 256;
    let u2 = u1 / 256;
    let u3 = u2 / 256;
    lemma_fundamental_div_mod(u, 256);
    lemma_fundamental_div_mod(u1, 256);
    lemma_fundamental_div_mod(u2, 256);
    lemma_fundamental_div_mod(u3, 256);
    assert(0 <= u < 0x1_0000_0000);
    assert(u3 < 256);
    assert(u3 % 256 == u3);
}

/// Writing the `n * n` words of a matrix in row-major little-endian form and
/// decoding them with dimension `n` reproduces the matrix exactly.
pub proof fn lemma_matrix_round_trip(m: Seq<Seq<i32>>, n: int)
    requires
        n >= 0,
        is_square(m, n),
    ensures
        encode_words(flatten(m, n)).len() == matrix_bytes(n),
        decodes_to(encode_words(flatten(m, n)), n, m),
{
    let flat = flatten(m, n);
    let bytes = encode_words(flat);
    assert(n * n >= 0) by (nonlinear_arith)
        requires
            n >= 0,
    ;
    assert forall|i: int, j: int| 0 <= i < n && 0 <= j < n implies #[trigger] m[i][j] == word_at(
        bytes,
        i * n + j,
    ) by {
        let k = i * n + j;
        lemma_index_in_square(n, i, j);
        lemma_fundamental_div_mod_converse(k, n, i, j);
        assert(flat[k] == m[i][j]);
        assert forall|t: int| 0 <= t < 4 implies #[trigger] bytes[4 * k + t] == le_byte(
            m[i][j],
            t,
        ) by {
            lemma_fundamental_div_mod_converse(4 * k + t, 4, k, t);
        }
        assert(bytes[4 * k] == le_byte(m[i][j], 0));
        assert(bytes[4 * k + 1] == le_byte(m[i][j], 1));
        assert(bytes[4 * k + 2] == le_byte(m[i][j], 2));
        assert(bytes[4 * k + 3] == le_byte(m[i][j], 3));
        lemma_word_round_trip(m[i][j]);
    }
}

} // verus!
