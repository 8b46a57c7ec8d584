//! Sums: what the accumulating functions of the kernels add up.

use crate::attention::{context16, context_staged, score_k8, score_kt, staged};
use crate::capture::squares;
use crate::dsp::{dot16, dot8, dot8_swapped, swapped, total};
use crate::kernels::{context, dot_zp, prob_sum, query_sum, score};
use vstd::prelude::*;

verus! {

/// The sum of the first `n` terms.
pub open spec fn sum(term: spec_fn(int) -> int, n: int) -> int
    decreases n,
{
    if n <= 0 {
        0
    } else {
        sum(term, n - 1) + term(n - 1)
    }
}

/// Sums of the same terms are the same.
pub proof fn law_equal_terms_sum_equally(a: spec_fn(int) -> int, b: spec_fn(int) -> int, n: int)
    requires
        forall|i: int| 0 <= i < n ==> #[trigger] a(i) == b(i),
    ensures
        sum(a, n) == sum(b, n),
    decreases n,
{
    if n > 0 {
        law_equal_terms_sum_equally(a, b, n - 1);
    }
}

/// A sum splits anywhere.
pub proof fn law_sums_split(term: spec_fn(int) -> int, m: int, n: int)
    requires
        0 <= m <= n,
    ensures
        sum(term, n) == sum(term, m) + sum(|i: int| term(m + i), n - m),
    decreases n - m,
{
    if n > m {
        law_sums_split(term, m, n - 1);
    }
}

/// A dot product of int16 vectors sums the products of what stands at the same
/// place.
pub proof fn law_dot16_sums_products(a: Seq<i16>, ao: int, b: Seq<i16>, bo: int, n: int)
    requires
        n >= 0,
    ensures
        dot16(a, ao, b, bo, n) == sum(|i: int| a[ao + i] * b[bo + i], n),
    decreases n,
{
    if n > 0 {
        law_dot16_sums_products(a, ao, b, bo, n - 1);
    }
}

/// ... of an int8 row and an int16 vector.
pub proof fn law_dot8_sums_products(v: Seq<i8>, vo: int, x: Seq<i16>, n: int)
    requires
        n >= 0,
    ensures
        dot8(v, vo, x, n) == sum(|i: int| v[vo + i] * x[i], n),
    decreases n,
{
    if n > 0 {
        law_dot8_sums_products(v, vo, x, n - 1);
    }
}

/// ... and of one whose middle pairs are swapped: places 1 and 2 of every four
/// change places.
pub proof fn law_dot8_swapped_sums_products(v: Seq<i8>, vo: int, h: Seq<i16>, n: int)
    requires
        n >= 0,
    ensures
        dot8_swapped(v, vo, h, n) == sum(
            |i: int| v[vo + i] * h[if i % 4 == 1 {
                i + 1
            } else if i % 4 == 2 {
                i - 1
            } else {
                i
            }],
            n,
        ),
    decreases n,
{
    if n > 0 {
        law_dot8_swapped_sums_products(v, vo, h, n - 1);
        assert(swapped(n - 1) == (if (n - 1) % 4 == 1 {
            n
        } else if (n - 1) % 4 == 2 {
            n - 2
        } else {
            n - 1
        }));
    }
}

/// A cell of a matrix product sums row times row, the first with its zero
/// point taken off.
pub proof fn law_matmul_cells_sum_products(
    a: Seq<i8>,
    ao: int,
    za: int,
    b: Seq<i8>,
    bo: int,
    n: int,
)
    requires
        n >= 0,
    ensures
        dot_zp(a, ao, za, b, bo, n) == sum(|i: int| (a[ao + i] - za) * b[bo + i], n),
    decreases n,
{
    if n > 0 {
        law_matmul_cells_sum_products(a, ao, za, b, bo, n - 1);
    }
}

/// A score sums, over the dimensions of a head, query times key, both with
/// their zero points taken off.
pub proof fn law_scores_sum_products(
    q: Seq<i8>,
    qstride: int,
    qi: int,
    zq: int,
    k: Seq<i8>,
    kstride: int,
    j: int,
    zk: int,
    n: int,
)
    requires
        n >= 0,
    ensures
        score(q, qstride, qi, zq, k, kstride, j, zk, n) == sum(
            |c: int| (q[c * qstride + qi] - zq) * (k[c * kstride + j] - zk),
            n,
        ),
    decreases n,
{
    if n > 0 {
        law_scores_sum_products(q, qstride, qi, zq, k, kstride, j, zk, n - 1);
    }
}

/// ... and a query's sum, the query alone.
pub proof fn law_query_sums_sum_codes(q: Seq<i8>, qstride: int, qi: int, zq: int, n: int)
    requires
        n >= 0,
    ensures
        query_sum(q, qstride, qi, zq, n) == sum(|c: int| q[c * qstride + qi] - zq, n),
    decreases n,
{
    if n > 0 {
        law_query_sums_sum_codes(q, qstride, qi, zq, n - 1);
    }
}

/// A context value sums, over the keys, probability times value, the value
/// with its zero point taken off.
pub proof fn law_contexts_sum_products(p: Seq<i16>, v: Seq<i8>, vo: int, zv: int, n: int)
    requires
        n >= 0,
    ensures
        context(p, v, vo, zv, n) == sum(|j: int| p[j] * (v[vo + j] - zv), n),
    decreases n,
{
    if n > 0 {
        law_contexts_sum_products(p, v, vo, zv, n - 1);
    }
}

/// The sum of a row of probabilities.
pub proof fn law_prob_sums_sum_probabilities(p: Seq<i16>, n: int)
    requires
        n >= 0,
    ensures
        prob_sum(p, n) == sum(|j: int| p[j] as int, n),
    decreases n,
{
    if n > 0 {
        law_prob_sums_sum_probabilities(p, n - 1);
    }
}

/// Scores over transposed keys, 64 dimensions to a key.
pub proof fn law_kt_scores_sum_products(
    q: Seq<i8>,
    qstride: int,
    qi: int,
    zq: int,
    kt: Seq<i16>,
    j: int,
    zk: int,
    n: int,
)
    requires
        n >= 0,
    ensures
        score_kt(q, qstride, qi, zq, kt, j, zk, n) == sum(
            |c: int| (q[c * qstride + qi] - zq) * (kt[64 * j + c] - zk),
            n,
        ),
    decreases n,
{
    if n > 0 {
        law_kt_scores_sum_products(q, qstride, qi, zq, kt, j, zk, n - 1);
    }
}

/// Contexts over widened values.
pub proof fn law_kt_contexts_sum_products(
    p: Seq<i16>,
    po: int,
    v: Seq<i16>,
    vo: int,
    zv: int,
    n: int,
)
    requires
        n >= 0,
    ensures
        context16(p, po, v, vo, zv, n) == sum(|j: int| p[po + j] * (v[vo + j] - zv), n),
    decreases n,
{
    if n > 0 {
        law_kt_contexts_sum_products(p, po, v, vo, zv, n - 1);
    }
}

/// Scores of one query over key-major keys.
pub proof fn law_x1_scores_sum_products(
    q: Seq<i8>,
    qstride: int,
    zq: int,
    keys: Seq<i8>,
    j: int,
    zk: int,
    n: int,
)
    requires
        n >= 0,
    ensures
        score_k8(q, qstride, zq, keys, j, zk, n) == sum(
            |c: int| (q[c * qstride] - zq) * (keys[64 * j + c] - zk),
            n,
        ),
    decreases n,
{
    if n > 0 {
        law_x1_scores_sum_products(q, qstride, zq, keys, j, zk, n - 1);
    }
}

/// Contexts over staged tile blocks: tiles of 64 keys, 64 keys to a dimension.
pub proof fn law_x1_contexts_sum_products(p: Seq<i16>, tiles: Seq<i8>, c: int, zv: int, n: int)
    requires
        n >= 0,
    ensures
        context_staged(p, tiles, c, zv, n) == sum(
            |j: int| p[j] * (tiles[4096 * (j / 64) + 64 * c + j % 64] - zv),
            n,
        ),
    decreases n,
{
    if n > 0 {
        law_x1_contexts_sum_products(p, tiles, c, zv, n - 1);
    }
}

/// The energy of samples.
pub proof fn law_squares_sum_squares(s: Seq<i16>, n: int)
    requires
        n >= 0,
    ensures
        squares(s, n) == sum(|i: int| s[i] * s[i], n),
    decreases n,
{
    if n > 0 {
        law_squares_sum_squares(s, n - 1);
    }
}

/// The total of bytes.
pub proof fn law_totals_sum_bytes(b: Seq<u8>)
    ensures
        total(b) == sum(|i: int| b[i] as int, b.len() as int),
    decreases b.len(),
{
    if b.len() > 0 {
        let c = b.drop_last();
        law_totals_sum_bytes(c);
        law_equal_terms_sum_equally(|i: int| c[i] as int, |i: int| b[i] as int, c.len() as int);
    }
}

/// A staged tile block holds 64 keys of every dimension side by side.
pub proof fn law_staged_blocks_hold_tiles(stage: Seq<i8>, c: int, i: int, r: int)
    requires
        0 <= r < 64,
        0 <= i,
    ensures
        staged(stage, c, 64 * i + r) == stage[4096 * i + 64 * c + r],
{
    assert((64 * i + r) / 64 == i);
    assert((64 * i + r) % 64 == r);
}

} // verus!
