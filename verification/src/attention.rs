//! Attention on kernel layouts: keys transposed to key-major rows, values
//! widened or left as int8 tiles, queries one or two at a time. Every
//! function here computes the sums of the plain form.

use crate::dsp;
use crate::dsp::{dot16, dot8_swapped, swapped, wrap32, ROW2};
use crate::kernels::{
    context, is_prob_row, key_cell, keys_padded, padded, prob_sum, probs_total, query_sum, score,
    value_cell, AttnKv, KV16_LEN, MAX_KEYS,
};
use vstd::prelude::*;

verus! {

/// Frames of a tile.
pub const TILE: usize = 64;

/// Bytes of one head's block of one tile.
pub const HEAD_BLOCK: usize = 4096;

// --- layouts ------------------------------------------------------------------------

/// Channel `c` of key `j` in a head's staged tile blocks
/// (`[tile][64 channels][64 keys]`).
pub open spec fn staged(stage: Seq<i8>, c: int, j: int) -> i8 {
    stage[j / 64 * 4096 + c * 64 + j % 64]
}

/// Bytes of staged blocks that `tk` keys reach into.
pub open spec fn stage_need(tk: int) -> int {
    if tk <= 0 {
        0
    } else {
        (tk - 1) / 64 * 4096 + 4032 + (tk - 1) % 64 + 1
    }
}

/// Transposed keys for one head from its staged tile blocks: key-major
/// rows, the rows from `tk` up to whole kernel steps zero.
pub fn prepare_kv_from(stage: &[i8], tk: usize, kt: &mut [i16])
    requires
        tk <= MAX_KEYS,
        stage@.len() >= stage_need(tk as int),
        old(kt)@.len() >= KV16_LEN,
    ensures
        final(kt)@.len() == old(kt)@.len(),
        forall|j: int, c: int|
            #![trigger key_cell(final(kt)@, j, c)]
            0 <= j < tk && 0 <= c < 64 ==> key_cell(final(kt)@, j, c) == staged(stage@, c, j),
        forall|j: int, c: int|
            #![trigger key_cell(final(kt)@, j, c)]
            tk <= j < padded(tk as int) && 0 <= c < 64 ==> key_cell(final(kt)@, j, c) == 0,
        forall|i: int|
            64 * padded(tk as int) <= i < final(kt)@.len() ==> #[trigger] final(kt)@[i]
                == old(kt)@[i],
{
    let tkp: usize = keys_padded(tk);
    let ghost start = kt@;
    let mut j: usize = 0;
    while j < tkp
        invariant
            j <= tkp,
            tk <= tkp <= MAX_KEYS,
            tkp == padded(tk as int),
            stage@.len() >= stage_need(tk as int),
            kt@.len() == start.len(),
            kt@.len() >= KV16_LEN,
            forall|i: int, c: int|
                #![trigger key_cell(kt@, i, c)]
                0 <= i < j && i < tk && 0 <= c < 64 ==> key_cell(kt@, i, c) == staged(
                    stage@,
                    c,
                    i,
                ),
            forall|i: int, c: int|
                #![trigger key_cell(kt@, i, c)]
                tk <= i < j && 0 <= c < 64 ==> key_cell(kt@, i, c) == 0,
            forall|i: int| 64 * tkp <= i < kt@.len() ==> #[trigger] kt@[i] == start[i],
        decreases tkp - j,
    {
        let mut c: usize = 0;
        while c < 64
            invariant
                c <= 64,
                j < tkp,
                tk <= tkp <= MAX_KEYS,
                tkp == padded(tk as int),
                stage@.len() >= stage_need(tk as int),
                kt@.len() == start.len(),
                kt@.len() >= KV16_LEN,
                forall|i: int, d: int|
                    #![trigger key_cell(kt@, i, d)]
                    i < tk && 0 <= d < 64 && (0 <= i < j || i == j && d < c) ==> key_cell(
                        kt@,
                        i,
                        d,
                    ) == staged(stage@, d, i),
                forall|i: int, d: int|
                    #![trigger key_cell(kt@, i, d)]
                    tk <= i && 0 <= d < 64 && (i < j || i == j && d < c) ==> key_cell(kt@, i, d)
                        == 0,
                forall|i: int| 64 * tkp <= i < kt@.len() ==> #[trigger] kt@[i] == start[i],
            decreases 64 - c,
        {
            let ghost before = kt@;
            if j < tk {
                let from: usize = j / 64 * 4096 + c * 64 + j % 64;
                proof {
                    assert(from < stage_need(tk as int)) by {
                        assert(j / 64 <= (tk - 1) / 64);
                        if j / 64 == (tk - 1) / 64 {
                            assert(j % 64 <= (tk - 1) % 64);
                        }
                    }
                }
                kt[64 * j + c] = stage[from] as i16;
            } else {
                kt[64 * j + c] = 0;
            }
            assert forall|i: int, d: int|
                #![trigger key_cell(kt@, i, d)]
                0 <= i < 640 && 0 <= d < 64 && !(i == j && d == c) implies key_cell(kt@, i, d)
                == key_cell(before, i, d) by {
                assert(64 * i + d != 64 * j + c);
            }
            c = c + 1;
        }
        j = j + 1;
    }
}

/// Widened values for one head from its staged tile blocks: rows of
/// `MAX_KEYS`, the columns from `tk` up to whole kernel steps zero.
pub fn prepare_v_from(stage: &[i8], tk: usize, v16: &mut [i16])
    requires
        tk <= MAX_KEYS,
        stage@.len() >= stage_need(tk as int),
        old(v16)@.len() >= KV16_LEN,
    ensures
        final(v16)@.len() == old(v16)@.len(),
        forall|c: int, j: int|
            #![trigger value_cell(final(v16)@, c, j)]
            0 <= c < 64 && 0 <= j < 640 ==> value_cell(final(v16)@, c, j) == if j < tk {
                staged(stage@, c, j) as i16
            } else if j < padded(tk as int) {
                0
            } else {
                value_cell(old(v16)@, c, j)
            },
        forall|i: int|
            KV16_LEN <= i < final(v16)@.len() ==> #[trigger] final(v16)@[i] == old(v16)@[i],
{
    let tkp: usize = keys_padded(tk);
    let ghost start = v16@;
    let mut c: usize = 0;
    while c < 64
        invariant
            c <= 64,
            tk <= tkp <= MAX_KEYS,
            tkp == padded(tk as int),
            stage@.len() >= stage_need(tk as int),
            v16@.len() == start.len(),
            v16@.len() >= KV16_LEN,
            forall|d: int, j: int|
                #![trigger value_cell(v16@, d, j)]
                0 <= d < 64 && 0 <= j < 640 ==> value_cell(v16@, d, j) == if d < c && j < tk {
                    staged(stage@, d, j) as i16
                } else if d < c && j < tkp {
                    0
                } else {
                    value_cell(start, d, j)
                },
            forall|i: int| KV16_LEN <= i < v16@.len() ==> #[trigger] v16@[i] == start[i],
        decreases 64 - c,
    {
        let mut j: usize = 0;
        while j < tkp
            invariant
                c < 64,
                j <= tkp,
                tk <= tkp <= MAX_KEYS,
                tkp == padded(tk as int),
                stage@.len() >= stage_need(tk as int),
                v16@.len() == start.len(),
                v16@.len() >= KV16_LEN,
                forall|d: int, i: int|
                    #![trigger value_cell(v16@, d, i)]
                    0 <= d < 64 && 0 <= i < 640 ==> value_cell(v16@, d, i) == if (d < c || d == c
                        && i < j) && i < tk {
                        staged(stage@, d, i) as i16
                    } else if (d < c || d == c && i < j) && i < tkp {
                        0
                    } else {
                        value_cell(start, d, i)
                    },
                forall|i: int| KV16_LEN <= i < v16@.len() ==> #[trigger] v16@[i] == start[i],
            decreases tkp - j,
        {
            let ghost before = v16@;
            if j < tk {
                let from: usize = j / 64 * 4096 + c * 64 + j % 64;
                proof {
                    assert(from < stage_need(tk as int)) by {
                        assert(j / 64 <= (tk - 1) / 64);
                        if j / 64 == (tk - 1) / 64 {
                            assert(j % 64 <= (tk - 1) % 64);
                        }
                    }
                }
                v16[640 * c + j] = stage[from] as i16;
            } else {
                v16[640 * c + j] = 0;
            }
            assert forall|d: int, i: int|
                #![trigger value_cell(v16@, d, i)]
                0 <= d < 64 && 0 <= i < 640 && !(d == c && i == j) implies value_cell(v16@, d, i)
                == value_cell(before, d, i) by {
                assert(640 * d + i != 640 * c + j);
            }
            j = j + 1;
        }
        c = c + 1;
    }
}

/// Row `r`, column `c` of a 64 by 64 block.
pub open spec fn block_cell(b: Seq<i8>, r: int, c: int) -> i8 {
    b[64 * r + c]
}

/// `b` is `a` with rows and columns exchanged.
pub open spec fn transposed(a: Seq<i8>, b: Seq<i8>) -> bool {
    forall|r: int, c: int|
        #![trigger block_cell(b, c, r)]
        0 <= r < 64 && 0 <= c < 64 ==> block_cell(b, c, r) == block_cell(a, r, c)
}

/// One 64 by 64 head block transposed: `[row][col]` to `[col][row]`.
pub fn transpose64(src: &[i8], dst: &mut [i8])
    requires
        src@.len() >= 4096,
        old(dst)@.len() >= 4096,
    ensures
        final(dst)@.len() == old(dst)@.len(),
        transposed(src@, final(dst)@),
        forall|i: int| 4096 <= i < final(dst)@.len() ==> #[trigger] final(dst)@[i] == old(dst)@[i],
{
    let ghost start = dst@;
    let mut r: usize = 0;
    while r < 64
        invariant
            r <= 64,
            src@.len() >= 4096,
            dst@.len() == start.len(),
            dst@.len() >= 4096,
            forall|i: int, c: int|
                #![trigger block_cell(dst@, c, i)]
                0 <= i < r && 0 <= c < 64 ==> block_cell(dst@, c, i) == block_cell(src@, i, c),
            forall|i: int| 4096 <= i < dst@.len() ==> #[trigger] dst@[i] == start[i],
        decreases 64 - r,
    {
        let mut c: usize = 0;
        while c < 64
            invariant
                r < 64,
                c <= 64,
                src@.len() >= 4096,
                dst@.len() == start.len(),
                dst@.len() >= 4096,
                forall|i: int, d: int|
                    #![trigger block_cell(dst@, d, i)]
                    0 <= d < 64 && (0 <= i < r || i == r && d < c) ==> block_cell(dst@, d, i)
                        == block_cell(src@, i, d),
                forall|i: int| 4096 <= i < dst@.len() ==> #[trigger] dst@[i] == start[i],
            decreases 64 - c,
        {
            let ghost before = dst@;
            dst[64 * c + r] = src[64 * r + c];
            assert forall|i: int, d: int|
                #![trigger block_cell(dst@, d, i)]
                0 <= d < 64 && 0 <= i < 64 && !(d == c && i == r) implies block_cell(dst@, d, i)
                == block_cell(before, d, i) by {
                assert(64 * d + i != 64 * c + r);
            }
            c = c + 1;
        }
        r = r + 1;
    }
}

/// Transposing twice gives the block back.
pub proof fn law_transpose_is_an_involution(a: Seq<i8>, b: Seq<i8>, c: Seq<i8>)
    requires
        a.len() == 4096,
        c.len() == 4096,
        transposed(a, b),
        transposed(b, c),
    ensures
        c == a,
{
    assert forall|i: int| 0 <= i < 4096 implies c[i] == a[i] by {
        let x = i / 64;
        let y = i % 64;
        assert(block_cell(c, x, y) == block_cell(b, y, x));
        assert(block_cell(b, y, x) == block_cell(a, x, y));
    }
    assert(c =~= a);
}

// --- two queries at a time ------------------------------------------------------------

/// The score of a query against a key-major key row over the first `n`
/// channels.
pub open spec fn score_kt(
    q: Seq<i8>,
    qstride: int,
    qi: int,
    zq: int,
    kt: Seq<i16>,
    j: int,
    zk: int,
    n: int,
) -> int
    decreases n,
{
    if n <= 0 {
        0
    } else {
        score_kt(q, qstride, qi, zq, kt, j, zk, n - 1) + (q[(n - 1) * qstride + qi] - zq) * (
        key_cell(kt, j, n - 1) - zk)
    }
}

/// Against keys that were transposed from a planar buffer, the kernel form
/// is the plain form.
pub proof fn law_kt_scores_are_the_scores(
    q: Seq<i8>,
    qstride: int,
    qi: int,
    zq: int,
    k: Seq<i8>,
    kstride: int,
    kt: Seq<i16>,
    j: int,
    zk: int,
    n: int,
)
    requires
        forall|c: int|
            #![trigger key_cell(kt, j, c)]
            0 <= c < n ==> key_cell(kt, j, c) == k[c * kstride + j],
    ensures
        score_kt(q, qstride, qi, zq, kt, j, zk, n) == score(
            q,
            qstride,
            qi,
            zq,
            k,
            kstride,
            j,
            zk,
            n,
        ),
    decreases n,
{
    if n > 0 {
        law_kt_scores_are_the_scores(q, qstride, qi, zq, k, kstride, kt, j, zk, n - 1);
        assert(key_cell(kt, j, n - 1) == k[(n - 1) * kstride + j]);
    }
}

/// Every element is a widened int8.
pub open spec fn is_widened(s: Seq<i16>, n: int) -> bool {
    forall|i: int| 0 <= i < n ==> -128 <= #[trigger] s[i] <= 127
}

proof fn lemma_product(x: int, y: int, a: int, b: int)
    by (nonlinear_arith)
    requires
        -a <= x <= a,
        -b <= y <= b,
    ensures
        -(a * b) <= x * y <= a * b,
{
}

proof fn lemma_split_product(x: int, k: int, zk: int)
    by (nonlinear_arith)
    ensures
        x * (k - zk) == x * k - zk * x,
{
}

proof fn lemma_zp_times_sum(zk: int, s: int, x: int)
    by (nonlinear_arith)
    ensures
        zk * (s + x) == zk * s + zk * x,
{
}

/// A centred query row dotted with a key row is the score before the key
/// zero point is taken out.
proof fn lemma_dot_is_score(
    q: Seq<i8>,
    qstride: int,
    qi: int,
    zq: int,
    q16: Seq<i16>,
    qo: int,
    kt: Seq<i16>,
    j: int,
    zk: int,
    n: int,
)
    requires
        0 <= n,
        -128 <= zq <= 127,
        0 <= j,
        is_widened(kt, 64 * j + n),
        n <= 64,
        forall|c: int| 0 <= c < n ==> #[trigger] q16[qo + c] == q[c * qstride + qi] - zq,
    ensures
        dot16(q16, qo, kt, 64 * j, n) == score_kt(q, qstride, qi, zq, kt, j, zk, n) + zk
            * query_sum(q, qstride, qi, zq, n),
        -(32640 * n) <= dot16(q16, qo, kt, 64 * j, n) <= 32640 * n,
        -(255 * n) <= query_sum(q, qstride, qi, zq, n) <= 255 * n,
    decreases n,
{
    if n > 0 {
        lemma_dot_is_score(q, qstride, qi, zq, q16, qo, kt, j, zk, n - 1);
        let x = (q[(n - 1) * qstride + qi] - zq) as int;
        let y = kt[64 * j + n - 1] as int;
        assert(q16[qo + (n - 1)] == x);
        assert(key_cell(kt, j, n - 1) == y);
        lemma_product(x, y, 255, 128);
        lemma_split_product(x, y, zk);
        lemma_zp_times_sum(zk, query_sum(q, qstride, qi, zq, n - 1), x);
    } else {
        assert(zk * 0 == 0) by (nonlinear_arith);
    }
}

/// The scores of query `qi`, and of its neighbour `qi + 1` when `two`
/// (else of `qi` again), against all keys of a prepared head.
pub fn attn_scores_kt(
    q: &[i8],
    kv: &AttnKv,
    qi: usize,
    two: bool,
    qstride: usize,
    zq: i32,
    zk: i32,
) -> (s: (Vec<i32>, Vec<i32>))
    requires
        1 <= kv.tk,
        padded(kv.tk as int) <= MAX_KEYS,
        kv.kt@.len() >= 64 * padded(kv.tk as int),
        is_widened(kv.kt@, 64 * padded(kv.tk as int)),
        -128 <= zq <= 127,
        -128 <= zk <= 127,
        qi + (if two {
            1int
        } else {
            0int
        }) < qstride,
        63 * qstride + qi + (if two {
            1int
        } else {
            0int
        }) < q@.len(),
    ensures
        s.0@.len() == kv.tk,
        s.1@.len() == kv.tk,
        forall|j: int|
            0 <= j < kv.tk ==> #[trigger] s.0@[j] == score_kt(
                q@,
                qstride as int,
                qi as int,
                zq as int,
                kv.kt@,
                j,
                zk as int,
                64,
            ),
        forall|j: int|
            0 <= j < kv.tk ==> #[trigger] s.1@[j] == score_kt(
                q@,
                qstride as int,
                if two {
                    qi + 1
                } else {
                    qi as int
                },
                zq as int,
                kv.kt@,
                j,
                zk as int,
                64,
            ),
{
    let tk: usize = kv.tk;
    let tkp: usize = keys_padded(tk);
    let qj: usize = if two {
        qi + 1
    } else {
        qi
    };
    let lq: usize = q.len();
    let (row0, sum0) = centred(q, qi, qstride, zq);
    let (row1, sum1) = centred(q, qj, qstride, zq);
    let mut q16: Vec<i16> = row0;
    let mut row1: Vec<i16> = row1;
    let ghost first = q16@;
    let ghost second = row1@;
    q16.append(&mut row1);
    assert(q16@ =~= first + second);
    proof {
        lemma_product(zk as int, sum0 as int, 128, 16320);
        lemma_product(zk as int, sum1 as int, 128, 16320);
    }
    let corr0: i32 = zk * sum0;
    let corr1: i32 = zk * sum1;
    let mut a: Vec<i32> = Vec::new();
    let mut b: Vec<i32> = Vec::new();
    let mut j: usize = 0;
    while j < tkp
        invariant
            j <= tkp,
            j % 2 == 0,
            tk <= tkp <= MAX_KEYS,
            tkp % 8 == 0,
            tkp == padded(tk as int),
            kv.kt@.len() >= 64 * tkp,
            is_widened(kv.kt@, 64 * tkp),
            -128 <= zq <= 127,
            -128 <= zk <= 127,
            q16@.len() == 128,
            forall|c: int| 0 <= c < 64 ==> #[trigger] q16@[c] == q@[c * qstride + qi] - zq,
            forall|c: int|
                0 <= c < 64 ==> #[trigger] q16@[64 + c] == q@[c * qstride + qj] - zq,
            corr0 == zk * query_sum(q@, qstride as int, qi as int, zq as int, 64),
            corr1 == zk * query_sum(q@, qstride as int, qj as int, zq as int, 64),
            -2088960 <= corr0 <= 2088960,
            -2088960 <= corr1 <= 2088960,
            a@.len() == if j < tk {
                j as int
            } else {
                tk as int
            },
            b@.len() == a@.len(),
            forall|x: int|
                0 <= x < a@.len() ==> #[trigger] a@[x] == score_kt(
                    q@,
                    qstride as int,
                    qi as int,
                    zq as int,
                    kv.kt@,
                    x,
                    zk as int,
                    64,
                ),
            forall|x: int|
                0 <= x < b@.len() ==> #[trigger] b@[x] == score_kt(
                    q@,
                    qstride as int,
                    qj as int,
                    zq as int,
                    kv.kt@,
                    x,
                    zk as int,
                    64,
                ),
        decreases tkp - j,
    {
        let keys: &[i16] = vstd::slice::slice_subrange(kv.kt, 64 * j, 64 * j + 128);
        let r = dsp::dot64_2x2(q16.as_slice(), keys);
        proof {
            let kt = kv.kt@;
            lemma_dot_shift(q16@, 0, kt, 64 * j, keys@, 0, 64);
            lemma_dot_shift(q16@, 0, kt, 64 * j + 64, keys@, 64, 64);
            lemma_dot_shift(q16@, 64, kt, 64 * j, keys@, 0, 64);
            lemma_dot_shift(q16@, 64, kt, 64 * j + 64, keys@, 64, 64);
            let qs = qstride as int;
            lemma_dot_is_score(q@, qs, qi as int, zq as int, q16@, 0, kt, j as int, zk as int, 64);
            lemma_dot_is_score(q@, qs, qi as int, zq as int, q16@, 0, kt, j + 1, zk as int, 64);
            lemma_dot_is_score(q@, qs, qj as int, zq as int, q16@, 64, kt, j as int, zk as int, 64);
            lemma_dot_is_score(q@, qs, qj as int, zq as int, q16@, 64, kt, j + 1, zk as int, 64);
            dsp::law_small_sums_do_not_wrap(dot16(q16@, 0, kt, 64 * j, 64));
            dsp::law_small_sums_do_not_wrap(dot16(q16@, 0, kt, 64 * j + 64, 64));
            dsp::law_small_sums_do_not_wrap(dot16(q16@, 64, kt, 64 * j, 64));
            dsp::law_small_sums_do_not_wrap(dot16(q16@, 64, kt, 64 * j + 64, 64));
        }
        if j < tk {
            a.push(r[0] - corr0);
            b.push(r[2] - corr1);
        }
        if j + 1 < tk {
            a.push(r[1] - corr0);
            b.push(r[3] - corr1);
        }
        j = j + 2;
    }
    (a, b)
}

/// A window of a row dots like the row.
proof fn lemma_dot_shift(
    a: Seq<i16>,
    ao: int,
    b: Seq<i16>,
    bo: int,
    w: Seq<i16>,
    wo: int,
    n: int,
)
    requires
        forall|i: int| 0 <= i < n ==> b[bo + i] == #[trigger] w[wo + i],
    ensures
        dot16(a, ao, b, bo, n) == dot16(a, ao, w, wo, n),
    decreases n,
{
    if n > 0 {
        lemma_dot_shift(a, ao, b, bo, w, wo, n - 1);
        assert(b[bo + (n - 1)] == w[wo + (n - 1)]);
    }
}

/// A query column less its zero point, and the sum of that.
fn centred(q: &[i8], qi: usize, qstride: usize, zq: i32) -> (r: (Vec<i16>, i32))
    requires
        -128 <= zq <= 127,
        qi < qstride,
        63 * qstride + qi < q@.len(),
    ensures
        r.0@.len() == 64,
        forall|c: int| 0 <= c < 64 ==> #[trigger] r.0@[c] == q@[c * qstride + qi] - zq,
        r.1 == query_sum(q@, qstride as int, qi as int, zq as int, 64),
        -16320 <= r.1 <= 16320,
{
    let lq: usize = q.len();
    let mut v: Vec<i16> = Vec::new();
    let mut s: i32 = 0;
    let mut c: usize = 0;
    while c < 64
        invariant
            c <= 64,
            lq == q@.len(),
            -128 <= zq <= 127,
            qi < qstride,
            63 * qstride + qi < lq,
            v@.len() == c,
            forall|d: int| 0 <= d < c ==> #[trigger] v@[d] == q@[d * qstride + qi] - zq,
            s == query_sum(q@, qstride as int, qi as int, zq as int, c as int),
            -(255 * c) <= s <= 255 * c,
        decreases 64 - c,
    {
        proof {
            assert(0 <= c * qstride <= 63 * qstride) by (nonlinear_arith)
                requires
                    0 <= c <= 63,
                    0 <= qstride,
            ;
        }
        let x: i32 = q[c * qstride + qi] as i32 - zq;
        v.push(x as i16);
        s = s + x;
        c = c + 1;
    }
    (v, s)
}

/// The context of a probability row over the first `n` keys of a widened
/// value row.
pub open spec fn context16(p: Seq<i16>, po: int, v: Seq<i16>, vo: int, zv: int, n: int) -> int
    decreases n,
{
    if n <= 0 {
        0
    } else {
        context16(p, po, v, vo, zv, n - 1) + p[po + n - 1] * (v[vo + n - 1] - zv)
    }
}

/// On values that were widened from a planar buffer, the kernel form is
/// the plain form.
pub proof fn law_kt_contexts_are_the_contexts(
    p: Seq<i16>,
    v: Seq<i8>,
    vo: int,
    v16: Seq<i16>,
    wo: int,
    zv: int,
    n: int,
)
    requires
        forall|j: int| 0 <= j < n ==> #[trigger] v16[wo + j] == v[vo + j],
    ensures
        context16(p, 0, v16, wo, zv, n) == context(p, v, vo, zv, n),
    decreases n,
{
    if n > 0 {
        law_kt_contexts_are_the_contexts(p, v, vo, v16, wo, zv, n - 1);
        assert(v16[wo + (n - 1)] == v[vo + (n - 1)]);
    }
}

/// A probability row dotted with a value row is the context before the
/// value zero point is taken out; zero probabilities beyond `tk` add
/// nothing.
proof fn lemma_dot_is_context(
    p: Seq<i16>,
    po: int,
    row: Seq<i16>,
    v: Seq<i16>,
    vo: int,
    zv: int,
    tk: int,
    n: int,
)
    requires
        0 <= n,
        0 <= tk,
        tk <= MAX_KEYS,
        n <= MAX_KEYS,
        -128 <= zv <= 127,
        row.len() >= n,
        is_prob_row(row, tk),
        forall|j: int| 0 <= j < n ==> #[trigger] p[po + j] == row[j],
        forall|j: int| tk <= j < n ==> #[trigger] row[j] == 0,
        forall|j: int| 0 <= j < n ==> -128 <= #[trigger] v[vo + j] <= 127,
    ensures
        dot16(p, po, v, vo, n) == context16(row, 0, v, vo, zv, if n < tk {
            n
        } else {
            tk
        }) + zv * prob_sum(row, if n < tk {
            n
        } else {
            tk
        }),
        -(32640 * n) <= dot16(p, po, v, vo, n) <= 32640 * n,
    decreases n,
{
    if n > 0 {
        lemma_dot_is_context(p, po, row, v, vo, zv, tk, n - 1);
        let x = row[n - 1] as int;
        let y = v[vo + (n - 1)] as int;
        assert(p[po + (n - 1)] == x);
        if n > tk {
            assert(x == 0);
        }
        lemma_product(x, y, 255, 128);
        lemma_split_product(x, y, zv);
        lemma_zp_times_sum(zv, prob_sum(row, n - 1), x);
        assert(0 * y == 0) by (nonlinear_arith);
    } else {
        assert(zv * 0 == 0) by (nonlinear_arith);
    }
}

proof fn lemma_context16_bound(p: Seq<i16>, v: Seq<i16>, vo: int, zv: int, n: int)
    requires
        0 <= n,
        is_prob_row(p, n),
        -128 <= zv <= 127,
        forall|j: int| 0 <= j < n ==> -128 <= #[trigger] v[vo + j] <= 127,
    ensures
        -(65025 * n) <= context16(p, 0, v, vo, zv, n) <= 65025 * n,
    decreases n,
{
    if n > 0 {
        lemma_context16_bound(p, v, vo, zv, n - 1);
        assert(-128 <= v[vo + (n - 1)] <= 127);
        lemma_product(p[n - 1] as int, v[vo + (n - 1)] - zv, 255, 255);
    }
}

/// Two probability rows as the value kernel wants them: `ROW2` apart, zero
/// from `tk` up to whole kernel steps.
pub open spec fn are_prob_rows(p: Seq<i16>, tk: int) -> bool {
    &&& p.len() >= ROW2 + padded(tk)
    &&& is_prob_row(p, tk)
    &&& is_prob_row(p.skip(ROW2 as int), tk)
    &&& forall|j: int| tk <= j < padded(tk) ==> #[trigger] p[j] == 0
    &&& forall|j: int| tk <= j < padded(tk) ==> #[trigger] p[ROW2 + j] == 0
}

/// The contexts of all 64 channels for two probability rows.
pub fn attn_context_kt(p: &[i16], kv: &AttnKv, zv: i32) -> (s: (Vec<i32>, Vec<i32>))
    requires
        1 <= kv.tk,
        padded(kv.tk as int) <= MAX_KEYS,
        are_prob_rows(p@, kv.tk as int),
        kv.v16@.len() >= KV16_LEN,
        is_widened(kv.v16@, KV16_LEN as int),
        -128 <= zv <= 127,
    ensures
        s.0@.len() == 64,
        s.1@.len() == 64,
        forall|c: int|
            0 <= c < 64 ==> #[trigger] s.0@[c] == context16(
                p@,
                0,
                kv.v16@,
                640 * c,
                zv as int,
                kv.tk as int,
            ),
        forall|c: int|
            0 <= c < 64 ==> #[trigger] s.1@[c] == context16(
                p@.skip(ROW2 as int),
                0,
                kv.v16@,
                640 * c,
                zv as int,
                kv.tk as int,
            ),
{
    let tk: usize = kv.tk;
    let tkp: usize = keys_padded(tk);
    let ghost row1 = p@.skip(ROW2 as int);
    let lp: usize = p.len();
    let second: &[i16] = vstd::slice::slice_subrange(p, ROW2, lp);
    assert(second@ =~= row1);
    let sum0: i32 = probs_total(p, tk);
    let sum1: i32 = probs_total(second, tk);
    proof {
        lemma_prob_sum(p@, tk as int);
        lemma_prob_sum(row1, tk as int);
        lemma_product(zv as int, sum0 as int, 128, 163200);
        lemma_product(zv as int, sum1 as int, 128, 163200);
    }
    let corr0: i32 = zv * sum0;
    let corr1: i32 = zv * sum1;
    let mut a: Vec<i32> = Vec::new();
    let mut b: Vec<i32> = Vec::new();
    let mut c: usize = 0;
    while c < 64
        invariant
            c <= 64,
            c % 2 == 0,
            1 <= tk <= tkp <= MAX_KEYS,
            tkp == padded(tk as int),
            tkp % 8 == 0,
            tk == kv.tk,
            are_prob_rows(p@, tk as int),
            row1 == p@.skip(ROW2 as int),
            kv.v16@.len() >= KV16_LEN,
            is_widened(kv.v16@, KV16_LEN as int),
            -128 <= zv <= 127,
            corr0 == zv * prob_sum(p@, tk as int),
            corr1 == zv * prob_sum(row1, tk as int),
            -20889600 <= corr0 <= 20889600,
            -20889600 <= corr1 <= 20889600,
            a@.len() == c,
            b@.len() == c,
            forall|d: int|
                0 <= d < c ==> #[trigger] a@[d] == context16(
                    p@,
                    0,
                    kv.v16@,
                    640 * d,
                    zv as int,
                    tk as int,
                ),
            forall|d: int|
                0 <= d < c ==> #[trigger] b@[d] == context16(
                    row1,
                    0,
                    kv.v16@,
                    640 * d,
                    zv as int,
                    tk as int,
                ),
        decreases 64 - c,
    {
        let lv: usize = kv.v16.len();
        let rows: &[i16] = vstd::slice::slice_subrange(kv.v16, 640 * c, lv);
        let r = dsp::dot_pv_2x2(p, rows, tkp / 8);
        proof {
            let v = kv.v16@;
            let n = tkp as int;
            lemma_dot_shift(p@, 0, v, 640 * c, rows@, 0, n);
            lemma_dot_shift(p@, 0, v, 640 * c + 640, rows@, 640, n);
            lemma_dot_shift(p@, 640, v, 640 * c, rows@, 0, n);
            lemma_dot_shift(p@, 640, v, 640 * c + 640, rows@, 640, n);
            lemma_dot_is_context(p@, 0, p@, v, 640 * c, zv as int, tk as int, n);
            lemma_dot_is_context(p@, 0, p@, v, 640 * c + 640, zv as int, tk as int, n);
            assert forall|j: int| tk <= j < n implies #[trigger] row1[j] == 0 by {
                assert(p@[ROW2 + j] == 0);
            }
            lemma_dot_is_context(p@, 640, row1, v, 640 * c, zv as int, tk as int, n);
            lemma_dot_is_context(p@, 640, row1, v, 640 * c + 640, zv as int, tk as int, n);
            lemma_context16_bound(p@, v, 640 * c, zv as int, tk as int);
            lemma_context16_bound(p@, v, 640 * c + 640, zv as int, tk as int);
            lemma_context16_bound(row1, v, 640 * c, zv as int, tk as int);
            lemma_context16_bound(row1, v, 640 * c + 640, zv as int, tk as int);
            dsp::law_small_sums_do_not_wrap(dot16(p@, 0, v, 640 * c, n));
            dsp::law_small_sums_do_not_wrap(dot16(p@, 0, v, 640 * c + 640, n));
            dsp::law_small_sums_do_not_wrap(dot16(p@, 640, v, 640 * c, n));
            dsp::law_small_sums_do_not_wrap(dot16(p@, 640, v, 640 * c + 640, n));
        }
        a.push(r[0] - corr0);
        a.push(r[1] - corr0);
        b.push(r[2] - corr1);
        b.push(r[3] - corr1);
        c = c + 2;
    }
    (a, b)
}

proof fn lemma_prob_sum(p: Seq<i16>, n: int)
    requires
        0 <= n <= MAX_KEYS,
        is_prob_row(p, n),
    ensures
        0 <= prob_sum(p, n) <= 255 * n,
    decreases n,
{
    if n > 0 {
        lemma_prob_sum(p, n - 1);
    }
}

// --- one query on int8 layouts ----------------------------------------------------------

/// The score of a query against an int8 key-major key row over the first
/// `n` channels.
pub open spec fn score_k8(
    q: Seq<i8>,
    qstride: int,
    zq: int,
    keys: Seq<i8>,
    j: int,
    zk: int,
    n: int,
) -> int
    decreases n,
{
    if n <= 0 {
        0
    } else {
        score_k8(q, qstride, zq, keys, j, zk, n - 1) + (q[(n - 1) * qstride] - zq) * (keys[64 * j
            + n - 1] - zk)
    }
}

/// Against keys that were laid out key-major from a planar buffer, the
/// one-query form is the plain form.
pub proof fn law_x1_scores_are_the_scores(
    q: Seq<i8>,
    qstride: int,
    zq: int,
    k: Seq<i8>,
    kstride: int,
    keys: Seq<i8>,
    j: int,
    zk: int,
    n: int,
)
    requires
        forall|c: int| 0 <= c < n ==> #[trigger] keys[64 * j + c] == k[c * kstride + j],
    ensures
        score_k8(q, qstride, zq, keys, j, zk, n) == score(
            q,
            qstride,
            0,
            zq,
            k,
            kstride,
            j,
            zk,
            n,
        ),
    decreases n,
{
    if n > 0 {
        law_x1_scores_are_the_scores(q, qstride, zq, k, kstride, keys, j, zk, n - 1);
        assert(keys[64 * j + (n - 1)] == k[(n - 1) * kstride + j]);
    }
}

proof fn lemma_dot8_is_score(
    q: Seq<i8>,
    qstride: int,
    zq: int,
    row: Seq<i16>,
    w: Seq<i8>,
    wo: int,
    keys: Seq<i8>,
    j: int,
    zk: int,
    n: int,
)
    requires
        0 <= n <= 64,
        -128 <= zq <= 127,
        forall|c: int| 0 <= c < n ==> #[trigger] row[c] == q[c * qstride] - zq,
        forall|c: int| 0 <= c < n ==> #[trigger] w[wo + c] == keys[64 * j + c],
    ensures
        dsp::dot8(w, wo, row, n) == score_k8(q, qstride, zq, keys, j, zk, n) + zk * query_sum(
            q,
            qstride,
            0,
            zq,
            n,
        ),
        -(32640 * n) <= dsp::dot8(w, wo, row, n) <= 32640 * n,
    decreases n,
{
    if n > 0 {
        lemma_dot8_is_score(q, qstride, zq, row, w, wo, keys, j, zk, n - 1);
        let x = (q[(n - 1) * qstride] - zq) as int;
        let y = keys[64 * j + (n - 1)] as int;
        assert(row[n - 1] == x);
        assert(w[wo + (n - 1)] == y);
        assert(x * y == y * x) by (nonlinear_arith);
        lemma_product(x, y, 255, 128);
        lemma_split_product(x, y, zk);
        lemma_zp_times_sum(zk, query_sum(q, qstride, 0, zq, n - 1), x);
    } else {
        assert(zk * 0 == 0) by (nonlinear_arith);
    }
}

/// A row in swapped order: element `i` is element `swapped(i)` of `row`,
/// or zero past its end.
fn swap_row(row: &[i16], len: usize, n: usize) -> (h: Vec<i16>)
    requires
        len <= row@.len(),
        n % 4 == 0,
        len <= n,
    ensures
        h@.len() == n,
        forall|c: int|
            0 <= c < n ==> h@[#[trigger] swapped(c)] == if c < len {
                row@[c]
            } else {
                0
            },
{
    let mut h: Vec<i16> = Vec::new();
    let mut i: usize = 0;
    while i < n
        invariant
            i <= n,
            n % 4 == 0,
            len <= row@.len(),
            h@.len() == i,
            forall|x: int|
                0 <= x < i ==> #[trigger] h@[x] == if swapped(x) < len {
                    row@[swapped(x)]
                } else {
                    0
                },
        decreases n - i,
    {
        let at: usize = dsp::perm4(i);
        if at < len {
            h.push(row[at]);
        } else {
            h.push(0);
        }
        i = i + 1;
    }
    assert forall|c: int| 0 <= c < n implies h@[#[trigger] swapped(c)] == if c < len {
        row@[c]
    } else {
        0
    } by {
        dsp::law_swap_is_an_involution(c);
        assert(0 <= swapped(c) < n) by {
            assert(swapped(c) / 4 == c / 4);
        }
    }
    h
}

/// The scores of the query in column 0 against `tk` keys in int8 key-major
/// rows, four keys at a time.
pub fn attn_scores_x1(
    q: &[i8],
    keys: &[i8],
    tk: usize,
    qstride: usize,
    zq: i32,
    zk: i32,
) -> (s: Vec<i32>)
    requires
        1 <= tk,
        padded(tk as int) <= MAX_KEYS,
        keys@.len() >= 64 * padded(tk as int),
        -128 <= zq <= 127,
        -128 <= zk <= 127,
        1 <= qstride,
        63 * qstride < q@.len(),
    ensures
        s@.len() == tk,
        forall|j: int|
            0 <= j < tk ==> #[trigger] s@[j] == score_k8(
                q@,
                qstride as int,
                zq as int,
                keys@,
                j,
                zk as int,
                64,
            ),
{
    let tkp: usize = keys_padded(tk);
    let (row, qsum) = centred(q, 0, qstride, zq);
    let h = swap_row(row.as_slice(), 64, 64);
    proof {
        lemma_product(zk as int, qsum as int, 128, 16320);
    }
    let corr: i32 = zk * qsum;
    let mut a: Vec<i32> = Vec::new();
    let mut j: usize = 0;
    while j < tkp
        invariant
            j <= tkp,
            j % 4 == 0,
            tk <= tkp <= MAX_KEYS,
            tkp % 8 == 0,
            tkp == padded(tk as int),
            keys@.len() >= 64 * tkp,
            -128 <= zq <= 127,
            -128 <= zk <= 127,
            row@.len() == 64,
            h@.len() == 64,
            forall|c: int| 0 <= c < 64 ==> #[trigger] row@[c] == q@[c * qstride] - zq,
            forall|c: int| 0 <= c < 64 ==> h@[#[trigger] swapped(c)] == row@[c],
            corr == zk * query_sum(q@, qstride as int, 0, zq as int, 64),
            -2088960 <= corr <= 2088960,
            a@.len() == if j < tk {
                j as int
            } else {
                tk as int
            },
            forall|x: int|
                0 <= x < a@.len() ==> #[trigger] a@[x] == score_k8(
                    q@,
                    qstride as int,
                    zq as int,
                    keys@,
                    x,
                    zk as int,
                    64,
                ),
        decreases tkp - j,
    {
        let w: &[i8] = vstd::slice::slice_subrange(keys, 64 * j, 64 * j + 256);
        let r = dsp::dot64_q1k4_i8(h.as_slice(), w);
        let mut k: usize = 0;
        while k < 4
            invariant
                k <= 4,
                j < tkp,
                j % 4 == 0,
                tkp % 8 == 0,
                tk <= tkp <= MAX_KEYS,
                keys@.len() >= 64 * tkp,
                w@ == keys@.subrange(64 * j, 64 * j + 256),
                -128 <= zq <= 127,
                -128 <= zk <= 127,
                row@.len() == 64,
                h@.len() == 64,
                forall|c: int| 0 <= c < 64 ==> #[trigger] row@[c] == q@[c * qstride] - zq,
                forall|c: int| 0 <= c < 64 ==> h@[#[trigger] swapped(c)] == row@[c],
                forall|x: int|
                    0 <= x < 4 ==> #[trigger] r@[x] == wrap32(
                        dot8_swapped(w@, 64 * x, h@, 64),
                    ),
                corr == zk * query_sum(q@, qstride as int, 0, zq as int, 64),
                -2088960 <= corr <= 2088960,
                a@.len() == if j + k < tk {
                    j + k
                } else {
                    tk as int
                },
                forall|x: int|
                    0 <= x < a@.len() ==> #[trigger] a@[x] == score_k8(
                        q@,
                        qstride as int,
                        zq as int,
                        keys@,
                        x,
                        zk as int,
                        64,
                    ),
            decreases 4 - k,
        {
            proof {
                let d = dsp::dot8(w@, 64 * k, row@, 64);
                dsp::law_swapped_dot_is_the_dot(w@, 64 * k, h@, row@, 64);
                assert forall|c: int| 0 <= c < 64 implies #[trigger] w@[64 * k + c] == keys@[64 * (j
                    + k) + c] by {}
                lemma_dot8_is_score(
                    q@,
                    qstride as int,
                    zq as int,
                    row@,
                    w@,
                    64 * k,
                    keys@,
                    j + k,
                    zk as int,
                    64,
                );
                dsp::law_small_sums_do_not_wrap(d);
                assert(r@[k as int] == d);
            }
            if j + k < tk {
                a.push(r[k] - corr);
            }
            k = k + 1;
        }
        j = j + 4;
    }
    a
}

/// The context of channel `c` over the first `n` keys of staged tiles.
pub open spec fn context_staged(p: Seq<i16>, tiles: Seq<i8>, c: int, zv: int, n: int) -> int
    decreases n,
{
    if n <= 0 {
        0
    } else {
        context_staged(p, tiles, c, zv, n - 1) + p[n - 1] * (staged(tiles, c, n - 1) - zv)
    }
}

/// On values that were staged tile by tile from a planar buffer, the
/// one-query form is the plain form.
pub proof fn law_x1_contexts_are_the_contexts(
    p: Seq<i16>,
    v: Seq<i8>,
    vo: int,
    tiles: Seq<i8>,
    c: int,
    zv: int,
    n: int,
)
    requires
        forall|j: int| 0 <= j < n ==> #[trigger] staged(tiles, c, j) == v[vo + j],
    ensures
        context_staged(p, tiles, c, zv, n) == context(p, v, vo, zv, n),
    decreases n,
{
    if n > 0 {
        law_x1_contexts_are_the_contexts(p, v, vo, tiles, c, zv, n - 1);
        assert(staged(tiles, c, n - 1) == v[vo + (n - 1)]);
    }
}

/// Probabilities times value codes over the first `n` keys, the row taken
/// as zero past its end.
spec fn raw_context(p: Seq<i16>, tk: int, tiles: Seq<i8>, c: int, n: int) -> int
    decreases n,
{
    if n <= 0 {
        0
    } else {
        raw_context(p, tk, tiles, c, n - 1) + (if n - 1 < tk {
            p[n - 1] as int
        } else {
            0
        }) * staged(tiles, c, n - 1)
    }
}

proof fn lemma_raw_context(p: Seq<i16>, tk: int, tiles: Seq<i8>, c: int, zv: int, n: int)
    requires
        0 <= tk <= MAX_KEYS,
        0 <= n <= MAX_KEYS,
        is_prob_row(p, tk),
    ensures
        -(32640 * n) <= raw_context(p, tk, tiles, c, n) <= 32640 * n,
        n >= tk ==> raw_context(p, tk, tiles, c, n) == context_staged(p, tiles, c, zv, tk) + zv
            * prob_sum(p, tk),
        n <= tk ==> raw_context(p, tk, tiles, c, n) == context_staged(p, tiles, c, zv, n) + zv
            * prob_sum(p, n),
    decreases n,
{
    if n > 0 {
        lemma_raw_context(p, tk, tiles, c, zv, n - 1);
        let y = staged(tiles, c, n - 1) as int;
        let x = if n - 1 < tk {
            p[n - 1] as int
        } else {
            0
        };
        lemma_product(x, y, 255, 128);
        lemma_split_product(x, y, zv);
        lemma_zp_times_sum(zv, prob_sum(p, n - 1), x);
        assert(0 * y == 0) by (nonlinear_arith);
    } else {
        assert(zv * 0 == 0) by (nonlinear_arith);
    }
}

proof fn lemma_context_staged_bound(p: Seq<i16>, tiles: Seq<i8>, c: int, zv: int, n: int)
    requires
        0 <= n <= MAX_KEYS,
        is_prob_row(p, n),
        -128 <= zv <= 127,
    ensures
        -(65025 * n) <= context_staged(p, tiles, c, zv, n) <= 65025 * n,
    decreases n,
{
    if n > 0 {
        lemma_context_staged_bound(p, tiles, c, zv, n - 1);
        lemma_product(p[n - 1] as int, staged(tiles, c, n - 1) - zv, 255, 255);
    }
}

/// One tile's share of the raw context is the dot product of its windows.
proof fn lemma_tile_share(
    p: Seq<i16>,
    tk: int,
    tiles: Seq<i8>,
    c: int,
    t: int,
    x: Seq<i16>,
    w: Seq<i8>,
    wo: int,
    n: int,
)
    requires
        0 <= n <= 64,
        0 <= t,
        forall|i: int|
            0 <= i < n ==> #[trigger] x[i] == if 64 * t + i < tk {
                p[64 * t + i]
            } else {
                0
            },
        forall|i: int| 0 <= i < n ==> #[trigger] w[wo + i] == tiles[4096 * t + 64 * c + i],
    ensures
        raw_context(p, tk, tiles, c, 64 * t + n) == raw_context(p, tk, tiles, c, 64 * t)
            + dsp::dot8(w, wo, x, n),
    decreases n,
{
    if n > 0 {
        lemma_tile_share(p, tk, tiles, c, t, x, w, wo, n - 1);
        let j = 64 * t + (n - 1);
        assert(j / 64 == t && j % 64 == n - 1);
        assert(w[wo + (n - 1)] == staged(tiles, c, j));
        let a = w[wo + (n - 1)] as int;
        let b = x[n - 1] as int;
        assert(a * b == b * a) by (nonlinear_arith);
    }
}

/// The contexts of all 64 channels for one probability row on int8 values
/// staged tile by tile, four channels at a time.
pub fn attn_context_x1(p: &[i16], tiles: &[i8], tk: usize, zv: i32) -> (s: Vec<i32>)
    requires
        1 <= tk,
        padded(tk as int) <= MAX_KEYS,
        is_prob_row(p@, tk as int),
        tiles@.len() >= (tk + 63) / 64 * 4096,
        -128 <= zv <= 127,
    ensures
        s@.len() == 64,
        forall|c: int|
            0 <= c < 64 ==> #[trigger] s@[c] == context_staged(
                p@,
                tiles@,
                c,
                zv as int,
                tk as int,
            ),
{
    let tkp: usize = keys_padded(tk);
    let n_tiles: usize = (tk + 63) / 64;
    let h = swap_row(p, tk, tkp);
    let psum: i32 = probs_total(p, tk);
    proof {
        lemma_prob_sum(p@, tk as int);
        lemma_product(zv as int, psum as int, 128, 163200);
    }
    let corr: i32 = zv * psum;
    let mut out: Vec<i32> = Vec::new();
    let mut c: usize = 0;
    while c < 64
        invariant
            c <= 64,
            c % 4 == 0,
            1 <= tk <= tkp <= MAX_KEYS,
            tkp == padded(tk as int),
            tkp % 8 == 0,
            n_tiles == (tk + 63) / 64,
            is_prob_row(p@, tk as int),
            tiles@.len() >= n_tiles * 4096,
            -128 <= zv <= 127,
            h@.len() == tkp,
            forall|x: int|
                0 <= x < tkp ==> h@[#[trigger] swapped(x)] == if x < tk {
                    p@[x]
                } else {
                    0
                },
            corr == zv * prob_sum(p@, tk as int),
            -20889600 <= corr <= 20889600,
            out@.len() == c,
            forall|d: int|
                0 <= d < c ==> #[trigger] out@[d] == context_staged(
                    p@,
                    tiles@,
                    d,
                    zv as int,
                    tk as int,
                ),
        decreases 64 - c,
    {
        let acc = four_channels(p, h.as_slice(), tiles, tk, c);
        proof {
            lemma_raw_context(p@, tk as int, tiles@, c as int, zv as int, tkp as int);
            lemma_raw_context(p@, tk as int, tiles@, c + 1, zv as int, tkp as int);
            lemma_raw_context(p@, tk as int, tiles@, c + 2, zv as int, tkp as int);
            lemma_raw_context(p@, tk as int, tiles@, c + 3, zv as int, tkp as int);
            lemma_context_staged_bound(p@, tiles@, c as int, zv as int, tk as int);
            lemma_context_staged_bound(p@, tiles@, c + 1, zv as int, tk as int);
            lemma_context_staged_bound(p@, tiles@, c + 2, zv as int, tk as int);
            lemma_context_staged_bound(p@, tiles@, c + 3, zv as int, tk as int);
            assert(acc@[0] == raw_context(p@, tk as int, tiles@, c + 0, tkp as int));
            assert(acc@[1] == raw_context(p@, tk as int, tiles@, c + 1, tkp as int));
            assert(acc@[2] == raw_context(p@, tk as int, tiles@, c + 2, tkp as int));
            assert(acc@[3] == raw_context(p@, tk as int, tiles@, c + 3, tkp as int));
        }
        out.push(acc[0] - corr);
        out.push(acc[1] - corr);
        out.push(acc[2] - corr);
        out.push(acc[3] - corr);
        c = c + 4;
    }
    out
}

#[verifier::rlimit(30)]
proof fn lemma_swapped_shift(t: int, i: int, n: int)
    requires
        0 <= t,
        0 <= i < n,
        n % 4 == 0,
    ensures
        swapped(64 * t + i) == 64 * t + swapped(i),
        0 <= swapped(i) < n,
{
    dsp::law_swap_is_an_involution(i);
    assert((64 * t + i) / 4 == 16 * t + i / 4);
    assert((64 * t + i) % 2 == i % 2);
    assert((64 * t + i) / 2 == 32 * t + i / 2);
}

/// One tile's step of one channel.
proof fn lemma_tile_step(
    p: Seq<i16>,
    h: Seq<i16>,
    tk: int,
    tiles: Seq<i8>,
    c: int,
    r: int,
    t: int,
    row: Seq<i16>,
    w: Seq<i8>,
    n: int,
)
    requires
        1 <= tk <= MAX_KEYS,
        is_prob_row(p, tk),
        0 <= r < 4,
        0 <= c <= 60,
        0 <= t,
        0 <= n <= 64,
        n % 8 == 0,
        64 * t + n <= h.len() <= MAX_KEYS,
        forall|x: int|
            0 <= x < h.len() ==> h[#[trigger] swapped(x)] == if x < tk {
                p[x]
            } else {
                0
            },
        row == h.subrange(64 * t, 64 * t + n),
        4096 * t + 64 * c + 192 + n <= tiles.len(),
        w == tiles.subrange(4096 * t + 64 * c, 4096 * t + 64 * c + 192 + n),
    ensures
        wrap32(
            raw_context(p, tk, tiles, c + r, 64 * t) + dot8_swapped(w, 64 * r, row, n),
        ) == raw_context(p, tk, tiles, c + r, 64 * t + n),
{
    let x = Seq::new(
        n as nat,
        |i: int|
            if 64 * t + i < tk {
                p[64 * t + i]
            } else {
                0
            },
    );
    assert forall|i: int| 0 <= i < n implies row[#[trigger] swapped(i)] == x[i] by {
        lemma_swapped_shift(t, i, n);
        assert(h[swapped(64 * t + i)] == x[i]);
    }
    assert forall|i: int| 0 <= i < n implies #[trigger] w[64 * r + i] == tiles[4096 * t + 64 * (c
        + r) + i] by {}
    dsp::law_swapped_dot_is_the_dot(w, 64 * r, row, x, n);
    lemma_tile_share(p, tk, tiles, c + r, t, x, w, 64 * r, n);
    lemma_raw_context(p, tk, tiles, c + r, 0, 64 * t + n);
    dsp::law_small_sums_do_not_wrap(raw_context(p, tk, tiles, c + r, 64 * t + n));
}

/// Four channels accumulated over all tiles.
#[verifier::rlimit(30)]
fn four_channels(p: &[i16], h: &[i16], tiles: &[i8], tk: usize, c: usize) -> (acc: [i32; 4])
    requires
        1 <= tk,
        padded(tk as int) <= MAX_KEYS,
        is_prob_row(p@, tk as int),
        tiles@.len() >= (tk + 63) / 64 * 4096,
        c <= 60,
        h@.len() == padded(tk as int),
        forall|x: int|
            0 <= x < padded(tk as int) ==> h@[#[trigger] swapped(x)] == if x < tk {
                p@[x]
            } else {
                0
            },
    ensures
        forall|r: int|
            0 <= r < 4 ==> #[trigger] acc@[r] == raw_context(
                p@,
                tk as int,
                tiles@,
                c + r,
                padded(tk as int),
            ),
{
    let tkp: usize = keys_padded(tk);
    let n_tiles: usize = (tk + 63) / 64;
    let mut acc: [i32; 4] = [0; 4];
    let mut t: usize = 0;
    let mut done: usize = 0;
    while t < n_tiles
        invariant
            t <= n_tiles,
            1 <= tk <= tkp <= MAX_KEYS,
            tkp == padded(tk as int),
            tkp % 8 == 0,
            n_tiles == (tk + 63) / 64,
            is_prob_row(p@, tk as int),
            tiles@.len() >= n_tiles * 4096,
            c <= 60,
            h@.len() == tkp,
            forall|x: int|
                0 <= x < tkp ==> h@[#[trigger] swapped(x)] == if x < tk {
                    p@[x]
                } else {
                    0
                },
            done == if 64 * t < tkp {
                64 * t
            } else {
                tkp as int
            },
            forall|r: int|
                0 <= r < 4 ==> #[trigger] acc@[r] == raw_context(
                    p@,
                    tk as int,
                    tiles@,
                    c + r,
                    done as int,
                ),
        decreases n_tiles - t,
    {
        let left: usize = tkp - 64 * t;
        let n: usize = if left < 64 {
            left
        } else {
            64
        };
        let row: &[i16] = vstd::slice::slice_subrange(h, 64 * t, 64 * t + n);
        let from: usize = 4096 * t + 64 * c;
        let w: &[i8] = vstd::slice::slice_subrange(tiles, from, from + 192 + n);
        let ghost before = acc@;
        acc = dsp::dot_pv_q1v4_i8(row, w, n / 8, acc);
        assert forall|r: int| 0 <= r < 4 implies #[trigger] acc@[r] == raw_context(
            p@,
            tk as int,
            tiles@,
            c + r,
            64 * t + n,
        ) by {
            assert(before[r] == raw_context(p@, tk as int, tiles@, c + r, 64 * t));
            lemma_tile_step(p@, h@, tk as int, tiles@, c as int, r, t as int, row@, w@, n as int);
        }
        done = 64 * t + n;
        t = t + 1;
    }
    acc
}

// --- running argmax ---------------------------------------------------------------------

/// Running argmax over logits. A logit is held as an integer that orders
/// like it.
#[derive(Clone, Copy, PartialEq, Eq, Structural, Debug)]
pub struct ArgmaxState {
    pub best: i32,
    pub best_idx: u32,
}

/// The argmax state after the first `n` logits of a tile: the first of the
/// largest wins, and an equal later one does not replace it.
pub open spec fn argmax_over(logits: Seq<i32>, idx: Seq<u32>, s: ArgmaxState, n: int) -> ArgmaxState
    decreases n,
{
    if n <= 0 {
        s
    } else {
        let t = argmax_over(logits, idx, s, n - 1);
        if logits[n - 1] > t.best {
            ArgmaxState { best: logits[n - 1], best_idx: idx[n - 1] }
        } else {
            t
        }
    }
}

/// Folds one tile of logits into the running argmax; `idx[j]` is row `j`'s
/// vocabulary id.
pub fn logits_max(logits: &[i32], idx: &[u32], state: &mut ArgmaxState)
    requires
        idx@.len() >= logits@.len(),
    ensures
        *final(state) == argmax_over(logits@, idx@, *old(state), logits@.len() as int),
{
    let ghost start = *state;
    let mut j: usize = 0;
    while j < logits.len()
        invariant
            j <= logits@.len() <= idx@.len(),
            *state == argmax_over(logits@, idx@, start, j as int),
        decreases logits@.len() - j,
    {
        if logits[j] > state.best {
            state.best = logits[j];
            state.best_idx = idx[j];
        }
        j = j + 1;
    }
}

/// The running maximum is an upper bound of every logit it has seen, and
/// comes from one of them or from before.
pub proof fn law_argmax_is_the_maximum(logits: Seq<i32>, idx: Seq<u32>, s: ArgmaxState, n: int)
    requires
        0 <= n <= logits.len(),
        n <= idx.len(),
    ensures
        argmax_over(logits, idx, s, n).best >= s.best,
        forall|j: int| 0 <= j < n ==> argmax_over(logits, idx, s, n).best >= #[trigger] logits[j],
        argmax_over(logits, idx, s, n) == s || exists|j: int|
            0 <= j < n && #[trigger] logits[j] == argmax_over(logits, idx, s, n).best && idx[j]
                == argmax_over(logits, idx, s, n).best_idx,
    decreases n,
{
    if n > 0 {
        law_argmax_is_the_maximum(logits, idx, s, n - 1);
    }
}

/// A stage that is large enough holds every dimension of every key.
pub proof fn law_a_stage_holds_every_key(tk: int, c: int, j: int)
    requires
        0 <= j < tk,
        0 <= c < 64,
    ensures
        0 <= 4096 * (j / 64) + 64 * c + j % 64 < stage_need(tk),
        stage_need(tk) <= 4096 * ((tk + 63) / 64),
{
    let last = tk - 1;
    assert(j / 64 <= last / 64);
    if j / 64 == last / 64 {
        assert(j % 64 <= last % 64);
    }
}

} // verus!
