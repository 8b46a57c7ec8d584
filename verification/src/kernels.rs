//! The integer halves of the glue kernels between NPU runs.
//!
//! Attention is two matrix products around a softmax. The products are
//! exact integer sums with the zero points taken out of the inner loops;
//! the softmax, and the quantisation of its result, are the caller's. All
//! forms of a product here (plain, two queries at a time, one query on
//! int8 layouts) state the same sum.
//!
//! Quantisation: activations are int8 with a scale and a zero point per
//! tensor, the residual stream is int16, and softmax output has the fixed
//! scale 1/256 and zero point -128.

use vstd::prelude::*;

verus! {

/// Scale (the bit pattern of an f32) and zero point of a tensor.
#[derive(Clone, Copy, PartialEq, Eq, Structural, Debug)]
pub struct Quant {
    pub scale: u32,
    pub zp: i32,
}

impl Default for Quant {
    fn default() -> (q: Self)
        ensures
            q == (Quant { scale: 0, zp: 0 }),
    {
        Quant { scale: 0, zp: 0 }
    }
}

/// `x` held between `lo` and `hi`.
pub open spec fn clamped(x: int, lo: int, hi: int) -> int {
    if x < lo {
        lo
    } else if x > hi {
        hi
    } else {
        x
    }
}

impl Quant {
    /// The int8 code of a value that is `r` steps from real zero.
    pub fn q8(&self, r: i32) -> (q: i8)
        requires
            i32::MIN <= r + self.zp <= i32::MAX,
        ensures
            q == clamped(r + self.zp, -128, 127),
    {
        let x: i32 = r + self.zp;
        if x < -128 {
            -128
        } else if x > 127 {
            127
        } else {
            x as i8
        }
    }

    /// The int16 code of a value that is `r` steps from real zero.
    pub fn q16(&self, r: i32) -> (q: i16)
        requires
            i32::MIN <= r + self.zp <= i32::MAX,
        ensures
            q == clamped(r + self.zp, -32768, 32767),
    {
        let x: i32 = r + self.zp;
        if x < -32768 {
            -32768
        } else if x > 32767 {
            32767
        } else {
            x as i16
        }
    }

    /// Steps from real zero of an int16 code.
    pub fn dq16(&self, q: i16) -> (r: i32)
        requires
            i32::MIN <= q - self.zp <= i32::MAX,
        ensures
            r == q - self.zp,
    {
        q as i32 - self.zp
    }

    /// Steps from real zero of an int8 code.
    pub fn dq8(&self, q: i8) -> (r: i32)
        requires
            i32::MIN <= q - self.zp <= i32::MAX,
        ensures
            r == q - self.zp,
    {
        q as i32 - self.zp
    }
}

/// Quantising what a code stands for gives the code back.
pub proof fn law_codes_survive(q: i8, zp: int)
    ensures
        clamped((q - zp) + zp, -128, 127) == q,
{
}

/// Zero point of the softmax output.
pub const PROBS_ZP: i32 = -128;

/// The probability code of a value that is `r` steps of 1/256, biased to
/// start at 0.
pub fn biased_prob(r: i32) -> (p: i16)
    requires
        r >= i32::MIN + 128,
    ensures
        p == clamped(r as int, 0, 255),
{
    let q = Quant { scale: 0, zp: PROBS_ZP }.q8(r);
    q as i16 + 128
}

/// int8 to int8 scalar map through a 256-entry table.
pub fn lut_i8(lut: &[i8; 256], src: &[i8], dst: &mut [i8])
    ensures
        final(dst)@.len() == old(dst)@.len(),
        forall|i: int|
            0 <= i < final(dst)@.len() ==> #[trigger] final(dst)@[i] == if i < src@.len() {
                lut@[src@[i] + 128]
            } else {
                old(dst)@[i]
            },
{
    let ghost start = dst@;
    let mut i: usize = 0;
    while i < src.len() && i < dst.len()
        invariant
            i <= src@.len(),
            i <= dst@.len(),
            dst@.len() == start.len(),
            forall|j: int|
                0 <= j < dst@.len() ==> #[trigger] dst@[j] == if j < i {
                    lut@[src@[j] + 128]
                } else {
                    start[j]
                },
        decreases src@.len() - i,
    {
        dst[i] = lut[(src[i] as i32 + 128) as usize];
        i = i + 1;
    }
}

/// `lut_i8` in place.
pub fn lut_apply_to(lut: &[i8; 256], buf: &mut [i8])
    ensures
        final(buf)@ == Seq::new(old(buf)@.len(), |i: int| lut@[old(buf)@[i] + 128]),
{
    let ghost start = buf@;
    let mut i: usize = 0;
    while i < buf.len()
        invariant
            i <= buf@.len(),
            buf@.len() == start.len(),
            forall|j: int|
                0 <= j < buf@.len() ==> #[trigger] buf@[j] == if j < i {
                    lut@[start[j] + 128]
                } else {
                    start[j]
                },
        decreases buf@.len() - i,
    {
        buf[i] = lut[(buf[i] as i32 + 128) as usize];
        i = i + 1;
    }
    assert(buf@ =~= Seq::new(start.len(), |i: int| lut@[start[i] + 128]));
}

/// The first `n` products of a row of `a`, less its zero point, and a row
/// of `b`.
pub open spec fn dot_zp(a: Seq<i8>, ao: int, za: int, b: Seq<i8>, bo: int, n: int) -> int
    decreases n,
{
    if n <= 0 {
        0
    } else {
        dot_zp(a, ao, za, b, bo, n - 1) + (a[ao + n - 1] - za) * b[bo + n - 1]
    }
}

proof fn lemma_product(x: int, y: int, a: int, b: int)
    by (nonlinear_arith)
    requires
        -a <= x <= a,
        -b <= y <= b,
    ensures
        -(a * b) <= x * y <= a * b,
{
}

proof fn lemma_row_end(i: int, m: int, k: int)
    by (nonlinear_arith)
    requires
        0 <= i < m,
        0 <= k,
    ensures
        0 <= i * k,
        i * k + k <= m * k,
{
}

proof fn lemma_cell_unique(i: int, j: int, r: int, q: int, n: int)
    by (nonlinear_arith)
    requires
        0 <= j < n,
        0 <= q < n,
        i * n + j == r * n + q,
    ensures
        i == r && j == q,
{
}

/// What cell `(i, j)` of the product holds after the first `t` products of
/// its rows, on top of what it held.
pub open spec fn cell_sum(
    a: Seq<i8>,
    za: int,
    b: Seq<i8>,
    acc: Seq<i32>,
    k: int,
    n: int,
    i: int,
    j: int,
    t: int,
) -> int {
    acc[i * n + j] + dot_zp(a, i * k, za, b, j * k, t)
}

/// No partial sum of any cell leaves the range of an int32.
pub open spec fn sums_fit(
    a: Seq<i8>,
    za: int,
    b: Seq<i8>,
    acc: Seq<i32>,
    m: int,
    k: int,
    n: int,
) -> bool {
    forall|i: int, j: int, t: int|
        0 <= i < m && 0 <= j < n && 0 <= t <= k ==> i32::MIN <= #[trigger] cell_sum(
            a,
            za,
            b,
            acc,
            k,
            n,
            i,
            j,
            t,
        ) <= i32::MAX
}

/// `acc[m, n] += A[m, k] * B[n, k]^T`, int8 by int8 into int32. `za` is A's
/// zero point; B is symmetric.
pub fn matmul_i8_bt(a: &[i8], za: i32, b: &[i8], acc: &mut [i32], m: usize, k: usize, n: usize)
    requires
        m * k <= a@.len(),
        n * k <= b@.len(),
        m * n <= old(acc)@.len(),
        sums_fit(a@, za as int, b@, old(acc)@, m as int, k as int, n as int),
    ensures
        final(acc)@.len() == old(acc)@.len(),
        forall|i: int, j: int|
            #![trigger final(acc)@[i * n + j]]
            0 <= i < m && 0 <= j < n ==> final(acc)@[i * n + j] == old(acc)@[i * n + j] + dot_zp(
                a@,
                i * k,
                za as int,
                b@,
                j * k,
                k as int,
            ),
        forall|x: int|
            m * n <= x < final(acc)@.len() ==> #[trigger] final(acc)@[x] == old(acc)@[x],
{
    let ghost start = acc@;
    let la: usize = a.len();
    let lb: usize = b.len();
    let lc: usize = acc.len();
    let mut i: usize = 0;
    while i < m
        invariant
            i <= m,
            la == a@.len(),
            lb == b@.len(),
            lc == acc@.len(),
            acc@.len() == start.len(),
            m * k <= la,
            n * k <= lb,
            m * n <= lc,
            sums_fit(a@, za as int, b@, start, m as int, k as int, n as int),
            forall|r: int, q: int|
                #![trigger acc@[r * n + q]]
                0 <= r < m && 0 <= q < n ==> acc@[r * n + q] == (if r < i {
                    cell_sum(a@, za as int, b@, start, k as int, n as int, r, q, k as int)
                } else {
                    start[r * n + q] as int
                }),
            forall|x: int| m * n <= x < acc@.len() ==> #[trigger] acc@[x] == start[x],
        decreases m - i,
    {
        let mut j: usize = 0;
        while j < n
            invariant
                i < m,
                j <= n,
                la == a@.len(),
                lb == b@.len(),
                lc == acc@.len(),
                acc@.len() == start.len(),
                m * k <= la,
                n * k <= lb,
                m * n <= lc,
                sums_fit(a@, za as int, b@, start, m as int, k as int, n as int),
                forall|r: int, q: int|
                    #![trigger acc@[r * n + q]]
                    0 <= r < m && 0 <= q < n ==> acc@[r * n + q] == (if r < i || (r == i && q
                        < j) {
                        cell_sum(a@, za as int, b@, start, k as int, n as int, r, q, k as int)
                    } else {
                        start[r * n + q] as int
                    }),
                forall|x: int| m * n <= x < acc@.len() ==> #[trigger] acc@[x] == start[x],
            decreases n - j,
        {
            proof {
                lemma_row_end(i as int, m as int, k as int);
                lemma_row_end(j as int, n as int, k as int);
                lemma_row_end(i as int, m as int, n as int);
                assert forall|t: int| 0 <= t <= k implies i32::MIN <= start[i * n + j]
                    + #[trigger] dot_zp(a@, i * k, za as int, b@, j * k, t) <= i32::MAX by {
                    let c = cell_sum(
                        a@,
                        za as int,
                        b@,
                        start,
                        k as int,
                        n as int,
                        i as int,
                        j as int,
                        t,
                    );
                }
                assert(acc@[i * n + j] == start[i * n + j]);
            }
            let ghost before = acc@;
            let at: usize = i * n + j;
            let s: i32 = dot_row_zp(acc[at], a, i * k, za, b, j * k, k);
            acc[at] = s;
            assert forall|r: int, q: int|
                #![trigger acc@[r * n + q]]
                0 <= r < m && 0 <= q < n implies acc@[r * n + q] == (if r < i || (r == i && q < j
                + 1) {
                cell_sum(a@, za as int, b@, start, k as int, n as int, r, q, k as int)
            } else {
                start[r * n + q] as int
            }) by {
                lemma_row_end(r, m as int, n as int);
                if r * n + q == i * n + j {
                    lemma_cell_unique(i as int, j as int, r, q, n as int);
                } else {
                    assert(acc@[r * n + q] == before[r * n + q]);
                }
            }
            j = j + 1;
        }
        i = i + 1;
    }
}

/// One row of `a`, less its zero point, dotted with one row of `b`, on top of
/// `first`.
fn dot_row_zp(
    first: i32,
    a: &[i8],
    ao: usize,
    za: i32,
    b: &[i8],
    bo: usize,
    n: usize,
) -> (s: i32)
    requires
        ao + n <= a@.len(),
        bo + n <= b@.len(),
        forall|t: int|
            0 <= t <= n ==> i32::MIN <= first + #[trigger] dot_zp(
                a@,
                ao as int,
                za as int,
                b@,
                bo as int,
                t,
            ) <= i32::MAX,
    ensures
        s == first + dot_zp(a@, ao as int, za as int, b@, bo as int, n as int),
{
    let la: usize = a.len();
    let lb: usize = b.len();
    let mut s: i32 = first;
    let mut t: usize = 0;
    assert(dot_zp(a@, ao as int, za as int, b@, bo as int, 0) == 0);
    while t < n
        invariant
            t <= n,
            la == a@.len(),
            lb == b@.len(),
            ao + n <= la,
            bo + n <= lb,
            s == first + dot_zp(a@, ao as int, za as int, b@, bo as int, t as int),
            forall|u: int|
                0 <= u <= n ==> i32::MIN <= first + #[trigger] dot_zp(
                    a@,
                    ao as int,
                    za as int,
                    b@,
                    bo as int,
                    u,
                ) <= i32::MAX,
        decreases n - t,
    {
        let x: i64 = a[ao + t] as i64 - za as i64;
        let y: i64 = b[bo + t] as i64;
        proof {
            lemma_product(x as int, y as int, 0x1_0000_0000, 128);
            let next = dot_zp(a@, ao as int, za as int, b@, bo as int, t + 1);
            assert(first + next == s + x * y);
        }
        s = (s as i64 + x * y) as i32;
        t = t + 1;
    }
    s
}

// --- attention, plain form --------------------------------------------------------

/// Most keys of one attention head.
pub const MAX_KEYS: usize = 640;

/// Dimensions of one attention head.
pub const HD64: usize = 64;

/// Elements of a full transposed key buffer or widened value buffer.
pub const KV16_LEN: usize = 40960;

/// The score of a query against a key over the first `n` channels: the sum
/// of products of what the codes stand for. `q` and `k` are channel-planar
/// with the given column strides.
pub open spec fn score(
    q: Seq<i8>,
    qstride: int,
    qi: int,
    zq: int,
    k: Seq<i8>,
    kstride: int,
    j: int,
    zk: int,
    n: int,
) -> int
    decreases n,
{
    if n <= 0 {
        0
    } else {
        score(q, qstride, qi, zq, k, kstride, j, zk, n - 1) + (q[(n - 1) * qstride + qi] - zq) * (
        k[(n - 1) * kstride + j] - zk)
    }
}

/// The first `n` codes of a query, less the zero point, summed.
pub open spec fn query_sum(q: Seq<i8>, qstride: int, qi: int, zq: int, n: int) -> int
    decreases n,
{
    if n <= 0 {
        0
    } else {
        query_sum(q, qstride, qi, zq, n - 1) + (q[(n - 1) * qstride + qi] - zq)
    }
}

proof fn lemma_query_sum_bound(q: Seq<i8>, qstride: int, qi: int, zq: int, n: int)
    requires
        0 <= n,
        -128 <= zq <= 127,
    ensures
        -(255 * n) <= query_sum(q, qstride, qi, zq, n) <= 255 * n,
    decreases n,
{
    if n > 0 {
        lemma_query_sum_bound(q, qstride, qi, zq, n - 1);
    }
}

proof fn lemma_score_bound(
    q: Seq<i8>,
    qstride: int,
    qi: int,
    zq: int,
    k: Seq<i8>,
    kstride: int,
    j: int,
    zk: int,
    n: int,
)
    requires
        0 <= n,
        -128 <= zq <= 127,
        -128 <= zk <= 127,
    ensures
        -(65025 * n) <= score(q, qstride, qi, zq, k, kstride, j, zk, n) <= 65025 * n,
    decreases n,
{
    if n > 0 {
        lemma_score_bound(q, qstride, qi, zq, k, kstride, j, zk, n - 1);
        lemma_product(
            (q[(n - 1) * qstride + qi] - zq) as int,
            (k[(n - 1) * kstride + j] - zk) as int,
            255,
            255,
        );
    }
}

proof fn lemma_split_product(x: int, k: int, zk: int)
    by (nonlinear_arith)
    ensures
        x * (k - zk) == x * k - zk * x,
{
}

proof fn lemma_zp_times_sum(zk: int, s: int, x: int)
    by (nonlinear_arith)
    ensures
        zk * (s + x) == zk * s + zk * x,
{
}

/// The scores of query `qi` against `tk` keys, channel by channel: every
/// channel adds a multiple of a key row to all the scores, and the key
/// zero point comes out of the loop as one correction of the whole row,
/// `sum (q - zq)(k - zk) = sum (q - zq) k - zk sum (q - zq)`.
pub fn attn_scores(
    q: &[i8],
    k: &[i8],
    hd: usize,
    qi: usize,
    qstride: usize,
    tk: usize,
    kstride: usize,
    zq: i32,
    zk: i32,
) -> (s: Vec<i32>)
    requires
        1 <= hd <= 32768,
        -128 <= zq <= 127,
        -128 <= zk <= 127,
        qi < qstride,
        (hd - 1) * qstride + qi < q@.len(),
        tk <= kstride,
        (hd - 1) * kstride + tk <= k@.len(),
    ensures
        s@.len() == tk,
        forall|j: int|
            0 <= j < tk ==> #[trigger] s@[j] == score(
                q@,
                qstride as int,
                qi as int,
                zq as int,
                k@,
                kstride as int,
                j,
                zk as int,
                hd as int,
            ),
{
    let lq: usize = q.len();
    let lk: usize = k.len();
    let mut acc: Vec<i32> = Vec::new();
    let mut j: usize = 0;
    while j < tk
        invariant
            j <= tk,
            acc@.len() == j,
            forall|x: int| 0 <= x < j ==> #[trigger] acc@[x] == 0,
        decreases tk - j,
    {
        acc.push(0);
        j = j + 1;
    }
    let mut qsum: i32 = 0;
    let mut c: usize = 0;
    while c < hd
        invariant
            c <= hd <= 32768,
            lq == q@.len(),
            lk == k@.len(),
            -128 <= zq <= 127,
            -128 <= zk <= 127,
            qi < qstride,
            (hd - 1) * qstride + qi < lq,
            tk <= kstride,
            (hd - 1) * kstride + tk <= lk,
            acc@.len() == tk,
            qsum == query_sum(q@, qstride as int, qi as int, zq as int, c as int),
            forall|x: int|
                0 <= x < tk ==> #[trigger] acc@[x] == score(
                    q@,
                    qstride as int,
                    qi as int,
                    zq as int,
                    k@,
                    kstride as int,
                    x,
                    zk as int,
                    c as int,
                ) + zk * query_sum(q@, qstride as int, qi as int, zq as int, c as int),
        decreases hd - c,
    {
        proof {
            lemma_row_end(c as int, hd as int, qstride as int);
            lemma_row_end(c as int, hd as int, kstride as int);
            lemma_row_end(hd - 1, hd as int, qstride as int);
            lemma_row_end(hd - 1, hd as int, kstride as int);
            assert(c * qstride <= (hd - 1) * qstride) by (nonlinear_arith)
                requires
                    0 <= c <= hd - 1,
                    0 <= qstride,
            ;
            assert(c * kstride <= (hd - 1) * kstride) by (nonlinear_arith)
                requires
                    0 <= c <= hd - 1,
                    0 <= kstride,
            ;
            lemma_query_sum_bound(q@, qstride as int, qi as int, zq as int, c as int);
            lemma_query_sum_bound(q@, qstride as int, qi as int, zq as int, c + 1);
        }
        let qc: i32 = q[c * qstride + qi] as i32 - zq;
        let row: usize = c * kstride;
        let mut x: usize = 0;
        while x < tk
            invariant
                c < hd <= 32768,
                x <= tk,
                lk == k@.len(),
                row == c * kstride,
                row + tk <= lk,
                qc == q@[c * qstride + qi] - zq,
                -255 <= qc <= 255,
                -128 <= zq <= 127,
                -128 <= zk <= 127,
                acc@.len() == tk,
                forall|y: int|
                    0 <= y < tk ==> #[trigger] acc@[y] == score(
                        q@,
                        qstride as int,
                        qi as int,
                        zq as int,
                        k@,
                        kstride as int,
                        y,
                        zk as int,
                        if y < x {
                            c + 1
                        } else {
                            c as int
                        },
                    ) + zk * query_sum(
                        q@,
                        qstride as int,
                        qi as int,
                        zq as int,
                        if y < x {
                            c + 1
                        } else {
                            c as int
                        },
                    ),
            decreases tk - x,
        {
            let kv: i32 = k[row + x] as i32;
            proof {
                let s0 = score(
                    q@,
                    qstride as int,
                    qi as int,
                    zq as int,
                    k@,
                    kstride as int,
                    x as int,
                    zk as int,
                    c as int,
                );
                let n0 = query_sum(q@, qstride as int, qi as int, zq as int, c as int);
                lemma_product(qc as int, kv as int, 255, 128);
                lemma_split_product(qc as int, kv as int, zk as int);
                lemma_zp_times_sum(zk as int, n0, qc as int);
                lemma_score_bound(
                    q@,
                    qstride as int,
                    qi as int,
                    zq as int,
                    k@,
                    kstride as int,
                    x as int,
                    zk as int,
                    c as int,
                );
                lemma_acc_bound(
                    q@,
                    qstride as int,
                    qi as int,
                    zq as int,
                    k@,
                    kstride as int,
                    x as int,
                    zk as int,
                    c as int,
                );
                lemma_acc_bound(
                    q@,
                    qstride as int,
                    qi as int,
                    zq as int,
                    k@,
                    kstride as int,
                    x as int,
                    zk as int,
                    c + 1,
                );
                assert(acc@[x as int] == s0 + zk * n0);
            }
            acc[x] = acc[x] + qc * kv;
            x = x + 1;
        }
        qsum = qsum + qc;
        c = c + 1;
    }
    proof {
        lemma_query_sum_bound(q@, qstride as int, qi as int, zq as int, hd as int);
        lemma_product(zk as int, qsum as int, 128, 255 * hd);
    }
    let corr: i32 = zk * qsum;
    let mut out: Vec<i32> = Vec::new();
    let mut y: usize = 0;
    while y < tk
        invariant
            y <= tk,
            hd <= 32768,
            -128 <= zq <= 127,
            -128 <= zk <= 127,
            acc@.len() == tk,
            out@.len() == y,
            corr == zk * query_sum(q@, qstride as int, qi as int, zq as int, hd as int),
            forall|x: int|
                0 <= x < tk ==> #[trigger] acc@[x] == score(
                    q@,
                    qstride as int,
                    qi as int,
                    zq as int,
                    k@,
                    kstride as int,
                    x,
                    zk as int,
                    hd as int,
                ) + zk * query_sum(q@, qstride as int, qi as int, zq as int, hd as int),
            forall|x: int|
                0 <= x < y ==> #[trigger] out@[x] == score(
                    q@,
                    qstride as int,
                    qi as int,
                    zq as int,
                    k@,
                    kstride as int,
                    x,
                    zk as int,
                    hd as int,
                ),
        decreases tk - y,
    {
        proof {
            lemma_score_bound(
                q@,
                qstride as int,
                qi as int,
                zq as int,
                k@,
                kstride as int,
                y as int,
                zk as int,
                hd as int,
            );
        }
        out.push(acc[y] - corr);
        y = y + 1;
    }
    out
}

/// The uncorrected accumulator stays small: it is a sum of code products.
proof fn lemma_acc_bound(
    q: Seq<i8>,
    qstride: int,
    qi: int,
    zq: int,
    k: Seq<i8>,
    kstride: int,
    j: int,
    zk: int,
    n: int,
)
    requires
        0 <= n,
        -128 <= zq <= 127,
    ensures
        -(32640 * n) <= score(q, qstride, qi, zq, k, kstride, j, zk, n) + zk * query_sum(
            q,
            qstride,
            qi,
            zq,
            n,
        ) <= 32640 * n,
    decreases n,
{
    if n > 0 {
        lemma_acc_bound(q, qstride, qi, zq, k, kstride, j, zk, n - 1);
        let x = (q[(n - 1) * qstride + qi] - zq) as int;
        let kv = k[(n - 1) * kstride + j] as int;
        lemma_product(x, kv, 255, 128);
        lemma_split_product(x, kv, zk);
        lemma_zp_times_sum(zk, query_sum(q, qstride, qi, zq, n - 1), x);
    } else {
        assert(zk * 0 == 0) by (nonlinear_arith);
    }
}

/// The context of a row of biased probabilities over the first `n` keys:
/// the sum of products with what the value codes stand for.
pub open spec fn context(p: Seq<i16>, v: Seq<i8>, vo: int, zv: int, n: int) -> int
    decreases n,
{
    if n <= 0 {
        0
    } else {
        context(p, v, vo, zv, n - 1) + p[n - 1] * (v[vo + n - 1] - zv)
    }
}

/// A row of biased probabilities: `n` values from 0 to 255.
pub open spec fn is_prob_row(p: Seq<i16>, n: int) -> bool {
    &&& n <= p.len()
    &&& forall|j: int| 0 <= j < n ==> 0 <= #[trigger] p[j] <= 255
}

/// The first `n` probabilities summed.
pub open spec fn prob_sum(p: Seq<i16>, n: int) -> int
    decreases n,
{
    if n <= 0 {
        0
    } else {
        prob_sum(p, n - 1) + p[n - 1]
    }
}

proof fn lemma_prob_sum_bound(p: Seq<i16>, n: int)
    requires
        0 <= n,
        is_prob_row(p, n),
    ensures
        0 <= prob_sum(p, n) <= 255 * n,
    decreases n,
{
    if n > 0 {
        lemma_prob_sum_bound(p, n - 1);
    }
}

proof fn lemma_context_bound(p: Seq<i16>, v: Seq<i8>, vo: int, zv: int, n: int)
    requires
        0 <= n,
        is_prob_row(p, n),
        -128 <= zv <= 127,
    ensures
        -(65025 * n) <= context(p, v, vo, zv, n) <= 65025 * n,
        -(32640 * n) <= context(p, v, vo, zv, n) + zv * prob_sum(p, n) <= 32640 * n,
    decreases n,
{
    if n > 0 {
        lemma_context_bound(p, v, vo, zv, n - 1);
        let x = p[n - 1] as int;
        let y = v[vo + n - 1] as int;
        lemma_product(x, y - zv, 255, 255);
        lemma_product(x, y, 255, 128);
        lemma_split_product(x, y, zv);
        lemma_zp_times_sum(zv, prob_sum(p, n - 1), x);
    } else {
        assert(zv * 0 == 0) by (nonlinear_arith);
    }
}

/// The sum of a row of biased probabilities.
pub fn probs_total(p: &[i16], tk: usize) -> (s: i32)
    requires
        tk <= MAX_KEYS,
        is_prob_row(p@, tk as int),
    ensures
        s == prob_sum(p@, tk as int),
{
    let mut s: i32 = 0;
    let mut j: usize = 0;
    while j < tk
        invariant
            j <= tk <= MAX_KEYS,
            is_prob_row(p@, tk as int),
            s == prob_sum(p@, j as int),
            0 <= s <= 255 * j,
        decreases tk - j,
    {
        s = s + p[j] as i32;
        j = j + 1;
    }
    s
}

/// The contexts of all channels for one row of probabilities: channel `c`
/// reads the value row at `c * kstride`.
pub fn attn_context(
    p: &[i16],
    v: &[i8],
    hd: usize,
    tk: usize,
    kstride: usize,
    zv: i32,
) -> (s: Vec<i32>)
    requires
        1 <= hd,
        tk <= MAX_KEYS,
        is_prob_row(p@, tk as int),
        -128 <= zv <= 127,
        tk <= kstride,
        (hd - 1) * kstride + tk <= v@.len(),
    ensures
        s@.len() == hd,
        forall|c: int|
            0 <= c < hd ==> #[trigger] s@[c] == context(
                p@,
                v@,
                c * kstride,
                zv as int,
                tk as int,
            ),
{
    let lv: usize = v.len();
    let psum: i32 = probs_total(p, tk);
    proof {
        lemma_prob_sum_bound(p@, tk as int);
        lemma_product(zv as int, psum as int, 128, 255 * tk);
    }
    let vcorr: i32 = zv * psum;
    let mut out: Vec<i32> = Vec::new();
    let mut c: usize = 0;
    while c < hd
        invariant
            c <= hd,
            lv == v@.len(),
            tk <= MAX_KEYS,
            is_prob_row(p@, tk as int),
            -128 <= zv <= 127,
            tk <= kstride,
            (hd - 1) * kstride + tk <= lv,
            vcorr == zv * prob_sum(p@, tk as int),
            out@.len() == c,
            forall|d: int|
                0 <= d < c ==> #[trigger] out@[d] == context(
                    p@,
                    v@,
                    d * kstride,
                    zv as int,
                    tk as int,
                ),
        decreases hd - c,
    {
        proof {
            assert(c * kstride <= (hd - 1) * kstride) by (nonlinear_arith)
                requires
                    0 <= c <= hd - 1,
                    0 <= kstride,
            ;
            assert(0 <= c * kstride) by (nonlinear_arith)
                requires
                    0 <= c,
                    0 <= kstride,
            ;
        }
        let row: usize = c * kstride;
        let mut a: i32 = 0;
        let mut j: usize = 0;
        proof {
            assert(zv * 0 == 0) by (nonlinear_arith);
        }
        while j < tk
            invariant
                j <= tk <= MAX_KEYS,
                lv == v@.len(),
                row + tk <= lv,
                is_prob_row(p@, tk as int),
                -128 <= zv <= 127,
                a == context(p@, v@, row as int, zv as int, j as int) + zv * prob_sum(
                    p@,
                    j as int,
                ),
            decreases tk - j,
        {
            let x: i32 = p[j] as i32;
            let y: i32 = v[row + j] as i32;
            proof {
                lemma_context_bound(p@, v@, row as int, zv as int, j as int);
                lemma_context_bound(p@, v@, row as int, zv as int, j + 1);
                lemma_product(x as int, y as int, 255, 128);
                lemma_split_product(x as int, y as int, zv as int);
                lemma_zp_times_sum(zv as int, prob_sum(p@, j as int), x as int);
            }
            a = a + x * y;
            j = j + 1;
        }
        proof {
            lemma_context_bound(p@, v@, row as int, zv as int, tk as int);
        }
        out.push(a - vcorr);
        c = c + 1;
    }
    out
}

// --- keys and values in kernel layouts -----------------------------------------------

/// Keys and values in the layouts the two-by-two kernels consume: `kt`
/// key-major `[tkp][64]` (rows `tk..tkp` zero, `tkp` the key count rounded
/// up to 8) and `v16` `[64][MAX_KEYS]` (columns `tk..tkp` zero).
pub struct AttnKv<'a> {
    pub kt: &'a [i16],
    pub v16: &'a [i16],
    pub tk: usize,
}

/// `tk` rounded up to a multiple of 8.
pub open spec fn padded(tk: int) -> int {
    (tk + 7) / 8 * 8
}

/// Key count rounded up to whole kernel steps.
pub fn keys_padded(tk: usize) -> (p: usize)
    requires
        tk <= usize::MAX - 7,
    ensures
        p == padded(tk as int),
{
    (tk + 7) / 8 * 8
}

/// Channel `c` of key `j` in a key-major buffer.
pub open spec fn key_cell(kt: Seq<i16>, j: int, c: int) -> i16 {
    kt[64 * j + c]
}

/// Key `j` of channel `c` in a value buffer.
pub open spec fn value_cell(v16: Seq<i16>, c: int, j: int) -> i16 {
    v16[640 * c + j]
}

/// `v` is a value that `get` can return for this channel and key.
pub open spec fn gives<F: Fn(usize, usize) -> i8>(get: F, c: usize, j: usize, v: i16) -> bool {
    exists|x: i8| #[trigger] call_ensures(get, (c, j), x) && v == x
}

/// Fills `kt` from any int8 key layout through `get(channel, key)`.
pub fn attn_prepare_kt<F: Fn(usize, usize) -> i8>(get: F, tk: usize, kt: &mut [i16])
    requires
        1 <= tk,
        padded(tk as int) <= MAX_KEYS,
        old(kt)@.len() >= padded(tk as int) * 64,
        forall|c: usize, j: usize| c < 64 && j < tk ==> #[trigger] call_requires(get, (c, j)),
    ensures
        final(kt)@.len() == old(kt)@.len(),
        forall|c: usize, j: usize|
            #![trigger key_cell(final(kt)@, j as int, c as int)]
            c < 64 && j < tk ==> gives(get, c, j, key_cell(final(kt)@, j as int, c as int)),
        forall|i: int|
            tk * 64 <= i < padded(tk as int) * 64 ==> #[trigger] final(kt)@[i] == 0,
        forall|i: int|
            padded(tk as int) * 64 <= i < final(kt)@.len() ==> #[trigger] final(kt)@[i]
                == old(kt)@[i],
{
    let tkp: usize = keys_padded(tk);
    let ghost start = kt@;
    let mut j: usize = 0;
    while j < tk
        invariant
            j <= tk <= tkp <= MAX_KEYS,
            tkp == padded(tk as int),
            kt@.len() == start.len(),
            kt@.len() >= tkp * 64,
            forall|c: usize, j: usize| c < 64 && j < tk ==> #[trigger] call_requires(get, (c, j)),
            forall|c: usize, i: usize|
                #![trigger key_cell(kt@, i as int, c as int)]
                c < 64 && i < j ==> gives(get, c, i, key_cell(kt@, i as int, c as int)),
            forall|i: int| tkp * 64 <= i < kt@.len() ==> #[trigger] kt@[i] == start[i],
        decreases tk - j,
    {
        let mut c: usize = 0;
        while c < 64
            invariant
                c <= 64,
                j < tk <= tkp <= MAX_KEYS,
                tkp == padded(tk as int),
                kt@.len() == start.len(),
                kt@.len() >= tkp * 64,
                forall|c: usize, j: usize|
                    c < 64 && j < tk ==> #[trigger] call_requires(get, (c, j)),
                forall|d: usize, i: usize|
                    #![trigger key_cell(kt@, i as int, d as int)]
                    d < 64 && (i < j || i == j && d < c) ==> gives(
                        get,
                        d,
                        i,
                        key_cell(kt@, i as int, d as int),
                    ),
                forall|i: int| tkp * 64 <= i < kt@.len() ==> #[trigger] kt@[i] == start[i],
            decreases 64 - c,
        {
            let x: i8 = get(c, j);
            let ghost before = kt@;
            kt[64 * j + c] = x as i16;
            assert forall|d: usize, i: usize|
                #![trigger key_cell(kt@, i as int, d as int)]
                d < 64 && (i < j || i == j && d < c + 1) implies gives(
                get,
                d,
                i,
                key_cell(kt@, i as int, d as int),
            ) by {
                if i == j && d == c {
                    assert(call_ensures(get, (d, i), x) && key_cell(kt@, i as int, d as int) == x);
                } else {
                    assert(key_cell(kt@, i as int, d as int) == key_cell(
                        before,
                        i as int,
                        d as int,
                    ));
                }
            }
            c = c + 1;
        }
        j = j + 1;
    }
    let ghost mid = kt@;
    let mut z: usize = 64 * tk;
    while z < 64 * tkp
        invariant
            64 * tk <= z <= 64 * tkp,
            tkp <= MAX_KEYS,
            kt@.len() == start.len(),
            mid.len() == start.len(),
            kt@.len() >= tkp * 64,
            forall|i: int|
                0 <= i < kt@.len() ==> #[trigger] kt@[i] == if 64 * tk <= i < z {
                    0
                } else {
                    mid[i]
                },
        decreases 64 * tkp - z,
    {
        kt[z] = 0;
        z = z + 1;
    }
    assert forall|c: usize, j: usize|
        #![trigger key_cell(kt@, j as int, c as int)]
        c < 64 && j < tk implies gives(get, c, j, key_cell(kt@, j as int, c as int)) by {
        assert(key_cell(kt@, j as int, c as int) == key_cell(mid, j as int, c as int));
    }
}

/// Fills `v16` from any int8 value layout through `get(channel, key)`.
pub fn attn_prepare_v16<F: Fn(usize, usize) -> i8>(get: F, tk: usize, v16: &mut [i16])
    requires
        1 <= tk,
        padded(tk as int) <= MAX_KEYS,
        old(v16)@.len() >= KV16_LEN,
        forall|c: usize, j: usize| c < 64 && j < tk ==> #[trigger] call_requires(get, (c, j)),
    ensures
        final(v16)@.len() == old(v16)@.len(),
        forall|c: usize, j: usize|
            #![trigger value_cell(final(v16)@, c as int, j as int)]
            c < 64 && j < tk ==> gives(get, c, j, value_cell(final(v16)@, c as int, j as int)),
        forall|c: int, j: int|
            #![trigger value_cell(final(v16)@, c, j)]
            0 <= c < 64 && tk <= j < padded(tk as int) ==> value_cell(final(v16)@, c, j) == 0,
        forall|c: int, j: int|
            #![trigger value_cell(final(v16)@, c, j)]
            0 <= c < 64 && padded(tk as int) <= j < 640 ==> value_cell(final(v16)@, c, j)
                == value_cell(old(v16)@, c, j),
        forall|i: int|
            KV16_LEN <= i < final(v16)@.len() ==> #[trigger] final(v16)@[i] == old(v16)@[i],
{
    let tkp: usize = keys_padded(tk);
    let ghost start = v16@;
    let mut c: usize = 0;
    while c < 64
        invariant
            c <= 64,
            1 <= tk <= tkp <= MAX_KEYS,
            tkp == padded(tk as int),
            v16@.len() == start.len(),
            v16@.len() >= KV16_LEN,
            forall|c: usize, j: usize| c < 64 && j < tk ==> #[trigger] call_requires(get, (c, j)),
            forall|d: usize, j: usize|
                #![trigger value_cell(v16@, d as int, j as int)]
                d < c && j < tk ==> gives(get, d, j, value_cell(v16@, d as int, j as int)),
            forall|d: int, j: int|
                #![trigger value_cell(v16@, d, j)]
                0 <= d < c && tk <= j < tkp ==> value_cell(v16@, d, j) == 0,
            forall|d: int, j: int|
                #![trigger value_cell(v16@, d, j)]
                0 <= d < 64 && tkp <= j < 640 ==> value_cell(v16@, d, j) == value_cell(start, d, j),
            forall|i: int| KV16_LEN <= i < v16@.len() ==> #[trigger] v16@[i] == start[i],
        decreases 64 - c,
    {
        let mut j: usize = 0;
        while j < tkp
            invariant
                c < 64,
                j <= tkp,
                1 <= tk <= tkp <= MAX_KEYS,
                tkp == padded(tk as int),
                v16@.len() == start.len(),
                v16@.len() >= KV16_LEN,
                forall|c: usize, j: usize|
                    c < 64 && j < tk ==> #[trigger] call_requires(get, (c, j)),
                forall|d: usize, i: usize|
                    #![trigger value_cell(v16@, d as int, i as int)]
                    (d < c && i < tk || d == c && i < tk && i < j) ==> gives(
                        get,
                        d,
                        i,
                        value_cell(v16@, d as int, i as int),
                    ),
                forall|d: int, i: int|
                    #![trigger value_cell(v16@, d, i)]
                    tk <= i < tkp && (0 <= d < c || d == c && i < j) ==> value_cell(v16@, d, i)
                        == 0,
                forall|d: int, i: int|
                    #![trigger value_cell(v16@, d, i)]
                    0 <= d < 64 && tkp <= i < 640 ==> value_cell(v16@, d, i) == value_cell(
                        start,
                        d,
                        i,
                    ),
                forall|i: int| KV16_LEN <= i < v16@.len() ==> #[trigger] v16@[i] == start[i],
            decreases tkp - j,
        {
            let ghost before = v16@;
            if j < tk {
                let x: i8 = get(c, j);
                v16[640 * c + j] = x as i16;
                assert forall|d: usize, i: usize|
                    #![trigger value_cell(v16@, d as int, i as int)]
                    (d < c && i < tk || d == c && i < tk && i < j + 1) implies gives(
                    get,
                    d,
                    i,
                    value_cell(v16@, d as int, i as int),
                ) by {
                    if d == c && i == j {
                        assert(call_ensures(get, (d, i), x));
                        assert(value_cell(v16@, d as int, i as int) == x);
                    } else {
                        assert(value_cell(v16@, d as int, i as int) == value_cell(
                            before,
                            d as int,
                            i as int,
                        ));
                    }
                }
            } else {
                v16[640 * c + j] = 0;
                assert forall|d: usize, i: usize|
                    #![trigger value_cell(v16@, d as int, i as int)]
                    (d < c && i < tk || d == c && i < tk && i < j + 1) implies gives(
                    get,
                    d,
                    i,
                    value_cell(v16@, d as int, i as int),
                ) by {
                    assert(value_cell(v16@, d as int, i as int) == value_cell(
                        before,
                        d as int,
                        i as int,
                    ));
                }
            }
            assert forall|d: int, i: int|
                #![trigger value_cell(v16@, d, i)]
                0 <= d < 64 && 0 <= i < 640 && !(d == c && i == j) implies value_cell(v16@, d, i)
                == value_cell(before, d, i) by {
                assert(640 * d + i != 640 * c + j);
            }
            j = j + 1;
        }
        c = c + 1;
    }
}

/// Keys are padded to the next multiple of eight.
pub proof fn law_keys_are_padded_to_eights(tk: int)
    requires
        0 <= tk,
    ensures
        padded(tk) % 8 == 0,
        tk <= padded(tk) < tk + 8,
{
}

/// Clamping keeps what is in range and moves what is not to the nearer end.
pub proof fn law_clamping_moves_to_the_nearer_end(x: int, lo: int, hi: int)
    requires
        lo <= hi,
    ensures
        lo <= clamped(x, lo, hi) <= hi,
        lo <= x <= hi ==> clamped(x, lo, hi) == x,
        x < lo ==> clamped(x, lo, hi) == lo,
        x > hi ==> clamped(x, lo, hi) == hi,
{
}

} // verus!
