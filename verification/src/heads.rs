//! Whole attention heads, around a softmax and a requantisation that the
//! caller gives: both are floating-point, and only their types matter here.
//!
//! A head takes the scores of each query, makes a row of probabilities of
//! them, and writes the code of every channel's context into the query's
//! column. The three forms differ in the layout of keys and values alone.

use crate::attention::{
    attn_context_kt, attn_context_x1, attn_scores_kt, attn_scores_x1, context16, context_staged,
    is_widened, law_kt_contexts_are_the_contexts, law_kt_scores_are_the_scores,
    law_x1_contexts_are_the_contexts, law_x1_scores_are_the_scores, score_k8, score_kt, staged,
};
use crate::dsp::ROW2;
use crate::kernels::{
    attn_context, attn_scores, context, is_prob_row, key_cell, padded, score, AttnKv, HD64,
    KV16_LEN, MAX_KEYS,
};
use crate::sums::{law_contexts_sum_products, law_scores_sum_products, sum};
use vstd::prelude::*;

verus! {

// --- what the caller gives --------------------------------------------------------------

/// Makes a row of `tk` probabilities of any `tk` scores.
pub open spec fn makes_rows<R: Fn(Vec<i32>) -> Vec<i16>>(row: R, tk: int) -> bool {
    &&& forall|s: Vec<i32>| s@.len() == tk ==> #[trigger] call_requires(row, (s,))
    &&& forall|s: Vec<i32>, p: Vec<i16>|
        s@.len() == tk && #[trigger] call_ensures(row, (s,), p) ==> p@.len() == tk && is_prob_row(
            p@,
            tk,
        )
}

/// Makes a code of any context.
pub open spec fn makes_codes<C: Fn(i32) -> i8>(code: C) -> bool {
    forall|x: i32| #[trigger] call_requires(code, (x,))
}

/// The row function computes `f`.
pub open spec fn row_is<R: Fn(Vec<i32>) -> Vec<i16>>(
    row: R,
    f: spec_fn(Seq<i32>) -> Seq<i16>,
) -> bool {
    forall|s: Vec<i32>, p: Vec<i16>| #[trigger] call_ensures(row, (s,), p) ==> p@ == f(s@)
}

/// The code function computes `g`.
pub open spec fn code_is<C: Fn(i32) -> i8>(code: C, g: spec_fn(i32) -> i8) -> bool {
    forall|x: i32, c: i8| #[trigger] call_ensures(code, (x,), c) ==> c == g(x)
}

// --- the cells that a head writes -------------------------------------------------------

/// Cell `x` of a context is channel `x / qstride` of query `x % qstride`.
pub open spec fn is_cell(qstride: int, hd: int, n: int, x: int) -> bool {
    x % qstride < n && x / qstride < hd
}

/// A context with the first `n` queries written.
pub open spec fn head_after(
    ctx: Seq<i8>,
    qstride: int,
    hd: int,
    codes: spec_fn(int, int) -> i8,
    n: int,
) -> Seq<i8> {
    Seq::new(
        ctx.len(),
        |x: int|
            if is_cell(qstride, hd, n, x) {
                codes(x % qstride, x / qstride)
            } else {
                ctx[x]
            },
    )
}

proof fn lemma_cell(c: int, qi: int, qstride: int)
    by (nonlinear_arith)
    requires
        0 <= c,
        0 <= qi < qstride,
    ensures
        0 <= c * qstride,
        (c * qstride + qi) % qstride == qi,
        (c * qstride + qi) / qstride == c,
{
}

proof fn lemma_cell_back(x: int, qstride: int)
    by (nonlinear_arith)
    requires
        0 <= x,
        0 < qstride,
    ensures
        0 <= x % qstride < qstride,
        0 <= x / qstride,
        x / qstride * qstride + x % qstride == x,
{
}

proof fn lemma_row_below(c: int, hd: int, qstride: int)
    by (nonlinear_arith)
    requires
        0 <= c < hd,
        0 <= qstride,
    ensures
        0 <= c * qstride <= (hd - 1) * qstride,
{
}

/// Writes the codes of a query's contexts into its column.
fn put_query<C: Fn(i32) -> i8>(
    code: &C,
    sums: &Vec<i32>,
    hd: usize,
    qi: usize,
    qstride: usize,
    ctx: &mut [i8],
)
    requires
        makes_codes(*code),
        1 <= hd == sums@.len(),
        qi < qstride,
        (hd - 1) * qstride + qi < old(ctx)@.len(),
    ensures
        final(ctx)@.len() == old(ctx)@.len(),
        forall|x: int|
            0 <= x < final(ctx)@.len() && x % (qstride as int) == qi && x / (qstride as int) < hd
                ==> call_ensures(
                *code,
                (sums@[x / (qstride as int)],),
                #[trigger] final(ctx)@[x],
            ),
        forall|x: int|
            0 <= x < final(ctx)@.len() && !(x % (qstride as int) == qi && x / (qstride as int)
                < hd) ==> #[trigger] final(ctx)@[x] == old(ctx)@[x],
{
    let ghost start = ctx@;
    let total: usize = ctx.len();
    let mut c: usize = 0;
    while c < hd
        invariant
            c <= hd,
            makes_codes(*code),
            hd == sums@.len(),
            qi < qstride,
            (hd - 1) * qstride + qi < total,
            ctx@.len() == total,
            start.len() == total,
            forall|x: int|
                0 <= x < total && x % (qstride as int) == qi && x / (qstride as int) < c
                    ==> call_ensures(*code, (sums@[x / (qstride as int)],), #[trigger] ctx@[x]),
            forall|x: int|
                0 <= x < total && !(x % (qstride as int) == qi && x / (qstride as int) < c)
                    ==> #[trigger] ctx@[x] == start[x],
        decreases hd - c,
    {
        proof {
            lemma_row_below(c as int, hd as int, qstride as int);
            lemma_cell(c as int, qi as int, qstride as int);
        }
        let ghost before = ctx@;
        let at: usize = c * qstride + qi;
        let v: i8 = code(sums[c]);
        ctx[at] = v;
        assert forall|x: int|
            0 <= x < total && x % (qstride as int) == qi && x / (qstride as int) < c
                + 1 implies call_ensures(
            *code,
            (sums@[x / (qstride as int)],),
            #[trigger] ctx@[x],
        ) by {
            lemma_cell_back(x, qstride as int);
            if x != at {
                assert(ctx@[x] == before[x]);
            }
        }
        assert forall|x: int|
            0 <= x < total && !(x % (qstride as int) == qi && x / (qstride as int) < c
                + 1) implies #[trigger] ctx@[x] == start[x] by {
            assert(x != at);
            assert(ctx@[x] == before[x]);
        }
        c = c + 1;
    }
}

/// What a query's column holds afterwards, if the code function computes `g`.
proof fn lemma_query_put<C: Fn(i32) -> i8>(
    code: C,
    g: spec_fn(i32) -> i8,
    start: Seq<i8>,
    before: Seq<i8>,
    after: Seq<i8>,
    sums: Seq<i32>,
    qstride: int,
    hd: int,
    codes: spec_fn(int, int) -> i8,
    qi: int,
)
    requires
        code_is(code, g),
        0 <= qi < qstride,
        before == head_after(start, qstride, hd, codes, qi),
        after.len() == before.len(),
        forall|x: int|
            0 <= x < after.len() && x % qstride == qi && x / qstride < hd ==> call_ensures(
                code,
                (sums[x / qstride],),
                #[trigger] after[x],
            ),
        forall|x: int|
            0 <= x < after.len() && !(x % qstride == qi && x / qstride < hd)
                ==> #[trigger] after[x] == before[x],
        forall|c: int| 0 <= c < hd ==> #[trigger] g(sums[c]) == codes(qi, c),
    ensures
        after == head_after(start, qstride, hd, codes, qi + 1),
{
    assert forall|x: int| 0 <= x < after.len() implies after[x] == head_after(
        start,
        qstride,
        hd,
        codes,
        qi + 1,
    )[x] by {
        lemma_cell_back(x, qstride);
        if x % qstride == qi && x / qstride < hd {
            assert(call_ensures(code, (sums[x / qstride],), after[x]));
            assert(g(sums[x / qstride]) == codes(qi, x / qstride));
        } else {
            assert(after[x] == before[x]);
        }
    }
    assert(after =~= head_after(start, qstride, hd, codes, qi + 1));
}

// --- planar keys and values -------------------------------------------------------------

/// A head on planar keys and values.
pub struct Planar {
    pub q: Seq<i8>,
    pub qstride: int,
    pub k: Seq<i8>,
    pub v: Seq<i8>,
    pub kstride: int,
    pub hd: int,
    pub tk: int,
    pub zq: int,
    pub zk: int,
    pub zv: int,
}

/// The scores of query `qi`.
pub open spec fn planar_scores(h: Planar, qi: int) -> Seq<i32> {
    Seq::new(
        h.tk as nat,
        |j: int| score(h.q, h.qstride, qi, h.zq, h.k, h.kstride, j, h.zk, h.hd) as i32,
    )
}

/// The code of channel `c` of query `qi`.
pub open spec fn planar_code(
    h: Planar,
    f: spec_fn(Seq<i32>) -> Seq<i16>,
    g: spec_fn(i32) -> i8,
    qi: int,
    c: int,
) -> i8 {
    g(context(f(planar_scores(h, qi)), h.v, c * h.kstride, h.zv, h.tk) as i32)
}

/// One head of `hd` channels and `wq` queries on planar int8 keys and values.
pub fn attn_head<R: Fn(Vec<i32>) -> Vec<i16>, C: Fn(i32) -> i8>(
    q: &[i8],
    k: &[i8],
    v: &[i8],
    ctx: &mut [i8],
    hd: usize,
    wq: usize,
    qstride: usize,
    tk: usize,
    kstride: usize,
    zq: i32,
    zk: i32,
    zv: i32,
    row: R,
    code: C,
)
    requires
        1 <= hd <= 32768,
        tk <= MAX_KEYS,
        tk <= kstride,
        wq <= qstride,
        1 <= qstride,
        -128 <= zq <= 127,
        -128 <= zk <= 127,
        -128 <= zv <= 127,
        (hd - 1) * qstride + wq <= q@.len(),
        (hd - 1) * qstride + wq <= old(ctx)@.len(),
        (hd - 1) * kstride + tk <= k@.len(),
        (hd - 1) * kstride + tk <= v@.len(),
        makes_rows(row, tk as int),
        makes_codes(code),
    ensures
        final(ctx)@.len() == old(ctx)@.len(),
        forall|f: spec_fn(Seq<i32>) -> Seq<i16>, g: spec_fn(i32) -> i8|
            #[trigger] row_is(row, f) && #[trigger] code_is(code, g) ==> final(ctx)@
                == head_after(
                old(ctx)@,
                qstride as int,
                hd as int,
                |qi: int, c: int|
                    planar_code(
                        Planar {
                            q: q@,
                            qstride: qstride as int,
                            k: k@,
                            v: v@,
                            kstride: kstride as int,
                            hd: hd as int,
                            tk: tk as int,
                            zq: zq as int,
                            zk: zk as int,
                            zv: zv as int,
                        },
                        f,
                        g,
                        qi,
                        c,
                    ),
                wq as int,
            ),
        forall|x: int|
            0 <= x < final(ctx)@.len() && !is_cell(qstride as int, hd as int, wq as int, x)
                ==> #[trigger] final(ctx)@[x] == old(ctx)@[x],
{
    let ghost start = ctx@;
    let ghost h = Planar {
        q: q@,
        qstride: qstride as int,
        k: k@,
        v: v@,
        kstride: kstride as int,
        hd: hd as int,
        tk: tk as int,
        zq: zq as int,
        zk: zk as int,
        zv: zv as int,
    };
    let mut qi: usize = 0;
    proof {
        assert forall|f: spec_fn(Seq<i32>) -> Seq<i16>, g: spec_fn(i32) -> i8|
            #[trigger] row_is(row, f) && #[trigger] code_is(code, g) implies ctx@ == head_after(
            start,
            qstride as int,
            hd as int,
            |qi: int, c: int| planar_code(h, f, g, qi, c),
            0,
        ) by {
            lemma_nothing_written(start, qstride as int, hd as int, |qi: int, c: int|
                planar_code(h, f, g, qi, c));
        }
    }
    while qi < wq
        invariant
            qi <= wq <= qstride,
            1 <= hd <= 32768,
            tk <= MAX_KEYS,
            tk <= kstride,
            -128 <= zq <= 127,
            -128 <= zk <= 127,
            -128 <= zv <= 127,
            (hd - 1) * qstride + wq <= q@.len(),
            (hd - 1) * qstride + wq <= ctx@.len(),
            (hd - 1) * kstride + tk <= k@.len(),
            (hd - 1) * kstride + tk <= v@.len(),
            makes_rows(row, tk as int),
            makes_codes(code),
            ctx@.len() == start.len(),
            h == (Planar {
                q: q@,
                qstride: qstride as int,
                k: k@,
                v: v@,
                kstride: kstride as int,
                hd: hd as int,
                tk: tk as int,
                zq: zq as int,
                zk: zk as int,
                zv: zv as int,
            }),
            forall|f: spec_fn(Seq<i32>) -> Seq<i16>, g: spec_fn(i32) -> i8|
                #[trigger] row_is(row, f) && #[trigger] code_is(code, g) ==> ctx@ == head_after(
                    start,
                    qstride as int,
                    hd as int,
                    |qi: int, c: int| planar_code(h, f, g, qi, c),
                    qi as int,
                ),
            forall|x: int|
                0 <= x < ctx@.len() && !is_cell(qstride as int, hd as int, qi as int, x)
                    ==> #[trigger] ctx@[x] == start[x],
        decreases wq - qi,
    {
        let s = attn_scores(q, k, hd, qi, qstride, tk, kstride, zq, zk);
        assert(s@ =~= planar_scores(h, qi as int));
        let p = row(s);
        let sums = attn_context(p.as_slice(), v, hd, tk, kstride, zv);
        let ghost before = ctx@;
        put_query(&code, &sums, hd, qi, qstride, ctx);
        assert forall|f: spec_fn(Seq<i32>) -> Seq<i16>, g: spec_fn(i32) -> i8|
            #[trigger] row_is(row, f) && #[trigger] code_is(code, g) implies ctx@ == head_after(
            start,
            qstride as int,
            hd as int,
            |qi: int, c: int| planar_code(h, f, g, qi, c),
            qi + 1,
        ) by {
            let codes = |qi: int, c: int| planar_code(h, f, g, qi, c);
            assert(p@ == f(planar_scores(h, qi as int)));
            assert forall|c: int| 0 <= c < hd implies #[trigger] g(sums@[c]) == codes(
                qi as int,
                c,
            ) by {
                assert(sums@[c] == context(p@, v@, c * kstride, zv as int, tk as int));
            }
            lemma_query_put(
                code,
                g,
                start,
                before,
                ctx@,
                sums@,
                qstride as int,
                hd as int,
                codes,
                qi as int,
            );
        }
        assert forall|x: int|
            0 <= x < ctx@.len() && !is_cell(
                qstride as int,
                hd as int,
                qi + 1,
                x,
            ) implies #[trigger] ctx@[x] == start[x] by {
            assert(ctx@[x] == before[x]);
        }
        qi = qi + 1;
    }
}

proof fn lemma_nothing_written(
    ctx: Seq<i8>,
    qstride: int,
    hd: int,
    codes: spec_fn(int, int) -> i8,
)
    requires
        0 < qstride,
    ensures
        ctx == head_after(ctx, qstride, hd, codes, 0),
{
    assert forall|x: int| 0 <= x < ctx.len() implies ctx[x] == head_after(
        ctx,
        qstride,
        hd,
        codes,
        0,
    )[x] by {
        lemma_cell_back(x, qstride);
    }
    assert(ctx =~= head_after(ctx, qstride, hd, codes, 0));
}

// --- key-major keys and widened values --------------------------------------------------

/// A head on keys and values that were prepared for two queries at a time.
pub struct Prepared {
    pub q: Seq<i8>,
    pub qstride: int,
    pub kt: Seq<i16>,
    pub v16: Seq<i16>,
    pub tk: int,
    pub zq: int,
    pub zk: int,
    pub zv: int,
}

pub open spec fn kt_scores(h: Prepared, qi: int) -> Seq<i32> {
    Seq::new(
        h.tk as nat,
        |j: int| score_kt(h.q, h.qstride, qi, h.zq, h.kt, j, h.zk, 64) as i32,
    )
}

/// The code of channel `c` of query `qi`.
pub open spec fn kt_code(
    h: Prepared,
    f: spec_fn(Seq<i32>) -> Seq<i16>,
    g: spec_fn(i32) -> i8,
    qi: int,
    c: int,
) -> i8 {
    g(context16(f(kt_scores(h, qi)), 0, h.v16, 640 * c, h.zv, h.tk) as i32)
}

/// A context looks at no more of a probability row than its keys.
proof fn lemma_context_of_row(a: Seq<i16>, b: Seq<i16>, v: Seq<i16>, vo: int, zv: int, n: int)
    requires
        forall|j: int| 0 <= j < n ==> #[trigger] a[j] == b[j],
    ensures
        context16(a, 0, v, vo, zv, n) == context16(b, 0, v, vo, zv, n),
    decreases n,
{
    if n > 0 {
        lemma_context_of_row(a, b, v, vo, zv, n - 1);
        assert(a[n - 1] == b[n - 1]);
    }
}

/// Appends a row and fills up to `ROW2`.
fn push_row(p: &mut Vec<i16>, row: &Vec<i16>)
    requires
        row@.len() <= ROW2,
        old(p)@.len() <= ROW2,
    ensures
        final(p)@.len() == old(p)@.len() + ROW2,
        forall|i: int| 0 <= i < old(p)@.len() ==> #[trigger] final(p)@[i] == old(p)@[i],
        forall|j: int|
            0 <= j < ROW2 ==> #[trigger] final(p)@[old(p)@.len() + j] == (if j < row@.len() {
                row@[j]
            } else {
                0
            }),
{
    let ghost start = p@;
    let mut j: usize = 0;
    while j < ROW2
        invariant
            j <= ROW2,
            row@.len() <= ROW2,
            p@.len() == start.len() + j,
            forall|i: int| 0 <= i < start.len() ==> #[trigger] p@[i] == start[i],
            forall|i: int|
                0 <= i < j ==> #[trigger] p@[start.len() + i] == (if i < row@.len() {
                    row@[i]
                } else {
                    0
                }),
        decreases ROW2 - j,
    {
        if j < row.len() {
            p.push(row[j]);
        } else {
            p.push(0);
        }
        j = j + 1;
    }
}

/// Two rows of probabilities as the value kernel wants them.
fn two_rows(a: &Vec<i16>, b: &Vec<i16>, tk: usize) -> (p: Vec<i16>)
    requires
        1 <= tk,
        padded(tk as int) <= MAX_KEYS,
        a@.len() == tk,
        b@.len() == tk,
        is_prob_row(a@, tk as int),
        is_prob_row(b@, tk as int),
    ensures
        crate::attention::are_prob_rows(p@, tk as int),
        forall|j: int| 0 <= j < tk ==> #[trigger] p@[j] == a@[j],
        forall|j: int| 0 <= j < tk ==> #[trigger] p@.skip(ROW2 as int)[j] == b@[j],
{
    let mut p: Vec<i16> = Vec::new();
    push_row(&mut p, a);
    let ghost one = p@;
    assert forall|j: int| 0 <= j < ROW2 implies one[j] == (if j < tk {
        a@[j]
    } else {
        0
    }) by {
        assert(one[0 + j] == (if j < a@.len() {
            a@[j]
        } else {
            0
        }));
    }
    push_row(&mut p, b);
    assert forall|j: int| 0 <= j < ROW2 implies p@[ROW2 + j] == (if j < tk {
        b@[j]
    } else {
        0
    }) by {
        assert(p@[one.len() + j] == (if j < b@.len() {
            b@[j]
        } else {
            0
        }));
    }
    assert forall|j: int| 0 <= j < tk implies 0 <= #[trigger] p@[j] <= 255 by {
        assert(0 <= a@[j] <= 255);
    }
    assert forall|j: int| 0 <= j < tk implies 0 <= #[trigger] p@.skip(ROW2 as int)[j] <= 255 by {
        assert(0 <= b@[j] <= 255);
    }
    p
}

/// One head of 64 channels on prepared keys and values, two queries at a
/// time.
pub fn attn_head_kt<R: Fn(Vec<i32>) -> Vec<i16>, C: Fn(i32) -> i8>(
    q: &[i8],
    kv: &AttnKv,
    ctx: &mut [i8],
    wq: usize,
    qstride: usize,
    zq: i32,
    zk: i32,
    zv: i32,
    row: R,
    code: C,
)
    requires
        1 <= kv.tk,
        padded(kv.tk as int) <= MAX_KEYS,
        kv.kt@.len() >= 64 * padded(kv.tk as int),
        is_widened(kv.kt@, 64 * padded(kv.tk as int)),
        kv.v16@.len() >= KV16_LEN,
        is_widened(kv.v16@, KV16_LEN as int),
        wq <= qstride,
        1 <= qstride,
        -128 <= zq <= 127,
        -128 <= zk <= 127,
        -128 <= zv <= 127,
        63 * qstride + wq <= q@.len(),
        63 * qstride + wq <= old(ctx)@.len(),
        makes_rows(row, kv.tk as int),
        makes_codes(code),
    ensures
        final(ctx)@.len() == old(ctx)@.len(),
        forall|f: spec_fn(Seq<i32>) -> Seq<i16>, g: spec_fn(i32) -> i8|
            #[trigger] row_is(row, f) && #[trigger] code_is(code, g) ==> final(ctx)@
                == head_after(
                old(ctx)@,
                qstride as int,
                64,
                |qi: int, c: int|
                    kt_code(
                        Prepared {
                            q: q@,
                            qstride: qstride as int,
                            kt: kv.kt@,
                            v16: kv.v16@,
                            tk: kv.tk as int,
                            zq: zq as int,
                            zk: zk as int,
                            zv: zv as int,
                        },
                        f,
                        g,
                        qi,
                        c,
                    ),
                wq as int,
            ),
        forall|x: int|
            0 <= x < final(ctx)@.len() && !is_cell(qstride as int, 64, wq as int, x)
                ==> #[trigger] final(ctx)@[x] == old(ctx)@[x],
{
    let ghost start = ctx@;
    let tk: usize = kv.tk;
    let ghost h = Prepared {
        q: q@,
        qstride: qstride as int,
        kt: kv.kt@,
        v16: kv.v16@,
        tk: kv.tk as int,
        zq: zq as int,
        zk: zk as int,
        zv: zv as int,
    };
    let mut qi: usize = 0;
    proof {
        assert forall|f: spec_fn(Seq<i32>) -> Seq<i16>, g: spec_fn(i32) -> i8|
            #[trigger] row_is(row, f) && #[trigger] code_is(code, g) implies ctx@ == head_after(
            start,
            qstride as int,
            64,
            |qi: int, c: int| kt_code(h, f, g, qi, c),
            0,
        ) by {
            lemma_nothing_written(start, qstride as int, 64, |qi: int, c: int|
                kt_code(h, f, g, qi, c));
        }
    }
    while qi < wq
        invariant
            qi <= wq <= qstride,
            tk == kv.tk,
            1 <= kv.tk,
            padded(kv.tk as int) <= MAX_KEYS,
            kv.kt@.len() >= 64 * padded(kv.tk as int),
            is_widened(kv.kt@, 64 * padded(kv.tk as int)),
            kv.v16@.len() >= KV16_LEN,
            is_widened(kv.v16@, KV16_LEN as int),
            -128 <= zq <= 127,
            -128 <= zk <= 127,
            -128 <= zv <= 127,
            63 * qstride + wq <= q@.len(),
            63 * qstride + wq <= ctx@.len(),
            makes_rows(row, kv.tk as int),
            makes_codes(code),
            ctx@.len() == start.len(),
            h == (Prepared {
                q: q@,
                qstride: qstride as int,
                kt: kv.kt@,
                v16: kv.v16@,
                tk: kv.tk as int,
                zq: zq as int,
                zk: zk as int,
                zv: zv as int,
            }),
            forall|f: spec_fn(Seq<i32>) -> Seq<i16>, g: spec_fn(i32) -> i8|
                #[trigger] row_is(row, f) && #[trigger] code_is(code, g) ==> ctx@ == head_after(
                    start,
                    qstride as int,
                    64,
                    |qi: int, c: int| kt_code(h, f, g, qi, c),
                    qi as int,
                ),
            forall|x: int|
                0 <= x < ctx@.len() && !is_cell(qstride as int, 64, qi as int, x)
                    ==> #[trigger] ctx@[x] == start[x],
        decreases wq - qi,
    {
        let two: bool = qi + 1 < wq;
        let (a, b) = attn_scores_kt(q, kv, qi, two, qstride, zq, zk);
        assert(a@ =~= kt_scores(h, qi as int));
        assert(two ==> b@ =~= kt_scores(h, qi + 1));
        let pa = row(a);
        let pb = row(b);
        let p = two_rows(&pa, &pb, tk);
        let (sa, sb) = attn_context_kt(p.as_slice(), kv, zv);
        let ghost before = ctx@;
        put_query(&code, &sa, HD64, qi, qstride, ctx);
        assert forall|f: spec_fn(Seq<i32>) -> Seq<i16>, g: spec_fn(i32) -> i8|
            #[trigger] row_is(row, f) && #[trigger] code_is(code, g) implies ctx@ == head_after(
            start,
            qstride as int,
            64,
            |qi: int, c: int| kt_code(h, f, g, qi, c),
            qi + 1,
        ) by {
            let codes = |qi: int, c: int| kt_code(h, f, g, qi, c);
            assert(pa@ == f(kt_scores(h, qi as int)));
            assert forall|c: int| 0 <= c < 64 implies #[trigger] g(sa@[c]) == codes(
                qi as int,
                c,
            ) by {
                lemma_context_of_row(p@, pa@, kv.v16@, 640 * c, zv as int, tk as int);
                assert(sa@[c] == context16(p@, 0, kv.v16@, 640 * c, zv as int, tk as int));
            }
            lemma_query_put(
                code,
                g,
                start,
                before,
                ctx@,
                sa@,
                qstride as int,
                64,
                codes,
                qi as int,
            );
        }
        assert forall|x: int|
            0 <= x < ctx@.len() && !is_cell(
                qstride as int,
                64,
                qi + 1,
                x,
            ) implies #[trigger] ctx@[x] == start[x] by {
            assert(ctx@[x] == before[x]);
        }
        qi = qi + 1;
        if two {
            let ghost before = ctx@;
            put_query(&code, &sb, HD64, qi, qstride, ctx);
            assert forall|f: spec_fn(Seq<i32>) -> Seq<i16>, g: spec_fn(i32) -> i8|
                #[trigger] row_is(row, f) && #[trigger] code_is(code, g) implies ctx@
                == head_after(
                start,
                qstride as int,
                64,
                |qi: int, c: int| kt_code(h, f, g, qi, c),
                qi + 1,
            ) by {
                let codes = |qi: int, c: int| kt_code(h, f, g, qi, c);
                let second = p@.skip(ROW2 as int);
                assert(pb@ == f(kt_scores(h, qi as int)));
                assert forall|c: int| 0 <= c < 64 implies #[trigger] g(sb@[c]) == codes(
                    qi as int,
                    c,
                ) by {
                    lemma_context_of_row(second, pb@, kv.v16@, 640 * c, zv as int, tk as int);
                    assert(sb@[c] == context16(
                        second,
                        0,
                        kv.v16@,
                        640 * c,
                        zv as int,
                        tk as int,
                    ));
                }
                lemma_query_put(
                    code,
                    g,
                    start,
                    before,
                    ctx@,
                    sb@,
                    qstride as int,
                    64,
                    codes,
                    qi as int,
                );
            }
            assert forall|x: int|
                0 <= x < ctx@.len() && !is_cell(
                    qstride as int,
                    64,
                    qi + 1,
                    x,
                ) implies #[trigger] ctx@[x] == start[x] by {
                assert(ctx@[x] == before[x]);
            }
            qi = qi + 1;
        }
    }
}

// --- one query on int8 layouts ----------------------------------------------------------

/// A head of one query on key-major int8 keys and tiled int8 values.
pub struct Staged {
    pub q: Seq<i8>,
    pub qstride: int,
    pub keys: Seq<i8>,
    pub tiles: Seq<i8>,
    pub tk: int,
    pub zq: int,
    pub zk: int,
    pub zv: int,
}

pub open spec fn x1_scores(h: Staged) -> Seq<i32> {
    Seq::new(
        h.tk as nat,
        |j: int| score_k8(h.q, h.qstride, h.zq, h.keys, j, h.zk, 64) as i32,
    )
}

/// The code of channel `c`.
pub open spec fn x1_code(
    h: Staged,
    f: spec_fn(Seq<i32>) -> Seq<i16>,
    g: spec_fn(i32) -> i8,
    c: int,
) -> i8 {
    g(context_staged(f(x1_scores(h)), h.tiles, c, h.zv, h.tk) as i32)
}

/// One head of the query in column 0 on key-major int8 keys and tiled int8
/// values.
pub fn attn_head_x1_i8<R: Fn(Vec<i32>) -> Vec<i16>, C: Fn(i32) -> i8>(
    q: &[i8],
    keys: &[i8],
    tiles: &[i8],
    tk: usize,
    ctx: &mut [i8],
    qstride: usize,
    zq: i32,
    zk: i32,
    zv: i32,
    row: R,
    code: C,
)
    requires
        1 <= tk,
        padded(tk as int) <= MAX_KEYS,
        keys@.len() >= 64 * padded(tk as int),
        tiles@.len() >= (tk + 63) / 64 * 4096,
        1 <= qstride,
        -128 <= zq <= 127,
        -128 <= zk <= 127,
        -128 <= zv <= 127,
        63 * qstride < q@.len(),
        63 * qstride < old(ctx)@.len(),
        makes_rows(row, tk as int),
        makes_codes(code),
    ensures
        final(ctx)@.len() == old(ctx)@.len(),
        forall|f: spec_fn(Seq<i32>) -> Seq<i16>, g: spec_fn(i32) -> i8|
            #[trigger] row_is(row, f) && #[trigger] code_is(code, g) ==> final(ctx)@
                == head_after(
                old(ctx)@,
                qstride as int,
                64,
                |qi: int, c: int|
                    x1_code(
                        Staged {
                            q: q@,
                            qstride: qstride as int,
                            keys: keys@,
                            tiles: tiles@,
                            tk: tk as int,
                            zq: zq as int,
                            zk: zk as int,
                            zv: zv as int,
                        },
                        f,
                        g,
                        c,
                    ),
                1,
            ),
        forall|x: int|
            0 <= x < final(ctx)@.len() && !is_cell(qstride as int, 64, 1, x)
                ==> #[trigger] final(ctx)@[x] == old(ctx)@[x],
{
    let ghost start = ctx@;
    let ghost h = Staged {
        q: q@,
        qstride: qstride as int,
        keys: keys@,
        tiles: tiles@,
        tk: tk as int,
        zq: zq as int,
        zk: zk as int,
        zv: zv as int,
    };
    let s = attn_scores_x1(q, keys, tk, qstride, zq, zk);
    assert(s@ =~= x1_scores(h));
    let p = row(s);
    let sums = attn_context_x1(p.as_slice(), tiles, tk, zv);
    put_query(&code, &sums, HD64, 0, qstride, ctx);
    assert forall|f: spec_fn(Seq<i32>) -> Seq<i16>, g: spec_fn(i32) -> i8|
        #[trigger] row_is(row, f) && #[trigger] code_is(code, g) implies ctx@ == head_after(
        start,
        qstride as int,
        64,
        |qi: int, c: int| x1_code(h, f, g, c),
        1,
    ) by {
        let codes = |qi: int, c: int| x1_code(h, f, g, c);
        assert(p@ == f(x1_scores(h)));
        assert forall|c: int| 0 <= c < 64 implies #[trigger] g(sums@[c]) == codes(0, c) by {
            assert(sums@[c] == context_staged(p@, tiles@, c, zv as int, tk as int));
        }
        lemma_nothing_written(start, qstride as int, 64, codes);
        lemma_query_put(code, g, start, start, ctx@, sums@, qstride as int, 64, codes, 0);
    }
    assert forall|x: int|
        0 <= x < ctx@.len() && !is_cell(qstride as int, 64, 1, x) implies #[trigger] ctx@[x]
        == start[x] by {
        lemma_cell_back(x, qstride as int);
    }
}

// --- the forms agree --------------------------------------------------------------------

/// On keys and values that were prepared from planar ones, a head leaves the
/// same bytes as on the planar ones, whatever the softmax and the
/// requantisation are, and for any number of queries.
pub proof fn law_prepared_heads_agree(
    a: Planar,
    b: Prepared,
    f: spec_fn(Seq<i32>) -> Seq<i16>,
    g: spec_fn(i32) -> i8,
    ctx: Seq<i8>,
    wq: int,
)
    requires
        a.hd == 64,
        0 <= a.tk,
        0 < a.qstride,
        b.q == a.q && b.qstride == a.qstride && b.tk == a.tk,
        b.zq == a.zq && b.zk == a.zk && b.zv == a.zv,
        forall|j: int, c: int|
            0 <= j < a.tk && 0 <= c < 64 ==> #[trigger] key_cell(b.kt, j, c) == a.k[c * a.kstride
                + j],
        forall|c: int, j: int|
            0 <= c < 64 && 0 <= j < a.tk ==> #[trigger] b.v16[640 * c + j] == a.v[c * a.kstride
                + j],
    ensures
        head_after(ctx, a.qstride, 64, |qi: int, c: int| kt_code(b, f, g, qi, c), wq)
            == head_after(ctx, a.qstride, 64, |qi: int, c: int| planar_code(a, f, g, qi, c), wq),
{
    let kt = |qi: int, c: int| kt_code(b, f, g, qi, c);
    let plain = |qi: int, c: int| planar_code(a, f, g, qi, c);
    assert forall|qi: int, c: int| 0 <= c < 64 implies #[trigger] kt_code(b, f, g, qi, c)
        == planar_code(a, f, g, qi, c) by {
        assert forall|j: int| 0 <= j < a.tk implies kt_scores(b, qi)[j] == planar_scores(
            a,
            qi,
        )[j] by {
            law_kt_scores_are_the_scores(
                a.q,
                a.qstride,
                qi,
                a.zq,
                a.k,
                a.kstride,
                b.kt,
                j,
                a.zk,
                64,
            );
        }
        assert(kt_scores(b, qi) =~= planar_scores(a, qi));
        law_kt_contexts_are_the_contexts(
            f(planar_scores(a, qi)),
            a.v,
            c * a.kstride,
            b.v16,
            640 * c,
            a.zv,
            a.tk,
        );
    }
    assert forall|x: int| 0 <= x < ctx.len() implies head_after(ctx, a.qstride, 64, kt, wq)[x]
        == head_after(ctx, a.qstride, 64, plain, wq)[x] by {
        lemma_cell_back(x, a.qstride);
        if is_cell(a.qstride, 64, wq, x) {
            assert(kt_code(b, f, g, x % a.qstride, x / a.qstride) == planar_code(
                a,
                f,
                g,
                x % a.qstride,
                x / a.qstride,
            ));
        }
    }
    assert(head_after(ctx, a.qstride, 64, kt, wq) =~= head_after(ctx, a.qstride, 64, plain, wq));
}

/// On key-major keys and tiled values that hold what planar ones do, a head
/// of one query leaves the same bytes as on the planar ones.
pub proof fn law_staged_heads_agree(
    a: Planar,
    b: Staged,
    f: spec_fn(Seq<i32>) -> Seq<i16>,
    g: spec_fn(i32) -> i8,
    ctx: Seq<i8>,
)
    requires
        a.hd == 64,
        0 <= a.tk,
        0 < a.qstride,
        b.q == a.q && b.qstride == a.qstride && b.tk == a.tk,
        b.zq == a.zq && b.zk == a.zk && b.zv == a.zv,
        forall|j: int, c: int|
            0 <= j < a.tk && 0 <= c < 64 ==> #[trigger] b.keys[64 * j + c] == a.k[c * a.kstride
                + j],
        forall|c: int, j: int|
            0 <= c < 64 && 0 <= j < a.tk ==> #[trigger] staged(b.tiles, c, j) == a.v[c * a.kstride
                + j],
    ensures
        head_after(ctx, a.qstride, 64, |qi: int, c: int| x1_code(b, f, g, c), 1) == head_after(
            ctx,
            a.qstride,
            64,
            |qi: int, c: int| planar_code(a, f, g, qi, c),
            1,
        ),
{
    let one = |qi: int, c: int| x1_code(b, f, g, c);
    let plain = |qi: int, c: int| planar_code(a, f, g, qi, c);
    assert forall|c: int| 0 <= c < 64 implies #[trigger] x1_code(b, f, g, c) == planar_code(
        a,
        f,
        g,
        0,
        c,
    ) by {
        assert forall|j: int| 0 <= j < a.tk implies x1_scores(b)[j] == planar_scores(a, 0)[j] by {
            law_x1_scores_are_the_scores(
                a.q,
                a.qstride,
                a.zq,
                a.k,
                a.kstride,
                b.keys,
                j,
                a.zk,
                64,
            );
        }
        assert(x1_scores(b) =~= planar_scores(a, 0));
        law_x1_contexts_are_the_contexts(
            f(planar_scores(a, 0)),
            a.v,
            c * a.kstride,
            b.tiles,
            c,
            a.zv,
            a.tk,
        );
    }
    assert forall|x: int| 0 <= x < ctx.len() implies head_after(ctx, a.qstride, 64, one, 1)[x]
        == head_after(ctx, a.qstride, 64, plain, 1)[x] by {
        lemma_cell_back(x, a.qstride);
        if is_cell(a.qstride, 64, 1, x) {
            assert(x1_code(b, f, g, x / a.qstride) == planar_code(a, f, g, 0, x / a.qstride));
        }
    }
    assert(head_after(ctx, a.qstride, 64, one, 1) =~= head_after(ctx, a.qstride, 64, plain, 1));
}

/// A head's codes stand in its cells, dimension by dimension, and everything
/// else stays.
pub proof fn law_codes_stand_in_their_cells(
    ctx: Seq<i8>,
    qstride: int,
    hd: int,
    codes: spec_fn(int, int) -> i8,
    n: int,
    qi: int,
    c: int,
)
    requires
        1 <= qstride,
        0 <= qi < qstride,
        0 <= c,
        0 <= c * qstride + qi < ctx.len(),
    ensures
        head_after(ctx, qstride, hd, codes, n).len() == ctx.len(),
        qi < n && c < hd ==> head_after(ctx, qstride, hd, codes, n)[c * qstride + qi] == codes(
            qi,
            c,
        ),
        qi >= n || c >= hd ==> head_after(ctx, qstride, hd, codes, n)[c * qstride + qi] == ctx[c
            * qstride + qi],
{
    vstd::arithmetic::div_mod::lemma_fundamental_div_mod_converse(
        c * qstride + qi,
        qstride,
        c,
        qi,
    );
}

/// A head's scores are the products of its queries and keys, its codes those
/// of the values under their probabilities.
pub proof fn law_a_head_weighs_values_by_scores(
    h: Planar,
    f: spec_fn(Seq<i32>) -> Seq<i16>,
    g: spec_fn(i32) -> i8,
    qi: int,
    c: int,
    j: int,
)
    requires
        0 <= j < h.tk,
        0 <= h.hd,
    ensures
        planar_scores(h, qi).len() == h.tk,
        planar_scores(h, qi)[j] == sum(
            |d: int| (h.q[d * h.qstride + qi] - h.zq) * (h.k[d * h.kstride + j] - h.zk),
            h.hd,
        ) as i32,
        ({
            let p = f(planar_scores(h, qi));
            planar_code(h, f, g, qi, c) == g(
                sum(|t: int| p[t] * (h.v[c * h.kstride + t] - h.zv), h.tk) as i32,
            )
        }),
{
    law_scores_sum_products(h.q, h.qstride, qi, h.zq, h.k, h.kstride, j, h.zk, h.hd);
    law_contexts_sum_products(f(planar_scores(h, qi)), h.v, c * h.kstride, h.zv, h.tk);
}

} // verus!
