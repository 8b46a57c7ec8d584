//! What a step of the host's decoder computes.
//!
//! As on the board itself, a layer is sound where each step finds what it is
//! meant for under the quantisation that this has: keys and values go into
//! the caches from the outputs of their own blobs, a head's queries meet that
//! head's keys and values, and each part of the layer is added to the
//! residual before the next begins.

use crate::hostdec::{
    add_of, attn_of, cross_half, cross_heads, layer_of, mlp_half, mlp_parts, norm_of, npu_of,
    self_half, self_heads, sum_of, Gb, HostBlob, HostBlock, HostStep, A_BIG, A_CTX, A_K, A_LN, A_O,
    A_P, A_Q, A_V, A_X16, BIG_HALF,
};
use crate::kernels::Quant;
use vstd::prelude::*;

verus! {

/// What 256 bytes of the arena hold.
pub ghost enum Datum {
    Nothing,
    /// The residual, when `done` of the layer's three parts have been added.
    Residual { done: int },
    /// Its layer norm for the next part.
    Normed { part: int },
    /// What a blob has put out.
    Output(HostBlob),
    /// The first layer of an MLP quarter through its table.
    Gelu { j: int },
    SelfContext,
    CrossContext,
}

pub ghost struct Piece {
    pub what: Datum,
    pub at: int,
}

/// The arena by pieces, whether the caches have this token, whether they are
/// in the arena, and whose cross keys and values are.
pub ghost struct Arena {
    pub held: spec_fn(int) -> Piece,
    pub kept: bool,
    pub own: bool,
    pub cross: Option<int>,
}

/// The layer that the steps are for.
pub ghost struct Layer {
    pub b: HostBlock,
    pub sq: Quant,
    pub t: int,
    pub ctx: int,
}

/// The piece that an address begins.
pub open spec fn piece_of(addr: u32) -> int {
    (addr - 0x2003_2000) / 256
}

/// `n` pieces from the address on hold this, from place `at` on.
pub open spec fn holds(m: Arena, addr: u32, n: int, what: Datum, at: int) -> bool {
    &&& addr >= 0x2003_2000
    &&& addr % 256 == 0
    &&& forall|u: int|
        piece_of(addr) <= u < piece_of(addr) + n ==> #[trigger] (m.held)(u) == (Piece {
            what,
            at: at + u - piece_of(addr),
        })
}

pub open spec fn with(m: Arena, addr: u32, n: int, what: Datum, at: int) -> Arena {
    Arena {
        held: |u: int|
            if piece_of(addr) <= u < piece_of(addr) + n {
                Piece { what, at: at + u - piece_of(addr) }
            } else {
                (m.held)(u)
            },
        ..m
    }
}

/// What a blob is for.
pub open spec fn feeds(b: HostBlob) -> Datum {
    match b {
        HostBlob::Q => Datum::Normed { part: 0 },
        HostBlob::K => Datum::Normed { part: 0 },
        HostBlob::V => Datum::Normed { part: 0 },
        HostBlob::Out => Datum::SelfContext,
        HostBlob::Xq => Datum::Normed { part: 1 },
        HostBlob::Xout => Datum::CrossContext,
        HostBlob::Fc1(_) => Datum::Normed { part: 2 },
        HostBlob::Fc2(j) => Datum::Gelu { j: j as int },
    }
}

/// The part that a norm is for.
pub open spec fn part_of(gb: Gb) -> int {
    match gb {
        Gb::Ln1 => 0,
        Gb::Xln => 1,
        Gb::Ln2 => 2,
    }
}

/// The quantisation of the residual, and of its norm.
pub open spec fn residual_scale(y: Layer, done: int) -> Quant {
    if done == 0 {
        y.sq
    } else if done == 1 {
        y.b.res1
    } else if done == 2 {
        y.b.res2
    } else {
        y.b.res3
    }
}

pub open spec fn norm_scale(y: Layer, part: int) -> Quant {
    if part == 0 {
        y.b.q_in
    } else if part == 1 {
        y.b.xq_in
    } else {
        y.b.fc1_in
    }
}

/// What a step needs to find.
#[verifier::opaque]
pub open spec fn sound(s: HostStep, m: Arena, y: Layer) -> bool {
    let b = y.b;
    match s {
        HostStep::Ln { gb, ln } => {
            &&& holds(m, ln.src, 12, Datum::Residual { done: part_of(gb) }, 0)
            &&& ln.ch == 384 && ln.w == 4
            &&& ln.beta == ln.gamma + 1536
            &&& ln.dst % 256 == 0 && ln.dst >= 0x2003_2000
            &&& ln.sq == residual_scale(y, part_of(gb))
            &&& ln.dq == norm_scale(y, part_of(gb))
        },
        HostStep::Npu { blob, input, output } => {
            &&& holds(m, input, 6, feeds(blob), 0)
            &&& output % 256 == 0 && output >= 0x2003_2000
        },
        HostStep::Keep => {
            &&& holds(m, 0x2003_3800, 6, Datum::Output(HostBlob::K), 0)
            &&& holds(m, 0x2003_3E00, 6, Datum::Output(HostBlob::V), 0)
            &&& !m.kept
        },
        HostStep::PutSelf => m.kept,
        HostStep::PutCross { h } => h < 6,
        HostStep::Attn { attn, qs, ks } => {
            let h = (attn.q - 0x2003_3200) / 256;
            &&& 0 <= h < 6
            &&& attn.hd == 64 && attn.wq == 1 && attn.qstride == 4
            &&& attn.kstride == attn.tk
            &&& attn.ctx == 0x2003_4400 + 256 * h
            &&& attn.zq == qs.zp && attn.zk == ks.zp
            &&& (m.own && m.kept && {
                &&& holds(m, attn.q, 1, Datum::Output(HostBlob::Q), h)
                &&& attn.tk == y.t
                &&& attn.k == 0x2003_7600 + 64 * h * y.t
                &&& attn.v == 0x2003_7600 + 38400 + 64 * h * y.t
                &&& qs == b.q_out && ks == b.k_out
                &&& attn.zv == b.v_out.zp && attn.v_scale == b.v_out.scale
                &&& attn.ctx_q == b.out_in
            } || m.cross == Some(h) && !m.own && {
                &&& holds(m, attn.q, 1, Datum::Output(HostBlob::Xq), h)
                &&& attn.tk == y.ctx
                &&& attn.k == 0x2003_7600
                &&& attn.v == 0x2003_7600 + 38400
                &&& qs == b.xq_out && ks == b.xk_out
                &&& attn.zv == b.xv_out.zp && attn.v_scale == b.xv_out.scale
                &&& attn.ctx_q == b.xout_in
            })
        },
        HostStep::Add16(p) => {
            &&& p.dst == p.a
            &&& p.len == 1536
            &&& (m.held)(piece_of(p.a)).what matches Datum::Residual { done } && {
                &&& 0 <= done < 2
                &&& holds(m, p.a, 12, Datum::Residual { done }, 0)
                &&& holds(
                    m,
                    p.b,
                    6,
                    Datum::Output(
                        if done == 0 {
                            HostBlob::Out
                        } else {
                            HostBlob::Xout
                        },
                    ),
                    0,
                )
                &&& p.qa == residual_scale(y, done)
                &&& p.qb == (if done == 0 {
                    b.out_out
                } else {
                    b.xout_out
                })
                &&& p.qd == residual_scale(y, done + 1)
            }
        },
        HostStep::Lut { part } => {
            holds(m, 0x2003_3200, 6, Datum::Output(HostBlob::Fc1(part)), 0)
        },
        HostStep::Fc2Sum(p) => {
            &&& p.dst == p.a
            &&& p.len == 1536
            &&& holds(m, p.a, 12, Datum::Residual { done: 2 }, 0)
            &&& holds(m, p.p0, 6, Datum::Output(HostBlob::Fc2(0)), 0)
            &&& holds(m, p.p1, 6, Datum::Output(HostBlob::Fc2(1)), 0)
            &&& holds(m, p.p2, 6, Datum::Output(HostBlob::Fc2(2)), 0)
            &&& holds(m, p.p3, 6, Datum::Output(HostBlob::Fc2(3)), 0)
            &&& p.pq0 == b.fc2p0 && p.pq1 == b.fc2p1 && p.pq2 == b.fc2p2 && p.pq3 == b.fc2p3
            &&& p.qa == b.res2
            &&& p.qd == b.res3
        },
    }
}

/// What a step leaves.
#[verifier::opaque]
pub open spec fn leaves(s: HostStep, m: Arena, y: Layer) -> Arena {
    match s {
        HostStep::Ln { gb, ln } => with(m, ln.dst, 6, Datum::Normed { part: part_of(gb) }, 0),
        HostStep::Npu { blob, output, .. } => with(m, output, 6, Datum::Output(blob), 0),
        HostStep::Keep => Arena { kept: true, ..m },
        HostStep::PutSelf => Arena { own: true, cross: None, ..m },
        HostStep::PutCross { h } => Arena { own: false, cross: Some(h as int), ..m },
        HostStep::Attn { attn, .. } => with(
            m,
            attn.ctx,
            1,
            if m.own {
                Datum::SelfContext
            } else {
                Datum::CrossContext
            },
            (attn.q - 0x2003_3200) / 256,
        ),
        HostStep::Add16(p) => match (m.held)(piece_of(p.a)).what {
            Datum::Residual { done } => with(m, p.dst, 12, Datum::Residual { done: done + 1 }, 0),
            _ => m,
        },
        HostStep::Lut { part } => with(m, 0x2003_3800, 6, Datum::Gelu { j: part as int }, 0),
        HostStep::Fc2Sum(p) => with(m, p.dst, 12, Datum::Residual { done: 3 }, 0),
    }
}

/// The arena at the end, if every step was sound.
#[verifier::opaque]
pub open spec fn computed(steps: Seq<HostStep>, m: Arena, y: Layer) -> Option<Arena>
    decreases steps.len(),
{
    if steps.len() == 0 {
        Some(m)
    } else {
        match computed(steps.drop_last(), m, y) {
            None => None,
            Some(e) => if sound(steps.last(), e, y) {
                Some(leaves(steps.last(), e, y))
            } else {
                None
            },
        }
    }
}

/// From the residual that comes in, every step finds what it is meant for,
/// the token's keys and values are kept once, and the residual goes out.
pub open spec fn computes_the_layer(steps: Seq<HostStep>, y: Layer) -> bool {
    forall|m: Arena|
        !m.kept && holds(m, 0x2003_2000, 12, Datum::Residual { done: 0 }, 0) ==> {
            let end = #[trigger] computed(steps, m, y);
            &&& end is Some
            &&& end->0.kept
            &&& holds(end->0, 0x2003_2000, 12, Datum::Residual { done: 3 }, 0)
        }
}

// --- how the steps follow one another ---------------------------------------------------

proof fn lemma_none(m: Arena, y: Layer)
    ensures
        computed(Seq::<HostStep>::empty(), m, y) == Some(m),
{
    reveal_with_fuel(computed, 1);
}

proof fn lemma_then(steps: Seq<HostStep>, s: HostStep, m: Arena, e: Arena, y: Layer) -> (f: Arena)
    requires
        computed(steps, m, y) == Some(e),
        sound(s, e, y),
    ensures
        f == leaves(s, e, y),
        computed(steps.push(s), m, y) == Some(f),
{
    reveal_with_fuel(computed, 2);
    assert(steps.push(s).drop_last() =~= steps);
    leaves(s, e, y)
}

proof fn lemma_after(a: Seq<HostStep>, b: Seq<HostStep>, m: Arena, e: Arena, y: Layer)
    requires
        computed(a, m, y) == Some(e),
    ensures
        computed(a + b, m, y) == computed(b, e, y),
    decreases b.len(),
{
    reveal_with_fuel(computed, 2);
    if b.len() == 0 {
        assert(a + b =~= a);
    } else {
        lemma_after(a, b.drop_last(), m, e, y);
        assert((a + b).drop_last() =~= a + b.drop_last());
        assert((a + b).last() == b.last());
    }
}

/// `f` is `e` but for these pieces.
spec fn changed(e: Arena, f: Arena, addr: u32, n: int, what: Datum, at: int) -> bool {
    &&& f.kept == e.kept && f.own == e.own && f.cross == e.cross
    &&& forall|u: int|
        #![trigger (f.held)(u)]
        (f.held)(u) == (if piece_of(addr) <= u < piece_of(addr) + n {
            Piece { what, at: at + u - piece_of(addr) }
        } else {
            (e.held)(u)
        })
}

proof fn then_npu(
    steps: Seq<HostStep>,
    blob: HostBlob,
    input: u32,
    output: u32,
    m: Arena,
    e: Arena,
    y: Layer,
) -> (f: Arena)
    requires
        computed(steps, m, y) == Some(e),
        holds(e, input, 6, feeds(blob), 0),
        output % 256 == 0,
        output >= 0x2003_2000,
    ensures
        computed(steps.push(npu_of(blob, input, output)), m, y) == Some(f),
        changed(e, f, output, 6, Datum::Output(blob), 0),
{
    reveal(sound);
    reveal(leaves);
    lemma_then(steps, npu_of(blob, input, output), m, e, y)
}

proof fn then_norm(steps: Seq<HostStep>, gb: Gb, m: Arena, e: Arena, y: Layer) -> (f: Arena)
    requires
        computed(steps, m, y) == Some(e),
        holds(e, A_X16, 12, Datum::Residual { done: part_of(gb) }, 0),
    ensures
        computed(
            steps.push(
                norm_of(gb, residual_scale(y, part_of(gb)), norm_scale(y, part_of(gb))),
            ),
            m,
            y,
        ) == Some(f),
        changed(e, f, A_LN, 6, Datum::Normed { part: part_of(gb) }, 0),
{
    reveal(sound);
    reveal(leaves);
    lemma_then(
        steps,
        norm_of(gb, residual_scale(y, part_of(gb)), norm_scale(y, part_of(gb))),
        m,
        e,
        y,
    )
}

proof fn then_add(steps: Seq<HostStep>, done: int, m: Arena, e: Arena, y: Layer) -> (f: Arena)
    requires
        computed(steps, m, y) == Some(e),
        0 <= done < 2,
        holds(e, A_X16, 12, Datum::Residual { done }, 0),
        holds(
            e,
            A_O,
            6,
            Datum::Output(
                if done == 0 {
                    HostBlob::Out
                } else {
                    HostBlob::Xout
                },
            ),
            0,
        ),
    ensures
        computed(
            steps.push(
                add_of(
                    residual_scale(y, done),
                    if done == 0 {
                        y.b.out_out
                    } else {
                        y.b.xout_out
                    },
                    residual_scale(y, done + 1),
                ),
            ),
            m,
            y,
        ) == Some(f),
        changed(e, f, A_X16, 12, Datum::Residual { done: done + 1 }, 0),
{
    let s = add_of(
        residual_scale(y, done),
        if done == 0 {
            y.b.out_out
        } else {
            y.b.xout_out
        },
        residual_scale(y, done + 1),
    );
    assert((e.held)(piece_of(A_X16)) == (Piece { what: Datum::Residual { done }, at: 0 }));
    reveal(sound);
    reveal(leaves);
    lemma_then(steps, s, m, e, y)
}

// --- the parts of a layer ----------------------------------------------------------------

/// The contexts of the first `n` heads.
spec fn contexts(m: Arena, what: Datum, n: int) -> bool {
    holds(m, A_CTX, n, what, 0)
}

proof fn lemma_self_heads(n: int, m: Arena, y: Layer) -> (e: Arena)
    requires
        0 <= n <= 6,
        0 <= y.t,
        A_BIG + BIG_HALF + 384 * y.t <= u32::MAX,
        m.own && m.kept,
        holds(m, A_X16, 12, Datum::Residual { done: 0 }, 0),
        holds(m, A_Q, 6, Datum::Output(HostBlob::Q), 0),
    ensures
        computed(self_heads(y.b, y.t, n), m, y) == Some(e),
        e.own && e.kept,
        holds(e, A_X16, 12, Datum::Residual { done: 0 }, 0),
        holds(e, A_Q, 6, Datum::Output(HostBlob::Q), 0),
        contexts(e, Datum::SelfContext, n),
    decreases n,
{
    if n == 0 {
        lemma_none(m, y);
        m
    } else {
        let h = n - 1;
        let e = lemma_self_heads(h, m, y);
        let s = attn_of(
            h,
            A_BIG + 64 * h * y.t,
            A_BIG + BIG_HALF + 64 * h * y.t,
            y.t,
            y.b.q_out,
            y.b.k_out,
            y.b.v_out,
            y.b.out_in,
        );
        assert(64 * h * y.t <= 320 * y.t && 0 <= 64 * h * y.t) by (nonlinear_arith)
            requires
                0 <= h <= 5,
                0 <= y.t,
        ;
        assert((e.held)(piece_of(A_Q) + h) == (Piece { what: Datum::Output(HostBlob::Q), at: h }));
        assert(sound(s, e, y)) by {
            reveal(sound);
        }
        let f = lemma_then(self_heads(y.b, y.t, h), s, m, e, y);
        assert(changed(e, f, (A_CTX + 256 * h) as u32, 1, Datum::SelfContext, h)) by {
            reveal(leaves);
        }
        f
    }
}

proof fn lemma_self_half(m: Arena, y: Layer) -> (e: Arena)
    requires
        0 <= y.t,
        A_BIG + BIG_HALF + 384 * y.t <= u32::MAX,
        !m.kept,
        holds(m, A_X16, 12, Datum::Residual { done: 0 }, 0),
    ensures
        computed(self_half(y.b, y.sq, y.t), m, y) == Some(e),
        e.kept,
        holds(e, A_X16, 12, Datum::Residual { done: 1 }, 0),
{
    let b = y.b;
    let s0 = Seq::<HostStep>::empty();
    lemma_none(m, y);
    let m1 = then_norm(s0, Gb::Ln1, m, m, y);
    let s1 = s0.push(norm_of(Gb::Ln1, y.sq, b.q_in));
    let m2 = then_npu(s1, HostBlob::Q, A_LN, A_Q, m, m1, y);
    let s2 = s1.push(npu_of(HostBlob::Q, A_LN, A_Q));
    let m3 = then_npu(s2, HostBlob::K, A_LN, A_K, m, m2, y);
    let s3 = s2.push(npu_of(HostBlob::K, A_LN, A_K));
    let m4 = then_npu(s3, HostBlob::V, A_LN, A_V, m, m3, y);
    let s4 = s3.push(npu_of(HostBlob::V, A_LN, A_V));
    assert(holds(m4, A_K, 6, Datum::Output(HostBlob::K), 0));
    assert(holds(m4, A_V, 6, Datum::Output(HostBlob::V), 0));
    assert(sound(HostStep::Keep, m4, y)) by {
        reveal(sound);
    }
    let m5 = lemma_then(s4, HostStep::Keep, m, m4, y);
    let s5 = s4.push(HostStep::Keep);
    assert(m5.kept && m5.held == m4.held) by {
        reveal(leaves);
    }
    assert(sound(HostStep::PutSelf, m5, y)) by {
        reveal(sound);
    }
    let m6 = lemma_then(s5, HostStep::PutSelf, m, m5, y);
    let s6 = s5.push(HostStep::PutSelf);
    assert(m6.kept && m6.own && m6.held == m4.held) by {
        reveal(leaves);
    }
    assert(holds(m6, A_Q, 6, Datum::Output(HostBlob::Q), 0));
    assert(holds(m6, A_X16, 12, Datum::Residual { done: 0 }, 0));
    let m7 = lemma_self_heads(6, m6, y);
    let c = self_heads(b, y.t, 6);
    lemma_after(s6, c, m, m6, y);
    let m8 = then_npu(s6 + c, HostBlob::Out, A_CTX, A_O, m, m7, y);
    let s8 = (s6 + c).push(npu_of(HostBlob::Out, A_CTX, A_O));
    let m9 = then_add(s8, 0, m, m8, y);
    assert(self_half(b, y.sq, y.t) =~= s8.push(add_of(y.sq, b.out_out, b.res1)));
    m9
}

proof fn lemma_cross_heads(n: int, m: Arena, y: Layer) -> (e: Arena)
    requires
        0 <= n <= 6,
        0 <= y.ctx <= u32::MAX,
        m.kept,
        holds(m, A_X16, 12, Datum::Residual { done: 1 }, 0),
        holds(m, A_Q, 6, Datum::Output(HostBlob::Xq), 0),
    ensures
        computed(cross_heads(y.b, y.ctx, n), m, y) == Some(e),
        e.kept,
        holds(e, A_X16, 12, Datum::Residual { done: 1 }, 0),
        holds(e, A_Q, 6, Datum::Output(HostBlob::Xq), 0),
        contexts(e, Datum::CrossContext, n),
    decreases n,
{
    if n == 0 {
        lemma_none(m, y);
        m
    } else {
        let h = n - 1;
        let b = y.b;
        let e = lemma_cross_heads(h, m, y);
        let s0 = cross_heads(b, y.ctx, h);
        let p = HostStep::PutCross { h: h as u32 };
        assert(sound(p, e, y)) by {
            reveal(sound);
        }
        let e1 = lemma_then(s0, p, m, e, y);
        assert(e1.held == e.held && e1.kept && !e1.own && e1.cross == Some(h)) by {
            reveal(leaves);
        }
        let s = attn_of(
            h,
            A_BIG as int,
            A_BIG + BIG_HALF,
            y.ctx,
            b.xq_out,
            b.xk_out,
            b.xv_out,
            b.xout_in,
        );
        assert((e1.held)(piece_of(A_Q) + h) == (Piece {
            what: Datum::Output(HostBlob::Xq),
            at: h,
        }));
        assert(sound(s, e1, y)) by {
            reveal(sound);
        }
        let f = lemma_then(s0.push(p), s, m, e1, y);
        assert(changed(e1, f, (A_CTX + 256 * h) as u32, 1, Datum::CrossContext, h)) by {
            reveal(leaves);
        }
        assert(cross_heads(b, y.ctx, n) =~= s0.push(p).push(s));
        f
    }
}

proof fn lemma_cross_half(m: Arena, y: Layer) -> (e: Arena)
    requires
        0 <= y.ctx <= u32::MAX,
        m.kept,
        holds(m, A_X16, 12, Datum::Residual { done: 1 }, 0),
    ensures
        computed(cross_half(y.b, y.ctx), m, y) == Some(e),
        e.kept,
        holds(e, A_X16, 12, Datum::Residual { done: 2 }, 0),
{
    let b = y.b;
    let s0 = Seq::<HostStep>::empty();
    lemma_none(m, y);
    let m1 = then_norm(s0, Gb::Xln, m, m, y);
    let s1 = s0.push(norm_of(Gb::Xln, b.res1, b.xq_in));
    let m2 = then_npu(s1, HostBlob::Xq, A_LN, A_Q, m, m1, y);
    let s2 = s1.push(npu_of(HostBlob::Xq, A_LN, A_Q));
    let m3 = lemma_cross_heads(6, m2, y);
    let c = cross_heads(b, y.ctx, 6);
    lemma_after(s2, c, m, m2, y);
    let m4 = then_npu(s2 + c, HostBlob::Xout, A_CTX, A_O, m, m3, y);
    let s4 = (s2 + c).push(npu_of(HostBlob::Xout, A_CTX, A_O));
    let m5 = then_add(s4, 1, m, m4, y);
    assert(cross_half(b, y.ctx) =~= s4.push(add_of(b.res1, b.xout_out, b.res2)));
    m5
}

/// The partial sums of the first `n` quarters.
spec fn parts(m: Arena, n: int) -> bool {
    forall|u: int|
        48 <= u < 48 + 6 * n ==> #[trigger] (m.held)(u) == (Piece {
            what: Datum::Output(HostBlob::Fc2(((u - 48) / 6) as u32)),
            at: (u - 48) % 6,
        })
}

proof fn lemma_mlp_parts(n: int, m: Arena, y: Layer) -> (e: Arena)
    requires
        0 <= n <= 4,
        m.kept,
        holds(m, A_X16, 12, Datum::Residual { done: 2 }, 0),
        holds(m, A_LN, 6, Datum::Normed { part: 2 }, 0),
    ensures
        computed(mlp_parts(n), m, y) == Some(e),
        e.kept,
        holds(e, A_X16, 12, Datum::Residual { done: 2 }, 0),
        holds(e, A_LN, 6, Datum::Normed { part: 2 }, 0),
        parts(e, n),
    decreases n,
{
    if n == 0 {
        lemma_none(m, y);
        m
    } else {
        let j = n - 1;
        let e = lemma_mlp_parts(j, m, y);
        let s0 = mlp_parts(j);
        let f1 = HostBlob::Fc1(j as u32);
        let f2 = HostBlob::Fc2(j as u32);
        let out = (A_P + 1536 * j) as u32;
        let m1 = then_npu(s0, f1, A_LN, A_Q, m, e, y);
        let s1 = s0.push(npu_of(f1, A_LN, A_Q));
        let lut = HostStep::Lut { part: j as u32 };
        assert(holds(m1, A_Q, 6, Datum::Output(f1), 0));
        assert(sound(lut, m1, y)) by {
            reveal(sound);
        }
        let m2 = lemma_then(s1, lut, m, m1, y);
        assert(changed(m1, m2, A_K, 6, Datum::Gelu { j }, 0)) by {
            reveal(leaves);
        }
        let s2 = s1.push(lut);
        let m3 = then_npu(s2, f2, A_K, out, m, m2, y);
        assert(mlp_parts(n) =~= s2.push(npu_of(f2, A_K, out)));
        assert forall|u: int| 48 <= u < 48 + 6 * n implies #[trigger] (m3.held)(u) == (Piece {
            what: Datum::Output(HostBlob::Fc2(((u - 48) / 6) as u32)),
            at: (u - 48) % 6,
        }) by {
            if u >= 48 + 6 * j {
                assert((u - 48) / 6 == j);
            } else {
                assert((m2.held)(u) == (e.held)(u));
            }
        }
        m3
    }
}

proof fn lemma_part(m: Arena, j: int, addr: u32)
    requires
        parts(m, 4),
        0 <= j < 4,
        addr == A_P + 1536 * j,
    ensures
        holds(m, addr, 6, Datum::Output(HostBlob::Fc2(j as u32)), 0),
{
    assert forall|u: int| piece_of(addr) <= u < piece_of(addr) + 6 implies #[trigger] (m.held)(u)
        == (Piece {
        what: Datum::Output(HostBlob::Fc2(j as u32)),
        at: u - piece_of(addr),
    }) by {
        assert((u - 48) / 6 == j);
    }
}

proof fn lemma_mlp_half(m: Arena, y: Layer) -> (e: Arena)
    requires
        m.kept,
        holds(m, A_X16, 12, Datum::Residual { done: 2 }, 0),
    ensures
        computed(mlp_half(y.b), m, y) == Some(e),
        e.kept,
        holds(e, A_X16, 12, Datum::Residual { done: 3 }, 0),
{
    let b = y.b;
    let s0 = Seq::<HostStep>::empty();
    lemma_none(m, y);
    let m1 = then_norm(s0, Gb::Ln2, m, m, y);
    let s1 = s0.push(norm_of(Gb::Ln2, b.res2, b.fc1_in));
    let m2 = lemma_mlp_parts(4, m1, y);
    let c = mlp_parts(4);
    lemma_after(s1, c, m, m1, y);
    lemma_part(m2, 0, A_P);
    lemma_part(m2, 1, (A_P + 1536) as u32);
    lemma_part(m2, 2, (A_P + 3072) as u32);
    lemma_part(m2, 3, (A_P + 4608) as u32);
    let s = sum_of(b);
    assert(sound(s, m2, y)) by {
        reveal(sound);
    }
    let m3 = lemma_then(s1 + c, s, m, m2, y);
    assert(changed(m2, m3, A_X16, 12, Datum::Residual { done: 3 }, 0)) by {
        reveal(leaves);
    }
    assert(mlp_half(b) =~= (s1 + c).push(s));
    m3
}

/// A layer's steps put the token through the layer: its own keys and values
/// into the caches, self-attention over all tokens so far, cross-attention,
/// and the four quarters of the MLP, under the layer's quantisations.
pub proof fn law_a_token_goes_through_the_layer(b: HostBlock, sq: Quant, t: int, ctx: int)
    requires
        0 <= t,
        A_BIG + BIG_HALF + 384 * t <= u32::MAX,
        0 <= ctx <= u32::MAX,
    ensures
        computes_the_layer(layer_of(b, sq, t, ctx), Layer { b, sq, t, ctx }),
{
    let y = Layer { b, sq, t, ctx };
    let steps = layer_of(b, sq, t, ctx);
    assert forall|m: Arena|
        !m.kept && holds(m, 0x2003_2000, 12, Datum::Residual { done: 0 }, 0) implies {
        let end = #[trigger] computed(steps, m, y);
        &&& end is Some
        &&& end->0.kept
        &&& holds(end->0, 0x2003_2000, 12, Datum::Residual { done: 3 }, 0)
    } by {
        let m1 = lemma_self_half(m, y);
        let m2 = lemma_cross_half(m1, y);
        let m3 = lemma_mlp_half(m2, y);
        lemma_after(self_half(b, sq, t), cross_half(b, ctx), m, m1, y);
        lemma_after(self_half(b, sq, t) + cross_half(b, ctx), mlp_half(b), m, m2, y);
    }
}

} // verus!
