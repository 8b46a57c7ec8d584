//! What a decoder step computes.
//!
//! Every piece of working memory holds something: the residual of the token
//! after some part of some block, a layer norm of it, the output of a blob,
//! a table. A step is sound where it finds what it is meant for, under the
//! quantisation that this has, and it leaves something in its place. A
//! script that is sound from any memory, and leaves the residual after the
//! last block, has put the token through the whole network: each block's own
//! keys and values into the cache, self-attention, cross-attention and the
//! MLP, each on what the one before left.

use crate::decoder::{
    const_steps, cross_attention, cross_head, cross_heads, d_blob, d_blocks, d_mlp, d_mlp_part,
    d_mlp_parts, d_residual_quant, d_run, dec_zone, gamma_beta, key_stage, land, residual,
    self_begin, self_head, self_heads, self_steps, start_keys, start_values, tok, tok_head,
    token_steps, value_stage, DStep,
};
use crate::image::Kind;
use crate::kernels::Quant;
use crate::layout::{
    arena_buf, Buf, Mem, DC_LN1, DC_LN2, DC_LUT, DC_XLN, D_CTX, D_DC, D_K, D_LN, D_O, D_P, D_Q, D_V,
};
use crate::plan::Plan;
use crate::script::{Asset, Blob};
use vstd::prelude::*;

verus! {

/// What a piece of working memory holds.
pub ghost enum Datum {
    /// Nothing that anybody may use.
    Nothing,
    /// The residual of the token before block `l`, when `done` of the block's
    /// three parts have been added.
    Residual { l: int, done: int },
    /// Its layer norm for the next part.
    Normed { l: int, part: int },
    /// What a blob has put out for this token.
    Output(Blob),
    /// The first layer of an MLP quarter through its table.
    Gelu { l: int, j: int },
    /// Context of the self-attention and of the cross-attention.
    SelfContext { l: int },
    CrossContext { l: int },
    /// Gamma and beta of a part's layer norm, and the table of a quarter.
    GammaBeta { l: int, part: int },
    Table { l: int, j: int },
    /// A head's keys and values of the utterance.
    CrossKeys { l: int, h: int },
    CrossValues { l: int, h: int },
}

/// A datum, and the place in it: 256 bytes each.
pub ghost struct Piece {
    pub what: Datum,
    pub at: int,
}

/// Working memory, by pieces of 256 bytes, and the blocks whose cache has
/// this token.
pub ghost struct Memory {
    pub held: spec_fn(int) -> Piece,
    pub cached: int,
}

/// The token and the utterance that a script is for.
pub ghost struct Job {
    pub plan: Plan,
    pub row: u32,
    pub place: u32,
    /// Tokens before this one.
    pub n_tok: int,
    pub tiles: int,
    pub tk: int,
}

/// First piece of a buffer, and the one behind its last.
pub open spec fn lo(b: Buf) -> int {
    b.off as int / 256
}

pub open spec fn hi(b: Buf) -> int {
    (b.off + b.len + 255) / 256
}

/// The buffer holds this from its piece `at` on.
pub open spec fn holds(m: Memory, b: Buf, what: Datum, at: int) -> bool {
    &&& b.mem == Mem::Ram
    &&& b.off % 256 == 0
    &&& forall|u: int| lo(b) <= u < hi(b) ==> #[trigger] (m.held)(u) == (Piece {
        what,
        at: at + u - lo(b),
    })
}

/// The memory with this in the buffer.
pub open spec fn with(m: Memory, b: Buf, what: Datum, at: int) -> Memory {
    Memory {
        held: |u: int|
            if lo(b) <= u < hi(b) {
                Piece { what, at: at + u - lo(b) }
            } else {
                (m.held)(u)
            },
        ..m
    }
}

/// What a blob is for.
pub open spec fn feeds(b: Blob) -> Datum {
    match b {
        Blob::Dec(l, kind, j) => match kind {
            Kind::Q => Datum::Normed { l: l as int, part: 0 },
            Kind::K => Datum::Normed { l: l as int, part: 0 },
            Kind::V => Datum::Normed { l: l as int, part: 0 },
            Kind::Out => Datum::SelfContext { l: l as int },
            Kind::Xq => Datum::Normed { l: l as int, part: 1 },
            Kind::Xout => Datum::CrossContext { l: l as int },
            Kind::Fc1 => Datum::Normed { l: l as int, part: 2 },
            Kind::Fc2p => Datum::Gelu { l: l as int, j: j as int },
            _ => Datum::Nothing,
        },
        _ => Datum::Nothing,
    }
}

/// What piece `k` of an asset is.
pub open spec fn asset_piece(a: Asset, k: int) -> Piece {
    match a {
        Asset::DecAll(l) => if k < 36 {
            Piece { what: Datum::GammaBeta { l: l as int, part: k / 12 }, at: k % 12 }
        } else {
            Piece { what: Datum::Table { l: l as int, j: k - 36 }, at: 0 }
        },
        Asset::DecLn1(l) => Piece { what: Datum::GammaBeta { l: l as int, part: 0 }, at: k },
        Asset::DecXln(l) => Piece { what: Datum::GammaBeta { l: l as int, part: 1 }, at: k },
        Asset::DecLn2(l) => Piece { what: Datum::GammaBeta { l: l as int, part: 2 }, at: k },
        Asset::DecLut(l, j) => if k == 0 {
            Piece { what: Datum::Table { l: l as int, j: j as int }, at: 0 }
        } else {
            Piece { what: Datum::Nothing, at: 0 }
        },
        _ => Piece { what: Datum::Nothing, at: 0 },
    }
}

/// The quantisation of the residual.
pub open spec fn residual_scale(p: Plan, l: int, done: int) -> Quant {
    if done == 0 {
        if l == 0 {
            p.dec_x
        } else {
            p.dec[l - 1].res3
        }
    } else if done == 1 {
        p.dec[l].res1
    } else {
        p.dec[l].res2
    }
}

/// The quantisation that the blobs behind a layer norm take.
pub open spec fn norm_scale(p: Plan, l: int, part: int) -> Quant {
    if part == 0 {
        p.dec[l].ln1
    } else if part == 1 {
        p.dec[l].xln
    } else {
        p.dec[l].ln2
    }
}

/// The block, the part and the head that the utterance's keys (0) or values
/// (1) from scratch block `at` on belong to.
pub open spec fn staged(at: int, which: int, l: int, h: int) -> bool {
    at == 9472 + 960 * l + 480 * which + 80 * h
}

/// What a step needs to find.
#[verifier::opaque]
pub open spec fn sound(s: DStep, m: Memory, job: Job) -> bool {
    let p = job.plan;
    match s {
        DStep::Embed { row, place, dst, quant } => {
            &&& row == job.row
            &&& place == job.place
            &&& quant == p.dec_x
            &&& dst.mem == Mem::Ram && dst.off % 256 == 0 && dst.len == 3072
        },
        DStep::Asset { what, dst } => dst.mem == Mem::Ram && dst.off % 256 == 0,
        DStep::Norm { src, gb, dst, from, to } => exists|l: int, part: int|
            {
                &&& 0 <= l < 4 && 0 <= part < 3
                &&& #[trigger] holds(m, src, Datum::Residual { l, done: part }, 0)
                &&& #[trigger] holds(m, gb, Datum::GammaBeta { l, part }, 0)
                &&& src.len == 3072 && gb.len == 3072 && dst.len == 1536
                &&& from == residual_scale(p, l, part)
                &&& to == norm_scale(p, l, part)
            },
        DStep::Run { blob, input, output, next } => {
            &&& feeds(blob) != Datum::Nothing
            &&& holds(m, input, feeds(blob), 0)
            &&& input.len == 1536 && output.len == 1536
            &&& output.mem == Mem::Ram && output.off % 256 == 0
        },
        DStep::Append { l, pos, k, v } => {
            &&& l == m.cached
            &&& pos == job.n_tok
            &&& holds(m, k, Datum::Output(Blob::Dec(l, Kind::K, 0)), 0)
            &&& holds(m, v, Datum::Output(Blob::Dec(l, Kind::V, 0)), 0)
            &&& k.len == 1536 && v.len == 1536
        },
        DStep::SelfHead { l, h, t, query, ctx, qq, qk, qv, qc } => {
            &&& l + 1 == m.cached
            &&& h < 6
            &&& t == job.n_tok + 1
            &&& holds(m, query, Datum::Output(Blob::Dec(l, Kind::Q, 0)), h as int)
            &&& query.len == 256 && ctx.len == 256
            &&& ctx.mem == Mem::Ram && ctx.off % 256 == 0
            &&& qq == p.dec[l as int].q_out && qk == p.dec[l as int].k_out
            &&& qv == p.dec[l as int].v_out && qc == p.dec[l as int].ctx
        },
        DStep::AddTo { acc, b, qa, qb, qd } => exists|l: int, done: int|
            {
                &&& 0 <= l < 4 && 0 <= done < 2
                &&& #[trigger] holds(m, acc, Datum::Residual { l, done }, 0)
                &&& acc.len == 3072 && b.len == 1536
                &&& holds(
                    m,
                    b,
                    Datum::Output(
                        Blob::Dec(
                            l as usize,
                            if done == 0 {
                                Kind::Out
                            } else {
                                Kind::Xout
                            },
                            0,
                        ),
                    ),
                    0,
                )
                &&& qa == residual_scale(p, l, done)
                &&& qb == (if done == 0 {
                    p.dec[l].out_out
                } else {
                    p.dec[l].xout_out
                })
                &&& qd == residual_scale(p, l, done + 1)
            },
        DStep::Start { at, buf } => {
            &&& exists|which: int, l: int, h: int|
                0 <= which < 2 && 0 <= l < 4 && 0 <= h < 6 && #[trigger] staged(
                    at as int,
                    which,
                    l,
                    h,
                )
            &&& buf.len == 4096 * job.tiles
            &&& buf.mem == Mem::Ram && buf.off % 256 == 0
        },
        DStep::CrossHead { h, tk, query, k, v, ctx, qq, qk, qv, qc } => exists|l: int|
            {
                &&& 0 <= l < 4
                &&& h < 6
                &&& tk == job.tk
                &&& #[trigger] holds(m, k, Datum::CrossKeys { l, h: h as int }, 0)
                &&& holds(m, v, Datum::CrossValues { l, h: h as int }, 0)
                &&& holds(m, query, Datum::Output(Blob::Dec(l as usize, Kind::Xq, 0)), h as int)
                &&& k.len == 4096 * job.tiles && v.len == 4096 * job.tiles
                &&& query.len == 256 && ctx.len == 256
                &&& ctx.mem == Mem::Ram && ctx.off % 256 == 0
                &&& qq == p.dec[l].xq_out && qk == p.dec[l].xk_out
                &&& qv == p.dec[l].xv_out && qc == p.dec[l].xctx
            },
        DStep::Lut { table, buf } => exists|l: int, j: int|
            {
                &&& 0 <= l < 4 && 0 <= j < 4
                &&& #[trigger] holds(m, table, Datum::Table { l, j }, 0)
                &&& holds(
                    m,
                    buf,
                    Datum::Output(Blob::Dec(l as usize, Kind::Fc1, j as usize)),
                    0,
                )
                &&& table.len == 256 && buf.len == 1536
            },
        DStep::Sum4 { acc, parts, pq, qa, qd } => exists|l: int|
            {
                &&& 0 <= l < 4
                &&& #[trigger] holds(m, acc, Datum::Residual { l, done: 2 }, 0)
                &&& acc.len == 3072 && parts.len == 6144
                &&& parts.mem == Mem::Ram && parts.off % 256 == 0
                &&& forall|u: int|
                    lo(parts) <= u < hi(parts) ==> #[trigger] (m.held)(u) == (Piece {
                        what: Datum::Output(
                            Blob::Dec(l as usize, Kind::Fc2p, ((u - lo(parts)) / 6) as usize),
                        ),
                        at: (u - lo(parts)) % 6,
                    })
                &&& pq == p.dec[l].fc2p_out
                &&& qa == p.dec[l].res2
                &&& qd == p.dec[l].res3
            },
        _ => true,
    }
}

/// What the first piece of a buffer belongs to.
pub open spec fn first_of(m: Memory, b: Buf) -> Datum {
    (m.held)(lo(b)).what
}

/// What a step leaves. A run writes over the place where the blob is
/// expanded and the place where the next one lands.
#[verifier::opaque]
pub open spec fn leaves(s: DStep, m: Memory, job: Job) -> Memory {
    match s {
        DStep::Embed { dst, .. } => with(m, dst, Datum::Residual { l: 0, done: 0 }, 0),
        DStep::Asset { what, dst } => Memory {
            held: |u: int|
                if lo(dst) <= u < hi(dst) {
                    asset_piece(what, u - lo(dst))
                } else {
                    (m.held)(u)
                },
            ..m
        },
        DStep::Norm { src, dst, .. } => match first_of(m, src) {
            Datum::Residual { l, done } => with(m, dst, Datum::Normed { l, part: done }, 0),
            _ => m,
        },
        DStep::Run { blob, output, .. } => with(
            with(with(m, land(), Datum::Nothing, 0), dec_zone(), Datum::Nothing, 0),
            output,
            Datum::Output(blob),
            0,
        ),
        DStep::Append { .. } => Memory { cached: m.cached + 1, ..m },
        DStep::SelfHead { l, h, ctx, .. } => with(
            m,
            ctx,
            Datum::SelfContext { l: l as int },
            h as int,
        ),
        DStep::AddTo { acc, .. } => match first_of(m, acc) {
            Datum::Residual { l, done } => with(m, acc, Datum::Residual { l, done: done + 1 }, 0),
            _ => m,
        },
        DStep::Start { at, buf } => {
            let o = at - 9472;
            let l = o / 960;
            let h = o % 480 / 80;
            with(
                m,
                buf,
                if o % 960 < 480 {
                    Datum::CrossKeys { l, h }
                } else {
                    Datum::CrossValues { l, h }
                },
                0,
            )
        },
        DStep::CrossHead { h, k, ctx, .. } => match first_of(m, k) {
            Datum::CrossKeys { l, .. } => with(m, ctx, Datum::CrossContext { l }, h as int),
            _ => m,
        },
        DStep::Lut { table, buf } => match first_of(m, table) {
            Datum::Table { l, j } => with(m, buf, Datum::Gelu { l, j }, 0),
            _ => m,
        },
        DStep::Sum4 { acc, .. } => match first_of(m, acc) {
            Datum::Residual { l, .. } => with(m, acc, Datum::Residual { l: l + 1, done: 0 }, 0),
            _ => m,
        },
        _ => m,
    }
}

/// The memory at the end, if every step was sound.
#[verifier::opaque]
pub open spec fn computed(steps: Seq<DStep>, m: Memory, job: Job) -> Option<Memory>
    decreases steps.len(),
{
    if steps.len() == 0 {
        Some(m)
    } else {
        match computed(steps.drop_last(), m, job) {
            None => None,
            Some(e) => if sound(steps.last(), e, job) {
                Some(leaves(steps.last(), e, job))
            } else {
                None
            },
        }
    }
}

/// Whatever was in memory before: every step finds what it is meant for, all
/// four blocks' caches get the token's keys and values once, and the residual
/// after the last block is left at the start of the arena.
pub open spec fn puts_the_token_through(steps: Seq<DStep>, job: Job) -> bool {
    forall|before: spec_fn(int) -> Piece|
        {
            let end = #[trigger] computed(steps, Memory { held: before, cached: 0 }, job);
            &&& end is Some
            &&& end->0.cached == 4
            &&& holds(
                end->0,
                Buf { mem: Mem::Ram, off: 0, len: 3072 },
                Datum::Residual { l: 4, done: 0 },
                0,
            )
        }
}

/// Each step of a script that puts a token through found what it is meant
/// for when it came; what went into a block's cache as keys was the output of
/// that block's keys' blob, and as values that of its values' blob.
pub proof fn law_every_step_found_what_it_is_meant_for(
    steps: Seq<DStep>,
    m: Memory,
    job: Job,
    i: int,
)
    requires
        computed(steps, m, job) is Some,
        0 <= i < steps.len(),
    ensures
        computed(steps.take(i), m, job) is Some,
        sound(steps[i], computed(steps.take(i), m, job)->0, job),
        steps[i] matches DStep::Append { l, pos, k, v } ==> {
            let e = computed(steps.take(i), m, job)->0;
            &&& pos == job.n_tok
            &&& holds(e, k, Datum::Output(Blob::Dec(l, Kind::K, 0)), 0)
            &&& holds(e, v, Datum::Output(Blob::Dec(l, Kind::V, 0)), 0)
        },
    decreases steps.len() - i,
{
    reveal_with_fuel(computed, 2);
    reveal(sound);
    if i == steps.len() - 1 {
        assert(steps.take(i) =~= steps.drop_last());
    } else {
        law_every_step_found_what_it_is_meant_for(steps.drop_last(), m, job, i);
        assert(steps.drop_last().take(i) =~= steps.take(i));
    }
}

// --- how the steps follow one another ---------------------------------------------------

proof fn lemma_none(m: Memory, job: Job)
    ensures
        computed(Seq::<DStep>::empty(), m, job) == Some(m),
{
    reveal_with_fuel(computed, 1);
}

proof fn lemma_then(steps: Seq<DStep>, s: DStep, m: Memory, e: Memory, job: Job)
    requires
        computed(steps, m, job) == Some(e),
        sound(s, e, job),
    ensures
        computed(steps.push(s), m, job) == Some(leaves(s, e, job)),
{
    reveal_with_fuel(computed, 2);
    assert(steps.push(s).drop_last() =~= steps);
}

proof fn lemma_after(a: Seq<DStep>, b: Seq<DStep>, m: Memory, e: Memory, job: Job)
    requires
        computed(a, m, job) == Some(e),
    ensures
        computed(a + b, m, job) == computed(b, e, job),
    decreases b.len(),
{
    reveal_with_fuel(computed, 2);
    if b.len() == 0 {
        assert(a + b =~= a);
    } else {
        lemma_after(a, b.drop_last(), m, e, job);
        assert((a + b).drop_last() =~= a + b.drop_last());
        assert((a + b).last() == b.last());
    }
}

/// `e` is `m` but for the buffer, which holds this.
spec fn changed(m: Memory, e: Memory, b: Buf, what: Datum, at: int) -> bool {
    &&& e.cached == m.cached
    &&& forall|u: int|
        #![trigger (e.held)(u)]
        (e.held)(u) == (if lo(b) <= u < hi(b) {
            Piece { what, at: at + u - lo(b) }
        } else {
            (m.held)(u)
        })
}

/// A step that moves no data.
spec fn moves_nothing(s: DStep) -> bool {
    s is Settle || s is Forget || s is Wait
}

proof fn then_idle(steps: Seq<DStep>, s: DStep, m: Memory, e: Memory, job: Job)
    requires
        computed(steps, m, job) == Some(e),
        moves_nothing(s),
    ensures
        computed(steps.push(s), m, job) == Some(e),
{
    reveal(sound);
    reveal(leaves);
    lemma_then(steps, s, m, e, job);
}

proof fn then_asset(
    steps: Seq<DStep>,
    what: Asset,
    dst: Buf,
    m: Memory,
    e: Memory,
    job: Job,
) -> (f: Memory)
    requires
        computed(steps, m, job) == Some(e),
        dst.mem == Mem::Ram,
        dst.off % 256 == 0,
    ensures
        computed(steps.push(DStep::Asset { what, dst }), m, job) == Some(f),
        f.cached == e.cached,
        forall|u: int|
            #![trigger (f.held)(u)]
            (f.held)(u) == (if lo(dst) <= u < hi(dst) {
                asset_piece(what, u - lo(dst))
            } else {
                (e.held)(u)
            }),
{
    reveal(sound);
    reveal(leaves);
    lemma_then(steps, DStep::Asset { what, dst }, m, e, job);
    leaves(DStep::Asset { what, dst }, e, job)
}

proof fn then_norm(steps: Seq<DStep>, s: DStep, l: int, part: int, m: Memory, e: Memory, job: Job)
    -> (f: Memory)
    requires
        computed(steps, m, job) == Some(e),
        s matches DStep::Norm { src, gb, dst, from, to } && {
            &&& 0 <= l < 4 && 0 <= part < 3
            &&& holds(e, src, Datum::Residual { l, done: part }, 0)
            &&& holds(e, gb, Datum::GammaBeta { l, part }, 0)
            &&& src.len == 3072 && gb.len == 3072 && dst.len == 1536
            &&& from == residual_scale(job.plan, l, part)
            &&& to == norm_scale(job.plan, l, part)
        },
    ensures
        computed(steps.push(s), m, job) == Some(f),
        changed(e, f, s->Norm_dst, Datum::Normed { l, part }, 0),
{
    reveal(sound);
    reveal(leaves);
    let src = s->Norm_src;
    assert((e.held)(lo(src)) == (Piece { what: Datum::Residual { l, done: part }, at: 0 }));
    lemma_then(steps, s, m, e, job);
    leaves(s, e, job)
}

/// `e` is `m` but for what a run of the blob writes.
spec fn ran(m: Memory, e: Memory, blob: Blob, output: Buf) -> bool {
    &&& e.cached == m.cached
    &&& forall|u: int|
        #![trigger (e.held)(u)]
        (e.held)(u) == (if lo(output) <= u < hi(output) {
            Piece { what: Datum::Output(blob), at: u - lo(output) }
        } else if lo(land()) <= u < hi(land()) || lo(dec_zone()) <= u < hi(dec_zone()) {
            (e.held)(u)
        } else {
            (m.held)(u)
        })
}

proof fn then_run(steps: Seq<DStep>, s: DStep, m: Memory, e: Memory, job: Job) -> (f: Memory)
    requires
        computed(steps, m, job) == Some(e),
        s matches DStep::Run { blob, input, output, next } && {
            &&& feeds(blob) != Datum::Nothing
            &&& holds(e, input, feeds(blob), 0)
            &&& input.len == 1536 && output.len == 1536
            &&& output.mem == Mem::Ram && output.off % 256 == 0
        },
    ensures
        computed(steps.push(s), m, job) == Some(f),
        ran(e, f, s->Run_blob, s->Run_output),
{
    reveal(sound);
    reveal(leaves);
    lemma_then(steps, s, m, e, job);
    leaves(s, e, job)
}

proof fn then_append(steps: Seq<DStep>, s: DStep, m: Memory, e: Memory, job: Job) -> (f: Memory)
    requires
        computed(steps, m, job) == Some(e),
        s matches DStep::Append { l, pos, k, v } && {
            &&& l == e.cached
            &&& pos == job.n_tok
            &&& holds(e, k, Datum::Output(Blob::Dec(l, Kind::K, 0)), 0)
            &&& holds(e, v, Datum::Output(Blob::Dec(l, Kind::V, 0)), 0)
            &&& k.len == 1536 && v.len == 1536
        },
    ensures
        computed(steps.push(s), m, job) == Some(f),
        f.held == e.held,
        f.cached == e.cached + 1,
{
    reveal(sound);
    reveal(leaves);
    lemma_then(steps, s, m, e, job);
    leaves(s, e, job)
}

proof fn then_self(steps: Seq<DStep>, s: DStep, m: Memory, e: Memory, job: Job) -> (f: Memory)
    requires
        computed(steps, m, job) == Some(e),
        s is SelfHead,
        sound(s, e, job),
    ensures
        computed(steps.push(s), m, job) == Some(f),
        changed(
            e,
            f,
            s->SelfHead_ctx,
            Datum::SelfContext { l: s->SelfHead_l as int },
            s->SelfHead_h as int,
        ),
{
    reveal(leaves);
    lemma_then(steps, s, m, e, job);
    leaves(s, e, job)
}

proof fn then_add(steps: Seq<DStep>, s: DStep, l: int, done: int, m: Memory, e: Memory, job: Job)
    -> (f: Memory)
    requires
        computed(steps, m, job) == Some(e),
        0 <= l < 4,
        0 <= done < 2,
        s matches DStep::AddTo { acc, b, qa, qb, qd } && {
            &&& holds(e, acc, Datum::Residual { l, done }, 0)
            &&& acc.len == 3072 && b.len == 1536
            &&& holds(
                e,
                b,
                Datum::Output(
                    Blob::Dec(
                        l as usize,
                        if done == 0 {
                            Kind::Out
                        } else {
                            Kind::Xout
                        },
                        0,
                    ),
                ),
                0,
            )
            &&& qa == residual_scale(job.plan, l, done)
            &&& qb == (if done == 0 {
                job.plan.dec[l].out_out
            } else {
                job.plan.dec[l].xout_out
            })
            &&& qd == residual_scale(job.plan, l, done + 1)
        },
    ensures
        computed(steps.push(s), m, job) == Some(f),
        changed(e, f, s->AddTo_acc, Datum::Residual { l, done: done + 1 }, 0),
{
    reveal(sound);
    reveal(leaves);
    let acc = s->AddTo_acc;
    assert((e.held)(lo(acc)) == (Piece { what: Datum::Residual { l, done }, at: 0 }));
    lemma_then(steps, s, m, e, job);
    leaves(s, e, job)
}

proof fn then_start(
    steps: Seq<DStep>,
    s: DStep,
    which: int,
    l: int,
    h: int,
    m: Memory,
    e: Memory,
    job: Job,
) -> (f: Memory)
    requires
        computed(steps, m, job) == Some(e),
        0 <= which < 2,
        0 <= l < 4,
        0 <= h < 6,
        s matches DStep::Start { at, buf } && {
            &&& staged(at as int, which, l, h)
            &&& buf.len == 4096 * job.tiles
            &&& buf.mem == Mem::Ram && buf.off % 256 == 0
        },
    ensures
        computed(steps.push(s), m, job) == Some(f),
        changed(
            e,
            f,
            s->Start_buf,
            if which == 0 {
                Datum::CrossKeys { l, h }
            } else {
                Datum::CrossValues { l, h }
            },
            0,
        ),
{
    reveal(sound);
    reveal(leaves);
    let o = s->at - 9472;
    assert(o == 960 * l + 480 * which + 80 * h);
    assert(o / 960 == l);
    assert(o % 960 == 480 * which + 80 * h);
    assert(o % 480 == 80 * h);
    lemma_then(steps, s, m, e, job);
    leaves(s, e, job)
}

proof fn then_cross(steps: Seq<DStep>, s: DStep, l: int, m: Memory, e: Memory, job: Job) -> (f:
    Memory)
    requires
        computed(steps, m, job) == Some(e),
        0 <= l < 4,
        job.tiles >= 1,
        s matches DStep::CrossHead { h, tk, query, k, v, ctx, qq, qk, qv, qc } && {
            &&& h < 6
            &&& tk == job.tk
            &&& holds(e, k, Datum::CrossKeys { l, h: h as int }, 0)
            &&& holds(e, v, Datum::CrossValues { l, h: h as int }, 0)
            &&& holds(e, query, Datum::Output(Blob::Dec(l as usize, Kind::Xq, 0)), h as int)
            &&& k.len == 4096 * job.tiles && v.len == 4096 * job.tiles
            &&& query.len == 256 && ctx.len == 256
            &&& ctx.mem == Mem::Ram && ctx.off % 256 == 0
            &&& qq == job.plan.dec[l].xq_out && qk == job.plan.dec[l].xk_out
            &&& qv == job.plan.dec[l].xv_out && qc == job.plan.dec[l].xctx
        },
    ensures
        computed(steps.push(s), m, job) == Some(f),
        changed(e, f, s->CrossHead_ctx, Datum::CrossContext { l }, s->CrossHead_h as int),
{
    reveal(sound);
    reveal(leaves);
    let k = s->CrossHead_k;
    let h = s->CrossHead_h as int;
    assert((e.held)(lo(k)) == (Piece { what: Datum::CrossKeys { l, h }, at: 0 }));
    lemma_then(steps, s, m, e, job);
    leaves(s, e, job)
}

proof fn then_lut(steps: Seq<DStep>, s: DStep, l: int, j: int, m: Memory, e: Memory, job: Job) -> (f:
    Memory)
    requires
        computed(steps, m, job) == Some(e),
        0 <= l < 4,
        0 <= j < 4,
        s matches DStep::Lut { table, buf } && {
            &&& holds(e, table, Datum::Table { l, j }, 0)
            &&& holds(e, buf, Datum::Output(Blob::Dec(l as usize, Kind::Fc1, j as usize)), 0)
            &&& table.len == 256 && buf.len == 1536
        },
    ensures
        computed(steps.push(s), m, job) == Some(f),
        changed(e, f, s->Lut_buf, Datum::Gelu { l, j }, 0),
{
    reveal(sound);
    reveal(leaves);
    let table = s->table;
    assert((e.held)(lo(table)) == (Piece { what: Datum::Table { l, j }, at: 0 }));
    lemma_then(steps, s, m, e, job);
    leaves(s, e, job)
}

/// The partial sums of the first `n` quarters follow one another.
spec fn has_parts(m: Memory, l: int, n: int) -> bool {
    forall|u: int|
        48 <= u < 48 + 6 * n ==> #[trigger] (m.held)(u) == (Piece {
            what: Datum::Output(Blob::Dec(l as usize, Kind::Fc2p, ((u - 48) / 6) as usize)),
            at: (u - 48) % 6,
        })
}

proof fn then_sum(steps: Seq<DStep>, s: DStep, l: int, m: Memory, e: Memory, job: Job) -> (f:
    Memory)
    requires
        computed(steps, m, job) == Some(e),
        0 <= l < 4,
        has_parts(e, l, 4),
        at_block(e, l, 2),
        s == (DStep::Sum4 {
            acc: residual(),
            parts: arena_buf(D_P as int, 6144),
            pq: job.plan.dec[l].fc2p_out,
            qa: job.plan.dec[l].res2,
            qd: job.plan.dec[l].res3,
        }),
    ensures
        computed(steps.push(s), m, job) == Some(f),
        changed(e, f, residual(), Datum::Residual { l: l + 1, done: 0 }, 0),
{
    reveal(sound);
    reveal(leaves);
    assert((e.held)(0) == (Piece { what: Datum::Residual { l, done: 2 }, at: 0 }));
    assert(holds(e, residual(), Datum::Residual { l, done: 2 }, 0));
    lemma_then(steps, s, m, e, job);
    leaves(s, e, job)
}

/// The constants of block `l` are in their place.
spec fn has_constants(m: Memory, l: int) -> bool {
    &&& has_norms(m, l)
    &&& forall|u: int|
        108 <= u < 112 ==> #[trigger] (m.held)(u) == (Piece {
            what: Datum::Table { l, j: u - 108 },
            at: 0,
        })
}

/// The residual of block `l` is in its place.
spec fn at_block(m: Memory, l: int, done: int) -> bool {
    holds(m, residual(), Datum::Residual { l, done }, 0)
}

/// The gammas and betas of block `l` are in their place.
spec fn has_norms(m: Memory, l: int) -> bool {
    &&& holds(m, gamma_beta(DC_LN1 as int), Datum::GammaBeta { l, part: 0 }, 0)
    &&& holds(m, gamma_beta(DC_XLN as int), Datum::GammaBeta { l, part: 1 }, 0)
    &&& holds(m, gamma_beta(DC_LN2 as int), Datum::GammaBeta { l, part: 2 }, 0)
}

proof fn lemma_norms(s1: Seq<DStep>, l: int, m: Memory, e: Memory, job: Job) -> (f: Memory)
    requires
        0 <= l < 4,
        computed(s1, m, job) == Some(e),
        at_block(e, l, 0),
    ensures
        computed(
            s1.push(const_steps(false, l)[0]).push(const_steps(false, l)[1]).push(
                const_steps(false, l)[2],
            ),
            m,
            job,
        ) == Some(f),
        at_block(f, l, 0),
        has_norms(f, l),
        f.cached == e.cached,
{
    let lu = l as usize;
    let c = const_steps(false, l);
    let d = D_DC as int;
    let m1 = then_asset(s1, Asset::DecLn1(lu), arena_buf(d + DC_LN1, 3072), m, e, job);
    let s2 = s1.push(c[0]);
    let m2 = then_asset(s2, Asset::DecXln(lu), arena_buf(d + DC_XLN, 3072), m, m1, job);
    let s3 = s2.push(c[1]);
    then_asset(s3, Asset::DecLn2(lu), arena_buf(d + DC_LN2, 3072), m, m2, job)
}

/// One table behind the norms, which leaves the tables before it.
proof fn lemma_table(s: Seq<DStep>, l: int, j: int, m: Memory, e: Memory, job: Job) -> (f: Memory)
    requires
        0 <= l < 4,
        0 <= j < 4,
        computed(s, m, job) == Some(e),
        at_block(e, l, 0),
        has_norms(e, l),
        forall|u: int|
            108 <= u < 108 + j ==> #[trigger] (e.held)(u) == (Piece {
                what: Datum::Table { l, j: u - 108 },
                at: 0,
            }),
    ensures
        computed(s.push(const_steps(false, l)[3 + j]), m, job) == Some(f),
        at_block(f, l, 0),
        has_norms(f, l),
        forall|u: int|
            108 <= u < 109 + j ==> #[trigger] (f.held)(u) == (Piece {
                what: Datum::Table { l, j: u - 108 },
                at: 0,
            }),
        f.cached == e.cached,
{
    let t = D_DC + DC_LUT + 256 * j;
    assert(const_steps(false, l)[3 + j] == (DStep::Asset {
        what: Asset::DecLut(l as usize, j as usize),
        dst: arena_buf(t, 512),
    }));
    then_asset(s, Asset::DecLut(l as usize, j as usize), arena_buf(t, 512), m, e, job)
}

proof fn lemma_constants(bundled: bool, l: int, m: Memory, job: Job) -> (e: Memory)
    requires
        0 <= l < 4,
        at_block(m, l, 0),
    ensures
        computed(seq![DStep::Settle] + const_steps(bundled, l), m, job) == Some(e),
        at_block(e, l, 0),
        has_constants(e, l),
        e.cached == m.cached,
{
    let c = const_steps(bundled, l);
    let s0 = Seq::<DStep>::empty();
    lemma_none(m, job);
    then_idle(s0, DStep::Settle, m, m, job);
    let s1 = s0.push(DStep::Settle);
    if bundled {
        let dst = arena_buf(D_DC as int, 10240);
        let e = then_asset(s1, Asset::DecAll(l as usize), dst, m, m, job);
        assert(seq![DStep::Settle] + c =~= s1.push(c[0]));
        e
    } else {
        let m3 = lemma_norms(s1, l, m, m, job);
        let s4 = s1.push(c[0]).push(c[1]).push(c[2]);
        let m4 = lemma_table(s4, l, 0, m, m3, job);
        let m5 = lemma_table(s4.push(c[3]), l, 1, m, m4, job);
        let m6 = lemma_table(s4.push(c[3]).push(c[4]), l, 2, m, m5, job);
        let m7 = lemma_table(s4.push(c[3]).push(c[4]).push(c[5]), l, 3, m, m6, job);
        assert(seq![DStep::Settle] + c =~= s4.push(c[3]).push(c[4]).push(c[5]).push(c[6]));
        m7
    }
}

// --- the parts of a block ---------------------------------------------------------------

proof fn lemma_self_begin(bundled: bool, l: int, m: Memory, job: Job) -> (e: Memory)
    requires
        0 <= l < 4,
        at_block(m, l, 0),
        m.cached == l,
        0 <= job.n_tok < 32,
    ensures
        computed(
            self_begin(
                bundled,
                l,
                job.n_tok,
                residual_scale(job.plan, l, 0),
                job.plan.dec[l],
            ),
            m,
            job,
        ) == Some(e),
        at_block(e, l, 0),
        has_constants(e, l),
        holds(e, tok(D_Q as int), Datum::Output(d_blob(l, Kind::Q, 0)), 0),
        e.cached == l + 1,
{
    let sq = residual_scale(job.plan, l, 0);
    let q = job.plan.dec[l];
    let s0 = seq![DStep::Settle] + const_steps(bundled, l);
    let m0 = lemma_constants(bundled, l, m, job);
    let norm = DStep::Norm {
        src: residual(),
        gb: gamma_beta(DC_LN1 as int),
        dst: tok(D_LN as int),
        from: sq,
        to: q.ln1,
    };
    let m1 = then_norm(s0, norm, l, 0, m, m0, job);
    let s1 = s0.push(norm);
    let rq = d_run(d_blob(l, Kind::Q, 0), D_LN as int, D_Q as int, d_blob(l, Kind::K, 0));
    let m2 = then_run(s1, rq, m, m1, job);
    let s2 = s1.push(rq);
    let rk = d_run(d_blob(l, Kind::K, 0), D_LN as int, D_K as int, d_blob(l, Kind::V, 0));
    let m3 = then_run(s2, rk, m, m2, job);
    let s3 = s2.push(rk);
    let rv = d_run(d_blob(l, Kind::V, 0), D_LN as int, D_V as int, d_blob(l, Kind::Out, 0));
    let m4 = then_run(s3, rv, m, m3, job);
    let s4 = s3.push(rv);
    let append = DStep::Append {
        l: l as usize,
        pos: job.n_tok as usize,
        k: tok(D_K as int),
        v: tok(D_V as int),
    };
    let m5 = then_append(s4, append, m, m4, job);
    assert(self_begin(bundled, l, job.n_tok, sq, q) =~= s4.push(append));
    m5
}

/// The contexts of the first `n` heads.
spec fn has_contexts(m: Memory, what: Datum, n: int) -> bool {
    forall|u: int|
        36 <= u < 36 + n ==> #[trigger] (m.held)(u) == (Piece { what, at: u - 36 })
}

proof fn lemma_self_heads(l: int, n: int, m: Memory, job: Job) -> (e: Memory)
    requires
        0 <= l < 4,
        0 <= n <= 6,
        at_block(m, l, 0),
        has_constants(m, l),
        holds(m, tok(D_Q as int), Datum::Output(d_blob(l, Kind::Q, 0)), 0),
        m.cached == l + 1,
        0 <= job.n_tok < 32,
    ensures
        computed(self_heads(l, n, job.n_tok, job.plan.dec[l]), m, job) == Some(e),
        at_block(e, l, 0),
        has_constants(e, l),
        holds(e, tok(D_Q as int), Datum::Output(d_blob(l, Kind::Q, 0)), 0),
        has_contexts(e, Datum::SelfContext { l }, n),
        e.cached == l + 1,
    decreases n,
{
    if n == 0 {
        lemma_none(m, job);
        m
    } else {
        let e = lemma_self_heads(l, n - 1, m, job);
        let s = self_head(l, n - 1, job.n_tok, job.plan.dec[l]);
        assert(sound(s, e, job)) by {
            reveal(sound);
        }
        then_self(self_heads(l, n - 1, job.n_tok, job.plan.dec[l]), s, m, e, job)
    }
}

proof fn lemma_self_part(bundled: bool, l: int, m: Memory, job: Job) -> (e: Memory)
    requires
        0 <= l < 4,
        at_block(m, l, 0),
        m.cached == l,
        0 <= job.n_tok < 32,
    ensures
        computed(
            self_steps(
                bundled,
                l,
                job.n_tok,
                residual_scale(job.plan, l, 0),
                job.plan.dec[l],
            ),
            m,
            job,
        ) == Some(e),
        at_block(e, l, 1),
        has_constants(e, l),
        e.cached == l + 1,
{
    let sq = residual_scale(job.plan, l, 0);
    let q = job.plan.dec[l];
    let a = self_begin(bundled, l, job.n_tok, sq, q);
    let b = self_heads(l, 6, job.n_tok, q);
    let m1 = lemma_self_begin(bundled, l, m, job);
    let m2 = lemma_self_heads(l, 6, m1, job);
    lemma_after(a, b, m, m1, job);
    let run = d_run(d_blob(l, Kind::Out, 0), D_CTX as int, D_O as int, d_blob(l, Kind::Xq, 0));
    assert(holds(m2, tok(D_CTX as int), Datum::SelfContext { l }, 0));
    let m3 = then_run(a + b, run, m, m2, job);
    let add = DStep::AddTo {
        acc: residual(),
        b: tok(D_O as int),
        qa: sq,
        qb: q.out_out,
        qd: q.res1,
    };
    let m4 = then_add((a + b).push(run), add, l, 0, m, m3, job);
    assert(self_steps(bundled, l, job.n_tok, sq, q) =~= (a + b).push(run).push(add));
    m4
}

/// Head `h`'s keys and values have come, and the heads before it are done.
spec fn at_head(m: Memory, l: int, h: int, tiles: int) -> bool {
    &&& at_block(m, l, 1)
    &&& has_constants(m, l)
    &&& holds(m, tok(D_Q as int), Datum::Output(d_blob(l, Kind::Xq, 0)), 0)
    &&& has_contexts(m, Datum::CrossContext { l }, h)
    &&& m.cached == l + 1
    &&& h < 6 ==> {
        &&& holds(m, key_stage(h, tiles), Datum::CrossKeys { l, h }, 0)
        &&& holds(m, value_stage(tiles), Datum::CrossValues { l, h }, 0)
    }
}

proof fn lemma_cross_head(l: int, h: int, m: Memory, job: Job) -> (e: Memory)
    requires
        0 <= l < 4,
        0 <= h < 6,
        1 <= job.tiles <= 10,
        0 <= job.tk <= usize::MAX,
        at_head(m, l, h, job.tiles),
    ensures
        computed(cross_head(l, h, job.tiles, job.tk, job.plan.dec[l]), m, job) == Some(e),
        at_head(e, l, h + 1, job.tiles),
{
    let q = job.plan.dec[l];
    let tiles = job.tiles;
    lemma_none(m, job);
    let s0 = Seq::<DStep>::empty();
    then_idle(s0, DStep::Wait, m, m, job);
    let s1 = s0.push(DStep::Wait);
    let head = DStep::CrossHead {
        h: h as usize,
        tk: job.tk as usize,
        query: tok_head(D_Q as int, h),
        k: key_stage(h, tiles),
        v: value_stage(tiles),
        ctx: tok_head(D_CTX as int, h),
        qq: q.xq_out,
        qk: q.xk_out,
        qv: q.xv_out,
        qc: q.xctx,
    };
    if h < 5 {
        let m1 = then_start(s1, start_keys(l, h + 1, tiles), 0, l, h + 1, m, m, job);
        let s2 = s1.push(start_keys(l, h + 1, tiles));
        let m2 = then_cross(s2, head, l, m, m1, job);
        let s3 = s2.push(head);
        then_idle(s3, DStep::Wait, m, m2, job);
        let s4 = s3.push(DStep::Wait);
        let m3 = then_start(s4, start_values(l, h + 1, tiles), 1, l, h + 1, m, m2, job);
        let s5 = s4.push(start_values(l, h + 1, tiles));
        assert(cross_head(l, h, tiles, job.tk, q) =~= s5);
        m3
    } else {
        let m2 = then_cross(s1, head, l, m, m, job);
        assert(cross_head(l, h, tiles, job.tk, q) =~= s1.push(head));
        m2
    }
}

proof fn lemma_cross_heads(l: int, n: int, m: Memory, job: Job) -> (e: Memory)
    requires
        0 <= l < 4,
        0 <= n <= 6,
        1 <= job.tiles <= 10,
        0 <= job.tk <= usize::MAX,
        at_head(m, l, 0, job.tiles),
    ensures
        computed(cross_heads(l, n, job.tiles, job.tk, job.plan.dec[l]), m, job) == Some(e),
        at_head(e, l, n, job.tiles),
    decreases n,
{
    if n == 0 {
        lemma_none(m, job);
        m
    } else {
        let q = job.plan.dec[l];
        let e = lemma_cross_heads(l, n - 1, m, job);
        let f = lemma_cross_head(l, n - 1, e, job);
        lemma_after(
            cross_heads(l, n - 1, job.tiles, job.tk, q),
            cross_head(l, n - 1, job.tiles, job.tk, q),
            m,
            e,
            job,
        );
        f
    }
}

proof fn lemma_cross_part(l: int, m: Memory, job: Job) -> (e: Memory)
    requires
        0 <= l < 4,
        1 <= job.tiles <= 10,
        0 <= job.tk <= usize::MAX,
        at_block(m, l, 1),
        has_constants(m, l),
        m.cached == l + 1,
    ensures
        computed(cross_attention(l, job.tiles, job.tk, job.plan.dec[l]), m, job) == Some(e),
        at_block(e, l, 2),
        has_constants(e, l),
        e.cached == l + 1,
{
    let q = job.plan.dec[l];
    let tiles = job.tiles;
    lemma_none(m, job);
    let s0 = Seq::<DStep>::empty();
    let norm = DStep::Norm {
        src: residual(),
        gb: gamma_beta(DC_XLN as int),
        dst: tok(D_LN as int),
        from: q.res1,
        to: q.xln,
    };
    let m1 = then_norm(s0, norm, l, 1, m, m, job);
    let s1 = s0.push(norm);
    let run = d_run(d_blob(l, Kind::Xq, 0), D_LN as int, D_Q as int, d_blob(l, Kind::Xout, 0));
    let m2 = then_run(s1, run, m, m1, job);
    let s2 = s1.push(run);
    then_idle(s2, DStep::Settle, m, m2, job);
    let s3 = s2.push(DStep::Settle);
    then_idle(s3, DStep::Forget, m, m2, job);
    let s4 = s3.push(DStep::Forget);
    let m3 = then_start(s4, start_keys(l, 0, tiles), 0, l, 0, m, m2, job);
    let s5 = s4.push(start_keys(l, 0, tiles));
    then_idle(s5, DStep::Wait, m, m3, job);
    let s6 = s5.push(DStep::Wait);
    let m4 = then_start(s6, start_values(l, 0, tiles), 1, l, 0, m, m3, job);
    let s7 = s6.push(start_values(l, 0, tiles));
    let b = cross_heads(l, 6, tiles, job.tk, q);
    let m5 = lemma_cross_heads(l, 6, m4, job);
    lemma_after(s7, b, m, m4, job);
    let out = d_run(d_blob(l, Kind::Xout, 0), D_CTX as int, D_O as int, d_blob(l, Kind::Fc1, 0));
    assert(holds(m5, tok(D_CTX as int), Datum::CrossContext { l }, 0));
    let m6 = then_run(s7 + b, out, m, m5, job);
    let add = DStep::AddTo {
        acc: residual(),
        b: tok(D_O as int),
        qa: q.res1,
        qb: q.xout_out,
        qd: q.res2,
    };
    let m7 = then_add((s7 + b).push(out), add, l, 1, m, m6, job);
    assert(cross_attention(l, tiles, job.tk, q) =~= (s7 + b).push(out).push(add));
    m7
}

/// The MLP of a block has come to quarter `j`.
spec fn at_quarter(m: Memory, l: int, j: int) -> bool {
    &&& at_block(m, l, 2)
    &&& has_constants(m, l)
    &&& holds(m, tok(D_LN as int), Datum::Normed { l, part: 2 }, 0)
    &&& has_parts(m, l, j)
    &&& m.cached == l + 1
}

proof fn lemma_mlp_quarter(l: int, j: int, m: Memory, job: Job) -> (e: Memory)
    requires
        0 <= l < 4,
        0 <= j < 4,
        at_quarter(m, l, j),
    ensures
        computed(d_mlp_part(l, j), m, job) == Some(e),
        at_quarter(e, l, j + 1),
{
    let s = d_mlp_part(l, j);
    let s0 = Seq::<DStep>::empty();
    lemma_none(m, job);
    let m1 = then_run(s0, s[0], m, m, job);
    let s1 = s0.push(s[0]);
    let m2 = then_lut(s1, s[1], l, j, m, m1, job);
    let s2 = s1.push(s[1]);
    let m3 = then_run(s2, s[2], m, m2, job);
    assert(s =~= s2.push(s[2]));
    assert forall|u: int| 48 <= u < 48 + 6 * (j + 1) implies #[trigger] (m3.held)(u) == (Piece {
        what: Datum::Output(Blob::Dec(l as usize, Kind::Fc2p, ((u - 48) / 6) as usize)),
        at: (u - 48) % 6,
    }) by {
        if u >= 48 + 6 * j {
            assert((u - 48) / 6 == j);
        } else {
            assert((m2.held)(u) == (m.held)(u));
        }
    }
    m3
}

proof fn lemma_mlp_quarters(l: int, n: int, m: Memory, job: Job) -> (e: Memory)
    requires
        0 <= l < 4,
        0 <= n <= 4,
        at_quarter(m, l, 0),
    ensures
        computed(d_mlp_parts(l, n), m, job) == Some(e),
        at_quarter(e, l, n),
    decreases n,
{
    if n == 0 {
        lemma_none(m, job);
        m
    } else {
        let e = lemma_mlp_quarters(l, n - 1, m, job);
        let f = lemma_mlp_quarter(l, n - 1, e, job);
        lemma_after(d_mlp_parts(l, n - 1), d_mlp_part(l, n - 1), m, e, job);
        f
    }
}

proof fn lemma_mlp_part(l: int, m: Memory, job: Job) -> (e: Memory)
    requires
        0 <= l < 4,
        at_block(m, l, 2),
        has_constants(m, l),
        m.cached == l + 1,
    ensures
        computed(d_mlp(l, job.plan.dec[l]), m, job) == Some(e),
        at_block(e, l + 1, 0),
        e.cached == l + 1,
{
    let q = job.plan.dec[l];
    let s0 = Seq::<DStep>::empty();
    lemma_none(m, job);
    let norm = DStep::Norm {
        src: residual(),
        gb: gamma_beta(DC_LN2 as int),
        dst: tok(D_LN as int),
        from: q.res2,
        to: q.ln2,
    };
    let m1 = then_norm(s0, norm, l, 2, m, m, job);
    let s1 = s0.push(norm);
    let b = d_mlp_parts(l, 4);
    let m2 = lemma_mlp_quarters(l, 4, m1, job);
    lemma_after(s1, b, m, m1, job);
    let sum = DStep::Sum4 {
        acc: residual(),
        parts: arena_buf(D_P as int, 6144),
        pq: q.fc2p_out,
        qa: q.res2,
        qd: q.res3,
    };
    let m3 = then_sum(s1 + b, sum, l, m, m2, job);
    assert(d_mlp(l, q) =~= (s1 + b).push(sum));
    m3
}

proof fn lemma_blocks(bundled: bool, n: int, m: Memory, job: Job) -> (e: Memory)
    requires
        0 <= n <= 4,
        1 <= job.tiles <= 10,
        0 <= job.tk <= usize::MAX,
        0 <= job.n_tok < 32,
        at_block(m, 0, 0),
        m.cached == 0,
    ensures
        computed(
            d_blocks(job.plan, bundled, n, job.n_tok, job.tiles, job.tk),
            m,
            job,
        ) == Some(e),
        at_block(e, n, 0),
        e.cached == n,
    decreases n,
{
    if n == 0 {
        lemma_none(m, job);
        m
    } else {
        let l = n - 1;
        let e = lemma_blocks(bundled, l, m, job);
        let q = job.plan.dec[l];
        let sq = residual_scale(job.plan, l, 0);
        assert(d_residual_quant(job.plan, l) == sq);
        let a = self_steps(bundled, l, job.n_tok, sq, q);
        let b = cross_attention(l, job.tiles, job.tk, q);
        let c = d_mlp(l, q);
        let m1 = lemma_self_part(bundled, l, e, job);
        let m2 = lemma_cross_part(l, m1, job);
        let m3 = lemma_mlp_part(l, m2, job);
        lemma_after(a, b, e, m1, job);
        lemma_after(a + b, c, e, m2, job);
        lemma_after(
            d_blocks(job.plan, bundled, l, job.n_tok, job.tiles, job.tk),
            a + b + c,
            m,
            e,
            job,
        );
        m3
    }
}

/// A token's script puts the token through the network: from its own
/// embedding and position, in every block its own keys and values into the
/// cache, self-attention over all tokens so far, cross-attention over the
/// utterance's own keys and values, and the four quarters of the MLP, each
/// part added to the residual before the next begins, under the
/// quantisations that the plan gives.
pub proof fn law_a_token_goes_through_the_network(
    plan: Plan,
    bundled: bool,
    row: u32,
    place: u32,
    n_tok: int,
    tiles: int,
    tk: int,
)
    requires
        0 <= n_tok < 32,
        1 <= tiles <= 10,
        0 <= tk <= usize::MAX,
    ensures
        puts_the_token_through(
            token_steps(plan, bundled, row, place, n_tok, tiles, tk),
            Job { plan, row, place, n_tok, tiles, tk },
        ),
{
    let job = Job { plan, row, place, n_tok, tiles, tk };
    let steps = token_steps(plan, bundled, row, place, n_tok, tiles, tk);
    assert forall|before: spec_fn(int) -> Piece|
        {
            let end = #[trigger] computed(steps, Memory { held: before, cached: 0 }, job);
            &&& end is Some
            &&& end->0.cached == 4
            &&& holds(
                end->0,
                Buf { mem: Mem::Ram, off: 0, len: 3072 },
                Datum::Residual { l: 4, done: 0 },
                0,
            )
        } by {
        let m = Memory { held: before, cached: 0 };
        lemma_none(m, job);
        let s0 = Seq::<DStep>::empty();
        then_idle(s0, DStep::Settle, m, m, job);
        let s1 = s0.push(DStep::Settle);
        let embed = DStep::Embed { row, place, dst: residual(), quant: plan.dec_x };
        assert(sound(embed, m, job)) by {
            reveal(sound);
        }
        lemma_then(s1, embed, m, m, job);
        let m1 = leaves(embed, m, job);
        assert(at_block(m1, 0, 0) && m1.cached == 0) by {
            reveal(leaves);
        }
        let e = lemma_blocks(bundled, 4, m1, job);
        lemma_after(
            s1.push(embed),
            d_blocks(plan, bundled, 4, n_tok, tiles, tk),
            m,
            m1,
            job,
        );
        assert(steps =~= s1.push(embed) + d_blocks(plan, bundled, 4, n_tok, tiles, tk));
    }
}

} // verus!
