//! One decoder step as a script: the token's embedding through four blocks,
//! with the packed blobs streaming in behind the NPU.
//!
//! A blob's packed bytes land in the free top of the arena and the bottom
//! of the slot while the blob before it runs; they are expanded into the top
//! of the slot. One transfer moves at a time, so a prefetch has to settle
//! before any other transfer starts.

use crate::cross::{cross_known, xkv_region};
use crate::encoder::{head_at, heads_known};
use crate::image::Kind;
use crate::kernels::Quant;
use crate::layout::{
    arena, arena_buf, slot, slot_buf, Buf, CRUMB_OFF, DC_LN1, DC_LN2, DC_LUT, DC_XLN, DEC_OFF,
    DE_XK0, DE_XV, D_CTX, D_DC, D_K, D_LN, D_O, D_P, D_Q, D_V, D_X16, LAND_ARENA, LAND_BYTES,
    MAX_TOKENS, STAGE_BYTES, S_XKV,
};
use crate::plan::{DecBlockQ, Plan};
use crate::script::{covers, fits, Asset, Blob};
use crate::token::{law_a_token_goes_through_the_network, puts_the_token_through, Job};
use vstd::prelude::*;

verus! {

#[derive(Clone, Copy, Debug)]
pub enum DStep {
    /// Wait for a prefetch, so that blocking transfers may follow.
    Settle,
    /// The slot no longer holds a blob.
    Forget,
    /// Embedding row plus positional row, quantised into the first column.
    Embed { row: u32, place: u32, dst: Buf, quant: Quant },
    /// A whole asset.
    Asset { what: Asset, dst: Buf },
    /// Layer norm of int16 columns into int8.
    Norm { src: Buf, gb: Buf, dst: Buf, from: Quant, to: Quant },
    /// Expand a packed blob, start on the next one's bytes, infer.
    Run { blob: Blob, input: Buf, output: Buf, next: Blob },
    /// Keys and values of this token into column `pos` of the cache.
    Append { l: usize, pos: usize, k: Buf, v: Buf },
    /// Self-attention of one head over the first `t` columns.
    SelfHead {
        l: usize,
        h: usize,
        t: usize,
        query: Buf,
        ctx: Buf,
        qq: Quant,
        qk: Quant,
        qv: Quant,
        qc: Quant,
    },
    /// int16 plus int8, in place.
    AddTo { acc: Buf, b: Buf, qa: Quant, qb: Quant, qd: Quant },
    /// Scratch blocks from block `at` on, in the background.
    Start { at: u32, buf: Buf },
    Wait,
    /// Cross-attention of one head over `tk` staged keys.
    CrossHead {
        h: usize,
        tk: usize,
        query: Buf,
        k: Buf,
        v: Buf,
        ctx: Buf,
        qq: Quant,
        qk: Quant,
        qv: Quant,
        qc: Quant,
    },
    /// An int8 map in place.
    Lut { table: Buf, buf: Buf },
    /// int16 plus four int8 parts that follow one another, in place.
    Sum4 { acc: Buf, parts: Buf, pq: [Quant; 4], qa: Quant, qd: Quant },
}

/// Where the transfers stand.
pub ghost struct DFlow {
    /// The blob whose packed bytes are landing or have landed.
    pub ahead: Option<Blob>,
    /// They may still be landing.
    pub moving: bool,
    /// Nothing has been written over them.
    pub intact: bool,
    /// The image bundles a block's constants.
    pub bundled: bool,
    /// The buffer that a background read fills.
    pub reading: Option<Buf>,
    /// Scratch blocks that hold data.
    pub known: Set<int>,
}

/// Where packed bytes land.
pub open spec fn land() -> Buf {
    arena_buf(LAND_ARENA as int, LAND_BYTES as int)
}

/// Where the expanded blob runs, and what borrows the place between runs.
pub open spec fn dec_zone() -> Buf {
    slot_buf(DEC_OFF as int, CRUMB_OFF - DEC_OFF)
}

/// A buffer that no transfer uses.
pub open spec fn unused(b: Buf, f: DFlow) -> bool {
    &&& b.inside()
    &&& f.ahead is Some ==> b.apart(land())
    &&& f.reading matches Some(r) ==> b.apart(r)
}

/// The transfer channel is free.
pub open spec fn channel_free(f: DFlow) -> bool {
    !f.moving && f.reading is None
}

/// What a step needs.
pub open spec fn d_allowed(s: DStep, f: DFlow) -> bool {
    match s {
        DStep::Settle => f.reading is None,
        DStep::Forget => true,
        DStep::Embed { dst, .. } => channel_free(f) && unused(dst, f),
        DStep::Asset { dst, .. } => channel_free(f) && dst.inside(),
        DStep::Norm { src, gb, dst, .. } => {
            unused(src, f) && unused(gb, f) && unused(dst, f) && src.apart(dst) && gb.apart(dst)
        },
        DStep::Run { blob, input, output, next } => {
            &&& f.reading is None
            &&& f.ahead is Some ==> f.ahead == Some(blob)
            &&& f.bundled ==> f.intact
            &&& input.inside() && input.apart(land()) && input.apart(dec_zone())
            &&& output.inside() && output.apart(land()) && output.apart(dec_zone())
            &&& input.apart(output)
        },
        DStep::Append { l, pos, k, v } => {
            l < 4 && pos < MAX_TOKENS && unused(k, f) && unused(v, f)
        },
        DStep::SelfHead { l, h, t, query, ctx, .. } => {
            l < 4 && h < 6 && 1 <= t <= MAX_TOKENS && unused(query, f) && unused(
                ctx,
                f,
            ) && query.apart(ctx)
        },
        DStep::AddTo { acc, b, .. } => unused(acc, f) && unused(b, f) && acc.apart(b),
        DStep::Start { at, buf } => {
            &&& channel_free(f)
            &&& unused(buf, f)
            &&& fits(at, buf)
            &&& covers(f.known, at as int, at + buf.len / 512)
        },
        DStep::Wait => f.reading is Some,
        DStep::CrossHead { h, tk, query, k, v, ctx, .. } => {
            &&& h < 6
            &&& unused(query, f) && unused(k, f) && unused(v, f) && unused(ctx, f)
            &&& ctx.apart(query) && ctx.apart(k) && ctx.apart(v)
            &&& k.apart(v)
        },
        DStep::Lut { table, buf } => unused(table, f) && unused(buf, f) && table.apart(buf),
        DStep::Sum4 { acc, parts, .. } => unused(acc, f) && unused(parts, f) && acc.apart(parts),
    }
}

/// Where the transfers stand after a step.
pub open spec fn d_after(s: DStep, f: DFlow) -> DFlow {
    match s {
        DStep::Settle => DFlow { moving: false, ..f },
        DStep::Asset { dst, .. } => DFlow {
            intact: f.intact && (f.ahead is None || dst.apart(land())),
            ..f
        },
        DStep::Run { next, .. } => DFlow { ahead: Some(next), moving: true, intact: true, ..f },
        DStep::Start { buf, .. } => DFlow { reading: Some(buf), ..f },
        DStep::Wait => DFlow { reading: None, ..f },
        _ => f,
    }
}

/// Where the transfers stand at the end, if every step had what it needed.
pub open spec fn d_flow(steps: Seq<DStep>, start: DFlow) -> Option<DFlow>
    decreases steps.len(),
{
    if steps.len() == 0 {
        Some(start)
    } else {
        match d_flow(steps.drop_last(), start) {
            None => None,
            Some(f) => if d_allowed(steps.last(), f) {
                Some(d_after(steps.last(), f))
            } else {
                None
            },
        }
    }
}

/// `g` is where `f` is, with perhaps less under way and more data.
pub open spec fn at_most(g: DFlow, f: DFlow) -> bool {
    &&& g.ahead is None || g.ahead == f.ahead
    &&& g.moving ==> f.moving
    &&& f.intact ==> g.intact
    &&& g.bundled == f.bundled
    &&& g.reading == f.reading
    &&& forall|b: int| f.known.contains(b) ==> #[trigger] g.known.contains(b)
}

/// A script that is clean from some state is clean from every state with
/// less under way and more data.
pub proof fn law_less_under_way_does_no_harm(steps: Seq<DStep>, f: DFlow, g: DFlow)
    requires
        at_most(g, f),
        d_flow(steps, f) is Some,
    ensures
        d_flow(steps, g) is Some,
        at_most(d_flow(steps, g)->0, d_flow(steps, f)->0),
    decreases steps.len(),
{
    if steps.len() > 0 {
        law_less_under_way_does_no_harm(steps.drop_last(), f, g);
    }
}

/// A decoder script under construction.
pub struct DScript {
    pub steps: Vec<DStep>,
    pub start: Ghost<DFlow>,
    pub flow: Ghost<DFlow>,
}

impl DScript {
    pub open spec fn wf(self) -> bool {
        d_flow(self.steps@, self.start@) == Some(self.flow@)
    }

    /// `self` is `before` with some steps added.
    pub open spec fn extends(self, before: DScript, more: Seq<DStep>) -> bool {
        &&& self.wf()
        &&& self.start == before.start
        &&& self.steps@ == before.steps@ + more
        &&& self.flow@.known == before.flow@.known
        &&& self.flow@.bundled == before.flow@.bundled
    }

    fn emit(&mut self, s: DStep)
        requires
            old(self).wf(),
            d_allowed(s, old(self).flow@),
        ensures
            final(self).wf(),
            final(self).start == old(self).start,
            final(self).steps@ == old(self).steps@.push(s),
            final(self).flow@ == d_after(s, old(self).flow@),
    {
        self.steps.push(s);
        self.flow = Ghost(d_after(s, self.flow@));
        assert(self.steps@.drop_last() =~= old(self).steps@);
    }
}

// --- constants of a block ---------------------------------------------------------------

/// One decoder block's constants: one bundle, or asset by asset. Read one by
/// one, the last table's block reaches into the landed bytes, whose sum then
/// sends them for again.
pub open spec fn const_steps(bundled: bool, l: int) -> Seq<DStep> {
    let lu = l as usize;
    if bundled {
        seq![DStep::Asset { what: Asset::DecAll(lu), dst: arena_buf(D_DC as int, 10240) }]
    } else {
        seq![
            DStep::Asset { what: Asset::DecLn1(lu), dst: arena_buf(D_DC + DC_LN1, 3072) },
            DStep::Asset { what: Asset::DecXln(lu), dst: arena_buf(D_DC + DC_XLN, 3072) },
            DStep::Asset { what: Asset::DecLn2(lu), dst: arena_buf(D_DC + DC_LN2, 3072) },
            DStep::Asset { what: Asset::DecLut(lu, 0), dst: arena_buf(D_DC + DC_LUT, 512) },
            DStep::Asset { what: Asset::DecLut(lu, 1), dst: arena_buf(D_DC + DC_LUT + 256, 512) },
            DStep::Asset { what: Asset::DecLut(lu, 2), dst: arena_buf(D_DC + DC_LUT + 512, 512) },
            DStep::Asset { what: Asset::DecLut(lu, 3), dst: arena_buf(D_DC + DC_LUT + 768, 512) },
        ]
    }
}


fn constants(s: &mut DScript, bundled: bool, l: usize)
    requires
        old(s).wf(),
        channel_free(old(s).flow@),
        old(s).flow@.intact,
        old(s).flow@.bundled == bundled,
    ensures
        final(s).extends(*old(s), const_steps(bundled, l as int)),
        final(s).flow@.ahead == old(s).flow@.ahead,
        final(s).flow@.moving == old(s).flow@.moving,
        final(s).flow@.reading == old(s).flow@.reading,
        bundled ==> final(s).flow@.intact,
{
    let ghost start = *s;
    if bundled {
        s.emit(DStep::Asset { what: Asset::DecAll(l), dst: arena(D_DC, 10240) });
    } else {
        s.emit(DStep::Asset { what: Asset::DecLn1(l), dst: arena(D_DC + DC_LN1, 3072) });
        s.emit(DStep::Asset { what: Asset::DecXln(l), dst: arena(D_DC + DC_XLN, 3072) });
        s.emit(DStep::Asset { what: Asset::DecLn2(l), dst: arena(D_DC + DC_LN2, 3072) });
        s.emit(DStep::Asset { what: Asset::DecLut(l, 0), dst: arena(D_DC + DC_LUT, 512) });
        s.emit(DStep::Asset { what: Asset::DecLut(l, 1), dst: arena(D_DC + DC_LUT + 256, 512) });
        s.emit(DStep::Asset { what: Asset::DecLut(l, 2), dst: arena(D_DC + DC_LUT + 512, 512) });
        s.emit(DStep::Asset { what: Asset::DecLut(l, 3), dst: arena(D_DC + DC_LUT + 768, 512) });
    }
    assert(s.steps@ =~= start.steps@ + const_steps(bundled, l as int));
}

// --- self-attention ---------------------------------------------------------------------

/// A token-rate int8 tensor.
pub open spec fn tok(off: int) -> Buf {
    arena_buf(off, 1536)
}

/// The token-rate residual.
pub open spec fn residual() -> Buf {
    arena_buf(D_X16 as int, 3072)
}

/// A gamma and beta pair among the constants.
pub open spec fn gamma_beta(at: int) -> Buf {
    arena_buf(D_DC + at, 3072)
}

/// Head `h`'s part of a token-rate tensor.
pub open spec fn tok_head(off: int, h: int) -> Buf {
    arena_buf(off + 256 * h, 256)
}

pub open spec fn self_head(l: int, h: int, n_tok: int, q: DecBlockQ) -> DStep {
    DStep::SelfHead {
        l: l as usize,
        h: h as usize,
        t: (n_tok + 1) as usize,
        query: tok_head(D_Q as int, h),
        ctx: tok_head(D_CTX as int, h),
        qq: q.q_out,
        qk: q.k_out,
        qv: q.v_out,
        qc: q.ctx,
    }
}

pub open spec fn self_heads(l: int, n: int, n_tok: int, q: DecBlockQ) -> Seq<DStep>
    decreases n,
{
    if n <= 0 {
        Seq::empty()
    } else {
        self_heads(l, n - 1, n_tok, q).push(self_head(l, n - 1, n_tok, q))
    }
}

pub open spec fn d_blob(l: int, kind: Kind, sub: int) -> Blob {
    Blob::Dec(l as usize, kind, sub as usize)
}

pub open spec fn d_run(blob: Blob, input: int, output: int, next: Blob) -> DStep {
    DStep::Run { blob, input: tok(input), output: tok(output), next }
}

/// The constants and the projections of a block.
pub open spec fn self_begin(bundled: bool, l: int, n_tok: int, sq: Quant, q: DecBlockQ) -> Seq<
    DStep,
> {
    seq![DStep::Settle] + const_steps(bundled, l) + seq![
        DStep::Norm {
            src: residual(),
            gb: gamma_beta(DC_LN1 as int),
            dst: tok(D_LN as int),
            from: sq,
            to: q.ln1,
        },
        d_run(d_blob(l, Kind::Q, 0), D_LN as int, D_Q as int, d_blob(l, Kind::K, 0)),
        d_run(d_blob(l, Kind::K, 0), D_LN as int, D_K as int, d_blob(l, Kind::V, 0)),
        d_run(d_blob(l, Kind::V, 0), D_LN as int, D_V as int, d_blob(l, Kind::Out, 0)),
        DStep::Append {
            l: l as usize,
            pos: n_tok as usize,
            k: tok(D_K as int),
            v: tok(D_V as int),
        },
    ]
}

/// The first part of a block: constants, projections, self-attention.
pub open spec fn self_steps(bundled: bool, l: int, n_tok: int, sq: Quant, q: DecBlockQ) -> Seq<
    DStep,
> {
    self_begin(bundled, l, n_tok, sq, q) + self_heads(l, 6, n_tok, q) + seq![
        d_run(d_blob(l, Kind::Out, 0), D_CTX as int, D_O as int, d_blob(l, Kind::Xq, 0)),
        DStep::AddTo { acc: residual(), b: tok(D_O as int), qa: sq, qb: q.out_out, qd: q.res1 },
    ]
}

/// The blob ahead is `b`, its bytes are whole, and no read is under way.
pub open spec fn expects(f: DFlow, b: Blob) -> bool {
    f.ahead == Some(b) && f.intact && f.reading is None
}

fn run_blob(s: &mut DScript, blob: Blob, input: usize, output: usize, next: Blob)
    requires
        old(s).wf(),
        input + 1536 <= D_DC,
        output + 1536 <= D_DC,
        input + 1536 <= output || output + 1536 <= input,
        old(s).flow@.reading is None,
        old(s).flow@.ahead is Some ==> old(s).flow@.ahead == Some(blob),
        old(s).flow@.bundled ==> old(s).flow@.intact,
    ensures
        final(s).wf(),
        final(s).start == old(s).start,
        final(s).steps@ == old(s).steps@.push(d_run(blob, input as int, output as int, next)),
        final(s).flow@ == (DFlow {
            ahead: Some(next),
            moving: true,
            intact: true,
            ..old(s).flow@
        }),
{
    s.emit(DStep::Run { blob, input: arena(input, 1536), output: arena(output, 1536), next });
}

fn attend_self(s: &mut DScript, l: usize, n_tok: usize, q: &DecBlockQ)
    requires
        old(s).wf(),
        l < 4,
        n_tok < MAX_TOKENS,
        old(s).flow@.reading is None,
    ensures
        final(s).extends(*old(s), self_heads(l as int, 6, n_tok as int, *q)),
        final(s).flow@ == old(s).flow@,
{
    let ghost start = *s;
    let mut h: usize = 0;
    assert(s.steps@ =~= start.steps@ + self_heads(l as int, 0, n_tok as int, *q));
    while h < 6
        invariant
            h <= 6,
            l < 4,
            n_tok < MAX_TOKENS,
            s.extends(start, self_heads(l as int, h as int, n_tok as int, *q)),
            s.flow@ == start.flow@,
            s.flow@.reading is None,
        decreases 6 - h,
    {
        s.emit(
            DStep::SelfHead {
                l,
                h,
                t: n_tok + 1,
                query: arena(D_Q + 256 * h, 256),
                ctx: arena(D_CTX + 256 * h, 256),
                qq: q.q_out,
                qk: q.k_out,
                qv: q.v_out,
                qc: q.ctx,
            },
        );
        assert(s.steps@ =~= start.steps@ + self_heads(l as int, h + 1, n_tok as int, *q));
        h = h + 1;
    }
}

fn begin_block(s: &mut DScript, bundled: bool, l: usize, n_tok: usize, sq: Quant, q: &DecBlockQ)
    requires
        old(s).wf(),
        l < 4,
        n_tok < MAX_TOKENS,
        old(s).flow@.reading is None,
        old(s).flow@.ahead is Some ==> old(s).flow@.ahead == Some(d_blob(l as int, Kind::Q, 0)),
        old(s).flow@.intact,
        old(s).flow@.bundled == bundled,
    ensures
        final(s).extends(*old(s), self_begin(bundled, l as int, n_tok as int, sq, *q)),
        expects(final(s).flow@, d_blob(l as int, Kind::Out, 0)),
{
    let ghost start = *s;
    s.emit(DStep::Settle);
    constants(s, bundled, l);
    let ghost a = seq![DStep::Settle] + const_steps(bundled, l as int);
    assert(s.steps@ =~= start.steps@ + a);
    let ghost mid = *s;
    s.emit(
        DStep::Norm {
            src: arena(D_X16, 3072),
            gb: arena(D_DC + DC_LN1, 3072),
            dst: arena(D_LN, 1536),
            from: sq,
            to: q.ln1,
        },
    );
    run_blob(s, Blob::Dec(l, Kind::Q, 0), D_LN, D_Q, Blob::Dec(l, Kind::K, 0));
    run_blob(s, Blob::Dec(l, Kind::K, 0), D_LN, D_K, Blob::Dec(l, Kind::V, 0));
    run_blob(s, Blob::Dec(l, Kind::V, 0), D_LN, D_V, Blob::Dec(l, Kind::Out, 0));
    s.emit(DStep::Append { l, pos: n_tok, k: arena(D_K, 1536), v: arena(D_V, 1536) });
    assert(s.steps@ =~= start.steps@ + self_begin(bundled, l as int, n_tok as int, sq, *q));
}

fn self_block(s: &mut DScript, bundled: bool, l: usize, n_tok: usize, sq: Quant, q: &DecBlockQ)
    requires
        old(s).wf(),
        l < 4,
        n_tok < MAX_TOKENS,
        old(s).flow@.reading is None,
        old(s).flow@.ahead is Some ==> old(s).flow@.ahead == Some(d_blob(l as int, Kind::Q, 0)),
        old(s).flow@.intact,
        old(s).flow@.bundled == bundled,
    ensures
        final(s).extends(*old(s), self_steps(bundled, l as int, n_tok as int, sq, *q)),
        expects(final(s).flow@, d_blob(l as int, Kind::Xq, 0)),
{
    let ghost start = *s;
    begin_block(s, bundled, l, n_tok, sq, q);
    attend_self(s, l, n_tok, q);
    run_blob(s, Blob::Dec(l, Kind::Out, 0), D_CTX, D_O, Blob::Dec(l, Kind::Xq, 0));
    s.emit(
        DStep::AddTo {
            acc: arena(D_X16, 3072),
            b: arena(D_O, 1536),
            qa: sq,
            qb: q.out_out,
            qd: q.res1,
        },
    );
    assert(s.steps@ =~= start.steps@ + self_steps(bundled, l as int, n_tok as int, sq, *q));
}

// --- cross-attention --------------------------------------------------------------------

/// A head's staged keys; two heads alternate.
pub open spec fn key_stage(h: int, tiles: int) -> Buf {
    slot_buf(
        if h % 2 == 0 {
            DE_XK0 as int
        } else {
            DE_XK0 + STAGE_BYTES
        },
        4096 * tiles,
    )
}

pub open spec fn value_stage(tiles: int) -> Buf {
    slot_buf(DE_XV as int, 4096 * tiles)
}

pub open spec fn start_keys(l: int, h: int, tiles: int) -> DStep {
    DStep::Start { at: head_at(xkv_region(l, 0), h) as u32, buf: key_stage(h, tiles) }
}

pub open spec fn start_values(l: int, h: int, tiles: int) -> DStep {
    DStep::Start { at: head_at(xkv_region(l, 1), h) as u32, buf: value_stage(tiles) }
}

/// One head: its values have just come; the next head's keys come while it
/// computes, the next head's values after.
pub open spec fn cross_head(l: int, h: int, tiles: int, tk: int, q: DecBlockQ) -> Seq<DStep> {
    seq![DStep::Wait] + (if h < 5 {
        seq![start_keys(l, h + 1, tiles)]
    } else {
        Seq::empty()
    }) + seq![
        DStep::CrossHead {
            h: h as usize,
            tk: tk as usize,
            query: tok_head(D_Q as int, h),
            k: key_stage(h, tiles),
            v: value_stage(tiles),
            ctx: tok_head(D_CTX as int, h),
            qq: q.xq_out,
            qk: q.xk_out,
            qv: q.xv_out,
            qc: q.xctx,
        },
    ] + (if h < 5 {
        seq![DStep::Wait, start_values(l, h + 1, tiles)]
    } else {
        Seq::empty()
    })
}

pub open spec fn cross_heads(l: int, n: int, tiles: int, tk: int, q: DecBlockQ) -> Seq<DStep>
    decreases n,
{
    if n <= 0 {
        Seq::empty()
    } else {
        cross_heads(l, n - 1, tiles, tk, q) + cross_head(l, n - 1, tiles, tk, q)
    }
}

/// The second part of a block: cross-attention.
pub open spec fn cross_attention(l: int, tiles: int, tk: int, q: DecBlockQ) -> Seq<DStep> {
    seq![
        DStep::Norm {
            src: residual(),
            gb: gamma_beta(DC_XLN as int),
            dst: tok(D_LN as int),
            from: q.res1,
            to: q.xln,
        },
        d_run(d_blob(l, Kind::Xq, 0), D_LN as int, D_Q as int, d_blob(l, Kind::Xout, 0)),
        DStep::Settle,
        DStep::Forget,
        start_keys(l, 0, tiles),
        DStep::Wait,
        start_values(l, 0, tiles),
    ] + cross_heads(l, 6, tiles, tk, q) + seq![
        d_run(d_blob(l, Kind::Xout, 0), D_CTX as int, D_O as int, d_blob(l, Kind::Fc1, 0)),
        DStep::AddTo {
            acc: residual(),
            b: tok(D_O as int),
            qa: q.res1,
            qb: q.xout_out,
            qd: q.res2,
        },
    ]
}

/// The head blocks that `tiles` tiles fill.
pub open spec fn xkv_known(tiles: int) -> Set<int> {
    Set::new(|b: int| S_XKV <= b < S_XKV + 3840 && (b - S_XKV) % 80 < 8 * tiles)
}

/// Every head block of an utterance is in `xkv_known`.
proof fn lemma_head_is_known(l: int, which: int, h: int, tiles: int)
    requires
        0 <= l < 4,
        0 <= which <= 1,
        0 <= h < 6,
        1 <= tiles <= 10,
    ensures
        covers(
            xkv_known(tiles),
            head_at(xkv_region(l, which), h),
            head_at(xkv_region(l, which), h) + 8 * tiles,
        ),
{
    let k = 6 * (2 * l + which) + h;
    assert(head_at(xkv_region(l, which), h) == S_XKV + 80 * k);
    assert forall|b: int| S_XKV + 80 * k <= b < S_XKV + 80 * k + 8 * tiles implies xkv_known(
        tiles,
    ).contains(b) by {
        assert((b - S_XKV) % 80 == b - S_XKV - 80 * k);
    }
}

/// What the cross-attention phase leaves is what decoding reads.
pub proof fn law_cross_blocks_serve_decoding(known: Set<int>, tiles: int)
    requires
        1 <= tiles <= 10,
        cross_known(known, 4, tiles),
    ensures
        forall|b: int| xkv_known(tiles).contains(b) ==> #[trigger] known.contains(b),
{
    assert forall|b: int| xkv_known(tiles).contains(b) implies #[trigger] known.contains(b) by {
        let o = b - S_XKV;
        let r = o / 480;
        let l = r / 2;
        let which = r % 2;
        let h = (o % 480) / 80;
        assert(0 <= r < 8);
        assert(heads_known(known, xkv_region(l, which), tiles));
        assert(covers(
            known,
            head_at(xkv_region(l, which), h),
            head_at(xkv_region(l, which), h) + 8 * tiles,
        ));
        assert(o == 480 * r + o % 480);
        assert(o % 480 == 80 * h + (o % 480) % 80);
        assert((o % 480) % 80 == o % 80);
    }
}

/// The flow's data reach every head block.
spec fn has_cross(f: DFlow, tiles: int) -> bool {
    forall|b: int| xkv_known(tiles).contains(b) ==> #[trigger] f.known.contains(b)
}

fn start_read(s: &mut DScript, l: usize, values: bool, h: usize, tiles: usize)
    requires
        old(s).wf(),
        l < 4,
        h < 6,
        1 <= tiles <= 10,
        channel_free(old(s).flow@),
        has_cross(old(s).flow@, tiles as int),
    ensures
        final(s).wf(),
        final(s).start == old(s).start,
        final(s).steps@ == old(s).steps@.push(
            if values {
                start_values(l as int, h as int, tiles as int)
            } else {
                start_keys(l as int, h as int, tiles as int)
            },
        ),
        final(s).flow@ == (DFlow {
            reading: Some(
                if values {
                    value_stage(tiles as int)
                } else {
                    key_stage(h as int, tiles as int)
                },
            ),
            ..old(s).flow@
        }),
{
    proof {
        lemma_head_is_known(
            l as int,
            if values {
                1
            } else {
                0
            },
            h as int,
            tiles as int,
        );
    }
    if values {
        s.emit(
            DStep::Start {
                at: S_XKV + 960 * (l as u32) + 480 + 80 * (h as u32),
                buf: slot(DE_XV, 4096 * tiles),
            },
        );
    } else {
        let off: usize = if h % 2 == 0 {
            DE_XK0
        } else {
            DE_XK0 + STAGE_BYTES
        };
        s.emit(
            DStep::Start {
                at: S_XKV + 960 * (l as u32) + 80 * (h as u32),
                buf: slot(off, 4096 * tiles),
            },
        );
    }
}

fn attend_cross(s: &mut DScript, l: usize, h: usize, tiles: usize, tk: usize, q: &DecBlockQ)
    requires
        old(s).wf(),
        l < 4,
        h < 6,
        1 <= tiles <= 10,
        !old(s).flow@.moving,
        old(s).flow@.reading == Some(value_stage(tiles as int)),
        has_cross(old(s).flow@, tiles as int),
    ensures
        final(s).extends(
            *old(s),
            cross_head(l as int, h as int, tiles as int, tk as int, *q),
        ),
        final(s).flow@.ahead == old(s).flow@.ahead,
        final(s).flow@.intact == old(s).flow@.intact,
        !final(s).flow@.moving,
        final(s).flow@.reading == (if h < 5 {
            Some(value_stage(tiles as int))
        } else {
            None
        }),
{
    let ghost start = *s;
    s.emit(DStep::Wait);
    if h < 5 {
        start_read(s, l, false, h + 1, tiles);
    }
    let off: usize = if h % 2 == 0 {
        DE_XK0
    } else {
        DE_XK0 + STAGE_BYTES
    };
    s.emit(
        DStep::CrossHead {
            h,
            tk,
            query: arena(D_Q + 256 * h, 256),
            k: slot(off, 4096 * tiles),
            v: slot(DE_XV, 4096 * tiles),
            ctx: arena(D_CTX + 256 * h, 256),
            qq: q.xq_out,
            qk: q.xk_out,
            qv: q.xv_out,
            qc: q.xctx,
        },
    );
    if h < 5 {
        s.emit(DStep::Wait);
        start_read(s, l, true, h + 1, tiles);
    }
    assert(s.steps@ =~= start.steps@ + cross_head(
        l as int,
        h as int,
        tiles as int,
        tk as int,
        *q,
    ));
}

fn cross_block(s: &mut DScript, l: usize, tiles: usize, tk: usize, q: &DecBlockQ)
    requires
        old(s).wf(),
        l < 4,
        1 <= tiles <= 10,
        expects(old(s).flow@, d_blob(l as int, Kind::Xq, 0)),
        has_cross(old(s).flow@, tiles as int),
    ensures
        final(s).extends(*old(s), cross_attention(l as int, tiles as int, tk as int, *q)),
        expects(final(s).flow@, d_blob(l as int, Kind::Fc1, 0)),
{
    let ghost start = *s;
    s.emit(
        DStep::Norm {
            src: arena(D_X16, 3072),
            gb: arena(D_DC + DC_XLN, 3072),
            dst: arena(D_LN, 1536),
            from: q.res1,
            to: q.xln,
        },
    );
    run_blob(s, Blob::Dec(l, Kind::Xq, 0), D_LN, D_Q, Blob::Dec(l, Kind::Xout, 0));
    s.emit(DStep::Settle);
    s.emit(DStep::Forget);
    start_read(s, l, false, 0, tiles);
    s.emit(DStep::Wait);
    start_read(s, l, true, 0, tiles);
    let ghost head = seq![
        DStep::Norm {
            src: residual(),
            gb: gamma_beta(DC_XLN as int),
            dst: tok(D_LN as int),
            from: q.res1,
            to: q.xln,
        },
        d_run(
            d_blob(l as int, Kind::Xq, 0),
            D_LN as int,
            D_Q as int,
            d_blob(l as int, Kind::Xout, 0),
        ),
        DStep::Settle,
        DStep::Forget,
        start_keys(l as int, 0, tiles as int),
        DStep::Wait,
        start_values(l as int, 0, tiles as int),
    ];
    assert(s.steps@ =~= start.steps@ + (head + cross_heads(
        l as int,
        0,
        tiles as int,
        tk as int,
        *q,
    )));
    let mut h: usize = 0;
    while h < 6
        invariant
            h <= 6,
            l < 4,
            1 <= tiles <= 10,
            s.extends(
                start,
                head + cross_heads(l as int, h as int, tiles as int, tk as int, *q),
            ),
            s.flow@.ahead == Some(d_blob(l as int, Kind::Xout, 0)),
            s.flow@.intact,
            !s.flow@.moving,
            s.flow@.reading == (if h < 6 {
                Some(value_stage(tiles as int))
            } else {
                None
            }),
            has_cross(s.flow@, tiles as int),
        decreases 6 - h,
    {
        let ghost before = *s;
        attend_cross(s, l, h, tiles, tk, q);
        assert(s.steps@ =~= start.steps@ + (head + cross_heads(
            l as int,
            h + 1,
            tiles as int,
            tk as int,
            *q,
        )));
        h = h + 1;
    }
    run_blob(s, Blob::Dec(l, Kind::Xout, 0), D_CTX, D_O, Blob::Dec(l, Kind::Fc1, 0));
    s.emit(
        DStep::AddTo {
            acc: arena(D_X16, 3072),
            b: arena(D_O, 1536),
            qa: q.res1,
            qb: q.xout_out,
            qd: q.res2,
        },
    );
    assert(s.steps@ =~= start.steps@ + cross_attention(
        l as int,
        tiles as int,
        tk as int,
        *q,
    ));
}

// --- MLP --------------------------------------------------------------------------------

/// The blob after quarter `j` of block `l`: the next quarter's, the next
/// block's first, or the next token's first.
pub open spec fn blob_after(l: int, j: int) -> Blob {
    if j < 3 {
        d_blob(l, Kind::Fc1, j + 1)
    } else if l < 3 {
        d_blob(l + 1, Kind::Q, 0)
    } else {
        d_blob(0, Kind::Q, 0)
    }
}

pub open spec fn d_mlp_part(l: int, j: int) -> Seq<DStep> {
    seq![
        d_run(d_blob(l, Kind::Fc1, j), D_LN as int, D_Q as int, d_blob(l, Kind::Fc2p, j)),
        DStep::Lut { table: arena_buf(D_DC + DC_LUT + 256 * j, 256), buf: tok(D_Q as int) },
        d_run(d_blob(l, Kind::Fc2p, j), D_Q as int, D_P + 1536 * j, blob_after(l, j)),
    ]
}

pub open spec fn d_mlp_parts(l: int, n: int) -> Seq<DStep>
    decreases n,
{
    if n <= 0 {
        Seq::empty()
    } else {
        d_mlp_parts(l, n - 1) + d_mlp_part(l, n - 1)
    }
}

/// The third part of a block: the MLP.
pub open spec fn d_mlp(l: int, q: DecBlockQ) -> Seq<DStep> {
    seq![
        DStep::Norm {
            src: residual(),
            gb: gamma_beta(DC_LN2 as int),
            dst: tok(D_LN as int),
            from: q.res2,
            to: q.ln2,
        },
    ] + d_mlp_parts(l, 4) + seq![
        DStep::Sum4 {
            acc: residual(),
            parts: arena_buf(D_P as int, 6144),
            pq: q.fc2p_out,
            qa: q.res2,
            qd: q.res3,
        },
    ]
}

fn mlp_block(s: &mut DScript, l: usize, q: &DecBlockQ)
    requires
        old(s).wf(),
        l < 4,
        expects(old(s).flow@, d_blob(l as int, Kind::Fc1, 0)),
    ensures
        final(s).extends(*old(s), d_mlp(l as int, *q)),
        expects(final(s).flow@, blob_after(l as int, 3)),
        final(s).flow@.moving,
{
    let ghost start = *s;
    s.emit(
        DStep::Norm {
            src: arena(D_X16, 3072),
            gb: arena(D_DC + DC_LN2, 3072),
            dst: arena(D_LN, 1536),
            from: q.res2,
            to: q.ln2,
        },
    );
    let ghost head = seq![
        DStep::Norm {
            src: residual(),
            gb: gamma_beta(DC_LN2 as int),
            dst: tok(D_LN as int),
            from: q.res2,
            to: q.ln2,
        },
    ];
    assert(s.steps@ =~= start.steps@ + (head + d_mlp_parts(l as int, 0)));
    let mut j: usize = 0;
    while j < 4
        invariant
            j <= 4,
            l < 4,
            s.extends(start, head + d_mlp_parts(l as int, j as int)),
            j < 4 ==> expects(s.flow@, d_blob(l as int, Kind::Fc1, j as int)),
            j == 4 ==> expects(s.flow@, blob_after(l as int, 3)) && s.flow@.moving,
        decreases 4 - j,
    {
        let ghost before = *s;
        let next = if j < 3 {
            Blob::Dec(l, Kind::Fc1, j + 1)
        } else if l < 3 {
            Blob::Dec(l + 1, Kind::Q, 0)
        } else {
            Blob::Dec(0, Kind::Q, 0)
        };
        run_blob(s, Blob::Dec(l, Kind::Fc1, j), D_LN, D_Q, Blob::Dec(l, Kind::Fc2p, j));
        s.emit(
            DStep::Lut {
                table: arena(D_DC + DC_LUT + 256 * j, 256),
                buf: arena(D_Q, 1536),
            },
        );
        run_blob(s, Blob::Dec(l, Kind::Fc2p, j), D_Q, D_P + 1536 * j, next);
        assert(s.steps@ =~= before.steps@ + d_mlp_part(l as int, j as int));
        assert(s.steps@ =~= start.steps@ + (head + d_mlp_parts(l as int, j + 1)));
        j = j + 1;
    }
    s.emit(
        DStep::Sum4 {
            acc: arena(D_X16, 3072),
            parts: arena(D_P, 6144),
            pq: q.fc2p_out,
            qa: q.res2,
            qd: q.res3,
        },
    );
    assert(s.steps@ =~= start.steps@ + d_mlp(l as int, *q));
}

// --- a whole step -----------------------------------------------------------------------

/// The quantisation of the residual before block `l`.
pub open spec fn d_residual_quant(plan: Plan, l: int) -> Quant {
    if l <= 0 {
        plan.dec_x
    } else {
        plan.dec[l - 1].res3
    }
}

pub open spec fn d_block(
    plan: Plan,
    bundled: bool,
    l: int,
    n_tok: int,
    tiles: int,
    tk: int,
) -> Seq<DStep> {
    self_steps(bundled, l, n_tok, d_residual_quant(plan, l), plan.dec[l]) + cross_attention(
        l,
        tiles,
        tk,
        plan.dec[l],
    ) + d_mlp(l, plan.dec[l])
}

/// The first `n` blocks.
pub open spec fn d_blocks(
    plan: Plan,
    bundled: bool,
    n: int,
    n_tok: int,
    tiles: int,
    tk: int,
) -> Seq<DStep>
    decreases n,
{
    if n <= 0 {
        Seq::empty()
    } else {
        d_blocks(plan, bundled, n - 1, n_tok, tiles, tk) + d_block(
            plan,
            bundled,
            n - 1,
            n_tok,
            tiles,
            tk,
        )
    }
}

/// One decoder step for the token at row `row` of the embedding, at
/// position `place`.
pub open spec fn token_steps(
    plan: Plan,
    bundled: bool,
    row: u32,
    place: u32,
    n_tok: int,
    tiles: int,
    tk: int,
) -> Seq<DStep> {
    seq![DStep::Settle, DStep::Embed { row, place, dst: residual(), quant: plan.dec_x }] + d_blocks(
        plan,
        bundled,
        4,
        n_tok,
        tiles,
        tk,
    )
}

/// Between two tokens: the next one's first blob is on its way.
pub open spec fn between_tokens(bundled: bool, tiles: int) -> DFlow {
    DFlow {
        ahead: Some(Blob::Dec(0, Kind::Q, 0)),
        moving: true,
        intact: true,
        bundled,
        reading: None,
        known: xkv_known(tiles),
    }
}

/// Before the first token nothing is under way.
pub open spec fn before_tokens(bundled: bool, tiles: int) -> DFlow {
    DFlow { ahead: None, moving: false, ..between_tokens(bundled, tiles) }
}

/// One decoder step. Each blob that is fetched ahead is the next one that
/// runs, no transfer is ever cut off by another, and at the end the next
/// token's first blob is on its way.
pub fn token_script(
    plan: &Plan,
    bundled: bool,
    row: u32,
    place: u32,
    n_tok: usize,
    tiles: usize,
    ctx: usize,
) -> (r: Vec<DStep>)
    requires
        n_tok < MAX_TOKENS,
        1 <= tiles <= 10,
    ensures
        r@ == token_steps(*plan, bundled, row, place, n_tok as int, tiles as int, ctx as int),
        d_flow(r@, between_tokens(bundled, tiles as int)) == Some(
            between_tokens(bundled, tiles as int),
        ),
        // the first token's step is as clean, and ends where the others begin
        d_flow(r@, before_tokens(bundled, tiles as int)) is Some,
        at_most(
            d_flow(r@, before_tokens(bundled, tiles as int))->0,
            between_tokens(bundled, tiles as int),
        ),
        // each step finds what it is meant for, up to the last block's residual
        puts_the_token_through(
            r@,
            (Job {
                plan: *plan,
                row,
                place,
                n_tok: n_tok as int,
                tiles: tiles as int,
                tk: ctx as int,
            }),
        ),
{
    let ghost begin = between_tokens(bundled, tiles as int);
    let mut s = DScript { steps: Vec::new(), start: Ghost(begin), flow: Ghost(begin) };
    let ghost s0 = s;
    s.emit(DStep::Settle);
    s.emit(DStep::Embed { row, place, dst: arena(D_X16, 3072), quant: plan.dec_x });
    let ghost head = seq![
        DStep::Settle,
        DStep::Embed { row, place, dst: residual(), quant: plan.dec_x },
    ];
    assert(s.steps@ =~= head + d_blocks(
        *plan,
        bundled,
        0,
        n_tok as int,
        tiles as int,
        ctx as int,
    ));
    let mut sq = plan.dec_x;
    let mut l: usize = 0;
    while l < 4
        invariant
            l <= 4,
            n_tok < MAX_TOKENS,
            1 <= tiles <= 10,
            s.wf(),
            s.start == s0.start,
            s.steps@ == head + d_blocks(
                *plan,
                bundled,
                l as int,
                n_tok as int,
                tiles as int,
                ctx as int,
            ),
            s.flow@.known == xkv_known(tiles as int),
            s.flow@.bundled == bundled,
            l < 4 ==> expects(s.flow@, d_blob(l as int, Kind::Q, 0)),
            l == 4 ==> expects(s.flow@, d_blob(0, Kind::Q, 0)) && s.flow@.moving,
            sq == d_residual_quant(*plan, l as int),
        decreases 4 - l,
    {
        let ghost before = s;
        let q = plan.dec[l];
        self_block(&mut s, bundled, l, n_tok, sq, &q);
        let ghost s1 = s;
        cross_block(&mut s, l, tiles, ctx, &q);
        let ghost s2 = s;
        mlp_block(&mut s, l, &q);
        assert(s.steps@ =~= head + d_blocks(
            *plan,
            bundled,
            l + 1,
            n_tok as int,
            tiles as int,
            ctx as int,
        ));
        sq = q.res3;
        l = l + 1;
    }
    proof {
        law_less_under_way_does_no_harm(
            s.steps@,
            between_tokens(bundled, tiles as int),
            before_tokens(bundled, tiles as int),
        );
        law_a_token_goes_through_the_network(
            *plan,
            bundled,
            row,
            place,
            n_tok as int,
            tiles as int,
            ctx as int,
        );
    }
    s.steps
}

} // verus!
