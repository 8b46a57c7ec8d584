//! The encoder as a script: two convolutions, the positional embedding,
//! four transformer blocks and the final layer norm over the tiles of an
//! utterance.

use crate::encoded::law_an_utterance_goes_through_the_encoder;
use crate::image::Kind;
use crate::kernels::Quant;
use crate::layout::{
    arena, arena_buf, il_buf, interlayer, kv_buf, kvscratch, slot, slot_buf, Buf, Mem, A_AUX, A_GB,
    A_IN, A_LUT, A_OUT, A_PK, A_PV, A_X0, A_X1, IL_CTX, IL_SCRATCH2, KV_CTX1, KV_F1, KV_P0, KV_P1,
    KV_PO, KV_PQ, SL_EXPTAB, SL_KT, SL_STAGE, SL_V16, S_A, S_CH, S_END, S_EO, S_KH, S_LN, S_MEL,
    S_O, S_P, S_QH, S_VH, S_X, TILE16, TILE8,
};
use crate::plan::{EncBlockQ, Plan};
use crate::script::{covers, flow_from, runs_clean, Asset, Blob, Script, Step, Xfer};
use crate::utterance::{encodes, Task};
use vstd::prelude::*;

verus! {

// --- windows over tiles -------------------------------------------------------------

/// The tile that column `col` lies in.
pub open spec fn tile_of(col: int) -> int {
    col / 64
}

fn tile_index(col: i32) -> (t: i32)
    requires
        -100000 <= col <= 100000,
    ensures
        t == tile_of(col as int),
{
    if col >= 0 {
        col / 64
    } else {
        -1 - (-1 - col) / 64
    }
}

/// Blocks of one tile of `rows` rows.
pub open spec fn tile_blocks(rows: int) -> int {
    if rows == 80 {
        10
    } else {
        48
    }
}

/// One tile of a window: read it and take the columns it shares with the
/// window, if there is such a tile.
pub open spec fn halo_tile(
    region: int,
    rows: int,
    n_tiles: int,
    col0: int,
    t_in: int,
    ti: int,
) -> Seq<Step> {
    if 0 <= ti < n_tiles {
        seq![
            Step::Read {
                at: (region + ti * tile_blocks(rows)) as u32,
                dst: arena_buf(A_OUT as int, rows * 64),
            },
            Step::Columns {
                src: arena_buf(A_OUT as int, rows * 64),
                dst: arena_buf(A_IN as int, rows * t_in),
                rows: rows as usize,
                t_in: t_in as usize,
                col0: col0 as i32,
                tile: ti as u32,
            },
        ]
    } else {
        Seq::empty()
    }
}

/// Tiles `t0` up to `t1` of a window.
pub open spec fn halo_tiles(
    region: int,
    rows: int,
    n_tiles: int,
    col0: int,
    t_in: int,
    t0: int,
    t1: int,
) -> Seq<Step>
    decreases t1 - t0,
{
    if t1 <= t0 {
        Seq::empty()
    } else {
        halo_tiles(region, rows, n_tiles, col0, t_in, t0, t1 - 1) + halo_tile(
            region,
            rows,
            n_tiles,
            col0,
            t_in,
            t1 - 1,
        )
    }
}

/// A window of `t_in` columns from `col0` on, assembled at `A_IN` from a
/// tile-major region; columns outside the tiles are real zero.
pub open spec fn halo_steps(
    region: int,
    rows: int,
    n_tiles: int,
    col0: int,
    t_in: int,
    zero: Quant,
) -> Seq<Step> {
    seq![Step::Fill { dst: arena_buf(A_IN as int, rows * t_in), zero }] + halo_tiles(
        region,
        rows,
        n_tiles,
        col0,
        t_in,
        tile_of(col0),
        tile_of(col0 + t_in - 1) + 1,
    )
}

proof fn lemma_times(a: int, b: int, n: int)
    by (nonlinear_arith)
    requires
        0 <= a < b,
        0 <= n,
    ensures
        0 <= a * n,
        a * n + n <= b * n,
{
}

pub fn assemble_halo(
    s: &mut Script,
    region: u32,
    rows: usize,
    n_tiles: usize,
    col0: i32,
    t_in: usize,
    zero: Quant,
)
    requires
        old(s).wf(),
        old(s).idle(),
        rows == 80 || rows == 384,
        n_tiles <= 20,
        -64 <= col0 <= 2000,
        1 <= t_in <= 130,
        region + n_tiles * tile_blocks(rows as int) <= S_END,
        covers(
            old(s).flow@.known,
            region as int,
            region + n_tiles * tile_blocks(rows as int),
        ),
    ensures
        final(s).extends(
            *old(s),
            halo_steps(
                region as int,
                rows as int,
                n_tiles as int,
                col0 as int,
                t_in as int,
                zero,
            ),
        ),
        final(s).flow@ == old(s).flow@,
{
    let ghost start = *s;
    let per: u32 = if rows == 80 {
        10
    } else {
        48
    };
    proof {
        assert(0 <= rows * t_in <= 49920) by (nonlinear_arith)
            requires
                0 <= rows <= 384,
                0 <= t_in <= 130,
        ;
    }
    let window = arena(A_IN, rows * t_in);
    let tile = arena(A_OUT, rows * 64);
    s.emit(Step::Fill { dst: window, zero });
    let t0: i32 = tile_index(col0);
    let t1: i32 = tile_index(col0 + t_in as i32 - 1) + 1;
    let ghost head = seq![Step::Fill { dst: window, zero }];
    let mut t: i32 = t0;
    assert(s.steps@ =~= start.steps@ + head);
    assert(halo_tiles(
        region as int,
        rows as int,
        n_tiles as int,
        col0 as int,
        t_in as int,
        t0 as int,
        t0 as int,
    ) =~= Seq::empty());
    assert(t0 <= t1);
    while t < t1
        invariant
            t0 <= t <= t1,
            -2 <= t0,
            t1 <= 40,
            s.wf(),
            s.start == start.start,
            s.flow@ == start.flow@,
            start.flow@.queue.len() == 0,
            rows == 80 || rows == 384,
            per == tile_blocks(rows as int),
            n_tiles <= 20,
            window == arena_buf(A_IN as int, rows * t_in),
            0 <= rows * t_in <= 49920,
            tile == arena_buf(A_OUT as int, rows * 64),
            region + n_tiles * per <= S_END,
            covers(start.flow@.known, region as int, region + n_tiles * per),
            s.steps@ == start.steps@ + head + halo_tiles(
                region as int,
                rows as int,
                n_tiles as int,
                col0 as int,
                t_in as int,
                t0 as int,
                t as int,
            ),
        decreases t1 - t,
    {
        let ghost before = s.steps@;
        let ghost one = halo_tile(
            region as int,
            rows as int,
            n_tiles as int,
            col0 as int,
            t_in as int,
            t as int,
        );
        if t >= 0 && t < n_tiles as i32 {
            proof {
                lemma_times(t as int, n_tiles as int, per as int);
            }
            let at: u32 = region + t as u32 * per;
            s.emit(Step::Read { at, dst: tile });
            s.emit(Step::Columns { src: tile, dst: window, rows, t_in, col0, tile: t as u32 });
            assert(s.steps@ =~= before + one);
        } else {
            assert(s.steps@ =~= before + one);
        }
        assert(s.steps@ =~= start.steps@ + head + halo_tiles(
            region as int,
            rows as int,
            n_tiles as int,
            col0 as int,
            t_in as int,
            t0 as int,
            t + 1,
        ));
        t = t + 1;
    }
    assert(s.steps@ =~= start.steps@ + halo_steps(
        region as int,
        rows as int,
        n_tiles as int,
        col0 as int,
        t_in as int,
        zero,
    ));
}

// --- convolutions -------------------------------------------------------------------

/// One mel-rate tile of the first convolution, with its GELU.
pub open spec fn conv1_tile(i: int, mel_tiles: int, zero: Quant) -> Seq<Step> {
    halo_steps(S_MEL as int, 80, mel_tiles, 64 * i - 1, 66, zero) + seq![
        Step::Load(Blob::Conv1),
        Step::Run {
            blob: Blob::Conv1,
            input: arena_buf(A_IN as int, 5280),
            output: arena_buf(A_OUT as int, TILE8 as int),
            pumped: false,
        },
        Step::Lut {
            table: arena_buf(A_LUT as int, 256),
            buf: arena_buf(A_OUT as int, TILE8 as int),
        },
        Step::Write { at: (S_A + 48 * i) as u32, src: arena_buf(A_OUT as int, TILE8 as int) },
    ]
}

/// The first `n` tiles of the first convolution.
pub open spec fn conv1_steps(n: int, mel_tiles: int, zero: Quant) -> Seq<Step>
    decreases n,
{
    if n <= 0 {
        Seq::empty()
    } else {
        conv1_steps(n - 1, mel_tiles, zero) + conv1_tile(n - 1, mel_tiles, zero)
    }
}

fn conv1(s: &mut Script, mel_tiles: usize, zero: Quant)
    requires
        old(s).wf(),
        old(s).idle(),
        mel_tiles <= 20,
        covers(old(s).flow@.known, S_MEL as int, S_MEL + 10 * mel_tiles),
    ensures
        final(s).extends(*old(s), conv1_steps(mel_tiles as int, mel_tiles as int, zero)),
        final(s).idle(),
        covers(final(s).flow@.known, S_A as int, S_A + 48 * mel_tiles),
{
    let ghost start = *s;
    let out = arena(A_OUT, TILE8);
    let mut i: usize = 0;
    assert(s.steps@ =~= start.steps@ + conv1_steps(0, mel_tiles as int, zero));
    while i < mel_tiles
        invariant
            i <= mel_tiles <= 20,
            out == arena_buf(A_OUT as int, TILE8 as int),
            s.extends(start, conv1_steps(i as int, mel_tiles as int, zero)),
            s.idle(),
            covers(s.flow@.known, S_MEL as int, S_MEL + 10 * mel_tiles),
            covers(s.flow@.known, S_A as int, S_A + 48 * i),
        decreases mel_tiles - i,
    {
        let ghost before = *s;
        assemble_halo(s, S_MEL, 80, mel_tiles, 64 * (i as i32) - 1, 66, zero);
        s.emit(Step::Load(Blob::Conv1));
        s.emit(
            Step::Run { blob: Blob::Conv1, input: arena(A_IN, 5280), output: out, pumped: false },
        );
        s.emit(Step::Lut { table: arena(A_LUT, 256), buf: out });
        s.emit(Step::Write { at: S_A + 48 * (i as u32), src: out });
        assert(s.steps@ =~= before.steps@ + conv1_tile(i as int, mel_tiles as int, zero));
        assert(s.steps@ =~= start.steps@ + conv1_steps(i + 1, mel_tiles as int, zero));
        i = i + 1;
    }
}

/// One tile of one part of the second convolution, with its GELU.
pub open spec fn conv2_tile(part: int, i: int, tiles: int, zero: Quant) -> Seq<Step> {
    halo_steps(S_A as int, 384, 2 * tiles, 128 * i - 1, 130, zero) + seq![
        Step::Load(Blob::Conv2(part as usize)),
        Step::Run {
            blob: Blob::Conv2(part as usize),
            input: arena_buf(A_IN as int, 49920),
            output: arena_buf(A_OUT as int, 8192),
            pumped: false,
        },
        Step::Lut { table: arena_buf(A_LUT as int, 256), buf: arena_buf(A_OUT as int, 8192) },
        Step::Write { at: (S_LN + 48 * i + 16 * part) as u32, src: arena_buf(A_OUT as int, 8192) },
    ]
}

pub open spec fn conv2_tiles(part: int, n: int, tiles: int, zero: Quant) -> Seq<Step>
    decreases n,
{
    if n <= 0 {
        Seq::empty()
    } else {
        conv2_tiles(part, n - 1, tiles, zero) + conv2_tile(part, n - 1, tiles, zero)
    }
}

/// The first `n` of the three parts of the second convolution.
pub open spec fn conv2_steps(n: int, tiles: int, zero: Quant) -> Seq<Step>
    decreases n,
{
    if n <= 0 {
        Seq::empty()
    } else {
        conv2_steps(n - 1, tiles, zero) + seq![
            Step::Asset {
                what: Asset::Gelu2((n - 1) as usize),
                dst: arena_buf(A_LUT as int, 512),
            },
        ] + conv2_tiles(n - 1, tiles, tiles, zero)
    }
}

fn conv2_part(s: &mut Script, part: usize, tiles: usize, zero: Quant)
    requires
        old(s).wf(),
        old(s).idle(),
        tiles <= 10,
        part < 3,
        covers(old(s).flow@.known, S_A as int, S_A + 96 * tiles),
    ensures
        final(s).extends(*old(s), conv2_tiles(part as int, tiles as int, tiles as int, zero)),
        final(s).idle(),
        forall|b: int|
            S_LN <= b < S_LN + 48 * tiles && 16 * part <= (b - S_LN) % 48 < 16 * part + 16
                ==> #[trigger] final(s).flow@.known.contains(b),
{
    let ghost start = *s;
    let out = arena(A_OUT, 8192);
    let blob = Blob::Conv2(part);
    let mut i: usize = 0;
    assert(s.steps@ =~= start.steps@ + conv2_tiles(part as int, 0, tiles as int, zero));
    while i < tiles
        invariant
            i <= tiles <= 10,
            part < 3,
            blob == Blob::Conv2(part),
            out == arena_buf(A_OUT as int, 8192),
            s.extends(start, conv2_tiles(part as int, i as int, tiles as int, zero)),
            s.idle(),
            covers(s.flow@.known, S_A as int, S_A + 96 * tiles),
            forall|b: int|
                S_LN <= b < S_LN + 48 * i && 16 * part <= (b - S_LN) % 48 < 16 * part + 16
                    ==> #[trigger] s.flow@.known.contains(b),
        decreases tiles - i,
    {
        let ghost before = *s;
        assemble_halo(s, S_A, 384, 2 * tiles, 128 * (i as i32) - 1, 130, zero);
        s.emit(Step::Load(blob));
        s.emit(Step::Run { blob, input: arena(A_IN, 49920), output: out, pumped: false });
        s.emit(Step::Lut { table: arena(A_LUT, 256), buf: out });
        s.emit(Step::Write { at: S_LN + 48 * (i as u32) + 16 * (part as u32), src: out });
        assert(s.steps@ =~= before.steps@ + conv2_tile(
            part as int,
            i as int,
            tiles as int,
            zero,
        ));
        assert(s.steps@ =~= start.steps@ + conv2_tiles(part as int, i + 1, tiles as int, zero));
        i = i + 1;
    }
}

fn conv2(s: &mut Script, tiles: usize, zero: Quant)
    requires
        old(s).wf(),
        old(s).idle(),
        tiles <= 10,
        covers(old(s).flow@.known, S_A as int, S_A + 96 * tiles),
    ensures
        final(s).extends(*old(s), conv2_steps(3, tiles as int, zero)),
        final(s).idle(),
        covers(final(s).flow@.known, S_LN as int, S_LN + 48 * tiles),
{
    let ghost start = *s;
    let mut part: usize = 0;
    assert(s.steps@ =~= start.steps@ + conv2_steps(0, tiles as int, zero));
    while part < 3
        invariant
            part <= 3,
            tiles <= 10,
            s.extends(start, conv2_steps(part as int, tiles as int, zero)),
            s.idle(),
            covers(s.flow@.known, S_A as int, S_A + 96 * tiles),
            forall|b: int|
                S_LN <= b < S_LN + 48 * tiles && (b - S_LN) % 48 < 16 * part
                    ==> #[trigger] s.flow@.known.contains(b),
        decreases 3 - part,
    {
        let ghost before = *s;
        s.emit(Step::Asset { what: Asset::Gelu2(part), dst: arena(A_LUT, 512) });
        let ghost mid = *s;
        conv2_part(s, part, tiles, zero);
        assert(s.steps@ =~= start.steps@ + conv2_steps(part + 1, tiles as int, zero));
        part = part + 1;
    }
}

// --- positional embedding -----------------------------------------------------------

pub open spec fn pos_chunk(ci: int, qa: Quant, qd: Quant) -> Seq<Step> {
    seq![
        Step::Read { at: (S_LN + 16 * ci) as u32, dst: arena_buf(A_AUX as int, 8192) },
        Step::Image {
            what: Asset::PosEnc,
            block: (64 * ci) as u32,
            dst: arena_buf(A_IN as int, 32768),
        },
        Step::AddPos {
            a: arena_buf(A_AUX as int, 8192),
            b: arena_buf(A_IN as int, 32768),
            dst: arena_buf(A_IN + 32768, 16384),
            qa,
            qd,
        },
        Step::Write { at: (S_X + 32 * ci) as u32, src: arena_buf(A_IN + 32768, 16384) },
    ]
}

/// The first `n` chunks of the entry into the residual stream.
pub open spec fn pos_steps(n: int, qa: Quant, qd: Quant) -> Seq<Step>
    decreases n,
{
    if n <= 0 {
        Seq::empty()
    } else {
        pos_steps(n - 1, qa, qd) + pos_chunk(n - 1, qa, qd)
    }
}

fn add_positions(s: &mut Script, tiles: usize, qa: Quant, qd: Quant)
    requires
        old(s).wf(),
        old(s).idle(),
        tiles <= 10,
        covers(old(s).flow@.known, S_LN as int, S_LN + 48 * tiles),
    ensures
        final(s).extends(*old(s), pos_steps(3 * tiles, qa, qd)),
        final(s).idle(),
        covers(final(s).flow@.known, S_X as int, S_X + 96 * tiles),
{
    let ghost start = *s;
    let mut ci: usize = 0;
    assert(s.steps@ =~= start.steps@ + pos_steps(0, qa, qd));
    while ci < 3 * tiles
        invariant
            ci <= 3 * tiles,
            tiles <= 10,
            s.extends(start, pos_steps(ci as int, qa, qd)),
            s.idle(),
            covers(s.flow@.known, S_LN as int, S_LN + 48 * tiles),
            covers(s.flow@.known, S_X as int, S_X + 32 * ci),
        decreases 3 * tiles - ci,
    {
        let ghost before = *s;
        s.emit(Step::Read { at: S_LN + 16 * (ci as u32), dst: arena(A_AUX, 8192) });
        s.emit(
            Step::Image { what: Asset::PosEnc, block: 64 * (ci as u32), dst: arena(A_IN, 32768) },
        );
        s.emit(
            Step::AddPos {
                a: arena(A_AUX, 8192),
                b: arena(A_IN, 32768),
                dst: arena(A_IN + 32768, 16384),
                qa,
                qd,
            },
        );
        s.emit(Step::Write { at: S_X + 32 * (ci as u32), src: arena(A_IN + 32768, 16384) });
        assert(s.steps@ =~= before.steps@ + pos_chunk(ci as int, qa, qd));
        assert(s.steps@ =~= start.steps@ + pos_steps(ci + 1, qa, qd));
        ci = ci + 1;
    }
}

// --- layer norm over the residual tiles ------------------------------------------------

pub open spec fn norm_tile(i: int, to_region: int, from: Quant, to: Quant) -> Seq<Step> {
    seq![
        Step::Read { at: (S_X + 96 * i) as u32, dst: arena_buf(A_IN as int, TILE16 as int) },
        Step::Norm {
            src: arena_buf(A_IN as int, TILE16 as int),
            gb: arena_buf(A_GB as int, 3072),
            dst: arena_buf(A_OUT as int, TILE8 as int),
            from,
            to,
        },
        Step::Write {
            at: (to_region + 48 * i) as u32,
            src: arena_buf(A_OUT as int, TILE8 as int),
        },
    ]
}

pub open spec fn norm_tiles(n: int, to_region: int, from: Quant, to: Quant) -> Seq<Step>
    decreases n,
{
    if n <= 0 {
        Seq::empty()
    } else {
        norm_tiles(n - 1, to_region, from, to) + norm_tile(n - 1, to_region, from, to)
    }
}

/// A layer norm of every residual tile into a region of int8 tiles.
pub open spec fn norm_steps(
    gb: Asset,
    tiles: int,
    to_region: int,
    from: Quant,
    to: Quant,
) -> Seq<Step> {
    seq![Step::Asset { what: gb, dst: arena_buf(A_GB as int, 3072) }] + norm_tiles(
        tiles,
        to_region,
        from,
        to,
    )
}

pub fn ln_region(s: &mut Script, gb: Asset, tiles: usize, to_region: u32, from: Quant, to: Quant)
    requires
        old(s).wf(),
        old(s).idle(),
        tiles <= 10,
        to_region + 480 <= S_END,
        covers(old(s).flow@.known, S_X as int, S_X + 96 * tiles),
    ensures
        final(s).extends(*old(s), norm_steps(gb, tiles as int, to_region as int, from, to)),
        final(s).idle(),
        covers(final(s).flow@.known, to_region as int, to_region + 48 * tiles),
{
    let ghost start = *s;
    s.emit(Step::Asset { what: gb, dst: arena(A_GB, 3072) });
    let ghost head = seq![Step::Asset { what: gb, dst: arena_buf(A_GB as int, 3072) }];
    let mut i: usize = 0;
    assert(s.steps@ =~= start.steps@ + (head + norm_tiles(0, to_region as int, from, to)));
    while i < tiles
        invariant
            i <= tiles <= 10,
            to_region + 480 <= S_END,
            s.extends(start, head + norm_tiles(i as int, to_region as int, from, to)),
            s.idle(),
            covers(s.flow@.known, S_X as int, S_X + 96 * tiles),
            covers(s.flow@.known, to_region as int, to_region + 48 * i),
        decreases tiles - i,
    {
        let ghost before = *s;
        s.emit(Step::Read { at: S_X + 96 * (i as u32), dst: arena(A_IN, TILE16) });
        s.emit(
            Step::Norm {
                src: arena(A_IN, TILE16),
                gb: arena(A_GB, 3072),
                dst: arena(A_OUT, TILE8),
                from,
                to,
            },
        );
        s.emit(Step::Write { at: to_region + 48 * (i as u32), src: arena(A_OUT, TILE8) });
        assert(s.steps@ =~= before.steps@ + norm_tile(i as int, to_region as int, from, to));
        assert(s.steps@ =~= start.steps@ + (head + norm_tiles(
            i + 1,
            to_region as int,
            from,
            to,
        )));
        i = i + 1;
    }
}

// --- residual addition ---------------------------------------------------------------

pub open spec fn add_chunk(ci: int, region8: int, qa: Quant, qb: Quant, qd: Quant) -> Seq<Step> {
    seq![
        Step::Read { at: (S_X + 48 * ci) as u32, dst: arena_buf(A_IN as int, 24576) },
        Step::Read { at: (region8 + 24 * ci) as u32, dst: arena_buf(A_AUX as int, 12288) },
        Step::AddTo {
            acc: arena_buf(A_IN as int, 24576),
            b: arena_buf(A_AUX as int, 12288),
            qa,
            qb,
            qd,
        },
        Step::Write { at: (S_X + 48 * ci) as u32, src: arena_buf(A_IN as int, 24576) },
    ]
}

/// The first `n` chunks of the residual plus an int8 region.
pub open spec fn add_steps(n: int, region8: int, qa: Quant, qb: Quant, qd: Quant) -> Seq<Step>
    decreases n,
{
    if n <= 0 {
        Seq::empty()
    } else {
        add_steps(n - 1, region8, qa, qb, qd) + add_chunk(n - 1, region8, qa, qb, qd)
    }
}

pub fn res_add(s: &mut Script, region8: u32, tiles: usize, qa: Quant, qb: Quant, qd: Quant)
    requires
        old(s).wf(),
        old(s).idle(),
        tiles <= 10,
        region8 + 480 <= S_END,
        covers(old(s).flow@.known, S_X as int, S_X + 96 * tiles),
        covers(old(s).flow@.known, region8 as int, region8 + 48 * tiles),
    ensures
        final(s).extends(*old(s), add_steps(2 * tiles, region8 as int, qa, qb, qd)),
        final(s).idle(),
{
    let ghost start = *s;
    let mut ci: usize = 0;
    assert(s.steps@ =~= start.steps@ + add_steps(0, region8 as int, qa, qb, qd));
    while ci < 2 * tiles
        invariant
            ci <= 2 * tiles,
            tiles <= 10,
            region8 + 480 <= S_END,
            s.extends(start, add_steps(ci as int, region8 as int, qa, qb, qd)),
            s.idle(),
            covers(s.flow@.known, S_X as int, S_X + 96 * tiles),
            covers(s.flow@.known, region8 as int, region8 + 48 * tiles),
        decreases 2 * tiles - ci,
    {
        let ghost before = *s;
        s.emit(Step::Read { at: S_X + 48 * (ci as u32), dst: arena(A_IN, 24576) });
        s.emit(Step::Read { at: region8 + 24 * (ci as u32), dst: arena(A_AUX, 12288) });
        s.emit(Step::AddTo { acc: arena(A_IN, 24576), b: arena(A_AUX, 12288), qa, qb, qd });
        s.emit(Step::Write { at: S_X + 48 * (ci as u32), src: arena(A_IN, 24576) });
        assert(s.steps@ =~= before.steps@ + add_chunk(ci as int, region8 as int, qa, qb, qd));
        assert(s.steps@ =~= start.steps@ + add_steps(ci + 1, region8 as int, qa, qb, qd));
        ci = ci + 1;
    }
}

// --- projections ---------------------------------------------------------------------

/// Input tiles alternate in the halves of `A_IN`, outputs between the arena
/// and the idle cache.
pub open spec fn proj_in(i: int) -> Buf {
    if i % 2 == 0 {
        arena_buf(A_IN as int, TILE8 as int)
    } else {
        arena_buf(A_IN + TILE8, TILE8 as int)
    }
}

pub open spec fn proj_out(i: int) -> Buf {
    if i % 2 == 0 {
        arena_buf(A_OUT as int, TILE8 as int)
    } else {
        kv_buf(KV_PO as int, TILE8 as int)
    }
}

/// Head `h`'s part of an output tile.
pub open spec fn head_part(b: Buf, h: int) -> Buf {
    Buf { mem: b.mem, off: (b.off + 4096 * h) as usize, len: 4096 }
}

/// First block of head `h` in a head-block region.
pub open spec fn head_at(region: int, h: int) -> int {
    region + 80 * h
}

/// The writes of the first `n` heads' blocks of tile `i`.
pub open spec fn head_writes(region: int, i: int, from: Buf, n: int) -> Seq<Step>
    decreases n,
{
    if n <= 0 {
        Seq::empty()
    } else {
        head_writes(region, i, from, n - 1).push(
            Step::Push {
                read: false,
                at: (head_at(region, n - 1) + 8 * i) as u32,
                buf: head_part(from, n - 1),
            },
        )
    }
}

/// Every head has its first `n` tile blocks.
pub open spec fn heads_known(known: Set<int>, region: int, n: int) -> bool {
    forall|h: int|
        0 <= h < 6 ==> covers(known, #[trigger] head_at(region, h), head_at(region, h) + 8 * n)
}

/// Only writes are queued, all from inside `b`.
pub open spec fn writes_from(queue: Seq<Xfer>, b: Buf) -> bool {
    forall|k: int|
        0 <= k < queue.len() ==> {
            let x = #[trigger] queue[k];
            &&& !x.read
            &&& x.buf.mem == b.mem
            &&& b.off <= x.buf.off
            &&& x.buf.off + x.buf.len <= b.off + b.len
        }
}

pub fn push_heads(s: &mut Script, region: u32, i: usize, from: Buf)
    requires
        old(s).wf(),
        old(s).idle(),
        i < 10,
        region + 480 <= S_END,
        from.inside(),
        from.len == TILE8,
        heads_known(old(s).flow@.known, region as int, i as int),
    ensures
        final(s).extends(*old(s), head_writes(region as int, i as int, from, 6)),
        writes_from(final(s).flow@.queue, from),
        final(s).flow@.queue.len() == 6,
        heads_known(final(s).flow@.known, region as int, i + 1),
{
    let ghost start = *s;
    let mut h: usize = 0;
    assert(s.steps@ =~= start.steps@ + head_writes(region as int, i as int, from, 0));
    while h < 6
        invariant
            h <= 6,
            i < 10,
            region + 480 <= S_END,
            from.inside(),
            from.len == TILE8,
            s.extends(start, head_writes(region as int, i as int, from, h as int)),
            s.flow@.queue.len() == h,
            writes_from(s.flow@.queue, from),
            heads_known(s.flow@.known, region as int, i as int),
            forall|g: int|
                0 <= g < h ==> covers(
                    s.flow@.known,
                    #[trigger] head_at(region as int, g),
                    head_at(region as int, g) + 8 * (i + 1),
                ),
        decreases 6 - h,
    {
        let ghost before = *s;
        s.emit(
            Step::Push {
                read: false,
                at: region + 80 * (h as u32) + 8 * (i as u32),
                buf: Buf { mem: from.mem, off: from.off + 4096 * h, len: 4096 },
            },
        );
        proof {
            assert(s.steps@ =~= start.steps@ + head_writes(
                region as int,
                i as int,
                from,
                h + 1,
            ));
            let known = s.flow@.known;
            assert forall|g: int| 0 <= g < 6 implies covers(
                known,
                #[trigger] head_at(region as int, g),
                head_at(region as int, g) + 8 * i,
            ) by {
                assert(covers(
                    before.flow@.known,
                    head_at(region as int, g),
                    head_at(region as int, g) + 8 * i,
                ));
            }
            assert forall|g: int| 0 <= g < h + 1 implies covers(
                known,
                #[trigger] head_at(region as int, g),
                head_at(region as int, g) + 8 * (i + 1),
            ) by {
                assert(covers(
                    before.flow@.known,
                    head_at(region as int, g),
                    head_at(region as int, g) + 8 * i,
                ));
                if g < h {
                    assert(covers(
                        before.flow@.known,
                        head_at(region as int, g),
                        head_at(region as int, g) + 8 * (i + 1),
                    ));
                }
            }
        }
        h = h + 1;
    }
}

/// One tile of a projection: run it while the previous tile's blocks go
/// out, fetch the next input, queue this tile's blocks.
pub open spec fn proj_tile(blob: Blob, region: int, tiles: int, i: int) -> Seq<Step> {
    seq![
        Step::Run { blob, input: proj_in(i), output: proj_out(i), pumped: true },
        Step::Drain,
    ] + (if i + 1 < tiles {
        seq![Step::Read { at: (S_LN + 48 * (i + 1)) as u32, dst: proj_in(i + 1) }]
    } else {
        Seq::empty()
    }) + head_writes(region, i, proj_out(i), 6) + seq![Step::Pump]
}

pub open spec fn proj_tiles(blob: Blob, region: int, tiles: int, n: int) -> Seq<Step>
    decreases n,
{
    if n <= 0 {
        Seq::empty()
    } else {
        proj_tiles(blob, region, tiles, n - 1) + proj_tile(blob, region, tiles, n - 1)
    }
}

/// A projection of every layer-norm tile into a head-block region.
pub open spec fn proj_steps(blob: Blob, region: int, tiles: int) -> Seq<Step> {
    seq![Step::Load(blob), Step::Read { at: S_LN, dst: proj_in(0) }] + proj_tiles(
        blob,
        region,
        tiles,
        tiles,
    ) + seq![Step::Drain]
}

fn project_tile(s: &mut Script, blob: Blob, region: u32, tiles: usize, i: usize)
    requires
        old(s).wf(),
        i < tiles <= 10,
        S_QH <= region,
        region + 480 <= S_END,
        i == 0 ==> old(s).idle(),
        i > 0 ==> writes_from(old(s).flow@.queue, proj_out(i - 1)),
        covers(old(s).flow@.known, S_LN as int, S_LN + 48 * tiles),
        heads_known(old(s).flow@.known, region as int, i as int),
    ensures
        final(s).extends(*old(s), proj_tile(blob, region as int, tiles as int, i as int)),
        writes_from(final(s).flow@.queue, proj_out(i as int)),
        heads_known(final(s).flow@.known, region as int, i + 1),
{
    let ghost start = *s;
    let even = i % 2 == 0;
    let input = if even {
        arena(A_IN, TILE8)
    } else {
        arena(A_IN + TILE8, TILE8)
    };
    let next = if even {
        arena(A_IN + TILE8, TILE8)
    } else {
        arena(A_IN, TILE8)
    };
    let out = if even {
        arena(A_OUT, TILE8)
    } else {
        kvscratch(KV_PO, TILE8)
    };
    assert(out == proj_out(i as int));
    assert(input == proj_in(i as int));
    assert(next == proj_in(i + 1));
    s.emit(Step::Run { blob, input, output: out, pumped: true });
    s.emit(Step::Drain);
    if i + 1 < tiles {
        s.emit(Step::Read { at: S_LN + 48 * (i as u32 + 1), dst: next });
    }
    let ghost head = seq![
        Step::Run { blob, input: proj_in(i as int), output: proj_out(i as int), pumped: true },
        Step::Drain,
    ] + (if i + 1 < tiles {
        seq![Step::Read { at: (S_LN + 48 * (i + 1)) as u32, dst: proj_in(i + 1) }]
    } else {
        Seq::empty()
    });
    assert(s.steps@ =~= start.steps@ + head);
    assert(s.flow@.known == start.flow@.known);
    let ghost mid = *s;
    push_heads(s, region, i, out);
    s.emit(Step::Pump);
    assert(s.steps@ =~= start.steps@ + proj_tile(blob, region as int, tiles as int, i as int));
}

pub fn project(s: &mut Script, blob: Blob, region: u32, tiles: usize)
    requires
        old(s).wf(),
        old(s).idle(),
        1 <= tiles <= 10,
        S_QH <= region,
        region + 480 <= S_END,
        covers(old(s).flow@.known, S_LN as int, S_LN + 48 * tiles),
    ensures
        final(s).extends(*old(s), proj_steps(blob, region as int, tiles as int)),
        final(s).idle(),
        heads_known(final(s).flow@.known, region as int, tiles as int),
{
    let ghost start = *s;
    s.emit(Step::Load(blob));
    s.emit(Step::Read { at: S_LN, dst: arena(A_IN, TILE8) });
    let ghost head = seq![Step::Load(blob), Step::Read { at: S_LN, dst: proj_in(0) }];
    assert(s.steps@ =~= start.steps@ + (head + proj_tiles(blob, region as int, tiles as int, 0)));
    let mut i: usize = 0;
    while i < tiles
        invariant
            i <= tiles <= 10,
            S_QH <= region,
            region + 480 <= S_END,
            s.extends(start, head + proj_tiles(blob, region as int, tiles as int, i as int)),
            i == 0 ==> s.idle(),
            i > 0 ==> writes_from(s.flow@.queue, proj_out(i - 1)),
            covers(s.flow@.known, S_LN as int, S_LN + 48 * tiles),
            heads_known(s.flow@.known, region as int, i as int),
        decreases tiles - i,
    {
        let ghost before = *s;
        project_tile(s, blob, region, tiles, i);
        assert(s.steps@ =~= start.steps@ + (head + proj_tiles(
            blob,
            region as int,
            tiles as int,
            i + 1,
        )));
        i = i + 1;
    }
    s.emit(Step::Drain);
    assert(s.steps@ =~= start.steps@ + proj_steps(blob, region as int, tiles as int));
}

// --- attention -----------------------------------------------------------------------

/// Reads of head `h`'s keys, values and queries.
pub open spec fn fetch_head(h: int, tiles: int) -> Seq<Step> {
    seq![
        Step::Push {
            read: true,
            at: head_at(S_KH as int, h) as u32,
            buf: arena_buf(A_PK as int, 4096 * tiles),
        },
        Step::Push {
            read: true,
            at: head_at(S_VH as int, h) as u32,
            buf: arena_buf(A_PV as int, 4096 * tiles),
        },
        Step::Push {
            read: true,
            at: head_at(S_QH as int, h) as u32,
            buf: kv_buf(KV_PQ as int, 4096 * tiles),
        },
    ]
}

/// Context tiles alternate between the interlayer buffer and the idle
/// cache.
pub open spec fn ctx_at(h: int) -> int {
    if h % 2 == 0 {
        IL_CTX as int
    } else {
        KV_CTX1 as int
    }
}

pub open spec fn ctx_mem(h: int) -> Mem {
    if h % 2 == 0 {
        Mem::Interlayer
    } else {
        Mem::Kv
    }
}

pub open spec fn ctx_buf(h: int, tiles: int) -> Buf {
    Buf { mem: ctx_mem(h), off: ctx_at(h) as usize, len: (4096 * tiles) as usize }
}

/// Sixteen queries of tile `i`.
pub open spec fn attend_step(h: int, i: int, first: int, tk: int, q: EncBlockQ) -> Step {
    Step::Attend {
        query: slot_buf(SL_STAGE + 4096 * i, 4096),
        kv: slot_buf(SL_KT as int, 163840),
        table: slot_buf(SL_EXPTAB as int, 8184),
        work: il_buf(IL_SCRATCH2 as int, 16384),
        ctx: Buf { mem: ctx_mem(h), off: (ctx_at(h) + 4096 * i) as usize, len: 4096 },
        first: first as usize,
        tk: tk as usize,
        qq: q.q_out,
        qk: q.k_out,
        qv: q.v_out,
        qc: q.ctx,
    }
}

pub open spec fn attend_tile(h: int, i: int, tk: int, q: EncBlockQ) -> Seq<Step> {
    seq![
        attend_step(h, i, 0, tk, q),
        Step::Pump,
        attend_step(h, i, 16, tk, q),
        Step::Pump,
        attend_step(h, i, 32, tk, q),
        Step::Pump,
        attend_step(h, i, 48, tk, q),
        Step::Pump,
    ]
}

pub open spec fn attend_tiles(h: int, n: int, tk: int, q: EncBlockQ) -> Seq<Step>
    decreases n,
{
    if n <= 0 {
        Seq::empty()
    } else {
        attend_tiles(h, n - 1, tk, q) + attend_tile(h, n - 1, tk, q)
    }
}

/// Unpacking a head's operands, and the transfers that run behind it.
pub open spec fn head_begin(h: int, tiles: int, tk: int) -> Seq<Step> {
    seq![
        Step::Keys {
            stage: arena_buf(A_PK as int, 4096 * tiles),
            tk: tk as usize,
            dst: slot_buf(SL_KT as int, 81920),
        },
        Step::Values {
            stage: arena_buf(A_PV as int, 4096 * tiles),
            tk: tk as usize,
            dst: slot_buf(SL_V16 as int, 81920),
        },
        Step::Copy {
            src: kv_buf(KV_PQ as int, 4096 * tiles),
            dst: slot_buf(SL_STAGE as int, 4096 * tiles),
        },
    ] + (if h > 0 {
        seq![
            Step::Push {
                read: false,
                at: head_at(S_CH as int, h - 1) as u32,
                buf: ctx_buf(h - 1, tiles),
            },
        ]
    } else {
        Seq::empty()
    }) + (if h < 5 {
        fetch_head(h + 1, tiles)
    } else {
        Seq::empty()
    }) + seq![Step::Pump]
}

/// One head.
pub open spec fn head_steps(h: int, tiles: int, tk: int, q: EncBlockQ) -> Seq<Step> {
    head_begin(h, tiles, tk) + attend_tiles(h, tiles, tk, q) + seq![Step::Drain]
}

pub open spec fn heads_steps(n: int, tiles: int, tk: int, q: EncBlockQ) -> Seq<Step>
    decreases n,
{
    if n <= 0 {
        Seq::empty()
    } else {
        heads_steps(n - 1, tiles, tk, q) + head_steps(n - 1, tiles, tk, q)
    }
}

/// Self-attention of a block: all heads, from the projections' head blocks
/// into the context's.
pub open spec fn attention_steps(tiles: int, tk: int, q: EncBlockQ) -> Seq<Step> {
    seq![
        Step::Forget,
        Step::ExpTable { q: q.q_out, k: q.k_out, dst: slot_buf(SL_EXPTAB as int, 8184) },
    ] + fetch_head(0, tiles) + seq![Step::Drain] + heads_steps(6, tiles, tk, q) + seq![
        Step::Write { at: head_at(S_CH as int, 5) as u32, src: ctx_buf(5, tiles) },
    ]
}

fn context_buf(h: usize, tiles: usize) -> (b: Buf)
    requires
        tiles <= 10,
    ensures
        b == ctx_buf(h as int, tiles as int),
        b.inside(),
        b.len == 4096 * tiles,
{
    if h % 2 == 0 {
        interlayer(IL_CTX, 4096 * tiles)
    } else {
        kvscratch(KV_CTX1, 4096 * tiles)
    }
}

/// The queue holds at most the previous head's context and reads into the
/// prefetch buffers.
spec fn attn_queue(queue: Seq<Xfer>, h: int, tiles: int) -> bool {
    forall|k: int|
        0 <= k < queue.len() ==> {
            let b = (#[trigger] queue[k]).buf;
            ||| b == arena_buf(A_PK as int, 4096 * tiles)
            ||| b == arena_buf(A_PV as int, 4096 * tiles)
            ||| b == kv_buf(KV_PQ as int, 4096 * tiles)
            ||| h > 0 && b == ctx_buf(h - 1, tiles)
        }
}

fn fetch(s: &mut Script, h: usize, tiles: usize)
    requires
        old(s).wf(),
        1 <= tiles <= 10,
        h < 6,
        old(s).flow@.queue.len() <= 1,
        old(s).flow@.queue.len() == 1 ==> h > 1 && old(s).flow@.queue[0].buf == ctx_buf(
            h - 2,
            tiles as int,
        ),
        heads_known(old(s).flow@.known, S_QH as int, tiles as int),
        heads_known(old(s).flow@.known, S_KH as int, tiles as int),
        heads_known(old(s).flow@.known, S_VH as int, tiles as int),
    ensures
        final(s).extends(*old(s), fetch_head(h as int, tiles as int)),
        final(s).flow@.known == old(s).flow@.known,
        final(s).flow@.queue.len() <= 4,
        attn_queue(final(s).flow@.queue, h - 1, tiles as int),
{
    let ghost start = *s;
    let n: usize = 4096 * tiles;
    assert(covers(
        s.flow@.known,
        head_at(S_KH as int, h as int),
        head_at(S_KH as int, h as int) + 8 * tiles,
    ));
    assert(covers(
        s.flow@.known,
        head_at(S_VH as int, h as int),
        head_at(S_VH as int, h as int) + 8 * tiles,
    ));
    assert(covers(
        s.flow@.known,
        head_at(S_QH as int, h as int),
        head_at(S_QH as int, h as int) + 8 * tiles,
    ));
    s.emit(Step::Push { read: true, at: S_KH + 80 * (h as u32), buf: arena(A_PK, n) });
    s.emit(Step::Push { read: true, at: S_VH + 80 * (h as u32), buf: arena(A_PV, n) });
    s.emit(Step::Push { read: true, at: S_QH + 80 * (h as u32), buf: kvscratch(KV_PQ, n) });
    assert(s.steps@ =~= start.steps@ + fetch_head(h as int, tiles as int));
}

fn attend_one(
    s: &mut Script,
    h: usize,
    i: usize,
    first: usize,
    tiles: usize,
    tk: usize,
    q: &EncBlockQ,
)
    requires
        old(s).wf(),
        i < tiles <= 10,
        h < 6,
        attn_queue(old(s).flow@.queue, h as int, tiles as int),
    ensures
        final(s).wf(),
        final(s).start == old(s).start,
        final(s).flow@ == old(s).flow@,
        final(s).steps@ == old(s).steps@.push(
            attend_step(h as int, i as int, first as int, tk as int, *q),
        ).push(Step::Pump),
{
    let ctx = if h % 2 == 0 {
        interlayer(IL_CTX + 4096 * i, 4096)
    } else {
        kvscratch(KV_CTX1 + 4096 * i, 4096)
    };
    s.emit(
        Step::Attend {
            query: slot(SL_STAGE + 4096 * i, 4096),
            kv: slot(SL_KT, 163840),
            table: slot(SL_EXPTAB, 8184),
            work: interlayer(IL_SCRATCH2, 16384),
            ctx,
            first,
            tk,
            qq: q.q_out,
            qk: q.k_out,
            qv: q.v_out,
            qc: q.ctx,
        },
    );
    s.emit(Step::Pump);
}

fn attend(s: &mut Script, h: usize, tiles: usize, tk: usize, q: &EncBlockQ)
    requires
        old(s).wf(),
        tiles <= 10,
        h < 6,
        attn_queue(old(s).flow@.queue, h as int, tiles as int),
    ensures
        final(s).extends(*old(s), attend_tiles(h as int, tiles as int, tk as int, *q)),
        final(s).flow@ == old(s).flow@,
{
    let ghost start = *s;
    let mut i: usize = 0;
    assert(s.steps@ =~= start.steps@ + attend_tiles(h as int, 0, tk as int, *q));
    while i < tiles
        invariant
            i <= tiles <= 10,
            h < 6,
            s.extends(start, attend_tiles(h as int, i as int, tk as int, *q)),
            s.flow@ == start.flow@,
            attn_queue(start.flow@.queue, h as int, tiles as int),
        decreases tiles - i,
    {
        let ghost before = *s;
        attend_one(s, h, i, 0, tiles, tk, q);
        attend_one(s, h, i, 16, tiles, tk, q);
        attend_one(s, h, i, 32, tiles, tk, q);
        attend_one(s, h, i, 48, tiles, tk, q);
        assert(s.steps@ =~= before.steps@ + attend_tile(h as int, i as int, tk as int, *q));
        assert(s.steps@ =~= start.steps@ + attend_tiles(h as int, i + 1, tk as int, *q));
        i = i + 1;
    }
}

fn begin_head(s: &mut Script, h: usize, tiles: usize, tk: usize)
    requires
        old(s).wf(),
        old(s).idle(),
        1 <= tiles <= 10,
        h < 6,
        heads_known(old(s).flow@.known, S_QH as int, tiles as int),
        heads_known(old(s).flow@.known, S_KH as int, tiles as int),
        heads_known(old(s).flow@.known, S_VH as int, tiles as int),
    ensures
        final(s).extends(*old(s), head_begin(h as int, tiles as int, tk as int)),
        attn_queue(final(s).flow@.queue, h as int, tiles as int),
        h > 0 ==> covers(
            final(s).flow@.known,
            head_at(S_CH as int, h - 1),
            head_at(S_CH as int, h - 1) + 8 * tiles,
        ),
{
    let ghost start = *s;
    let n: usize = 4096 * tiles;
    s.emit(Step::Keys { stage: arena(A_PK, n), tk, dst: slot(SL_KT, 81920) });
    s.emit(Step::Values { stage: arena(A_PV, n), tk, dst: slot(SL_V16, 81920) });
    s.emit(Step::Copy { src: kvscratch(KV_PQ, n), dst: slot(SL_STAGE, n) });
    let ghost a = seq![
        Step::Keys { stage: arena_buf(0, n as int), tk, dst: slot_buf(0, 81920) },
        Step::Values { stage: arena_buf(A_PV as int, n as int), tk, dst: slot_buf(81920, 81920) },
        Step::Copy { src: kv_buf(0, n as int), dst: slot_buf(SL_STAGE as int, n as int) },
    ];
    assert(s.steps@ =~= start.steps@ + a);
    let ghost b = if h > 0 {
        seq![
            Step::Push {
                read: false,
                at: head_at(S_CH as int, h - 1) as u32,
                buf: ctx_buf(h - 1, tiles as int),
            },
        ]
    } else {
        Seq::empty()
    };
    if h > 0 {
        let prev = context_buf(h - 1, tiles);
        s.emit(Step::Push { read: false, at: S_CH + 80 * (h as u32 - 1), buf: prev });
    }
    assert(s.steps@ =~= start.steps@ + (a + b));
    let ghost mid = *s;
    assert forall|r: int, g: int| 0 <= g < 6 && heads_known(start.flow@.known, r, tiles as int)
        implies covers(
        mid.flow@.known,
        #[trigger] head_at(r, g),
        head_at(r, g) + 8 * tiles,
    ) by {
        assert(covers(start.flow@.known, head_at(r, g), head_at(r, g) + 8 * tiles));
    }
    if h < 5 {
        fetch(s, h + 1, tiles);
    }
    s.emit(Step::Pump);
    assert(s.steps@ =~= start.steps@ + head_begin(h as int, tiles as int, tk as int));
}

/// The first `n` heads' contexts are complete.
spec fn contexts_known(known: Set<int>, n: int, tiles: int) -> bool {
    forall|h: int|
        0 <= h < n ==> covers(
            known,
            #[trigger] head_at(S_CH as int, h),
            head_at(S_CH as int, h) + 8 * tiles,
        )
}

fn attention(s: &mut Script, tiles: usize, tk: usize, q: &EncBlockQ)
    requires
        old(s).wf(),
        old(s).idle(),
        1 <= tiles <= 10,
        heads_known(old(s).flow@.known, S_QH as int, tiles as int),
        heads_known(old(s).flow@.known, S_KH as int, tiles as int),
        heads_known(old(s).flow@.known, S_VH as int, tiles as int),
    ensures
        final(s).extends(*old(s), attention_steps(tiles as int, tk as int, *q)),
        final(s).idle(),
        heads_known(final(s).flow@.known, S_CH as int, tiles as int),
{
    let ghost start = *s;
    s.emit(Step::Forget);
    s.emit(Step::ExpTable { q: q.q_out, k: q.k_out, dst: slot(SL_EXPTAB, 8184) });
    let ghost mid = *s;
    fetch(s, 0, tiles);
    s.emit(Step::Drain);
    let ghost head = seq![
        Step::Forget,
        Step::ExpTable { q: q.q_out, k: q.k_out, dst: slot_buf(SL_EXPTAB as int, 8184) },
    ] + fetch_head(0, tiles as int) + seq![Step::Drain];
    assert(s.steps@ =~= start.steps@ + (head + heads_steps(0, tiles as int, tk as int, *q)));
    let mut h: usize = 0;
    while h < 6
        invariant
            h <= 6,
            1 <= tiles <= 10,
            s.extends(start, head + heads_steps(h as int, tiles as int, tk as int, *q)),
            s.idle(),
            heads_known(s.flow@.known, S_QH as int, tiles as int),
            heads_known(s.flow@.known, S_KH as int, tiles as int),
            heads_known(s.flow@.known, S_VH as int, tiles as int),
            contexts_known(s.flow@.known, h - 1, tiles as int),
        decreases 6 - h,
    {
        let ghost before = *s;
        begin_head(s, h, tiles, tk);
        attend(s, h, tiles, tk, q);
        s.emit(Step::Drain);
        proof {
            assert(s.steps@ =~= before.steps@ + head_steps(
                h as int,
                tiles as int,
                tk as int,
                *q,
            ));
            assert(s.steps@ =~= start.steps@ + (head + heads_steps(
                h + 1,
                tiles as int,
                tk as int,
                *q,
            )));
            lemma_heads_stay(before, *s, S_QH as int, tiles as int);
            lemma_heads_stay(before, *s, S_KH as int, tiles as int);
            lemma_heads_stay(before, *s, S_VH as int, tiles as int);
            assert forall|g: int| 0 <= g < h implies covers(
                s.flow@.known,
                #[trigger] head_at(S_CH as int, g),
                head_at(S_CH as int, g) + 8 * tiles,
            ) by {
                if g < h - 1 {
                    assert(covers(
                        before.flow@.known,
                        head_at(S_CH as int, g),
                        head_at(S_CH as int, g) + 8 * tiles,
                    ));
                }
            }
        }
        h = h + 1;
    }
    let ghost before = *s;
    let last = context_buf(5, tiles);
    s.emit(Step::Write { at: S_CH + 400, src: last });
    proof {
        assert(s.steps@ =~= start.steps@ + attention_steps(tiles as int, tk as int, *q));
        assert forall|g: int| 0 <= g < 6 implies covers(
            s.flow@.known,
            #[trigger] head_at(S_CH as int, g),
            head_at(S_CH as int, g) + 8 * tiles,
        ) by {
            if g < 5 {
                assert(covers(
                    before.flow@.known,
                    head_at(S_CH as int, g),
                    head_at(S_CH as int, g) + 8 * tiles,
                ));
            }
        }
    }
}

/// Data stays.
proof fn lemma_heads_stay(before: Script, now: Script, region: int, n: int)
    requires
        heads_known(before.flow@.known, region, n),
        forall|b: int|
            #![trigger now.flow@.known.contains(b)]
            before.flow@.known.contains(b) ==> now.flow@.known.contains(b),
    ensures
        heads_known(now.flow@.known, region, n),
{
    assert forall|h: int| 0 <= h < 6 implies covers(
        now.flow@.known,
        #[trigger] head_at(region, h),
        head_at(region, h) + 8 * n,
    ) by {
        assert(covers(before.flow@.known, head_at(region, h), head_at(region, h) + 8 * n));
    }
}

// --- output projection ---------------------------------------------------------------

/// The reads of the first `n` heads' context blocks of tile `i`.
pub open spec fn ctx_reads(i: int, n: int) -> Seq<Step>
    decreases n,
{
    if n <= 0 {
        Seq::empty()
    } else {
        ctx_reads(i, n - 1).push(
            Step::Read {
                at: (head_at(S_CH as int, n - 1) + 8 * i) as u32,
                dst: arena_buf(A_IN + 4096 * (n - 1), 4096),
            },
        )
    }
}

pub open spec fn out_tile(blob: Blob, i: int) -> Seq<Step> {
    ctx_reads(i, 6) + seq![
        Step::Load(blob),
        Step::Run {
            blob,
            input: arena_buf(A_IN as int, TILE8 as int),
            output: arena_buf(A_OUT as int, TILE8 as int),
            pumped: false,
        },
        Step::Write { at: (S_O + 48 * i) as u32, src: arena_buf(A_OUT as int, TILE8 as int) },
    ]
}

/// The output projection of the first `n` tiles.
pub open spec fn out_steps(blob: Blob, n: int) -> Seq<Step>
    decreases n,
{
    if n <= 0 {
        Seq::empty()
    } else {
        out_steps(blob, n - 1) + out_tile(blob, n - 1)
    }
}

fn read_contexts(s: &mut Script, i: usize, tiles: usize)
    requires
        old(s).wf(),
        old(s).idle(),
        i < tiles <= 10,
        heads_known(old(s).flow@.known, S_CH as int, tiles as int),
    ensures
        final(s).extends(*old(s), ctx_reads(i as int, 6)),
        final(s).flow@ == old(s).flow@,
{
    let ghost start = *s;
    let mut h: usize = 0;
    assert(s.steps@ =~= start.steps@ + ctx_reads(i as int, 0));
    while h < 6
        invariant
            h <= 6,
            i < tiles <= 10,
            s.extends(start, ctx_reads(i as int, h as int)),
            s.flow@ == start.flow@,
            start.idle(),
            heads_known(start.flow@.known, S_CH as int, tiles as int),
        decreases 6 - h,
    {
        assert(covers(
            start.flow@.known,
            head_at(S_CH as int, h as int),
            head_at(S_CH as int, h as int) + 8 * tiles,
        ));
        s.emit(
            Step::Read {
                at: S_CH + 80 * (h as u32) + 8 * (i as u32),
                dst: arena(A_IN + 4096 * h, 4096),
            },
        );
        assert(s.steps@ =~= start.steps@ + ctx_reads(i as int, h + 1));
        h = h + 1;
    }
}

fn out_projection(s: &mut Script, blob: Blob, tiles: usize)
    requires
        old(s).wf(),
        old(s).idle(),
        tiles <= 10,
        heads_known(old(s).flow@.known, S_CH as int, tiles as int),
    ensures
        final(s).extends(*old(s), out_steps(blob, tiles as int)),
        final(s).idle(),
        covers(final(s).flow@.known, S_O as int, S_O + 48 * tiles),
{
    let ghost start = *s;
    let out = arena(A_OUT, TILE8);
    let mut i: usize = 0;
    assert(s.steps@ =~= start.steps@ + out_steps(blob, 0));
    while i < tiles
        invariant
            i <= tiles <= 10,
            out == arena_buf(A_OUT as int, TILE8 as int),
            s.extends(start, out_steps(blob, i as int)),
            s.idle(),
            heads_known(s.flow@.known, S_CH as int, tiles as int),
            covers(s.flow@.known, S_O as int, S_O + 48 * i),
        decreases tiles - i,
    {
        let ghost before = *s;
        read_contexts(s, i, tiles);
        s.emit(Step::Load(blob));
        s.emit(Step::Run { blob, input: arena(A_IN, TILE8), output: out, pumped: false });
        s.emit(Step::Write { at: S_O + 48 * (i as u32), src: out });
        proof {
            assert(s.steps@ =~= before.steps@ + out_tile(blob, i as int));
            assert(s.steps@ =~= start.steps@ + out_steps(blob, i + 1));
            lemma_heads_stay(before, *s, S_CH as int, tiles as int);
        }
        i = i + 1;
    }
}

// --- MLP -----------------------------------------------------------------------------

pub open spec fn kv_tile(off: int) -> Buf {
    kv_buf(off, TILE8 as int)
}

pub open spec fn arena_tile(off: int) -> Buf {
    arena_buf(off, TILE8 as int)
}

/// First layer on a pair of tiles, while the previous pair's partial sums go
/// out.
pub open spec fn pair_first(f1: Blob, preg: int, tiles: int, i: int) -> Seq<Step> {
    seq![Step::Load(f1)] + (if i > 0 {
        seq![
            Step::Push {
                read: false,
                at: (preg + 48 * (i - 2)) as u32,
                buf: kv_tile(KV_P0 as int),
            },
            Step::Push {
                read: false,
                at: (preg + 48 * (i - 1)) as u32,
                buf: kv_tile(KV_P1 as int),
            },
            Step::Pump,
        ]
    } else {
        Seq::empty()
    }) + seq![
        Step::Run {
            blob: f1,
            input: arena_tile(A_X0 as int),
            output: arena_tile(A_OUT as int),
            pumped: true,
        },
    ] + (if i + 1 < tiles {
        seq![
            Step::Run {
                blob: f1,
                input: arena_tile(A_X1 as int),
                output: kv_tile(KV_F1 as int),
                pumped: true,
            },
        ]
    } else {
        Seq::empty()
    }) + seq![Step::Drain]
}

/// The reads of the next pair's inputs.
pub open spec fn pair_fetch(tiles: int, i: int) -> Seq<Step> {
    if i + 2 < tiles {
        seq![
            Step::Push {
                read: true,
                at: (S_LN + 48 * (i + 2)) as u32,
                buf: arena_tile(A_X0 as int),
            },
        ] + (if i + 3 < tiles {
            seq![
                Step::Push {
                    read: true,
                    at: (S_LN + 48 * (i + 3)) as u32,
                    buf: arena_tile(A_X1 as int),
                },
            ]
        } else {
            Seq::empty()
        }) + seq![Step::Pump]
    } else {
        Seq::empty()
    }
}

/// GELU and the partial second layer on the pair, while the next pair's
/// inputs come in.
pub open spec fn pair_second(p2: Blob, tiles: int, i: int) -> Seq<Step> {
    seq![Step::Load(p2)] + pair_fetch(tiles, i) + seq![
        Step::Lut { table: arena_buf(A_LUT as int, 256), buf: arena_tile(A_OUT as int) },
        Step::Run {
            blob: p2,
            input: arena_tile(A_OUT as int),
            output: kv_tile(KV_P0 as int),
            pumped: true,
        },
    ] + (if i + 1 < tiles {
        seq![
            Step::Lut { table: arena_buf(A_LUT as int, 256), buf: kv_tile(KV_F1 as int) },
            Step::Run {
                blob: p2,
                input: kv_tile(KV_F1 as int),
                output: kv_tile(KV_P1 as int),
                pumped: true,
            },
        ]
    } else {
        Seq::empty()
    }) + seq![Step::Drain]
}

/// The first `n` pairs.
pub open spec fn pairs_steps(f1: Blob, p2: Blob, preg: int, tiles: int, n: int) -> Seq<Step>
    decreases n,
{
    if n <= 0 {
        Seq::empty()
    } else {
        pairs_steps(f1, p2, preg, tiles, n - 1) + pair_first(f1, preg, tiles, 2 * (n - 1))
            + pair_second(p2, tiles, 2 * (n - 1))
    }
}

/// The last pair's partial sums.
pub open spec fn pairs_end(preg: int, tiles: int) -> Seq<Step> {
    if tiles % 2 == 0 {
        seq![
            Step::Write { at: (preg + 48 * (tiles - 2)) as u32, src: kv_tile(KV_P0 as int) },
            Step::Write { at: (preg + 48 * (tiles - 1)) as u32, src: kv_tile(KV_P1 as int) },
        ]
    } else {
        seq![Step::Write { at: (preg + 48 * (tiles - 1)) as u32, src: kv_tile(KV_P0 as int) }]
    }
}

/// Pairs of tiles, the last perhaps of one.
pub open spec fn pair_count(tiles: int) -> int {
    (tiles + 1) / 2
}

/// One quarter of an MLP: hidden channels 384 times `j` and on, partial sums
/// into their own region.
pub open spec fn mlp_part(l: int, j: int, tiles: int) -> Seq<Step> {
    let f1 = Blob::Enc(l as usize, Kind::Fc1, j as usize);
    let p2 = Blob::Enc(l as usize, Kind::Fc2p, j as usize);
    seq![
        Step::Asset {
            what: Asset::EncLut(l as usize, j as usize),
            dst: arena_buf(A_LUT as int, 512),
        },
        Step::Read { at: S_LN, dst: arena_tile(A_X0 as int) },
    ] + (if tiles > 1 {
        seq![Step::Read { at: (S_LN + 48) as u32, dst: arena_tile(A_X1 as int) }]
    } else {
        Seq::empty()
    }) + pairs_steps(f1, p2, S_P + 480 * j, tiles, pair_count(tiles)) + pairs_end(
        S_P + 480 * j,
        tiles,
    )
}

/// The first `n` quarters.
pub open spec fn mlp_steps(l: int, n: int, tiles: int) -> Seq<Step>
    decreases n,
{
    if n <= 0 {
        Seq::empty()
    } else {
        mlp_steps(l, n - 1, tiles) + mlp_part(l, n - 1, tiles)
    }
}

fn first_layer(s: &mut Script, f1: Blob, preg: u32, tiles: usize, i: usize)
    requires
        old(s).wf(),
        old(s).idle(),
        i < tiles <= 10,
        i > 0 ==> i >= 2,
        preg + 480 <= S_END,
        i > 0 ==> covers(old(s).flow@.known, preg as int, preg + 48 * (i - 2)),
    ensures
        final(s).extends(*old(s), pair_first(f1, preg as int, tiles as int, i as int)),
        final(s).idle(),
        covers(final(s).flow@.known, preg as int, preg + 48 * i),
{
    let ghost start = *s;
    s.emit(Step::Load(f1));
    if i > 0 {
        let at: u32 = preg + 48 * (i as u32 - 2);
        s.emit(Step::Push { read: false, at, buf: kvscratch(KV_P0, TILE8) });
        s.emit(Step::Push { read: false, at: at + 48, buf: kvscratch(KV_P1, TILE8) });
        s.emit(Step::Pump);
    }
    s.emit(
        Step::Run {
            blob: f1,
            input: arena(A_X0, TILE8),
            output: arena(A_OUT, TILE8),
            pumped: true,
        },
    );
    if i + 1 < tiles {
        s.emit(
            Step::Run {
                blob: f1,
                input: arena(A_X1, TILE8),
                output: kvscratch(KV_F1, TILE8),
                pumped: true,
            },
        );
    }
    s.emit(Step::Drain);
    assert(s.steps@ =~= start.steps@ + pair_first(f1, preg as int, tiles as int, i as int));
}

#[verifier::rlimit(30)]
fn second_layer(s: &mut Script, p2: Blob, tiles: usize, i: usize)
    requires
        old(s).wf(),
        old(s).idle(),
        i < tiles <= 10,
        covers(old(s).flow@.known, S_LN as int, S_LN + 48 * tiles),
    ensures
        final(s).extends(*old(s), pair_second(p2, tiles as int, i as int)),
        final(s).idle(),
        final(s).flow@.known == old(s).flow@.known,
{
    let ghost start = *s;
    s.emit(Step::Load(p2));
    if i + 2 < tiles {
        s.emit(
            Step::Push {
                read: true,
                at: S_LN + 48 * (i as u32 + 2),
                buf: arena(A_X0, TILE8),
            },
        );
        if i + 3 < tiles {
            s.emit(
                Step::Push {
                    read: true,
                    at: S_LN + 48 * (i as u32 + 3),
                    buf: arena(A_X1, TILE8),
                },
            );
        }
        s.emit(Step::Pump);
    }
    assert(s.steps@ =~= start.steps@ + (seq![Step::Load(p2)] + pair_fetch(
        tiles as int,
        i as int,
    )));
    s.emit(Step::Lut { table: arena(A_LUT, 256), buf: arena(A_OUT, TILE8) });
    s.emit(
        Step::Run {
            blob: p2,
            input: arena(A_OUT, TILE8),
            output: kvscratch(KV_P0, TILE8),
            pumped: true,
        },
    );
    if i + 1 < tiles {
        s.emit(Step::Lut { table: arena(A_LUT, 256), buf: kvscratch(KV_F1, TILE8) });
        s.emit(
            Step::Run {
                blob: p2,
                input: kvscratch(KV_F1, TILE8),
                output: kvscratch(KV_P1, TILE8),
                pumped: true,
            },
        );
    }
    s.emit(Step::Drain);
    assert(s.steps@ =~= start.steps@ + pair_second(p2, tiles as int, i as int));
}

fn mlp_pairs(s: &mut Script, f1: Blob, p2: Blob, preg: u32, tiles: usize)
    requires
        old(s).wf(),
        old(s).idle(),
        1 <= tiles <= 10,
        preg + 480 <= S_END,
        covers(old(s).flow@.known, S_LN as int, S_LN + 48 * tiles),
    ensures
        final(s).extends(
            *old(s),
            pairs_steps(f1, p2, preg as int, tiles as int, pair_count(tiles as int)) + pairs_end(
                preg as int,
                tiles as int,
            ),
        ),
        final(s).idle(),
        covers(final(s).flow@.known, preg as int, preg + 48 * tiles),
{
    let ghost start = *s;
    let mut i: usize = 0;
    let ghost mut n: int = 0;
    assert(s.steps@ =~= start.steps@ + pairs_steps(f1, p2, preg as int, tiles as int, 0));
    while i < tiles
        invariant
            i <= tiles + 1,
            i == 2 * n,
            1 <= tiles <= 10,
            preg + 480 <= S_END,
            s.extends(start, pairs_steps(f1, p2, preg as int, tiles as int, n)),
            s.idle(),
            covers(s.flow@.known, S_LN as int, S_LN + 48 * tiles),
            i > 0 ==> covers(s.flow@.known, preg as int, preg + 48 * (i - 2)),
        decreases tiles + 1 - i,
    {
        let ghost before = *s;
        first_layer(s, f1, preg, tiles, i);
        let ghost mid = *s;
        second_layer(s, p2, tiles, i);
        assert(s.steps@ =~= start.steps@ + pairs_steps(
            f1,
            p2,
            preg as int,
            tiles as int,
            n + 1,
        ));
        i = i + 2;
        proof {
            n = n + 1;
        }
    }
    assert(n == pair_count(tiles as int));
    let ghost mid = *s;
    if tiles % 2 == 0 {
        let at: u32 = preg + 48 * (tiles as u32 - 2);
        s.emit(Step::Write { at, src: kvscratch(KV_P0, TILE8) });
        s.emit(Step::Write { at: at + 48, src: kvscratch(KV_P1, TILE8) });
    } else {
        s.emit(
            Step::Write { at: preg + 48 * (tiles as u32 - 1), src: kvscratch(KV_P0, TILE8) },
        );
    }
    assert(s.steps@ =~= mid.steps@ + pairs_end(preg as int, tiles as int));
    assert(s.steps@ =~= start.steps@ + (pairs_steps(
        f1,
        p2,
        preg as int,
        tiles as int,
        pair_count(tiles as int),
    ) + pairs_end(preg as int, tiles as int)));
}

/// The partial sums of the first `n` quarters are complete.
pub open spec fn parts_known(known: Set<int>, n: int, tiles: int) -> bool {
    forall|j: int|
        0 <= j < n ==> covers(
            known,
            #[trigger] part_at(j),
            part_at(j) + 48 * tiles,
        )
}

/// Partial sums that were known still are when nothing is lost.
proof fn lemma_parts_stay(was: Set<int>, now: Set<int>, n: int, tiles: int)
    requires
        parts_known(was, n, tiles),
        forall|b: int| #![trigger now.contains(b)] was.contains(b) ==> now.contains(b),
    ensures
        parts_known(now, n, tiles),
{
    assert forall|j: int| 0 <= j < n implies covers(
        now,
        #[trigger] part_at(j),
        part_at(j) + 48 * tiles,
    ) by {
        assert(covers(was, part_at(j), part_at(j) + 48 * tiles));
    }
}

/// First block of the partial sums of quarter `j`.
pub open spec fn part_at(j: int) -> int {
    S_P + 480 * j
}

/// Quarter `j` of the MLP of block `l`, into its partial sums.
fn mlp_quarter(s: &mut Script, l: usize, j: usize, tiles: usize)
    requires
        old(s).wf(),
        old(s).idle(),
        1 <= tiles <= 10,
        j < 4,
        covers(old(s).flow@.known, S_LN as int, S_LN + 48 * tiles),
    ensures
        final(s).extends(*old(s), mlp_part(l as int, j as int, tiles as int)),
        final(s).idle(),
        covers(final(s).flow@.known, part_at(j as int), part_at(j as int) + 48 * tiles),
{
    let ghost start = *s;
    s.emit(Step::Asset { what: Asset::EncLut(l, j), dst: arena(A_LUT, 512) });
    s.emit(Step::Read { at: S_LN, dst: arena(A_X0, TILE8) });
    if tiles > 1 {
        s.emit(Step::Read { at: S_LN + 48, dst: arena(A_X1, TILE8) });
    }
    mlp_pairs(
        s,
        Blob::Enc(l, Kind::Fc1, j),
        Blob::Enc(l, Kind::Fc2p, j),
        S_P + 480 * (j as u32),
        tiles,
    );
    assert(s.steps@ =~= start.steps@ + mlp_part(l as int, j as int, tiles as int));
}

fn mlp(s: &mut Script, l: usize, tiles: usize)
    requires
        old(s).wf(),
        old(s).idle(),
        1 <= tiles <= 10,
        covers(old(s).flow@.known, S_LN as int, S_LN + 48 * tiles),
    ensures
        final(s).extends(*old(s), mlp_steps(l as int, 4, tiles as int)),
        final(s).idle(),
        parts_known(final(s).flow@.known, 4, tiles as int),
{
    let ghost start = *s;
    let mut j: usize = 0;
    assert(s.steps@ =~= start.steps@ + mlp_steps(l as int, 0, tiles as int));
    while j < 4
        invariant
            j <= 4,
            1 <= tiles <= 10,
            s.extends(start, mlp_steps(l as int, j as int, tiles as int)),
            s.idle(),
            covers(start.flow@.known, S_LN as int, S_LN + 48 * tiles),
            parts_known(s.flow@.known, j as int, tiles as int),
        decreases 4 - j,
    {
        let ghost was = s.flow@.known;
        mlp_quarter(s, l, j, tiles);
        proof {
            assert(s.steps@ =~= start.steps@ + mlp_steps(l as int, j + 1, tiles as int));
            lemma_parts_stay(was, s.flow@.known, j as int, tiles as int);
        }
        j = j + 1;
    }
}

// --- recombination -------------------------------------------------------------------

/// The reads of one chunk's first `n` partial sums.
pub open spec fn part_reads(ci: int, n: int) -> Seq<Step>
    decreases n,
{
    if n <= 0 {
        Seq::empty()
    } else {
        part_reads(ci, n - 1).push(
            Step::Read {
                at: (part_at(n - 1) + 16 * ci) as u32,
                dst: arena_buf(A_IN + 16384 + 8192 * (n - 1), 8192),
            },
        )
    }
}

pub open spec fn sum_chunk(ci: int, q: EncBlockQ) -> Seq<Step> {
    seq![Step::Read { at: (S_X + 32 * ci) as u32, dst: arena_buf(A_IN as int, 16384) }]
        + part_reads(ci, 4) + seq![
        Step::Sum4 {
            acc: arena_buf(A_IN as int, 16384),
            parts: arena_buf(A_IN + 16384, 32768),
            pq: q.fc2p_out,
            qa: q.res1,
            qd: q.res2,
        },
        Step::Write { at: (S_X + 32 * ci) as u32, src: arena_buf(A_IN as int, 16384) },
    ]
}

/// The first `n` chunks of the residual plus the four partial sums.
pub open spec fn sum_steps(n: int, q: EncBlockQ) -> Seq<Step>
    decreases n,
{
    if n <= 0 {
        Seq::empty()
    } else {
        sum_steps(n - 1, q) + sum_chunk(n - 1, q)
    }
}

/// Reads chunk `c` of the first `n` partial sums, one behind another.
fn read_parts(s: &mut Script, c: u32, n: usize, tiles: usize)
    requires
        old(s).wf(),
        old(s).idle(),
        tiles <= 10,
        c < 3 * tiles,
        n <= 4,
        parts_known(old(s).flow@.known, 4, tiles as int),
    ensures
        final(s).extends(*old(s), part_reads(c as int, n as int)),
        final(s).idle(),
{
    let ghost start = *s;
    let mut j: usize = 0;
    assert(s.steps@ =~= start.steps@ + part_reads(c as int, 0));
    while j < n
        invariant
            j <= n <= 4,
            tiles <= 10,
            c < 3 * tiles,
            s.extends(start, part_reads(c as int, j as int)),
            s.idle(),
            parts_known(start.flow@.known, 4, tiles as int),
        decreases n - j,
    {
        assert(covers(start.flow@.known, part_at(j as int), part_at(j as int) + 48 * tiles));
        s.emit(
            Step::Read {
                at: S_P + 480 * (j as u32) + 16 * c,
                dst: arena(A_IN + 16384 + 8192 * j, 8192),
            },
        );
        assert(s.steps@ =~= start.steps@ + part_reads(c as int, j + 1));
        j = j + 1;
    }
}

/// Adds the four partial sums of chunk `c` to the residual.
fn sum_one(s: &mut Script, c: u32, tiles: usize, q: &EncBlockQ)
    requires
        old(s).wf(),
        old(s).idle(),
        tiles <= 10,
        c < 3 * tiles,
        covers(old(s).flow@.known, S_X as int, S_X + 96 * tiles),
        parts_known(old(s).flow@.known, 4, tiles as int),
    ensures
        final(s).extends(*old(s), sum_chunk(c as int, *q)),
        final(s).idle(),
{
    let ghost start = *s;
    s.emit(Step::Read { at: S_X + 32 * c, dst: arena(A_IN, 16384) });
    read_parts(s, c, 4, tiles);
    s.emit(
        Step::Sum4 {
            acc: arena(A_IN, 16384),
            parts: arena(A_IN + 16384, 32768),
            pq: q.fc2p_out,
            qa: q.res1,
            qd: q.res2,
        },
    );
    s.emit(Step::Write { at: S_X + 32 * c, src: arena(A_IN, 16384) });
    assert(s.steps@ =~= start.steps@ + sum_chunk(c as int, *q));
}

fn recombine(s: &mut Script, tiles: usize, q: &EncBlockQ)
    requires
        old(s).wf(),
        old(s).idle(),
        tiles <= 10,
        covers(old(s).flow@.known, S_X as int, S_X + 96 * tiles),
        parts_known(old(s).flow@.known, 4, tiles as int),
    ensures
        final(s).extends(*old(s), sum_steps(3 * tiles, *q)),
        final(s).idle(),
{
    let ghost start = *s;
    let mut ci: usize = 0;
    assert(s.steps@ =~= start.steps@ + sum_steps(0, *q));
    while ci < 3 * tiles
        invariant
            ci <= 3 * tiles,
            tiles <= 10,
            s.extends(start, sum_steps(ci as int, *q)),
            s.idle(),
            covers(start.flow@.known, S_X as int, S_X + 96 * tiles),
            parts_known(start.flow@.known, 4, tiles as int),
        decreases 3 * tiles - ci,
    {
        proof {
            lemma_parts_stay(start.flow@.known, s.flow@.known, 4, tiles as int);
        }
        sum_one(s, ci as u32, tiles, q);
        assert(s.steps@ =~= start.steps@ + sum_steps(ci + 1, *q));
        ci = ci + 1;
    }
}

// --- blocks ----------------------------------------------------------------------------

/// Layer norm and projections of block `l`.
pub open spec fn project_steps(l: int, tiles: int, sq: Quant, q: EncBlockQ) -> Seq<Step> {
    let lu = l as usize;
    seq![Step::Crumb((0x520 + 0x10 * l) as u32)] + norm_steps(
        Asset::EncLn1(lu),
        tiles,
        S_LN as int,
        sq,
        q.ln1,
    ) + seq![Step::Crumb((0x521 + 0x10 * l) as u32)] + proj_steps(
        Blob::Enc(lu, Kind::Q, 0),
        S_QH as int,
        tiles,
    ) + proj_steps(Blob::Enc(lu, Kind::K, 0), S_KH as int, tiles) + proj_steps(
        Blob::Enc(lu, Kind::V, 0),
        S_VH as int,
        tiles,
    )
}

/// Attention, output projection and residual of block `l`.
pub open spec fn attend_steps(l: int, tiles: int, tk: int, sq: Quant, q: EncBlockQ) -> Seq<Step> {
    seq![Step::Crumb((0x524 + 0x10 * l) as u32)] + attention_steps(tiles, tk, q) + seq![
        Step::Crumb((0x525 + 0x10 * l) as u32),
    ] + out_steps(Blob::Enc(l as usize, Kind::Out, 0), tiles) + seq![
        Step::Crumb((0x526 + 0x10 * l) as u32),
    ] + add_steps(2 * tiles, S_O as int, sq, q.out_out, q.res1)
}

/// The attention half of block `l`.
pub open spec fn attention_half(l: int, tiles: int, tk: int, sq: Quant, q: EncBlockQ) -> Seq<Step> {
    project_steps(l, tiles, sq, q) + attend_steps(l, tiles, tk, sq, q)
}

/// The MLP half of block `l`.
pub open spec fn mlp_half(l: int, tiles: int, q: EncBlockQ) -> Seq<Step> {
    seq![Step::Crumb((0x527 + 0x10 * l) as u32)] + norm_steps(
        Asset::EncLn2(l as usize),
        tiles,
        S_LN as int,
        q.res1,
        q.ln2,
    ) + mlp_steps(l, 4, tiles) + seq![Step::Crumb((0x528 + 0x10 * l) as u32)] + sum_steps(
        3 * tiles,
        q,
    )
}

/// The quantisation of the residual stream before block `l`.
pub open spec fn residual_quant(plan: Plan, l: int) -> Quant {
    if l <= 0 {
        plan.enc_x
    } else {
        plan.enc[l - 1].res2
    }
}

/// The first `n` blocks.
pub open spec fn block_steps(plan: Plan, n: int, tiles: int, tk: int) -> Seq<Step>
    decreases n,
{
    if n <= 0 {
        Seq::empty()
    } else {
        block_steps(plan, n - 1, tiles, tk) + attention_half(
            n - 1,
            tiles,
            tk,
            residual_quant(plan, n - 1),
            plan.enc[n - 1],
        ) + mlp_half(n - 1, tiles, plan.enc[n - 1])
    }
}

fn project_block(s: &mut Script, l: usize, tiles: usize, sq: Quant, q: &EncBlockQ)
    requires
        old(s).wf(),
        old(s).idle(),
        l < 4,
        1 <= tiles <= 10,
        covers(old(s).flow@.known, S_X as int, S_X + 96 * tiles),
    ensures
        final(s).extends(*old(s), project_steps(l as int, tiles as int, sq, *q)),
        final(s).idle(),
        heads_known(final(s).flow@.known, S_QH as int, tiles as int),
        heads_known(final(s).flow@.known, S_KH as int, tiles as int),
        heads_known(final(s).flow@.known, S_VH as int, tiles as int),
{
    let ghost start = *s;
    let base: u32 = 0x520 + 0x10 * (l as u32);
    s.emit(Step::Crumb(base));
    ln_region(s, Asset::EncLn1(l), tiles, S_LN, sq, q.ln1);
    s.emit(Step::Crumb(base + 1));
    project(s, Blob::Enc(l, Kind::Q, 0), S_QH, tiles);
    let ghost s4 = *s;
    project(s, Blob::Enc(l, Kind::K, 0), S_KH, tiles);
    let ghost s5 = *s;
    project(s, Blob::Enc(l, Kind::V, 0), S_VH, tiles);
    proof {
        lemma_heads_stay(s4, s5, S_QH as int, tiles as int);
        lemma_heads_stay(s5, *s, S_QH as int, tiles as int);
        lemma_heads_stay(s5, *s, S_KH as int, tiles as int);
    }
    assert(s.steps@ =~= start.steps@ + project_steps(l as int, tiles as int, sq, *q));
}

fn attend_block(s: &mut Script, l: usize, tiles: usize, tk: usize, sq: Quant, q: &EncBlockQ)
    requires
        old(s).wf(),
        old(s).idle(),
        l < 4,
        1 <= tiles <= 10,
        covers(old(s).flow@.known, S_X as int, S_X + 96 * tiles),
        heads_known(old(s).flow@.known, S_QH as int, tiles as int),
        heads_known(old(s).flow@.known, S_KH as int, tiles as int),
        heads_known(old(s).flow@.known, S_VH as int, tiles as int),
    ensures
        final(s).extends(*old(s), attend_steps(l as int, tiles as int, tk as int, sq, *q)),
        final(s).idle(),
{
    let ghost start = *s;
    let base: u32 = 0x520 + 0x10 * (l as u32);
    s.emit(Step::Crumb(base + 4));
    attention(s, tiles, tk, q);
    s.emit(Step::Crumb(base + 5));
    out_projection(s, Blob::Enc(l, Kind::Out, 0), tiles);
    s.emit(Step::Crumb(base + 6));
    res_add(s, S_O, tiles, sq, q.out_out, q.res1);
    assert(s.steps@ =~= start.steps@ + attend_steps(
        l as int,
        tiles as int,
        tk as int,
        sq,
        *q,
    ));
}

fn attention_block(s: &mut Script, l: usize, tiles: usize, tk: usize, sq: Quant, q: &EncBlockQ)
    requires
        old(s).wf(),
        old(s).idle(),
        l < 4,
        1 <= tiles <= 10,
        covers(old(s).flow@.known, S_X as int, S_X + 96 * tiles),
    ensures
        final(s).extends(*old(s), attention_half(l as int, tiles as int, tk as int, sq, *q)),
        final(s).idle(),
{
    let ghost start = *s;
    project_block(s, l, tiles, sq, q);
    attend_block(s, l, tiles, tk, sq, q);
    assert(s.steps@ =~= start.steps@ + attention_half(
        l as int,
        tiles as int,
        tk as int,
        sq,
        *q,
    ));
}

fn mlp_block(s: &mut Script, l: usize, tiles: usize, q: &EncBlockQ)
    requires
        old(s).wf(),
        old(s).idle(),
        l < 4,
        1 <= tiles <= 10,
        covers(old(s).flow@.known, S_X as int, S_X + 96 * tiles),
    ensures
        final(s).extends(*old(s), mlp_half(l as int, tiles as int, *q)),
        final(s).idle(),
{
    let ghost start = *s;
    let base: u32 = 0x520 + 0x10 * (l as u32);
    s.emit(Step::Crumb(base + 7));
    let ghost s1 = *s;
    ln_region(s, Asset::EncLn2(l), tiles, S_LN, q.res1, q.ln2);
    let ghost s2 = *s;
    mlp(s, l, tiles);
    let ghost s3 = *s;
    s.emit(Step::Crumb(base + 8));
    let ghost s4 = *s;
    recombine(s, tiles, q);
    assert(s.steps@ =~= start.steps@ + mlp_half(l as int, tiles as int, *q));
}

/// The two convolutions and the positions: mel tiles in, residual out.
pub open spec fn front_steps(plan: Plan, tiles: int) -> Seq<Step> {
    seq![
        Step::Crumb(0x511),
        Step::Asset { what: Asset::Gelu1, dst: arena_buf(A_LUT as int, 512) },
    ] + conv1_steps(2 * tiles, 2 * tiles, plan.conv1_in) + seq![Step::Crumb(0x512)] + conv2_steps(
        3,
        tiles,
        plan.conv2_in,
    ) + seq![Step::Crumb(0x513)] + pos_steps(3 * tiles, plan.gelu2, plan.enc_x)
}

/// The whole encoder: mel tiles in, encoder output tiles out.
pub open spec fn encoder_steps(plan: Plan, tiles: int, tk: int) -> Seq<Step> {
    front_steps(plan, tiles) + block_steps(plan, 4, tiles, tk) + seq![Step::Crumb(0x570)]
        + norm_steps(Asset::LnPost, tiles, S_EO as int, residual_quant(plan, 4), plan.enc_out)
}

/// The mel tiles of an utterance.
pub open spec fn mel_known(tiles: int) -> Set<int> {
    Set::new(|b: int| S_MEL <= b < S_MEL + 20 * tiles)
}

/// The two convolutions and the positions.
fn front(s: &mut Script, plan: &Plan, tiles: usize)
    requires
        old(s).wf(),
        old(s).flow@ == flow_from(mel_known(tiles as int)),
        1 <= tiles <= 10,
    ensures
        final(s).extends(*old(s), front_steps(*plan, tiles as int)),
        final(s).idle(),
        covers(final(s).flow@.known, S_X as int, S_X + 96 * tiles),
{
    let ghost start = *s;
    s.emit(Step::Crumb(0x511));
    s.emit(Step::Asset { what: Asset::Gelu1, dst: arena(A_LUT, 512) });
    conv1(s, 2 * tiles, plan.conv1_in);
    s.emit(Step::Crumb(0x512));
    conv2(s, tiles, plan.conv2_in);
    s.emit(Step::Crumb(0x513));
    add_positions(s, tiles, plan.gelu2, plan.enc_x);
    assert(s.steps@ =~= start.steps@ + front_steps(*plan, tiles as int));
}

/// The encoder for `tiles` tiles with `ctx` frames, of which the attention
/// looks at the first `ctx`.
///
/// The script keeps the transfer discipline from a scratch area that holds
/// the mel tiles and nothing else, and leaves every output tile.
pub fn encoder(plan: &Plan, tiles: usize, ctx: usize) -> (r: Vec<Step>)
    requires
        1 <= tiles <= 10,
    ensures
        r@ == encoder_steps(*plan, tiles as int, ctx as int),
        runs_clean(r@, mel_known(tiles as int), S_EO as int, S_EO + 48 * tiles),
        // each step finds what it is meant for, up to the last layer norm
        encodes(r@, (Task { plan: *plan, tiles: tiles as int, tk: ctx as int })),
{
    let mut script = Script::new(Ghost(mel_known(tiles as int)));
    let ghost s0 = script;
    front(&mut script, plan, tiles);
    let ghost head = front_steps(*plan, tiles as int);
    assert(script.steps@ =~= head + block_steps(*plan, 0, tiles as int, ctx as int));
    let mut sq = plan.enc_x;
    let mut l: usize = 0;
    while l < 4
        invariant
            l <= 4,
            1 <= tiles <= 10,
            script.wf(),
            script.idle(),
            script.start == s0.start,
            script.steps@ == head + block_steps(*plan, l as int, tiles as int, ctx as int),
            covers(script.flow@.known, S_X as int, S_X + 96 * tiles),
            sq == residual_quant(*plan, l as int),
        decreases 4 - l,
    {
        let ghost before = script;
        let q = plan.enc[l];
        attention_block(&mut script, l, tiles, ctx, sq, &q);
        let ghost mid = script;
        mlp_block(&mut script, l, tiles, &q);
        assert(script.steps@ =~= head + block_steps(
            *plan,
            l + 1,
            tiles as int,
            ctx as int,
        ));
        sq = q.res2;
        l = l + 1;
    }
    let ghost s6 = script;
    script.emit(Step::Crumb(0x570));
    let ghost s7 = script;
    ln_region(&mut script, Asset::LnPost, tiles, S_EO, sq, plan.enc_out);
    assert(script.steps@ =~= encoder_steps(*plan, tiles as int, ctx as int));
    proof {
        law_an_utterance_goes_through_the_encoder(*plan, tiles as int, ctx as int);
    }
    script.steps
}

} // verus!
