//! The encoder's script computes the encoder.

use crate::encoder::{
    add_chunk, add_steps, arena_tile, attend_step, attend_steps, attend_tile, attend_tiles,
    attention_steps, block_steps, conv1_steps, conv1_tile, conv2_steps, conv2_tile, conv2_tiles,
    ctx_at, ctx_buf, ctx_mem, ctx_reads, encoder_steps, fetch_head, front_steps, halo_steps,
    halo_tile, halo_tiles, head_at, head_begin, head_part, head_steps, head_writes, heads_steps,
    kv_tile, mlp_half, mlp_part, mlp_steps, norm_steps, norm_tile, norm_tiles, out_steps, out_tile,
    pair_count, pair_fetch, pair_first, pair_second, pairs_end, pairs_steps, part_at, part_reads,
    pos_chunk, pos_steps, proj_in, proj_out, proj_steps, proj_tile, proj_tiles, project_steps,
    residual_quant, sum_chunk, sum_steps, tile_of,
};
use crate::image::Kind;
use crate::kernels::Quant;
use crate::layout::{
    arena_buf, kv_buf, slot_buf, Buf, Mem, A_AUX, A_GB, A_IN, A_LUT, A_OUT, A_PK, A_PV, A_X0, A_X1,
    KV_F1, KV_P0, KV_P1, KV_PQ, SL_EXPTAB, SL_KT, SL_STAGE, SL_V16, S_A, S_CH, S_EO, S_KH, S_LN,
    S_MEL, S_O, S_P, S_QH, S_VH, S_X, TILE16, TILE8,
};
use crate::plan::Plan;
use crate::script::{Asset, Blob, Step};
use crate::utterance::{
    computed, encodes, end_tile, fetched, first_tile, has, has_head, head_place, hi, leaves,
    lemma_after, lemma_none, lemma_then, lo, norm_scale, norm_table, normable, on_disk, only, put,
    residual_scale, sound, then_add, then_asset, then_conv, then_idle, then_image, then_load,
    then_lut, then_norm, then_positions, then_put, then_read, then_run, then_sum, then_write, whole,
    with, Datum, Piece, Store, Task,
};
use vstd::prelude::*;

verus! {

// --- windows ------------------------------------------------------------------------------

spec fn rows_of(mel: bool) -> int {
    if mel {
        80
    } else {
        384
    }
}

spec fn width_of(mel: bool) -> int {
    if mel {
        66
    } else {
        130
    }
}

/// The tiles that a window is over, and where they are.
spec fn source(mel: bool) -> Datum {
    if mel {
        Datum::Mel
    } else {
        Datum::Gelu(Blob::Conv1)
    }
}

spec fn source_at(mel: bool) -> int {
    if mel {
        S_MEL as int
    } else {
        S_A as int
    }
}

spec fn source_len(mel: bool, tiles: int) -> int {
    if mel {
        20 * tiles
    } else {
        96 * tiles
    }
}

spec fn zero_of(mel: bool, t: Task) -> Quant {
    if mel {
        t.plan.conv1_in
    } else {
        t.plan.conv2_in
    }
}

spec fn window(mel: bool) -> Buf {
    arena_buf(
        A_IN as int,
        if mel {
            5280
        } else {
            49920
        },
    )
}

/// What stays while a window is put together: the tables behind it.
spec fn tables_stay(m: Store, e: Store) -> bool {
    forall|u: int|
        146 <= u < 200 ==> #[trigger] (e.ram)(Mem::Ram, u) == (m.ram)(Mem::Ram, u)
}

/// The window when the tiles before `t1` have been taken.
spec fn window_at(mel: bool, col0: int, t1: int, t: Task) -> Datum {
    if t1 <= first_tile(col0) {
        Datum::Blank { zero: zero_of(mel, t) }
    } else {
        Datum::Window {
            mel,
            col0,
            t_in: width_of(mel),
            next: if t1 < 2 * t.tiles {
                t1
            } else {
                2 * t.tiles
            },
        }
    }
}

proof fn lemma_halo_tile(mel: bool, col0: int, ti: int, m: Store, t: Task) -> (e: Store)
    requires
        1 <= t.tiles <= 10,
        -1 <= col0 < 128 * t.tiles,
        tile_of(col0) <= ti < 40,
        on_disk(m, source_at(mel), source(mel), source_len(mel, t.tiles)),
        has(m, window(mel), window_at(mel, col0, ti, t), 0),
    ensures
        computed(
            halo_tile(source_at(mel), rows_of(mel), 2 * t.tiles, col0, width_of(mel), ti),
            m,
            t,
        ) == Some(e),
        has(e, window(mel), window_at(mel, col0, ti + 1, t), 0),
        e.disk == m.disk,
        e.loaded == m.loaded,
        tables_stay(m, e),
{
    let s = halo_tile(source_at(mel), rows_of(mel), 2 * t.tiles, col0, width_of(mel), ti);
    lemma_none(m, t);
    if 0 <= ti < 2 * t.tiles {
        let s0 = Seq::<Step>::empty();
        let tile = arena_buf(A_OUT as int, if mel { 5120 } else { 24576 });
        let at = source_at(mel) + ti * (if mel { 10int } else { 48 });
        assert(s[0] == (Step::Read { at: at as u32, dst: tile }));
        let m1 = then_read(s0, s[0], at as u32, tile, m, m, t);
        let next = window_at(mel, col0, ti + 1, t);
        assert((m1.ram)(Mem::Ram, 0) == (m.ram)(Mem::Ram, 0));
        assert(has(m1, tile, source(mel), (if mel { 10int } else { 48 }) * ti));
        assert(has(m1, window(mel), window_at(mel, col0, ti, t), 0));
        assert(sound(s[1], m1, t) && leaves(s[1], m1, t) == with(m1, window(mel), next, 0)) by {
            reveal(sound);
            reveal(leaves);
        }
        let m2 = then_put(s0.push(s[0]), s[1], window(mel), next, 0, m, m1, t);
        assert(s =~= s0.push(s[0]).push(s[1]));
        m2
    } else {
        assert(s =~= Seq::<Step>::empty());
        m
    }
}

proof fn lemma_halo_tiles(mel: bool, col0: int, t1: int, m: Store, t: Task) -> (e: Store)
    requires
        1 <= t.tiles <= 10,
        -1 <= col0 < 128 * t.tiles,
        tile_of(col0) <= t1 <= 40,
        on_disk(m, source_at(mel), source(mel), source_len(mel, t.tiles)),
        has(m, window(mel), Datum::Blank { zero: zero_of(mel, t) }, 0),
    ensures
        computed(
            halo_tiles(
                source_at(mel),
                rows_of(mel),
                2 * t.tiles,
                col0,
                width_of(mel),
                tile_of(col0),
                t1,
            ),
            m,
            t,
        ) == Some(e),
        has(e, window(mel), window_at(mel, col0, t1, t), 0),
        e.disk == m.disk,
        e.loaded == m.loaded,
        tables_stay(m, e),
    decreases t1 - tile_of(col0),
{
    if t1 == tile_of(col0) {
        lemma_none(m, t);
        m
    } else {
        let e = lemma_halo_tiles(mel, col0, t1 - 1, m, t);
        let f = lemma_halo_tile(mel, col0, t1 - 1, e, t);
        lemma_after(
            halo_tiles(
                source_at(mel),
                rows_of(mel),
                2 * t.tiles,
                col0,
                width_of(mel),
                tile_of(col0),
                t1 - 1,
            ),
            halo_tile(source_at(mel), rows_of(mel), 2 * t.tiles, col0, width_of(mel), t1 - 1),
            m,
            e,
            t,
        );
        f
    }
}

/// The whole window of a tile.
spec fn full_window(mel: bool, col0: int, t: Task) -> Datum {
    Datum::Window {
        mel,
        col0,
        t_in: width_of(mel),
        next: end_tile(col0, width_of(mel), 2 * t.tiles),
    }
}

proof fn lemma_halo(mel: bool, col0: int, m: Store, t: Task) -> (e: Store)
    requires
        1 <= t.tiles <= 10,
        -1 <= col0 < 128 * t.tiles - 1,
        on_disk(m, source_at(mel), source(mel), source_len(mel, t.tiles)),
    ensures
        computed(
            halo_steps(
                source_at(mel),
                rows_of(mel),
                2 * t.tiles,
                col0,
                width_of(mel),
                zero_of(mel, t),
            ),
            m,
            t,
        ) == Some(e),
        has(e, window(mel), full_window(mel, col0, t), 0),
        e.disk == m.disk,
        e.loaded == m.loaded,
        tables_stay(m, e),
{
    let fill = Step::Fill { dst: window(mel), zero: zero_of(mel, t) };
    let blank = Datum::Blank { zero: zero_of(mel, t) };
    lemma_none(m, t);
    assert(sound(fill, m, t) && leaves(fill, m, t) == with(m, window(mel), blank, 0)) by {
        reveal(sound);
        reveal(leaves);
    }
    let m1 = then_put(Seq::<Step>::empty(), fill, window(mel), blank, 0, m, m, t);
    let t1 = tile_of(col0 + width_of(mel) - 1) + 1;
    let e = lemma_halo_tiles(mel, col0, t1, m1, t);
    let rest = halo_tiles(
        source_at(mel),
        rows_of(mel),
        2 * t.tiles,
        col0,
        width_of(mel),
        tile_of(col0),
        t1,
    );
    assert(arena_buf(A_IN as int, rows_of(mel) * width_of(mel)) == window(mel));
    lemma_after(seq![fill], rest, m, m1, t);
    assert(Seq::<Step>::empty().push(fill) =~= seq![fill]);
    assert(window_at(mel, col0, t1, t) == full_window(mel, col0, t));
    e
}

// --- convolutions -------------------------------------------------------------------------

spec fn has_table(m: Store, a: Asset) -> bool {
    has(m, arena_buf(A_LUT as int, 256), Datum::Table(a), 0)
}

proof fn lemma_conv1_tile(i: int, m: Store, t: Task) -> (e: Store)
    requires
        1 <= t.tiles <= 10,
        0 <= i < 2 * t.tiles,
        on_disk(m, S_MEL as int, Datum::Mel, 20 * t.tiles),
        on_disk(m, S_A as int, Datum::Gelu(Blob::Conv1), 48 * i),
        has_table(m, Asset::Gelu1),
    ensures
        computed(conv1_tile(i, 2 * t.tiles, t.plan.conv1_in), m, t) == Some(e),
        on_disk(e, S_A as int, Datum::Gelu(Blob::Conv1), 48 * (i + 1)),
        only(m, e, S_A as int, S_A + 960),
        has_table(e, Asset::Gelu1),
{
    let col0 = 64 * i - 1;
    let s0 = halo_steps(S_MEL as int, 80, 2 * t.tiles, col0, 66, t.plan.conv1_in);
    let m0 = lemma_halo(true, col0, m, t);
    let out = arena_buf(A_OUT as int, TILE8 as int);
    let blob = Blob::Conv1;
    let m1 = then_load(s0, blob, m, m0, t);
    let s1 = s0.push(Step::Load(blob));
    let run = Step::Run { blob, input: window(true), output: out, pumped: false };
    assert(has(m1, window(true), full_window(true, col0, t), 0));
    let m2 = then_conv(s1, blob, window(true), out, i, m, m1, t);
    let s2 = s1.push(run);
    let lut = Step::Lut { table: arena_buf(A_LUT as int, 256), buf: out };
    assert(has_table(m2, Asset::Gelu1));
    let m3 = then_lut(s2, arena_buf(A_LUT as int, 256), out, blob, 48 * i, m, m2, t);
    let s3 = s2.push(lut);
    let at = (S_A + 48 * i) as u32;
    let write = Step::Write { at, src: out };
    let m4 = then_write(s3, write, at, out, m, m3, t);
    assert(conv1_tile(i, 2 * t.tiles, t.plan.conv1_in) =~= s3.push(write));
    m4
}

proof fn lemma_conv1(n: int, m: Store, t: Task) -> (e: Store)
    requires
        1 <= t.tiles <= 10,
        0 <= n <= 2 * t.tiles,
        on_disk(m, S_MEL as int, Datum::Mel, 20 * t.tiles),
        has_table(m, Asset::Gelu1),
    ensures
        computed(conv1_steps(n, 2 * t.tiles, t.plan.conv1_in), m, t) == Some(e),
        on_disk(e, S_A as int, Datum::Gelu(Blob::Conv1), 48 * n),
        only(m, e, S_A as int, S_A + 960),
        has_table(e, Asset::Gelu1),
    decreases n,
{
    if n == 0 {
        lemma_none(m, t);
        m
    } else {
        let e = lemma_conv1(n - 1, m, t);
        assert(on_disk(e, S_MEL as int, Datum::Mel, 20 * t.tiles));
        let f = lemma_conv1_tile(n - 1, e, t);
        lemma_after(
            conv1_steps(n - 1, 2 * t.tiles, t.plan.conv1_in),
            conv1_tile(n - 1, 2 * t.tiles, t.plan.conv1_in),
            m,
            e,
            t,
        );
        f
    }
}

/// What block `o` of the second convolution's output is.
spec fn conv2_piece(o: int) -> Piece {
    Piece { what: Datum::Gelu(Blob::Conv2((o % 48 / 16) as usize)), at: o }
}

/// All tiles of the parts before `part`, and the first `n` tiles of that one.
spec fn conv2_done(m: Store, part: int, n: int, tiles: int) -> bool {
    forall|b: int|
        #![trigger (m.disk)(b)]
        S_LN <= b < S_LN + 48 * tiles && ((b - S_LN) % 48 / 16 < part || (b - S_LN) % 48 / 16
            == part && (b - S_LN) / 48 < n) ==> (m.disk)(b) == conv2_piece(b - S_LN)
}

proof fn lemma_conv2_tile(part: int, i: int, m: Store, t: Task) -> (e: Store)
    requires
        1 <= t.tiles <= 10,
        0 <= part < 3,
        0 <= i < t.tiles,
        on_disk(m, S_A as int, Datum::Gelu(Blob::Conv1), 96 * t.tiles),
        conv2_done(m, part, i, t.tiles),
        has_table(m, Asset::Gelu2(part as usize)),
    ensures
        computed(conv2_tile(part, i, t.tiles, t.plan.conv2_in), m, t) == Some(e),
        conv2_done(e, part, i + 1, t.tiles),
        only(m, e, S_LN as int, S_LN + 480),
        has_table(e, Asset::Gelu2(part as usize)),
{
    let col0 = 128 * i - 1;
    let s0 = halo_steps(S_A as int, 384, 2 * t.tiles, col0, 130, t.plan.conv2_in);
    let m0 = lemma_halo(false, col0, m, t);
    let out = arena_buf(A_OUT as int, 8192);
    let blob = Blob::Conv2(part as usize);
    let place = 48 * i + 16 * part;
    let m1 = then_load(s0, blob, m, m0, t);
    let s1 = s0.push(Step::Load(blob));
    let run = Step::Run { blob, input: window(false), output: out, pumped: false };
    assert(has(m1, window(false), full_window(false, col0, t), 0));
    let m2 = then_conv(s1, blob, window(false), out, i, m, m1, t);
    let s2 = s1.push(run);
    let lut = Step::Lut { table: arena_buf(A_LUT as int, 256), buf: out };
    assert(has_table(m2, Asset::Gelu2(part as usize)));
    let m3 = then_lut(s2, arena_buf(A_LUT as int, 256), out, blob, place, m, m2, t);
    let s3 = s2.push(lut);
    let at = (S_LN + 48 * i + 16 * part) as u32;
    let write = Step::Write { at, src: out };
    let m4 = then_write(s3, write, at, out, m, m3, t);
    assert(conv2_tile(part, i, t.tiles, t.plan.conv2_in) =~= s3.push(write));
    assert forall|b: int|
        #![trigger (m4.disk)(b)]
        S_LN <= b < S_LN + 48 * t.tiles && ((b - S_LN) % 48 / 16 < part || (b - S_LN) % 48 / 16
            == part && (b - S_LN) / 48 < i + 1) implies (m4.disk)(b) == conv2_piece(b - S_LN) by {
        let o = b - S_LN;
        assert((m.disk)(b) == (m3.disk)(b));
        if at <= b < at + 16 {
            assert(o % 48 / 16 == part);
        } else if o % 48 / 16 == part && o / 48 == i {
            assert(false);
        }
    }
    m4
}

proof fn lemma_conv2_tiles(part: int, n: int, m: Store, t: Task) -> (e: Store)
    requires
        1 <= t.tiles <= 10,
        0 <= part < 3,
        0 <= n <= t.tiles,
        on_disk(m, S_A as int, Datum::Gelu(Blob::Conv1), 96 * t.tiles),
        conv2_done(m, part, 0, t.tiles),
        has_table(m, Asset::Gelu2(part as usize)),
    ensures
        computed(conv2_tiles(part, n, t.tiles, t.plan.conv2_in), m, t) == Some(e),
        conv2_done(e, part, n, t.tiles),
        only(m, e, S_LN as int, S_LN + 480),
        has_table(e, Asset::Gelu2(part as usize)),
    decreases n,
{
    if n == 0 {
        lemma_none(m, t);
        m
    } else {
        let e = lemma_conv2_tiles(part, n - 1, m, t);
        assert(on_disk(e, S_A as int, Datum::Gelu(Blob::Conv1), 96 * t.tiles));
        let f = lemma_conv2_tile(part, n - 1, e, t);
        lemma_after(
            conv2_tiles(part, n - 1, t.tiles, t.plan.conv2_in),
            conv2_tile(part, n - 1, t.tiles, t.plan.conv2_in),
            m,
            e,
            t,
        );
        f
    }
}

proof fn lemma_conv2(n: int, m: Store, t: Task) -> (e: Store)
    requires
        1 <= t.tiles <= 10,
        0 <= n <= 3,
        on_disk(m, S_A as int, Datum::Gelu(Blob::Conv1), 96 * t.tiles),
    ensures
        computed(conv2_steps(n, t.tiles, t.plan.conv2_in), m, t) == Some(e),
        conv2_done(e, n, 0, t.tiles),
        only(m, e, S_LN as int, S_LN + 480),
    decreases n,
{
    if n == 0 {
        lemma_none(m, t);
        m
    } else {
        let part = n - 1;
        let e = lemma_conv2(part, m, t);
        let a = conv2_steps(part, t.tiles, t.plan.conv2_in);
        let asset = Step::Asset {
            what: Asset::Gelu2(part as usize),
            dst: arena_buf(A_LUT as int, 512),
        };
        let m1 = then_asset(
            a,
            Asset::Gelu2(part as usize),
            arena_buf(A_LUT as int, 512),
            m,
            e,
            t,
        );
        assert(on_disk(m1, S_A as int, Datum::Gelu(Blob::Conv1), 96 * t.tiles)) by {
            assert(m1.disk == e.disk);
        }
        let f = lemma_conv2_tiles(part, t.tiles, m1, t);
        let b = conv2_tiles(part, t.tiles, t.tiles, t.plan.conv2_in);
        lemma_after(a.push(asset), b, m, m1, t);
        assert(conv2_steps(n, t.tiles, t.plan.conv2_in) =~= a.push(asset) + b);
        assert forall|x: int|
            #![trigger (f.disk)(x)]
            S_LN <= x < S_LN + 48 * t.tiles && ((x - S_LN) % 48 / 16 < n || (x - S_LN) % 48 / 16
                == n && (x - S_LN) / 48 < 0) implies (f.disk)(x) == conv2_piece(x - S_LN) by {
            assert((x - S_LN) / 48 < t.tiles);
        }
        f
    }
}

// --- the residual stream ------------------------------------------------------------------

proof fn lemma_pos_chunk(ci: int, m: Store, t: Task) -> (e: Store)
    requires
        1 <= t.tiles <= 10,
        0 <= ci < 3 * t.tiles,
        conv2_done(m, 3, 0, t.tiles),
        on_disk(m, S_X as int, Datum::Residual { l: 0, done: 0 }, 32 * ci),
    ensures
        computed(pos_chunk(ci, t.plan.gelu2, t.plan.enc_x), m, t) == Some(e),
        on_disk(e, S_X as int, Datum::Residual { l: 0, done: 0 }, 32 * (ci + 1)),
        only(m, e, S_X as int, S_X + 960),
{
    let s = pos_chunk(ci, t.plan.gelu2, t.plan.enc_x);
    let a = arena_buf(A_AUX as int, 8192);
    let b = arena_buf(A_IN as int, 32768);
    let dst = arena_buf(A_IN + 32768, 16384);
    let s0 = Seq::<Step>::empty();
    lemma_none(m, t);
    let m1 = then_read(s0, s[0], (S_LN + 16 * ci) as u32, a, m, m, t);
    let s1 = s0.push(s[0]);
    let m2 = then_image(s1, Asset::PosEnc, (64 * ci) as u32, b, m, m1, t);
    let s2 = s1.push(s[1]);
    let part = Datum::Gelu(Blob::Conv2((ci % 3) as usize));
    assert forall|u: int| 146 <= u < 162 implies #[trigger] (m2.ram)(Mem::Ram, u) == (Piece {
        what: part,
        at: 16 * ci + u - 146,
    }) by {
        let o = 16 * ci + u - 146;
        assert((m1.ram)(Mem::Ram, u) == (m.disk)(S_LN + o));
        assert(o % 48 / 16 == ci % 3);
    }
    assert((16 * ci) % 48 / 16 == ci % 3);
    let m3 = then_positions(s2, a, b, dst, 16 * ci, m, m2, t);
    let s3 = s2.push(s[2]);
    let m4 = then_write(s3, s[3], (S_X + 32 * ci) as u32, dst, m, m3, t);
    assert(s =~= s3.push(s[3]));
    m4
}

proof fn lemma_pos(n: int, m: Store, t: Task) -> (e: Store)
    requires
        1 <= t.tiles <= 10,
        0 <= n <= 3 * t.tiles,
        conv2_done(m, 3, 0, t.tiles),
    ensures
        computed(pos_steps(n, t.plan.gelu2, t.plan.enc_x), m, t) == Some(e),
        on_disk(e, S_X as int, Datum::Residual { l: 0, done: 0 }, 32 * n),
        only(m, e, S_X as int, S_X + 960),
    decreases n,
{
    if n == 0 {
        lemma_none(m, t);
        m
    } else {
        let e = lemma_pos(n - 1, m, t);
        assert(conv2_done(e, 3, 0, t.tiles));
        let f = lemma_pos_chunk(n - 1, e, t);
        lemma_after(
            pos_steps(n - 1, t.plan.gelu2, t.plan.enc_x),
            pos_chunk(n - 1, t.plan.gelu2, t.plan.enc_x),
            m,
            e,
            t,
        );
        f
    }
}

spec fn has_norm(m: Store, l: int, done: int) -> bool {
    has(m, arena_buf(A_GB as int, 3072), Datum::Table(norm_table(l, done)), 0)
}

proof fn lemma_norm_tile(i: int, to: int, l: int, done: int, m: Store, t: Task) -> (e: Store)
    requires
        1 <= t.tiles <= 10,
        0 <= i < t.tiles,
        S_X + 960 <= to <= 13000,
        normable(l, done),
        on_disk(m, S_X as int, Datum::Residual { l, done }, 96 * t.tiles),
        on_disk(m, to, Datum::Normed { l, done }, 48 * i),
        has_norm(m, l, done),
    ensures
        computed(
            norm_tile(i, to, residual_scale(t.plan, l, done), norm_scale(t.plan, l, done)),
            m,
            t,
        ) == Some(e),
        on_disk(e, to, Datum::Normed { l, done }, 48 * (i + 1)),
        only(m, e, to, to + 480),
        has_norm(e, l, done),
{
    let s = norm_tile(i, to, residual_scale(t.plan, l, done), norm_scale(t.plan, l, done));
    let src = arena_buf(A_IN as int, TILE16 as int);
    let dst = arena_buf(A_OUT as int, TILE8 as int);
    let s0 = Seq::<Step>::empty();
    lemma_none(m, t);
    let m1 = then_read(s0, s[0], (S_X + 96 * i) as u32, src, m, m, t);
    let s1 = s0.push(s[0]);
    assert(has_norm(m1, l, done));
    assert(has(m1, src, Datum::Residual { l, done }, 96 * i));
    let gb = arena_buf(A_GB as int, 3072);
    let m2 = then_norm(s1, src, gb, dst, l, done, 96 * i, m, m1, t);
    let s2 = s1.push(s[1]);
    let m3 = then_write(s2, s[2], (to + 48 * i) as u32, dst, m, m2, t);
    assert(s =~= s2.push(s[2]));
    m3
}

proof fn lemma_norm_tiles(n: int, to: int, l: int, done: int, m: Store, t: Task) -> (e: Store)
    requires
        1 <= t.tiles <= 10,
        0 <= n <= t.tiles,
        S_X + 960 <= to <= 13000,
        normable(l, done),
        on_disk(m, S_X as int, Datum::Residual { l, done }, 96 * t.tiles),
        has_norm(m, l, done),
    ensures
        computed(
            norm_tiles(n, to, residual_scale(t.plan, l, done), norm_scale(t.plan, l, done)),
            m,
            t,
        ) == Some(e),
        on_disk(e, to, Datum::Normed { l, done }, 48 * n),
        only(m, e, to, to + 480),
        has_norm(e, l, done),
    decreases n,
{
    if n == 0 {
        lemma_none(m, t);
        m
    } else {
        let e = lemma_norm_tiles(n - 1, to, l, done, m, t);
        assert(on_disk(e, S_X as int, Datum::Residual { l, done }, 96 * t.tiles));
        let f = lemma_norm_tile(n - 1, to, l, done, e, t);
        let a = residual_scale(t.plan, l, done);
        let b = norm_scale(t.plan, l, done);
        lemma_after(norm_tiles(n - 1, to, a, b), norm_tile(n - 1, to, a, b), m, e, t);
        f
    }
}

proof fn lemma_norms(to: int, l: int, done: int, m: Store, t: Task) -> (e: Store)
    requires
        1 <= t.tiles <= 10,
        S_X + 960 <= to <= 13000,
        normable(l, done),
        on_disk(m, S_X as int, Datum::Residual { l, done }, 96 * t.tiles),
    ensures
        computed(
            norm_steps(
                norm_table(l, done),
                t.tiles,
                to,
                residual_scale(t.plan, l, done),
                norm_scale(t.plan, l, done),
            ),
            m,
            t,
        ) == Some(e),
        on_disk(e, to, Datum::Normed { l, done }, 48 * t.tiles),
        only(m, e, to, to + 480),
{
    let what = norm_table(l, done);
    let dst = arena_buf(A_GB as int, 3072);
    let s0 = Seq::<Step>::empty();
    lemma_none(m, t);
    let m1 = then_asset(s0, what, dst, m, m, t);
    let s1 = s0.push(Step::Asset { what, dst });
    let e = lemma_norm_tiles(t.tiles, to, l, done, m1, t);
    lemma_after(
        s1,
        norm_tiles(
            t.tiles,
            to,
            residual_scale(t.plan, l, done),
            norm_scale(t.plan, l, done),
        ),
        m,
        m1,
        t,
    );
    assert(s1 =~= seq![Step::Asset { what, dst }]);
    e
}

/// The residual stream, its first `n` blocks one half further than the
/// others.
spec fn stream(m: Store, n: int, tiles: int, one: Datum, other: Datum) -> bool {
    forall|b: int|
        #![trigger (m.disk)(b)]
        S_X <= b < S_X + 96 * tiles ==> (m.disk)(b) == (Piece {
            what: if b < S_X + n {
                one
            } else {
                other
            },
            at: b - S_X,
        })
}

spec fn attended(m: Store, l: int, n: int, tiles: int) -> bool {
    stream(m, n, tiles, Datum::Residual { l, done: 1 }, Datum::Residual { l, done: 0 })
}

spec fn summed(m: Store, l: int, n: int, tiles: int) -> bool {
    stream(m, n, tiles, Datum::Residual { l: l + 1, done: 0 }, Datum::Residual { l, done: 1 })
}

spec fn out_blob(l: int) -> Blob {
    Blob::Enc(l as usize, Kind::Out, 0)
}

proof fn lemma_add_chunk(ci: int, l: int, m: Store, t: Task) -> (e: Store)
    requires
        1 <= t.tiles <= 10,
        0 <= ci < 2 * t.tiles,
        0 <= l < 4,
        attended(m, l, 48 * ci, t.tiles),
        on_disk(m, S_O as int, Datum::Output(out_blob(l)), 48 * t.tiles),
    ensures
        computed(
            add_chunk(
                ci,
                S_O as int,
                residual_scale(t.plan, l, 0),
                t.plan.enc[l].out_out,
                t.plan.enc[l].res1,
            ),
            m,
            t,
        ) == Some(e),
        attended(e, l, 48 * (ci + 1), t.tiles),
        only(m, e, S_X as int, S_X + 960),
{
    let s = add_chunk(
        ci,
        S_O as int,
        residual_scale(t.plan, l, 0),
        t.plan.enc[l].out_out,
        t.plan.enc[l].res1,
    );
    let acc = arena_buf(A_IN as int, 24576);
    let b = arena_buf(A_AUX as int, 12288);
    let s0 = Seq::<Step>::empty();
    lemma_none(m, t);
    let at = (S_X + 48 * ci) as u32;
    let m1 = then_read(s0, s[0], at, acc, m, m, t);
    let s1 = s0.push(s[0]);
    let m2 = then_read(s1, s[1], (S_O + 24 * ci) as u32, b, m, m1, t);
    let s2 = s1.push(s[1]);
    assert(has(m2, acc, Datum::Residual { l, done: 0 }, 48 * ci)) by {
        assert forall|u: int| 0 <= u < 48 implies #[trigger] (m2.ram)(Mem::Ram, u) == (Piece {
            what: Datum::Residual { l, done: 0 },
            at: 48 * ci + u,
        }) by {
            assert((m1.ram)(Mem::Ram, u) == (m.disk)(at + u));
        }
    }
    assert(has(m2, b, Datum::Output(out_blob(l)), 24 * ci));
    let m3 = then_add(s2, acc, b, l, 48 * ci, m, m2, t);
    let s3 = s2.push(s[2]);
    let m4 = then_write(s3, s[3], at, acc, m, m3, t);
    assert(s =~= s3.push(s[3]));
    m4
}

proof fn lemma_add(n: int, l: int, m: Store, t: Task) -> (e: Store)
    requires
        1 <= t.tiles <= 10,
        0 <= n <= 2 * t.tiles,
        0 <= l < 4,
        attended(m, l, 0, t.tiles),
        on_disk(m, S_O as int, Datum::Output(out_blob(l)), 48 * t.tiles),
    ensures
        computed(
            add_steps(
                n,
                S_O as int,
                residual_scale(t.plan, l, 0),
                t.plan.enc[l].out_out,
                t.plan.enc[l].res1,
            ),
            m,
            t,
        ) == Some(e),
        attended(e, l, 48 * n, t.tiles),
        only(m, e, S_X as int, S_X + 960),
    decreases n,
{
    if n == 0 {
        lemma_none(m, t);
        m
    } else {
        let e = lemma_add(n - 1, l, m, t);
        assert(on_disk(e, S_O as int, Datum::Output(out_blob(l)), 48 * t.tiles));
        let f = lemma_add_chunk(n - 1, l, e, t);
        let qa = residual_scale(t.plan, l, 0);
        let q = t.plan.enc[l];
        lemma_after(
            add_steps(n - 1, S_O as int, qa, q.out_out, q.res1),
            add_chunk(n - 1, S_O as int, qa, q.out_out, q.res1),
            m,
            e,
            t,
        );
        f
    }
}

// --- projections --------------------------------------------------------------------------

/// The first `i` tiles of every head, and of the first `n` heads one more.
pub open spec fn heads_have(m: Store, region: int, what: Datum, i: int, n: int) -> bool {
    forall|b: int|
        #![trigger (m.disk)(b)]
        region <= b < region + 480 && ((b - region) % 80 < 8 * i || (b - region) % 80 < 8 * (i
            + 1) && (b - region) / 80 < n) ==> (m.disk)(b) == (Piece {
            what,
            at: head_place(b - region),
        })
}

/// A tile goes out head by head.
pub proof fn lemma_head_writes(
    region: int,
    i: int,
    from: Buf,
    what: Datum,
    n: int,
    m: Store,
    t: Task,
) -> (e: Store)
    requires
        0 <= i < 10,
        0 <= n <= 6,
        0 <= region <= 13000,
        from.len == 24576,
        from.off <= 200000,
        has(m, from, what, 48 * i),
        heads_have(m, region, what, i, 0),
    ensures
        computed(head_writes(region, i, from, n), m, t) == Some(e),
        heads_have(e, region, what, i, n),
        e.ram == m.ram,
        e.loaded == m.loaded,
        only(m, e, region, region + 480),
    decreases n,
{
    if n == 0 {
        lemma_none(m, t);
        m
    } else {
        let h = n - 1;
        let e = lemma_head_writes(region, i, from, what, h, m, t);
        let at = (head_at(region, h) + 8 * i) as u32;
        let part = head_part(from, h);
        let push = Step::Push { read: false, at, buf: part };
        let f = then_write(head_writes(region, i, from, h), push, at, part, m, e, t);
        assert forall|b: int|
            #![trigger (f.disk)(b)]
            region <= b < region + 480 && ((b - region) % 80 < 8 * i || (b - region) % 80 < 8 * (i
                + 1) && (b - region) / 80 < n) implies (f.disk)(b) == (Piece {
            what,
            at: head_place(b - region),
        }) by {
            let o = b - region;
            if at <= b < at + 8 {
                let u = b - at + lo(part);
                assert(o / 80 == h && o % 80 / 8 == i);
                assert((e.ram)(from.mem, u) == (Piece { what, at: 48 * i + u - lo(from) }));
            } else {
                assert((e.disk)(b) == (f.disk)(b));
                if o / 80 == h && o % 80 >= 8 * i {
                    assert(false);
                }
            }
        }
        f
    }
}

/// A blob of the first half of block `l`.
spec fn projects(blob: Blob, l: int) -> bool {
    ||| blob == Blob::Enc(l as usize, Kind::Q, 0)
    ||| blob == Blob::Enc(l as usize, Kind::K, 0)
    ||| blob == Blob::Enc(l as usize, Kind::V, 0)
}

proof fn lemma_proj_tile(blob: Blob, region: int, i: int, l: int, m: Store, t: Task) -> (e: Store)
    requires
        1 <= t.tiles <= 10,
        0 <= i < t.tiles,
        0 <= l < 4,
        projects(blob, l),
        S_LN + 480 <= region <= 13000,
        m.loaded == Some(blob),
        on_disk(m, S_LN as int, Datum::Normed { l, done: 0 }, 48 * t.tiles),
        has(m, proj_in(i), Datum::Normed { l, done: 0 }, 48 * i),
        heads_have(m, region, Datum::Output(blob), i, 0),
    ensures
        computed(proj_tile(blob, region, t.tiles, i), m, t) == Some(e),
        e.loaded == Some(blob),
        only(m, e, region, region + 480),
        i + 1 < t.tiles ==> has(e, proj_in(i + 1), Datum::Normed { l, done: 0 }, 48 * (i + 1)),
        heads_have(e, region, Datum::Output(blob), i + 1, 0),
{
    let what = Datum::Output(blob);
    let s0 = Seq::<Step>::empty();
    lemma_none(m, t);
    let m1 = then_run(s0, blob, proj_in(i), proj_out(i), true, 48 * i, m, m, t);
    let run = Step::Run { blob, input: proj_in(i), output: proj_out(i), pumped: true };
    let s1 = s0.push(run);
    then_idle(s1, Step::Drain, m, m1, t);
    let s2 = s1.push(Step::Drain);
    let at = (S_LN + 48 * (i + 1)) as u32;
    let read = Step::Read { at, dst: proj_in(i + 1) };
    let more = i + 1 < t.tiles;
    let m2 = if more {
        then_read(s2, read, at, proj_in(i + 1), m, m1, t)
    } else {
        m1
    };
    let s3 = if more {
        s2.push(read)
    } else {
        s2
    };
    assert(has(m2, proj_out(i), what, 48 * i));
    assert(heads_have(m2, region, what, i, 0));
    let m3 = lemma_head_writes(region, i, proj_out(i), what, 6, m2, t);
    let w = head_writes(region, i, proj_out(i), 6);
    lemma_after(s3, w, m, m2, t);
    then_idle(s3 + w, Step::Pump, m, m3, t);
    assert(proj_tile(blob, region, t.tiles, i) =~= (s3 + w).push(Step::Pump));
    if more {
        assert(has(m2, proj_in(i + 1), Datum::Normed { l, done: 0 }, 48 * (i + 1)));
    }
    assert(heads_have(m3, region, what, i + 1, 0));
    m3
}

proof fn lemma_proj_tiles(blob: Blob, region: int, n: int, l: int, m: Store, t: Task) -> (e: Store)
    requires
        1 <= t.tiles <= 10,
        0 <= n <= t.tiles,
        0 <= l < 4,
        projects(blob, l),
        S_LN + 480 <= region <= 13000,
        m.loaded == Some(blob),
        on_disk(m, S_LN as int, Datum::Normed { l, done: 0 }, 48 * t.tiles),
        has(m, proj_in(0), Datum::Normed { l, done: 0 }, 0),
    ensures
        computed(proj_tiles(blob, region, t.tiles, n), m, t) == Some(e),
        e.loaded == Some(blob),
        only(m, e, region, region + 480),
        n < t.tiles ==> has(e, proj_in(n), Datum::Normed { l, done: 0 }, 48 * n),
        heads_have(e, region, Datum::Output(blob), n, 0),
    decreases n,
{
    if n == 0 {
        lemma_none(m, t);
        m
    } else {
        let e = lemma_proj_tiles(blob, region, n - 1, l, m, t);
        assert(on_disk(e, S_LN as int, Datum::Normed { l, done: 0 }, 48 * t.tiles));
        let f = lemma_proj_tile(blob, region, n - 1, l, e, t);
        lemma_after(
            proj_tiles(blob, region, t.tiles, n - 1),
            proj_tile(blob, region, t.tiles, n - 1),
            m,
            e,
            t,
        );
        f
    }
}

proof fn lemma_proj(blob: Blob, region: int, l: int, m: Store, t: Task) -> (e: Store)
    requires
        1 <= t.tiles <= 10,
        0 <= l < 4,
        projects(blob, l),
        S_LN + 480 <= region <= 13000,
        on_disk(m, S_LN as int, Datum::Normed { l, done: 0 }, 48 * t.tiles),
    ensures
        computed(proj_steps(blob, region, t.tiles), m, t) == Some(e),
        only(m, e, region, region + 480),
        heads_have(e, region, Datum::Output(blob), t.tiles, 0),
{
    let s0 = Seq::<Step>::empty();
    lemma_none(m, t);
    let m1 = then_load(s0, blob, m, m, t);
    let s1 = s0.push(Step::Load(blob));
    let read = Step::Read { at: S_LN, dst: proj_in(0) };
    let m2 = then_read(s1, read, S_LN, proj_in(0), m, m1, t);
    let s2 = s1.push(read);
    let m3 = lemma_proj_tiles(blob, region, t.tiles, l, m2, t);
    let b = proj_tiles(blob, region, t.tiles, t.tiles);
    lemma_after(s2, b, m, m2, t);
    then_idle(s2 + b, Step::Drain, m, m3, t);
    assert(proj_steps(blob, region, t.tiles) =~= (s2 + b).push(Step::Drain));
    m3
}

// --- attention ----------------------------------------------------------------------------

spec fn q_blob(l: int) -> Blob {
    Blob::Enc(l as usize, Kind::Q, 0)
}

spec fn k_blob(l: int) -> Blob {
    Blob::Enc(l as usize, Kind::K, 0)
}

spec fn v_blob(l: int) -> Blob {
    Blob::Enc(l as usize, Kind::V, 0)
}

/// Queries, keys and values of block `l` are in their regions.
spec fn projected(m: Store, l: int, tiles: int) -> bool {
    &&& heads_have(m, S_QH as int, Datum::Output(q_blob(l)), tiles, 0)
    &&& heads_have(m, S_KH as int, Datum::Output(k_blob(l)), tiles, 0)
    &&& heads_have(m, S_VH as int, Datum::Output(v_blob(l)), tiles, 0)
}

/// Head `h` of all three has been fetched.
spec fn fetched_head(m: Store, l: int, h: int, tiles: int) -> bool {
    &&& has_head(m, arena_buf(A_PK as int, 4096 * tiles), Datum::Output(k_blob(l)), h)
    &&& has_head(m, arena_buf(A_PV as int, 4096 * tiles), Datum::Output(v_blob(l)), h)
    &&& has_head(m, kv_buf(KV_PQ as int, 4096 * tiles), Datum::Output(q_blob(l)), h)
}

/// A head's blocks into a buffer.
proof fn lemma_fetch_one(
    steps: Seq<Step>,
    region: int,
    h: int,
    what: Datum,
    b: Buf,
    m: Store,
    e: Store,
    t: Task,
) -> (f: Store)
    requires
        computed(steps, m, t) == Some(e),
        1 <= t.tiles <= 10,
        0 <= h < 6,
        0 <= region <= 13000,
        whole(b),
        b.off <= 300000,
        b.len == 4096 * t.tiles,
        heads_have(e, region, what, t.tiles, 0),
    ensures
        computed(
            steps.push(Step::Push { read: true, at: head_at(region, h) as u32, buf: b }),
            m,
            t,
        ) == Some(f),
        fetched(e, f, head_at(region, h), b),
        has_head(f, b, what, h),
{
    let at = head_at(region, h) as u32;
    let s = Step::Push { read: true, at, buf: b };
    let f = then_read(steps, s, at, b, m, e, t);
    assert forall|u: int| lo(b) <= u < hi(b) implies #[trigger] (f.ram)(b.mem, u) == (Piece {
        what,
        at: 48 * ((u - lo(b)) / 8) + 8 * h + (u - lo(b)) % 8,
    }) by {
        let o = 80 * h + u - lo(b);
        assert((e.disk)(region + o) == (f.ram)(b.mem, u));
        assert(o % 80 == u - lo(b));
        assert(o / 80 == h);
    }
    f
}

proof fn lemma_fetch(steps: Seq<Step>, l: int, h: int, m: Store, e: Store, t: Task) -> (f: Store)
    requires
        computed(steps, m, t) == Some(e),
        1 <= t.tiles <= 10,
        0 <= l < 4,
        0 <= h < 6,
        projected(e, l, t.tiles),
    ensures
        computed(steps + fetch_head(h, t.tiles), m, t) == Some(f),
        fetched_head(f, l, h, t.tiles),
        f.disk == e.disk,
        f.loaded == e.loaded,
        forall|u: int| u >= 200 ==> #[trigger] (f.ram)(Mem::Ram, u) == (e.ram)(Mem::Ram, u),
        forall|u: int| #[trigger] (f.ram)(Mem::Interlayer, u) == (e.ram)(Mem::Interlayer, u),
        forall|u: int| u >= 80 ==> #[trigger] (f.ram)(Mem::Kv, u) == (e.ram)(Mem::Kv, u),
{
    let n = 4096 * t.tiles;
    let fh = fetch_head(h, t.tiles);
    let pk = arena_buf(A_PK as int, n);
    let pv = arena_buf(A_PV as int, n);
    let pq = kv_buf(KV_PQ as int, n);
    let m1 = lemma_fetch_one(steps, S_KH as int, h, Datum::Output(k_blob(l)), pk, m, e, t);
    let s1 = steps.push(fh[0]);
    let m2 = lemma_fetch_one(s1, S_VH as int, h, Datum::Output(v_blob(l)), pv, m, m1, t);
    let s2 = s1.push(fh[1]);
    let m3 = lemma_fetch_one(s2, S_QH as int, h, Datum::Output(q_blob(l)), pq, m, m2, t);
    assert(steps + fh =~= s2.push(fh[2]));
    m3
}

/// A head's operands are in place for attention.
spec fn unpacked(m: Store, l: int, h: int, t: Task) -> bool {
    let q = t.plan.enc[l];
    &&& m.loaded is None
    &&& has(m, slot_buf(SL_KT as int, 81920), Datum::Keys { l, h }, 0)
    &&& has(m, slot_buf(SL_V16 as int, 81920), Datum::Values { l, h }, 0)
    &&& has_head(m, slot_buf(SL_STAGE as int, 4096 * t.tiles), Datum::Output(q_blob(l)), h)
    &&& has(
        m,
        slot_buf(SL_EXPTAB as int, 8184),
        Datum::ExpTable { q: q.q_out, k: q.k_out },
        0,
    )
}

/// The context of the first `n` tiles of head `h`.
spec fn has_context(m: Store, l: int, h: int, n: int) -> bool {
    has_head(m, ctx_buf(h, n), Datum::Context { l }, h)
}

/// `e` is `m` but for one attention step's rows and context.
spec fn attended_once(m: Store, e: Store, ctx: Buf, what: Datum, at: int) -> bool {
    &&& e.loaded == m.loaded
    &&& e.disk == m.disk
    &&& forall|k: Mem, u: int|
        #![trigger (e.ram)(k, u)]
        (e.ram)(k, u) == (if k == ctx.mem && lo(ctx) <= u < hi(ctx) {
            Piece { what, at: at + u - lo(ctx) }
        } else if k == Mem::Interlayer && 0 <= u < 32 {
            (e.ram)(k, u)
        } else {
            (m.ram)(k, u)
        })
}

spec fn ctx_tile(h: int, i: int) -> Buf {
    Buf { mem: ctx_mem(h), off: (ctx_at(h) + 4096 * i) as usize, len: 4096 }
}

/// The queries of tile `i` of a staged head.
proof fn lemma_queries(l: int, h: int, i: int, e: Store, t: Task)
    requires
        1 <= t.tiles <= 10,
        0 <= i < t.tiles,
        unpacked(e, l, h, t),
    ensures
        has(
            e,
            slot_buf(SL_STAGE + 4096 * i, 4096),
            Datum::Output(q_blob(l)),
            48 * i + 8 * h,
        ),
{
    let query = slot_buf(SL_STAGE + 4096 * i, 4096);
    let stage = slot_buf(SL_STAGE as int, 4096 * t.tiles);
    assert forall|u: int| lo(query) <= u < hi(query) implies #[trigger] (e.ram)(Mem::Ram, u) == (
    Piece { what: Datum::Output(q_blob(l)), at: 48 * i + 8 * h + u - lo(query) }) by {
        assert(lo(stage) <= u < hi(stage));
        assert((u - lo(stage)) / 8 == i);
    }
}

proof fn lemma_attend_sound(l: int, h: int, i: int, d: int, e: Store, t: Task)
    requires
        1 <= t.tiles <= 10,
        0 <= t.tk <= usize::MAX,
        0 <= l < 4,
        0 <= h < 6,
        0 <= i < t.tiles,
        0 <= d < 4,
        unpacked(e, l, h, t),
        d > 0 ==> has(e, ctx_tile(h, i), Datum::Part { l, done: d }, 48 * i + 8 * h),
    ensures
        sound(attend_step(h, i, 16 * d, t.tk, t.plan.enc[l]), e, t),
{
    lemma_queries(l, h, i, e, t);
    let query = slot_buf(SL_STAGE + 4096 * i, 4096);
    let kt = slot_buf(SL_KT as int, 81920);
    let v16 = slot_buf(SL_V16 as int, 81920);
    let kv = slot_buf(SL_KT as int, 163840);
    let at = 48 * i + 8 * h;
    assert((e.ram)(Mem::Ram, lo(query)).at == at);
    assert((e.ram)(Mem::Ram, lo(kv)).what == Datum::Keys { l, h });
    assert(at % 48 / 8 == h);
    assert(at % 8 == 0);
    assert forall|u: int| lo(kv) <= u < hi(kv) implies #[trigger] (e.ram)(kv.mem, u) == (if u
        - lo(kv) < 160 {
        Piece { what: Datum::Keys { l, h }, at: u - lo(kv) }
    } else {
        Piece { what: Datum::Values { l, h }, at: u - lo(kv) - 160 }
    }) by {
        if u - lo(kv) < 160 {
            assert(lo(kt) <= u < hi(kt));
        } else {
            assert(lo(v16) <= u < hi(v16));
        }
    }
    reveal(sound);
}

/// What an attention step writes is none of a head's operands.
proof fn lemma_operands_stay(l: int, h: int, i: int, what: Datum, e: Store, f: Store, t: Task)
    requires
        1 <= t.tiles <= 10,
        0 <= i < t.tiles,
        unpacked(e, l, h, t),
        attended_once(e, f, ctx_tile(h, i), what, 48 * i + 8 * h),
    ensures
        unpacked(f, l, h, t),
{
    assert forall|u: int| #[trigger] (f.ram)(Mem::Ram, u) == (e.ram)(Mem::Ram, u) by {
        assert(ctx_tile(h, i).mem != Mem::Ram);
    }
}

proof fn lemma_attend_step(
    steps: Seq<Step>,
    l: int,
    h: int,
    i: int,
    d: int,
    m: Store,
    e: Store,
    t: Task,
) -> (f: Store)
    requires
        computed(steps, m, t) == Some(e),
        1 <= t.tiles <= 10,
        0 <= t.tk <= usize::MAX,
        0 <= l < 4,
        0 <= h < 6,
        0 <= i < t.tiles,
        0 <= d < 4,
        unpacked(e, l, h, t),
        d > 0 ==> has(e, ctx_tile(h, i), Datum::Part { l, done: d }, 48 * i + 8 * h),
    ensures
        computed(
            steps.push(attend_step(h, i, 16 * d, t.tk, t.plan.enc[l])).push(Step::Pump),
            m,
            t,
        ) == Some(f),
        unpacked(f, l, h, t),
        attended_once(
            e,
            f,
            ctx_tile(h, i),
            if d == 3 {
                Datum::Context { l }
            } else {
                Datum::Part { l, done: d + 1 }
            },
            48 * i + 8 * h,
        ),
{
    let s = attend_step(h, i, 16 * d, t.tk, t.plan.enc[l]);
    let what = if d == 3 {
        Datum::Context { l }
    } else {
        Datum::Part { l, done: d + 1 }
    };
    lemma_attend_sound(l, h, i, d, e, t);
    lemma_then(steps, s, m, e, t);
    let f = leaves(s, e, t);
    lemma_attend_leaves(l, h, i, d, e, t);
    lemma_operands_stay(l, h, i, what, e, f, t);
    then_idle(steps.push(s), Step::Pump, m, f, t);
    f
}

proof fn lemma_attend_leaves(l: int, h: int, i: int, d: int, e: Store, t: Task)
    requires
        1 <= t.tiles <= 10,
        0 <= i < t.tiles,
        0 <= d < 4,
        unpacked(e, l, h, t),
    ensures
        attended_once(
            e,
            leaves(attend_step(h, i, 16 * d, t.tk, t.plan.enc[l]), e, t),
            ctx_tile(h, i),
            if d == 3 {
                Datum::Context { l }
            } else {
                Datum::Part { l, done: d + 1 }
            },
            48 * i + 8 * h,
        ),
{
    lemma_queries(l, h, i, e, t);
    let query = slot_buf(SL_STAGE + 4096 * i, 4096);
    assert((e.ram)(Mem::Ram, lo(query)).at == 48 * i + 8 * h);
    assert((e.ram)(Mem::Ram, 200).what == Datum::Keys { l, h });
    reveal(leaves);
}

proof fn lemma_attend_tile(l: int, h: int, i: int, m: Store, t: Task) -> (e: Store)
    requires
        1 <= t.tiles <= 10,
        0 <= t.tk <= usize::MAX,
        0 <= l < 4,
        0 <= h < 6,
        0 <= i < t.tiles,
        unpacked(m, l, h, t),
    ensures
        computed(attend_tile(h, i, t.tk, t.plan.enc[l]), m, t) == Some(e),
        unpacked(e, l, h, t),
        attended_once(m, e, ctx_tile(h, i), Datum::Context { l }, 48 * i + 8 * h),
{
    let q = t.plan.enc[l];
    let s0 = Seq::<Step>::empty();
    lemma_none(m, t);
    let m1 = lemma_attend_step(s0, l, h, i, 0, m, m, t);
    let s1 = s0.push(attend_step(h, i, 0, t.tk, q)).push(Step::Pump);
    let m2 = lemma_attend_step(s1, l, h, i, 1, m, m1, t);
    let s2 = s1.push(attend_step(h, i, 16, t.tk, q)).push(Step::Pump);
    let m3 = lemma_attend_step(s2, l, h, i, 2, m, m2, t);
    let s3 = s2.push(attend_step(h, i, 32, t.tk, q)).push(Step::Pump);
    let m4 = lemma_attend_step(s3, l, h, i, 3, m, m3, t);
    let s4 = s3.push(attend_step(h, i, 48, t.tk, q)).push(Step::Pump);
    assert(attend_tile(h, i, t.tk, q) =~= s4);
    m4
}

proof fn lemma_attend_tiles(l: int, h: int, n: int, m: Store, t: Task) -> (e: Store)
    requires
        1 <= t.tiles <= 10,
        0 <= t.tk <= usize::MAX,
        0 <= l < 4,
        0 <= h < 6,
        0 <= n <= t.tiles,
        unpacked(m, l, h, t),
        h < 5 ==> fetched_head(m, l, h + 1, t.tiles),
    ensures
        computed(attend_tiles(h, n, t.tk, t.plan.enc[l]), m, t) == Some(e),
        unpacked(e, l, h, t),
        h < 5 ==> fetched_head(e, l, h + 1, t.tiles),
        has_context(e, l, h, n),
        e.disk == m.disk,
    decreases n,
{
    if n == 0 {
        lemma_none(m, t);
        m
    } else {
        let i = n - 1;
        let q = t.plan.enc[l];
        let e = lemma_attend_tiles(l, h, i, m, t);
        let f = lemma_attend_tile(l, h, i, e, t);
        lemma_after(attend_tiles(h, i, t.tk, q), attend_tile(h, i, t.tk, q), m, e, t);
        let b = ctx_buf(h, n);
        assert forall|u: int| lo(b) <= u < hi(b) implies #[trigger] (f.ram)(b.mem, u) == (Piece {
            what: Datum::Context { l },
            at: 48 * ((u - lo(b)) / 8) + 8 * h + (u - lo(b)) % 8,
        }) by {
            let c = ctx_tile(h, i);
            if lo(c) <= u {
                assert((u - lo(b)) / 8 == i);
            } else {
                let before = ctx_buf(h, i);
                assert(lo(before) <= u < hi(before));
                assert((e.ram)(b.mem, u) == (f.ram)(b.mem, u));
            }
        }
        f
    }
}

/// The contexts of the first `n` heads have gone out.
spec fn contexts_out(m: Store, l: int, n: int, tiles: int) -> bool {
    forall|b: int|
        #![trigger (m.disk)(b)]
        S_CH <= b < S_CH + 480 && (b - S_CH) % 80 < 8 * tiles && (b - S_CH) / 80 < n ==> (m.disk)(
            b,
        ) == (Piece { what: Datum::Context { l }, at: head_place(b - S_CH) })
}

/// A head's context goes out.
proof fn lemma_context_out(
    steps: Seq<Step>,
    s: Step,
    l: int,
    h: int,
    m: Store,
    e: Store,
    t: Task,
) -> (f: Store)
    requires
        computed(steps, m, t) == Some(e),
        1 <= t.tiles <= 10,
        0 <= h < 6,
        s == (Step::Write { at: head_at(S_CH as int, h) as u32, src: ctx_buf(h, t.tiles) }) || s
            == (Step::Push {
            read: false,
            at: head_at(S_CH as int, h) as u32,
            buf: ctx_buf(h, t.tiles),
        }),
        has_context(e, l, h, t.tiles),
        contexts_out(e, l, h, t.tiles),
    ensures
        computed(steps.push(s), m, t) == Some(f),
        contexts_out(f, l, h + 1, t.tiles),
        f.ram == e.ram,
        f.loaded == e.loaded,
        only(e, f, S_CH as int, S_CH + 480),
{
    let at = head_at(S_CH as int, h) as u32;
    let c = ctx_buf(h, t.tiles);
    let f = then_write(steps, s, at, c, m, e, t);
    assert forall|b: int|
        #![trigger (f.disk)(b)]
        S_CH <= b < S_CH + 480 && (b - S_CH) % 80 < 8 * t.tiles && (b - S_CH) / 80 < h
            + 1 implies (f.disk)(b) == (Piece {
        what: Datum::Context { l },
        at: head_place(b - S_CH),
    }) by {
        let o = b - S_CH;
        if o / 80 == h {
            let u = b - at + lo(c);
            assert(lo(c) <= u < hi(c));
            assert(o % 80 == u - lo(c));
            assert((e.ram)(c.mem, u) == (f.disk)(b));
        } else {
            assert((f.disk)(b) == (e.disk)(b));
        }
    }
    f
}

/// Before head `h`.
spec fn at_head(m: Store, l: int, h: int, t: Task) -> bool {
    let q = t.plan.enc[l];
    &&& m.loaded is None
    &&& projected(m, l, t.tiles)
    &&& h < 6 ==> fetched_head(m, l, h, t.tiles)
    &&& h > 0 ==> has_context(m, l, h - 1, t.tiles)
    &&& contexts_out(m, l, h - 1, t.tiles)
    &&& has(
        m,
        slot_buf(SL_EXPTAB as int, 8184),
        Datum::ExpTable { q: q.q_out, k: q.k_out },
        0,
    )
}

/// A staged head into the slot, as keys or as values.
proof fn then_unpack(
    steps: Seq<Step>,
    keys: bool,
    stage: Buf,
    dst: Buf,
    l: int,
    h: int,
    m: Store,
    e: Store,
    t: Task,
) -> (f: Store)
    requires
        computed(steps, m, t) == Some(e),
        e.loaded is None,
        1 <= t.tiles <= 10,
        0 <= t.tk <= usize::MAX,
        0 <= l < 4,
        0 <= h < 6,
        stage.len == 4096 * t.tiles,
        dst.len == 81920,
        whole(dst),
        has_head(
            e,
            stage,
            Datum::Output(
                if keys {
                    k_blob(l)
                } else {
                    v_blob(l)
                },
            ),
            h,
        ),
    ensures
        computed(
            steps.push(
                if keys {
                    Step::Keys { stage, tk: t.tk as usize, dst }
                } else {
                    Step::Values { stage, tk: t.tk as usize, dst }
                },
            ),
            m,
            t,
        ) == Some(f),
        put(
            e,
            f,
            dst,
            if keys {
                Datum::Keys { l, h }
            } else {
                Datum::Values { l, h }
            },
            0,
        ),
{
    let tk = t.tk as usize;
    assert((e.ram)(stage.mem, lo(stage)).at == 8 * h);
    if keys {
        let s = Step::Keys { stage, tk, dst };
        assert(sound(s, e, t) && leaves(s, e, t) == with(e, dst, Datum::Keys { l, h }, 0)) by {
            reveal(sound);
            reveal(leaves);
        }
        then_put(steps, s, dst, Datum::Keys { l, h }, 0, m, e, t)
    } else {
        let s = Step::Values { stage, tk, dst };
        assert(sound(s, e, t) && leaves(s, e, t) == with(e, dst, Datum::Values { l, h }, 0)) by {
            reveal(sound);
            reveal(leaves);
        }
        then_put(steps, s, dst, Datum::Values { l, h }, 0, m, e, t)
    }
}

/// Queries into the slot.
proof fn then_copy(
    steps: Seq<Step>,
    src: Buf,
    dst: Buf,
    what: Datum,
    h: int,
    m: Store,
    e: Store,
    t: Task,
) -> (f: Store)
    requires
        computed(steps, m, t) == Some(e),
        e.loaded is None,
        src.len == dst.len,
        whole(dst),
        has_head(e, src, what, h),
    ensures
        computed(steps.push(Step::Copy { src, dst }), m, t) == Some(f),
        f.loaded == e.loaded,
        f.disk == e.disk,
        has_head(f, dst, what, h),
        forall|k: Mem, u: int|
            #![trigger (f.ram)(k, u)]
            k != dst.mem || u < lo(dst) || u >= hi(dst) ==> (f.ram)(k, u) == (e.ram)(k, u),
{
    let s = Step::Copy { src, dst };
    reveal(sound);
    reveal(leaves);
    lemma_then(steps, s, m, e, t);
    let f = leaves(s, e, t);
    assert forall|u: int| lo(dst) <= u < hi(dst) implies #[trigger] (f.ram)(dst.mem, u) == (Piece {
        what,
        at: 48 * ((u - lo(dst)) / 8) + 8 * h + (u - lo(dst)) % 8,
    }) by {
        let v = u - lo(dst) + lo(src);
        assert((e.ram)(src.mem, v) == (f.ram)(dst.mem, u));
    }
    f
}

/// Only the blob's room in the slot may differ.
spec fn only_slot(m: Store, e: Store) -> bool {
    &&& e.disk == m.disk
    &&& e.loaded == m.loaded
    &&& forall|k: Mem, u: int|
        #![trigger (e.ram)(k, u)]
        k != Mem::Ram || u < 200 || u >= 600 ==> (e.ram)(k, u) == (m.ram)(k, u)
}

proof fn lemma_at_head_stays(l: int, h: int, m: Store, e: Store, t: Task)
    requires
        1 <= t.tiles <= 10,
        at_head(m, l, h, t),
        only_slot(m, e),
    ensures
        at_head(e, l, h, t),
{
    if h > 0 {
        assert(ctx_buf(h - 1, t.tiles).mem != Mem::Ram);
        assert(has_context(e, l, h - 1, t.tiles));
    }
    if h < 6 {
        assert(fetched_head(e, l, h, t.tiles));
    }
}

proof fn lemma_unpack(l: int, h: int, m: Store, t: Task) -> (e: Store)
    requires
        1 <= t.tiles <= 10,
        0 <= t.tk <= usize::MAX,
        0 <= l < 4,
        0 <= h < 6,
        at_head(m, l, h, t),
    ensures
        computed(
            seq![
                Step::Keys {
                    stage: arena_buf(A_PK as int, 4096 * t.tiles),
                    tk: t.tk as usize,
                    dst: slot_buf(SL_KT as int, 81920),
                },
                Step::Values {
                    stage: arena_buf(A_PV as int, 4096 * t.tiles),
                    tk: t.tk as usize,
                    dst: slot_buf(SL_V16 as int, 81920),
                },
                Step::Copy {
                    src: kv_buf(KV_PQ as int, 4096 * t.tiles),
                    dst: slot_buf(SL_STAGE as int, 4096 * t.tiles),
                },
            ],
            m,
            t,
        ) == Some(e),
        unpacked(e, l, h, t),
        at_head(e, l, h, t),
        e.disk == m.disk,
{
    let n = 4096 * t.tiles;
    let pk = arena_buf(A_PK as int, n);
    let pv = arena_buf(A_PV as int, n);
    let pq = kv_buf(KV_PQ as int, n);
    let kt = slot_buf(SL_KT as int, 81920);
    let v16 = slot_buf(SL_V16 as int, 81920);
    let stage = slot_buf(SL_STAGE as int, n);
    let keys = Step::Keys { stage: pk, tk: t.tk as usize, dst: kt };
    let values = Step::Values { stage: pv, tk: t.tk as usize, dst: v16 };
    let copy = Step::Copy { src: pq, dst: stage };
    let s0 = Seq::<Step>::empty();
    lemma_none(m, t);
    let m1 = then_unpack(s0, true, pk, kt, l, h, m, m, t);
    let s1 = s0.push(keys);
    assert(has_head(m1, pv, Datum::Output(v_blob(l)), h));
    assert(has_head(m1, pq, Datum::Output(q_blob(l)), h));
    let m2 = then_unpack(s1, false, pv, v16, l, h, m, m1, t);
    let s2 = s1.push(values);
    assert(has_head(m2, pq, Datum::Output(q_blob(l)), h));
    assert(has(m2, kt, Datum::Keys { l, h }, 0));
    let m3 = then_copy(s2, pq, stage, Datum::Output(q_blob(l)), h, m, m2, t);
    assert(has(m3, kt, Datum::Keys { l, h }, 0));
    assert(has(m3, v16, Datum::Values { l, h }, 0));
    assert(only_slot(m, m3));
    lemma_at_head_stays(l, h, m, m3, t);
    assert(s2.push(copy) =~= seq![keys, values, copy]);
    m3
}

proof fn lemma_head(l: int, h: int, m: Store, t: Task) -> (e: Store)
    requires
        1 <= t.tiles <= 10,
        0 <= t.tk <= usize::MAX,
        0 <= l < 4,
        0 <= h < 6,
        at_head(m, l, h, t),
    ensures
        computed(head_steps(h, t.tiles, t.tk, t.plan.enc[l]), m, t) == Some(e),
        at_head(e, l, h + 1, t),
        only(m, e, S_CH as int, S_CH + 480),
{
    let n = 4096 * t.tiles;
    let q = t.plan.enc[l];
    let a = seq![
        Step::Keys {
            stage: arena_buf(A_PK as int, n),
            tk: t.tk as usize,
            dst: slot_buf(SL_KT as int, 81920),
        },
        Step::Values {
            stage: arena_buf(A_PV as int, n),
            tk: t.tk as usize,
            dst: slot_buf(SL_V16 as int, 81920),
        },
        Step::Copy { src: kv_buf(KV_PQ as int, n), dst: slot_buf(SL_STAGE as int, n) },
    ];
    let m1 = lemma_unpack(l, h, m, t);
    let push = Step::Push {
        read: false,
        at: head_at(S_CH as int, h - 1) as u32,
        buf: ctx_buf(h - 1, t.tiles),
    };
    let m2 = if h > 0 {
        lemma_context_out(a, push, l, h - 1, m, m1, t)
    } else {
        m1
    };
    let s2 = if h > 0 {
        a.push(push)
    } else {
        a
    };
    assert(projected(m2, l, t.tiles));
    assert(unpacked(m2, l, h, t));
    assert(contexts_out(m2, l, h, t.tiles));
    let m3 = if h < 5 {
        lemma_fetch(s2, l, h + 1, m, m2, t)
    } else {
        m2
    };
    let s3 = if h < 5 {
        s2 + fetch_head(h + 1, t.tiles)
    } else {
        s2
    };
    assert(unpacked(m3, l, h, t));
    assert(m3.disk == m2.disk);
    then_idle(s3, Step::Pump, m, m3, t);
    let s4 = s3.push(Step::Pump);
    assert(head_begin(h, t.tiles, t.tk) =~= s4);
    let m4 = lemma_attend_tiles(l, h, t.tiles, m3, t);
    let b = attend_tiles(h, t.tiles, t.tk, q);
    lemma_after(s4, b, m, m3, t);
    then_idle(s4 + b, Step::Drain, m, m4, t);
    assert(head_steps(h, t.tiles, t.tk, q) =~= (s4 + b).push(Step::Drain));
    m4
}

proof fn lemma_heads(l: int, n: int, m: Store, t: Task) -> (e: Store)
    requires
        1 <= t.tiles <= 10,
        0 <= t.tk <= usize::MAX,
        0 <= l < 4,
        0 <= n <= 6,
        at_head(m, l, 0, t),
    ensures
        computed(heads_steps(n, t.tiles, t.tk, t.plan.enc[l]), m, t) == Some(e),
        at_head(e, l, n, t),
        only(m, e, S_CH as int, S_CH + 480),
    decreases n,
{
    if n == 0 {
        lemma_none(m, t);
        m
    } else {
        let q = t.plan.enc[l];
        let e = lemma_heads(l, n - 1, m, t);
        let f = lemma_head(l, n - 1, e, t);
        lemma_after(
            heads_steps(n - 1, t.tiles, t.tk, q),
            head_steps(n - 1, t.tiles, t.tk, q),
            m,
            e,
            t,
        );
        f
    }
}

proof fn lemma_attention(l: int, m: Store, t: Task) -> (e: Store)
    requires
        1 <= t.tiles <= 10,
        0 <= t.tk <= usize::MAX,
        0 <= l < 4,
        projected(m, l, t.tiles),
    ensures
        computed(attention_steps(t.tiles, t.tk, t.plan.enc[l]), m, t) == Some(e),
        contexts_out(e, l, 6, t.tiles),
        only(m, e, S_CH as int, S_CH + 480),
{
    let q = t.plan.enc[l];
    let dst = slot_buf(SL_EXPTAB as int, 8184);
    let exp = Step::ExpTable { q: q.q_out, k: q.k_out, dst };
    let what = Datum::ExpTable { q: q.q_out, k: q.k_out };
    let s0 = Seq::<Step>::empty();
    lemma_none(m, t);
    assert(sound(Step::Forget, m, t)) by {
        reveal(sound);
    }
    lemma_then(s0, Step::Forget, m, m, t);
    let m1 = leaves(Step::Forget, m, t);
    assert(m1.loaded is None && m1.disk == m.disk) by {
        reveal(leaves);
    }
    let s1 = s0.push(Step::Forget);
    assert(sound(exp, m1, t) && leaves(exp, m1, t) == with(m1, dst, what, 0)) by {
        reveal(sound);
        reveal(leaves);
    }
    let m2 = then_put(s1, exp, dst, what, 0, m, m1, t);
    let s2 = s1.push(exp);
    assert(projected(m2, l, t.tiles));
    let m3 = lemma_fetch(s2, l, 0, m, m2, t);
    let s3 = s2 + fetch_head(0, t.tiles);
    then_idle(s3, Step::Drain, m, m3, t);
    let s4 = s3.push(Step::Drain);
    assert(at_head(m3, l, 0, t));
    let m4 = lemma_heads(l, 6, m3, t);
    let b = heads_steps(6, t.tiles, t.tk, q);
    lemma_after(s4, b, m, m3, t);
    let write = Step::Write { at: head_at(S_CH as int, 5) as u32, src: ctx_buf(5, t.tiles) };
    let m5 = lemma_context_out(s4 + b, write, l, 5, m, m4, t);
    assert(attention_steps(t.tiles, t.tk, q) =~= (s4 + b).push(write));
    m5
}

// --- output projection --------------------------------------------------------------------

proof fn lemma_ctx_reads(l: int, i: int, n: int, m: Store, t: Task) -> (e: Store)
    requires
        1 <= t.tiles <= 10,
        0 <= i < t.tiles,
        0 <= n <= 6,
        contexts_out(m, l, 6, t.tiles),
    ensures
        computed(ctx_reads(i, n), m, t) == Some(e),
        e.disk == m.disk,
        has(e, arena_buf(A_IN as int, 4096 * n), Datum::Context { l }, 48 * i),
    decreases n,
{
    if n == 0 {
        lemma_none(m, t);
        m
    } else {
        let h = n - 1;
        let e = lemma_ctx_reads(l, i, h, m, t);
        let at = (head_at(S_CH as int, h) + 8 * i) as u32;
        let dst = arena_buf(A_IN + 4096 * h, 4096);
        let f = then_read(ctx_reads(i, h), Step::Read { at, dst }, at, dst, m, e, t);
        assert forall|u: int| 0 <= u < 8 * n implies #[trigger] (f.ram)(Mem::Ram, u) == (Piece {
            what: Datum::Context { l },
            at: 48 * i + u,
        }) by {
            if u >= 8 * h {
                let o = 80 * h + 8 * i + u - 8 * h;
                assert((e.disk)(S_CH + o) == (f.ram)(Mem::Ram, u));
                assert(o / 80 == h && o % 80 == 8 * i + u - 8 * h);
            } else {
                assert((f.ram)(Mem::Ram, u) == (e.ram)(Mem::Ram, u));
            }
        }
        f
    }
}

proof fn lemma_out_tile(l: int, i: int, m: Store, t: Task) -> (e: Store)
    requires
        1 <= t.tiles <= 10,
        0 <= i < t.tiles,
        0 <= l < 4,
        contexts_out(m, l, 6, t.tiles),
        on_disk(m, S_O as int, Datum::Output(out_blob(l)), 48 * i),
    ensures
        computed(out_tile(out_blob(l), i), m, t) == Some(e),
        on_disk(e, S_O as int, Datum::Output(out_blob(l)), 48 * (i + 1)),
        only(m, e, S_O as int, S_O + 480),
{
    let blob = out_blob(l);
    let input = arena_buf(A_IN as int, TILE8 as int);
    let out = arena_buf(A_OUT as int, TILE8 as int);
    let s0 = ctx_reads(i, 6);
    let m0 = lemma_ctx_reads(l, i, 6, m, t);
    let m1 = then_load(s0, blob, m, m0, t);
    let s1 = s0.push(Step::Load(blob));
    let run = Step::Run { blob, input, output: out, pumped: false };
    assert(has(m1, input, Datum::Context { l }, 48 * i));
    let m2 = then_run(s1, blob, input, out, false, 48 * i, m, m1, t);
    let s2 = s1.push(run);
    let at = (S_O + 48 * i) as u32;
    let write = Step::Write { at, src: out };
    let m3 = then_write(s2, write, at, out, m, m2, t);
    assert(out_tile(blob, i) =~= s2.push(write));
    m3
}

proof fn lemma_out(l: int, n: int, m: Store, t: Task) -> (e: Store)
    requires
        1 <= t.tiles <= 10,
        0 <= n <= t.tiles,
        0 <= l < 4,
        contexts_out(m, l, 6, t.tiles),
    ensures
        computed(out_steps(out_blob(l), n), m, t) == Some(e),
        on_disk(e, S_O as int, Datum::Output(out_blob(l)), 48 * n),
        only(m, e, S_O as int, S_O + 480),
    decreases n,
{
    if n == 0 {
        lemma_none(m, t);
        m
    } else {
        let e = lemma_out(l, n - 1, m, t);
        assert(contexts_out(e, l, 6, t.tiles));
        let f = lemma_out_tile(l, n - 1, e, t);
        lemma_after(out_steps(out_blob(l), n - 1), out_tile(out_blob(l), n - 1), m, e, t);
        f
    }
}

// --- MLP ----------------------------------------------------------------------------------

spec fn fc1(l: int, j: int) -> Blob {
    Blob::Enc(l as usize, Kind::Fc1, j as usize)
}

spec fn fc2(l: int, j: int) -> Blob {
    Blob::Enc(l as usize, Kind::Fc2p, j as usize)
}

/// Before the pair from tile `i` on: its inputs have come, and the sums of
/// the pair before it are still in memory.
spec fn at_pair(m: Store, l: int, j: int, i: int, tiles: int) -> bool {
    &&& on_disk(m, S_LN as int, Datum::Normed { l, done: 1 }, 48 * tiles)
    &&& has_table(m, Asset::EncLut(l as usize, j as usize))
    &&& i < tiles ==> has(m, arena_tile(A_X0 as int), Datum::Normed { l, done: 1 }, 48 * i)
    &&& i + 1 < tiles ==> has(
        m,
        arena_tile(A_X1 as int),
        Datum::Normed { l, done: 1 },
        48 * (i + 1),
    )
    &&& i > 0 ==> {
        &&& on_disk(m, part_at(j), Datum::Output(fc2(l, j)), 48 * (i - 2))
        &&& has(m, kv_tile(KV_P0 as int), Datum::Output(fc2(l, j)), 48 * (i - 2))
        &&& i <= tiles ==> has(
            m,
            kv_tile(KV_P1 as int),
            Datum::Output(fc2(l, j)),
            48 * (i - 1),
        )
    }
}

/// Between the two layers of a pair.
spec fn mid_pair(m: Store, l: int, j: int, i: int, tiles: int) -> bool {
    &&& on_disk(m, S_LN as int, Datum::Normed { l, done: 1 }, 48 * tiles)
    &&& has_table(m, Asset::EncLut(l as usize, j as usize))
    &&& has(m, arena_tile(A_OUT as int), Datum::Output(fc1(l, j)), 48 * i)
    &&& i + 1 < tiles ==> has(
        m,
        kv_tile(KV_F1 as int),
        Datum::Output(fc1(l, j)),
        48 * (i + 1),
    )
    &&& on_disk(m, part_at(j), Datum::Output(fc2(l, j)), 48 * i)
}

proof fn lemma_pair_first(l: int, j: int, i: int, m: Store, t: Task) -> (e: Store)
    requires
        1 <= t.tiles <= 10,
        0 <= l < 4,
        0 <= j < 4,
        0 <= i < t.tiles,
        i == 0 || i >= 2,
        at_pair(m, l, j, i, t.tiles),
    ensures
        computed(pair_first(fc1(l, j), part_at(j), t.tiles, i), m, t) == Some(e),
        mid_pair(e, l, j, i, t.tiles),
        only(m, e, part_at(j), part_at(j) + 480),
{
    let f1 = fc1(l, j);
    let s0 = Seq::<Step>::empty();
    lemma_none(m, t);
    let m1 = then_load(s0, f1, m, m, t);
    let s1 = s0.push(Step::Load(f1));
    assert(at_pair(m1, l, j, i, t.tiles)) by {
        assert(m1.disk == m.disk);
    }
    let a0 = (part_at(j) + 48 * (i - 2)) as u32;
    let a1 = (part_at(j) + 48 * (i - 1)) as u32;
    let p0 = Step::Push { read: false, at: a0, buf: kv_tile(KV_P0 as int) };
    let p1 = Step::Push { read: false, at: a1, buf: kv_tile(KV_P1 as int) };
    let (s2, m2) = if i > 0 {
        let b0 = then_write(s1, p0, a0, kv_tile(KV_P0 as int), m, m1, t);
        let b1 = then_write(s1.push(p0), p1, a1, kv_tile(KV_P1 as int), m, b0, t);
        then_idle(s1.push(p0).push(p1), Step::Pump, m, b1, t);
        assert(on_disk(b1, part_at(j), Datum::Output(fc2(l, j)), 48 * i)) by {
            assert forall|b: int| part_at(j) <= b < part_at(j) + 48 * i implies #[trigger] (
            b1.disk)(b) == (Piece { what: Datum::Output(fc2(l, j)), at: b - part_at(j) }) by {
                assert((b0.disk)(b) == (b0.disk)(b));
            }
        }
        (s1.push(p0).push(p1).push(Step::Pump), b1)
    } else {
        (s1, m1)
    };
    assert(m2.ram == m1.ram && m2.loaded == Some(f1));
    assert(on_disk(m2, S_LN as int, Datum::Normed { l, done: 1 }, 48 * t.tiles));
    assert(on_disk(m2, part_at(j), Datum::Output(fc2(l, j)), 48 * i));
    let x0 = arena_tile(A_X0 as int);
    let out = arena_tile(A_OUT as int);
    let m3 = then_run(s2, f1, x0, out, true, 48 * i, m, m2, t);
    let run0 = Step::Run { blob: f1, input: x0, output: out, pumped: true };
    let s3 = s2.push(run0);
    let x1 = arena_tile(A_X1 as int);
    let kf = kv_tile(KV_F1 as int);
    let run1 = Step::Run { blob: f1, input: x1, output: kf, pumped: true };
    let (s4, m4) = if i + 1 < t.tiles {
        assert(has(m3, x1, Datum::Normed { l, done: 1 }, 48 * (i + 1)));
        (s3.push(run1), then_run(s3, f1, x1, kf, true, 48 * (i + 1), m, m3, t))
    } else {
        (s3, m3)
    };
    then_idle(s4, Step::Drain, m, m4, t);
    assert(pair_first(f1, part_at(j), t.tiles, i) =~= s4.push(Step::Drain));
    assert(has_table(m4, Asset::EncLut(l as usize, j as usize)));
    assert(m4.disk == m2.disk);
    m4
}

proof fn lemma_pair_fetch(
    steps: Seq<Step>,
    l: int,
    i: int,
    m: Store,
    e: Store,
    t: Task,
) -> (f: Store)
    requires
        computed(steps, m, t) == Some(e),
        1 <= t.tiles <= 10,
        0 <= i < t.tiles,
        on_disk(e, S_LN as int, Datum::Normed { l, done: 1 }, 48 * t.tiles),
    ensures
        computed(steps + pair_fetch(t.tiles, i), m, t) == Some(f),
        f.disk == e.disk,
        f.loaded == e.loaded,
        forall|k: Mem, u: int|
            #![trigger (f.ram)(k, u)]
            k != Mem::Ram || u >= 96 ==> (f.ram)(k, u) == (e.ram)(k, u),
        i + 2 < t.tiles ==> has(
            f,
            arena_tile(A_X0 as int),
            Datum::Normed { l, done: 1 },
            48 * (i + 2),
        ),
        i + 3 < t.tiles ==> has(
            f,
            arena_tile(A_X1 as int),
            Datum::Normed { l, done: 1 },
            48 * (i + 3),
        ),
{
    if i + 2 < t.tiles {
        let x0 = arena_tile(A_X0 as int);
        let x1 = arena_tile(A_X1 as int);
        let a0 = (S_LN + 48 * (i + 2)) as u32;
        let a1 = (S_LN + 48 * (i + 3)) as u32;
        let r0 = Step::Push { read: true, at: a0, buf: x0 };
        let r1 = Step::Push { read: true, at: a1, buf: x1 };
        let m1 = then_read(steps, r0, a0, x0, m, e, t);
        let s1 = steps.push(r0);
        let (s2, m2) = if i + 3 < t.tiles {
            (s1.push(r1), then_read(s1, r1, a1, x1, m, m1, t))
        } else {
            (s1, m1)
        };
        then_idle(s2, Step::Pump, m, m2, t);
        assert(steps + pair_fetch(t.tiles, i) =~= s2.push(Step::Pump));
        m2
    } else {
        assert(steps + pair_fetch(t.tiles, i) =~= steps);
        e
    }
}

/// GELU and the second layer on one tile.
proof fn lemma_gelu_run(
    steps: Seq<Step>,
    l: int,
    j: int,
    from: Buf,
    to: Buf,
    at: int,
    m: Store,
    e: Store,
    t: Task,
) -> (f: Store)
    requires
        computed(steps, m, t) == Some(e),
        from.len == 24576,
        to.len == 24576,
        whole(to),
        from.mem != to.mem || lo(from) + 48 <= lo(to) || lo(to) + 48 <= lo(from),
        at % 48 == 0,
        e.loaded == Some(fc2(l, j)),
        has_table(e, Asset::EncLut(l as usize, j as usize)),
        has(e, from, Datum::Output(fc1(l, j)), at),
        to.mem != Mem::Ram,
    ensures
        computed(
            steps.push(Step::Lut { table: arena_buf(A_LUT as int, 256), buf: from }).push(
                Step::Run { blob: fc2(l, j), input: from, output: to, pumped: true },
            ),
            m,
            t,
        ) == Some(f),
        f.disk == e.disk,
        f.loaded == e.loaded,
        has(f, to, Datum::Output(fc2(l, j)), at),
        forall|k: Mem, u: int|
            #![trigger (f.ram)(k, u)]
            k != Mem::Interlayer && !(k == from.mem && lo(from) <= u < hi(from)) && !(k == to.mem
                && lo(to) <= u < hi(to)) ==> (f.ram)(k, u) == (e.ram)(k, u),
{
    let table = arena_buf(A_LUT as int, 256);
    let m1 = then_lut(steps, table, from, fc1(l, j), at, m, e, t);
    let s1 = steps.push(Step::Lut { table, buf: from });
    assert(has(m1, from, Datum::Gelu(fc1(l, j)), at));
    then_run(s1, fc2(l, j), from, to, true, at, m, m1, t)
}

proof fn lemma_pair_second(l: int, j: int, i: int, m: Store, t: Task) -> (e: Store)
    requires
        1 <= t.tiles <= 10,
        0 <= l < 4,
        0 <= j < 4,
        0 <= i < t.tiles,
        mid_pair(m, l, j, i, t.tiles),
    ensures
        computed(pair_second(fc2(l, j), t.tiles, i), m, t) == Some(e),
        at_pair(e, l, j, i + 2, t.tiles),
        e.disk == m.disk,
{
    let p2 = fc2(l, j);
    let s0 = Seq::<Step>::empty();
    lemma_none(m, t);
    let m1 = then_load(s0, p2, m, m, t);
    let s1 = s0.push(Step::Load(p2));
    assert(on_disk(m1, S_LN as int, Datum::Normed { l, done: 1 }, 48 * t.tiles)) by {
        assert(m1.disk == m.disk);
    }
    let m2 = lemma_pair_fetch(s1, l, i, m, m1, t);
    let s2 = s1 + pair_fetch(t.tiles, i);
    let table = arena_buf(A_LUT as int, 256);
    let out = arena_tile(A_OUT as int);
    let k0 = kv_tile(KV_P0 as int);
    let k1 = kv_tile(KV_P1 as int);
    let kf = kv_tile(KV_F1 as int);
    assert(has_table(m2, Asset::EncLut(l as usize, j as usize)));
    assert(has(m2, out, Datum::Output(fc1(l, j)), 48 * i));
    let m3 = lemma_gelu_run(s2, l, j, out, k0, 48 * i, m, m2, t);
    let s3 = s2.push(Step::Lut { table, buf: out }).push(
        Step::Run { blob: p2, input: out, output: k0, pumped: true },
    );
    let (s4, m4) = if i + 1 < t.tiles {
        assert(has_table(m3, Asset::EncLut(l as usize, j as usize)));
        assert(has(m3, kf, Datum::Output(fc1(l, j)), 48 * (i + 1)));
        (
            s3.push(Step::Lut { table, buf: kf }).push(
                Step::Run { blob: p2, input: kf, output: k1, pumped: true },
            ),
            lemma_gelu_run(s3, l, j, kf, k1, 48 * (i + 1), m, m3, t),
        )
    } else {
        (s3, m3)
    };
    then_idle(s4, Step::Drain, m, m4, t);
    assert(pair_second(p2, t.tiles, i) =~= s4.push(Step::Drain));
    assert(m4.disk == m.disk);
    assert(has_table(m4, Asset::EncLut(l as usize, j as usize)));
    assert(has(m4, k0, Datum::Output(p2), 48 * i));
    m4
}

proof fn lemma_pairs(l: int, j: int, n: int, m: Store, t: Task) -> (e: Store)
    requires
        1 <= t.tiles <= 10,
        0 <= l < 4,
        0 <= j < 4,
        0 <= n <= pair_count(t.tiles),
        at_pair(m, l, j, 0, t.tiles),
    ensures
        computed(pairs_steps(fc1(l, j), fc2(l, j), part_at(j), t.tiles, n), m, t) == Some(e),
        at_pair(e, l, j, 2 * n, t.tiles),
        only(m, e, part_at(j), part_at(j) + 480),
    decreases n,
{
    if n == 0 {
        lemma_none(m, t);
        m
    } else {
        let i = 2 * (n - 1);
        let e = lemma_pairs(l, j, n - 1, m, t);
        let f = lemma_pair_first(l, j, i, e, t);
        let g = lemma_pair_second(l, j, i, f, t);
        let a = pairs_steps(fc1(l, j), fc2(l, j), part_at(j), t.tiles, n - 1);
        let b = pair_first(fc1(l, j), part_at(j), t.tiles, i);
        let c = pair_second(fc2(l, j), t.tiles, i);
        lemma_after(a, b, m, e, t);
        lemma_after(a + b, c, m, f, t);
        g
    }
}

proof fn lemma_quarter(l: int, j: int, m: Store, t: Task) -> (e: Store)
    requires
        1 <= t.tiles <= 10,
        0 <= l < 4,
        0 <= j < 4,
        on_disk(m, S_LN as int, Datum::Normed { l, done: 1 }, 48 * t.tiles),
    ensures
        computed(mlp_part(l, j, t.tiles), m, t) == Some(e),
        on_disk(e, part_at(j), Datum::Output(fc2(l, j)), 48 * t.tiles),
        only(m, e, part_at(j), part_at(j) + 480),
{
    let what = Asset::EncLut(l as usize, j as usize);
    let dst = arena_buf(A_LUT as int, 512);
    let s0 = Seq::<Step>::empty();
    lemma_none(m, t);
    let m1 = then_asset(s0, what, dst, m, m, t);
    let s1 = s0.push(Step::Asset { what, dst });
    let x0 = arena_tile(A_X0 as int);
    let x1 = arena_tile(A_X1 as int);
    let r0 = Step::Read { at: S_LN, dst: x0 };
    let r1 = Step::Read { at: (S_LN + 48) as u32, dst: x1 };
    let m2 = then_read(s1, r0, S_LN, x0, m, m1, t);
    let s2 = s1.push(r0);
    let (s3, m3) = if t.tiles > 1 {
        (s2.push(r1), then_read(s2, r1, (S_LN + 48) as u32, x1, m, m2, t))
    } else {
        (s2, m2)
    };
    assert(m3.disk == m.disk);
    assert(at_pair(m3, l, j, 0, t.tiles));
    let n = pair_count(t.tiles);
    let m4 = lemma_pairs(l, j, n, m3, t);
    let b = pairs_steps(fc1(l, j), fc2(l, j), part_at(j), t.tiles, n);
    lemma_after(s3, b, m, m3, t);
    let s4 = s3 + b;
    let c = pairs_end(part_at(j), t.tiles);
    let a0 = (part_at(j) + 48 * (2 * n - 2)) as u32;
    let k0 = kv_tile(KV_P0 as int);
    let k1 = kv_tile(KV_P1 as int);
    let m5 = then_write(s4, c[0], a0, k0, m, m4, t);
    if t.tiles % 2 == 0 {
        let a1 = (part_at(j) + 48 * (2 * n - 1)) as u32;
        let m6 = then_write(s4.push(c[0]), c[1], a1, k1, m, m5, t);
        assert(mlp_part(l, j, t.tiles) =~= s4.push(c[0]).push(c[1]));
        assert forall|x: int| part_at(j) <= x < part_at(j) + 48 * t.tiles implies #[trigger] (
        m6.disk)(x) == (Piece { what: Datum::Output(fc2(l, j)), at: x - part_at(j) }) by {
            assert((m5.disk)(x) == (m5.disk)(x));
        }
        m6
    } else {
        assert(mlp_part(l, j, t.tiles) =~= s4.push(c[0]));
        m5
    }
}

/// The sums of the first `n` quarters.
spec fn quarters_done(m: Store, l: int, n: int, tiles: int) -> bool {
    forall|b: int|
        #![trigger (m.disk)(b)]
        S_P <= b < S_P + 480 * n && (b - S_P) % 480 < 48 * tiles ==> (m.disk)(b) == (Piece {
            what: Datum::Output(fc2(l, (b - S_P) / 480)),
            at: (b - S_P) % 480,
        })
}

proof fn lemma_quarters(l: int, n: int, m: Store, t: Task) -> (e: Store)
    requires
        1 <= t.tiles <= 10,
        0 <= l < 4,
        0 <= n <= 4,
        on_disk(m, S_LN as int, Datum::Normed { l, done: 1 }, 48 * t.tiles),
    ensures
        computed(mlp_steps(l, n, t.tiles), m, t) == Some(e),
        quarters_done(e, l, n, t.tiles),
        only(m, e, S_P as int, S_P + 1920),
    decreases n,
{
    if n == 0 {
        lemma_none(m, t);
        m
    } else {
        let e = lemma_quarters(l, n - 1, m, t);
        assert(on_disk(e, S_LN as int, Datum::Normed { l, done: 1 }, 48 * t.tiles));
        let f = lemma_quarter(l, n - 1, e, t);
        lemma_after(mlp_steps(l, n - 1, t.tiles), mlp_part(l, n - 1, t.tiles), m, e, t);
        assert forall|b: int|
            #![trigger (f.disk)(b)]
            S_P <= b < S_P + 480 * n && (b - S_P) % 480 < 48 * t.tiles implies (f.disk)(b) == (
        Piece { what: Datum::Output(fc2(l, (b - S_P) / 480)), at: (b - S_P) % 480 }) by {
            if b >= part_at(n - 1) {
                assert((b - S_P) / 480 == n - 1);
            } else {
                assert((f.disk)(b) == (e.disk)(b));
            }
        }
        f
    }
}

/// The first `n` parts of chunk `ci` follow one another in memory.
spec fn parts_in(m: Store, l: int, ci: int, n: int) -> bool {
    forall|u: int|
        32 <= u < 32 + 16 * n ==> #[trigger] (m.ram)(Mem::Ram, u) == (Piece {
            what: Datum::Output(fc2(l, (u - 32) / 16)),
            at: 16 * ci + (u - 32) % 16,
        })
}

proof fn lemma_part_reads(
    steps: Seq<Step>,
    l: int,
    ci: int,
    n: int,
    m: Store,
    e: Store,
    t: Task,
) -> (f: Store)
    requires
        computed(steps, m, t) == Some(e),
        1 <= t.tiles <= 10,
        0 <= ci < 3 * t.tiles,
        0 <= n <= 4,
        quarters_done(e, l, 4, t.tiles),
    ensures
        computed(steps + part_reads(ci, n), m, t) == Some(f),
        f.disk == e.disk,
        forall|u: int| u < 32 ==> #[trigger] (f.ram)(Mem::Ram, u) == (e.ram)(Mem::Ram, u),
        parts_in(f, l, ci, n),
    decreases n,
{
    if n == 0 {
        assert(steps + part_reads(ci, n) =~= steps);
        e
    } else {
        let j = n - 1;
        let f = lemma_part_reads(steps, l, ci, j, m, e, t);
        let s = steps + part_reads(ci, j);
        let at = (part_at(j) + 16 * ci) as u32;
        let dst = arena_buf(A_IN + 16384 + 8192 * j, 8192);
        let g = then_read(s, Step::Read { at, dst }, at, dst, m, f, t);
        assert(steps + part_reads(ci, n) =~= s.push(Step::Read { at, dst }));
        assert forall|u: int| 32 <= u < 32 + 16 * n implies #[trigger] (g.ram)(Mem::Ram, u) == (
        Piece { what: Datum::Output(fc2(l, (u - 32) / 16)), at: 16 * ci + (u - 32) % 16 }) by {
            if u >= 32 + 16 * j {
                let o = 480 * j + 16 * ci + u - 32 - 16 * j;
                assert((f.disk)(S_P + o) == (g.ram)(Mem::Ram, u));
                assert(o / 480 == j);
                assert((u - 32) / 16 == j);
            } else {
                assert((g.ram)(Mem::Ram, u) == (f.ram)(Mem::Ram, u));
            }
        }
        g
    }
}

proof fn lemma_sum_chunk(l: int, ci: int, m: Store, t: Task) -> (e: Store)
    requires
        1 <= t.tiles <= 10,
        0 <= ci < 3 * t.tiles,
        0 <= l < 4,
        quarters_done(m, l, 4, t.tiles),
        summed(m, l, 32 * ci, t.tiles),
    ensures
        computed(sum_chunk(ci, t.plan.enc[l]), m, t) == Some(e),
        summed(e, l, 32 * (ci + 1), t.tiles),
        only(m, e, S_X as int, S_X + 960),
{
    let q = t.plan.enc[l];
    let acc = arena_buf(A_IN as int, 16384);
    let parts = arena_buf(A_IN + 16384, 32768);
    let at = (S_X + 32 * ci) as u32;
    let read = Step::Read { at, dst: acc };
    let s0 = Seq::<Step>::empty();
    lemma_none(m, t);
    let m1 = then_read(s0, read, at, acc, m, m, t);
    let s1 = s0.push(read);
    assert(quarters_done(m1, l, 4, t.tiles));
    let m2 = lemma_part_reads(s1, l, ci, 4, m, m1, t);
    let s2 = s1 + part_reads(ci, 4);
    assert forall|u: int| 0 <= u < 32 implies #[trigger] (m2.ram)(Mem::Ram, u) == (Piece {
        what: Datum::Residual { l, done: 1 },
        at: 32 * ci + u,
    }) by {
        assert((m1.ram)(Mem::Ram, u) == (m.disk)(at + u));
    }
    let m3 = then_sum(s2, acc, parts, l, 32 * ci, m, m2, t);
    let sum = Step::Sum4 { acc, parts, pq: q.fc2p_out, qa: q.res1, qd: q.res2 };
    let s3 = s2.push(sum);
    let write = Step::Write { at, src: acc };
    let m4 = then_write(s3, write, at, acc, m, m3, t);
    assert(sum_chunk(ci, q) =~= s3.push(write));
    m4
}

proof fn lemma_sums(l: int, n: int, m: Store, t: Task) -> (e: Store)
    requires
        1 <= t.tiles <= 10,
        0 <= n <= 3 * t.tiles,
        0 <= l < 4,
        quarters_done(m, l, 4, t.tiles),
        summed(m, l, 0, t.tiles),
    ensures
        computed(sum_steps(n, t.plan.enc[l]), m, t) == Some(e),
        summed(e, l, 32 * n, t.tiles),
        only(m, e, S_X as int, S_X + 960),
    decreases n,
{
    if n == 0 {
        lemma_none(m, t);
        m
    } else {
        let e = lemma_sums(l, n - 1, m, t);
        assert(quarters_done(e, l, 4, t.tiles));
        let f = lemma_sum_chunk(l, n - 1, e, t);
        lemma_after(sum_steps(n - 1, t.plan.enc[l]), sum_chunk(n - 1, t.plan.enc[l]), m, e, t);
        f
    }
}

// --- blocks -------------------------------------------------------------------------------

/// The residual before half `done` of block `l`.
spec fn at_half(m: Store, l: int, done: int, tiles: int) -> bool {
    on_disk(m, S_X as int, Datum::Residual { l, done }, 96 * tiles)
}

proof fn lemma_project(l: int, m: Store, t: Task) -> (e: Store)
    requires
        1 <= t.tiles <= 10,
        0 <= l < 4,
        at_half(m, l, 0, t.tiles),
    ensures
        computed(
            project_steps(l, t.tiles, residual_scale(t.plan, l, 0), t.plan.enc[l]),
            m,
            t,
        ) == Some(e),
        at_half(e, l, 0, t.tiles),
        projected(e, l, t.tiles),
{
    let sq = residual_scale(t.plan, l, 0);
    let q = t.plan.enc[l];
    let s0 = Seq::<Step>::empty();
    lemma_none(m, t);
    let c0 = Step::Crumb((0x520 + 0x10 * l) as u32);
    then_idle(s0, c0, m, m, t);
    let s1 = s0.push(c0);
    let a = norm_steps(Asset::EncLn1(l as usize), t.tiles, S_LN as int, sq, q.ln1);
    let m1 = lemma_norms(S_LN as int, l, 0, m, t);
    lemma_after(s1, a, m, m, t);
    let c1 = Step::Crumb((0x521 + 0x10 * l) as u32);
    then_idle(s1 + a, c1, m, m1, t);
    let s2 = (s1 + a).push(c1);
    let m2 = lemma_proj(q_blob(l), S_QH as int, l, m1, t);
    let b = proj_steps(q_blob(l), S_QH as int, t.tiles);
    lemma_after(s2, b, m, m1, t);
    assert(on_disk(m2, S_LN as int, Datum::Normed { l, done: 0 }, 48 * t.tiles));
    let m3 = lemma_proj(k_blob(l), S_KH as int, l, m2, t);
    let c = proj_steps(k_blob(l), S_KH as int, t.tiles);
    lemma_after(s2 + b, c, m, m2, t);
    assert(on_disk(m3, S_LN as int, Datum::Normed { l, done: 0 }, 48 * t.tiles));
    let m4 = lemma_proj(v_blob(l), S_VH as int, l, m3, t);
    let d = proj_steps(v_blob(l), S_VH as int, t.tiles);
    lemma_after(s2 + b + c, d, m, m3, t);
    assert(project_steps(l, t.tiles, sq, q) =~= s2 + b + c + d);
    assert(heads_have(m3, S_QH as int, Datum::Output(q_blob(l)), t.tiles, 0));
    m4
}

proof fn lemma_attend_half(l: int, m: Store, t: Task) -> (e: Store)
    requires
        1 <= t.tiles <= 10,
        0 <= t.tk <= usize::MAX,
        0 <= l < 4,
        at_half(m, l, 0, t.tiles),
        projected(m, l, t.tiles),
    ensures
        computed(
            attend_steps(l, t.tiles, t.tk, residual_scale(t.plan, l, 0), t.plan.enc[l]),
            m,
            t,
        ) == Some(e),
        at_half(e, l, 1, t.tiles),
{
    let sq = residual_scale(t.plan, l, 0);
    let q = t.plan.enc[l];
    let s0 = Seq::<Step>::empty();
    lemma_none(m, t);
    let c0 = Step::Crumb((0x524 + 0x10 * l) as u32);
    then_idle(s0, c0, m, m, t);
    let s1 = s0.push(c0);
    let m1 = lemma_attention(l, m, t);
    let a = attention_steps(t.tiles, t.tk, q);
    lemma_after(s1, a, m, m, t);
    let c1 = Step::Crumb((0x525 + 0x10 * l) as u32);
    then_idle(s1 + a, c1, m, m1, t);
    let s2 = (s1 + a).push(c1);
    let m2 = lemma_out(l, t.tiles, m1, t);
    let b = out_steps(out_blob(l), t.tiles);
    lemma_after(s2, b, m, m1, t);
    let c2 = Step::Crumb((0x526 + 0x10 * l) as u32);
    then_idle(s2 + b, c2, m, m2, t);
    let s3 = (s2 + b).push(c2);
    assert(attended(m2, l, 0, t.tiles)) by {
        assert(at_half(m1, l, 0, t.tiles));
        assert(at_half(m2, l, 0, t.tiles));
    }
    let m3 = lemma_add(2 * t.tiles, l, m2, t);
    let c = add_steps(2 * t.tiles, S_O as int, sq, q.out_out, q.res1);
    lemma_after(s3, c, m, m2, t);
    assert(attend_steps(l, t.tiles, t.tk, sq, q) =~= s3 + c);
    m3
}

proof fn lemma_mlp_half(l: int, m: Store, t: Task) -> (e: Store)
    requires
        1 <= t.tiles <= 10,
        0 <= l < 4,
        at_half(m, l, 1, t.tiles),
    ensures
        computed(mlp_half(l, t.tiles, t.plan.enc[l]), m, t) == Some(e),
        at_half(e, l + 1, 0, t.tiles),
{
    let q = t.plan.enc[l];
    let s0 = Seq::<Step>::empty();
    lemma_none(m, t);
    let c0 = Step::Crumb((0x527 + 0x10 * l) as u32);
    then_idle(s0, c0, m, m, t);
    let s1 = s0.push(c0);
    let a = norm_steps(Asset::EncLn2(l as usize), t.tiles, S_LN as int, q.res1, q.ln2);
    let m1 = lemma_norms(S_LN as int, l, 1, m, t);
    lemma_after(s1, a, m, m, t);
    let m2 = lemma_quarters(l, 4, m1, t);
    let b = mlp_steps(l, 4, t.tiles);
    lemma_after(s1 + a, b, m, m1, t);
    let c1 = Step::Crumb((0x528 + 0x10 * l) as u32);
    then_idle(s1 + a + b, c1, m, m2, t);
    let s2 = (s1 + a + b).push(c1);
    assert(summed(m2, l, 0, t.tiles)) by {
        assert(at_half(m1, l, 1, t.tiles));
        assert(at_half(m2, l, 1, t.tiles));
    }
    let m3 = lemma_sums(l, 3 * t.tiles, m2, t);
    let c = sum_steps(3 * t.tiles, q);
    lemma_after(s2, c, m, m2, t);
    assert(mlp_half(l, t.tiles, q) =~= s2 + c);
    m3
}

proof fn lemma_blocks(n: int, m: Store, t: Task) -> (e: Store)
    requires
        1 <= t.tiles <= 10,
        0 <= t.tk <= usize::MAX,
        0 <= n <= 4,
        at_half(m, 0, 0, t.tiles),
    ensures
        computed(block_steps(t.plan, n, t.tiles, t.tk), m, t) == Some(e),
        at_half(e, n, 0, t.tiles),
    decreases n,
{
    if n == 0 {
        lemma_none(m, t);
        m
    } else {
        let l = n - 1;
        let q = t.plan.enc[l];
        let sq = residual_scale(t.plan, l, 0);
        assert(residual_quant(t.plan, l) == sq);
        let e = lemma_blocks(l, m, t);
        let m1 = lemma_project(l, e, t);
        let m2 = lemma_attend_half(l, m1, t);
        let m3 = lemma_mlp_half(l, m2, t);
        let p = block_steps(t.plan, l, t.tiles, t.tk);
        let a = project_steps(l, t.tiles, sq, q);
        let b = attend_steps(l, t.tiles, t.tk, sq, q);
        let c = mlp_half(l, t.tiles, q);
        lemma_after(a, b, e, m1, t);
        lemma_after(p, a + b, m, e, t);
        lemma_after(p + (a + b), c, m, m2, t);
        m3
    }
}

proof fn lemma_front(m: Store, t: Task) -> (e: Store)
    requires
        1 <= t.tiles <= 10,
        on_disk(m, S_MEL as int, Datum::Mel, 20 * t.tiles),
    ensures
        computed(front_steps(t.plan, t.tiles), m, t) == Some(e),
        at_half(e, 0, 0, t.tiles),
{
    let n = t.tiles;
    let dst = arena_buf(A_LUT as int, 512);
    let s0 = Seq::<Step>::empty();
    lemma_none(m, t);
    then_idle(s0, Step::Crumb(0x511), m, m, t);
    let s1 = s0.push(Step::Crumb(0x511));
    let m1 = then_asset(s1, Asset::Gelu1, dst, m, m, t);
    let s2 = s1.push(Step::Asset { what: Asset::Gelu1, dst });
    let m2 = lemma_conv1(2 * n, m1, t);
    let a = conv1_steps(2 * n, 2 * n, t.plan.conv1_in);
    lemma_after(s2, a, m, m1, t);
    then_idle(s2 + a, Step::Crumb(0x512), m, m2, t);
    let s3 = (s2 + a).push(Step::Crumb(0x512));
    let m3 = lemma_conv2(3, m2, t);
    let b = conv2_steps(3, n, t.plan.conv2_in);
    lemma_after(s3, b, m, m2, t);
    then_idle(s3 + b, Step::Crumb(0x513), m, m3, t);
    let s4 = (s3 + b).push(Step::Crumb(0x513));
    let m4 = lemma_pos(3 * n, m3, t);
    let c = pos_steps(3 * n, t.plan.gelu2, t.plan.enc_x);
    lemma_after(s4, c, m, m3, t);
    assert(front_steps(t.plan, n) =~= s4 + c);
    m4
}

/// The encoder's script puts the utterance through the encoder: both
/// convolutions over every tile with its neighbours, the positions, in each
/// block attention of its own queries over its own keys and values of the
/// same head, and the four quarters of its MLP, each added to the residual
/// before the next begins, and the last layer norm, all under the
/// quantisations that the plan gives.
pub proof fn law_an_utterance_goes_through_the_encoder(plan: Plan, tiles: int, tk: int)
    requires
        1 <= tiles <= 10,
        0 <= tk <= usize::MAX,
    ensures
        encodes(encoder_steps(plan, tiles, tk), Task { plan, tiles, tk }),
{
    let t = Task { plan, tiles, tk };
    let steps = encoder_steps(plan, tiles, tk);
    assert forall|m: Store| on_disk(m, 1600, Datum::Mel, 20 * t.tiles) implies {
        let end = #[trigger] computed(steps, m, t);
        &&& end is Some
        &&& on_disk(end->0, 8960, Datum::Normed { l: 4, done: 0 }, 48 * t.tiles)
    } by {
        let m1 = lemma_front(m, t);
        let m2 = lemma_blocks(4, m1, t);
        let a = front_steps(plan, tiles);
        let b = block_steps(plan, 4, tiles, tk);
        lemma_after(a, b, m, m1, t);
        then_idle(a + b, Step::Crumb(0x570), m, m2, t);
        let s = (a + b).push(Step::Crumb(0x570));
        let c = norm_steps(
            Asset::LnPost,
            tiles,
            S_EO as int,
            residual_quant(plan, 4),
            plan.enc_out,
        );
        let m3 = lemma_norms(S_EO as int, 4, 0, m2, t);
        lemma_after(s, c, m, m2, t);
        assert(steps =~= s + c);
    }
}

} // verus!
