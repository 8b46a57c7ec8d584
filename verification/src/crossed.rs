//! The cross-attention phase's script computes the decoder's keys and values.

use crate::cross::{
    cross_blocks, cross_input, cross_keys, cross_out, cross_part, cross_src, cross_steps,
    cross_tile, cross_tiles, xkv_region,
};
use crate::encoded::{heads_have, lemma_head_writes};
use crate::encoder::{head_writes, proj_in};
use crate::image::Kind;
use crate::layout::{Mem, S_EO};
use crate::plan::Plan;
use crate::script::{Blob, Step};
use crate::utterance::{
    computed, cross_datum, cross_done, has, leaves, lemma_after, lemma_none, lo, on_disk, only,
    projects_for_decoding, put, sound, then_idle, then_load, then_put, then_read, then_run, with,
    Datum, Piece, Store, Task,
};
use vstd::prelude::*;

verus! {

spec fn x_blob(l: int, which: int) -> Blob {
    Blob::Dec(
        l as usize,
        if which == 0 {
            Kind::Xk
        } else {
            Kind::Xv
        },
        0,
    )
}

/// The encoder's output is in its region.
spec fn encoded(m: Store, tiles: int) -> bool {
    on_disk(m, S_EO as int, Datum::Normed { l: 4, done: 0 }, 48 * tiles)
}

proof fn lemma_input(steps: Seq<Step>, i: int, m: Store, e: Store, t: Task) -> (f: Store)
    requires
        computed(steps, m, t) == Some(e),
        1 <= t.tiles <= 10,
        0 <= i < t.tiles,
        encoded(e, t.tiles),
    ensures
        computed(steps + cross_input(i, t.plan.enc_out, t.plan.xk_in), m, t) == Some(f),
        f.disk == e.disk,
        f.loaded == e.loaded,
        has(f, proj_in(i), Datum::CrossInput, 48 * i),
        forall|k: Mem, u: int|
            #![trigger (f.ram)(k, u)]
            k != Mem::Ram ==> (f.ram)(k, u) == (e.ram)(k, u),
{
    let c = cross_input(i, t.plan.enc_out, t.plan.xk_in);
    let b = proj_in(i);
    let m1 = then_read(steps, c[0], (S_EO + 48 * i) as u32, b, m, e, t);
    let s1 = steps.push(c[0]);
    assert(has(m1, b, Datum::Normed { l: 4, done: 0 }, 48 * i));
    assert((m1.ram)(b.mem, lo(b)).at == 48 * i);
    assert(sound(c[1], m1, t) && leaves(c[1], m1, t) == with(
        m1,
        b,
        Datum::CrossInput,
        48 * i,
    )) by {
        reveal(sound);
        reveal(leaves);
    }
    let m2 = then_put(s1, c[1], b, Datum::CrossInput, 48 * i, m, m1, t);
    assert(steps + c =~= s1.push(c[1]));
    m2
}

proof fn lemma_transpose(steps: Seq<Step>, l: int, i: int, m: Store, e: Store, t: Task) -> (f: Store)
    requires
        computed(steps, m, t) == Some(e),
        0 <= l < 4,
        0 <= i < 10,
        has(e, cross_out(i), Datum::Output(x_blob(l, 0)), 48 * i),
    ensures
        computed(
            steps.push(Step::Transpose { src: cross_out(i), dst: cross_keys(i) }),
            m,
            t,
        ) == Some(f),
        put(e, f, cross_keys(i), Datum::KeyMajor { l }, 48 * i),
{
    let src = cross_out(i);
    let s = Step::Transpose { src, dst: cross_keys(i) };
    assert((e.ram)(src.mem, lo(src)) == (Piece {
        what: Datum::Output(x_blob(l, 0)),
        at: 48 * i,
    }));
    assert(sound(s, e, t) && leaves(s, e, t) == with(
        e,
        cross_keys(i),
        Datum::KeyMajor { l },
        48 * i,
    )) by {
        reveal(sound);
        reveal(leaves);
    }
    then_put(steps, s, cross_keys(i), Datum::KeyMajor { l }, 48 * i, m, e, t)
}

/// Before tile `i` of the keys or the values of block `l`.
spec fn at_tile(m: Store, l: int, which: int, i: int, tiles: int) -> bool {
    &&& m.loaded == Some(x_blob(l, which))
    &&& encoded(m, tiles)
    &&& i < tiles ==> has(m, proj_in(i), Datum::CrossInput, 48 * i)
    &&& heads_have(m, xkv_region(l, which), cross_datum(l, which), i, 0)
}

proof fn lemma_tile(l: int, which: int, i: int, m: Store, t: Task) -> (e: Store)
    requires
        1 <= t.tiles <= 10,
        0 <= l < 4,
        0 <= which < 2,
        0 <= i < t.tiles,
        at_tile(m, l, which, i, t.tiles),
    ensures
        computed(
            cross_tile(
                x_blob(l, which),
                which,
                xkv_region(l, which),
                t.tiles,
                i,
                t.plan.enc_out,
                t.plan.xk_in,
            ),
            m,
            t,
        ) == Some(e),
        at_tile(e, l, which, i + 1, t.tiles),
        only(m, e, xkv_region(l, which), xkv_region(l, which) + 480),
{
    let blob = x_blob(l, which);
    let region = xkv_region(l, which);
    let from = t.plan.enc_out;
    let to = t.plan.xk_in;
    let out = cross_out(i);
    let s0 = Seq::<Step>::empty();
    lemma_none(m, t);
    let run = Step::Run { blob, input: proj_in(i), output: out, pumped: true };
    let m1 = then_run(s0, blob, proj_in(i), out, true, 48 * i, m, m, t);
    let s1 = s0.push(run);
    then_idle(s1, Step::Drain, m, m1, t);
    let s2 = s1.push(Step::Drain);
    let (s3, m3) = if i + 1 < t.tiles {
        (s2 + cross_input(i + 1, from, to), lemma_input(s2, i + 1, m, m1, t))
    } else {
        (s2, m1)
    };
    assert(has(m3, out, Datum::Output(blob), 48 * i));
    let tr = Step::Transpose { src: out, dst: cross_keys(i) };
    let (s4, m4) = if which == 0 {
        (s3.push(tr), lemma_transpose(s3, l, i, m, m3, t))
    } else {
        (s3, m3)
    };
    let src = cross_src(which, i);
    let what = cross_datum(l, which);
    assert(has(m4, src, what, 48 * i));
    assert(m4.disk == m.disk);
    assert(heads_have(m4, region, what, i, 0));
    let m5 = lemma_head_writes(region, i, src, what, 6, m4, t);
    let w = head_writes(region, i, src, 6);
    lemma_after(s4, w, m, m4, t);
    then_idle(s4 + w, Step::Pump, m, m5, t);
    assert(cross_tile(blob, which, region, t.tiles, i, from, to) =~= (s4 + w).push(Step::Pump));
    assert(heads_have(m5, region, what, i + 1, 0));
    if i + 1 < t.tiles {
        assert(has(m4, proj_in(i + 1), Datum::CrossInput, 48 * (i + 1)));
    }
    m5
}

proof fn lemma_tiles(l: int, which: int, n: int, m: Store, t: Task) -> (e: Store)
    requires
        1 <= t.tiles <= 10,
        0 <= l < 4,
        0 <= which < 2,
        0 <= n <= t.tiles,
        at_tile(m, l, which, 0, t.tiles),
    ensures
        computed(
            cross_tiles(
                x_blob(l, which),
                which,
                xkv_region(l, which),
                t.tiles,
                n,
                t.plan.enc_out,
                t.plan.xk_in,
            ),
            m,
            t,
        ) == Some(e),
        at_tile(e, l, which, n, t.tiles),
        only(m, e, xkv_region(l, which), xkv_region(l, which) + 480),
    decreases n,
{
    if n == 0 {
        lemma_none(m, t);
        m
    } else {
        let e = lemma_tiles(l, which, n - 1, m, t);
        let f = lemma_tile(l, which, n - 1, e, t);
        let blob = x_blob(l, which);
        let region = xkv_region(l, which);
        let a = t.plan.enc_out;
        let b = t.plan.xk_in;
        lemma_after(
            cross_tiles(blob, which, region, t.tiles, n - 1, a, b),
            cross_tile(blob, which, region, t.tiles, n - 1, a, b),
            m,
            e,
            t,
        );
        f
    }
}

/// The head blocks of a region, told by head and block.
proof fn lemma_done(l: int, which: int, m: Store, tiles: int)
    requires
        1 <= tiles <= 10,
        0 <= l < 4,
        0 <= which < 2,
        heads_have(m, xkv_region(l, which), cross_datum(l, which), tiles, 0),
    ensures
        cross_done(m, l, which, tiles),
{
    let region = xkv_region(l, which);
    assert forall|h: int, k: int|
        #![trigger (m.disk)(9472 + 960 * l + 480 * which + 80 * h + k)]
        0 <= h < 6 && 0 <= k < 8 * tiles implies (m.disk)(
        9472 + 960 * l + 480 * which + 80 * h + k,
    ) == (Piece { what: cross_datum(l, which), at: 48 * (k / 8) + 8 * h + k % 8 }) by {
        let b = 9472 + 960 * l + 480 * which + 80 * h + k;
        let o = 80 * h + k;
        assert(b == region + o);
        assert(o / 80 == h && o % 80 == k);
    }
}

proof fn lemma_part(l: int, which: int, m: Store, t: Task) -> (e: Store)
    requires
        1 <= t.tiles <= 10,
        0 <= l < 4,
        0 <= which < 2,
        encoded(m, t.tiles),
    ensures
        computed(
            cross_part(
                x_blob(l, which),
                which,
                xkv_region(l, which),
                t.tiles,
                t.plan.enc_out,
                t.plan.xk_in,
            ),
            m,
            t,
        ) == Some(e),
        encoded(e, t.tiles),
        cross_done(e, l, which, t.tiles),
        only(m, e, xkv_region(l, which), xkv_region(l, which) + 480),
{
    let blob = x_blob(l, which);
    let region = xkv_region(l, which);
    let a = t.plan.enc_out;
    let b = t.plan.xk_in;
    let s0 = Seq::<Step>::empty();
    lemma_none(m, t);
    let m1 = then_load(s0, blob, m, m, t);
    let s1 = s0.push(Step::Load(blob));
    assert(encoded(m1, t.tiles)) by {
        assert(m1.disk == m.disk);
    }
    let m2 = lemma_input(s1, 0, m, m1, t);
    let s2 = s1 + cross_input(0, a, b);
    let m3 = lemma_tiles(l, which, t.tiles, m2, t);
    let c = cross_tiles(blob, which, region, t.tiles, t.tiles, a, b);
    lemma_after(s2, c, m, m2, t);
    then_idle(s2 + c, Step::Drain, m, m3, t);
    assert(cross_part(blob, which, region, t.tiles, a, b) =~= (s2 + c).push(Step::Drain));
    lemma_done(l, which, m3, t.tiles);
    m3
}

/// What one part leaves, another does not touch.
proof fn lemma_done_stays(l: int, which: int, m: Store, e: Store, from: int, tiles: int)
    requires
        1 <= tiles <= 10,
        0 <= l < 4,
        0 <= which < 2,
        cross_done(m, l, which, tiles),
        only(m, e, from, from + 480),
        xkv_region(l, which) + 480 <= from,
    ensures
        cross_done(e, l, which, tiles),
{
    assert forall|h: int, k: int|
        #![trigger (e.disk)(9472 + 960 * l + 480 * which + 80 * h + k)]
        0 <= h < 6 && 0 <= k < 8 * tiles implies (e.disk)(
        9472 + 960 * l + 480 * which + 80 * h + k,
    ) == (Piece { what: cross_datum(l, which), at: 48 * (k / 8) + 8 * h + k % 8 }) by {
        let b = 9472 + 960 * l + 480 * which + 80 * h + k;
        assert((e.disk)(b) == (m.disk)(b));
        assert((m.disk)(9472 + 960 * l + 480 * which + 80 * h + k) == (Piece {
            what: cross_datum(l, which),
            at: 48 * (k / 8) + 8 * h + k % 8,
        }));
    }
}

/// The keys and values of the first `n` blocks.
spec fn blocks_done(m: Store, n: int, tiles: int) -> bool {
    forall|l: int, which: int|
        0 <= l < n && 0 <= which < 2 ==> #[trigger] cross_done(m, l, which, tiles)
}

proof fn lemma_blocks(n: int, m: Store, t: Task) -> (e: Store)
    requires
        1 <= t.tiles <= 10,
        0 <= n <= 4,
        encoded(m, t.tiles),
    ensures
        computed(cross_blocks(n, t.tiles, t.plan.enc_out, t.plan.xk_in), m, t) == Some(e),
        encoded(e, t.tiles),
        blocks_done(e, n, t.tiles),
    decreases n,
{
    if n == 0 {
        lemma_none(m, t);
        m
    } else {
        let l = n - 1;
        let a = t.plan.enc_out;
        let b = t.plan.xk_in;
        let e = lemma_blocks(l, m, t);
        let f = lemma_part(l, 0, e, t);
        let g = lemma_part(l, 1, f, t);
        let p = cross_blocks(l, t.tiles, a, b);
        let c = cross_part(x_blob(l, 0), 0, xkv_region(l, 0), t.tiles, a, b);
        let d = cross_part(x_blob(l, 1), 1, xkv_region(l, 1), t.tiles, a, b);
        lemma_after(p, c, m, e, t);
        lemma_after(p + c, d, m, f, t);
        assert forall|k: int, which: int| 0 <= k < n && 0 <= which < 2 implies #[trigger] cross_done(
            g,
            k,
            which,
            t.tiles,
        ) by {
            if k < l {
                assert(cross_done(e, k, which, t.tiles));
                lemma_done_stays(k, which, e, f, xkv_region(l, 0), t.tiles);
                lemma_done_stays(k, which, f, g, xkv_region(l, 1), t.tiles);
            } else if which == 0 {
                lemma_done_stays(k, which, f, g, xkv_region(l, 1), t.tiles);
            }
        }
        g
    }
}

/// The cross-attention phase projects the encoder's output for every decoder
/// block: requantised for the projections, keys through the keys' blob and
/// turned key-major, values through the values' blob, each head by head where
/// decoding reads that block's and that head's.
pub proof fn law_the_output_is_projected_for_decoding(plan: Plan, tiles: int, tk: int)
    requires
        1 <= tiles <= 10,
    ensures
        projects_for_decoding(cross_steps(plan, tiles), Task { plan, tiles, tk }),
{
    let t = Task { plan, tiles, tk };
    let steps = cross_steps(plan, tiles);
    assert forall|m: Store|
        on_disk(m, 8960, Datum::Normed { l: 4, done: 0 }, 48 * t.tiles) implies {
        let end = #[trigger] computed(steps, m, t);
        &&& end is Some
        &&& forall|l: int, which: int|
            0 <= l < 4 && 0 <= which < 2 ==> #[trigger] cross_done(end->0, l, which, t.tiles)
    } by {
        lemma_none(m, t);
        let s0 = Seq::<Step>::empty();
        then_idle(s0, Step::Crumb(0x571), m, m, t);
        let e = lemma_blocks(4, m, t);
        let b = cross_blocks(4, tiles, plan.enc_out, plan.xk_in);
        lemma_after(s0.push(Step::Crumb(0x571)), b, m, m, t);
        assert(steps =~= s0.push(Step::Crumb(0x571)) + b);
    }
}

} // verus!
