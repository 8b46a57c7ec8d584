//! Cross-attention keys and values: every decoder block's projections of the
//! encoder output, written once per utterance.

use crate::crossed::law_the_output_is_projected_for_decoding;
use crate::encoder::{
    head_at, head_writes, heads_known, kv_tile, mel_known, proj_in, push_heads, writes_from,
};
use crate::image::Kind;
use crate::kernels::Quant;
use crate::layout::{
    arena, kvscratch, Buf, A_IN, KV_XO0, KV_XO1, KV_XT0, KV_XT1, S_EO, S_END, S_XKV, TILE8,
};
use crate::plan::Plan;
use crate::script::{
    covers, flow_from, flow_of, law_more_data_does_no_harm, law_scripts_follow_one_another,
    runs_clean, Blob, Script, Step,
};
use crate::utterance::{projects_for_decoding, Task};
use vstd::prelude::*;

verus! {

/// First block of the keys (`which` 0) or values (1) of block `l`.
pub open spec fn xkv_region(l: int, which: int) -> int {
    S_XKV + 480 * (2 * l + which)
}

/// Outputs alternate in the idle cache, with the transposed keys behind.
pub open spec fn cross_out(i: int) -> Buf {
    kv_tile(if i % 2 == 0 {
        KV_XO0 as int
    } else {
        KV_XO1 as int
    })
}

pub open spec fn cross_keys(i: int) -> Buf {
    kv_tile(if i % 2 == 0 {
        KV_XT0 as int
    } else {
        KV_XT1 as int
    })
}

/// What goes out: keys key-major, values as they come.
pub open spec fn cross_src(which: int, i: int) -> Buf {
    if which == 0 {
        cross_keys(i)
    } else {
        cross_out(i)
    }
}

/// An encoder output tile in the projections' own quantisation.
pub open spec fn cross_input(i: int, from: Quant, to: Quant) -> Seq<Step> {
    seq![
        Step::Read { at: (S_EO + 48 * i) as u32, dst: proj_in(i) },
        Step::Requant { buf: proj_in(i), from, to },
    ]
}

pub open spec fn cross_tile(
    blob: Blob,
    which: int,
    region: int,
    tiles: int,
    i: int,
    from: Quant,
    to: Quant,
) -> Seq<Step> {
    seq![
        Step::Run { blob, input: proj_in(i), output: cross_out(i), pumped: true },
        Step::Drain,
    ] + (if i + 1 < tiles {
        cross_input(i + 1, from, to)
    } else {
        Seq::empty()
    }) + (if which == 0 {
        seq![Step::Transpose { src: cross_out(i), dst: cross_keys(i) }]
    } else {
        Seq::empty()
    }) + head_writes(region, i, cross_src(which, i), 6) + seq![Step::Pump]
}

pub open spec fn cross_tiles(
    blob: Blob,
    which: int,
    region: int,
    tiles: int,
    n: int,
    from: Quant,
    to: Quant,
) -> Seq<Step>
    decreases n,
{
    if n <= 0 {
        Seq::empty()
    } else {
        cross_tiles(blob, which, region, tiles, n - 1, from, to) + cross_tile(
            blob,
            which,
            region,
            tiles,
            n - 1,
            from,
            to,
        )
    }
}

/// The keys or the values of one block.
pub open spec fn cross_part(
    blob: Blob,
    which: int,
    region: int,
    tiles: int,
    from: Quant,
    to: Quant,
) -> Seq<Step> {
    seq![Step::Load(blob)] + cross_input(0, from, to) + cross_tiles(
        blob,
        which,
        region,
        tiles,
        tiles,
        from,
        to,
    ) + seq![Step::Drain]
}

/// The first `n` blocks, keys then values.
pub open spec fn cross_blocks(n: int, tiles: int, from: Quant, to: Quant) -> Seq<Step>
    decreases n,
{
    if n <= 0 {
        Seq::empty()
    } else {
        let l = n - 1;
        cross_blocks(n - 1, tiles, from, to) + cross_part(
            Blob::Dec(l as usize, Kind::Xk, 0),
            0,
            xkv_region(l, 0),
            tiles,
            from,
            to,
        ) + cross_part(
            Blob::Dec(l as usize, Kind::Xv, 0),
            1,
            xkv_region(l, 1),
            tiles,
            from,
            to,
        )
    }
}

pub open spec fn cross_steps(plan: Plan, tiles: int) -> Seq<Step> {
    seq![Step::Crumb(0x571)] + cross_blocks(4, tiles, plan.enc_out, plan.xk_in)
}

/// Every head of every block has the keys and values of every tile.
pub open spec fn cross_known(known: Set<int>, n: int, tiles: int) -> bool {
    forall|l: int, which: int|
        0 <= l < n && 0 <= which <= 1 ==> heads_known(
            known,
            #[trigger] xkv_region(l, which),
            tiles,
        )
}

fn fetch_input(s: &mut Script, i: usize, tiles: usize, from: Quant, to: Quant)
    requires
        old(s).wf(),
        old(s).idle(),
        i < tiles <= 10,
        covers(old(s).flow@.known, S_EO as int, S_EO + 48 * tiles),
    ensures
        final(s).extends(*old(s), cross_input(i as int, from, to)),
        final(s).flow@ == old(s).flow@,
{
    let ghost start = *s;
    let x = if i % 2 == 0 {
        arena(A_IN, TILE8)
    } else {
        arena(A_IN + TILE8, TILE8)
    };
    s.emit(Step::Read { at: S_EO + 48 * (i as u32), dst: x });
    s.emit(Step::Requant { buf: x, from, to });
    assert(s.steps@ =~= start.steps@ + cross_input(i as int, from, to));
}

fn cross_one(
    s: &mut Script,
    blob: Blob,
    keys: bool,
    region: u32,
    tiles: usize,
    i: usize,
    from: Quant,
    to: Quant,
)
    requires
        old(s).wf(),
        i < tiles <= 10,
        region + 480 <= S_END,
        i == 0 ==> old(s).idle(),
        i > 0 ==> writes_from(
            old(s).flow@.queue,
            cross_src(if keys {
                0
            } else {
                1
            }, i - 1),
        ),
        covers(old(s).flow@.known, S_EO as int, S_EO + 48 * tiles),
        heads_known(old(s).flow@.known, region as int, i as int),
    ensures
        final(s).extends(
            *old(s),
            cross_tile(
                blob,
                if keys {
                    0
                } else {
                    1
                },
                region as int,
                tiles as int,
                i as int,
                from,
                to,
            ),
        ),
        writes_from(
            final(s).flow@.queue,
            cross_src(if keys {
                0
            } else {
                1
            }, i as int),
        ),
        heads_known(final(s).flow@.known, region as int, i + 1),
{
    let ghost start = *s;
    let ghost which: int = if keys {
        0
    } else {
        1
    };
    let even = i % 2 == 0;
    let input = if even {
        arena(A_IN, TILE8)
    } else {
        arena(A_IN + TILE8, TILE8)
    };
    let out = if even {
        kvscratch(KV_XO0, TILE8)
    } else {
        kvscratch(KV_XO1, TILE8)
    };
    assert(out == cross_out(i as int));
    assert(input == proj_in(i as int));
    s.emit(Step::Run { blob, input, output: out, pumped: true });
    s.emit(Step::Drain);
    let ghost a = seq![
        Step::Run {
            blob,
            input: proj_in(i as int),
            output: cross_out(i as int),
            pumped: true,
        },
        Step::Drain,
    ];
    assert(s.steps@ =~= start.steps@ + a);
    let ghost s1 = *s;
    if i + 1 < tiles {
        fetch_input(s, i + 1, tiles, from, to);
    }
    let ghost b = if i + 1 < tiles {
        cross_input(i + 1, from, to)
    } else {
        Seq::empty()
    };
    assert(s.steps@ =~= start.steps@ + (a + b));
    let mut src = out;
    if keys {
        let t = if even {
            kvscratch(KV_XT0, TILE8)
        } else {
            kvscratch(KV_XT1, TILE8)
        };
        s.emit(Step::Transpose { src: out, dst: t });
        src = t;
    }
    let ghost c = if which == 0 {
        seq![Step::Transpose { src: cross_out(i as int), dst: cross_keys(i as int) }]
    } else {
        Seq::empty()
    };
    assert(src == cross_src(which, i as int));
    assert(s.steps@ =~= start.steps@ + (a + b + c));
    assert(s.flow@.known == start.flow@.known);
    let ghost s2 = *s;
    push_heads(s, region, i, src);
    s.emit(Step::Pump);
    assert(s.steps@ =~= start.steps@ + cross_tile(
        blob,
        which,
        region as int,
        tiles as int,
        i as int,
        from,
        to,
    ));
}

fn cross_all_tiles(
    s: &mut Script,
    blob: Blob,
    keys: bool,
    region: u32,
    tiles: usize,
    from: Quant,
    to: Quant,
)
    requires
        old(s).wf(),
        old(s).idle(),
        1 <= tiles <= 10,
        region + 480 <= S_END,
        covers(old(s).flow@.known, S_EO as int, S_EO + 48 * tiles),
    ensures
        final(s).extends(
            *old(s),
            cross_part(
                blob,
                if keys {
                    0
                } else {
                    1
                },
                region as int,
                tiles as int,
                from,
                to,
            ),
        ),
        final(s).idle(),
        heads_known(final(s).flow@.known, region as int, tiles as int),
{
    let ghost start = *s;
    let ghost which: int = if keys {
        0
    } else {
        1
    };
    s.emit(Step::Load(blob));
    let ghost s1 = *s;
    fetch_input(s, 0, tiles, from, to);
    let ghost head = seq![Step::Load(blob)] + cross_input(0, from, to);
    assert(s.steps@ =~= start.steps@ + (head + cross_tiles(
        blob,
        which,
        region as int,
        tiles as int,
        0,
        from,
        to,
    )));
    let mut i: usize = 0;
    while i < tiles
        invariant
            i <= tiles <= 10,
            which == (if keys {
                0int
            } else {
                1
            }),
            region + 480 <= S_END,
            s.extends(
                start,
                head + cross_tiles(
                    blob,
                    which,
                    region as int,
                    tiles as int,
                    i as int,
                    from,
                    to,
                ),
            ),
            i == 0 ==> s.idle(),
            i > 0 ==> writes_from(s.flow@.queue, cross_src(which, i - 1)),
            covers(s.flow@.known, S_EO as int, S_EO + 48 * tiles),
            heads_known(s.flow@.known, region as int, i as int),
        decreases tiles - i,
    {
        let ghost before = *s;
        cross_one(s, blob, keys, region, tiles, i, from, to);
        assert(s.steps@ =~= start.steps@ + (head + cross_tiles(
            blob,
            which,
            region as int,
            tiles as int,
            i + 1,
            from,
            to,
        )));
        i = i + 1;
    }
    s.emit(Step::Drain);
    assert(s.steps@ =~= start.steps@ + cross_part(
        blob,
        which,
        region as int,
        tiles as int,
        from,
        to,
    ));
}

proof fn lemma_cross_stays(before: Script, now: Script, n: int, tiles: int)
    requires
        cross_known(before.flow@.known, n, tiles),
        forall|b: int|
            #![trigger now.flow@.known.contains(b)]
            before.flow@.known.contains(b) ==> now.flow@.known.contains(b),
    ensures
        cross_known(now.flow@.known, n, tiles),
{
    assert forall|l: int, which: int| 0 <= l < n && 0 <= which <= 1 implies heads_known(
        now.flow@.known,
        #[trigger] xkv_region(l, which),
        tiles,
    ) by {
        let r = xkv_region(l, which);
        assert(heads_known(before.flow@.known, r, tiles));
        assert forall|h: int| 0 <= h < 6 implies covers(
            now.flow@.known,
            #[trigger] head_at(r, h),
            head_at(r, h) + 8 * tiles,
        ) by {
            assert(covers(before.flow@.known, head_at(r, h), head_at(r, h) + 8 * tiles));
        }
    }
}

/// The encoder output tiles of an utterance.
pub open spec fn output_known(tiles: int) -> Set<int> {
    Set::new(|b: int| S_EO <= b < S_EO + 48 * tiles)
}

/// Where the script ends, if it is clean.
pub open spec fn cross_complete(steps: Seq<Step>, tiles: int) -> bool {
    match flow_of(steps, flow_from(output_known(tiles))) {
        None => false,
        Some(f) => f.queue.len() == 0 && cross_known(f.known, 4, tiles),
    }
}

/// Keys and values of all decoder blocks from the encoder output.
///
/// The encoder's output quantisation is not the projections': every tile is
/// requantised. Keys go out key-major, so that decoding widens them straight
/// into place. The script keeps the transfer discipline and leaves every
/// head block.
pub fn cross_kv(plan: &Plan, tiles: usize) -> (r: Vec<Step>)
    requires
        1 <= tiles <= 10,
    ensures
        r@ == cross_steps(*plan, tiles as int),
        cross_complete(r@, tiles as int),
        // each step finds what it is meant for, up to the last values
        forall|tk: int|
            #[trigger] projects_for_decoding(
                r@,
                (Task { plan: *plan, tiles: tiles as int, tk }),
            ),
{
    let from = plan.enc_out;
    let to = plan.xk_in;
    let mut script = Script::new(Ghost(output_known(tiles as int)));
    let ghost s0 = script;
    script.emit(Step::Crumb(0x571));
    let ghost head = seq![Step::Crumb(0x571)];
    assert(script.steps@ =~= head + cross_blocks(0, tiles as int, from, to));
    let mut l: usize = 0;
    while l < 4
        invariant
            l <= 4,
            1 <= tiles <= 10,
            script.wf(),
            script.idle(),
            script.start == s0.start,
            script.steps@ == head + cross_blocks(l as int, tiles as int, from, to),
            covers(script.flow@.known, S_EO as int, S_EO + 48 * tiles),
            cross_known(script.flow@.known, l as int, tiles as int),
        decreases 4 - l,
    {
        let ghost before = script;
        let region: u32 = S_XKV + 960 * (l as u32);
        cross_all_tiles(&mut script, Blob::Dec(l, Kind::Xk, 0), true, region, tiles, from, to);
        let ghost mid = script;
        cross_all_tiles(
            &mut script,
            Blob::Dec(l, Kind::Xv, 0),
            false,
            region + 480,
            tiles,
            from,
            to,
        );
        proof {
            assert(script.steps@ =~= head + cross_blocks(l + 1, tiles as int, from, to));
            lemma_cross_stays(before, script, l as int, tiles as int);
            let r = xkv_region(l as int, 0);
            assert(r == region);
            assert(xkv_region(l as int, 1) == region + 480);
            assert forall|h: int| 0 <= h < 6 implies covers(
                script.flow@.known,
                #[trigger] head_at(r, h),
                head_at(r, h) + 8 * tiles,
            ) by {
                assert(covers(mid.flow@.known, head_at(r, h), head_at(r, h) + 8 * tiles));
            }
            assert forall|k: int, which: int| 0 <= k < l + 1 && 0 <= which <= 1 implies heads_known(
                script.flow@.known,
                #[trigger] xkv_region(k, which),
                tiles as int,
            ) by {
                if k == l {
                    assert(which == 0 || which == 1);
                }
            }
        }
        l = l + 1;
    }
    proof {
        assert forall|tk: int|
            #[trigger] projects_for_decoding(
                script.steps@,
                Task { plan: *plan, tiles: tiles as int, tk },
            ) by {
            law_the_output_is_projected_for_decoding(*plan, tiles as int, tk);
        }
    }
    script.steps
}

/// The encoder leaves what the cross-attention phase reads: run one after
/// the other, from a scratch area that holds the mel tiles and nothing else,
/// the two scripts keep the transfer discipline and leave every head block
/// that decoding reads.
pub proof fn law_phases_hand_over(enc: Seq<Step>, cross: Seq<Step>, tiles: int)
    requires
        1 <= tiles <= 10,
        runs_clean(enc, mel_known(tiles), S_EO as int, S_EO + 48 * tiles),
        cross_complete(cross, tiles),
    ensures
        flow_of(enc + cross, flow_from(mel_known(tiles))) is Some,
        flow_of(enc + cross, flow_from(mel_known(tiles)))->0.queue.len() == 0,
        cross_known(flow_of(enc + cross, flow_from(mel_known(tiles)))->0.known, 4, tiles),
{
    let start = flow_from(mel_known(tiles));
    let mid = flow_of(enc, start)->0;
    law_scripts_follow_one_another(enc, cross, start);
    let few = flow_from(output_known(tiles));
    assert(mid.queue =~= few.queue);
    law_more_data_does_no_harm(cross, few, mid);
    let end = flow_of(cross, mid)->0;
    let least = flow_of(cross, few)->0;
    assert forall|l: int, which: int| 0 <= l < 4 && 0 <= which <= 1 implies heads_known(
        end.known,
        #[trigger] xkv_region(l, which),
        tiles,
    ) by {
        let r = xkv_region(l, which);
        assert(heads_known(least.known, r, tiles));
        assert forall|h: int| 0 <= h < 6 implies covers(
            end.known,
            #[trigger] head_at(r, h),
            head_at(r, h) + 8 * tiles,
        ) by {
            assert(covers(least.known, head_at(r, h), head_at(r, h) + 8 * tiles));
        }
    }
}

} // verus!
