//! What a step of the encoder and of the cross-attention phase computes.
//!
//! Every 512 bytes of working memory and every scratch block hold a piece of
//! something: a mel tile, the output of a blob, the residual stream after
//! some half of some block, a table. A step is sound where it finds what it
//! is meant for, at the place it is meant for and under the quantisation that
//! this has, and it leaves something in its place. A script that is sound
//! from the mel tiles, and leaves the last layer norm in the output region,
//! has put the utterance through the whole encoder: queries, keys and values
//! of each block meet those of the same block and head, and nothing is left
//! out.

use crate::image::Kind;
use crate::kernels::Quant;
use crate::layout::{Buf, Mem};
use crate::plan::Plan;
use crate::script::{Asset, Blob, Step};
use vstd::prelude::*;

verus! {

/// What a piece belongs to.
pub ghost enum Datum {
    /// Nothing that anybody may use.
    Nothing,
    /// The mel tiles, 10 pieces each.
    Mel,
    /// A window in which every column is zero.
    Blank { zero: Quant },
    /// A window of `t_in` columns from `col0` on, over mel tiles or over the
    /// tiles of the first convolution, into which the columns of the tiles
    /// before `next` have been put.
    Window { mel: bool, col0: int, t_in: int, next: int },
    /// A table of the image.
    Table(Asset),
    /// What a blob has put out, and the same through its table.
    Output(Blob),
    Gelu(Blob),
    /// The residual stream before block `l`, when `done` of the block's two
    /// halves have been added.
    Residual { l: int, done: int },
    /// Its layer norm for the next half; for the fourth block, the encoder's
    /// output.
    Normed { l: int, done: int },
    /// The softmax table for the scales of these queries and keys.
    ExpTable { q: Quant, k: Quant },
    /// A head's keys and values as attention takes them.
    Keys { l: int, h: int },
    Values { l: int, h: int },
    /// Context: of the first `done` quarters of the queries, and of all.
    Part { l: int, done: int },
    Context { l: int },
    /// The encoder's output in the quantisation of the decoder's projections.
    CrossInput,
    /// The decoder's cross-attention keys, key-major.
    KeyMajor { l: int },
}

/// A datum, and the place in it: 512 bytes each.
pub ghost struct Piece {
    pub what: Datum,
    pub at: int,
}

/// Working memory by pieces, the scratch area by blocks, and the blob in the
/// slot.
pub ghost struct Store {
    pub ram: spec_fn(Mem, int) -> Piece,
    pub disk: spec_fn(int) -> Piece,
    pub loaded: Option<Blob>,
}

/// The utterance that a script is for.
pub ghost struct Task {
    pub plan: Plan,
    pub tiles: int,
    pub tk: int,
}

/// First piece of a buffer, and the one behind its last.
pub open spec fn lo(b: Buf) -> int {
    b.off as int / 512
}

pub open spec fn hi(b: Buf) -> int {
    (b.off + b.len + 511) / 512
}

/// The buffer begins with a piece.
pub open spec fn whole(b: Buf) -> bool {
    b.off % 512 == 0
}

/// The buffer holds this from place `at` on.
pub open spec fn has(m: Store, b: Buf, what: Datum, at: int) -> bool {
    &&& whole(b)
    &&& forall|u: int|
        lo(b) <= u < hi(b) ==> #[trigger] (m.ram)(b.mem, u) == (Piece {
            what,
            at: at + u - lo(b),
        })
}

/// The store with this in the buffer.
pub open spec fn with(m: Store, b: Buf, what: Datum, at: int) -> Store {
    Store {
        ram: |k: Mem, u: int|
            if k == b.mem && lo(b) <= u < hi(b) {
                Piece { what, at: at + u - lo(b) }
            } else {
                (m.ram)(k, u)
            },
        ..m
    }
}

/// The first piece of a buffer.
pub open spec fn first(m: Store, b: Buf) -> Piece {
    (m.ram)(b.mem, lo(b))
}

/// What a blob's input is.
pub open spec fn feeds(b: Blob) -> Datum {
    match b {
        Blob::Enc(l, kind, j) => match kind {
            Kind::Q => Datum::Normed { l: l as int, done: 0 },
            Kind::K => Datum::Normed { l: l as int, done: 0 },
            Kind::V => Datum::Normed { l: l as int, done: 0 },
            Kind::Out => Datum::Context { l: l as int },
            Kind::Fc1 => Datum::Normed { l: l as int, done: 1 },
            Kind::Fc2p => Datum::Gelu(Blob::Enc(l, Kind::Fc1, j)),
            _ => Datum::Nothing,
        },
        Blob::Dec(_, kind, _) => match kind {
            Kind::Xk => Datum::CrossInput,
            Kind::Xv => Datum::CrossInput,
            _ => Datum::Nothing,
        },
        _ => Datum::Nothing,
    }
}

/// The table behind a blob.
pub open spec fn table_of(b: Blob) -> Option<Asset> {
    match b {
        Blob::Conv1 => Some(Asset::Gelu1),
        Blob::Conv2(part) => Some(Asset::Gelu2(part)),
        Blob::Enc(l, kind, j) => if kind == Kind::Fc1 {
            Some(Asset::EncLut(l, j))
        } else {
            None
        },
        _ => None,
    }
}

/// The quantisation of the residual stream.
pub open spec fn residual_scale(p: Plan, l: int, done: int) -> Quant {
    if done == 0 {
        if l == 0 {
            p.enc_x
        } else {
            p.enc[l - 1].res2
        }
    } else {
        p.enc[l].res1
    }
}

/// The quantisation of a layer norm, and its gamma and beta.
pub open spec fn norm_scale(p: Plan, l: int, done: int) -> Quant {
    if l == 4 {
        p.enc_out
    } else if done == 0 {
        p.enc[l].ln1
    } else {
        p.enc[l].ln2
    }
}

pub open spec fn norm_table(l: int, done: int) -> Asset {
    if l == 4 {
        Asset::LnPost
    } else if done == 0 {
        Asset::EncLn1(l as usize)
    } else {
        Asset::EncLn2(l as usize)
    }
}

/// There is a layer norm for this residual.
pub open spec fn normable(l: int, done: int) -> bool {
    0 <= l < 4 && 0 <= done < 2 || l == 4 && done == 0
}

/// Blocks of a tile, and how many tiles there are, in front of the
/// convolution.
pub open spec fn tile_size(mel: bool) -> int {
    if mel {
        10
    } else {
        48
    }
}

/// The tiles that a window takes columns of: from `first_tile` on, before
/// `end_tile`.
pub open spec fn first_tile(col0: int) -> int {
    if col0 < 0 {
        0
    } else {
        col0 / 64
    }
}

pub open spec fn end_tile(col0: int, t_in: int, n: int) -> int {
    let e = (col0 + t_in - 1) / 64 + 1;
    if e < n {
        e
    } else {
        n
    }
}

/// The place of block `o` of a head-block region: heads of 80 blocks, tiles
/// of 8.
pub open spec fn head_place(o: int) -> int {
    48 * (o % 80 / 8) + 8 * (o / 80) + o % 8
}

/// One head's staged tile blocks.
pub open spec fn has_head(m: Store, b: Buf, what: Datum, h: int) -> bool {
    &&& whole(b)
    &&& forall|u: int|
        lo(b) <= u < hi(b) ==> #[trigger] (m.ram)(b.mem, u) == (Piece {
            what,
            at: 48 * ((u - lo(b)) / 8) + 8 * h + (u - lo(b)) % 8,
        })
}

/// What a run needs to find.
pub open spec fn run_sound(blob: Blob, input: Buf, output: Buf, m: Store, t: Task) -> bool {
    &&& m.loaded == Some(blob)
    &&& whole(output)
    &&& match blob {
        Blob::Conv1 => {
            &&& input.len == 5280 && output.len == 24576
            &&& first(m, input).what matches Datum::Window { mel, col0, t_in, next } && {
                &&& mel
                &&& t_in == 66
                &&& (col0 + 1) % 64 == 0
                &&& next == end_tile(col0, t_in, 2 * t.tiles)
                &&& has(m, input, Datum::Window { mel, col0, t_in, next }, 0)
            }
        },
        Blob::Conv2(part) => {
            &&& part < 3
            &&& input.len == 49920 && output.len == 8192
            &&& first(m, input).what matches Datum::Window { mel, col0, t_in, next } && {
                &&& !mel
                &&& t_in == 130
                &&& (col0 + 1) % 128 == 0
                &&& next == end_tile(col0, t_in, 2 * t.tiles)
                &&& has(m, input, Datum::Window { mel, col0, t_in, next }, 0)
            }
        },
        _ => {
            &&& input.len == 24576 && output.len == 24576
            &&& feeds(blob) != Datum::Nothing
            &&& first(m, input).at % 48 == 0
            &&& has(m, input, feeds(blob), first(m, input).at)
        },
    }
}

/// Where in its tensor a run's output begins.
pub open spec fn run_place(blob: Blob, input: Buf, m: Store) -> int {
    match blob {
        Blob::Conv1 => match first(m, input).what {
            Datum::Window { col0, .. } => 48 * ((col0 + 1) / 64),
            _ => 0,
        },
        Blob::Conv2(part) => match first(m, input).what {
            Datum::Window { col0, .. } => 48 * ((col0 + 1) / 128) + 16 * part,
            _ => 0,
        },
        _ => first(m, input).at,
    }
}

/// What a step needs to find.
#[verifier::opaque]
pub open spec fn sound(s: Step, m: Store, t: Task) -> bool {
    let p = t.plan;
    match s {
        Step::Asset { dst, .. } => whole(dst),
        Step::Image { dst, .. } => whole(dst),
        Step::Run { blob, input, output, .. } => run_sound(blob, input, output, m, t),
        Step::Read { dst, .. } => whole(dst),
        Step::Write { src, .. } => whole(src),
        Step::Push { buf, .. } => whole(buf),
        Step::Fill { dst, .. } => whole(dst),
        Step::Columns { src, dst, rows, t_in, col0, tile } => {
            let mel = rows == 80;
            &&& rows == 80 || rows == 384
            &&& src.len == rows * 64 && dst.len == rows * t_in
            &&& tile < 2 * t.tiles
            &&& has(
                m,
                src,
                if mel {
                    Datum::Mel
                } else {
                    Datum::Gelu(Blob::Conv1)
                },
                tile_size(mel) * tile,
            )
            &&& has(m, dst, first(m, dst).what, 0)
            &&& match first(m, dst).what {
                Datum::Blank { zero } => {
                    &&& tile == first_tile(col0 as int)
                    &&& zero == (if mel {
                        p.conv1_in
                    } else {
                        p.conv2_in
                    })
                },
                d => d == (Datum::Window {
                    mel,
                    col0: col0 as int,
                    t_in: t_in as int,
                    next: tile as int,
                }),
            }
        },
        Step::Lut { table, buf } => {
            &&& table.len == 256
            &&& first(m, buf).what matches Datum::Output(blob) && {
                &&& table_of(blob) is Some
                &&& has(m, table, Datum::Table(table_of(blob)->0), 0)
                &&& has(m, buf, Datum::Output(blob), first(m, buf).at)
            }
        },
        Step::Norm { src, gb, dst, from, to } => {
            &&& src.len == 49152 && gb.len == 3072 && dst.len == 24576
            &&& whole(dst)
            &&& first(m, src).at % 96 == 0
            &&& first(m, src).what matches Datum::Residual { l, done } && {
                &&& normable(l, done)
                &&& has(m, src, Datum::Residual { l, done }, first(m, src).at)
                &&& has(m, gb, Datum::Table(norm_table(l, done)), 0)
                &&& from == residual_scale(p, l, done)
                &&& to == norm_scale(p, l, done)
            }
        },
        Step::AddPos { a, b, dst, qa, qd } => {
            let at = first(m, a).at;
            &&& a.len == 8192 && b.len == 32768 && dst.len == 16384
            &&& whole(dst)
            &&& at % 16 == 0
            &&& has(m, a, Datum::Gelu(Blob::Conv2((at % 48 / 16) as usize)), at)
            &&& has(m, b, Datum::Table(Asset::PosEnc), 4 * at)
            &&& qa == p.gelu2
            &&& qd == p.enc_x
        },
        Step::AddTo { acc, b, qa, qb, qd } => {
            let at = first(m, acc).at;
            &&& acc.len == 2 * b.len
            &&& at % 2 == 0
            &&& first(m, acc).what matches Datum::Residual { l, done } && {
                &&& 0 <= l < 4 && done == 0
                &&& has(m, acc, Datum::Residual { l, done: 0 }, at)
                &&& has(m, b, Datum::Output(Blob::Enc(l as usize, Kind::Out, 0)), at / 2)
                &&& qa == residual_scale(p, l, 0)
                &&& qb == p.enc[l].out_out
                &&& qd == p.enc[l].res1
            }
        },
        Step::Sum4 { acc, parts, pq, qa, qd } => {
            let at = first(m, acc).at;
            &&& acc.len == 16384 && parts.len == 32768
            &&& whole(parts)
            &&& at % 2 == 0
            &&& first(m, acc).what matches Datum::Residual { l, done } && {
                &&& 0 <= l < 4 && done == 1
                &&& has(m, acc, Datum::Residual { l, done: 1 }, at)
                &&& forall|u: int|
                    lo(parts) <= u < hi(parts) ==> #[trigger] (m.ram)(parts.mem, u) == (Piece {
                        what: Datum::Output(
                            Blob::Enc(l as usize, Kind::Fc2p, ((u - lo(parts)) / 16) as usize),
                        ),
                        at: at / 2 + (u - lo(parts)) % 16,
                    })
                &&& pq == p.enc[l].fc2p_out
                &&& qa == p.enc[l].res1
                &&& qd == p.enc[l].res2
            }
        },
        Step::ExpTable { dst, .. } => whole(dst),
        Step::Keys { stage, tk, dst } => {
            &&& m.loaded is None
            &&& tk == t.tk
            &&& stage.len == 4096 * t.tiles && dst.len == 81920 && whole(dst)
            &&& exists|l: int, h: int|
                0 <= l < 4 && 0 <= h < 6 && #[trigger] has_head(
                    m,
                    stage,
                    Datum::Output(Blob::Enc(l as usize, Kind::K, 0)),
                    h,
                )
        },
        Step::Values { stage, tk, dst } => {
            &&& m.loaded is None
            &&& tk == t.tk
            &&& stage.len == 4096 * t.tiles && dst.len == 81920 && whole(dst)
            &&& exists|l: int, h: int|
                0 <= l < 4 && 0 <= h < 6 && #[trigger] has_head(
                    m,
                    stage,
                    Datum::Output(Blob::Enc(l as usize, Kind::V, 0)),
                    h,
                )
        },
        Step::Copy { src, dst } => {
            m.loaded is None && whole(src) && whole(dst) && src.len == dst.len
        },
        Step::Attend { query, kv, table, work, ctx, first: from, tk, qq, qk, qv, qc } => {
            let at = first(m, query).at;
            &&& query.len == 4096 && kv.len == 163840 && ctx.len == 4096
            &&& whole(kv) && whole(work) && whole(ctx)
            &&& at % 8 == 0
            &&& tk == t.tk
            &&& first(m, kv).what matches Datum::Keys { l, h } && {
                &&& 0 <= l < 4
                &&& has(m, query, Datum::Output(Blob::Enc(l as usize, Kind::Q, 0)), at)
                &&& at % 48 / 8 == h
                &&& forall|u: int|
                    lo(kv) <= u < hi(kv) ==> #[trigger] (m.ram)(kv.mem, u) == (if u - lo(kv)
                        < 160 {
                        Piece { what: Datum::Keys { l, h }, at: u - lo(kv) }
                    } else {
                        Piece { what: Datum::Values { l, h }, at: u - lo(kv) - 160 }
                    })
                &&& has(m, table, Datum::ExpTable { q: qq, k: qk }, 0)
                &&& qq == p.enc[l].q_out && qk == p.enc[l].k_out
                &&& qv == p.enc[l].v_out && qc == p.enc[l].ctx
                &&& from == 0 || {
                    &&& from == 16 || from == 32 || from == 48
                    &&& has(m, ctx, Datum::Part { l, done: from as int / 16 }, at)
                }
            }
        },
        Step::Requant { buf, from, to } => {
            &&& has(m, buf, Datum::Normed { l: 4, done: 0 }, first(m, buf).at)
            &&& from == p.enc_out
            &&& to == p.xk_in
        },
        Step::Transpose { src, dst } => {
            &&& src.len == dst.len && whole(dst)
            &&& first(m, src).at % 8 == 0
            &&& first(m, src).what matches Datum::Output(Blob::Dec(l, kind, j)) && {
                &&& kind == Kind::Xk
                &&& has(m, src, Datum::Output(Blob::Dec(l, kind, j)), first(m, src).at)
            }
        },
        _ => true,
    }
}

/// Everything in a memory from piece `from` up to `to` is gone.
pub open spec fn lost(m: Store, k: Mem, from: int, to: int) -> Store {
    Store {
        ram: |x: Mem, u: int|
            if x == k && from <= u < to {
                Piece { what: Datum::Nothing, at: 0 }
            } else {
                (m.ram)(x, u)
            },
        ..m
    }
}

/// Scratch blocks into a buffer, and a buffer into scratch blocks.
pub open spec fn read_in(m: Store, at: int, b: Buf) -> Store {
    Store {
        ram: |k: Mem, u: int|
            if k == b.mem && lo(b) <= u < hi(b) {
                (m.disk)(at + u - lo(b))
            } else {
                (m.ram)(k, u)
            },
        ..m
    }
}

pub open spec fn written_out(m: Store, at: int, b: Buf) -> Store {
    Store {
        disk: |k: int|
            if at <= k < at + hi(b) - lo(b) {
                (m.ram)(b.mem, k - at + lo(b))
            } else {
                (m.disk)(k)
            },
        ..m
    }
}

/// What a step leaves. Loading a blob takes the slot; a run takes the
/// interlayer buffer.
#[verifier::opaque]
pub open spec fn leaves(s: Step, m: Store, t: Task) -> Store {
    match s {
        Step::Forget => Store { loaded: None, ..m },
        Step::Asset { what, dst } => with(m, dst, Datum::Table(what), 0),
        Step::Image { what, block, dst } => with(m, dst, Datum::Table(what), block as int),
        Step::Load(blob) => Store { loaded: Some(blob), ..lost(m, Mem::Ram, 200, 600) },
        Step::Run { blob, input, output, .. } => with(
            lost(m, Mem::Interlayer, 0, 128),
            output,
            Datum::Output(blob),
            run_place(blob, input, m),
        ),
        Step::Read { at, dst } => read_in(m, at as int, dst),
        Step::Write { at, src } => written_out(m, at as int, src),
        Step::Push { read, at, buf } => if read {
            read_in(m, at as int, buf)
        } else {
            written_out(m, at as int, buf)
        },
        Step::Fill { dst, zero } => with(m, dst, Datum::Blank { zero }, 0),
        Step::Columns { dst, rows, t_in, col0, tile, .. } => with(
            m,
            dst,
            Datum::Window {
                mel: rows == 80,
                col0: col0 as int,
                t_in: t_in as int,
                next: tile + 1,
            },
            0,
        ),
        Step::Lut { buf, .. } => match first(m, buf).what {
            Datum::Output(blob) => with(m, buf, Datum::Gelu(blob), first(m, buf).at),
            _ => m,
        },
        Step::Norm { src, dst, .. } => match first(m, src).what {
            Datum::Residual { l, done } => with(
                m,
                dst,
                Datum::Normed { l, done },
                first(m, src).at / 2,
            ),
            _ => m,
        },
        Step::AddPos { a, dst, .. } => with(
            m,
            dst,
            Datum::Residual { l: 0, done: 0 },
            2 * first(m, a).at,
        ),
        Step::AddTo { acc, .. } => match first(m, acc).what {
            Datum::Residual { l, .. } => with(
                m,
                acc,
                Datum::Residual { l, done: 1 },
                first(m, acc).at,
            ),
            _ => m,
        },
        Step::Sum4 { acc, .. } => match first(m, acc).what {
            Datum::Residual { l, .. } => with(
                m,
                acc,
                Datum::Residual { l: l + 1, done: 0 },
                first(m, acc).at,
            ),
            _ => m,
        },
        Step::ExpTable { q, k, dst } => with(m, dst, Datum::ExpTable { q, k }, 0),
        Step::Keys { stage, dst, .. } => match first(m, stage).what {
            Datum::Output(Blob::Enc(l, _, _)) => with(
                m,
                dst,
                Datum::Keys { l: l as int, h: first(m, stage).at / 8 },
                0,
            ),
            _ => m,
        },
        Step::Values { stage, dst, .. } => match first(m, stage).what {
            Datum::Output(Blob::Enc(l, _, _)) => with(
                m,
                dst,
                Datum::Values { l: l as int, h: first(m, stage).at / 8 },
                0,
            ),
            _ => m,
        },
        Step::Copy { src, dst } => Store {
            ram: |k: Mem, u: int|
                if k == dst.mem && lo(dst) <= u < hi(dst) {
                    (m.ram)(src.mem, u - lo(dst) + lo(src))
                } else {
                    (m.ram)(k, u)
                },
            ..m
        },
        Step::Attend { query, kv, work, ctx, first: from, .. } => match first(m, kv).what {
            Datum::Keys { l, .. } => with(
                lost(m, work.mem, lo(work), hi(work)),
                ctx,
                if from == 48 {
                    Datum::Context { l }
                } else {
                    Datum::Part { l, done: from as int / 16 + 1 }
                },
                first(m, query).at,
            ),
            _ => m,
        },
        Step::Requant { buf, .. } => with(m, buf, Datum::CrossInput, first(m, buf).at),
        Step::Transpose { src, dst } => match first(m, src).what {
            Datum::Output(Blob::Dec(l, _, _)) => with(
                m,
                dst,
                Datum::KeyMajor { l: l as int },
                first(m, src).at,
            ),
            _ => m,
        },
        _ => m,
    }
}

/// The store at the end, if every step was sound.
#[verifier::opaque]
pub open spec fn computed(steps: Seq<Step>, m: Store, t: Task) -> Option<Store>
    decreases steps.len(),
{
    if steps.len() == 0 {
        Some(m)
    } else {
        match computed(steps.drop_last(), m, t) {
            None => None,
            Some(e) => if sound(steps.last(), e, t) {
                Some(leaves(steps.last(), e, t))
            } else {
                None
            },
        }
    }
}

/// `n` scratch blocks from `region` on hold this, from its start.
pub open spec fn on_disk(m: Store, region: int, what: Datum, n: int) -> bool {
    forall|b: int|
        region <= b < region + n ==> #[trigger] (m.disk)(b) == (Piece { what, at: b - region })
}

/// From any store that holds the utterance's mel tiles, every step finds what
/// it is meant for, and the encoder's output is left.
pub open spec fn encodes(steps: Seq<Step>, t: Task) -> bool {
    forall|m: Store|
        on_disk(m, 1600, Datum::Mel, 20 * t.tiles) ==> {
            let end = #[trigger] computed(steps, m, t);
            &&& end is Some
            &&& on_disk(end->0, 8960, Datum::Normed { l: 4, done: 0 }, 48 * t.tiles)
        }
}

/// What the cross-attention phase leaves for head `h` of decoder block `l`.
pub open spec fn cross_datum(l: int, which: int) -> Datum {
    if which == 0 {
        Datum::KeyMajor { l }
    } else {
        Datum::Output(Blob::Dec(l as usize, Kind::Xv, 0))
    }
}

/// The keys (0) or values (1) of decoder block `l` are in their region, head
/// by head.
pub open spec fn cross_done(m: Store, l: int, which: int, tiles: int) -> bool {
    forall|h: int, k: int|
        #![trigger (m.disk)(9472 + 960 * l + 480 * which + 80 * h + k)]
        0 <= h < 6 && 0 <= k < 8 * tiles ==> (m.disk)(
            9472 + 960 * l + 480 * which + 80 * h + k,
        ) == (Piece { what: cross_datum(l, which), at: 48 * (k / 8) + 8 * h + k % 8 })
}

/// From any store that holds the encoder's output, every step finds what it
/// is meant for, and the keys and values of every decoder block are left.
pub open spec fn projects_for_decoding(steps: Seq<Step>, t: Task) -> bool {
    forall|m: Store|
        on_disk(m, 8960, Datum::Normed { l: 4, done: 0 }, 48 * t.tiles) ==> {
            let end = #[trigger] computed(steps, m, t);
            &&& end is Some
            &&& forall|l: int, which: int|
                0 <= l < 4 && 0 <= which < 2 ==> #[trigger] cross_done(
                    end->0,
                    l,
                    which,
                    t.tiles,
                )
        }
}

/// Each step of a script that computes something found what it is meant for
/// when it came: keys were unpacked from a run of the keys' blob, values from
/// one of the values', and attention met both with the queries of the same
/// block and head.
pub proof fn law_every_step_found_what_it_is_meant_for(steps: Seq<Step>, m: Store, t: Task, i: int)
    requires
        computed(steps, m, t) is Some,
        0 <= i < steps.len(),
    ensures
        computed(steps.take(i), m, t) is Some,
        sound(steps[i], computed(steps.take(i), m, t)->0, t),
        steps[i] matches Step::Keys { stage, .. } ==> exists|l: int, h: int|
            0 <= l < 4 && 0 <= h < 6 && #[trigger] has_head(
                computed(steps.take(i), m, t)->0,
                stage,
                Datum::Output(Blob::Enc(l as usize, Kind::K, 0)),
                h,
            ),
        steps[i] matches Step::Values { stage, .. } ==> exists|l: int, h: int|
            0 <= l < 4 && 0 <= h < 6 && #[trigger] has_head(
                computed(steps.take(i), m, t)->0,
                stage,
                Datum::Output(Blob::Enc(l as usize, Kind::V, 0)),
                h,
            ),
    decreases steps.len() - i,
{
    reveal_with_fuel(computed, 2);
    reveal(sound);
    if i == steps.len() - 1 {
        assert(steps.take(i) =~= steps.drop_last());
    } else {
        law_every_step_found_what_it_is_meant_for(steps.drop_last(), m, t, i);
        assert(steps.drop_last().take(i) =~= steps.take(i));
    }
}

// --- how the steps follow one another ---------------------------------------------------

pub proof fn lemma_none(m: Store, t: Task)
    ensures
        computed(Seq::<Step>::empty(), m, t) == Some(m),
{
    reveal_with_fuel(computed, 1);
}

pub proof fn lemma_then(steps: Seq<Step>, s: Step, m: Store, e: Store, t: Task)
    requires
        computed(steps, m, t) == Some(e),
        sound(s, e, t),
    ensures
        computed(steps.push(s), m, t) == Some(leaves(s, e, t)),
{
    reveal_with_fuel(computed, 2);
    assert(steps.push(s).drop_last() =~= steps);
}

/// One script after the other.
pub proof fn lemma_after(a: Seq<Step>, b: Seq<Step>, m: Store, e: Store, t: Task)
    requires
        computed(a, m, t) == Some(e),
    ensures
        computed(a + b, m, t) == computed(b, e, t),
    decreases b.len(),
{
    reveal_with_fuel(computed, 2);
    if b.len() == 0 {
        assert(a + b =~= a);
    } else {
        lemma_after(a, b.drop_last(), m, e, t);
        assert((a + b).drop_last() =~= a + b.drop_last());
        assert((a + b).last() == b.last());
    }
}

/// `e` is `m` but for the buffer, which holds this.
pub open spec fn put(m: Store, e: Store, b: Buf, what: Datum, at: int) -> bool {
    &&& e.loaded == m.loaded
    &&& e.disk == m.disk
    &&& forall|k: Mem, u: int|
        #![trigger (e.ram)(k, u)]
        (e.ram)(k, u) == (if k == b.mem && lo(b) <= u < hi(b) {
            Piece { what, at: at + u - lo(b) }
        } else {
            (m.ram)(k, u)
        })
}

/// A step that moves no data.
pub proof fn then_idle(steps: Seq<Step>, s: Step, m: Store, e: Store, t: Task)
    requires
        computed(steps, m, t) == Some(e),
        s is Crumb || s is Pump || s is Drain,
    ensures
        computed(steps.push(s), m, t) == Some(e),
{
    reveal(sound);
    reveal(leaves);
    lemma_then(steps, s, m, e, t);
}

/// A step that fills one buffer.
pub proof fn then_put(
    steps: Seq<Step>,
    s: Step,
    b: Buf,
    what: Datum,
    at: int,
    m: Store,
    e: Store,
    t: Task,
) -> (f: Store)
    requires
        computed(steps, m, t) == Some(e),
        sound(s, e, t),
        leaves(s, e, t) == with(e, b, what, at),
    ensures
        computed(steps.push(s), m, t) == Some(f),
        put(e, f, b, what, at),
{
    lemma_then(steps, s, m, e, t);
    leaves(s, e, t)
}

pub proof fn then_asset(steps: Seq<Step>, what: Asset, dst: Buf, m: Store, e: Store, t: Task) -> (f:
    Store)
    requires
        computed(steps, m, t) == Some(e),
        whole(dst),
    ensures
        computed(steps.push(Step::Asset { what, dst }), m, t) == Some(f),
        put(e, f, dst, Datum::Table(what), 0),
{
    reveal(sound);
    reveal(leaves);
    then_put(steps, Step::Asset { what, dst }, dst, Datum::Table(what), 0, m, e, t)
}

pub proof fn then_load(steps: Seq<Step>, blob: Blob, m: Store, e: Store, t: Task) -> (f: Store)
    requires
        computed(steps, m, t) == Some(e),
    ensures
        computed(steps.push(Step::Load(blob)), m, t) == Some(f),
        f.loaded == Some(blob),
        f.disk == e.disk,
        forall|k: Mem, u: int|
            #![trigger (f.ram)(k, u)]
            k != Mem::Ram || u < 200 || u >= 600 ==> (f.ram)(k, u) == (e.ram)(k, u),
{
    reveal(sound);
    reveal(leaves);
    lemma_then(steps, Step::Load(blob), m, e, t);
    leaves(Step::Load(blob), e, t)
}

/// `e` is `m` but for what a run writes.
pub open spec fn ran(m: Store, e: Store, blob: Blob, output: Buf, at: int) -> bool {
    &&& e.loaded == m.loaded
    &&& e.disk == m.disk
    &&& forall|k: Mem, u: int|
        #![trigger (e.ram)(k, u)]
        (e.ram)(k, u) == (if k == output.mem && lo(output) <= u < hi(output) {
            Piece { what: Datum::Output(blob), at: at + u - lo(output) }
        } else if k == Mem::Interlayer {
            (e.ram)(k, u)
        } else {
            (m.ram)(k, u)
        })
}

/// A run of a tile.
pub proof fn then_run(
    steps: Seq<Step>,
    blob: Blob,
    input: Buf,
    output: Buf,
    pumped: bool,
    at: int,
    m: Store,
    e: Store,
    t: Task,
) -> (f: Store)
    requires
        computed(steps, m, t) == Some(e),
        e.loaded == Some(blob),
        blob is Enc || blob is Dec,
        whole(output),
        input.len == 24576,
        output.len == 24576,
        feeds(blob) != Datum::Nothing,
        at % 48 == 0,
        has(e, input, feeds(blob), at),
    ensures
        computed(steps.push(Step::Run { blob, input, output, pumped }), m, t) == Some(f),
        ran(e, f, blob, output, at),
{
    reveal(sound);
    reveal(leaves);
    let s = Step::Run { blob, input, output, pumped };
    assert((e.ram)(input.mem, lo(input)) == (Piece { what: feeds(blob), at }));
    lemma_then(steps, s, m, e, t);
    leaves(s, e, t)
}

/// `e` is `m` with scratch blocks from `at` on in the buffer.
pub open spec fn fetched(m: Store, e: Store, at: int, b: Buf) -> bool {
    &&& e.loaded == m.loaded
    &&& e.disk == m.disk
    &&& forall|k: Mem, u: int|
        #![trigger (e.ram)(k, u)]
        (e.ram)(k, u) == (if k == b.mem && lo(b) <= u < hi(b) {
            (m.disk)(at + u - lo(b))
        } else {
            (m.ram)(k, u)
        })
}

/// `e` is `m` with the buffer in scratch blocks from `at` on.
pub open spec fn stored(m: Store, e: Store, at: int, b: Buf) -> bool {
    &&& e.loaded == m.loaded
    &&& e.ram == m.ram
    &&& forall|k: int|
        #![trigger (e.disk)(k)]
        (e.disk)(k) == (if at <= k < at + hi(b) - lo(b) {
            (m.ram)(b.mem, k - at + lo(b))
        } else {
            (m.disk)(k)
        })
}

pub proof fn then_read(steps: Seq<Step>, s: Step, at: u32, b: Buf, m: Store, e: Store, t: Task) -> (f:
    Store)
    requires
        computed(steps, m, t) == Some(e),
        whole(b),
        s == (Step::Read { at, dst: b }) || s == (Step::Push { read: true, at, buf: b }),
    ensures
        computed(steps.push(s), m, t) == Some(f),
        fetched(e, f, at as int, b),
{
    reveal(sound);
    reveal(leaves);
    lemma_then(steps, s, m, e, t);
    leaves(s, e, t)
}

pub proof fn then_write(steps: Seq<Step>, s: Step, at: u32, b: Buf, m: Store, e: Store, t: Task) -> (f:
    Store)
    requires
        computed(steps, m, t) == Some(e),
        whole(b),
        s == (Step::Write { at, src: b }) || s == (Step::Push { read: false, at, buf: b }),
    ensures
        computed(steps.push(s), m, t) == Some(f),
        stored(e, f, at as int, b),
{
    reveal(sound);
    reveal(leaves);
    lemma_then(steps, s, m, e, t);
    leaves(s, e, t)
}

pub proof fn then_image(
    steps: Seq<Step>,
    what: Asset,
    block: u32,
    dst: Buf,
    m: Store,
    e: Store,
    t: Task,
) -> (f: Store)
    requires
        computed(steps, m, t) == Some(e),
        whole(dst),
    ensures
        computed(steps.push(Step::Image { what, block, dst }), m, t) == Some(f),
        put(e, f, dst, Datum::Table(what), block as int),
{
    reveal(sound);
    reveal(leaves);
    then_put(steps, Step::Image { what, block, dst }, dst, Datum::Table(what), block as int, m, e, t)
}

pub proof fn then_positions(
    steps: Seq<Step>,
    a: Buf,
    b: Buf,
    dst: Buf,
    at: int,
    m: Store,
    e: Store,
    t: Task,
) -> (f: Store)
    requires
        computed(steps, m, t) == Some(e),
        a.len == 8192,
        b.len == 32768,
        dst.len == 16384,
        whole(dst),
        at % 16 == 0,
        has(e, a, Datum::Gelu(Blob::Conv2((at % 48 / 16) as usize)), at),
        has(e, b, Datum::Table(Asset::PosEnc), 4 * at),
    ensures
        computed(
            steps.push(
                Step::AddPos { a, b, dst, qa: t.plan.gelu2, qd: t.plan.enc_x },
            ),
            m,
            t,
        ) == Some(f),
        put(e, f, dst, Datum::Residual { l: 0, done: 0 }, 2 * at),
{
    let s = Step::AddPos { a, b, dst, qa: t.plan.gelu2, qd: t.plan.enc_x };
    assert((e.ram)(a.mem, lo(a)).at == at);
    reveal(sound);
    reveal(leaves);
    then_put(steps, s, dst, Datum::Residual { l: 0, done: 0 }, 2 * at, m, e, t)
}

pub proof fn then_lut(
    steps: Seq<Step>,
    table: Buf,
    buf: Buf,
    blob: Blob,
    at: int,
    m: Store,
    e: Store,
    t: Task,
) -> (f: Store)
    requires
        computed(steps, m, t) == Some(e),
        table.len == 256,
        buf.len >= 512,
        table_of(blob) is Some,
        has(e, table, Datum::Table(table_of(blob)->0), 0),
        has(e, buf, Datum::Output(blob), at),
    ensures
        computed(steps.push(Step::Lut { table, buf }), m, t) == Some(f),
        put(e, f, buf, Datum::Gelu(blob), at),
{
    assert((e.ram)(buf.mem, lo(buf)) == (Piece { what: Datum::Output(blob), at }));
    reveal(sound);
    reveal(leaves);
    then_put(steps, Step::Lut { table, buf }, buf, Datum::Gelu(blob), at, m, e, t)
}

pub proof fn then_norm(
    steps: Seq<Step>,
    src: Buf,
    gb: Buf,
    dst: Buf,
    l: int,
    done: int,
    at: int,
    m: Store,
    e: Store,
    t: Task,
) -> (f: Store)
    requires
        computed(steps, m, t) == Some(e),
        src.len == 49152,
        gb.len == 3072,
        dst.len == 24576,
        whole(dst),
        at % 96 == 0,
        normable(l, done),
        has(e, src, Datum::Residual { l, done }, at),
        has(e, gb, Datum::Table(norm_table(l, done)), 0),
    ensures
        computed(
            steps.push(
                Step::Norm {
                    src,
                    gb,
                    dst,
                    from: residual_scale(t.plan, l, done),
                    to: norm_scale(t.plan, l, done),
                },
            ),
            m,
            t,
        ) == Some(f),
        put(e, f, dst, Datum::Normed { l, done }, at / 2),
{
    let s = Step::Norm {
        src,
        gb,
        dst,
        from: residual_scale(t.plan, l, done),
        to: norm_scale(t.plan, l, done),
    };
    assert((e.ram)(src.mem, lo(src)) == (Piece { what: Datum::Residual { l, done }, at }));
    reveal(sound);
    reveal(leaves);
    then_put(steps, s, dst, Datum::Normed { l, done }, at / 2, m, e, t)
}

pub proof fn then_add(
    steps: Seq<Step>,
    acc: Buf,
    b: Buf,
    l: int,
    at: int,
    m: Store,
    e: Store,
    t: Task,
) -> (f: Store)
    requires
        computed(steps, m, t) == Some(e),
        acc.len == 2 * b.len,
        b.len >= 512,
        at % 2 == 0,
        0 <= l < 4,
        has(e, acc, Datum::Residual { l, done: 0 }, at),
        has(e, b, Datum::Output(Blob::Enc(l as usize, Kind::Out, 0)), at / 2),
    ensures
        computed(
            steps.push(
                Step::AddTo {
                    acc,
                    b,
                    qa: residual_scale(t.plan, l, 0),
                    qb: t.plan.enc[l].out_out,
                    qd: t.plan.enc[l].res1,
                },
            ),
            m,
            t,
        ) == Some(f),
        put(e, f, acc, Datum::Residual { l, done: 1 }, at),
{
    let s = Step::AddTo {
        acc,
        b,
        qa: residual_scale(t.plan, l, 0),
        qb: t.plan.enc[l].out_out,
        qd: t.plan.enc[l].res1,
    };
    assert((e.ram)(acc.mem, lo(acc)) == (Piece { what: Datum::Residual { l, done: 0 }, at }));
    reveal(sound);
    reveal(leaves);
    then_put(steps, s, acc, Datum::Residual { l, done: 1 }, at, m, e, t)
}

pub proof fn then_sum(
    steps: Seq<Step>,
    acc: Buf,
    parts: Buf,
    l: int,
    at: int,
    m: Store,
    e: Store,
    t: Task,
) -> (f: Store)
    requires
        computed(steps, m, t) == Some(e),
        acc.len == 16384,
        parts.len == 32768,
        whole(parts),
        at % 2 == 0,
        0 <= l < 4,
        has(e, acc, Datum::Residual { l, done: 1 }, at),
        forall|u: int|
            lo(parts) <= u < hi(parts) ==> #[trigger] (e.ram)(parts.mem, u) == (Piece {
                what: Datum::Output(
                    Blob::Enc(l as usize, Kind::Fc2p, ((u - lo(parts)) / 16) as usize),
                ),
                at: at / 2 + (u - lo(parts)) % 16,
            }),
    ensures
        computed(
            steps.push(
                Step::Sum4 {
                    acc,
                    parts,
                    pq: t.plan.enc[l].fc2p_out,
                    qa: t.plan.enc[l].res1,
                    qd: t.plan.enc[l].res2,
                },
            ),
            m,
            t,
        ) == Some(f),
        put(e, f, acc, Datum::Residual { l: l + 1, done: 0 }, at),
{
    let s = Step::Sum4 {
        acc,
        parts,
        pq: t.plan.enc[l].fc2p_out,
        qa: t.plan.enc[l].res1,
        qd: t.plan.enc[l].res2,
    };
    assert((e.ram)(acc.mem, lo(acc)) == (Piece { what: Datum::Residual { l, done: 1 }, at }));
    reveal(sound);
    reveal(leaves);
    then_put(steps, s, acc, Datum::Residual { l: l + 1, done: 0 }, at, m, e, t)
}

/// A run of a convolution over its whole window.
pub proof fn then_conv(
    steps: Seq<Step>,
    blob: Blob,
    input: Buf,
    output: Buf,
    i: int,
    m: Store,
    e: Store,
    t: Task,
) -> (f: Store)
    requires
        computed(steps, m, t) == Some(e),
        e.loaded == Some(blob),
        whole(output),
        match blob {
            Blob::Conv1 => {
                let col0 = 64 * i - 1;
                let next = end_tile(col0, 66, 2 * t.tiles);
                &&& input.len == 5280 && output.len == 24576
                &&& has(e, input, Datum::Window { mel: true, col0, t_in: 66, next }, 0)
            },
            Blob::Conv2(part) => {
                let col0 = 128 * i - 1;
                let next = end_tile(col0, 130, 2 * t.tiles);
                &&& part < 3
                &&& input.len == 49920 && output.len == 8192
                &&& has(e, input, Datum::Window { mel: false, col0, t_in: 130, next }, 0)
            },
            _ => false,
        },
    ensures
        computed(
            steps.push(Step::Run { blob, input, output, pumped: false }),
            m,
            t,
        ) == Some(f),
        ran(
            e,
            f,
            blob,
            output,
            match blob {
                Blob::Conv2(part) => 48 * i + 16 * part,
                _ => 48 * i,
            },
        ),
{
    let s = Step::Run { blob, input, output, pumped: false };
    assert((e.ram)(input.mem, lo(input)).what is Window);
    reveal(sound);
    reveal(leaves);
    lemma_then(steps, s, m, e, t);
    leaves(s, e, t)
}

/// Only scratch blocks from `from` up to `to` may differ.
pub open spec fn only(m: Store, e: Store, from: int, to: int) -> bool {
    forall|b: int|
        #![trigger (e.disk)(b)]
        !(from <= b < to) ==> (e.disk)(b) == (m.disk)(b)
}

} // verus!
