//! Decoding driven by the host: every transformer computation runs on the
//! board through mailbox commands; the host pages weights and activations,
//! keeps the caches, and samples.

use crate::bytes::{get32, le32};
use crate::hostlayer::{computes_the_layer, law_a_token_goes_through_the_layer, Layer};
use crate::image::{digit_name, kind_name, part_name, Kind};
use crate::kernels::Quant;
use crate::layout::C;
use crate::lm::{float_key, order_key, LOWEST_BITS};
use crate::params::{AddParams, AttnParams, Fc2SumParams, LnParams};
use vstd::prelude::*;

verus! {

// --- the board's arena as the host lays it out ------------------------------------------

/// Start of the arena.
pub const A: u32 = 0x2003_2000;

/// The residual, int16, four columns.
pub const A_X16: u32 = 0x2003_2000;

pub const A_LN: u32 = 0x2003_2C00;

pub const A_Q: u32 = 0x2003_3200;

pub const A_K: u32 = 0x2003_3800;

pub const A_V: u32 = 0x2003_3E00;

pub const A_CTX: u32 = 0x2003_4400;

pub const A_O: u32 = 0x2003_4A00;

/// Four partial products.
pub const A_P: u32 = 0x2003_5000;

/// Gain and bias of a norm.
pub const A_GB: u32 = 0x2003_6800;

pub const A_LUT: u32 = 0x2003_7400;

/// The parameter block.
pub const A_PAR: u32 = 0x2003_7500;

/// Keys, and values half way up.
pub const A_BIG: u32 = 0x2003_7600;

pub const BIG_HALF: u32 = 38400;

/// Columns of a token's tensors.
pub const W: usize = 4;

/// The buffers follow one another without overlap, inside of the arena:
/// 384 channels of four columns, int8 or int16, and either the keys and
/// values of a whole context of a head or those of up to 100 tokens of a
/// layer.
pub proof fn law_buffers_are_apart()
    ensures
        A_X16 == A,
        A_X16 + 3072 == A_LN,
        A_LN + 1536 == A_Q,
        A_Q + 1536 == A_K,
        A_K + 1536 == A_V,
        A_V + 1536 == A_CTX,
        A_CTX + 1536 == A_O,
        A_O + 1536 == A_P,
        A_P + 4 * 1536 == A_GB,
        A_GB + 3072 == A_LUT,
        A_LUT + 256 == A_PAR,
        A_PAR + 256 == A_BIG,
        64 * 600 <= BIG_HALF,
        384 * 100 <= BIG_HALF,
        A_BIG + 2 * BIG_HALF <= A + 102400,
{
}

// --- cutting tensors --------------------------------------------------------------------

/// A cell of planar rows.
pub open spec fn plane(s: Seq<u8>, width: int, c: int, t: int) -> u8 {
    s[c * width + t]
}

proof fn lemma_index(c: int, t: int, rows: int, width: int)
    by (nonlinear_arith)
    requires
        0 <= c < rows,
        0 <= t < width,
    ensures
        0 <= c * width + t < rows * width,
{
}

proof fn lemma_unique(c: int, t: int, d: int, u: int, width: int)
    by (nonlinear_arith)
    requires
        0 <= t < width,
        0 <= u < width,
        c * width + t == d * width + u,
    ensures
        c == d && t == u,
{
}

/// Tile `i` of a planar tensor of 384 rows.
pub fn gather_tile(src: &[u8], pad_w: usize, t_tile: usize, i: usize) -> (tile: Vec<u8>)
    requires
        (i + 1) * t_tile <= pad_w,
        src@.len() == 384 * pad_w,
    ensures
        tile@.len() == 384 * t_tile,
        forall|c: int, t: int|
            0 <= c < 384 && 0 <= t < t_tile ==> #[trigger] plane(tile@, t_tile as int, c, t)
                == plane(src@, pad_w as int, c, i * t_tile + t),
{
    let total: usize = src.len();
    let mut tile: Vec<u8> = Vec::new();
    let mut c: usize = 0;
    assert(i * t_tile + t_tile <= pad_w) by (nonlinear_arith)
        requires
            (i + 1) * t_tile <= pad_w,
    ;
    assert(i * t_tile >= 0) by (nonlinear_arith)
        requires
            i >= 0,
            t_tile >= 0,
    ;
    let base: usize = i * t_tile;
    assert(0 * t_tile == 0);
    while c < C
        invariant
            c <= 384,
            base + t_tile <= pad_w,
            base == i * t_tile,
            src@.len() == total == 384 * pad_w,
            tile@.len() == c * t_tile,
            forall|d: int, t: int|
                0 <= d < c && 0 <= t < t_tile ==> #[trigger] plane(tile@, t_tile as int, d, t)
                    == plane(src@, pad_w as int, d, i * t_tile + t),
        decreases 384 - c,
    {
        let ghost rows = tile@;
        let mut t: usize = 0;
        while t < t_tile
            invariant
                c < 384,
                t <= t_tile,
                base + t_tile <= pad_w,
                base == i * t_tile,
                src@.len() == total == 384 * pad_w,
                rows.len() == c * t_tile,
                tile@.len() == c * t_tile + t,
                forall|k: int| 0 <= k < rows.len() ==> #[trigger] tile@[k] == rows[k],
                forall|u: int|
                    0 <= u < t ==> #[trigger] tile@[c * t_tile + u] == plane(
                        src@,
                        pad_w as int,
                        c as int,
                        i * t_tile + u,
                    ),
            decreases t_tile - t,
        {
            proof {
                lemma_index(c as int, base + t, 384, pad_w as int);
                assert(c * pad_w >= 0) by (nonlinear_arith)
                    requires
                        c >= 0,
                        pad_w >= 0,
                ;
            }
            tile.push(src[c * pad_w + base + t]);
            t = t + 1;
        }
        assert((c + 1) * t_tile == c * t_tile + t_tile) by (nonlinear_arith);
        assert forall|d: int, t: int| 0 <= d < c + 1 && 0 <= t < t_tile implies #[trigger] plane(
            tile@,
            t_tile as int,
            d,
            t,
        ) == plane(src@, pad_w as int, d, i * t_tile + t) by {
            if d < c {
                lemma_index(d, t, c as int, t_tile as int);
                assert(plane(rows, t_tile as int, d, t) == rows[d * t_tile + t]);
            }
        }
        c = c + 1;
    }
    tile
}

/// Puts a tile's columns into a planar tensor of `ctx` columns; those beyond
/// its end are dropped.
pub fn scatter_tile(tile: &[u8], t_tile: usize, i: usize, ctx: usize, out: &mut Vec<u8>)
    requires
        i * t_tile + t_tile <= usize::MAX,
        tile@.len() == 384 * t_tile,
        old(out)@.len() == 384 * ctx,
    ensures
        final(out)@.len() == 384 * ctx,
        forall|c: int, col: int|
            0 <= c < 384 && 0 <= col < ctx ==> #[trigger] plane(final(out)@, ctx as int, c, col)
                == (if i * t_tile <= col < i * t_tile + t_tile {
                plane(tile@, t_tile as int, c, col - i * t_tile)
            } else {
                plane(old(out)@, ctx as int, c, col)
            }),
{
    let ghost start = out@;
    let total: usize = out.len();
    let tile_total: usize = tile.len();
    assert(i * t_tile >= 0) by (nonlinear_arith)
        requires
            i >= 0,
            t_tile >= 0,
    ;
    let base: usize = i * t_tile;
    let mut c: usize = 0;
    while c < C
        invariant
            c <= 384,
            base == i * t_tile,
            base + t_tile <= usize::MAX,
            tile@.len() == tile_total == 384 * t_tile,
            out@.len() == total == 384 * ctx,
            start.len() == 384 * ctx,
            forall|d: int, col: int|
                0 <= d < 384 && 0 <= col < ctx ==> #[trigger] plane(out@, ctx as int, d, col) == (
                if d < c && base <= col < base + t_tile {
                    plane(tile@, t_tile as int, d, col - base)
                } else {
                    plane(start, ctx as int, d, col)
                }),
        decreases 384 - c,
    {
        let mut t: usize = 0;
        while t < t_tile
            invariant
                c < 384,
                t <= t_tile,
                base == i * t_tile,
                base + t_tile <= usize::MAX,
                tile@.len() == tile_total == 384 * t_tile,
                out@.len() == total == 384 * ctx,
                start.len() == 384 * ctx,
                forall|d: int, col: int|
                    0 <= d < 384 && 0 <= col < ctx ==> #[trigger] plane(out@, ctx as int, d, col)
                        == (if (d < c || (d == c && col < base + t)) && base <= col < base
                        + t_tile {
                        plane(tile@, t_tile as int, d, col - base)
                    } else {
                        plane(start, ctx as int, d, col)
                    }),
            decreases t_tile - t,
        {
            let col: usize = base + t;
            if col < ctx {
                let ghost before = out@;
                proof {
                    lemma_index(c as int, col as int, 384, ctx as int);
                    lemma_index(c as int, t as int, 384, t_tile as int);
                    assert(c * ctx >= 0 && c * t_tile >= 0) by (nonlinear_arith)
                        requires
                            c >= 0,
                            ctx >= 0,
                            t_tile >= 0,
                    ;
                }
                let v: u8 = tile[c * t_tile + t];
                out.set(c * ctx + col, v);
                assert forall|d: int, k: int| 0 <= d < 384 && 0 <= k < ctx implies #[trigger] plane(
                    out@,
                    ctx as int,
                    d,
                    k,
                ) == (if (d < c || (d == c && k < base + t + 1)) && base <= k < base + t_tile {
                    plane(tile@, t_tile as int, d, k - base)
                } else {
                    plane(start, ctx as int, d, k)
                }) by {
                    lemma_index(d, k, 384, ctx as int);
                    assert(plane(before, ctx as int, d, k) == before[d * ctx + k]);
                    if d * ctx + k == c * ctx + col {
                        lemma_unique(d, k, c as int, col as int, ctx as int);
                    }
                }
            }
            t = t + 1;
        }
        c = c + 1;
    }
}

/// Scattering the gathered tiles, one after another, gives the tensor back
/// where the context reaches.
pub proof fn law_tiles_rebuild_the_tensor(
    src: Seq<u8>,
    tiles: Seq<Seq<u8>>,
    states: Seq<Seq<u8>>,
    pad_w: int,
    t_tile: int,
    ctx: int,
    n: int,
)
    requires
        0 <= n < states.len(),
        n <= tiles.len(),
        t_tile >= 1,
        forall|i: int, c: int, t: int|
            0 <= i < tiles.len() && 0 <= c < 384 && 0 <= t < t_tile ==> #[trigger] plane(
                tiles[i],
                t_tile,
                c,
                t,
            ) == plane(src, pad_w, c, i * t_tile + t),
        forall|i: int, c: int, col: int|
            0 <= i < states.len() - 1 && 0 <= c < 384 && 0 <= col < ctx ==> #[trigger] plane(
                states[i + 1],
                ctx,
                c,
                col,
            ) == (if i * t_tile <= col < i * t_tile + t_tile {
                plane(tiles[i], t_tile, c, col - i * t_tile)
            } else {
                plane(states[i], ctx, c, col)
            }),
    ensures
        forall|c: int, col: int|
            0 <= c < 384 && 0 <= col < ctx && col < n * t_tile ==> #[trigger] plane(
                states[n],
                ctx,
                c,
                col,
            ) == plane(src, pad_w, c, col),
    decreases n,
{
    if n > 0 {
        law_tiles_rebuild_the_tensor(src, tiles, states, pad_w, t_tile, ctx, n - 1);
        let i = n - 1;
        assert(n * t_tile == i * t_tile + t_tile) by (nonlinear_arith)
            requires
                n == i + 1,
        ;
        assert forall|c: int, col: int|
            0 <= c < 384 && 0 <= col < ctx && col < n * t_tile implies #[trigger] plane(
            states[n],
            ctx,
            c,
            col,
        ) == plane(src, pad_w, c, col) by {
            assert(states[i + 1] == states[n]);
            assert(plane(states[i + 1], ctx, c, col) == (if i * t_tile <= col < i * t_tile
                + t_tile {
                plane(tiles[i], t_tile, c, col - i * t_tile)
            } else {
                plane(states[i], ctx, c, col)
            }));
            if i * t_tile <= col {
                assert(plane(tiles[i], t_tile, c, col - i * t_tile) == plane(
                    src,
                    pad_w,
                    c,
                    i * t_tile + (col - i * t_tile),
                ));
            }
        }
    } else {
        assert(n * t_tile == 0) by (nonlinear_arith)
            requires
                n == 0,
        ;
    }
}

// --- caches -----------------------------------------------------------------------------

/// The token's column of a tensor with four.
pub fn column(buf: &[u8]) -> (col: Vec<u8>)
    requires
        buf@.len() == 1536,
    ensures
        col@.len() == 384,
        forall|c: int| 0 <= c < 384 ==> #[trigger] col@[c] == buf@[4 * c],
{
    let mut col: Vec<u8> = Vec::new();
    let mut c: usize = 0;
    while c < C
        invariant
            c <= 384,
            buf@.len() == 1536,
            col@.len() == c,
            forall|d: int| 0 <= d < c ==> #[trigger] col@[d] == buf@[4 * d],
        decreases 384 - c,
    {
        col.push(buf[4 * c]);
        c = c + 1;
    }
    col
}

/// The cached columns as planar rows.
pub fn planar(cache: &Vec<Vec<u8>>) -> (buf: Vec<u8>)
    requires
        forall|t: int| 0 <= t < cache@.len() ==> (#[trigger] cache@[t])@.len() == 384,
    ensures
        buf@.len() == 384 * cache@.len(),
        forall|c: int, t: int|
            0 <= c < 384 && 0 <= t < cache@.len() ==> #[trigger] plane(
                buf@,
                cache@.len() as int,
                c,
                t,
            ) == cache@[t]@[c],
{
    let n: usize = cache.len();
    let mut buf: Vec<u8> = Vec::new();
    let mut c: usize = 0;
    assert(0 * n == 0);
    while c < C
        invariant
            c <= 384,
            n == cache@.len(),
            forall|t: int| 0 <= t < n ==> (#[trigger] cache@[t])@.len() == 384,
            buf@.len() == c * n,
            forall|d: int, t: int|
                0 <= d < c && 0 <= t < n ==> #[trigger] plane(buf@, n as int, d, t)
                    == cache@[t]@[d],
        decreases 384 - c,
    {
        let ghost rows = buf@;
        let mut t: usize = 0;
        while t < n
            invariant
                c < 384,
                t <= n,
                n == cache@.len(),
                forall|u: int| 0 <= u < n ==> (#[trigger] cache@[u])@.len() == 384,
                rows.len() == c * n,
                buf@.len() == c * n + t,
                forall|k: int| 0 <= k < rows.len() ==> #[trigger] buf@[k] == rows[k],
                forall|u: int|
                    0 <= u < t ==> #[trigger] buf@[c * n + u] == cache@[u]@[c as int],
            decreases n - t,
        {
            buf.push(cache[t][c]);
            t = t + 1;
        }
        assert((c + 1) * n == c * n + n) by (nonlinear_arith);
        assert forall|d: int, t: int| 0 <= d < c + 1 && 0 <= t < n implies #[trigger] plane(
            buf@,
            n as int,
            d,
            t,
        ) == cache@[t]@[d] by {
            if d < c {
                lemma_index(d, t, c as int, n as int);
                assert(plane(rows, n as int, d, t) == rows[d * n + t]);
            }
        }
        c = c + 1;
    }
    buf
}

// --- a layer of a token -----------------------------------------------------------------

/// A layer's quantisation, as far as the host needs it.
#[derive(Clone, Copy, PartialEq, Eq, Structural, Debug)]
pub struct HostBlock {
    pub q_in: Quant,
    pub q_out: Quant,
    pub k_out: Quant,
    pub v_out: Quant,
    pub out_in: Quant,
    pub out_out: Quant,
    pub xq_in: Quant,
    pub xq_out: Quant,
    pub xk_out: Quant,
    pub xv_out: Quant,
    pub xout_in: Quant,
    pub xout_out: Quant,
    pub fc1_in: Quant,
    pub fc2p0: Quant,
    pub fc2p1: Quant,
    pub fc2p2: Quant,
    pub fc2p3: Quant,
    pub res1: Quant,
    pub res2: Quant,
    pub res3: Quant,
}

/// The norms of a layer.
#[derive(Clone, Copy, PartialEq, Eq, Structural, Debug)]
pub enum Gb {
    Ln1,
    Xln,
    Ln2,
}

/// The blobs of a layer.
#[derive(Clone, Copy, PartialEq, Eq, Structural, Debug)]
pub enum HostBlob {
    Q,
    K,
    V,
    Out,
    Xq,
    Xout,
    Fc1(u32),
    Fc2(u32),
}

/// What a plan calls a blob.
pub open spec fn key_of(b: HostBlob) -> &'static str {
    match b {
        HostBlob::Q => "q",
        HostBlob::K => "k",
        HostBlob::V => "v",
        HostBlob::Out => "out",
        HostBlob::Xq => "xq",
        HostBlob::Xout => "xout",
        HostBlob::Fc1(j) => if j == 0 {
            "fc1a"
        } else if j == 1 {
            "fc1b"
        } else if j == 2 {
            "fc1c"
        } else {
            "fc1d"
        },
        HostBlob::Fc2(j) => if j == 0 {
            "fc2p0"
        } else if j == 1 {
            "fc2p1"
        } else if j == 2 {
            "fc2p2"
        } else {
            "fc2p3"
        },
    }
}

impl HostBlob {
    /// What a plan calls the blob.
    pub fn key(&self) -> (k: &'static str)
        requires
            self matches HostBlob::Fc1(j) ==> j < 4,
            self matches HostBlob::Fc2(j) ==> j < 4,
        ensures
            k@ == key_of(*self)@,
    {
        match *self {
            HostBlob::Q => "q",
            HostBlob::K => "k",
            HostBlob::V => "v",
            HostBlob::Out => "out",
            HostBlob::Xq => "xq",
            HostBlob::Xout => "xout",
            HostBlob::Fc1(0) => "fc1a",
            HostBlob::Fc1(1) => "fc1b",
            HostBlob::Fc1(2) => "fc1c",
            HostBlob::Fc1(_) => "fc1d",
            HostBlob::Fc2(0) => "fc2p0",
            HostBlob::Fc2(1) => "fc2p1",
            HostBlob::Fc2(2) => "fc2p2",
            HostBlob::Fc2(_) => "fc2p3",
        }
    }
}

/// What the host does for a layer.
#[derive(Clone, Copy, PartialEq, Eq, Structural, Debug)]
pub enum HostStep {
    /// Write gain and bias, then run the norm.
    Ln { gb: Gb, ln: LnParams },
    /// Bring the blob in, then run it.
    Npu { blob: HostBlob, input: u32, output: u32 },
    /// Read the token's key and value columns into the caches.
    Keep,
    /// Write the caches to the arena, keys first.
    PutSelf,
    /// Write a head's cross keys and values.
    PutCross { h: u32 },
    /// Run a head; the score multiplier is that of these two scales.
    Attn { attn: AttnParams, qs: Quant, ks: Quant },
    Add16(AddParams),
    /// Write a table, then map a tensor through it.
    Lut { part: u32 },
    Fc2Sum(Fc2SumParams),
}

/// A norm of the residual.
pub open spec fn norm_of(gb: Gb, sq: Quant, dq: Quant) -> HostStep {
    HostStep::Ln {
        gb,
        ln: LnParams {
            src: A_X16,
            dst: A_LN,
            ch: 384,
            w: 4,
            gamma: A_GB,
            beta: (A_GB + 1536) as u32,
            sq,
            dq,
        },
    }
}

/// The residual plus what a blob has put out.
pub open spec fn add_of(qa: Quant, qb: Quant, qd: Quant) -> HostStep {
    HostStep::Add16(AddParams { a: A_X16, b: A_O, dst: A_X16, len: 1536, qa, qb, qd })
}

pub open spec fn npu_of(blob: HostBlob, input: u32, output: u32) -> HostStep {
    HostStep::Npu { blob, input, output }
}

/// Head `h` over `tk` keys whose rows are that long, at these addresses.
pub open spec fn attn_of(
    h: int,
    k: int,
    v: int,
    tk: int,
    q: Quant,
    kq: Quant,
    vq: Quant,
    ctx: Quant,
) -> HostStep {
    HostStep::Attn {
        attn: AttnParams {
            q: (A_Q + 256 * h) as u32,
            k: k as u32,
            v: v as u32,
            ctx: (A_CTX + 256 * h) as u32,
            hd: 64,
            wq: 1,
            qstride: 4,
            tk: tk as u32,
            kstride: tk as u32,
            zq: q.zp,
            zk: kq.zp,
            zv: vq.zp,
            score_mult: 0,
            v_scale: vq.scale,
            ctx_q: ctx,
        },
        qs: q,
        ks: kq,
    }
}

/// The self-attention heads: their keys and values follow one another.
pub open spec fn self_heads(b: HostBlock, t: int, n: int) -> Seq<HostStep>
    decreases n,
{
    if n <= 0 {
        Seq::empty()
    } else {
        self_heads(b, t, n - 1).push(
            attn_of(
                n - 1,
                A_BIG + 64 * (n - 1) * t,
                A_BIG + BIG_HALF + 64 * (n - 1) * t,
                t,
                b.q_out,
                b.k_out,
                b.v_out,
                b.out_in,
            ),
        )
    }
}

/// The cross-attention heads: each one's keys and values are put first.
pub open spec fn cross_heads(b: HostBlock, ctx: int, n: int) -> Seq<HostStep>
    decreases n,
{
    if n <= 0 {
        Seq::empty()
    } else {
        cross_heads(b, ctx, n - 1) + seq![
            HostStep::PutCross { h: (n - 1) as u32 },
            attn_of(
                n - 1,
                A_BIG as int,
                A_BIG + BIG_HALF,
                ctx,
                b.xq_out,
                b.xk_out,
                b.xv_out,
                b.xout_in,
            ),
        ]
    }
}

/// One part of the feed-forward pair.
pub open spec fn mlp_part(j: int) -> Seq<HostStep> {
    seq![
        npu_of(HostBlob::Fc1(j as u32), A_LN, A_Q),
        HostStep::Lut { part: j as u32 },
        npu_of(HostBlob::Fc2(j as u32), A_K, (A_P + 1536 * j) as u32),
    ]
}

pub open spec fn mlp_parts(n: int) -> Seq<HostStep>
    decreases n,
{
    if n <= 0 {
        Seq::empty()
    } else {
        mlp_parts(n - 1) + mlp_part(n - 1)
    }
}

/// The sum that closes a layer.
pub open spec fn sum_of(b: HostBlock) -> HostStep {
    HostStep::Fc2Sum(
        Fc2SumParams {
            p0: A_P,
            p1: (A_P + 1536) as u32,
            p2: (A_P + 3072) as u32,
            p3: (A_P + 4608) as u32,
            a: A_X16,
            dst: A_X16,
            len: 1536,
            pq0: b.fc2p0,
            pq1: b.fc2p1,
            pq2: b.fc2p2,
            pq3: b.fc2p3,
            qa: b.res2,
            qd: b.res3,
        },
    )
}

/// Self-attention of a layer whose input has quantisation `sq`, with `t`
/// tokens in the cache after this one.
pub open spec fn self_half(b: HostBlock, sq: Quant, t: int) -> Seq<HostStep> {
    seq![
        norm_of(Gb::Ln1, sq, b.q_in),
        npu_of(HostBlob::Q, A_LN, A_Q),
        npu_of(HostBlob::K, A_LN, A_K),
        npu_of(HostBlob::V, A_LN, A_V),
        HostStep::Keep,
        HostStep::PutSelf,
    ] + self_heads(b, t, 6) + seq![
        npu_of(HostBlob::Out, A_CTX, A_O),
        add_of(sq, b.out_out, b.res1),
    ]
}

/// Cross-attention over `ctx` encoder frames.
pub open spec fn cross_half(b: HostBlock, ctx: int) -> Seq<HostStep> {
    seq![norm_of(Gb::Xln, b.res1, b.xq_in), npu_of(HostBlob::Xq, A_LN, A_Q)] + cross_heads(
        b,
        ctx,
        6,
    ) + seq![npu_of(HostBlob::Xout, A_CTX, A_O), add_of(b.res1, b.xout_out, b.res2)]
}

/// The feed-forward half.
pub open spec fn mlp_half(b: HostBlock) -> Seq<HostStep> {
    seq![norm_of(Gb::Ln2, b.res2, b.fc1_in)] + mlp_parts(4) + seq![sum_of(b)]
}

/// A layer of a token.
pub open spec fn layer_of(b: HostBlock, sq: Quant, t: int, ctx: int) -> Seq<HostStep> {
    self_half(b, sq, t) + cross_half(b, ctx) + mlp_half(b)
}

fn norm(gb: Gb, sq: Quant, dq: Quant) -> (s: HostStep)
    ensures
        s == norm_of(gb, sq, dq),
{
    HostStep::Ln {
        gb,
        ln: LnParams {
            src: A_X16,
            dst: A_LN,
            ch: 384,
            w: 4,
            gamma: A_GB,
            beta: A_GB + 1536,
            sq,
            dq,
        },
    }
}

fn add_step(qa: Quant, qb: Quant, qd: Quant) -> (s: HostStep)
    ensures
        s == add_of(qa, qb, qd),
{
    HostStep::Add16(AddParams { a: A_X16, b: A_O, dst: A_X16, len: 1536, qa, qb, qd })
}

fn npu(blob: HostBlob, input: u32, output: u32) -> (s: HostStep)
    ensures
        s == npu_of(blob, input, output),
{
    HostStep::Npu { blob, input, output }
}

fn attn(h: u32, k: u32, v: u32, tk: u32, q: Quant, kq: Quant, vq: Quant, ctx: Quant) -> (s:
    HostStep)
    requires
        h < 6,
    ensures
        s == attn_of(h as int, k as int, v as int, tk as int, q, kq, vq, ctx),
{
    HostStep::Attn {
        attn: AttnParams {
            q: A_Q + 256 * h,
            k,
            v,
            ctx: A_CTX + 256 * h,
            hd: 64,
            wq: 1,
            qstride: 4,
            tk,
            kstride: tk,
            zq: q.zp,
            zk: kq.zp,
            zv: vq.zp,
            score_mult: 0,
            v_scale: vq.scale,
            ctx_q: ctx,
        },
        qs: q,
        ks: kq,
    }
}

fn self_steps(b: &HostBlock, sq: Quant, t: u32, v: &mut Vec<HostStep>)
    requires
        A_BIG + BIG_HALF + 384 * t <= u32::MAX,
    ensures
        final(v)@ == old(v)@ + self_half(*b, sq, t as int),
{
    let ghost start = v@;
    v.push(norm(Gb::Ln1, sq, b.q_in));
    v.push(npu(HostBlob::Q, A_LN, A_Q));
    v.push(npu(HostBlob::K, A_LN, A_K));
    v.push(npu(HostBlob::V, A_LN, A_V));
    v.push(HostStep::Keep);
    v.push(HostStep::PutSelf);
    let ghost head = v@;
    assert(head =~= start + seq![
        norm_of(Gb::Ln1, sq, b.q_in),
        npu_of(HostBlob::Q, A_LN, A_Q),
        npu_of(HostBlob::K, A_LN, A_K),
        npu_of(HostBlob::V, A_LN, A_V),
        HostStep::Keep,
        HostStep::PutSelf,
    ]);
    let mut h: u32 = 0;
    assert(head + self_heads(*b, t as int, 0) =~= head);
    while h < 6
        invariant
            h <= 6,
            A_BIG + BIG_HALF + 384 * t <= u32::MAX,
            v@ == head + self_heads(*b, t as int, h as int),
        decreases 6 - h,
    {
        let ghost before = v@;
        assert(h * t <= 6 * t) by (nonlinear_arith)
            requires
                0 <= h <= 6,
                0 <= t,
        ;
        assert(64 * (h * t) == 64 * h * t) by (nonlinear_arith);
        let off: u32 = 64 * (h * t);
        v.push(
            attn(h, A_BIG + off, A_BIG + BIG_HALF + off, t, b.q_out, b.k_out, b.v_out, b.out_in),
        );
        assert(v@ =~= head + self_heads(*b, t as int, h + 1));
        h = h + 1;
    }
    v.push(npu(HostBlob::Out, A_CTX, A_O));
    v.push(add_step(sq, b.out_out, b.res1));
    assert(v@ =~= start + self_half(*b, sq, t as int));
}

fn cross_steps(b: &HostBlock, ctx: u32, v: &mut Vec<HostStep>)
    ensures
        final(v)@ == old(v)@ + cross_half(*b, ctx as int),
{
    let ghost start = v@;
    v.push(norm(Gb::Xln, b.res1, b.xq_in));
    v.push(npu(HostBlob::Xq, A_LN, A_Q));
    let ghost head = v@;
    let mut h: u32 = 0;
    assert(head + cross_heads(*b, ctx as int, 0) =~= head);
    while h < 6
        invariant
            h <= 6,
            v@ == head + cross_heads(*b, ctx as int, h as int),
        decreases 6 - h,
    {
        v.push(HostStep::PutCross { h });
        v.push(
            attn(h, A_BIG, A_BIG + BIG_HALF, ctx, b.xq_out, b.xk_out, b.xv_out, b.xout_in),
        );
        assert(v@ =~= head + cross_heads(*b, ctx as int, h + 1));
        h = h + 1;
    }
    v.push(npu(HostBlob::Xout, A_CTX, A_O));
    v.push(add_step(b.res1, b.xout_out, b.res2));
    assert(v@ =~= start + cross_half(*b, ctx as int));
}

fn mlp_steps(b: &HostBlock, v: &mut Vec<HostStep>)
    ensures
        final(v)@ == old(v)@ + mlp_half(*b),
{
    let ghost start = v@;
    v.push(norm(Gb::Ln2, b.res2, b.fc1_in));
    let ghost head = v@;
    let mut j: u32 = 0;
    assert(head + mlp_parts(0) =~= head);
    while j < 4
        invariant
            j <= 4,
            v@ == head + mlp_parts(j as int),
        decreases 4 - j,
    {
        v.push(npu(HostBlob::Fc1(j), A_LN, A_Q));
        v.push(HostStep::Lut { part: j });
        v.push(npu(HostBlob::Fc2(j), A_K, A_P + 1536 * j));
        assert(v@ =~= head + mlp_parts(j + 1));
        j = j + 1;
    }
    v.push(
        HostStep::Fc2Sum(
            Fc2SumParams {
                p0: A_P,
                p1: A_P + 1536,
                p2: A_P + 3072,
                p3: A_P + 4608,
                a: A_X16,
                dst: A_X16,
                len: 1536,
                pq0: b.fc2p0,
                pq1: b.fc2p1,
                pq2: b.fc2p2,
                pq3: b.fc2p3,
                qa: b.res2,
                qd: b.res3,
            },
        ),
    );
    assert(v@ =~= start + mlp_half(*b));
}

/// The steps of a layer of a token. `sq` is the quantisation of the
/// residual that comes in, `t` the tokens in the cache with this one, `ctx`
/// the encoder frames.
pub fn layer(b: &HostBlock, sq: Quant, t: u32, ctx: u32) -> (v: Vec<HostStep>)
    requires
        A_BIG + BIG_HALF + 384 * t <= u32::MAX,
    ensures
        v@ == layer_of(*b, sq, t as int, ctx as int),
        // each step finds what it is meant for, up to the residual that goes out
        computes_the_layer(v@, (Layer { b: *b, sq, t: t as int, ctx: ctx as int })),
{
    let mut v: Vec<HostStep> = Vec::new();
    self_steps(b, sq, t, &mut v);
    cross_steps(b, ctx, &mut v);
    mlp_steps(b, &mut v);
    assert(v@ =~= layer_of(*b, sq, t as int, ctx as int));
    proof {
        law_a_token_goes_through_the_layer(*b, sq, t as int, ctx as int);
    }
    v
}

/// The arguments of the table command: table, source, destination, length.
pub fn lut_args() -> (a: [u32; 4])
    ensures
        a@ == seq![A_LUT, A_Q, A_K, 1536u32],
{
    let a: [u32; 4] = [A_LUT, A_Q, A_K, 1536];
    assert(a@ =~= seq![A_LUT, A_Q, A_K, 1536u32]);
    a
}

// --- the token loop ---------------------------------------------------------------------

/// What follows the layers of a token.
#[derive(Clone, Copy, PartialEq, Eq, Structural, Debug)]
pub enum AfterToken {
    /// A token of the prompt: the next one is known.
    Prompt,
    /// Sample output token `out_idx`.
    Sample(usize),
}

/// Tokens that a decode runs at most.
pub fn steps_of(n_sot: usize, max_tokens: usize) -> (n: usize)
    requires
        1 <= n_sot,
        n_sot + max_tokens <= usize::MAX,
    ensures
        n == n_sot - 1 + max_tokens,
{
    n_sot - 1 + max_tokens
}

pub fn after_token(step: usize, n_sot: usize) -> (a: AfterToken)
    requires
        1 <= n_sot,
    ensures
        a == (if step < n_sot - 1 {
            AfterToken::Prompt
        } else {
            AfterToken::Sample((step - (n_sot - 1)) as usize)
        }),
{
    if step < n_sot - 1 {
        AfterToken::Prompt
    } else {
        AfterToken::Sample(step - (n_sot - 1))
    }
}

/// Values in order; some may repeat.
pub open spec fn sorted(s: Seq<u32>) -> bool {
    forall|i: int, j: int| 0 <= i < j < s.len() ==> s[i] <= s[j]
}

/// Whether a list in order has a value.
pub fn suppressed(list: &[u32], id: u32) -> (b: bool)
    requires
        sorted(list@),
    ensures
        b == list@.contains(id),
{
    let mut lo: usize = 0;
    let mut hi: usize = list.len();
    while lo < hi
        invariant
            lo <= hi <= list@.len(),
            sorted(list@),
            forall|k: int| 0 <= k < lo ==> list@[k] < id,
            forall|k: int| hi <= k < list@.len() ==> list@[k] > id,
        decreases hi - lo,
    {
        let mid: usize = lo + (hi - lo) / 2;
        let x: u32 = list[mid];
        if x == id {
            assert(list@[mid as int] == id);
            return true;
        }
        if x < id {
            assert forall|k: int| 0 <= k < mid + 1 implies list@[k] < id by {
                if k < mid {
                    assert(list@[k] <= list@[mid as int]);
                }
            }
            lo = mid + 1;
        } else {
            assert forall|k: int| mid <= k < list@.len() implies list@[k] > id by {
                if k > mid {
                    assert(list@[mid as int] <= list@[k]);
                }
            }
            hi = mid;
        }
    }
    assert forall|k: int| 0 <= k < list@.len() implies list@[k] != id by {}
    false
}

/// A token that may not be sampled: it is suppressed, or it is one of the
/// blanks and nothing has been put out yet.
pub open spec fn is_banned(id: u32, out_idx: int, suppress: Seq<u32>, blank: Seq<u32>) -> bool {
    suppress.contains(id) || (out_idx == 0 && blank.contains(id))
}

/// Whether a token may not be sampled.
pub fn banned(id: u32, out_idx: usize, suppress: &[u32], blank: &[u32]) -> (b: bool)
    requires
        sorted(suppress@),
    ensures
        b == is_banned(id, out_idx as int, suppress@, blank@),
{
    if suppressed(suppress, id) {
        return true;
    }
    if out_idx != 0 {
        return false;
    }
    let mut i: usize = 0;
    while i < blank.len()
        invariant
            i <= blank@.len(),
            out_idx == 0,
            !suppress@.contains(id),
            forall|k: int| 0 <= k < i ==> blank@[k] != id,
        decreases blank@.len() - i,
    {
        if blank[i] == id {
            assert(blank@[i as int] == id);
            return true;
        }
        i = i + 1;
    }
    false
}

/// How a sampled token stands to the recorded ones.
#[derive(Clone, Copy, PartialEq, Eq, Structural, Debug)]
pub enum Mark {
    Same,
    Different,
    Beyond,
}

/// Compares a sampled token with the recorded one, if there is one. The end
/// is never a deviation.
pub fn mark(golden: Option<u32>, best: u32, eot: u32) -> (m: Mark)
    ensures
        m == mark_of(golden, best, eot),
{
    if best == eot {
        return Mark::Same;
    }
    match golden {
        Some(g) => {
            if g == best {
                Mark::Same
            } else {
                Mark::Different
            }
        },
        None => Mark::Beyond,
    }
}

/// The words of a file; bytes that make no whole word are left out.
pub fn words_of(b: &[u8]) -> (v: Vec<u32>)
    ensures
        v@.len() == b@.len() / 4,
        forall|i: int| 0 <= i < v@.len() ==> #[trigger] v@[i] == le32(b@, 4 * i),
{
    let total: usize = b.len();
    let n: usize = total / 4;
    let mut v: Vec<u32> = Vec::new();
    let mut i: usize = 0;
    while i < n
        invariant
            i <= n,
            n == total / 4,
            total == b@.len(),
            v@.len() == i,
            forall|k: int| 0 <= k < i ==> #[trigger] v@[k] == le32(b@, 4 * k),
        decreases n - i,
    {
        v.push(get32(b, 4 * i));
        i = i + 1;
    }
    v
}

/// Whether a list is in order.
pub fn is_sorted(list: &[u32]) -> (b: bool)
    ensures
        b == sorted(list@),
{
    let mut i: usize = 1;
    while i < list.len()
        invariant
            1 <= i,
            forall|j: int, k: int| 0 <= j < k < i && k < list@.len() ==> list@[j] <= list@[k],
        decreases list@.len() - i,
    {
        if list[i - 1] > list[i] {
            assert(!(list@[i - 1] <= list@[i as int]));
            return false;
        }
        assert forall|j: int, k: int| 0 <= j < k < i + 1 && k < list@.len() implies list@[j]
            <= list@[k] by {
            if k == i && j < i - 1 {
                assert(list@[j] <= list@[i - 1]);
            }
        }
        i = i + 1;
    }
    true
}

/// The largest logit so far, as its order key, and its token.
#[derive(Clone, Copy, PartialEq, Eq, Structural, Debug)]
pub struct Pick {
    pub best: i32,
    pub id: u32,
}

/// The state after the token `id`, which `may` be sampled or not.
pub open spec fn offered(p: Pick, id: u32, key: i32, may: bool) -> Pick {
    if may && key > p.best {
        Pick { best: key, id }
    } else {
        p
    }
}

/// The state after the first `n` tokens of the vocabulary.
pub open spec fn picked(p: Pick, keys: Seq<i32>, may: spec_fn(int) -> bool, n: int) -> Pick
    decreases n,
{
    if n <= 0 {
        p
    } else {
        offered(picked(p, keys, may, n - 1), (n - 1) as u32, keys[n - 1], may(n - 1))
    }
}

impl Pick {
    /// Before any token: below every finite logit.
    pub fn new() -> (p: Pick)
        ensures
            p == no_pick(),
    {
        Pick { best: float_key(LOWEST_BITS), id: 0 }
    }

    /// One more token.
    pub fn offer(&mut self, id: u32, key: i32, may: bool)
        ensures
            *final(self) == offered(*old(self), id, key, may),
    {
        if may && key > self.best {
            self.best = key;
            self.id = id;
        }
    }
}

/// Before any token of the vocabulary.
pub open spec fn no_pick() -> Pick {
    Pick { best: order_key(LOWEST_BITS) as i32, id: 0 }
}

/// The token that a whole vocabulary gives: `keys` are the order keys of its
/// logits, and banned tokens take no part.
pub fn pick(keys: &[i32], out_idx: usize, suppress: &[u32], blank: &[u32]) -> (p: Pick)
    requires
        keys@.len() <= u32::MAX,
        sorted(suppress@),
    ensures
        p == picked(
            no_pick(),
            keys@,
            |i: int| !is_banned(i as u32, out_idx as int, suppress@, blank@),
            keys@.len() as int,
        ),
{
    let ghost may = |i: int| !is_banned(i as u32, out_idx as int, suppress@, blank@);
    let mut p = Pick::new();
    let mut id: usize = 0;
    while id < keys.len()
        invariant
            id <= keys@.len() <= u32::MAX,
            sorted(suppress@),
            may == (|i: int| !is_banned(i as u32, out_idx as int, suppress@, blank@)),
            p == picked(no_pick(), keys@, may, id as int),
        decreases keys@.len() - id,
    {
        let ok: bool = !banned(id as u32, out_idx, suppress, blank);
        assert(ok == may(id as int));
        p.offer(id as u32, keys[id], ok);
        id = id + 1;
    }
    p
}

/// The token that is picked has the largest logit of those that may be
/// sampled, and is the first of them.
pub proof fn law_the_pick_is_the_largest(
    p: Pick,
    keys: Seq<i32>,
    may: spec_fn(int) -> bool,
    n: int,
)
    requires
        0 <= n <= keys.len(),
        keys.len() <= u32::MAX,
    ensures
        ({
            let w = picked(p, keys, may, n);
            &&& w.best >= p.best
            &&& forall|i: int| 0 <= i < n && may(i) ==> w.best >= #[trigger] keys[i]
            &&& w == p || {
                &&& w.id < n
                &&& may(w.id as int)
                &&& keys[w.id as int] == w.best
                &&& forall|j: int| 0 <= j < w.id && may(j) ==> #[trigger] keys[j] < w.best
            }
        }),
    decreases n,
{
    if n > 0 {
        law_the_pick_is_the_largest(p, keys, may, n - 1);
        let before = picked(p, keys, may, n - 1);
        if may(n - 1) && keys[n - 1] > before.best {
            assert forall|j: int| 0 <= j < n - 1 && may(j) implies #[trigger] keys[j] < keys[n
                - 1] by {}
        }
    }
}

/// The token loop: the prompt and what has been sampled, where the loop
/// stands, and how often it left the record.
pub struct Tokens {
    pub tokens: Seq<u32>,
    pub step: int,
    pub ended: bool,
    pub deviations: int,
}

/// What does not change in a decode.
pub struct Prompt {
    pub n_sot: int,
    pub max_tokens: int,
    pub eot: u32,
    pub golden: Seq<u32>,
}

/// The recorded output token `i`.
pub open spec fn recorded(golden: Seq<u32>, i: int) -> Option<u32> {
    if 0 <= i < golden.len() {
        Some(golden[i])
    } else {
        None
    }
}

pub open spec fn mark_of(golden: Option<u32>, best: u32, eot: u32) -> Mark {
    if best == eot {
        Mark::Same
    } else {
        match golden {
            Some(g) => if g == best {
                Mark::Same
            } else {
                Mark::Different
            },
            None => Mark::Beyond,
        }
    }
}

/// Nothing more is run.
pub open spec fn over_of(p: Prompt, s: Tokens) -> bool {
    s.ended || s.step >= p.n_sot - 1 + p.max_tokens
}

/// The state after a token's layers; `best` is what was sampled, if it was.
pub open spec fn stepped(p: Prompt, s: Tokens, best: u32) -> Tokens {
    if over_of(p, s) {
        s
    } else if s.step < p.n_sot - 1 {
        Tokens { step: s.step + 1, ..s }
    } else {
        let m = mark_of(recorded(p.golden, s.step - (p.n_sot - 1)), best, p.eot);
        Tokens {
            tokens: if best == p.eot {
                s.tokens
            } else {
                s.tokens.push(best)
            },
            step: s.step + 1,
            ended: best == p.eot,
            deviations: s.deviations + (if m is Same {
                0int
            } else {
                1
            }),
        }
    }
}

/// The state after `n` steps; `best[i]` is what step `i` sampled.
pub open spec fn after_tokens(p: Prompt, s: Tokens, best: Seq<u32>, n: int) -> Tokens
    decreases n,
{
    if n <= 0 {
        s
    } else {
        stepped(p, after_tokens(p, s, best, n - 1), best[n - 1])
    }
}

/// Where a decode begins.
pub open spec fn begun(sot: Seq<u32>) -> Tokens {
    Tokens { tokens: sot, step: 0, ended: false, deviations: 0 }
}

pub struct TokenLoop {
    pub tokens: Vec<u32>,
    pub step: usize,
    pub ended: bool,
    pub deviations: usize,
    pub n_sot: usize,
    pub max_tokens: usize,
    pub eot: u32,
    pub golden: Vec<u32>,
}

impl TokenLoop {
    pub open spec fn view(&self) -> Tokens {
        Tokens {
            tokens: self.tokens@,
            step: self.step as int,
            ended: self.ended,
            deviations: self.deviations as int,
        }
    }

    pub open spec fn prompt(&self) -> Prompt {
        Prompt {
            n_sot: self.n_sot as int,
            max_tokens: self.max_tokens as int,
            eot: self.eot,
            golden: self.golden@,
        }
    }

    pub open spec fn wf(&self) -> bool {
        &&& 1 <= self.n_sot
        &&& self.n_sot + self.max_tokens <= usize::MAX
        &&& self.step <= self.n_sot - 1 + self.max_tokens
        &&& self.deviations <= self.step
        &&& self.tokens@.len() >= self.n_sot
        &&& !self.ended && self.step >= self.n_sot ==> self.tokens@.len() == self.step + 1
        &&& self.ended ==> self.tokens@.len() == self.step
        &&& !self.ended && self.step < self.n_sot ==> self.tokens@.len() == self.n_sot
    }

    pub fn new(sot: Vec<u32>, max_tokens: usize, eot: u32, golden: Vec<u32>) -> (t: TokenLoop)
        requires
            1 <= sot@.len(),
            sot@.len() + max_tokens <= usize::MAX,
        ensures
            t.wf(),
            t@ == begun(sot@),
            t.prompt() == (Prompt {
                n_sot: sot@.len() as int,
                max_tokens: max_tokens as int,
                eot,
                golden: golden@,
            }),
    {
        let n_sot: usize = sot.len();
        TokenLoop {
            tokens: sot,
            step: 0,
            ended: false,
            deviations: 0,
            n_sot,
            max_tokens,
            eot,
            golden,
        }
    }

    /// The token whose layers come next, if any do.
    pub fn next(&self) -> (t: Option<u32>)
        requires
            self.wf(),
        ensures
            t == (if over_of(self.prompt(), self@) {
                None::<u32>
            } else {
                Some(self@.tokens[self@.step])
            }),
    {
        if self.ended || self.step >= steps_of(self.n_sot, self.max_tokens) {
            return None;
        }
        Some(self.tokens[self.step])
    }

    /// What follows the layers of that token.
    pub fn after(&self) -> (a: AfterToken)
        requires
            self.wf(),
        ensures
            a == (if self@.step < self.prompt().n_sot - 1 {
                AfterToken::Prompt
            } else {
                AfterToken::Sample((self@.step - (self.prompt().n_sot - 1)) as usize)
            }),
    {
        after_token(self.step, self.n_sot)
    }

    /// A token of the prompt has been run.
    pub fn prompted(&mut self)
        requires
            old(self).wf(),
            old(self)@.step < old(self).prompt().n_sot - 1,
            !over_of(old(self).prompt(), old(self)@),
        ensures
            final(self).wf(),
            final(self).prompt() == old(self).prompt(),
            forall|best: u32| final(self)@ == stepped(old(self).prompt(), old(self)@, best),
    {
        self.step = self.step + 1;
    }

    /// A token has been sampled.
    pub fn sampled(&mut self, best: u32) -> (m: Mark)
        requires
            old(self).wf(),
            old(self)@.step >= old(self).prompt().n_sot - 1,
            !over_of(old(self).prompt(), old(self)@),
        ensures
            final(self).wf(),
            final(self).prompt() == old(self).prompt(),
            final(self)@ == stepped(old(self).prompt(), old(self)@, best),
            m == mark_of(
                recorded(old(self).golden@, old(self)@.step - (old(self).prompt().n_sot - 1)),
                best,
                old(self).eot,
            ),
    {
        let i: usize = self.step - (self.n_sot - 1);
        let golden: Option<u32> = if i < self.golden.len() {
            Some(self.golden[i])
        } else {
            None
        };
        let m = mark(golden, best, self.eot);
        if m != Mark::Same {
            self.deviations = self.deviations + 1;
        }
        self.step = self.step + 1;
        if best == self.eot {
            self.ended = true;
        } else {
            self.tokens.push(best);
        }
        m
    }

    /// How many tokens have been put out.
    pub fn put_out(&self) -> (n: usize)
        requires
            self.wf(),
        ensures
            n == self@.tokens.len() - self.prompt().n_sot,
    {
        self.tokens.len() - self.n_sot
    }
}

/// What holds of every state that a decode reaches: it never runs past its
/// limit, the prompt stays in front, the end token is never put out, and a
/// decode without a deviation has put out what was recorded.
pub open spec fn sound(p: Prompt, sot: Seq<u32>, s: Tokens) -> bool {
    &&& 0 <= s.step <= p.n_sot - 1 + p.max_tokens
    &&& s.deviations >= 0
    &&& p.n_sot <= s.tokens.len() <= p.n_sot + p.max_tokens
    &&& s.tokens.take(p.n_sot) == sot
    &&& !s.ended ==> s.tokens.len() == (if s.step < p.n_sot {
        p.n_sot
    } else {
        s.step + 1
    })
    &&& forall|i: int| p.n_sot <= i < s.tokens.len() ==> #[trigger] s.tokens[i] != p.eot
    &&& s.deviations == 0 ==> forall|i: int|
        p.n_sot <= i < s.tokens.len() ==> recorded(p.golden, i - p.n_sot) == Some(
            #[trigger] s.tokens[i],
        )
}

/// Whatever is sampled, a decode ends: after so many steps as the prompt and
/// the limit allow nothing more is run. Until then the prompt stays in front
/// of what is put out, the end token is never put out, no more tokens come
/// out than the limit, and if nothing deviated they are the recorded ones.
pub proof fn law_the_token_loop_ends(p: Prompt, sot: Seq<u32>, best: Seq<u32>, n: int)
    requires
        1 <= p.n_sot == sot.len(),
        0 <= p.max_tokens,
        0 <= n,
    ensures
        ({
            let s = after_tokens(p, begun(sot), best, n);
            &&& sound(p, sot, s)
            &&& over_of(p, s) || s.step == n
            &&& n >= p.n_sot - 1 + p.max_tokens ==> over_of(p, s)
        }),
    decreases n,
{
    if n > 0 {
        law_the_token_loop_ends(p, sot, best, n - 1);
        let s = after_tokens(p, begun(sot), best, n - 1);
        let t = after_tokens(p, begun(sot), best, n);
        if !over_of(p, s) && s.step >= p.n_sot - 1 && best[n - 1] != p.eot {
            assert(t.tokens == s.tokens.push(best[n - 1]));
            assert(t.tokens.take(p.n_sot) =~= s.tokens.take(p.n_sot));
            let k = s.tokens.len() as int;
            assert(k - p.n_sot == s.step - (p.n_sot - 1));
            if t.deviations == 0 {
                assert(s.deviations == 0);
                assert forall|i: int| p.n_sot <= i < t.tokens.len() implies recorded(
                    p.golden,
                    i - p.n_sot,
                ) == Some(#[trigger] t.tokens[i]) by {
                    if i < k {
                        assert(t.tokens[i] == s.tokens[i]);
                    }
                }
            }
            assert forall|i: int| p.n_sot <= i < t.tokens.len() implies #[trigger] t.tokens[i]
                != p.eot by {
                if i < k {
                    assert(t.tokens[i] == s.tokens[i]);
                }
            }
        }
    } else {
        assert(sot.take(p.n_sot) =~= sot);
    }
}

/// What is put out behind the prompt is what was sampled, in the order of the
/// samples, from the last prompt token's step on. A decode ends with the end
/// token and puts out everything sampled before it. Where all of it was
/// recorded, nothing deviates.
pub proof fn law_what_is_put_out_was_sampled(p: Prompt, sot: Seq<u32>, best: Seq<u32>, n: int)
    requires
        1 <= p.n_sot == sot.len(),
        0 <= p.max_tokens,
        0 <= n,
    ensures
        ({
            let s = after_tokens(p, begun(sot), best, n);
            &&& forall|i: int|
                p.n_sot <= i < s.tokens.len() ==> #[trigger] s.tokens[i] == best[i - 1]
            &&& s.ended ==> p.n_sot <= s.step == s.tokens.len() && best[s.step - 1] == p.eot
            &&& (forall|i: int|
                p.n_sot <= i < s.tokens.len() ==> recorded(p.golden, i - p.n_sot) == Some(
                    #[trigger] s.tokens[i],
                )) ==> s.deviations == 0
        }),
    decreases n,
{
    if n > 0 {
        law_what_is_put_out_was_sampled(p, sot, best, n - 1);
        law_the_token_loop_ends(p, sot, best, n - 1);
        let s = after_tokens(p, begun(sot), best, n - 1);
        let t = after_tokens(p, begun(sot), best, n);
        if !over_of(p, s) && s.step >= p.n_sot - 1 && best[n - 1] != p.eot {
            let k = s.tokens.len() as int;
            assert(t.tokens == s.tokens.push(best[n - 1]));
            assert forall|i: int| p.n_sot <= i < t.tokens.len() implies #[trigger] t.tokens[i]
                == best[i - 1] by {
                if i < k {
                    assert(t.tokens[i] == s.tokens[i]);
                }
            }
            if forall|i: int|
                p.n_sot <= i < t.tokens.len() ==> recorded(p.golden, i - p.n_sot) == Some(
                    #[trigger] t.tokens[i],
                ) {
                assert forall|i: int| p.n_sot <= i < k implies recorded(p.golden, i - p.n_sot)
                    == Some(#[trigger] s.tokens[i]) by {
                    assert(t.tokens[i] == s.tokens[i]);
                }
                assert(recorded(p.golden, k - p.n_sot) == Some(t.tokens[k]));
            }
        }
    }
}

/// The host calls a layer's blobs as the image does.
pub proof fn law_the_host_names_blobs_as_the_image_does(j: u32)
    requires
        j < 4,
    ensures
        key_of(HostBlob::Q) == kind_name(Kind::Q),
        key_of(HostBlob::K) == kind_name(Kind::K),
        key_of(HostBlob::V) == kind_name(Kind::V),
        key_of(HostBlob::Out) == kind_name(Kind::Out),
        key_of(HostBlob::Xq) == kind_name(Kind::Xq),
        key_of(HostBlob::Xout) == kind_name(Kind::Xout),
        key_of(HostBlob::Fc1(j))@ == kind_name(Kind::Fc1)@ + part_name(j as int)@,
        key_of(HostBlob::Fc2(j))@ == kind_name(Kind::Fc2p)@ + digit_name(j as int)@,
{
    reveal_strlit("fc1");
    reveal_strlit("fc2p");
    reveal_strlit("a");
    reveal_strlit("b");
    reveal_strlit("c");
    reveal_strlit("d");
    reveal_strlit("0");
    reveal_strlit("1");
    reveal_strlit("2");
    reveal_strlit("3");
    reveal_strlit("fc1a");
    reveal_strlit("fc1b");
    reveal_strlit("fc1c");
    reveal_strlit("fc1d");
    reveal_strlit("fc2p0");
    reveal_strlit("fc2p1");
    reveal_strlit("fc2p2");
    reveal_strlit("fc2p3");
}

/// A token is banned where it is suppressed, and at the first place also
/// where it is blank.
pub proof fn law_blanks_are_banned_at_the_first_place_only(
    id: u32,
    i: int,
    suppress: Seq<u32>,
    blank: Seq<u32>,
)
    requires
        0 <= i,
    ensures
        suppress.contains(id) ==> is_banned(id, i, suppress, blank),
        !suppress.contains(id) && !blank.contains(id) ==> !is_banned(id, i, suppress, blank),
        !suppress.contains(id) && blank.contains(id) ==> (is_banned(id, i, suppress, blank) <==> i
            == 0),
{
}

/// A sampled token deviates where something else was recorded, or nothing.
pub proof fn law_a_deviation_is_a_difference(golden: Seq<u32>, i: int, best: u32, eot: u32)
    requires
        0 <= i,
        best != eot,
    ensures
        mark_of(recorded(golden, i), best, eot) == Mark::Same <==> i < golden.len() && golden[i]
            == best,
        mark_of(recorded(golden, i), best, eot) == Mark::Beyond <==> i >= golden.len(),
        mark_of(recorded(golden, i), eot, eot) == Mark::Same,
{
}

} // verus!
