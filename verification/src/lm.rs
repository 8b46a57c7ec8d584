//! The LM head: the hidden vector against every kept row of the embedding,
//! streamed in chunks of 64 rows, and the largest logit.
//!
//! A chunk is one read: the rows' scales and token ids, then the weights,
//! either as int8 or as four-bit groups. Logits are floating-point products
//! of the integer dots here; they come back as order keys, integers that
//! compare as the numbers do.

use crate::bytes::{get32, le32};
use crate::dsp::{
    dot16, dot384_2rows, dot384_2rows_i8, dot8_swapped, int8, signed8, swapped, wrap32,
};
use crate::layout::{slot, slot_buf, Buf, C, DE_CHUNK};
use crate::plan::Plan;
use crate::sums::sum;
use crate::q4::{
    is_tables16, law_tables_hold_patterns, law_unpack16_is_unpack, unpack16, unpacked, TABLES16,
};
use vstd::prelude::*;
use vstd::slice::slice_subrange;

verus! {

/// Rows of a chunk.
pub const ROWS: usize = 64;

/// Offsets in a chunk: scales, ids, then the weights.
pub const CH_SCL: usize = 0;

pub const CH_IDS: usize = 256;

/// Four-bit chunk: group magnitudes, then the nibbles.
pub const CH_AMAX: usize = 512;

pub const CH_NIBS: usize = 896;

pub const CH4_USED: usize = 13184;

pub const CH4_BLOCKS: usize = 26;

/// int8 chunk: the rows themselves.
pub const CH_ROWS: usize = 512;

pub const CH8_BLOCKS: usize = 49;

/// The chunk sizes follow from the row count.
pub proof fn law_chunk_layout()
    ensures
        CH_IDS == CH_SCL + 4 * ROWS,
        CH_AMAX == CH_IDS + 4 * ROWS,
        CH_ROWS == CH_AMAX,
        CH_NIBS == CH_AMAX + ROWS * C / 64,
        CH4_USED == CH_NIBS + ROWS * C / 2,
        CH4_BLOCKS == (CH4_USED + 511) / 512,
        CH4_BLOCKS == crate::q4::EMB_CHUNK_BLOCKS,
        CH8_BLOCKS * 512 == CH_ROWS + ROWS * C,
{
}

/// Weight `c` of row `r` of a chunk.
pub open spec fn emb_weight(il: Seq<u8>, rows8: bool, r: int, c: int) -> int {
    if rows8 {
        signed8(il[CH_ROWS + 384 * r + c])
    } else {
        unpacked(
            il.subrange(CH_AMAX as int, CH_NIBS as int),
            il.subrange(CH_NIBS as int, CH4_USED as int),
            384 * r + c,
        )
    }
}

/// The first `n` products of row `r` and the hidden vector, whose columns
/// are in swapped order for int8 rows.
pub open spec fn emb_dot(il: Seq<u8>, rows8: bool, hq: Seq<i16>, r: int, n: int) -> int
    decreases n,
{
    if n <= 0 {
        0
    } else {
        emb_dot(il, rows8, hq, r, n - 1) + emb_weight(il, rows8, r, n - 1) * hq[if rows8 {
            swapped(n - 1)
        } else {
            n - 1
        }]
    }
}

proof fn lemma_dot_int8(il: Seq<u8>, v: Seq<i8>, vo: int, hq: Seq<i16>, r: int, n: int)
    requires
        0 <= n <= 384,
        forall|c: int| 0 <= c < 384 ==> #[trigger] v[vo + c] == signed8(il[CH_ROWS + 384 * r + c]),
    ensures
        dot8_swapped(v, vo, hq, n) == emb_dot(il, true, hq, r, n),
    decreases n,
{
    if n > 0 {
        lemma_dot_int8(il, v, vo, hq, r, n - 1);
        assert(v[vo + (n - 1)] == signed8(il[CH_ROWS + 384 * r + (n - 1)]));
    }
}

proof fn lemma_dot_int16(il: Seq<u8>, v: Seq<i16>, vo: int, hq: Seq<i16>, r: int, n: int)
    requires
        0 <= n <= 384,
        forall|c: int| 0 <= c < 384 ==> #[trigger] v[vo + c] == emb_weight(il, false, r, c),
    ensures
        dot16(v, vo, hq, 0, n) == emb_dot(il, false, hq, r, n),
    decreases n,
{
    if n > 0 {
        lemma_dot_int16(il, v, vo, hq, r, n - 1);
        assert(v[vo + (n - 1)] == emb_weight(il, false, r, n - 1));
    }
}

/// Two consecutive int8 rows of a chunk.
fn rows_of(il: &[u8], r: usize) -> (v: Vec<i8>)
    requires
        r + 2 <= 64,
        il@.len() >= CH_ROWS + ROWS * C,
    ensures
        v@.len() == 768,
        forall|c: int|
            0 <= c < 768 ==> #[trigger] v@[c] == signed8(il@[CH_ROWS + 384 * r + c]),
{
    let mut v: Vec<i8> = Vec::new();
    let mut c: usize = 0;
    while c < 768
        invariant
            c <= 768,
            r + 2 <= 64,
            il@.len() >= CH_ROWS + ROWS * C,
            v@.len() == c,
            forall|d: int|
                0 <= d < c ==> #[trigger] v@[d] == signed8(il@[CH_ROWS + 384 * r + d]),
        decreases 768 - c,
    {
        v.push(int8(il[CH_ROWS + 384 * r + c]));
        c = c + 1;
    }
    v
}

/// All 64 rows of a four-bit chunk as int16.
fn rows16_of(il: &[u8], tables: &[u32; TABLES16]) -> (v: Vec<i16>)
    requires
        il@.len() >= CH4_USED,
        is_tables16(tables@),
    ensures
        v@.len() == 24576,
        forall|r: int, c: int|
            0 <= r < 64 && 0 <= c < 384 ==> #[trigger] emb_weight(il@, false, r, c) == v@[384 * r
                + c],
{
    let mut v: Vec<i16> = vec![0i16; 24576];
    let amax = slice_subrange(il, CH_AMAX, CH_NIBS);
    let nibs = slice_subrange(il, CH_NIBS, CH4_USED);
    proof {
        law_tables_hold_patterns(tables@);
    }
    unpack16(tables, amax, nibs, v.as_mut_slice());
    assert forall|r: int, c: int| 0 <= r < 64 && 0 <= c < 384 implies #[trigger] emb_weight(
        il@,
        false,
        r,
        c,
    ) == v@[384 * r + c] by {
        let i = 384 * r + c;
        law_unpack16_is_unpack(tables@, amax@, nibs@, i, v@[i]);
    }
    v
}

/// The integer dots of all rows of a chunk with the quantised hidden
/// vector.
pub fn chunk_dots(il: &[u8], rows8: bool, hq: &[i16], tables: &[u32; TABLES16]) -> (d: Vec<i32>)
    requires
        rows8 ==> il@.len() >= CH_ROWS + ROWS * C,
        !rows8 ==> il@.len() >= CH4_USED && is_tables16(tables@),
        hq@.len() == C,
    ensures
        d@.len() == ROWS,
        forall|r: int|
            0 <= r < ROWS ==> #[trigger] d@[r] == wrap32(emb_dot(il@, rows8, hq@, r, 384)),
{
    let mut d: Vec<i32> = Vec::new();
    let mut r: usize = 0;
    if rows8 {
        while r < 64
            invariant
                r <= 64,
                r % 2 == 0,
                il@.len() >= CH_ROWS + ROWS * C,
                hq@.len() == C,
                d@.len() == r,
                forall|k: int|
                    0 <= k < r ==> #[trigger] d@[k] == wrap32(emb_dot(il@, true, hq@, k, 384)),
            decreases 64 - r,
        {
            let v = rows_of(il, r);
            let p = dot384_2rows_i8(v.as_slice(), hq);
            proof {
                assert forall|c: int| 0 <= c < 384 implies #[trigger] v@[0 + c] == signed8(
                    il@[CH_ROWS + 384 * r + c],
                ) by {}
                assert forall|c: int| 0 <= c < 384 implies #[trigger] v@[384 + c] == signed8(
                    il@[CH_ROWS + 384 * (r + 1) + c],
                ) by {}
                lemma_dot_int8(il@, v@, 0, hq@, r as int, 384);
                lemma_dot_int8(il@, v@, 384, hq@, r + 1, 384);
            }
            d.push(p[0]);
            d.push(p[1]);
            r = r + 2;
        }
    } else {
        let rows = rows16_of(il, tables);
        while r < 64
            invariant
                r <= 64,
                r % 2 == 0,
                hq@.len() == C,
                d@.len() == r,
                rows@.len() == 24576,
                forall|q: int, c: int|
                    0 <= q < 64 && 0 <= c < 384 ==> #[trigger] emb_weight(il@, false, q, c)
                        == rows@[384 * q + c],
                forall|k: int|
                    0 <= k < r ==> #[trigger] d@[k] == wrap32(emb_dot(il@, false, hq@, k, 384)),
            decreases 64 - r,
        {
            let v = slice_subrange(rows.as_slice(), 384 * r, 384 * r + 768);
            let p = dot384_2rows(v, hq);
            proof {
                assert forall|c: int| 0 <= c < 384 implies #[trigger] v@[0 + c] == emb_weight(
                    il@,
                    false,
                    r as int,
                    c,
                ) by {}
                assert forall|c: int| 0 <= c < 384 implies #[trigger] v@[384 + c] == emb_weight(
                    il@,
                    false,
                    r + 1,
                    c,
                ) by {
                    assert(emb_weight(il@, false, r + 1, c) == rows@[384 * (r + 1) + c]);
                }
                lemma_dot_int16(il@, v@, 0, hq@, r as int, 384);
                lemma_dot_int16(il@, v@, 384, hq@, r + 1, 384);
            }
            d.push(p[0]);
            d.push(p[1]);
            r = r + 2;
        }
    }
    d
}

// --- which rows count -------------------------------------------------------------------

/// An integer that compares as the single-precision number with these bits
/// does; both zeros give 0.
pub open spec fn order_key(bits: u32) -> int {
    if bits < 0x8000_0000 {
        bits as int
    } else {
        0x8000_0000 - bits
    }
}

pub fn float_key(bits: u32) -> (k: i32)
    ensures
        k == order_key(bits),
{
    if bits < 0x8000_0000 {
        bits as i32
    } else {
        -((bits - 0x8000_0000) as i32)
    }
}

/// The bits of no number.
pub open spec fn is_nan(bits: u32) -> bool {
    bits % 0x8000_0000u32 > 0x7F80_0000
}

/// The order key of a logit. One that is no number never wins: it ranks
/// below all others.
pub fn rank(bits: u32) -> (k: i32)
    ensures
        k == (if is_nan(bits) {
            i32::MIN as int
        } else {
            order_key(bits)
        }),
{
    if bits % 0x8000_0000 > 0x7F80_0000 {
        i32::MIN
    } else {
        float_key(bits)
    }
}

/// The most negative finite number, from which the search starts.
pub const LOWEST_BITS: u32 = 0xFF7F_FFFF;

/// The scale bits and the token id of a row.
pub fn row_head(il: &[u8], row: usize) -> (h: (u32, u32))
    requires
        row < ROWS,
        il@.len() >= CH_AMAX,
    ensures
        h.0 == le32(il@, CH_SCL + 4 * row),
        h.1 == le32(il@, CH_IDS + 4 * row),
{
    (get32(il, CH_SCL + 4 * row), get32(il, CH_IDS + 4 * row))
}

/// A scale that says the row is no output: zero for padding, negative for
/// input-only rows. A NaN is none of these.
pub open spec fn is_skipped(bits: u32) -> bool {
    bits == 0 || 0x8000_0000 <= bits <= 0xFF80_0000
}

/// Whether row `row` of a chunk of which `n` rows are kept takes part.
pub fn counts(row: usize, n: usize, scale: u32) -> (b: bool)
    ensures
        b == (row < n && !is_skipped(scale)),
{
    row < n && !(scale == 0 || (0x8000_0000 <= scale && scale <= 0xFF80_0000))
}

/// Tokens that may not come first.
pub open spec fn is_blank(plan: Plan, id: u32) -> bool {
    id == plan.eot || exists|i: int| 0 <= i < plan.n_blank && #[trigger] plan.blank[i] == id
}

pub fn blank(plan: &Plan, id: u32) -> (b: bool)
    requires
        plan.n_blank <= 4,
    ensures
        b == is_blank(*plan, id),
{
    if id == plan.eot {
        return true;
    }
    let mut i: usize = 0;
    while i < plan.n_blank
        invariant
            i <= plan.n_blank <= 4,
            id != plan.eot,
            forall|j: int| 0 <= j < i ==> #[trigger] plan.blank[j] != id,
        decreases plan.n_blank - i,
    {
        if plan.blank[i] == id {
            return true;
        }
        i = i + 1;
    }
    false
}

/// A row that takes part: its logit's order key, its token and its kept
/// position.
pub ghost struct Candidate {
    pub key: i32,
    pub id: u32,
    pub pos: usize,
}

/// The best row so far, and the runner-up's key.
#[derive(Clone, Copy, PartialEq, Eq, Structural, Debug)]
pub struct LmBest {
    pub best: i32,
    pub best2: i32,
    pub id: u32,
    pub pos: usize,
}

/// A row that may win: on the first token blanks may not.
pub open spec fn may_win(plan: Plan, first: bool, c: Candidate) -> bool {
    !(first && is_blank(plan, c.id))
}

pub open spec fn best_after(plan: Plan, first: bool, s: LmBest, c: Candidate) -> LmBest {
    if c.key > s.best {
        if may_win(plan, first, c) {
            LmBest { best: c.key, best2: s.best, id: c.id, pos: c.pos }
        } else {
            s
        }
    } else if c.key > s.best2 {
        LmBest { best2: c.key, ..s }
    } else {
        s
    }
}

/// Before any row: the end token, below every finite logit.
pub open spec fn before_rows(plan: Plan) -> LmBest {
    let low = order_key(LOWEST_BITS) as i32;
    LmBest { best: low, best2: low, id: plan.eot, pos: 0 }
}

/// The scale bits and the token of row `r` of a chunk.
pub open spec fn scale_of(il: Seq<u8>, r: int) -> u32 {
    le32(il, CH_SCL + 4 * r) as u32
}

pub open spec fn id_of(il: Seq<u8>, r: int) -> u32 {
    le32(il, CH_IDS + 4 * r) as u32
}

/// The best after the first `n` rows of a chunk of which `rows` are kept and
/// whose first row is `row0`; `keys` are the order keys of the rows' logits.
pub open spec fn fold_rows(
    plan: Plan,
    first: bool,
    s: LmBest,
    il: Seq<u8>,
    rows: int,
    row0: int,
    keys: Seq<i32>,
    n: int,
) -> LmBest
    decreases n,
{
    if n <= 0 {
        s
    } else {
        let w = fold_rows(plan, first, s, il, rows, row0, keys, n - 1);
        if n - 1 < rows && !is_skipped(scale_of(il, n - 1)) {
            best_after(
                plan,
                first,
                w,
                Candidate {
                    key: keys[n - 1],
                    id: id_of(il, n - 1),
                    pos: (row0 + n - 1) as usize,
                },
            )
        } else {
            w
        }
    }
}

impl LmBest {
    /// Before any row: the end token, below every finite logit.
    pub fn new(plan: &Plan) -> (s: LmBest)
        ensures
            s == before_rows(*plan),
    {
        let low: i32 = float_key(LOWEST_BITS);
        LmBest { best: low, best2: low, id: plan.eot, pos: 0 }
    }

    /// One more row.
    pub fn consider(&mut self, plan: &Plan, first: bool, key: i32, id: u32, pos: usize)
        requires
            plan.n_blank <= 4,
        ensures
            *final(self) == best_after(*plan, first, *old(self), Candidate { key, id, pos }),
    {
        if key > self.best {
            if first && blank(plan, id) {
                return;
            }
            self.best2 = self.best;
            self.best = key;
            self.id = id;
            self.pos = pos;
        } else if key > self.best2 {
            self.best2 = key;
        }
    }

    /// The rows of a chunk, in their order: those that are kept and are an
    /// output take part.
    pub fn chunk(
        &mut self,
        plan: &Plan,
        first: bool,
        il: &[u8],
        rows: usize,
        row0: usize,
        keys: &[i32],
    )
        requires
            plan.n_blank <= 4,
            il@.len() >= CH_AMAX,
            keys@.len() == ROWS,
            row0 + (if rows < 64 {
                rows as int
            } else {
                64
            }) <= usize::MAX,
        ensures
            *final(self) == fold_rows(
                *plan,
                first,
                *old(self),
                il@,
                rows as int,
                row0 as int,
                keys@,
                64,
            ),
    {
        let ghost start = *self;
        let mut r: usize = 0;
        while r < ROWS
            invariant
                r <= 64,
                plan.n_blank <= 4,
                il@.len() >= CH_AMAX,
                keys@.len() == ROWS,
                row0 + (if rows < 64 {
                    rows as int
                } else {
                    64
                }) <= usize::MAX,
                *self == fold_rows(
                    *plan,
                    first,
                    start,
                    il@,
                    rows as int,
                    row0 as int,
                    keys@,
                    r as int,
                ),
            decreases 64 - r,
        {
            let (scale, id) = row_head(il, r);
            if counts(r, rows, scale) {
                self.consider(plan, first, keys[r], id, row0 + r);
            }
            r = r + 1;
        }
    }
}

// --- streaming --------------------------------------------------------------------------

/// Chunks alternate between two buffers: one streams in while the other is
/// dotted.
#[derive(Clone, Copy, PartialEq, Eq, Structural, Debug)]
pub enum LmStep {
    /// Read this chunk into the buffer, in the background.
    Start { block: u32, buf: Buf },
    Wait,
    /// Dot a chunk of which `rows` rows are kept; the first is row `first`.
    Dots { buf: Buf, first: usize, rows: usize },
}

/// Chunks that hold `vocab_n` rows.
pub open spec fn chunk_count(vocab_n: int) -> int {
    (vocab_n + 63) / 64
}

pub open spec fn chunk_blocks(rows8: bool) -> int {
    if rows8 {
        49
    } else {
        26
    }
}

pub open spec fn chunk_buf(rows8: bool, chunk: int) -> Buf {
    let bytes = 512 * chunk_blocks(rows8);
    slot_buf(
        if chunk % 2 == 0 {
            DE_CHUNK as int
        } else {
            DE_CHUNK + bytes
        },
        bytes,
    )
}

pub open spec fn start_chunk(rows8: bool, chunk: int) -> LmStep {
    LmStep::Start { block: (chunk * chunk_blocks(rows8)) as u32, buf: chunk_buf(rows8, chunk) }
}

/// Rows of chunk `chunk` that are kept.
pub open spec fn kept_rows(vocab_n: int, chunk: int) -> int {
    if vocab_n - 64 * chunk < 64 {
        vocab_n - 64 * chunk
    } else {
        64
    }
}

pub open spec fn lm_chunk(rows8: bool, vocab_n: int, chunk: int) -> Seq<LmStep> {
    seq![LmStep::Wait] + (if chunk + 1 < chunk_count(vocab_n) {
        seq![start_chunk(rows8, chunk + 1)]
    } else {
        Seq::empty()
    }) + seq![
        LmStep::Dots {
            buf: chunk_buf(rows8, chunk),
            first: (64 * chunk) as usize,
            rows: kept_rows(vocab_n, chunk) as usize,
        },
    ]
}

pub open spec fn lm_chunks(rows8: bool, vocab_n: int, n: int) -> Seq<LmStep>
    decreases n,
{
    if n <= 0 {
        Seq::empty()
    } else {
        lm_chunks(rows8, vocab_n, n - 1) + lm_chunk(rows8, vocab_n, n - 1)
    }
}

/// The pass over the whole embedding. With nothing kept the first chunk is
/// still started.
pub open spec fn lm_steps(rows8: bool, vocab_n: int) -> Seq<LmStep> {
    seq![start_chunk(rows8, 0)] + lm_chunks(rows8, vocab_n, chunk_count(vocab_n))
}

/// No chunk is dotted in the buffer that another one fills.
pub proof fn law_chunks_alternate(rows8: bool, chunk: int)
    requires
        0 <= chunk,
    ensures
        chunk_buf(rows8, chunk).inside(),
        chunk_buf(rows8, chunk).apart(chunk_buf(rows8, chunk + 1)),
{
}

/// The rows of the chunks are the kept rows, each once.
pub proof fn law_chunks_cover_the_vocabulary(vocab_n: int, row: int)
    requires
        0 <= row < vocab_n,
    ensures
        0 <= row / 64 < chunk_count(vocab_n),
        0 <= row - 64 * (row / 64) < kept_rows(vocab_n, row / 64),
{
}

fn chunk_buffer(rows8: bool, chunk: usize) -> (b: Buf)
    ensures
        b == chunk_buf(rows8, chunk as int),
{
    let bytes: usize = if rows8 {
        25088
    } else {
        13312
    };
    if chunk % 2 == 0 {
        slot(DE_CHUNK, bytes)
    } else {
        slot(DE_CHUNK + bytes, bytes)
    }
}

/// The reads and dots of one pass over a vocabulary of `vocab_n` rows.
pub fn lm_head(rows8: bool, vocab_n: usize) -> (r: Vec<LmStep>)
    requires
        vocab_n <= u32::MAX,
    ensures
        r@ == lm_steps(rows8, vocab_n as int),
{
    let blocks: u32 = if rows8 {
        49
    } else {
        26
    };
    let n: usize = vocab_n / 64 + (if vocab_n % 64 == 0 {
        0
    } else {
        1
    });
    let mut r: Vec<LmStep> = Vec::new();
    r.push(LmStep::Start { block: 0, buf: chunk_buffer(rows8, 0) });
    let ghost head = seq![start_chunk(rows8, 0)];
    let mut chunk: usize = 0;
    assert(r@ =~= head + lm_chunks(rows8, vocab_n as int, 0));
    while chunk < n
        invariant
            chunk <= n,
            n == chunk_count(vocab_n as int),
            vocab_n <= u32::MAX,
            blocks == chunk_blocks(rows8),
            r@ == head + lm_chunks(rows8, vocab_n as int, chunk as int),
        decreases n - chunk,
    {
        let ghost before = r@;
        r.push(LmStep::Wait);
        if chunk + 1 < n {
            let next: u32 = chunk as u32 + 1;
            assert((chunk + 1) * chunk_blocks(rows8) == (if rows8 {
                49 * (chunk + 1)
            } else {
                26 * (chunk + 1)
            }));
            let block: u32 = if rows8 {
                49 * next
            } else {
                26 * next
            };
            r.push(LmStep::Start { block, buf: chunk_buffer(rows8, chunk + 1) });
        }
        let left: usize = vocab_n - 64 * chunk;
        let rows: usize = if left < 64 {
            left
        } else {
            64
        };
        r.push(LmStep::Dots { buf: chunk_buffer(rows8, chunk), first: 64 * chunk, rows });
        assert(r@ =~= before + lm_chunk(rows8, vocab_n as int, chunk as int));
        assert(r@ =~= head + lm_chunks(rows8, vocab_n as int, chunk + 1));
        chunk = chunk + 1;
    }
    r
}

// --- the whole pass ---------------------------------------------------------------------

/// The best after the first `n` chunks of a vocabulary of `vocab_n` rows:
/// chunk `c` is `ils[c]`, and `keys[c]` are the order keys of its logits.
pub open spec fn fold_chunks(
    plan: Plan,
    first: bool,
    ils: Seq<Seq<u8>>,
    keys: Seq<Seq<i32>>,
    vocab_n: int,
    n: int,
) -> LmBest
    decreases n,
{
    if n <= 0 {
        before_rows(plan)
    } else {
        fold_rows(
            plan,
            first,
            fold_chunks(plan, first, ils, keys, vocab_n, n - 1),
            ils[n - 1],
            kept_rows(vocab_n, n - 1),
            64 * (n - 1),
            keys[n - 1],
            64,
        )
    }
}

/// The order key of row `row` of the vocabulary.
pub open spec fn row_key(keys: Seq<Seq<i32>>, row: int) -> i32 {
    keys[row / 64][row % 64]
}

/// The token of row `row`.
pub open spec fn row_id(ils: Seq<Seq<u8>>, row: int) -> u32 {
    id_of(ils[row / 64], row % 64)
}

/// Row `row` may be the result: it is kept, it is an output, and it is not
/// suppressed.
pub open spec fn qualifies(
    plan: Plan,
    first: bool,
    ils: Seq<Seq<u8>>,
    vocab_n: int,
    row: int,
) -> bool {
    &&& 0 <= row < vocab_n
    &&& !is_skipped(scale_of(ils[row / 64], row % 64))
    &&& !(first && is_blank(plan, row_id(ils, row)))
}

/// `w` is the best of the first `n` rows.
spec fn leads(
    plan: Plan,
    first: bool,
    ils: Seq<Seq<u8>>,
    keys: Seq<Seq<i32>>,
    vocab_n: int,
    n: int,
    w: LmBest,
) -> bool {
    let s = before_rows(plan);
    &&& w.best >= s.best
    &&& forall|r: int|
        0 <= r < n && #[trigger] qualifies(plan, first, ils, vocab_n, r) ==> row_key(keys, r)
            <= w.best
    &&& (w.best == s.best && w.id == s.id && w.pos == s.pos) || {
        &&& w.best > s.best
        &&& w.pos < n
        &&& qualifies(plan, first, ils, vocab_n, w.pos as int)
        &&& w.id == row_id(ils, w.pos as int)
        &&& w.best == row_key(keys, w.pos as int)
        &&& forall|r: int|
            0 <= r < w.pos && #[trigger] qualifies(plan, first, ils, vocab_n, r) ==> row_key(
                keys,
                r,
            ) < w.best
    }
}

proof fn lemma_rows_lead(
    plan: Plan,
    first: bool,
    ils: Seq<Seq<u8>>,
    keys: Seq<Seq<i32>>,
    vocab_n: int,
    c: int,
    s: LmBest,
    n: int,
)
    requires
        0 <= c,
        0 <= n <= 64,
        vocab_n <= usize::MAX,
        leads(plan, first, ils, keys, vocab_n, 64 * c, s),
    ensures
        leads(
            plan,
            first,
            ils,
            keys,
            vocab_n,
            64 * c + n,
            fold_rows(plan, first, s, ils[c], kept_rows(vocab_n, c), 64 * c, keys[c], n),
        ),
    decreases n,
{
    if n > 0 {
        lemma_rows_lead(plan, first, ils, keys, vocab_n, c, s, n - 1);
        let row = 64 * c + n - 1;
        assert(row / 64 == c && row % 64 == n - 1);
        let before = fold_rows(
            plan,
            first,
            s,
            ils[c],
            kept_rows(vocab_n, c),
            64 * c,
            keys[c],
            n - 1,
        );
        let w = fold_rows(plan, first, s, ils[c], kept_rows(vocab_n, c), 64 * c, keys[c], n);
        assert(n - 1 < kept_rows(vocab_n, c) <==> row < vocab_n);
        if n - 1 < kept_rows(vocab_n, c) && !is_skipped(scale_of(ils[c], n - 1)) {
            let k = Candidate { key: keys[c][n - 1], id: id_of(ils[c], n - 1), pos: row as usize };
            assert(may_win(plan, first, k) <==> qualifies(plan, first, ils, vocab_n, row));
        } else {
            assert(!qualifies(plan, first, ils, vocab_n, row));
        }
        assert forall|r: int|
            0 <= r < 64 * c + n && #[trigger] qualifies(
                plan,
                first,
                ils,
                vocab_n,
                r,
            ) implies row_key(keys, r) <= w.best by {
            if r < row {
                assert(row_key(keys, r) <= before.best);
            }
        }
    }
}

proof fn lemma_chunks_lead(
    plan: Plan,
    first: bool,
    ils: Seq<Seq<u8>>,
    keys: Seq<Seq<i32>>,
    vocab_n: int,
    n: int,
)
    requires
        0 <= n,
        vocab_n <= usize::MAX,
    ensures
        leads(
            plan,
            first,
            ils,
            keys,
            vocab_n,
            64 * n,
            fold_chunks(plan, first, ils, keys, vocab_n, n),
        ),
    decreases n,
{
    if n > 0 {
        lemma_chunks_lead(plan, first, ils, keys, vocab_n, n - 1);
        lemma_rows_lead(
            plan,
            first,
            ils,
            keys,
            vocab_n,
            n - 1,
            fold_chunks(plan, first, ils, keys, vocab_n, n - 1),
            64,
        );
    }
}

/// The token of a whole pass. Of the rows of the vocabulary that are an
/// output and are not suppressed, the first with the largest logit wins: its
/// token and its position come out. If no such row is above the lowest
/// finite number, it is the end token at position 0.
pub proof fn law_the_pass_finds_the_largest(
    plan: Plan,
    first: bool,
    ils: Seq<Seq<u8>>,
    keys: Seq<Seq<i32>>,
    vocab_n: int,
)
    requires
        0 <= vocab_n <= usize::MAX,
    ensures
        ({
            let w = fold_chunks(plan, first, ils, keys, vocab_n, chunk_count(vocab_n));
            if exists|r: int| #[trigger]
                qualifies(plan, first, ils, vocab_n, r) && row_key(keys, r) > order_key(
                    LOWEST_BITS,
                ) {
                &&& qualifies(plan, first, ils, vocab_n, w.pos as int)
                &&& w.id == row_id(ils, w.pos as int)
                &&& forall|r: int| #[trigger]
                    qualifies(plan, first, ils, vocab_n, r) ==> row_key(keys, r) <= row_key(
                        keys,
                        w.pos as int,
                    )
                &&& forall|r: int|
                    r < w.pos && #[trigger] qualifies(plan, first, ils, vocab_n, r) ==> row_key(
                        keys,
                        r,
                    ) < row_key(keys, w.pos as int)
            } else {
                w.id == plan.eot && w.pos == 0
            }
        }),
{
    let n = chunk_count(vocab_n);
    let w = fold_chunks(plan, first, ils, keys, vocab_n, n);
    lemma_chunks_lead(plan, first, ils, keys, vocab_n, n);
    assert(64 * n >= vocab_n);
    if exists|r: int| #[trigger]
        qualifies(plan, first, ils, vocab_n, r) && row_key(keys, r) > order_key(LOWEST_BITS) {
        let r = choose|r: int| #[trigger]
            qualifies(plan, first, ils, vocab_n, r) && row_key(keys, r) > order_key(LOWEST_BITS);
        assert(row_key(keys, r) <= w.best);
    }
}

/// Patterns are ranked as the numbers they stand for: the larger magnitude is
/// the larger number above zero and the smaller one below, and both zeros are
/// one.
pub proof fn law_patterns_are_ranked_as_numbers(a: u32, b: u32)
    ensures
        a < 0x8000_0000 && b < 0x8000_0000 ==> (order_key(a) < order_key(b) <==> a < b),
        a >= 0x8000_0000 && b >= 0x8000_0000 ==> (order_key(a) < order_key(b) <==> b < a),
        a >= 0x8000_0000 && b < 0x8000_0000 ==> order_key(a) <= order_key(b),
        a > 0x8000_0000 && b < 0x8000_0000 ==> order_key(a) < order_key(b),
        order_key(0x8000_0000) == order_key(0),
        order_key(0) == 0,
{
}

/// A row has an output unless its scale is a number that is not above zero.
pub proof fn law_rows_without_a_scale_are_skipped(bits: u32)
    ensures
        is_skipped(bits) <==> !is_nan(bits) && order_key(bits) <= 0,
{
}

/// The runner-up bounds every row but the winner.
spec fn follows(
    plan: Plan,
    first: bool,
    ils: Seq<Seq<u8>>,
    keys: Seq<Seq<i32>>,
    vocab_n: int,
    n: int,
    w: LmBest,
) -> bool {
    &&& w.best2 <= w.best
    &&& forall|r: int|
        0 <= r < n && r != w.pos && #[trigger] qualifies(plan, first, ils, vocab_n, r)
            ==> row_key(keys, r) <= w.best2
    &&& forall|r: int|
        0 <= r < n && #[trigger] qualifies(plan, first, ils, vocab_n, r) ==> row_key(keys, r)
            <= w.best
}

proof fn lemma_rows_follow(
    plan: Plan,
    first: bool,
    ils: Seq<Seq<u8>>,
    keys: Seq<Seq<i32>>,
    vocab_n: int,
    chunk: int,
    s: LmBest,
    n: int,
)
    requires
        0 <= chunk,
        0 <= n <= 64,
        0 <= vocab_n <= usize::MAX,
        64 * chunk < vocab_n,
        follows(plan, first, ils, keys, vocab_n, 64 * chunk, s),
    ensures
        follows(
            plan,
            first,
            ils,
            keys,
            vocab_n,
            64 * chunk + n,
            fold_rows(
                plan,
                first,
                s,
                ils[chunk],
                kept_rows(vocab_n, chunk),
                64 * chunk,
                keys[chunk],
                n,
            ),
        ),
    decreases n,
{
    if n > 0 {
        lemma_rows_follow(plan, first, ils, keys, vocab_n, chunk, s, n - 1);
        let row = 64 * chunk + n - 1;
        let w = fold_rows(
            plan,
            first,
            s,
            ils[chunk],
            kept_rows(vocab_n, chunk),
            64 * chunk,
            keys[chunk],
            n - 1,
        );
        let v = fold_rows(
            plan,
            first,
            s,
            ils[chunk],
            kept_rows(vocab_n, chunk),
            64 * chunk,
            keys[chunk],
            n,
        );
        assert(row / 64 == chunk && row % 64 == n - 1);
        assert(row_key(keys, row) == keys[chunk][n - 1]);
        assert forall|r: int|
            0 <= r < row + 1 && r != v.pos && #[trigger] qualifies(
                plan,
                first,
                ils,
                vocab_n,
                r,
            ) implies row_key(keys, r) <= v.best2 by {
            if r < row {
                assert(row_key(keys, r) <= w.best);
                if r != w.pos {
                    assert(row_key(keys, r) <= w.best2);
                }
            }
        }
    }
}

proof fn lemma_chunks_follow(
    plan: Plan,
    first: bool,
    ils: Seq<Seq<u8>>,
    keys: Seq<Seq<i32>>,
    vocab_n: int,
    n: int,
)
    requires
        0 <= n <= chunk_count(vocab_n),
        0 <= vocab_n <= usize::MAX,
    ensures
        follows(
            plan,
            first,
            ils,
            keys,
            vocab_n,
            64 * n,
            fold_chunks(plan, first, ils, keys, vocab_n, n),
        ),
    decreases n,
{
    if n > 0 {
        lemma_chunks_follow(plan, first, ils, keys, vocab_n, n - 1);
        lemma_rows_follow(
            plan,
            first,
            ils,
            keys,
            vocab_n,
            n - 1,
            fold_chunks(plan, first, ils, keys, vocab_n, n - 1),
            64,
        );
    }
}

/// The runner-up of a pass is no larger than the winner and no smaller than
/// any other row that was in the running.
pub proof fn law_the_runner_up_bounds_the_others(
    plan: Plan,
    first: bool,
    ils: Seq<Seq<u8>>,
    keys: Seq<Seq<i32>>,
    vocab_n: int,
    r: int,
)
    requires
        0 <= vocab_n <= usize::MAX,
    ensures
        ({
            let w = fold_chunks(plan, first, ils, keys, vocab_n, chunk_count(vocab_n));
            &&& w.best2 <= w.best
            &&& qualifies(plan, first, ils, vocab_n, r) && r != w.pos ==> row_key(keys, r)
                <= w.best2
        }),
{
    let n = chunk_count(vocab_n);
    lemma_chunks_follow(plan, first, ils, keys, vocab_n, n);
    assert(64 * n >= vocab_n);
}

/// Where a pass over the embedding stands: which chunk a buffer holds, the
/// buffer that is being filled, and the chunks that have been ranked.
pub ghost struct Pass {
    pub held: spec_fn(Buf) -> int,
    pub filling: Option<Buf>,
    pub ranked: int,
}

/// What a step of a pass needs.
pub open spec fn pass_sound(s: LmStep, p: Pass, rows8: bool, vocab_n: int) -> bool {
    let size = if rows8 {
        49int
    } else {
        26
    };
    match s {
        LmStep::Start { block, buf } => {
            &&& p.filling is None
            &&& block as int % size == 0
            &&& buf.len == 512 * size
        },
        LmStep::Wait => p.filling is Some,
        LmStep::Dots { buf, first, rows } => {
            &&& p.filling matches Some(b) ==> b.apart(buf)
            &&& (p.held)(buf) == p.ranked
            &&& first == 64 * p.ranked
            &&& rows == (if vocab_n - first < 64 {
                vocab_n - first
            } else {
                64
            })
            &&& rows > 0
        },
    }
}

pub open spec fn pass_after(s: LmStep, p: Pass, rows8: bool) -> Pass {
    let size = if rows8 {
        49int
    } else {
        26
    };
    match s {
        LmStep::Start { block, buf } => Pass {
            held: |b: Buf|
                if b == buf {
                    block as int / size
                } else {
                    (p.held)(b)
                },
            filling: Some(buf),
            ..p
        },
        LmStep::Wait => Pass { filling: None, ..p },
        LmStep::Dots { .. } => Pass { ranked: p.ranked + 1, ..p },
    }
}

/// Where a pass ends, if every step found what it needs.
pub open spec fn passed(steps: Seq<LmStep>, p: Pass, rows8: bool, vocab_n: int) -> Option<Pass>
    decreases steps.len(),
{
    if steps.len() == 0 {
        Some(p)
    } else {
        match passed(steps.drop_last(), p, rows8, vocab_n) {
            None => None,
            Some(e) => if pass_sound(steps.last(), e, rows8, vocab_n) {
                Some(pass_after(steps.last(), e, rows8))
            } else {
                None
            },
        }
    }
}

proof fn lemma_pass_then(
    steps: Seq<LmStep>,
    s: LmStep,
    p: Pass,
    e: Pass,
    rows8: bool,
    vocab_n: int,
) -> (f: Pass)
    requires
        passed(steps, p, rows8, vocab_n) == Some(e),
        pass_sound(s, e, rows8, vocab_n),
    ensures
        f == pass_after(s, e, rows8),
        passed(steps.push(s), p, rows8, vocab_n) == Some(f),
{
    assert(steps.push(s).drop_last() =~= steps);
    pass_after(s, e, rows8)
}

proof fn lemma_chunk_block(rows8: bool, chunk: int)
    requires
        0 <= chunk <= 67108864,
    ensures
        start_chunk(rows8, chunk) matches LmStep::Start { block, buf } && block == chunk * (
        if rows8 {
            49int
        } else {
            26
        }) && block as int / (if rows8 {
            49int
        } else {
            26
        }) == chunk && block as int % (if rows8 {
            49int
        } else {
            26
        }) == 0 && buf == chunk_buf(rows8, chunk) && buf.len == 512 * (if rows8 {
            49int
        } else {
            26
        }),
{
    if rows8 {
        assert((chunk * 49) / 49 == chunk);
    } else {
        assert((chunk * 26) / 26 == chunk);
    }
}

proof fn lemma_pass(p: Pass, rows8: bool, vocab_n: int, n: int) -> (e: Pass)
    requires
        0 <= n <= chunk_count(vocab_n),
        0 < vocab_n <= u32::MAX,
        p.ranked == 0,
        p.filling is None,
    ensures
        passed(
            seq![start_chunk(rows8, 0)] + lm_chunks(rows8, vocab_n, n),
            p,
            rows8,
            vocab_n,
        ) == Some(e),
        e.ranked == n,
        n < chunk_count(vocab_n) ==> e.filling == Some(chunk_buf(rows8, n)) && (e.held)(
            chunk_buf(rows8, n),
        ) == n,
        n == chunk_count(vocab_n) ==> e.filling is None,
    decreases n,
{
    let none = Seq::<LmStep>::empty();
    if n == 0 {
        lemma_chunk_block(rows8, 0);
        let e = lemma_pass_then(none, start_chunk(rows8, 0), p, p, rows8, vocab_n);
        assert(seq![start_chunk(rows8, 0)] + lm_chunks(rows8, vocab_n, 0) =~= none.push(
            start_chunk(rows8, 0),
        ));
        e
    } else {
        let c = n - 1;
        let s0 = seq![start_chunk(rows8, 0)] + lm_chunks(rows8, vocab_n, c);
        let e = lemma_pass(p, rows8, vocab_n, c);
        let e1 = lemma_pass_then(s0, LmStep::Wait, p, e, rows8, vocab_n);
        let s1 = s0.push(LmStep::Wait);
        law_chunks_alternate(rows8, c);
        lemma_chunk_block(rows8, n);
        let more = n < chunk_count(vocab_n);
        let e2 = if more {
            lemma_pass_then(s1, start_chunk(rows8, n), p, e1, rows8, vocab_n)
        } else {
            e1
        };
        let s2 = if more {
            s1.push(start_chunk(rows8, n))
        } else {
            s1
        };
        let dots = LmStep::Dots {
            buf: chunk_buf(rows8, c),
            first: (64 * c) as usize,
            rows: kept_rows(vocab_n, c) as usize,
        };
        assert(chunk_buf(rows8, c) != chunk_buf(rows8, n));
        let e3 = lemma_pass_then(s2, dots, p, e2, rows8, vocab_n);
        assert(seq![start_chunk(rows8, 0)] + lm_chunks(rows8, vocab_n, n) =~= s2.push(dots));
        e3
    }
}

/// A pass ranks every chunk of the embedding once, in order, each out of the
/// buffer that it was read into and after it has come, with no other chunk
/// coming into that buffer meanwhile.
pub proof fn law_every_chunk_is_ranked_once(p: Pass, rows8: bool, vocab_n: int)
    requires
        0 < vocab_n <= u32::MAX,
        p.ranked == 0,
        p.filling is None,
    ensures
        passed(lm_steps(rows8, vocab_n), p, rows8, vocab_n) matches Some(e) && 64 * (e.ranked - 1)
            < vocab_n <= 64 * e.ranked && e.filling is None,
{
    lemma_pass(p, rows8, vocab_n, chunk_count(vocab_n));
}

/// A row's dot product sums, over the channels, weight times activation; the
/// activations of packed rows stand in their order, those of wide rows with
/// the middle pair of every four swapped.
pub proof fn law_rows_sum_products(il: Seq<u8>, rows8: bool, hq: Seq<i16>, r: int, n: int)
    requires
        n >= 0,
    ensures
        rows8 ==> emb_dot(il, rows8, hq, r, n) == sum(
            |c: int|
                (if il[512 + 384 * r + c] >= 128 {
                    il[512 + 384 * r + c] - 256
                } else {
                    il[512 + 384 * r + c] as int
                }) * hq[if c % 4 == 1 {
                    c + 1
                } else if c % 4 == 2 {
                    c - 1
                } else {
                    c
                }],
            n,
        ),
        !rows8 ==> emb_dot(il, rows8, hq, r, n) == sum(
            |c: int| emb_weight(il, false, r, c) * hq[c],
            n,
        ),
    decreases n,
{
    if n > 0 {
        law_rows_sum_products(il, rows8, hq, r, n - 1);
        assert(swapped(n - 1) == (if (n - 1) % 4 == 1 {
            n
        } else if (n - 1) % 4 == 2 {
            n - 2
        } else {
            n - 1
        }));
    }
}

} // verus!
