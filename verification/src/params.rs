//! The parameter blocks of mailbox commands: words that one side packs and
//! the other reads.

use crate::bytes::{byte_of, get32, le32, signed32, to_signed, to_unsigned, unsigned32};
use crate::kernels::Quant;
use vstd::prelude::*;

verus! {

/// The first `n` words of a buffer.
pub open spec fn words_at(b: Seq<u8>, n: nat) -> Seq<u32> {
    Seq::new(n, |i: int| le32(b, 4 * i) as u32)
}

/// Words as bytes, the least significant first.
pub open spec fn word_bytes(w: Seq<u32>) -> Seq<u8> {
    Seq::new(4 * w.len(), |i: int| byte_of(w[i / 4] as int, i % 4))
}

/// Words survive the way through bytes.
pub proof fn law_words_come_through(w: Seq<u32>)
    ensures
        words_at(word_bytes(w), w.len()) == w,
{
    let b = word_bytes(w);
    assert forall|i: int| 0 <= i < w.len() implies #[trigger] words_at(b, w.len())[i] == w[i] by {
        assert((4 * i) / 4 == i && (4 * i + 1) / 4 == i && (4 * i + 2) / 4 == i && (4 * i + 3) / 4
            == i);
        assert((4 * i) % 4 == 0 && (4 * i + 1) % 4 == 1 && (4 * i + 2) % 4 == 2 && (4 * i + 3) % 4
            == 3);
        let v = w[i] as int;
        assert(le32(b, 4 * i) == v);
    }
    assert(words_at(b, w.len()) =~= w);
}

/// Scale and zero point in two words.
pub open spec fn quant_of(w: Seq<u32>, i: int) -> Quant {
    Quant { scale: w[i], zp: signed32(w[i + 1] as int) as i32 }
}

pub(crate) fn read_words(b: &[u8], n: usize) -> (w: Vec<u32>)
    requires
        4 * n <= b@.len(),
    ensures
        w@ == words_at(b@, n as nat),
{
    let total: usize = b.len();
    let mut w: Vec<u32> = Vec::new();
    let mut i: usize = 0;
    while i < n
        invariant
            i <= n,
            4 * n <= total,
            total == b@.len(),
            w@ == words_at(b@, i as nat),
        decreases n - i,
    {
        w.push(get32(b, 4 * i));
        i = i + 1;
        assert(w@ =~= words_at(b@, i as nat));
    }
    w
}

pub(crate) fn write_words(w: &Vec<u32>) -> (b: Vec<u8>)
    ensures
        b@ == word_bytes(w@),
{
    let mut b: Vec<u8> = Vec::new();
    let mut i: usize = 0;
    while i < w.len()
        invariant
            i <= w@.len(),
            b@ == word_bytes(w@.take(i as int)),
        decreases w@.len() - i,
    {
        let v: u32 = w[i];
        let ghost before = b@;
        b.push((v % 256) as u8);
        b.push((v / 256 % 256) as u8);
        b.push((v / 65536 % 256) as u8);
        b.push((v / 16777216 % 256) as u8);
        proof {
            let next = word_bytes(w@.take(i + 1));
            assert forall|k: int| 0 <= k < next.len() implies b@[k] == next[k] by {
                if k < 4 * i {
                    assert(b@[k] == before[k]);
                } else {
                    assert(k / 4 == i);
                }
            }
            assert(b@ =~= next);
        }
        i = i + 1;
    }
    assert(w@.take(w@.len() as int) =~= w@);
    b
}

/// A layer norm over a channel-planar tensor: `src` is int16, `dst` int8, both
/// `ch` planes of `w`.
#[derive(Clone, Copy, PartialEq, Eq, Structural, Debug)]
pub struct LnParams {
    pub src: u32,
    pub dst: u32,
    pub ch: u32,
    pub w: u32,
    pub gamma: u32,
    pub beta: u32,
    pub sq: Quant,
    pub dq: Quant,
}

impl LnParams {
    /// The block that these words are.
    pub open spec fn of(w: Seq<u32>) -> LnParams {
        LnParams {
            src: w[0],
            dst: w[1],
            ch: w[2],
            w: w[3],
            gamma: w[4],
            beta: w[5],
            sq: quant_of(w, 6),
            dq: quant_of(w, 8),
        }
    }

    /// The words of the block.
    pub open spec fn words(self) -> Seq<u32> {
        seq![
            self.src,
            self.dst,
            self.ch,
            self.w,
            self.gamma,
            self.beta,
            self.sq.scale,
            unsigned32(self.sq.zp as int) as u32,
            self.dq.scale,
            unsigned32(self.dq.zp as int) as u32,
        ]
    }

    /// Reads the block.
    pub fn parse(b: &[u8]) -> (p: LnParams)
        requires
            b@.len() >= 40,
        ensures
            p == LnParams::of(words_at(b@, 10)),
    {
        let w = read_words(b, 10);
        LnParams {
            src: w[0],
            dst: w[1],
            ch: w[2],
            w: w[3],
            gamma: w[4],
            beta: w[5],
            sq: Quant { scale: w[6], zp: to_signed(w[7]) },
            dq: Quant { scale: w[8], zp: to_signed(w[9]) },
        }
    }

    /// Writes the block.
    pub fn pack(&self) -> (b: Vec<u8>)
        ensures
            b@ == word_bytes(self.words()),
    {
        let w: Vec<u32> = vec![
            self.src,
            self.dst,
            self.ch,
            self.w,
            self.gamma,
            self.beta,
            self.sq.scale,
            to_unsigned(self.sq.zp),
            self.dq.scale,
            to_unsigned(self.dq.zp),
        ];
        assert(w@ =~= self.words());
        write_words(&w)
    }
}

/// An int16 tensor plus an int8 tensor.
#[derive(Clone, Copy, PartialEq, Eq, Structural, Debug)]
pub struct AddParams {
    pub a: u32,
    pub b: u32,
    pub dst: u32,
    pub len: u32,
    pub qa: Quant,
    pub qb: Quant,
    pub qd: Quant,
}

impl AddParams {
    /// The block that these words are.
    pub open spec fn of(w: Seq<u32>) -> AddParams {
        AddParams {
            a: w[0],
            b: w[1],
            dst: w[2],
            len: w[3],
            qa: quant_of(w, 4),
            qb: quant_of(w, 6),
            qd: quant_of(w, 8),
        }
    }

    /// The words of the block.
    pub open spec fn words(self) -> Seq<u32> {
        seq![
            self.a,
            self.b,
            self.dst,
            self.len,
            self.qa.scale,
            unsigned32(self.qa.zp as int) as u32,
            self.qb.scale,
            unsigned32(self.qb.zp as int) as u32,
            self.qd.scale,
            unsigned32(self.qd.zp as int) as u32,
        ]
    }

    /// Reads the block.
    pub fn parse(b: &[u8]) -> (p: AddParams)
        requires
            b@.len() >= 40,
        ensures
            p == AddParams::of(words_at(b@, 10)),
    {
        let w = read_words(b, 10);
        AddParams {
            a: w[0],
            b: w[1],
            dst: w[2],
            len: w[3],
            qa: Quant { scale: w[4], zp: to_signed(w[5]) },
            qb: Quant { scale: w[6], zp: to_signed(w[7]) },
            qd: Quant { scale: w[8], zp: to_signed(w[9]) },
        }
    }

    /// Writes the block.
    pub fn pack(&self) -> (b: Vec<u8>)
        ensures
            b@ == word_bytes(self.words()),
    {
        let w: Vec<u32> = vec![
            self.a,
            self.b,
            self.dst,
            self.len,
            self.qa.scale,
            to_unsigned(self.qa.zp),
            self.qb.scale,
            to_unsigned(self.qb.zp),
            self.qd.scale,
            to_unsigned(self.qd.zp),
        ];
        assert(w@ =~= self.words());
        write_words(&w)
    }
}

/// An int8 tensor plus a vector of floats, as int16.
#[derive(Clone, Copy, PartialEq, Eq, Structural, Debug)]
pub struct AddPosParams {
    pub a: u32,
    pub b: u32,
    pub dst: u32,
    pub len: u32,
    pub qa: Quant,
    pub qd: Quant,
}

impl AddPosParams {
    /// The block that these words are.
    pub open spec fn of(w: Seq<u32>) -> AddPosParams {
        AddPosParams {
            a: w[0],
            b: w[1],
            dst: w[2],
            len: w[3],
            qa: quant_of(w, 4),
            qd: quant_of(w, 6),
        }
    }

    /// The words of the block.
    pub open spec fn words(self) -> Seq<u32> {
        seq![
            self.a,
            self.b,
            self.dst,
            self.len,
            self.qa.scale,
            unsigned32(self.qa.zp as int) as u32,
            self.qd.scale,
            unsigned32(self.qd.zp as int) as u32,
        ]
    }

    /// Reads the block.
    pub fn parse(b: &[u8]) -> (p: AddPosParams)
        requires
            b@.len() >= 32,
        ensures
            p == AddPosParams::of(words_at(b@, 8)),
    {
        let w = read_words(b, 8);
        AddPosParams {
            a: w[0],
            b: w[1],
            dst: w[2],
            len: w[3],
            qa: Quant { scale: w[4], zp: to_signed(w[5]) },
            qd: Quant { scale: w[6], zp: to_signed(w[7]) },
        }
    }

    /// Writes the block.
    pub fn pack(&self) -> (b: Vec<u8>)
        ensures
            b@ == word_bytes(self.words()),
    {
        let w: Vec<u32> = vec![
            self.a,
            self.b,
            self.dst,
            self.len,
            self.qa.scale,
            to_unsigned(self.qa.zp),
            self.qd.scale,
            to_unsigned(self.qd.zp),
        ];
        assert(w@ =~= self.words());
        write_words(&w)
    }
}

/// One attention head over channel-planar buffers. The scales are bit
/// patterns of floats.
#[derive(Clone, Copy, PartialEq, Eq, Structural, Debug)]
pub struct AttnParams {
    pub q: u32,
    pub k: u32,
    pub v: u32,
    pub ctx: u32,
    pub hd: u32,
    pub wq: u32,
    pub qstride: u32,
    pub tk: u32,
    pub kstride: u32,
    pub zq: i32,
    pub zk: i32,
    pub zv: i32,
    pub score_mult: u32,
    pub v_scale: u32,
    pub ctx_q: Quant,
}

impl AttnParams {
    /// The block that these words are.
    pub open spec fn of(w: Seq<u32>) -> AttnParams {
        AttnParams {
            q: w[0],
            k: w[1],
            v: w[2],
            ctx: w[3],
            hd: w[4],
            wq: w[5],
            qstride: w[6],
            tk: w[7],
            kstride: w[8],
            zq: signed32(w[9] as int) as i32,
            zk: signed32(w[10] as int) as i32,
            zv: signed32(w[11] as int) as i32,
            score_mult: w[12],
            v_scale: w[13],
            ctx_q: quant_of(w, 14),
        }
    }

    /// The words of the block.
    pub open spec fn words(self) -> Seq<u32> {
        seq![
            self.q,
            self.k,
            self.v,
            self.ctx,
            self.hd,
            self.wq,
            self.qstride,
            self.tk,
            self.kstride,
            unsigned32(self.zq as int) as u32,
            unsigned32(self.zk as int) as u32,
            unsigned32(self.zv as int) as u32,
            self.score_mult,
            self.v_scale,
            self.ctx_q.scale,
            unsigned32(self.ctx_q.zp as int) as u32,
        ]
    }

    /// Reads the block.
    pub fn parse(b: &[u8]) -> (p: AttnParams)
        requires
            b@.len() >= 64,
        ensures
            p == AttnParams::of(words_at(b@, 16)),
    {
        let w = read_words(b, 16);
        AttnParams {
            q: w[0],
            k: w[1],
            v: w[2],
            ctx: w[3],
            hd: w[4],
            wq: w[5],
            qstride: w[6],
            tk: w[7],
            kstride: w[8],
            zq: to_signed(w[9]),
            zk: to_signed(w[10]),
            zv: to_signed(w[11]),
            score_mult: w[12],
            v_scale: w[13],
            ctx_q: Quant { scale: w[14], zp: to_signed(w[15]) },
        }
    }

    /// Writes the block.
    pub fn pack(&self) -> (b: Vec<u8>)
        ensures
            b@ == word_bytes(self.words()),
    {
        let w: Vec<u32> = vec![
            self.q,
            self.k,
            self.v,
            self.ctx,
            self.hd,
            self.wq,
            self.qstride,
            self.tk,
            self.kstride,
            to_unsigned(self.zq),
            to_unsigned(self.zk),
            to_unsigned(self.zv),
            self.score_mult,
            self.v_scale,
            self.ctx_q.scale,
            to_unsigned(self.ctx_q.zp),
        ];
        assert(w@ =~= self.words());
        write_words(&w)
    }
}

/// A residual plus four partial products, as int16.
#[derive(Clone, Copy, PartialEq, Eq, Structural, Debug)]
pub struct Fc2SumParams {
    pub p0: u32,
    pub p1: u32,
    pub p2: u32,
    pub p3: u32,
    pub a: u32,
    pub dst: u32,
    pub len: u32,
    pub pq0: Quant,
    pub pq1: Quant,
    pub pq2: Quant,
    pub pq3: Quant,
    pub qa: Quant,
    pub qd: Quant,
}

impl Fc2SumParams {
    /// The block that these words are.
    pub open spec fn of(w: Seq<u32>) -> Fc2SumParams {
        Fc2SumParams {
            p0: w[0],
            p1: w[1],
            p2: w[2],
            p3: w[3],
            a: w[4],
            dst: w[5],
            len: w[6],
            pq0: quant_of(w, 7),
            pq1: quant_of(w, 9),
            pq2: quant_of(w, 11),
            pq3: quant_of(w, 13),
            qa: quant_of(w, 15),
            qd: quant_of(w, 17),
        }
    }

    /// The words of the block.
    pub open spec fn words(self) -> Seq<u32> {
        seq![
            self.p0,
            self.p1,
            self.p2,
            self.p3,
            self.a,
            self.dst,
            self.len,
            self.pq0.scale,
            unsigned32(self.pq0.zp as int) as u32,
            self.pq1.scale,
            unsigned32(self.pq1.zp as int) as u32,
            self.pq2.scale,
            unsigned32(self.pq2.zp as int) as u32,
            self.pq3.scale,
            unsigned32(self.pq3.zp as int) as u32,
            self.qa.scale,
            unsigned32(self.qa.zp as int) as u32,
            self.qd.scale,
            unsigned32(self.qd.zp as int) as u32,
        ]
    }

    /// Reads the block.
    pub fn parse(b: &[u8]) -> (p: Fc2SumParams)
        requires
            b@.len() >= 76,
        ensures
            p == Fc2SumParams::of(words_at(b@, 19)),
    {
        let w = read_words(b, 19);
        Fc2SumParams {
            p0: w[0],
            p1: w[1],
            p2: w[2],
            p3: w[3],
            a: w[4],
            dst: w[5],
            len: w[6],
            pq0: Quant { scale: w[7], zp: to_signed(w[8]) },
            pq1: Quant { scale: w[9], zp: to_signed(w[10]) },
            pq2: Quant { scale: w[11], zp: to_signed(w[12]) },
            pq3: Quant { scale: w[13], zp: to_signed(w[14]) },
            qa: Quant { scale: w[15], zp: to_signed(w[16]) },
            qd: Quant { scale: w[17], zp: to_signed(w[18]) },
        }
    }

    /// Writes the block.
    pub fn pack(&self) -> (b: Vec<u8>)
        ensures
            b@ == word_bytes(self.words()),
    {
        let w: Vec<u32> = vec![
            self.p0,
            self.p1,
            self.p2,
            self.p3,
            self.a,
            self.dst,
            self.len,
            self.pq0.scale,
            to_unsigned(self.pq0.zp),
            self.pq1.scale,
            to_unsigned(self.pq1.zp),
            self.pq2.scale,
            to_unsigned(self.pq2.zp),
            self.pq3.scale,
            to_unsigned(self.pq3.zp),
            self.qa.scale,
            to_unsigned(self.qa.zp),
            self.qd.scale,
            to_unsigned(self.qd.zp),
        ];
        assert(w@ =~= self.words());
        write_words(&w)
    }
}

proof fn lemma_ln_words(p: LnParams)
    ensures
        LnParams::of(p.words()) == p,
{
}

/// What one side packs of [`LnParams`], the other reads.
pub proof fn law_ln_block_comes_through(p: LnParams)
    ensures
        LnParams::of(words_at(word_bytes(p.words()), 10)) == p,
{
    let w = p.words();
    assert(w.len() == 10);
    law_words_come_through(w);
    assert(words_at(word_bytes(w), 10) == w);
    lemma_ln_words(p);
}

proof fn lemma_add_words(p: AddParams)
    ensures
        AddParams::of(p.words()) == p,
{
}

/// What one side packs of [`AddParams`], the other reads.
pub proof fn law_add_block_comes_through(p: AddParams)
    ensures
        AddParams::of(words_at(word_bytes(p.words()), 10)) == p,
{
    let w = p.words();
    assert(w.len() == 10);
    law_words_come_through(w);
    assert(words_at(word_bytes(w), 10) == w);
    lemma_add_words(p);
}

proof fn lemma_add_pos_words(p: AddPosParams)
    ensures
        AddPosParams::of(p.words()) == p,
{
}

/// What one side packs of [`AddPosParams`], the other reads.
pub proof fn law_add_pos_block_comes_through(p: AddPosParams)
    ensures
        AddPosParams::of(words_at(word_bytes(p.words()), 8)) == p,
{
    let w = p.words();
    assert(w.len() == 8);
    law_words_come_through(w);
    assert(words_at(word_bytes(w), 8) == w);
    lemma_add_pos_words(p);
}

proof fn lemma_attn_words(p: AttnParams)
    ensures
        AttnParams::of(p.words()) == p,
{
}

/// What one side packs of [`AttnParams`], the other reads.
pub proof fn law_attn_block_comes_through(p: AttnParams)
    ensures
        AttnParams::of(words_at(word_bytes(p.words()), 16)) == p,
{
    let w = p.words();
    assert(w.len() == 16);
    law_words_come_through(w);
    assert(words_at(word_bytes(w), 16) == w);
    lemma_attn_words(p);
}

proof fn lemma_fc2_sum_words(p: Fc2SumParams)
    ensures
        Fc2SumParams::of(p.words()) == p,
{
}

/// What one side packs of [`Fc2SumParams`], the other reads.
pub proof fn law_fc2_sum_block_comes_through(p: Fc2SumParams)
    ensures
        Fc2SumParams::of(words_at(word_bytes(p.words()), 19)) == p,
{
    let w = p.words();
    assert(w.len() == 19);
    law_words_come_through(w);
    assert(words_at(word_bytes(w), 19) == w);
    lemma_fc2_sum_words(p);
}

/// A zero point stands in a word in two's complement.
pub open spec fn is_word_of(w: u32, v: i32) -> bool {
    if v < 0 {
        w == v + 0x1_0000_0000
    } else {
        w == v
    }
}

/// Where the fields of a layer norm stand in the words of its block, read and
/// written.
pub proof fn law_ln_block_layout(w: Seq<u32>, r: LnParams)
    requires
        w.len() == 10,
    ensures
        ({
            let p = LnParams::of(w);
            &&& p.src == w[0]
            &&& p.dst == w[1]
            &&& p.ch == w[2]
            &&& p.w == w[3]
            &&& p.gamma == w[4]
            &&& p.beta == w[5]
            &&& p.sq.scale == w[6] && is_word_of(w[7], p.sq.zp)
            &&& p.dq.scale == w[8] && is_word_of(w[9], p.dq.zp)
        }),
        r.words().len() == 10,
        ({
            let p = r;
            let w = r.words();
            &&& p.src == w[0]
            &&& p.dst == w[1]
            &&& p.ch == w[2]
            &&& p.w == w[3]
            &&& p.gamma == w[4]
            &&& p.beta == w[5]
            &&& p.sq.scale == w[6] && is_word_of(w[7], p.sq.zp)
            &&& p.dq.scale == w[8] && is_word_of(w[9], p.dq.zp)
        }),
{
}

/// Where the fields of a residual addition stand in the words of its block, read and
/// written.
pub proof fn law_add_block_layout(w: Seq<u32>, r: AddParams)
    requires
        w.len() == 10,
    ensures
        ({
            let p = AddParams::of(w);
            &&& p.a == w[0]
            &&& p.b == w[1]
            &&& p.dst == w[2]
            &&& p.len == w[3]
            &&& p.qa.scale == w[4] && is_word_of(w[5], p.qa.zp)
            &&& p.qb.scale == w[6] && is_word_of(w[7], p.qb.zp)
            &&& p.qd.scale == w[8] && is_word_of(w[9], p.qd.zp)
        }),
        r.words().len() == 10,
        ({
            let p = r;
            let w = r.words();
            &&& p.a == w[0]
            &&& p.b == w[1]
            &&& p.dst == w[2]
            &&& p.len == w[3]
            &&& p.qa.scale == w[4] && is_word_of(w[5], p.qa.zp)
            &&& p.qb.scale == w[6] && is_word_of(w[7], p.qb.zp)
            &&& p.qd.scale == w[8] && is_word_of(w[9], p.qd.zp)
        }),
{
}

/// Where the fields of the positions stand in the words of its block, read and
/// written.
pub proof fn law_add_pos_block_layout(w: Seq<u32>, r: AddPosParams)
    requires
        w.len() == 8,
    ensures
        ({
            let p = AddPosParams::of(w);
            &&& p.a == w[0]
            &&& p.b == w[1]
            &&& p.dst == w[2]
            &&& p.len == w[3]
            &&& p.qa.scale == w[4] && is_word_of(w[5], p.qa.zp)
            &&& p.qd.scale == w[6] && is_word_of(w[7], p.qd.zp)
        }),
        r.words().len() == 8,
        ({
            let p = r;
            let w = r.words();
            &&& p.a == w[0]
            &&& p.b == w[1]
            &&& p.dst == w[2]
            &&& p.len == w[3]
            &&& p.qa.scale == w[4] && is_word_of(w[5], p.qa.zp)
            &&& p.qd.scale == w[6] && is_word_of(w[7], p.qd.zp)
        }),
{
}

/// Where the fields of an attention head stand in the words of its block, read and
/// written.
pub proof fn law_attn_block_layout(w: Seq<u32>, r: AttnParams)
    requires
        w.len() == 16,
    ensures
        ({
            let p = AttnParams::of(w);
            &&& p.q == w[0]
            &&& p.k == w[1]
            &&& p.v == w[2]
            &&& p.ctx == w[3]
            &&& p.hd == w[4]
            &&& p.wq == w[5]
            &&& p.qstride == w[6]
            &&& p.tk == w[7]
            &&& p.kstride == w[8]
            &&& is_word_of(w[9], p.zq)
            &&& is_word_of(w[10], p.zk)
            &&& is_word_of(w[11], p.zv)
            &&& p.score_mult == w[12]
            &&& p.v_scale == w[13]
            &&& p.ctx_q.scale == w[14] && is_word_of(w[15], p.ctx_q.zp)
        }),
        r.words().len() == 16,
        ({
            let p = r;
            let w = r.words();
            &&& p.q == w[0]
            &&& p.k == w[1]
            &&& p.v == w[2]
            &&& p.ctx == w[3]
            &&& p.hd == w[4]
            &&& p.wq == w[5]
            &&& p.qstride == w[6]
            &&& p.tk == w[7]
            &&& p.kstride == w[8]
            &&& is_word_of(w[9], p.zq)
            &&& is_word_of(w[10], p.zk)
            &&& is_word_of(w[11], p.zv)
            &&& p.score_mult == w[12]
            &&& p.v_scale == w[13]
            &&& p.ctx_q.scale == w[14] && is_word_of(w[15], p.ctx_q.zp)
        }),
{
}

/// Where the fields of the sum of an MLP stand in the words of its block, read and
/// written.
pub proof fn law_fc2_sum_block_layout(w: Seq<u32>, r: Fc2SumParams)
    requires
        w.len() == 19,
    ensures
        ({
            let p = Fc2SumParams::of(w);
            &&& p.p0 == w[0]
            &&& p.p1 == w[1]
            &&& p.p2 == w[2]
            &&& p.p3 == w[3]
            &&& p.a == w[4]
            &&& p.dst == w[5]
            &&& p.len == w[6]
            &&& p.pq0.scale == w[7] && is_word_of(w[8], p.pq0.zp)
            &&& p.pq1.scale == w[9] && is_word_of(w[10], p.pq1.zp)
            &&& p.pq2.scale == w[11] && is_word_of(w[12], p.pq2.zp)
            &&& p.pq3.scale == w[13] && is_word_of(w[14], p.pq3.zp)
            &&& p.qa.scale == w[15] && is_word_of(w[16], p.qa.zp)
            &&& p.qd.scale == w[17] && is_word_of(w[18], p.qd.zp)
        }),
        r.words().len() == 19,
        ({
            let p = r;
            let w = r.words();
            &&& p.p0 == w[0]
            &&& p.p1 == w[1]
            &&& p.p2 == w[2]
            &&& p.p3 == w[3]
            &&& p.a == w[4]
            &&& p.dst == w[5]
            &&& p.len == w[6]
            &&& p.pq0.scale == w[7] && is_word_of(w[8], p.pq0.zp)
            &&& p.pq1.scale == w[9] && is_word_of(w[10], p.pq1.zp)
            &&& p.pq2.scale == w[11] && is_word_of(w[12], p.pq2.zp)
            &&& p.pq3.scale == w[13] && is_word_of(w[14], p.pq3.zp)
            &&& p.qa.scale == w[15] && is_word_of(w[16], p.qa.zp)
            &&& p.qd.scale == w[17] && is_word_of(w[18], p.qd.zp)
        }),
{
}

} // verus!
