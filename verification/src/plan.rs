//! The binary plan: quantisation parameters and vocabulary facts that the
//! image carries for the pipeline.

use crate::bytes::{get32, get_i32, le32, signed32};
use crate::image::{found, lookup, Entry, E_NO_ASSET, E_PLAN, E_PLAN_SIZE, INDEX_BYTES, PLAN_MAGIC};
use crate::kernels::Quant;
use vstd::prelude::*;
use vstd::string::*;

verus! {

/// Bytes of the plan buffer.
pub const PLAN_BYTES: usize = 2048;

/// Quantisation of one encoder block.
#[derive(Clone, Copy, Debug)]
pub struct EncBlockQ {
    pub ln1: Quant,
    pub q_out: Quant,
    pub k_out: Quant,
    pub v_out: Quant,
    pub ctx: Quant,
    pub out_out: Quant,
    pub res1: Quant,
    pub ln2: Quant,
    pub fc2p_out: [Quant; 4],
    pub res2: Quant,
}

/// Quantisation of one decoder block.
#[derive(Clone, Copy, Debug)]
pub struct DecBlockQ {
    pub ln1: Quant,
    pub q_out: Quant,
    pub k_out: Quant,
    pub v_out: Quant,
    pub ctx: Quant,
    pub out_out: Quant,
    pub res1: Quant,
    pub xln: Quant,
    pub xq_out: Quant,
    pub xk_out: Quant,
    pub xv_out: Quant,
    pub xctx: Quant,
    pub xout_out: Quant,
    pub res2: Quant,
    pub ln2: Quant,
    pub fc2p_out: [Quant; 4],
    pub res3: Quant,
}

#[derive(Clone, Copy, Debug)]
pub struct Plan {
    /// First block of the scratch area.
    pub scratch: u32,
    /// Kept vocabulary entries.
    pub vocab_n: usize,
    pub n_sot: usize,
    pub sot: [u32; 4],
    pub eot: u32,
    pub n_blank: usize,
    pub blank: [u32; 4],
    pub conv1_in: Quant,
    pub conv2_in: Quant,
    pub gelu2: Quant,
    pub enc_x: Quant,
    pub enc_out: Quant,
    pub xk_in: Quant,
    pub dec_x: Quant,
    pub enc: [EncBlockQ; 4],
    pub dec: [DecBlockQ; 4],
}

/// The scale and zero point stored at offset `o`.
pub open spec fn quant_at(b: Seq<u8>, o: int) -> Quant {
    Quant { scale: le32(b, o) as u32, zp: signed32(le32(b, o + 4)) as i32 }
}

/// `x` is the encoder block stored at offset `o`: thirteen scale and zero
/// point pairs.
pub open spec fn is_enc_block(x: EncBlockQ, b: Seq<u8>, o: int) -> bool {
    &&& x.ln1 == quant_at(b, o)
    &&& x.q_out == quant_at(b, o + 8)
    &&& x.k_out == quant_at(b, o + 16)
    &&& x.v_out == quant_at(b, o + 24)
    &&& x.ctx == quant_at(b, o + 32)
    &&& x.out_out == quant_at(b, o + 40)
    &&& x.res1 == quant_at(b, o + 48)
    &&& x.ln2 == quant_at(b, o + 56)
    &&& x.fc2p_out[0] == quant_at(b, o + 64)
    &&& x.fc2p_out[1] == quant_at(b, o + 72)
    &&& x.fc2p_out[2] == quant_at(b, o + 80)
    &&& x.fc2p_out[3] == quant_at(b, o + 88)
    &&& x.res2 == quant_at(b, o + 96)
}

/// `x` is the decoder block stored at offset `o`: twenty pairs.
pub open spec fn is_dec_block(x: DecBlockQ, b: Seq<u8>, o: int) -> bool {
    &&& x.ln1 == quant_at(b, o)
    &&& x.q_out == quant_at(b, o + 8)
    &&& x.k_out == quant_at(b, o + 16)
    &&& x.v_out == quant_at(b, o + 24)
    &&& x.ctx == quant_at(b, o + 32)
    &&& x.out_out == quant_at(b, o + 40)
    &&& x.res1 == quant_at(b, o + 48)
    &&& x.xln == quant_at(b, o + 56)
    &&& x.xq_out == quant_at(b, o + 64)
    &&& x.xk_out == quant_at(b, o + 72)
    &&& x.xv_out == quant_at(b, o + 80)
    &&& x.xctx == quant_at(b, o + 88)
    &&& x.xout_out == quant_at(b, o + 96)
    &&& x.res2 == quant_at(b, o + 104)
    &&& x.ln2 == quant_at(b, o + 112)
    &&& x.fc2p_out[0] == quant_at(b, o + 120)
    &&& x.fc2p_out[1] == quant_at(b, o + 128)
    &&& x.fc2p_out[2] == quant_at(b, o + 136)
    &&& x.fc2p_out[3] == quant_at(b, o + 144)
    &&& x.res3 == quant_at(b, o + 152)
}

/// `p` is the plan stored in `b`: fifteen words, seven pairs, four encoder
/// blocks and four decoder blocks.
pub open spec fn is_plan(p: Plan, b: Seq<u8>) -> bool {
    &&& p.scratch == le32(b, 8)
    &&& p.vocab_n == le32(b, 12)
    &&& p.n_sot == le32(b, 16)
    &&& forall|i: int| 0 <= i < 4 ==> #[trigger] p.sot[i] == le32(b, 20 + 4 * i)
    &&& p.eot == le32(b, 36)
    &&& p.n_blank == le32(b, 40)
    &&& forall|i: int| 0 <= i < 4 ==> #[trigger] p.blank[i] == le32(b, 44 + 4 * i)
    &&& p.conv1_in == quant_at(b, 60)
    &&& p.conv2_in == quant_at(b, 68)
    &&& p.gelu2 == quant_at(b, 76)
    &&& p.enc_x == quant_at(b, 84)
    &&& p.enc_out == quant_at(b, 92)
    &&& p.xk_in == quant_at(b, 100)
    &&& p.dec_x == quant_at(b, 108)
    &&& forall|l: int| 0 <= l < 4 ==> is_enc_block(#[trigger] p.enc[l], b, 116 + 104 * l)
    &&& forall|l: int| 0 <= l < 4 ==> is_dec_block(#[trigger] p.dec[l], b, 532 + 160 * l)
}

/// A reader of consecutive words.
pub struct Rd<'a> {
    pub buf: &'a [u8],
    pub at: usize,
}

impl<'a> Rd<'a> {
    /// The next word.
    pub fn u32(&mut self) -> (v: u32)
        requires
            old(self).at + 4 <= old(self).buf@.len(),
        ensures
            v == le32(old(self).buf@, old(self).at as int),
            final(self).buf == old(self).buf,
            final(self).at == old(self).at + 4,
    {
        let total: usize = self.buf.len();
        let v: u32 = get32(self.buf, self.at);
        self.at = self.at + 4;
        v
    }

    /// The next scale and zero point.
    pub fn q(&mut self) -> (v: Quant)
        requires
            old(self).at + 8 <= old(self).buf@.len(),
        ensures
            v == quant_at(old(self).buf@, old(self).at as int),
            final(self).buf == old(self).buf,
            final(self).at == old(self).at + 8,
    {
        let total: usize = self.buf.len();
        let scale: u32 = get32(self.buf, self.at);
        let zp: i32 = get_i32(self.buf, self.at + 4);
        self.at = self.at + 8;
        Quant { scale, zp }
    }

    /// The next four pairs.
    pub fn q4(&mut self) -> (v: [Quant; 4])
        requires
            old(self).at + 32 <= old(self).buf@.len(),
        ensures
            forall|i: int|
                0 <= i < 4 ==> #[trigger] v[i] == quant_at(
                    old(self).buf@,
                    old(self).at + 8 * i,
                ),
            final(self).buf == old(self).buf,
            final(self).at == old(self).at + 32,
    {
        let a = self.q();
        let b = self.q();
        let c = self.q();
        let d = self.q();
        [a, b, c, d]
    }

    /// The next four words.
    fn u32x4(&mut self) -> (v: [u32; 4])
        requires
            old(self).at + 16 <= old(self).buf@.len(),
        ensures
            forall|i: int|
                0 <= i < 4 ==> #[trigger] v[i] == le32(old(self).buf@, old(self).at + 4 * i),
            final(self).buf == old(self).buf,
            final(self).at == old(self).at + 16,
    {
        let a: u32 = self.u32();
        let b: u32 = self.u32();
        let c: u32 = self.u32();
        let d: u32 = self.u32();
        [a, b, c, d]
    }

    /// The next four encoder blocks.
    fn enc_blocks(&mut self) -> (v: [EncBlockQ; 4])
        requires
            old(self).at + 416 <= old(self).buf@.len(),
        ensures
            forall|l: int|
                0 <= l < 4 ==> is_enc_block(
                    #[trigger] v[l],
                    old(self).buf@,
                    old(self).at + 104 * l,
                ),
            final(self).buf == old(self).buf,
            final(self).at == old(self).at + 416,
    {
        let a = self.enc_block();
        let b = self.enc_block();
        let c = self.enc_block();
        let d = self.enc_block();
        let v = [a, b, c, d];
        assert(v[0] == a && v[1] == b && v[2] == c && v[3] == d);
        v
    }

    /// The next four decoder blocks.
    #[verifier::rlimit(30)]
    fn dec_blocks(&mut self) -> (v: [DecBlockQ; 4])
        requires
            old(self).at + 640 <= old(self).buf@.len(),
        ensures
            forall|l: int|
                0 <= l < 4 ==> is_dec_block(
                    #[trigger] v[l],
                    old(self).buf@,
                    old(self).at + 160 * l,
                ),
            final(self).buf == old(self).buf,
            final(self).at == old(self).at + 640,
    {
        let a = self.dec_block();
        let b = self.dec_block();
        let c = self.dec_block();
        let d = self.dec_block();
        let v = [a, b, c, d];
        assert(v[0] == a && v[1] == b && v[2] == c && v[3] == d);
        v
    }

    /// The next encoder block.
    fn enc_block(&mut self) -> (x: EncBlockQ)
        requires
            old(self).at + 104 <= old(self).buf@.len(),
        ensures
            is_enc_block(x, old(self).buf@, old(self).at as int),
            final(self).buf == old(self).buf,
            final(self).at == old(self).at + 104,
    {
        let ln1 = self.q();
        let q_out = self.q();
        let k_out = self.q();
        let v_out = self.q();
        let ctx = self.q();
        let out_out = self.q();
        let res1 = self.q();
        let ln2 = self.q();
        let fc2p_out = self.q4();
        let res2 = self.q();
        EncBlockQ { ln1, q_out, k_out, v_out, ctx, out_out, res1, ln2, fc2p_out, res2 }
    }

    /// The next decoder block.
    fn dec_block(&mut self) -> (x: DecBlockQ)
        requires
            old(self).at + 160 <= old(self).buf@.len(),
        ensures
            is_dec_block(x, old(self).buf@, old(self).at as int),
            final(self).buf == old(self).buf,
            final(self).at == old(self).at + 160,
    {
        let ln1 = self.q();
        let q_out = self.q();
        let k_out = self.q();
        let v_out = self.q();
        let ctx = self.q();
        let out_out = self.q();
        let res1 = self.q();
        let xln = self.q();
        let xq_out = self.q();
        let xk_out = self.q();
        let xv_out = self.q();
        let xctx = self.q();
        let xout_out = self.q();
        let res2 = self.q();
        let ln2 = self.q();
        let fc2p_out = self.q4();
        let res3 = self.q();
        DecBlockQ {
            ln1,
            q_out,
            k_out,
            v_out,
            ctx,
            out_out,
            res1,
            xln,
            xq_out,
            xk_out,
            xv_out,
            xctx,
            xout_out,
            res2,
            ln2,
            fc2p_out,
            res3,
        }
    }
}

impl Plan {
    /// Where the plan is, if the image has one that fits its buffer.
    pub fn locate(idx: &[u8]) -> (r: Result<Entry, i32>)
        requires
            idx@.len() == INDEX_BYTES,
        ensures
            r == match found(idx@, "plan".spec_bytes()) {
                None => Err::<Entry, i32>(E_NO_ASSET),
                Some((e, _)) => if e.len > PLAN_BYTES {
                    Err(E_PLAN_SIZE)
                } else {
                    Ok(e)
                },
            },
    {
        match lookup(idx, "plan".as_bytes()) {
            None => Err(E_NO_ASSET),
            Some(e) => if e.len > 2048 {
                Err(E_PLAN_SIZE)
            } else {
                Ok(e)
            },
        }
    }

    /// Reads the plan out of its buffer.
    pub fn load(buf: &[u8]) -> (r: Result<Plan, i32>)
        requires
            buf@.len() == PLAN_BYTES,
        ensures
            r is Ok <==> le32(buf@, 0) == PLAN_MAGIC && le32(buf@, 4) == 1,
            r matches Ok(p) ==> is_plan(p, buf@),
            r matches Err(e) ==> e == E_PLAN,
    {
        let mut r = Rd { buf, at: 0 };
        let magic: u32 = r.u32();
        let version: u32 = r.u32();
        if magic != PLAN_MAGIC || version != 1 {
            return Err(E_PLAN);
        }
        let scratch: u32 = r.u32();
        let vocab_n: usize = r.u32() as usize;
        let n_sot: usize = r.u32() as usize;
        let sot = r.u32x4();
        let eot: u32 = r.u32();
        let n_blank: usize = r.u32() as usize;
        let blank = r.u32x4();
        let conv1_in = r.q();
        let conv2_in = r.q();
        let gelu2 = r.q();
        let enc_x = r.q();
        let enc_out = r.q();
        let xk_in = r.q();
        let dec_x = r.q();
        let enc = r.enc_blocks();
        let dec = r.dec_blocks();
        let p = Plan {
            scratch,
            vocab_n,
            n_sot,
            sot,
            eot,
            n_blank,
            blank,
            conv1_in,
            conv2_in,
            gelu2,
            enc_x,
            enc_out,
            xk_in,
            dec_x,
            enc,
            dec,
        };
        Ok(p)
    }
}

/// The quantisations of the front, of an encoder block and of a decoder block,
/// in the order in which a file holds them.
pub open spec fn front_quants(p: Plan) -> Seq<Quant> {
    seq![p.conv1_in, p.conv2_in, p.gelu2, p.enc_x, p.enc_out, p.xk_in, p.dec_x]
}

pub open spec fn enc_quants(x: EncBlockQ) -> Seq<Quant> {
    seq![
        x.ln1,
        x.q_out,
        x.k_out,
        x.v_out,
        x.ctx,
        x.out_out,
        x.res1,
        x.ln2,
        x.fc2p_out[0],
        x.fc2p_out[1],
        x.fc2p_out[2],
        x.fc2p_out[3],
        x.res2,
    ]
}

pub open spec fn dec_quants(x: DecBlockQ) -> Seq<Quant> {
    seq![
        x.ln1,
        x.q_out,
        x.k_out,
        x.v_out,
        x.ctx,
        x.out_out,
        x.res1,
        x.xln,
        x.xq_out,
        x.xk_out,
        x.xv_out,
        x.xctx,
        x.xout_out,
        x.res2,
        x.ln2,
        x.fc2p_out[0],
        x.fc2p_out[1],
        x.fc2p_out[2],
        x.fc2p_out[3],
        x.res3,
    ]
}

/// The words in front of the quantisations.
pub open spec fn head_words(p: Plan) -> Seq<int> {
    seq![
        p.scratch as int,
        p.vocab_n as int,
        p.n_sot as int,
        p.sot[0] as int,
        p.sot[1] as int,
        p.sot[2] as int,
        p.sot[3] as int,
        p.eot as int,
        p.n_blank as int,
        p.blank[0] as int,
        p.blank[1] as int,
        p.blank[2] as int,
        p.blank[3] as int,
    ]
}

/// A file holds this quantisation at byte `o`: the pattern of its scale, then
/// its zero point in two's complement.
pub open spec fn quant_stands(b: Seq<u8>, o: int, q: Quant) -> bool {
    &&& le32(b, o) == q.scale
    &&& le32(b, o + 4) == (if q.zp < 0 {
        q.zp + 0x1_0000_0000
    } else {
        q.zp as int
    })
}

/// ... these, one behind the other.
pub open spec fn quants_stand(b: Seq<u8>, o: int, q: Seq<Quant>) -> bool {
    forall|k: int| 0 <= k < q.len() ==> quant_stands(b, o + 8 * k, #[trigger] q[k])
}

proof fn lemma_quants_stand(b: Seq<u8>, o: int, q: Seq<Quant>)
    requires
        0 <= o,
        o + 8 * q.len() <= b.len(),
        forall|k: int| 0 <= k < q.len() ==> #[trigger] q[k] == quant_at(b, o + 8 * k),
    ensures
        quants_stand(b, o, q),
{
}

proof fn lemma_enc_stands(x: EncBlockQ, b: Seq<u8>, o: int)
    requires
        0 <= o,
        o + 104 <= b.len(),
        is_enc_block(x, b, o),
    ensures
        quants_stand(b, o, enc_quants(x)),
{
    let q = enc_quants(x);
    assert forall|k: int| 0 <= k < 13 implies #[trigger] q[k] == quant_at(b, o + 8 * k) by {}
    lemma_quants_stand(b, o, q);
}

proof fn lemma_dec_stands(x: DecBlockQ, b: Seq<u8>, o: int)
    requires
        0 <= o,
        o + 160 <= b.len(),
        is_dec_block(x, b, o),
    ensures
        quants_stand(b, o, dec_quants(x)),
{
    let q = dec_quants(x);
    assert forall|k: int| 0 <= k < 20 implies #[trigger] q[k] == quant_at(b, o + 8 * k) by {}
    lemma_quants_stand(b, o, q);
}

proof fn lemma_head_stands(p: Plan, b: Seq<u8>)
    requires
        is_plan(p, b),
    ensures
        forall|k: int| 0 <= k < 13 ==> le32(b, 8 + 4 * k) == #[trigger] head_words(p)[k],
{
    let w = head_words(p);
    assert forall|k: int| 0 <= k < 13 implies le32(b, 8 + 4 * k) == #[trigger] w[k] by {
        if 3 <= k < 7 {
            assert(p.sot[k - 3] == le32(b, 20 + 4 * (k - 3)));
        } else if 9 <= k {
            assert(p.blank[k - 9] == le32(b, 44 + 4 * (k - 9)));
        }
    }
}

/// A plan that was read holds what its file holds, in the file's order: the
/// head, seven quantisations, four encoder blocks of thirteen, four decoder
/// blocks of twenty.
pub proof fn law_a_plan_holds_what_its_file_holds(p: Plan, b: Seq<u8>)
    requires
        b.len() >= 1172,
        is_plan(p, b),
    ensures
        forall|k: int| 0 <= k < 13 ==> le32(b, 8 + 4 * k) == #[trigger] head_words(p)[k],
        quants_stand(b, 60, front_quants(p)),
        forall|l: int|
            0 <= l < 4 ==> quants_stand(b, 116 + 104 * l, enc_quants(#[trigger] p.enc[l])),
        forall|l: int|
            0 <= l < 4 ==> quants_stand(b, 532 + 160 * l, dec_quants(#[trigger] p.dec[l])),
{
    lemma_head_stands(p, b);
    lemma_quants_stand(b, 60, front_quants(p));
    assert forall|l: int| 0 <= l < 4 implies quants_stand(
        b,
        116 + 104 * l,
        enc_quants(#[trigger] p.enc[l]),
    ) by {
        lemma_enc_stands(p.enc[l], b, 116 + 104 * l);
    }
    assert forall|l: int| 0 <= l < 4 implies quants_stand(
        b,
        532 + 160 * l,
        dec_quants(#[trigger] p.dec[l]),
    ) by {
        lemma_dec_stands(p.dec[l], b, 532 + 160 * l);
    }
}

} // verus!
