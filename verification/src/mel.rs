//! The index side of the log-mel front end: which sample a frame reads,
//! which bins a filter touches, and the plan of the 400-point transform.
//!
//! Frames of 400 samples, 160 apart, centred, with reflection at the ends of
//! the recording; 80 filters over 201 bins. The transform is decimated in
//! time as 5 x 5 x 4 x 4, with all twiddles from one table of 400 cosines.

use crate::bytes::{to_signed, to_unsigned, unsigned32};
use crate::kernels::Quant;
use crate::params::{
    is_word_of, law_words_come_through, quant_of, read_words, word_bytes, words_at, write_words,
};
use vstd::prelude::*;

verus! {

pub const N_FFT: usize = 400;

pub const HOP: usize = 160;

pub const N_BINS: usize = 201;

pub const N_MELS: usize = 80;

/// Addresses and counts of one call of the front end.
#[derive(Clone, Copy, PartialEq, Eq, Structural, Debug)]
pub struct MelParams {
    /// int16 samples.
    pub pcm: u32,
    pub n_samples: u32,
    /// First frame to compute.
    pub frame0: u32,
    pub n_frames: u32,
    /// 400 floats.
    pub hann: u32,
    /// 400 floats.
    pub cos_tab: u32,
    /// 80 rows of 201 floats.
    pub filters: u32,
    /// 80 rows of `n_frames` floats.
    pub out: u32,
    /// The running maximum.
    pub max_acc: u32,
}

impl MelParams {
    /// The block that these words are.
    pub open spec fn of(w: Seq<u32>) -> MelParams {
        MelParams {
            pcm: w[0],
            n_samples: w[1],
            frame0: w[2],
            n_frames: w[3],
            hann: w[4],
            cos_tab: w[5],
            filters: w[6],
            out: w[7],
            max_acc: w[8],
        }
    }

    /// The words of the block.
    pub open spec fn words(self) -> Seq<u32> {
        seq![
            self.pcm,
            self.n_samples,
            self.frame0,
            self.n_frames,
            self.hann,
            self.cos_tab,
            self.filters,
            self.out,
            self.max_acc,
        ]
    }

    /// Reads the block.
    pub fn parse(b: &[u8]) -> (p: MelParams)
        requires
            b@.len() >= 36,
        ensures
            p == MelParams::of(words_at(b@, 9)),
    {
        let w = read_words(b, 9);
        MelParams {
            pcm: w[0],
            n_samples: w[1],
            frame0: w[2],
            n_frames: w[3],
            hann: w[4],
            cos_tab: w[5],
            filters: w[6],
            out: w[7],
            max_acc: w[8],
        }
    }

    /// Writes the block.
    pub fn pack(&self) -> (b: Vec<u8>)
        ensures
            b@ == word_bytes(self.words()),
    {
        let w: Vec<u32> = vec![
            self.pcm,
            self.n_samples,
            self.frame0,
            self.n_frames,
            self.hann,
            self.cos_tab,
            self.filters,
            self.out,
            self.max_acc,
        ];
        assert(w@ =~= self.words());
        write_words(&w)
    }
}

/// What one side packs of [`MelParams`], the other reads.
pub proof fn law_mel_block_comes_through(p: MelParams)
    ensures
        MelParams::of(words_at(word_bytes(p.words()), 9)) == p,
{
    let w = p.words();
    assert(w.len() == 9);
    law_words_come_through(w);
    assert(words_at(word_bytes(w), 9) == w);
}

/// Addresses and counts of one call of the normalisation.
#[derive(Clone, Copy, PartialEq, Eq, Structural, Debug)]
pub struct MelNormParams {
    pub mel: u32,
    pub n: u32,
    pub max_acc: u32,
    pub out: u32,
    pub q: Quant,
    /// Bits of the level correction. A block in memory has none.
    pub lift: u32,
}

impl MelNormParams {
    /// The block that these words are.
    pub open spec fn of(w: Seq<u32>) -> MelNormParams {
        MelNormParams {
            mel: w[0],
            n: w[1],
            max_acc: w[2],
            out: w[3],
            q: quant_of(w, 4),
            lift: 0,
        }
    }

    /// The words of the block.
    pub open spec fn words(self) -> Seq<u32> {
        seq![
            self.mel,
            self.n,
            self.max_acc,
            self.out,
            self.q.scale,
            unsigned32(self.q.zp as int) as u32,
        ]
    }

    /// Reads the block.
    pub fn parse(b: &[u8]) -> (p: MelNormParams)
        requires
            b@.len() >= 24,
        ensures
            p == MelNormParams::of(words_at(b@, 6)),
    {
        let w = read_words(b, 6);
        MelNormParams {
            mel: w[0],
            n: w[1],
            max_acc: w[2],
            out: w[3],
            q: Quant { scale: w[4], zp: to_signed(w[5]) },
            lift: 0,
        }
    }

    /// Writes the block.
    pub fn pack(&self) -> (b: Vec<u8>)
        ensures
            b@ == word_bytes(self.words()),
    {
        let w: Vec<u32> = vec![
            self.mel,
            self.n,
            self.max_acc,
            self.out,
            self.q.scale,
            to_unsigned(self.q.zp),
        ];
        assert(w@ =~= self.words());
        write_words(&w)
    }
}

/// What one side packs of [`MelNormParams`], the other reads.
pub proof fn law_mel_norm_block_comes_through(p: MelNormParams)
    requires
        p.lift == 0,
    ensures
        MelNormParams::of(words_at(word_bytes(p.words()), 6)) == p,
{
    let w = p.words();
    assert(w.len() == 6);
    law_words_come_through(w);
    assert(words_at(word_bytes(w), 6) == w);
}

// --- samples ----------------------------------------------------------------------------

/// Index `i` reflected at both ends of `n` samples.
pub open spec fn reflected(i: int, n: int) -> int {
    let a = if i < 0 {
        -i
    } else {
        i
    };
    if a >= n {
        2 * n - 2 - a
    } else {
        a
    }
}

/// The sample that tap `i` of frame `t` reads, before reflection.
pub open spec fn tap(t: int, i: int) -> int {
    160 * t - 200 + i
}

/// The sample of `n` that tap `i` of frame `t` reads.
pub fn frame_sample(t: usize, i: usize, n: usize) -> (k: usize)
    requires
        0 <= reflected(tap(t as int, i as int), n as int),
    ensures
        k == reflected(tap(t as int, i as int), n as int),
{
    let at: i128 = 160 * (t as i128) - 200 + i as i128;
    let a: i128 = if at < 0 {
        -at
    } else {
        at
    };
    let r: i128 = if a >= n as i128 {
        2 * (n as i128) - 2 - a
    } else {
        a
    };
    r as usize
}

// --- filters ----------------------------------------------------------------------------

/// The bits of a single-precision zero.
pub open spec fn is_zero(bits: u32) -> bool {
    bits == 0 || bits == 0x8000_0000
}

/// The nonzero span of a filter row, given as bits: from the first nonzero
/// entry to behind the last; both ends 0 for an empty row.
pub fn filter_span(row: &[u32]) -> (s: (usize, usize))
    ensures
        s.0 <= s.1 <= row@.len(),
        forall|k: int|
            0 <= k < row@.len() && !is_zero(#[trigger] row@[k]) ==> s.0 <= k < s.1,
        s.0 < s.1 ==> !is_zero(row@[s.0 as int]) && !is_zero(row@[s.1 - 1]),
        s.0 == s.1 ==> s.0 == 0,
{
    let n: usize = row.len();
    let mut a: usize = n;
    let mut b: usize = 0;
    let mut k: usize = 0;
    while k < n
        invariant
            k <= n,
            n == row@.len(),
            a == n || a < k,
            b <= k,
            a == n ==> b == 0,
            a < n ==> a < b && !is_zero(row@[a as int]) && !is_zero(row@[b - 1]),
            forall|j: int|
                0 <= j < k && !is_zero(#[trigger] row@[j]) ==> a < n && a <= j < b,
        decreases n - k,
    {
        let v: u32 = row[k];
        if v != 0 && v != 0x8000_0000 {
            if a == n {
                a = k;
            }
            b = k + 1;
        }
        k = k + 1;
    }
    if a == n {
        (0, b)
    } else {
        (a, b)
    }
}

/// What a trimmed filter leaves out is zero.
pub proof fn law_trimmed_bins_are_zero(row: Seq<u32>, lo: int, hi: int, k: int)
    requires
        forall|j: int| 0 <= j < row.len() && !is_zero(#[trigger] row[j]) ==> lo <= j < hi,
        0 <= k < row.len(),
        k < lo || hi <= k,
    ensures
        is_zero(row[k]),
{
}

// --- the transform ----------------------------------------------------------------------

/// The first of the four samples of leaf `leaf`; the others follow 100
/// apart.
pub open spec fn leaf_start(leaf: int) -> int {
    leaf / 20 + 5 * (leaf / 4 % 5) + 25 * (leaf % 4)
}

/// The leaf whose samples are congruent to `r` modulo 100.
pub open spec fn leaf_of(r: int) -> int {
    20 * (r % 5) + 4 * (r / 5 % 5) + r / 25
}

/// The first sample of a leaf of the transform.
pub fn fft_leaf(leaf: usize) -> (s: usize)
    requires
        leaf < 100,
    ensures
        s == leaf_start(leaf as int),
        s < 100,
{
    leaf / 20 + 5 * (leaf / 4 % 5) + 25 * (leaf % 4)
}

proof fn lemma_leaf_digits(q: int, r: int, t: int)
    requires
        0 <= q < 5,
        0 <= r < 5,
        0 <= t < 4,
    ensures
        leaf_start(20 * q + 4 * r + t) == q + 5 * r + 25 * t,
        leaf_of(q + 5 * r + 25 * t) == 20 * q + 4 * r + t,
{
    let leaf = 20 * q + 4 * r + t;
    assert(leaf / 20 == q);
    assert(leaf / 4 == 5 * q + r);
    assert((5 * q + r) % 5 == r);
    assert(leaf % 4 == t);
    let s = q + 5 * r + 25 * t;
    assert(s % 5 == q);
    assert(s / 5 == r + 5 * t);
    assert((r + 5 * t) % 5 == r);
    assert(s / 25 == t);
}

/// Every sample belongs to exactly one leaf.
pub proof fn law_leaves_partition_the_samples(i: int, leaf: int)
    requires
        0 <= i < 400,
        0 <= leaf < 100,
    ensures
        0 <= leaf_of(i % 100) < 100,
        leaf_start(leaf_of(i % 100)) == i % 100,
        leaf_start(leaf) == i % 100 ==> leaf == leaf_of(i % 100),
{
    let s = i % 100;
    let q = s % 5;
    let h = s / 5;
    let r = h % 5;
    let t = h / 5;
    assert(s == q + 5 * h && h == r + 5 * t);
    assert(0 <= t < 4);
    lemma_leaf_digits(q, r, t);
    let g = leaf / 4;
    let lt = leaf % 4;
    let lq = g / 5;
    let lr = g % 5;
    assert(leaf == 4 * g + lt && g == 5 * lq + lr);
    assert(0 <= lq < 5);
    lemma_leaf_digits(lq, lr, lt);
}

/// The table places of a twiddle's cosine and sine.
pub fn twiddle(i: usize) -> (t: (usize, usize))
    requires
        i < N_FFT,
    ensures
        t.0 == i,
        t.1 == (i + 300) % 400,
{
    let j: usize = i + 300;
    if j >= N_FFT {
        (i, j - N_FFT)
    } else {
        (i, j)
    }
}

/// One step of walking a twiddle place through the table: from `q * s`
/// steps to `q * (s + 1)`.
pub fn walk(at: usize, by: usize) -> (n: usize)
    requires
        at < N_FFT,
        by <= N_FFT,
    ensures
        n == (at + by) % 400,
{
    let n: usize = at + by;
    if n >= N_FFT {
        n - N_FFT
    } else {
        n
    }
}

/// The place after `s` steps of `by`.
pub open spec fn walked(by: int, s: int) -> int
    decreases s,
{
    if s <= 0 {
        0
    } else {
        (walked(by, s - 1) + by) % 400
    }
}

/// Walking is multiplication modulo the table.
pub proof fn law_walking_multiplies(by: int, s: int)
    requires
        0 <= by <= 400,
        0 <= s,
    ensures
        walked(by, s) == (by * s) % 400,
    decreases s,
{
    if s > 0 {
        law_walking_multiplies(by, s - 1);
        let p = by * (s - 1);
        assert(by * s == p + by) by (nonlinear_arith)
            requires
                p == by * (s - 1),
        ;
        assert((p % 400 + by) % 400 == (p + by) % 400);
    } else {
        assert(by * s == 0) by (nonlinear_arith)
            requires
                s == 0,
        ;
    }
}

/// Frames are 160 samples apart and centred on their place, and what lies
/// outside the recording is its mirror image, the edge sample standing once.
pub proof fn law_frames_are_centred_and_mirrored(t: int, i: int, n: int)
    requires
        n >= 2,
    ensures
        tap(t, 200) == 160 * t,
        tap(t + 1, i) == tap(t, i) + 160,
        tap(t, i + 1) == tap(t, i) + 1,
        0 <= i < n ==> reflected(i, n) == i,
        0 <= i < n ==> reflected(-i, n) == i,
        0 <= i < n ==> reflected(n - 1 + i, n) == n - 1 - i,
{
}

/// A leaf takes every hundredth sample: what its first one is, three digits
/// say, of five, five and four.
pub proof fn law_a_leaf_is_named_by_its_digits(a: int, b: int, c: int)
    requires
        0 <= a < 5,
        0 <= b < 5,
        0 <= c < 4,
    ensures
        leaf_start(20 * a + 4 * b + c) == a + 5 * b + 25 * c,
        leaf_of(a + 5 * b + 25 * c) == 20 * a + 4 * b + c,
{
    let leaf = 20 * a + 4 * b + c;
    assert(leaf / 20 == a);
    assert(leaf / 4 == 5 * a + b);
    assert(leaf / 4 % 5 == b);
    assert(leaf % 4 == c);
    let s = a + 5 * b + 25 * c;
    assert(s % 5 == a);
    assert(s / 5 == b + 5 * c);
    assert(s / 25 == c);
}

/// Where the fields of the mel blocks stand in their words, read and written.
pub proof fn law_mel_block_layouts(w: Seq<u32>, v: Seq<u32>, r: MelParams, s: MelNormParams)
    requires
        w.len() == 9,
        v.len() == 6,
    ensures
        ({
            let p = MelParams::of(w);
            &&& p.pcm == w[0] && p.n_samples == w[1] && p.frame0 == w[2] && p.n_frames == w[3]
            &&& p.hann == w[4] && p.cos_tab == w[5] && p.filters == w[6] && p.out == w[7]
            &&& p.max_acc == w[8]
        }),
        ({
            let x = r.words();
            &&& x.len() == 9
            &&& r.pcm == x[0] && r.n_samples == x[1] && r.frame0 == x[2] && r.n_frames == x[3]
            &&& r.hann == x[4] && r.cos_tab == x[5] && r.filters == x[6] && r.out == x[7]
            &&& r.max_acc == x[8]
        }),
        ({
            let p = MelNormParams::of(v);
            &&& p.mel == v[0] && p.n == v[1] && p.max_acc == v[2] && p.out == v[3]
            &&& p.q.scale == v[4] && is_word_of(v[5], p.q.zp)
        }),
        ({
            let x = s.words();
            &&& x.len() == 6
            &&& s.mel == x[0] && s.n == x[1] && s.max_acc == x[2] && s.out == x[3]
            &&& s.q.scale == x[4] && is_word_of(x[5], s.q.zp)
        }),
{
}

} // verus!
