use whisper::attention::{
    attn_context_kt, attn_context_x1, attn_scores_kt, attn_scores_x1, logits_max, prepare_kv_from,
    prepare_v_from, transpose64, ArgmaxState,
};
use whisper::heads::{attn_head, attn_head_kt, attn_head_x1_i8};
use whisper::kernels::{
    attn_context, attn_prepare_kt, attn_prepare_v16, attn_scores, biased_prob, keys_padded, lut_i8,
    lut_apply_to, matmul_i8_bt, probs_total, AttnKv, Quant, KV16_LEN, MAX_KEYS,
};

struct Lcg(u64);

impl Lcg {
    fn next(&mut self) -> u32 {
        self.0 = self.0.wrapping_mul(6364136223846793005).wrapping_add(1442695040888963407);
        (self.0 >> 33) as u32
    }
    fn i8v(&mut self, n: usize) -> Vec<i8> {
        (0..n).map(|_| (self.next() % 256) as i32 as u8 as i8).collect()
    }
    fn zero_points(&mut self) -> (i32, i32, i32) {
        (
            (self.next() % 11) as i32 - 5,
            (self.next() % 11) as i32 - 5,
            (self.next() % 11) as i32 - 5,
        )
    }
}

struct Site {
    hd: usize,
    wq: usize,
    qs: usize,
    tk: usize,
    ks: usize,
    zq: i32,
    zk: i32,
    zv: i32,
    mult: f32,
}

const V_SCALE: f32 = 0.17;
const CTX_SCALE: f32 = 0.06;
const CTX_ZP: i32 = 3;

fn golden(q: &[i8], k: &[i8], v: &[i8], s: &Site) -> Vec<i8> {
    let mut ctx = vec![0i8; s.hd * s.qs];
    for qi in 0..s.wq {
        let scores: Vec<f32> = (0..s.tk)
            .map(|j| {
                let mut acc = 0i64;
                for c in 0..s.hd {
                    acc += (q[c * s.qs + qi] as i64 - s.zq as i64)
                        * (k[c * s.ks + j] as i64 - s.zk as i64);
                }
                acc as f32 * s.mult
            })
            .collect();
        let m = scores.iter().fold(f32::MIN, |a, &b| a.max(b));
        let mut sum = 0f32;
        let e: Vec<f32> = scores
            .iter()
            .map(|&x| {
                let y = libm::expf(x - m);
                sum += y;
                y
            })
            .collect();
        let inv = 1.0 / sum;
        let p8: Vec<i64> = e
            .iter()
            .map(|&x| (libm::roundf(x * inv * 256.0) as i64 - 128).clamp(-128, 127))
            .collect();
        for c in 0..s.hd {
            let mut acc = 0i64;
            for (j, &p) in p8.iter().enumerate() {
                acc += (v[c * s.ks + j] as i64 - s.zv as i64) * (p + 128);
            }
            let x = acc as f32 * (V_SCALE / 256.0);
            ctx[c * s.qs + qi] =
                (libm::roundf(x / CTX_SCALE) as i32 + CTX_ZP).clamp(-128, 127) as i8;
        }
    }
    ctx
}

/// Softmax over integer scores, as biased probability codes.
fn probs(scores: &[i32], mult: f32) -> Vec<i16> {
    let f: Vec<f32> = scores.iter().map(|&s| s as f32 * mult).collect();
    let m = f.iter().fold(f32::MIN, |a, &b| a.max(b));
    let mut sum = 0f32;
    let e: Vec<f32> = f
        .iter()
        .map(|&x| {
            let y = libm::expf(x - m);
            sum += y;
            y
        })
        .collect();
    let inv = 1.0 / sum;
    e.iter().map(|&x| biased_prob(libm::roundf(x * inv * 256.0) as i32)).collect()
}

fn requantised(sums: &[i32]) -> Vec<i8> {
    let q = Quant { scale: CTX_SCALE.to_bits(), zp: CTX_ZP };
    sums.iter()
        .map(|&s| q.q8(libm::roundf(s as f32 * (V_SCALE / 256.0) / CTX_SCALE) as i32))
        .collect()
}

const SHAPES: [(usize, usize, usize, usize); 9] = [
    (1, 4, 1, 32),
    (1, 4, 5, 32),
    (1, 4, 32, 32),
    (1, 4, 600, 600),
    (1, 4, 192, 192),
    (64, 64, 192, 640),
    (64, 64, 600, 640),
    (64, 64, 640, 640),
    (3, 8, 7, 16),
];

const MULTS: [f32; 5] = [0.25 * 0.11 / 8.0, 4.26e-4, 7.9e-4, 9.5e-4, 1.4e-3];

#[test]
fn heads_match_the_golden() {
    let hd = 64;
    let mut r = Lcg(0xa77);
    for (case, &(wq, qs, tk, ks)) in SHAPES.iter().enumerate() {
        for rep in 0..2 {
            let q = r.i8v(hd * qs);
            let k = r.i8v(hd * ks);
            let v = r.i8v(hd * ks);
            let (zq, zk, zv) = r.zero_points();
            let s = Site { hd, wq, qs, tk, ks, zq, zk, zv, mult: MULTS[rep] };
            let want = golden(&q, &k, &v, &s);
            let mut got = vec![0i8; hd * qs];
            for qi in 0..wq {
                let scores = attn_scores(&q, &k, hd, qi, qs, tk, ks, zq, zk);
                let p = probs(&scores, s.mult);
                let ctx = requantised(&attn_context(&p, &v, hd, tk, ks, zv));
                for c in 0..hd {
                    got[c * qs + qi] = ctx[c];
                }
            }
            assert_eq!(got, want, "case {case} rep {rep}");
        }
    }
}

#[test]
fn two_queries_match_the_golden() {
    let hd = 64;
    let mut r = Lcg(0x1234);
    for &(wq, qs, tk, ks) in SHAPES.iter() {
        let q = r.i8v(hd * qs);
        let k = r.i8v(hd * ks);
        let v = r.i8v(hd * ks);
        let (zq, zk, zv) = r.zero_points();
        let s = Site { hd, wq, qs, tk, ks, zq, zk, zv, mult: MULTS[2] };
        let want = golden(&q, &k, &v, &s);
        let mut kt = vec![0i16; KV16_LEN];
        let mut v16 = vec![0i16; KV16_LEN];
        attn_prepare_kt(|ch, j| k[ch * ks + j], tk, &mut kt);
        attn_prepare_v16(|ch, j| v[ch * ks + j], tk, &mut v16);
        let kv = AttnKv { kt: &kt, v16: &v16, tk };
        let mut got = vec![0i8; hd * qs];
        let mut qi = 0;
        while qi < wq {
            let two = qi + 1 < wq;
            let (s0, s1) = attn_scores_kt(&q, &kv, qi, two, qs, zq, zk);
            let mut p = vec![0i16; 2 * MAX_KEYS];
            let p0 = probs(&s0[..tk], s.mult);
            let p1 = probs(&s1[..tk], s.mult);
            p[..tk].copy_from_slice(&p0);
            p[MAX_KEYS..MAX_KEYS + tk].copy_from_slice(&p1);
            let (c0, c1) = attn_context_kt(&p, &kv, zv);
            let r0 = requantised(&c0);
            let r1 = requantised(&c1);
            for c in 0..hd {
                got[c * qs + qi] = r0[c];
                if two {
                    got[c * qs + qi + 1] = r1[c];
                }
            }
            qi += 2;
        }
        assert_eq!(got, want, "wq {wq} tk {tk}");
    }
}

#[test]
fn one_query_on_int8_layouts_matches_the_golden() {
    let hd = 64;
    let ks = 640;
    let mut r = Lcg(0x77);
    for &tk in &[1usize, 5, 8, 63, 64, 65, 192, 582, 600, 640] {
        let tkp = keys_padded(tk);
        let tiles = tk.div_ceil(64);
        let q = r.i8v(hd * 4);
        let k = r.i8v(hd * ks);
        let v = r.i8v(hd * ks);
        let (zq, zk, zv) = r.zero_points();
        let s = Site { hd, wq: 1, qs: 4, tk, ks, zq, zk, zv, mult: MULTS[0] };
        let mut kk = vec![0i8; tkp.max(tiles * 64) * hd];
        for j in 0..tk {
            for ch in 0..hd {
                kk[j * hd + ch] = k[ch * ks + j];
            }
        }
        let mut vt = vec![0i8; tiles * hd * 64];
        for ch in 0..hd {
            for j in 0..tk {
                vt[(j / 64) * hd * 64 + ch * 64 + j % 64] = v[ch * ks + j];
            }
        }
        let want = golden(&q, &k, &v, &s);
        let scores = attn_scores_x1(&q, &kk, tk, 4, zq, zk);
        let mut p = probs(&scores[..tk], s.mult);
        p.resize(MAX_KEYS, 0);
        let ctx = requantised(&attn_context_x1(&p, &vt, tk, zv));
        for c in 0..hd {
            assert_eq!(ctx[c], want[c * 4], "tk {tk} channel {c}");
        }
    }
}

#[test]
fn whole_heads_match_the_golden() {
    let hd = 64;
    let mut r = Lcg(0x5151);
    for (i, &(wq, qs, tk, ks)) in SHAPES.iter().enumerate() {
        let q = r.i8v(hd * qs);
        let k = r.i8v(hd * ks);
        let v = r.i8v(hd * ks);
        let (zq, zk, zv) = r.zero_points();
        let s = Site { hd, wq, qs, tk, ks, zq, zk, zv, mult: MULTS[i % MULTS.len()] };
        let want = golden(&q, &k, &v, &s);
        let row = |scores: Vec<i32>| probs(&scores, s.mult);
        let code = |sum: i32| requantised(&[sum])[0];
        let mut got = vec![0i8; hd * qs];
        attn_head(&q, &k, &v, &mut got, hd, wq, qs, tk, ks, zq, zk, zv, row, code);
        assert_eq!(got, want, "planar, wq {wq} tk {tk}");
        let mut kt = vec![0i16; KV16_LEN];
        let mut v16 = vec![0i16; KV16_LEN];
        attn_prepare_kt(|ch, j| k[ch * ks + j], tk, &mut kt);
        attn_prepare_v16(|ch, j| v[ch * ks + j], tk, &mut v16);
        let kv = AttnKv { kt: &kt, v16: &v16, tk };
        let mut got = vec![0i8; hd * qs];
        attn_head_kt(&q, &kv, &mut got, wq, qs, zq, zk, zv, row, code);
        assert_eq!(got, want, "prepared, wq {wq} tk {tk}");
        let tiles = tk.div_ceil(64);
        let mut keys = vec![0i8; keys_padded(tk) * hd];
        let mut vt = vec![0i8; tiles * 4096];
        for ch in 0..hd {
            for j in 0..tk {
                keys[j * hd + ch] = k[ch * ks + j];
                vt[(j / 64) * 4096 + ch * 64 + j % 64] = v[ch * ks + j];
            }
        }
        let mut got = vec![0i8; hd * qs];
        attn_head_x1_i8(&q, &keys, &vt, tk, &mut got, qs, zq, zk, zv, row, code);
        for c in 0..hd {
            assert_eq!(got[c * qs], want[c * qs], "staged, tk {tk} channel {c}");
            assert!(got[c * qs + 1..(c + 1) * qs].iter().all(|&x| x == 0));
        }
    }
}

#[test]
fn staged_tiles_are_the_prepared_layouts() {
    let mut r = Lcg(9);
    let tk = 150;
    let stage = r.i8v(3 * 4096);
    let key = |ch: usize, j: usize| stage[(j / 64) * 4096 + ch * 64 + j % 64];
    let mut a = vec![7i16; KV16_LEN];
    let mut b = vec![7i16; KV16_LEN];
    prepare_kv_from(&stage, tk, &mut a);
    attn_prepare_kt(key, tk, &mut b);
    assert_eq!(a[..keys_padded(tk) * 64], b[..keys_padded(tk) * 64]);
    let mut c = vec![7i16; KV16_LEN];
    let mut d = vec![7i16; KV16_LEN];
    prepare_v_from(&stage, tk, &mut c);
    attn_prepare_v16(key, tk, &mut d);
    for ch in 0..64 {
        let row = ch * MAX_KEYS;
        assert_eq!(c[row..row + keys_padded(tk)], d[row..row + keys_padded(tk)]);
    }
}

#[test]
fn transposing_twice_is_nothing() {
    let mut r = Lcg(3);
    let a = r.i8v(4096);
    let mut b = vec![0i8; 4096];
    let mut c = vec![0i8; 4096];
    transpose64(&a, &mut b);
    assert_eq!(b[64 * 5 + 9], a[64 * 9 + 5]);
    transpose64(&b, &mut c);
    assert_eq!(a, c);
}

#[test]
fn maps_through_a_table() {
    let mut lut = [0i8; 256];
    for (i, x) in lut.iter_mut().enumerate() {
        *x = (255 - i as i32 - 128) as i8;
    }
    let src = [-128i8, -1, 0, 127];
    let mut dst = [9i8; 5];
    lut_i8(&lut, &src, &mut dst);
    assert_eq!(dst, [127, 0, -1, -128, 9]);
    let mut buf = [-128i8, 3];
    lut_apply_to(&lut, &mut buf);
    assert_eq!(buf, [127, -4]);
}

#[test]
fn matrix_product_with_zero_point() {
    // [1 2; 3 4] - 1 times the rows [5 6], [7 8]
    let a = [1i8, 2, 3, 4];
    let b = [5i8, 6, 7, 8];
    let mut acc = [0i32; 4];
    matmul_i8_bt(&a, 1, &b, &mut acc, 2, 2, 2);
    assert_eq!(acc, [6, 8, 28, 38]);
    matmul_i8_bt(&a, 1, &b, &mut acc, 2, 2, 2);
    assert_eq!(acc, [12, 16, 56, 76]);
}

#[test]
fn a_matrix_product_is_added() {
    let mut acc = [100i32, 7];
    matmul_i8_bt(&[1, 2], 0, &[3, 4], &mut acc, 1, 2, 1);
    assert_eq!(acc, [111, 7]);
    let mut far = [5i32];
    matmul_i8_bt(&[1], -1_000_000, &[2], &mut far, 1, 1, 1);
    assert_eq!(far, [2_000_007]);
    let ones = vec![1i8; 70_000];
    let mut long = [-70_000i32];
    matmul_i8_bt(&ones, 0, &ones, &mut long, 1, 70_000, 1);
    assert_eq!(long, [0]);
}

#[test]
fn probabilities() {
    assert_eq!(biased_prob(0), 0);
    assert_eq!(biased_prob(255), 255);
    assert_eq!(biased_prob(256), 255);
    assert_eq!(biased_prob(-3), 0);
    assert_eq!(probs_total(&[1, 2, 3, 9], 3), 6);
    assert_eq!(keys_padded(600), 600);
    assert_eq!(keys_padded(601), 608);
}

#[test]
fn quantised_codes() {
    let q = Quant { scale: 0, zp: -59 };
    assert_eq!(q.q8(0), -59);
    assert_eq!(q.q8(500), 127);
    assert_eq!(q.q8(-500), -128);
    assert_eq!(q.q16(40000), 32767);
    assert_eq!(q.dq8(-128), -69);
    assert_eq!(q.q8(q.dq8(17)), 17);
    assert_eq!(q.dq16(1000), 1059);
    assert_eq!(Quant::default(), Quant { scale: 0, zp: 0 });
}

#[test]
fn first_largest_logit_wins() {
    let mut s = ArgmaxState { best: i32::MIN, best_idx: 0 };
    logits_max(&[3, 9, 9, 2], &[10, 11, 12, 13], &mut s);
    assert_eq!((s.best, s.best_idx), (9, 11));
    logits_max(&[9, 8], &[20, 21], &mut s);
    assert_eq!((s.best, s.best_idx), (9, 11));
    logits_max(&[10], &[30], &mut s);
    assert_eq!((s.best, s.best_idx), (10, 30));
}
