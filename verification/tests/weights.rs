use whisper::dsp::{
    byte_sum, dot384_2rows, dot384_2rows_i8, dot64_2x2, dot64_q1k4_i8, dot_pv_2x2, dot_pv_q1v4_i8,
    perm4, selftest, widen_i8_i16,
};
use whisper::q4::{
    check_vectors, lut, lut16, tables16, unpack, unpack16, unpack_raw, VectorError, G, TABLES16,
};

struct Lcg(u64);

impl Lcg {
    fn next(&mut self) -> u32 {
        self.0 = self.0.wrapping_mul(6364136223846793005).wrapping_add(1442695040888963407);
        (self.0 >> 33) as u32
    }
    fn u8v(&mut self, n: usize) -> Vec<u8> {
        (0..n).map(|_| (self.next() % 256) as u8).collect()
    }
    fn i8v(&mut self, n: usize) -> Vec<i8> {
        (0..n).map(|_| (self.next() % 256) as u8 as i8).collect()
    }
    fn i16v(&mut self, n: usize, top: u32) -> Vec<i16> {
        (0..n).map(|_| (self.next() % (2 * top + 1)) as i16 - top as i16).collect()
    }
}

#[test]
fn reconstruction_table() {
    // |n| * amax * 2 + 7 over 14, for amax = 100: 14, 29, 43, 57, 71, 86, 100
    assert_eq!(
        lut(100),
        [-114, -100, -86, -71, -57, -43, -29, -14, 0, 14, 29, 43, 57, 71, 86, 100]
    );
    assert_eq!(lut(255)[15], 127);
    assert_eq!(lut(255)[0], -127);
    assert_eq!(lut(0), [0; 16]);
    assert_eq!(lut16(100)[15], 100);
}

#[test]
fn widened_tables_agree_with_bytes() {
    let mut r = Lcg(0x51);
    let mut tables = Box::new([0u32; TABLES16]);
    tables16(&mut tables);
    assert_eq!(tables[100 * 16 + 7], (-14i16) as u16 as u32);
    for _ in 0..20 {
        let groups = 2 * (1 + (r.next() % 40) as usize);
        let n = groups * G;
        let amax = r.u8v(groups);
        let nibs = r.u8v(n / 2);
        let mut d8 = vec![0i8; n];
        let mut d16 = vec![0i16; n];
        unpack(&amax, &nibs, &mut d8);
        unpack16(&tables, &amax, &nibs, &mut d16);
        assert!(d8.iter().zip(&d16).all(|(a, b)| *a as i16 == *b));
        let b = nibs[17];
        assert_eq!(d8[34], lut(amax[0])[(b & 15) as usize]);
        assert_eq!(d8[35], lut(amax[0])[(b >> 4) as usize]);
    }
}

#[test]
fn expansion_in_one_buffer() {
    let mut r = Lcg(0x99);
    let n = 256;
    let amax = r.u8v(n / G);
    let nibs = r.u8v(n / 2);
    let mut want = vec![0i8; n];
    unpack(&amax, &nibs, &mut want);
    let mut buf = vec![0u8; n + n / 2];
    buf[n..].copy_from_slice(&nibs);
    unpack_raw(&amax, &mut buf, n, 0, n);
    let got: Vec<i8> = buf[..n].iter().map(|&x| x as i8).collect();
    assert_eq!(got, want);
}

#[test]
fn byte_sums() {
    let mut r = Lcg(5);
    for _ in 0..50 {
        let n = (r.next() % 3000) as usize;
        let b = r.u8v(n);
        let want = b.iter().fold(0u32, |s, &x| s.wrapping_add(x as u32));
        assert_eq!(byte_sum(&b), want);
    }
    assert_eq!(byte_sum(&[]), 0);
    assert_eq!(byte_sum(&[255; 1000]), 255_000);
}

#[test]
fn dot_products() {
    let mut r = Lcg(11);
    let q = r.i16v(128, 300);
    let k = r.i16v(128, 128);
    let d = |a: &[i16], b: &[i16]| -> i32 {
        a.iter().zip(b).map(|(&x, &y)| x as i32 * y as i32).sum()
    };
    assert_eq!(
        dot64_2x2(&q, &k),
        [
            d(&q[..64], &k[..64]),
            d(&q[..64], &k[64..]),
            d(&q[64..], &k[..64]),
            d(&q[64..], &k[64..]),
        ]
    );
    let rows = r.i16v(768, 127);
    let h = r.i16v(384, 2047);
    assert_eq!(dot384_2rows(&rows, &h), [d(&rows[..384], &h), d(&rows[384..], &h)]);
    let p = r.i16v(1280, 255);
    let v = r.i16v(1280, 128);
    let n = 40;
    assert_eq!(
        dot_pv_2x2(&p, &v, 5),
        [
            d(&p[..n], &v[..n]),
            d(&p[..n], &v[640..640 + n]),
            d(&p[640..640 + n], &v[..n]),
            d(&p[640..640 + n], &v[640..640 + n]),
        ]
    );
}

/// The int8 kernels take their int16 operand with the middle two of every
/// four exchanged.
fn swapped(a: &[i16]) -> Vec<i16> {
    (0..a.len()).map(|i| a[perm4(i)]).collect()
}

#[test]
fn dot_products_on_bytes() {
    assert_eq!((perm4(0), perm4(1), perm4(2), perm4(3), perm4(6)), (0, 2, 1, 3, 5));
    let mut r = Lcg(12);
    let d = |a: &[i16], b: &[i8]| -> i32 {
        a.iter().zip(b).map(|(&x, &y)| x as i32 * y as i32).sum()
    };
    let rows = r.i8v(768);
    let h = r.i16v(384, 2047);
    assert_eq!(
        dot384_2rows_i8(&rows, &swapped(&h)),
        [d(&h, &rows[..384]), d(&h, &rows[384..])]
    );
    let q = r.i16v(64, 255);
    let k = r.i8v(256);
    let got = dot64_q1k4_i8(&swapped(&q), &k);
    for j in 0..4 {
        assert_eq!(got[j], d(&q, &k[64 * j..64 * j + 64]));
    }
    let p = r.i16v(64, 255);
    let v = r.i8v(256);
    let got = dot_pv_q1v4_i8(&swapped(&p), &v, 8, [1, 2, 3, 4]);
    for c in 0..4 {
        assert_eq!(got[c], c as i32 + 1 + d(&p, &v[64 * c..64 * c + 64]));
    }
}

#[test]
fn widening() {
    let src = [-128i8, -1, 0, 127, 5];
    let mut dst = [99i16; 6];
    widen_i8_i16(&src, &mut dst);
    assert_eq!(dst, [-128, -1, 0, 127, 5, 99]);
}

#[test]
fn kernels_pass_their_own_test() {
    let mut scratch = vec![0u8; 8192];
    assert_eq!(selftest(&mut scratch), 0);
    assert_eq!(scratch, vec![0u8; 8192]);
}

fn vector_file(counts: &[usize]) -> Vec<u8> {
    let mut v = (counts.len() as u32).to_le_bytes().to_vec();
    for (i, &n) in counts.iter().enumerate() {
        let amax: Vec<u8> = (0..n / G).map(|g| (37 * g + 11 * i) as u8).collect();
        let nibs: Vec<u8> = (0..n / 2).map(|k| (k * 73 + i) as u8).collect();
        let mut w = vec![0i8; n];
        unpack(&amax, &nibs, &mut w);
        v.extend((n as u32).to_le_bytes());
        v.extend(amax);
        v.extend(nibs);
        v.extend(w.iter().map(|x| *x as u8));
    }
    v
}

#[test]
fn vectors_are_replayed() {
    let v = vector_file(&[128, 0, 384]);
    assert_eq!(check_vectors(&v), Ok(3));
    assert_eq!(check_vectors(&vector_file(&[])), Ok(0));
    let mut longer = v.clone();
    longer.push(0);
    assert_eq!(check_vectors(&longer), Err(VectorError::Trailing));
    assert_eq!(check_vectors(&v[..v.len() - 1]), Err(VectorError::CutOff));
    assert_eq!(check_vectors(&[1, 0]), Err(VectorError::CutOff));
    let mut other = v.clone();
    let last = other.len() - 1;
    other[last] ^= 1;
    assert_eq!(check_vectors(&other), Err(VectorError::Differs(2)));
    let mut odd = v;
    odd[4] = 64;
    assert_eq!(check_vectors(&odd), Err(VectorError::NotGroups(0)));
}
