//! Integer dot products, sums and widening: the inner loops of attention,
//! the LM head and the integrity checks, as exact sums modulo 2^32.

use vstd::prelude::*;

verus! {

/// Row stride, in elements, of the two-row operands of the value kernel
/// (probability rows and value rows).
pub const ROW2: usize = 640;

/// The int32 congruent to `x` modulo 2^32.
#[verifier::opaque]
pub open spec fn wrap32(x: int) -> int {
    (x + 0x8000_0000) % 0x1_0000_0000 - 0x8000_0000
}

/// The first `n` products of the two rows, summed.
pub open spec fn dot16(a: Seq<i16>, ao: int, b: Seq<i16>, bo: int, n: int) -> int
    decreases n,
{
    if n <= 0 {
        0
    } else {
        dot16(a, ao, b, bo, n - 1) + a[ao + n - 1] * b[bo + n - 1]
    }
}

/// Index of column `c` in a vector whose every four columns have their
/// middle two swapped.
pub open spec fn swapped(c: int) -> int {
    4 * (c / 4) + 2 * (c % 2) + c / 2 % 2
}

/// The first `n` products of an int8 row and a vector in swapped order.
pub open spec fn dot8_swapped(v: Seq<i8>, vo: int, h: Seq<i16>, n: int) -> int
    decreases n,
{
    if n <= 0 {
        0
    } else {
        dot8_swapped(v, vo, h, n - 1) + v[vo + n - 1] * h[swapped(n - 1)]
    }
}

/// The first `n` products of an int8 row and a vector in plain order.
pub open spec fn dot8(v: Seq<i8>, vo: int, x: Seq<i16>, n: int) -> int
    decreases n,
{
    if n <= 0 {
        0
    } else {
        dot8(v, vo, x, n - 1) + v[vo + n - 1] * x[n - 1]
    }
}

/// The sum of all bytes.
pub open spec fn total(b: Seq<u8>) -> int
    decreases b.len(),
{
    if b.len() == 0 {
        0
    } else {
        total(b.drop_last()) + b.last()
    }
}

/// The integrity sum of a buffer: all bytes modulo 2^32.
pub open spec fn sum_of_bytes(b: Seq<u8>) -> int {
    total(b) % 0x1_0000_0000
}

proof fn lemma_product16(x: int, y: int)
    by (nonlinear_arith)
    requires
        -32768 <= x <= 32767,
        -32768 <= y <= 32767,
    ensures
        -0x4000_0000 <= x * y <= 0x4000_0000,
{
}

/// Adding one more product to a wrapped sum is the wrapped longer sum.
proof fn lemma_wrap_step(sum: int, p: int)
    ensures
        wrap32(wrap32(sum) + p) == wrap32(sum + p),
{
    reveal(wrap32);
}

/// A sum that fits an int32 does not wrap.
pub proof fn law_small_sums_do_not_wrap(x: int)
    requires
        -0x8000_0000 <= x < 0x8000_0000,
    ensures
        wrap32(x) == x,
{
    reveal(wrap32);
}

/// Multiply-accumulate, wrapping.
fn mac(s: i32, x: i32, y: i32) -> (r: i32)
    requires
        -32768 <= x <= 32767,
        -32768 <= y <= 32767,
    ensures
        r == wrap32(s + x * y),
{
    proof {
        lemma_product16(x as int, y as int);
        reveal(wrap32);
    }
    s.wrapping_add(x * y)
}

/// A total over a concatenation is the sum of the totals.
pub proof fn law_total_splits(a: Seq<u8>, b: Seq<u8>)
    ensures
        total(a + b) == total(a) + total(b),
        0 <= total(a),
    decreases b.len(),
{
    lemma_total_positive(a);
    if b.len() == 0 {
        assert(a + b =~= a);
    } else {
        law_total_splits(a, b.drop_last());
        assert((a + b).drop_last() =~= a + b.drop_last());
    }
}

proof fn lemma_total_positive(a: Seq<u8>)
    ensures
        0 <= total(a),
    decreases a.len(),
{
    if a.len() > 0 {
        lemma_total_positive(a.drop_last());
    }
}

/// Summing a buffer piece by piece gives the sum of the whole buffer.
pub proof fn law_byte_sum_splits(a: Seq<u8>, b: Seq<u8>)
    ensures
        sum_of_bytes(a + b) == (sum_of_bytes(a) + sum_of_bytes(b)) % 0x1_0000_0000,
{
    law_total_splits(a, b);
}

/// Swapping twice is no change, and swapping stays inside every group of
/// four columns.
pub proof fn law_swap_is_an_involution(c: int)
    requires
        0 <= c,
    ensures
        swapped(swapped(c)) == c,
        swapped(c) / 4 == c / 4,
{
    let g = c / 4;
    let r = c % 4;
    assert(c == 4 * g + r);
    if r == 0 || r == 3 {
        assert(swapped(c) == c);
    } else if r == 1 {
        assert(swapped(c) == 4 * g + 2);
        assert(swapped(4 * g + 2) == 4 * g + 1);
    } else {
        assert(swapped(c) == 4 * g + 1);
        assert(swapped(4 * g + 1) == 4 * g + 2);
    }
}

/// No two columns share a place.
pub proof fn law_swap_is_injective(c: int, d: int)
    requires
        0 <= c,
        0 <= d,
        swapped(c) == swapped(d),
    ensures
        c == d,
{
    law_swap_is_an_involution(c);
    law_swap_is_an_involution(d);
}

/// A row dotted with a vector in swapped order is the row dotted with the
/// vector in plain order.
pub proof fn law_swapped_dot_is_the_dot(v: Seq<i8>, vo: int, h: Seq<i16>, x: Seq<i16>, n: int)
    requires
        forall|c: int| 0 <= c < n ==> h[#[trigger] swapped(c)] == x[c],
    ensures
        dot8_swapped(v, vo, h, n) == dot8(v, vo, x, n),
    decreases n,
{
    if n > 0 {
        law_swapped_dot_is_the_dot(v, vo, h, x, n - 1);
        assert(h[swapped(n - 1)] == x[n - 1]);
    }
}

/// Wrapping uint32 sum of all bytes (the image's per-entry integrity sum).
pub fn byte_sum(b: &[u8]) -> (s: u32)
    ensures
        s == sum_of_bytes(b@),
{
    let mut s: u32 = 0;
    let mut i: usize = 0;
    while i < b.len()
        invariant
            i <= b@.len(),
            s == total(b@.take(i as int)) % 0x1_0000_0000,
        decreases b@.len() - i,
    {
        assert(b@.take(i + 1).drop_last() =~= b@.take(i as int));
        s = s.wrapping_add(b[i] as u32);
        i = i + 1;
    }
    assert(b@.take(i as int) =~= b@);
    s
}

/// One row dotted with another, wrapping.
pub fn dot_rows(a: &[i16], ao: usize, b: &[i16], bo: usize, n: usize) -> (s: i32)
    requires
        ao + n <= a@.len(),
        bo + n <= b@.len(),
    ensures
        s == wrap32(dot16(a@, ao as int, b@, bo as int, n as int)),
{
    let mut s: i32 = 0;
    let mut c: usize = 0;
    proof {
        law_small_sums_do_not_wrap(0);
    }
    let la: usize = a.len();
    let lb: usize = b.len();
    while c < n
        invariant
            c <= n,
            la == a@.len(),
            lb == b@.len(),
            ao + n <= la,
            bo + n <= lb,
            s == wrap32(dot16(a@, ao as int, b@, bo as int, c as int)),
        decreases n - c,
    {
        proof {
            lemma_wrap_step(
                dot16(a@, ao as int, b@, bo as int, c as int),
                a@[ao + c] * b@[bo + c],
            );
        }
        s = mac(s, a[ao + c] as i32, b[bo + c] as i32);
        c = c + 1;
    }
    s
}

/// An int8 row dotted with a vector in swapped order, on top of `acc`.
pub fn dot_row8(v: &[i8], vo: usize, h: &[i16], n: usize, acc: i32) -> (s: i32)
    requires
        vo + n <= v@.len(),
        n % 4 == 0,
        n <= h@.len(),
    ensures
        s == wrap32(acc + dot8_swapped(v@, vo as int, h@, n as int)),
{
    let mut s: i32 = acc;
    let mut c: usize = 0;
    proof {
        law_small_sums_do_not_wrap(acc as int);
    }
    let lv: usize = v.len();
    while c < n
        invariant
            c <= n,
            lv == v@.len(),
            vo + n <= lv,
            n % 4 == 0,
            n <= h@.len(),
            s == wrap32(acc + dot8_swapped(v@, vo as int, h@, c as int)),
        decreases n - c,
    {
        let at: usize = perm4(c);
        assert(at < n);
        proof {
            lemma_wrap_step(
                acc + dot8_swapped(v@, vo as int, h@, c as int),
                v@[vo + c] * h@[at as int],
            );
            assert(acc + dot8_swapped(v@, vo as int, h@, c as int) + v@[vo + c] * h@[at as int]
                == acc + dot8_swapped(v@, vo as int, h@, c + 1));
        }
        s = mac(s, v[vo + c] as i32, h[at] as i32);
        c = c + 1;
    }
    s
}

/// Index of column `c` of the hidden vector in the layout that
/// `dot384_2rows_i8` expects (the middle two of every four swapped).
pub fn perm4(c: usize) -> (p: usize)
    ensures
        p == swapped(c as int),
{
    c - c % 4 + 2 * (c % 2) + c / 2 % 2
}

/// Two queries and two keys over 64 dimensions. `q` holds query row 0 and
/// then row 1; `k` likewise the two keys. Returns
/// `[q0.k0, q0.k1, q1.k0, q1.k1]`.
pub fn dot64_2x2(q: &[i16], k: &[i16]) -> (r: [i32; 4])
    requires
        q@.len() >= 128,
        k@.len() >= 128,
    ensures
        r@[0] == wrap32(dot16(q@, 0, k@, 0, 64)),
        r@[1] == wrap32(dot16(q@, 0, k@, 64, 64)),
        r@[2] == wrap32(dot16(q@, 64, k@, 0, 64)),
        r@[3] == wrap32(dot16(q@, 64, k@, 64, 64)),
{
    dot_2x2(q, 0, 64, k, 0, 64, 64)
}

/// Two rows of `a` and two rows of `b`, `n` columns each: the four wrapped
/// dot products in one pass.
fn dot_2x2(
    a: &[i16],
    ao: usize,
    astep: usize,
    b: &[i16],
    bo: usize,
    bstep: usize,
    n: usize,
) -> (r: [i32; 4])
    requires
        ao + astep + n <= a@.len(),
        bo + bstep + n <= b@.len(),
    ensures
        r@[0] == wrap32(dot16(a@, ao as int, b@, bo as int, n as int)),
        r@[1] == wrap32(dot16(a@, ao as int, b@, bo + bstep, n as int)),
        r@[2] == wrap32(dot16(a@, ao + astep, b@, bo as int, n as int)),
        r@[3] == wrap32(dot16(a@, ao + astep, b@, bo + bstep, n as int)),
{
    let (mut s0, mut s1, mut s2, mut s3): (i32, i32, i32, i32) = (0, 0, 0, 0);
    proof {
        law_small_sums_do_not_wrap(0);
    }
    let la: usize = a.len();
    let lb: usize = b.len();
    let mut c: usize = 0;
    while c < n
        invariant
            c <= n,
            la == a@.len(),
            lb == b@.len(),
            ao + astep + n <= la,
            bo + bstep + n <= lb,
            s0 == wrap32(dot16(a@, ao as int, b@, bo as int, c as int)),
            s1 == wrap32(dot16(a@, ao as int, b@, bo + bstep, c as int)),
            s2 == wrap32(dot16(a@, ao + astep, b@, bo as int, c as int)),
            s3 == wrap32(dot16(a@, ao + astep, b@, bo + bstep, c as int)),
        decreases n - c,
    {
        let a0: i32 = a[ao + c] as i32;
        let a1: i32 = a[ao + astep + c] as i32;
        let b0: i32 = b[bo + c] as i32;
        let b1: i32 = b[bo + bstep + c] as i32;
        proof {
            lemma_wrap_step(dot16(a@, ao as int, b@, bo as int, c as int), a0 * b0);
            lemma_wrap_step(dot16(a@, ao as int, b@, bo + bstep, c as int), a0 * b1);
            lemma_wrap_step(dot16(a@, ao + astep, b@, bo as int, c as int), a1 * b0);
            lemma_wrap_step(dot16(a@, ao + astep, b@, bo + bstep, c as int), a1 * b1);
        }
        s0 = mac(s0, a0, b0);
        s1 = mac(s1, a0, b1);
        s2 = mac(s2, a1, b0);
        s3 = mac(s3, a1, b1);
        c = c + 1;
    }
    [s0, s1, s2, s3]
}

/// Two probability rows and two value rows over `n8 * 8` keys. `p` holds
/// row 0 with row 1 `ROW2` elements on; `v` likewise. Returns
/// `[p0.v0, p0.v1, p1.v0, p1.v1]`.
pub fn dot_pv_2x2(p: &[i16], v: &[i16], n8: usize) -> (r: [i32; 4])
    requires
        1 <= n8,
        n8 * 8 <= ROW2,
        p@.len() >= ROW2 + n8 * 8,
        v@.len() >= ROW2 + n8 * 8,
    ensures
        r@[0] == wrap32(dot16(p@, 0, v@, 0, n8 * 8)),
        r@[1] == wrap32(dot16(p@, 0, v@, ROW2 as int, n8 * 8)),
        r@[2] == wrap32(dot16(p@, ROW2 as int, v@, 0, n8 * 8)),
        r@[3] == wrap32(dot16(p@, ROW2 as int, v@, ROW2 as int, n8 * 8)),
{
    dot_2x2(p, 0, ROW2, v, 0, ROW2, n8 * 8)
}

/// Two consecutive int16 rows of 384 dotted with one vector of 384:
/// `[row0.h, row1.h]`.
pub fn dot384_2rows(rows: &[i16], h: &[i16]) -> (r: [i32; 2])
    requires
        rows@.len() >= 768,
        h@.len() >= 384,
    ensures
        r@[0] == wrap32(dot16(rows@, 0, h@, 0, 384)),
        r@[1] == wrap32(dot16(rows@, 384, h@, 0, 384)),
{
    let r = dot_2x2(rows, 0, 384, h, 0, 0, 384);
    [r[0], r[2]]
}

/// Widening, `dst[i] = src[i]` for every element of `src`; the rest of
/// `dst` stays.
pub fn widen_i8_i16(src: &[i8], dst: &mut [i16])
    requires
        old(dst)@.len() >= src@.len(),
    ensures
        final(dst)@.len() == old(dst)@.len(),
        forall|i: int| 0 <= i < src@.len() ==> #[trigger] final(dst)@[i] == src@[i],
        forall|i: int|
            src@.len() <= i < final(dst)@.len() ==> #[trigger] final(dst)@[i] == old(dst)@[i],
{
    let ghost start = dst@;
    let mut i: usize = 0;
    while i < src.len()
        invariant
            i <= src@.len() <= dst@.len(),
            dst@.len() == start.len(),
            forall|j: int| 0 <= j < i ==> #[trigger] dst@[j] == src@[j],
            forall|j: int| i <= j < dst@.len() ==> #[trigger] dst@[j] == start[j],
        decreases src@.len() - i,
    {
        dst[i] = src[i] as i16;
        i = i + 1;
    }
}

/// Two int8 rows of 384 dotted with a vector in swapped order:
/// `[row0.h, row1.h]`.
pub fn dot384_2rows_i8(rows: &[i8], h: &[i16]) -> (r: [i32; 2])
    requires
        rows@.len() >= 768,
        h@.len() >= 384,
    ensures
        r@[0] == wrap32(dot8_swapped(rows@, 0, h@, 384)),
        r@[1] == wrap32(dot8_swapped(rows@, 384, h@, 384)),
{
    let mut s0: i32 = 0;
    let mut s1: i32 = 0;
    proof {
        law_small_sums_do_not_wrap(0);
    }
    let mut c: usize = 0;
    while c < 384
        invariant
            c <= 384,
            rows@.len() >= 768,
            h@.len() >= 384,
            s0 == wrap32(dot8_swapped(rows@, 0, h@, c as int)),
            s1 == wrap32(dot8_swapped(rows@, 384, h@, c as int)),
        decreases 384 - c,
    {
        let at: usize = perm4(c);
        let hc: i32 = h[at] as i32;
        proof {
            lemma_wrap_step(dot8_swapped(rows@, 0, h@, c as int), rows@[c as int] * hc);
            lemma_wrap_step(dot8_swapped(rows@, 384, h@, c as int), rows@[384 + c] * hc);
        }
        s0 = mac(s0, rows[c] as i32, hc);
        s1 = mac(s1, rows[384 + c] as i32, hc);
        c = c + 1;
    }
    [s0, s1]
}

/// One query (64 elements in swapped order) and four consecutive int8 key
/// rows of 64: `[q.k0, q.k1, q.k2, q.k3]`.
pub fn dot64_q1k4_i8(q: &[i16], k: &[i8]) -> (r: [i32; 4])
    requires
        q@.len() >= 64,
        k@.len() >= 256,
    ensures
        forall|j: int|
            0 <= j < 4 ==> #[trigger] r@[j] == wrap32(dot8_swapped(k@, 64 * j, q@, 64)),
{
    let mut a: [i32; 4] = [0; 4];
    proof {
        law_small_sums_do_not_wrap(0);
    }
    let mut c: usize = 0;
    while c < 64
        invariant
            c <= 64,
            q@.len() >= 64,
            k@.len() >= 256,
            forall|j: int|
                0 <= j < 4 ==> #[trigger] a@[j] == wrap32(dot8_swapped(k@, 64 * j, q@, c as int)),
        decreases 64 - c,
    {
        let at: usize = perm4(c);
        let qc: i32 = q[at] as i32;
        let ghost before = a@;
        let mut r: usize = 0;
        while r < 4
            invariant
                c < 64,
                r <= 4,
                at == swapped(c as int),
                at < 64,
                qc == q@[at as int],
                q@.len() >= 64,
                k@.len() >= 256,
                forall|j: int|
                    0 <= j < 4 ==> #[trigger] a@[j] == wrap32(
                        dot8_swapped(
                            k@,
                            64 * j,
                            q@,
                            if j < r {
                                c + 1
                            } else {
                                c as int
                            },
                        ),
                    ),
            decreases 4 - r,
        {
            proof {
                lemma_wrap_step(
                    dot8_swapped(k@, 64 * r, q@, c as int),
                    k@[64 * r + c] * qc,
                );
            }
            a[r] = mac(a[r], k[64 * r + c] as i32, qc);
            r = r + 1;
        }
        c = c + 1;
    }
    a
}

/// One probability row (`n8 * 8` keys in swapped order) and four int8
/// value rows 64 apart: `acc[r] + p.v_r`. The value rows are a tile's
/// channel rows, so a full row of keys is accumulated tile by tile.
pub fn dot_pv_q1v4_i8(p: &[i16], v: &[i8], n8: usize, acc: [i32; 4]) -> (r: [i32; 4])
    requires
        1 <= n8 <= 8,
        p@.len() >= n8 * 8,
        v@.len() >= 192 + n8 * 8,
    ensures
        forall|j: int|
            0 <= j < 4 ==> #[trigger] r@[j] == wrap32(
                acc@[j] + dot8_swapped(v@, 64 * j, p@, n8 * 8),
            ),
{
    let n: usize = n8 * 8;
    [
        dot_row8(v, 0, p, n, acc[0]),
        dot_row8(v, 64, p, n, acc[1]),
        dot_row8(v, 128, p, n, acc[2]),
        dot_row8(v, 192, p, n, acc[3]),
    ]
}

// --- self-test ------------------------------------------------------------------

/// One step of the 13/17/5 xorshift generator.
pub open spec fn xorshift(x: u32) -> u32 {
    let a = x ^ (x << 13u32);
    let b = a ^ (a >> 17u32);
    b ^ (b << 5u32)
}

/// The generator's state after `n` steps from the self-test's seed.
pub open spec fn noise_state(n: int) -> u32
    decreases n,
{
    if n <= 0 {
        0x2545_f491
    } else {
        xorshift(noise_state(n - 1))
    }
}

/// Byte `i` of the self-test's data: the top byte of the state.
pub open spec fn noise(i: int) -> u8 {
    (noise_state(i + 1) >> 24u32) as u8
}

/// The int8 with this bit pattern.
pub open spec fn signed8(b: u8) -> int {
    if b >= 128 {
        b - 256
    } else {
        b as int
    }
}

/// The int8 with this bit pattern.
pub fn int8(b: u8) -> (v: i8)
    ensures
        v == signed8(b),
{
    if b >= 128 {
        (b as i16 - 256) as i8
    } else {
        b as i8
    }
}

/// `n` int8 values of the data from byte `off` on.
fn int8_row(data: &[u8], off: usize, n: usize) -> (v: Vec<i8>)
    requires
        off + n <= data@.len(),
    ensures
        v@.len() == n,
        forall|i: int| 0 <= i < n ==> #[trigger] v@[i] == signed8(data@[off + i]),
{
    let len: usize = data.len();
    let mut v: Vec<i8> = Vec::new();
    let mut i: usize = 0;
    while i < n
        invariant
            i <= n,
            v@.len() == i,
            len == data@.len(),
            off + n <= len,
            forall|j: int| 0 <= j < i ==> #[trigger] v@[j] == signed8(data@[off + j]),
        decreases n - i,
    {
        v.push(int8(data[off + i]));
        i = i + 1;
    }
    v
}

/// `n` little-endian int16 values of the data from byte `off` on.
fn int16_row(data: &[u8], off: usize, n: usize) -> (v: Vec<i16>)
    requires
        off + 2 * n <= data@.len(),
    ensures
        v@.len() == n,
        forall|i: int|
            0 <= i < n ==> #[trigger] v@[i] == data@[off + 2 * i] + 256 * signed8(
                data@[off + 2 * i + 1],
            ),
{
    let len: usize = data.len();
    let mut v: Vec<i16> = Vec::new();
    let mut i: usize = 0;
    while i < n
        invariant
            i <= n,
            v@.len() == i,
            len == data@.len(),
            off + 2 * n <= len,
            forall|j: int|
                0 <= j < i ==> #[trigger] v@[j] == data@[off + 2 * j] + 256 * signed8(
                    data@[off + 2 * j + 1],
                ),
        decreases n - i,
    {
        let lo: i32 = data[off + 2 * i] as i32;
        let hi: i32 = int8(data[off + 2 * i + 1]) as i32;
        v.push((256 * hi + lo) as i16);
        i = i + 1;
    }
    v
}

/// The byte sum of a window, and a plain loop over it.
fn sums_agree(data: &[u8], off: usize, n: usize) -> (ok: bool)
    requires
        off + n <= data@.len(),
    ensures
        ok,
{
    let len: usize = data.len();
    assert(off + n <= len);
    let b: &[u8] = vstd::slice::slice_subrange(data, off, off + n);
    let mut want: u32 = 0;
    let mut i: usize = 0;
    while i < b.len()
        invariant
            i <= b@.len(),
            want == sum_of_bytes(b@.take(i as int)),
        decreases b@.len() - i,
    {
        assert(b@.take(i + 1).drop_last() =~= b@.take(i as int));
        want = want.wrapping_add(b[i] as u32);
        i = i + 1;
    }
    assert(b@.take(i as int) =~= b@);
    byte_sum(b) == want
}

/// The wide kernels against one dot product at a time.
fn dots16_agree(data: &[u8]) -> (ok: (bool, bool, bool))
    requires
        data@.len() >= 8192,
    ensures
        ok == (true, true, true),
{
    let q = int16_row(data, 0, 128);
    let k = int16_row(data, 256, 128);
    let r = dot64_2x2(q.as_slice(), k.as_slice());
    let qk: bool = r[0] == dot_rows(q.as_slice(), 0, k.as_slice(), 0, 64) && r[1] == dot_rows(
        q.as_slice(),
        0,
        k.as_slice(),
        64,
        64,
    ) && r[2] == dot_rows(q.as_slice(), 64, k.as_slice(), 0, 64) && r[3] == dot_rows(
        q.as_slice(),
        64,
        k.as_slice(),
        64,
        64,
    );
    let p = int16_row(data, 512, ROW2 + 24);
    let v = int16_row(data, 512 + 2 * (ROW2 + 24), ROW2 + 24);
    let r = dot_pv_2x2(p.as_slice(), v.as_slice(), 3);
    let pv: bool = r[0] == dot_rows(p.as_slice(), 0, v.as_slice(), 0, 24) && r[1] == dot_rows(
        p.as_slice(),
        0,
        v.as_slice(),
        ROW2,
        24,
    ) && r[2] == dot_rows(p.as_slice(), ROW2, v.as_slice(), 0, 24) && r[3] == dot_rows(
        p.as_slice(),
        ROW2,
        v.as_slice(),
        ROW2,
        24,
    );
    let rows = int16_row(data, 4096, 768);
    let h = int16_row(data, 5632, 384);
    let r = dot384_2rows(rows.as_slice(), h.as_slice());
    let lm: bool = r[0] == dot_rows(rows.as_slice(), 0, h.as_slice(), 0, 384) && r[1] == dot_rows(
        rows.as_slice(),
        384,
        h.as_slice(),
        0,
        384,
    );
    (qk, pv, lm)
}

/// The int8 kernels against one row at a time.
fn dots8_agree(data: &[u8]) -> (ok: (bool, bool, bool))
    requires
        data@.len() >= 8192,
    ensures
        ok == (true, true, true),
{
    let rows = int8_row(data, 6144, 768);
    let h = int16_row(data, 5632, 384);
    let r = dot384_2rows_i8(rows.as_slice(), h.as_slice());
    let lm: bool = r[0] == dot_row8(rows.as_slice(), 0, h.as_slice(), 384, 0) && r[1] == dot_row8(
        rows.as_slice(),
        384,
        h.as_slice(),
        384,
        0,
    );
    let q = int16_row(data, 0, 64);
    let k = int8_row(data, 6144, 256);
    let r = dot64_q1k4_i8(q.as_slice(), k.as_slice());
    assert(r@[0] == wrap32(dot8_swapped(k@, 0, q@, 64)));
    assert(r@[1] == wrap32(dot8_swapped(k@, 64, q@, 64)));
    assert(r@[2] == wrap32(dot8_swapped(k@, 128, q@, 64)));
    assert(r@[3] == wrap32(dot8_swapped(k@, 192, q@, 64)));
    let qk: bool = r[0] == dot_row8(k.as_slice(), 0, q.as_slice(), 64, 0) && r[1] == dot_row8(
        k.as_slice(),
        64,
        q.as_slice(),
        64,
        0,
    ) && r[2] == dot_row8(k.as_slice(), 128, q.as_slice(), 64, 0) && r[3] == dot_row8(
        k.as_slice(),
        192,
        q.as_slice(),
        64,
        0,
    );
    let p = int16_row(data, 512, 24);
    let v = int8_row(data, 6144, 216);
    let r = dot_pv_q1v4_i8(p.as_slice(), v.as_slice(), 3, [1, 2, 3, 4]);
    assert(r@[0] == wrap32(1 + dot8_swapped(v@, 0, p@, 24)));
    assert(r@[1] == wrap32(2 + dot8_swapped(v@, 64, p@, 24)));
    assert(r@[2] == wrap32(3 + dot8_swapped(v@, 128, p@, 24)));
    assert(r@[3] == wrap32(4 + dot8_swapped(v@, 192, p@, 24)));
    let pv: bool = r[0] == dot_row8(v.as_slice(), 0, p.as_slice(), 24, 1) && r[1] == dot_row8(
        v.as_slice(),
        64,
        p.as_slice(),
        24,
        2,
    ) && r[2] == dot_row8(v.as_slice(), 128, p.as_slice(), 24, 3) && r[3] == dot_row8(
        v.as_slice(),
        192,
        p.as_slice(),
        24,
        4,
    );
    (lm, qk, pv)
}

/// Widening with a tail that is not a multiple of four.
fn widening_agrees(data: &[u8]) -> (ok: bool)
    requires
        data@.len() >= 8192,
    ensures
        ok,
{
    let src = int8_row(data, 6144, 259);
    let mut dst: Vec<i16> = Vec::new();
    let mut i: usize = 0;
    while i < 259
        invariant
            i <= 259,
            dst@.len() == i,
        decreases 259 - i,
    {
        dst.push(0);
        i = i + 1;
    }
    widen_i8_i16(src.as_slice(), dst.as_mut_slice());
    let mut ok: bool = true;
    let mut j: usize = 0;
    while j < 259
        invariant
            j <= 259,
            ok,
            src@.len() == 259,
            dst@.len() == 259,
            forall|i: int| 0 <= i < 259 ==> #[trigger] dst@[i] == src@[i],
        decreases 259 - j,
    {
        if dst[j] != src[j] as i16 {
            ok = false;
        }
        j = j + 1;
    }
    ok
}

/// The bytes on which the kernels are compared.
fn noise_bytes() -> (v: Vec<u8>)
    ensures
        v@ == Seq::new(8192, |i: int| noise(i)),
{
    let mut v: Vec<u8> = Vec::new();
    let mut x: u32 = 0x2545_f491;
    let mut i: usize = 0;
    while i < 8192
        invariant
            i <= 8192,
            v@.len() == i,
            x == noise_state(i as int),
            forall|j: int| 0 <= j < i ==> #[trigger] v@[j] == noise(j),
        decreases 8192 - i,
    {
        x = x ^ (x << 13u32);
        x = x ^ (x >> 17u32);
        x = x ^ (x << 5u32);
        assert(x == noise_state(i + 1));
        v.push((x >> 24u32) as u8);
        i = i + 1;
    }
    assert(v@ =~= Seq::new(8192, |i: int| noise(i)));
    v
}

/// Compares every kernel with an evaluation of its definition, on noise.
/// Returns a bit per kernel that disagrees (bit 1 the byte sum, 2 and 3 the
/// two-by-two kernels, 4 and 5 the row kernels, 6 the widening, 7 and 8 the
/// one-query kernels), so 0 when all agree; and they all do. `scratch` is
/// for kernels written in instructions of a target; the portable ones here
/// leave it as it is.
pub fn selftest(scratch: &mut [u8]) -> (bad: u32)
    requires
        old(scratch)@.len() >= 8192,
    ensures
        bad == 0,
        final(scratch)@ == old(scratch)@,
{
    let noise = noise_bytes();
    let data: &[u8] = noise.as_slice();
    let mut bad: u32 = 0;
    if !(sums_agree(data, 0, 1003) && sums_agree(data, 0, 32) && sums_agree(data, 0, 31)
        && sums_agree(data, 1, 1000) && sums_agree(data, 4, 96)) {
        bad = bad + 2;
    }
    let (qk, pv, lm) = dots16_agree(data);
    if !qk {
        bad = bad + 4;
    }
    if !pv {
        bad = bad + 8;
    }
    if !lm {
        bad = bad + 16;
    }
    let (lm8, qk8, pv8) = dots8_agree(data);
    if !lm8 {
        bad = bad + 32;
    }
    if !widening_agrees(data) {
        bad = bad + 64;
    }
    if !qk8 {
        bad = bad + 128;
    }
    if !pv8 {
        bad = bad + 256;
    }
    bad
}

/// Wrapping keeps a value up to multiples of 2^32, in the range of an `i32`.
pub proof fn law_wrapping_keeps_the_value_modulo(x: int)
    ensures
        -0x8000_0000 <= wrap32(x) < 0x8000_0000,
        (x - wrap32(x)) % 0x1_0000_0000 == 0,
        -0x8000_0000 <= x < 0x8000_0000 ==> wrap32(x) == x,
{
    reveal(wrap32);
}

/// The middle pair of every four changes places, and nothing else does.
pub proof fn law_middle_pairs_change_places(k: int)
    requires
        0 <= k,
    ensures
        swapped(4 * k) == 4 * k,
        swapped(4 * k + 1) == 4 * k + 2,
        swapped(4 * k + 2) == 4 * k + 1,
        swapped(4 * k + 3) == 4 * k + 3,
{
}

/// A byte sum is the total of the bytes up to multiples of 2^32.
pub proof fn law_byte_sums_are_totals(b: Seq<u8>)
    ensures
        0 <= sum_of_bytes(b) < 0x1_0000_0000,
        (total(b) - sum_of_bytes(b)) % 0x1_0000_0000 == 0,
        0 <= total(b) < 0x1_0000_0000 ==> sum_of_bytes(b) == total(b),
{
}

} // verus!
