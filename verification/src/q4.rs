//! Four-bit weights.
//!
//! Groups of 64 consecutive int8 weights share one u8 magnitude; a weight
//! is a nibble, stored biased by 8. It is reconstructed in integers,
//! rounding half away from zero:
//! `sign(nib) * min(127, (|nib| * amax * 2 + 7) / 14)`.

use crate::bytes::{get32, le32};
use vstd::prelude::*;
use vstd::slice::slice_subrange;

verus! {

/// Weights per group.
pub const G: usize = 64;

/// "LAY4", the first word of a packed entry.
pub const MAGIC: u32 = 0x3459_414C;

/// Bytes of the header of a packed entry: five words.
pub const HDR: usize = 20;

/// Blocks per LM-head embedding chunk: 64 scales, 64 ids, 384 magnitudes
/// and 12288 nibble bytes, padded to whole blocks.
pub const EMB_CHUNK_BLOCKS: usize = 26;

/// The weight that the biased nibble `k` stands for in a group of
/// magnitude `amax`.
pub open spec fn weight(amax: int, k: int) -> int {
    let n = if k < 8 {
        8 - k
    } else {
        k - 8
    };
    let m = (n * amax * 2 + 7) / 14;
    let v = if m > 127 {
        127
    } else {
        m
    };
    if k < 8 {
        -v
    } else {
        v
    }
}

/// Nibble `i` of a stream, the low half of each byte first.
pub open spec fn nibble(nibs: Seq<u8>, i: int) -> int {
    if i % 2 == 0 {
        (nibs[i / 2] % 16) as int
    } else {
        (nibs[i / 2] / 16) as int
    }
}

/// Weight `i` of a packed stream.
pub open spec fn unpacked(amax: Seq<u8>, nibs: Seq<u8>, i: int) -> int {
    weight(amax[i / 64] as int, nibble(nibs, i))
}

/// The two's-complement pattern of a 16-bit value.
pub open spec fn pattern16(v: int) -> int {
    if v < 0 {
        v + 65536
    } else {
        v
    }
}

/// The two's-complement pattern of an 8-bit value.
pub open spec fn pattern8(v: int) -> int {
    if v < 0 {
        v + 256
    } else {
        v
    }
}

proof fn lemma_weight_range(amax: u8, k: int)
    requires
        0 <= k < 16,
    ensures
        -127 <= weight(amax as int, k) <= 127,
        k <= 8 ==> weight(amax as int, k) <= 0,
        k >= 8 ==> weight(amax as int, k) >= 0,
{
    let n = if k < 8 {
        8 - k
    } else {
        k - 8
    };
    assert(0 <= n * amax * 2) by (nonlinear_arith)
        requires
            0 <= n,
            0 <= amax,
    ;
    assert(0 * amax * 2 == 0) by (nonlinear_arith);
}

/// Every weight is an int8 that is not -128, and a nibble and its mirror
/// image about 8 stand for opposite weights.
pub proof fn law_weights_are_symmetric(amax: u8, k: int)
    requires
        1 <= k < 16,
    ensures
        -127 <= weight(amax as int, k) <= 127,
        weight(amax as int, 16 - k) == -weight(amax as int, k),
        weight(amax as int, 8) == 0,
{
    lemma_weight_range(amax, k);
    lemma_weight_range(amax, 16 - k);
}

/// Nibble 15 stands for the magnitude itself, up to the int8 limit: the
/// largest weight of a group survives packing.
pub proof fn law_largest_weight_is_kept(amax: u8)
    ensures
        amax <= 127 ==> weight(amax as int, 15) == amax && weight(amax as int, 1) == -amax,
        amax > 127 ==> weight(amax as int, 15) == 127,
{
}

/// A weight is the group's magnitude scaled by the nibble's distance from 8,
/// in sevenths, to the nearest integer, and no further from zero than 127: a
/// weight at the limit stands for a value that rounds to it or beyond.
pub proof fn law_weights_round_to_nearest(amax: u8, k: int)
    requires
        0 <= k < 16,
    ensures
        -127 <= weight(amax as int, k) <= 127,
        -127 < weight(amax as int, k) < 127 ==> -7 < 2 * (7 * weight(amax as int, k) - (k - 8)
            * amax) < 7,
        weight(amax as int, k) == 127 ==> 2 * ((k - 8) * amax) > 14 * 127 - 7,
        weight(amax as int, k) == -127 ==> 2 * ((k - 8) * amax) < -(14 * 127 - 7),
{
    let n = if k < 8 {
        8 - k
    } else {
        k - 8
    };
    lemma_weight_range(amax, k);
    assert((k - 8) * amax == (if k < 8 {
        -(n * amax)
    } else {
        n * amax
    })) by (nonlinear_arith)
        requires
            n == (if k < 8 {
                8 - k
            } else {
                k - 8
            }),
    ;
    let x = n * amax;
    assert(n * amax * 2 == 2 * x);
    let m = (2 * x + 7) / 14;
    assert(14 * m <= 2 * x + 7 < 14 * m + 14);
}

/// Weights grow with their nibbles, strictly so in a group whose steps are a
/// whole unit apart, up to the limit.
pub proof fn law_weights_grow_with_the_nibble(amax: u8, j: int, k: int)
    requires
        0 <= j < k < 16,
    ensures
        weight(amax as int, j) <= weight(amax as int, k),
        amax >= 7 && weight(amax as int, k) > -127 && weight(amax as int, j) < 127 ==> weight(
            amax as int,
            j,
        ) < weight(amax as int, k),
{
    law_weights_round_to_nearest(amax, j);
    law_weights_round_to_nearest(amax, k);
    assert((k - 8) * amax >= (j - 8) * amax + amax) by (nonlinear_arith)
        requires
            0 <= j < k,
            0 <= amax,
    ;
}

/// A byte holds two nibbles, the first in its low half.
pub proof fn law_a_byte_holds_two_nibbles(nibs: Seq<u8>, i: int, low: u8, high: u8)
    requires
        0 <= i < nibs.len(),
        low < 16,
        high < 16,
        nibs[i] == low + 16 * high,
    ensures
        nibble(nibs, 2 * i) == low,
        nibble(nibs, 2 * i + 1) == high,
{
}

/// Groups of 64 weights are expanded each by itself: what two streams hold
/// one after the other expands to what each of them does.
pub proof fn law_groups_expand_by_themselves(
    a: Seq<u8>,
    b: Seq<u8>,
    m: Seq<u8>,
    n: Seq<u8>,
    i: int,
)
    requires
        m.len() == 32 * a.len(),
        n.len() == 32 * b.len(),
        0 <= i < 64 * (a.len() + b.len()),
    ensures
        i < 64 * a.len() ==> unpacked(a + b, m + n, i) == unpacked(a, m, i),
        i >= 64 * a.len() ==> unpacked(a + b, m + n, i) == unpacked(b, n, i - 64 * a.len()),
{
    let o = 64 * a.len();
    if i >= o {
        assert((i - o) / 64 == i / 64 - a.len());
        assert((i - o) / 2 == i / 2 - m.len());
        assert((i - o) % 2 == i % 2);
        assert((a + b)[i / 64] == b[i / 64 - a.len()]);
        assert((m + n)[i / 2] == n[i / 2 - m.len()]);
    } else {
        assert((a + b)[i / 64] == a[i / 64]);
        assert((m + n)[i / 2] == m[i / 2]);
    }
}

/// A group's weights are its own: its one magnitude scales every nibble.
pub proof fn law_a_group_has_one_magnitude(amax: u8, nibs: Seq<u8>, i: int)
    requires
        nibs.len() == 32,
        0 <= i < 64,
    ensures
        unpacked(seq![amax], nibs, i) == weight(amax as int, nibble(nibs, i)),
{
}

/// A bit pattern stands for its value up to whole turns of the width.
pub proof fn law_patterns_stand_for_their_values(v: int)
    ensures
        -128 <= v < 128 ==> 0 <= pattern8(v) < 256 && (pattern8(v) - v) % 256 == 0,
        -32768 <= v < 32768 ==> 0 <= pattern16(v) < 65536 && (pattern16(v) - v) % 65536 == 0,
{
}

/// One table entry, computed without overflow.
fn reconstruct(amax: u8, k: usize) -> (w: i8)
    requires
        k < 16,
    ensures
        w == weight(amax as int, k as int),
{
    let n: i32 = if k < 8 {
        8 - k as i32
    } else {
        k as i32 - 8
    };
    proof {
        lemma_weight_range(amax, k as int);
        assert(0 <= n * amax <= 2040) by (nonlinear_arith)
            requires
                0 <= n <= 8,
                0 <= amax <= 255,
        ;
    }
    let m: i32 = (n * (amax as i32) * 2 + 7) / 14;
    let v: i32 = if m > 127 {
        127
    } else {
        m
    };
    if k < 8 {
        (-v) as i8
    } else {
        v as i8
    }
}

/// Reconstruction table for one group: `lut[raw nibble 0..16]`.
/// Index 0 (nibble -8) is never emitted by the packer; it decodes like any
/// other, clamped to -127.
pub fn lut(amax: u8) -> (t: [i8; 16])
    ensures
        forall|k: int| 0 <= k < 16 ==> #[trigger] t@[k] == weight(amax as int, k),
{
    let mut t: [i8; 16] = [0; 16];
    let mut k: usize = 0;
    while k < 16
        invariant
            k <= 16,
            forall|j: int| 0 <= j < k ==> #[trigger] t@[j] == weight(amax as int, j),
        decreases 16 - k,
    {
        t[k] = reconstruct(amax, k);
        k = k + 1;
    }
    t
}

/// Expands `dst.len()` weights from a nibble stream and the magnitudes of
/// its groups.
pub fn unpack(amax: &[u8], nibs: &[u8], dst: &mut [i8])
    requires
        old(dst)@.len() % 128 == 0,
        amax@.len() >= old(dst)@.len() / 64,
        nibs@.len() >= old(dst)@.len() / 2,
    ensures
        final(dst)@.len() == old(dst)@.len(),
        forall|i: int|
            0 <= i < final(dst)@.len() ==> #[trigger] final(dst)@[i] == unpacked(amax@, nibs@, i),
{
    let n: usize = dst.len();
    let mut g: usize = 0;
    while g < n / G
        invariant
            dst@.len() == n,
            n % 128 == 0,
            g <= n / 64,
            amax@.len() >= n / 64,
            nibs@.len() >= n / 2,
            forall|i: int| 0 <= i < 64 * g ==> #[trigger] dst@[i] == unpacked(amax@, nibs@, i),
        decreases n / 64 - g,
    {
        let t = lut(amax[g]);
        let mut j: usize = 0;
        while j < 32
            invariant
                dst@.len() == n,
                n % 128 == 0,
                g < n / 64,
                j <= 32,
                amax@.len() >= n / 64,
                nibs@.len() >= n / 2,
                forall|k: int|
                    0 <= k < 16 ==> #[trigger] t@[k] == weight(amax@[g as int] as int, k),
                forall|i: int|
                    0 <= i < 64 * g + 2 * j ==> #[trigger] dst@[i] == unpacked(amax@, nibs@, i),
            decreases 32 - j,
        {
            let at: usize = 64 * g + 2 * j;
            let b: u8 = nibs[32 * g + j];
            dst[at] = t[(b % 16) as usize];
            dst[at + 1] = t[(b / 16) as usize];
            assert(at / 2 == 32 * g + j && (at + 1) / 2 == 32 * g + j);
            assert(at / 64 == g && (at + 1) / 64 == g);
            assert(nibble(nibs@, at as int) == b % 16);
            assert(nibble(nibs@, at + 1) == b / 16);
            j = j + 1;
        }
        g = g + 1;
    }
}

/// Expands `n` weights inside one buffer, each as its two's-complement
/// byte: the nibbles start at offset `nibs`, the weights go to offset
/// `dst`. The two may overlap as long as the nibble stream starts at least
/// `n / 2` bytes past `dst`: the writer advances two bytes for every byte
/// read and never catches the reader, so what comes out is what the stream
/// held before the first write.
pub fn unpack_raw(amax: &[u8], buf: &mut [u8], nibs: usize, dst: usize, n: usize)
    requires
        n % 128 == 0,
        amax@.len() >= n / 64,
        nibs + n / 2 <= old(buf)@.len(),
        dst + n <= old(buf)@.len(),
        dst + n / 2 <= nibs || nibs + n / 2 <= dst,
    ensures
        final(buf)@.len() == old(buf)@.len(),
        forall|i: int|
            0 <= i < n ==> #[trigger] final(buf)@[dst + i] == pattern8(
                unpacked(amax@, old(buf)@.subrange(nibs as int, nibs + n / 2), i),
            ),
        forall|i: int|
            0 <= i < final(buf)@.len() && !(dst <= i < dst + n) ==> #[trigger] final(buf)@[i]
                == old(buf)@[i],
{
    let total: usize = buf.len();
    let ghost start = buf@;
    let ghost stream = buf@.subrange(nibs as int, nibs + n / 2);
    let mut g: usize = 0;
    while g < n / G
        invariant
            buf@.len() == total,
            start.len() == total,
            n % 128 == 0,
            g <= n / 64,
            amax@.len() >= n / 64,
            nibs + n / 2 <= start.len(),
            dst + n <= start.len(),
            dst + n / 2 <= nibs || nibs + n / 2 <= dst,
            stream == start.subrange(nibs as int, nibs + n / 2),
            forall|i: int|
                0 <= i < 64 * g ==> #[trigger] buf@[dst + i] == pattern8(
                    unpacked(amax@, stream, i),
                ),
            forall|i: int|
                0 <= i < buf@.len() && !(dst <= i < dst + 64 * g) ==> #[trigger] buf@[i]
                    == start[i],
        decreases n / 64 - g,
    {
        let t = lut(amax[g]);
        let mut j: usize = 0;
        while j < 32
            invariant
                buf@.len() == total,
            start.len() == total,
                n % 128 == 0,
                g < n / 64,
                j <= 32,
                amax@.len() >= n / 64,
                nibs + n / 2 <= start.len(),
                dst + n <= start.len(),
                dst + n / 2 <= nibs || nibs + n / 2 <= dst,
                stream == start.subrange(nibs as int, nibs + n / 2),
                forall|k: int|
                    0 <= k < 16 ==> #[trigger] t@[k] == weight(amax@[g as int] as int, k),
                forall|i: int|
                    0 <= i < 64 * g + 2 * j ==> #[trigger] buf@[dst + i] == pattern8(
                        unpacked(amax@, stream, i),
                    ),
                forall|i: int|
                    0 <= i < buf@.len() && !(dst <= i < dst + 64 * g + 2 * j)
                        ==> #[trigger] buf@[i] == start[i],
            decreases 32 - j,
        {
            let at: usize = 64 * g + 2 * j;
            let b: u8 = buf[nibs + 32 * g + j];
            assert(b == stream[32 * g + j]);
            proof {
                lemma_weight_range(amax@[g as int], (b % 16) as int);
                lemma_weight_range(amax@[g as int], (b / 16) as int);
            }
            buf[dst + at] = as_byte(t[(b % 16) as usize]);
            buf[dst + at + 1] = as_byte(t[(b / 16) as usize]);
            assert(at / 2 == 32 * g + j && (at + 1) / 2 == 32 * g + j);
            assert(at / 64 == g && (at + 1) / 64 == g);
            assert(nibble(stream, at as int) == b % 16);
            assert(nibble(stream, at + 1) == b / 16);
            j = j + 1;
        }
        g = g + 1;
    }
}

/// The two's-complement byte of an int8.
fn as_byte(v: i8) -> (b: u8)
    ensures
        b == pattern8(v as int),
{
    if v < 0 {
        (v as i16 + 256) as u8
    } else {
        v as u8
    }
}

/// `lut` widened to int16.
pub fn lut16(amax: u8) -> (t: [i16; 16])
    ensures
        forall|k: int| 0 <= k < 16 ==> #[trigger] t@[k] == weight(amax as int, k),
{
    let s = lut(amax);
    let mut t: [i16; 16] = [0; 16];
    let mut k: usize = 0;
    while k < 16
        invariant
            k <= 16,
            forall|j: int| 0 <= j < 16 ==> #[trigger] s@[j] == weight(amax as int, j),
            forall|j: int| 0 <= j < k ==> #[trigger] t@[j] == weight(amax as int, j),
        decreases 16 - k,
    {
        t[k] = s[k] as i16;
        k = k + 1;
    }
    t
}

/// Entries of the tables for every magnitude.
pub const TABLES16: usize = 4096;

/// `t` holds, for every magnitude, the int16 patterns of its 16 weights.
pub open spec fn is_tables16(t: Seq<u32>) -> bool {
    &&& t.len() == TABLES16
    &&& forall|a: int, k: int|
        0 <= a < 256 && 0 <= k < 16 ==> #[trigger] t[16 * a + k] == pattern16(weight(a, k))
}

/// Reconstruction tables for every possible magnitude, as the bit patterns
/// of the int16 weights: built once per decode and indexed by magnitude.
pub fn tables16(out: &mut [u32; TABLES16])
    ensures
        is_tables16(final(out)@),
{
    let mut a: usize = 0;
    while a < 256
        invariant
            a <= 256,
            forall|b: int, k: int|
                0 <= b < a && 0 <= k < 16 ==> #[trigger] out@[16 * b + k] == pattern16(
                    weight(b, k),
                ),
        decreases 256 - a,
    {
        let t = lut(a as u8);
        let mut k: usize = 0;
        while k < 16
            invariant
                a < 256,
                k <= 16,
                forall|j: int| 0 <= j < 16 ==> #[trigger] t@[j] == weight(a as int, j),
                forall|b: int, j: int|
                    0 <= b < a && 0 <= j < 16 ==> #[trigger] out@[16 * b + j] == pattern16(
                        weight(b, j),
                    ),
                forall|j: int|
                    0 <= j < k ==> #[trigger] out@[16 * a + j] == pattern16(weight(a as int, j)),
            decreases 16 - k,
        {
            let w: i8 = t[k];
            let p: u32 = if w < 0 {
                (w as i32 + 65536) as u32
            } else {
                w as u32
            };
            out[16 * a + k] = p;
            k = k + 1;
        }
        a = a + 1;
    }
}

/// Expands `dst.len()` weights into int16 through tables of 16-bit
/// patterns, 16 per magnitude.
pub fn unpack16(tables: &[u32; TABLES16], amax: &[u8], nibs: &[u8], dst: &mut [i16])
    requires
        forall|i: int| 0 <= i < TABLES16 ==> #[trigger] tables@[i] < 65536,
        old(dst)@.len() % 64 == 0,
        amax@.len() >= old(dst)@.len() / 64,
        nibs@.len() >= old(dst)@.len() / 2,
    ensures
        final(dst)@.len() == old(dst)@.len(),
        forall|i: int|
            0 <= i < final(dst)@.len() ==> pattern16((#[trigger] final(dst)@[i]) as int)
                == tables@[16 * amax@[i / 64] + nibble(nibs@, i)],
{
    let n: usize = dst.len();
    let mut g: usize = 0;
    while g < n / G
        invariant
            forall|i: int| 0 <= i < TABLES16 ==> #[trigger] tables@[i] < 65536,
            dst@.len() == n,
            n % 64 == 0,
            g <= n / 64,
            amax@.len() >= n / 64,
            nibs@.len() >= n / 2,
            forall|i: int|
                0 <= i < 64 * g ==> pattern16((#[trigger] dst@[i]) as int) == tables@[16 * amax@[i
                    / 64] + nibble(nibs@, i)],
        decreases n / 64 - g,
    {
        let row: usize = 16 * (amax[g] as usize);
        let mut j: usize = 0;
        while j < 32
            invariant
                forall|i: int| 0 <= i < TABLES16 ==> #[trigger] tables@[i] < 65536,
                dst@.len() == n,
                n % 64 == 0,
                g < n / 64,
                j <= 32,
                row == 16 * amax@[g as int],
                amax@.len() >= n / 64,
                nibs@.len() >= n / 2,
                forall|i: int|
                    0 <= i < 64 * g + 2 * j ==> pattern16((#[trigger] dst@[i]) as int)
                        == tables@[16 * amax@[i / 64] + nibble(nibs@, i)],
            decreases 32 - j,
        {
            let at: usize = 64 * g + 2 * j;
            let b: u8 = nibs[32 * g + j];
            dst[at] = from_pattern(tables[row + (b % 16) as usize]);
            dst[at + 1] = from_pattern(tables[row + (b / 16) as usize]);
            assert(at / 2 == 32 * g + j && (at + 1) / 2 == 32 * g + j);
            assert(at / 64 == g && (at + 1) / 64 == g);
            assert(nibble(nibs@, at as int) == b % 16);
            assert(nibble(nibs@, at + 1) == b / 16);
            j = j + 1;
        }
        g = g + 1;
    }
}

/// The int16 with this bit pattern.
fn from_pattern(p: u32) -> (v: i16)
    requires
        p < 65536,
    ensures
        pattern16(v as int) == p,
{
    if p >= 32768 {
        (p as i32 - 65536) as i16
    } else {
        p as i16
    }
}

/// The int16 path of the LM head reconstructs what the int8 path does: a
/// value whose pattern stands in the tables under a group's magnitude and
/// a nibble is the weight of that nibble.
pub proof fn law_unpack16_is_unpack(tables: Seq<u32>, amax: Seq<u8>, nibs: Seq<u8>, i: int, v: i16)
    requires
        is_tables16(tables),
        0 <= i,
        i / 64 < amax.len(),
        i / 2 < nibs.len(),
        pattern16(v as int) == tables[16 * amax[i / 64] + nibble(nibs, i)],
    ensures
        v == unpacked(amax, nibs, i),
{
    let k = nibble(nibs, i);
    assert(0 <= k < 16);
    lemma_weight_range(amax[i / 64], k);
    assert(tables[16 * amax[i / 64] + k] == pattern16(weight(amax[i / 64] as int, k)));
}

/// Tables built by `tables16` hold 16-bit patterns, as `unpack16` asks.
pub proof fn law_tables_hold_patterns(tables: Seq<u32>)
    requires
        is_tables16(tables),
    ensures
        forall|i: int| 0 <= i < TABLES16 ==> #[trigger] tables[i] < 65536,
{
    assert forall|i: int| 0 <= i < TABLES16 implies #[trigger] tables[i] < 65536 by {
        let a = i / 16;
        let k = i % 16;
        assert(tables[16 * a + k] == pattern16(weight(a, k)));
        lemma_weight_range(a as u8, k);
    }
}

// --- test vectors -----------------------------------------------------------------------

/// What is wrong with a file of packed weights and their expansions.
#[derive(Clone, Copy, PartialEq, Eq, Structural, Debug)]
pub enum VectorError {
    /// The file ends inside of a vector.
    CutOff,
    /// This vector's weights are no whole pairs of groups.
    NotGroups(usize),
    /// This vector expands to something else.
    Differs(usize),
    /// Bytes follow the last vector.
    Trailing,
}

/// Where the vector at `at` ends: a count, then magnitudes, nibbles and the
/// weights that they stand for.
pub open spec fn vector_end(v: Seq<u8>, at: int) -> int {
    let n = le32(v, at);
    at + 4 + n / 64 + n / 2 + n
}

/// The vector at `at` expands to its weights.
pub open spec fn vector_matches(v: Seq<u8>, at: int) -> bool {
    let n = le32(v, at);
    let amax = v.subrange(at + 4, at + 4 + n / 64);
    let nibs = v.subrange(at + 4 + n / 64, at + 4 + n / 64 + n / 2);
    forall|i: int|
        0 <= i < n ==> #[trigger] v[at + 4 + n / 64 + n / 2 + i] == pattern8(
            unpacked(amax, nibs, i),
        )
}

/// What is wrong with the vectors from number `i` on, which starts at `at`.
pub open spec fn vectors_from(v: Seq<u8>, at: int, i: int, count: int) -> Result<(), VectorError>
    decreases count - i,
{
    if i >= count {
        if at == v.len() {
            Ok(())
        } else {
            Err(VectorError::Trailing)
        }
    } else if at + 4 > v.len() {
        Err(VectorError::CutOff)
    } else if le32(v, at) % 128 != 0 {
        Err(VectorError::NotGroups(i as usize))
    } else if vector_end(v, at) > v.len() {
        Err(VectorError::CutOff)
    } else if !vector_matches(v, at) {
        Err(VectorError::Differs(i as usize))
    } else {
        vectors_from(v, vector_end(v, at), i + 1, count)
    }
}

/// Whether the vector at `at` expands to its weights.
fn matches_at(v: &[u8], at: usize, n: usize) -> (b: bool)
    requires
        at + 4 <= v@.len(),
        n == le32(v@, at as int),
        n % 128 == 0,
        vector_end(v@, at as int) <= v@.len(),
    ensures
        b == vector_matches(v@, at as int),
{
    let total: usize = v.len();
    let a: usize = at + 4;
    let b: usize = a + n / 64;
    let c: usize = b + n / 2;
    let amax = slice_subrange(v, a, b);
    let nibs = slice_subrange(v, b, c);
    let mut dst: Vec<i8> = vec![0i8; n];
    unpack(amax, nibs, dst.as_mut_slice());
    let mut i: usize = 0;
    while i < n
        invariant
            i <= n,
            n == le32(v@, at as int),
            a == at + 4,
            b == a + n / 64,
            c == b + n / 2,
            c + n <= v@.len() == total,
            amax@ == v@.subrange(a as int, b as int),
            nibs@ == v@.subrange(b as int, c as int),
            dst@.len() == n,
            forall|k: int| 0 <= k < n ==> #[trigger] dst@[k] == unpacked(amax@, nibs@, k),
            forall|k: int|
                0 <= k < i ==> #[trigger] v@[c + k] == pattern8(unpacked(amax@, nibs@, k)),
        decreases n - i,
    {
        if v[c + i] != as_byte(dst[i]) {
            assert(v@[c + i] != pattern8(unpacked(amax@, nibs@, i as int)));
            return false;
        }
        i = i + 1;
    }
    true
}

/// Replays a file of packed weights: its count of vectors, if every one of
/// them expands to its weights and nothing else is in the file.
pub fn check_vectors(v: &[u8]) -> (r: Result<u32, VectorError>)
    ensures
        r == (if v@.len() < 4 {
            Err::<u32, VectorError>(VectorError::CutOff)
        } else {
            match vectors_from(v@, 4, 0, le32(v@, 0)) {
                Ok(_) => Ok(le32(v@, 0) as u32),
                Err(e) => Err(e),
            }
        }),
{
    let total: usize = v.len();
    if total < 4 {
        return Err(VectorError::CutOff);
    }
    let count: u32 = get32(v, 0);
    let mut at: usize = 4;
    let mut i: u32 = 0;
    while i < count
        invariant
            i <= count,
            count == le32(v@, 0),
            total == v@.len(),
            at <= total,
            vectors_from(v@, 4, 0, count as int) == vectors_from(
                v@,
                at as int,
                i as int,
                count as int,
            ),
        decreases count - i,
    {
        if total - at < 4 {
            return Err(VectorError::CutOff);
        }
        let n: u32 = get32(v, at);
        if n % 128 != 0 {
            return Err(VectorError::NotGroups(i as usize));
        }
        let bytes: u64 = 4 + n as u64 / 64 + n as u64 / 2 + n as u64;
        if bytes > (total - at) as u64 {
            return Err(VectorError::CutOff);
        }
        if !matches_at(v, at, n as usize) {
            return Err(VectorError::Differs(i as usize));
        }
        at = at + bytes as usize;
        i = i + 1;
    }
    if at == total {
        Ok(count)
    } else {
        Err(VectorError::Trailing)
    }
}

/// A file of vectors is walked vector by vector: a length, a magnitude for
/// every 64 weights, half a byte for every weight, and the weights; one that
/// was expanded as it should be is passed, any other is named.
pub proof fn law_vectors_follow_one_another(v: Seq<u8>, at: int, i: int, count: int)
    requires
        0 <= i < count,
        0 <= at,
        at + 4 <= v.len(),
        le32(v, at) % 128 == 0,
        at + 4 + le32(v, at) / 64 + le32(v, at) / 2 + le32(v, at) <= v.len(),
    ensures
        ({
            let n = le32(v, at);
            let end = at + 4 + n / 64 + n / 2 + n;
            let good = forall|k: int|
                0 <= k < n ==> #[trigger] v[at + 4 + n / 64 + n / 2 + k] == pattern8(
                    unpacked(
                        v.subrange(at + 4, at + 4 + n / 64),
                        v.subrange(at + 4 + n / 64, at + 4 + n / 64 + n / 2),
                        k,
                    ),
                );
            &&& good ==> vectors_from(v, at, i, count) == vectors_from(v, end, i + 1, count)
            &&& !good ==> vectors_from(v, at, i, count) == Err::<(), VectorError>(
                VectorError::Differs(i as usize),
            )
        }),
{
}

/// Only a file that ends with its last vector passes.
pub proof fn law_nothing_follows_the_last_vector(v: Seq<u8>, at: int, count: int)
    ensures
        vectors_from(v, at, count, count) is Ok <==> at == v.len(),
{
}

} // verus!
