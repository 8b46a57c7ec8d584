//! Little-endian words in byte buffers.

use vstd::prelude::*;

verus! {

/// The unsigned 16-bit little-endian value at offset `o`.
pub open spec fn le16(s: Seq<u8>, o: int) -> int {
    s[o] + 256 * s[o + 1]
}

/// The unsigned 32-bit little-endian value at offset `o`.
pub open spec fn le32(s: Seq<u8>, o: int) -> int {
    s[o] + 256 * s[o + 1] + 65536 * s[o + 2] + 16777216 * s[o + 3]
}

/// Byte `k` (0 = least significant) of a non-negative integer.
pub open spec fn byte_of(v: int, k: int) -> u8 {
    if k == 0 {
        (v % 256) as u8
    } else if k == 1 {
        (v / 256 % 256) as u8
    } else if k == 2 {
        (v / 65536 % 256) as u8
    } else {
        (v / 16777216 % 256) as u8
    }
}

/// `s` with the four bytes from `o` on replaced by `v`, least significant
/// first.
pub open spec fn with_le32(s: Seq<u8>, o: int, v: int) -> Seq<u8> {
    Seq::new(s.len(), |i: int| if o <= i < o + 4 { byte_of(v, i - o) } else { s[i] })
}

/// The two's-complement reading of an unsigned 32-bit value.
pub open spec fn signed32(v: int) -> int {
    if v >= 0x8000_0000 {
        v - 0x1_0000_0000
    } else {
        v
    }
}

/// The unsigned 32-bit pattern of a two's-complement value.
pub open spec fn unsigned32(v: int) -> int {
    if v < 0 {
        v + 0x1_0000_0000
    } else {
        v
    }
}

/// The bytes of a 32-bit value make it up.
pub proof fn law_bytes_make_the_value(v: u32)
    ensures
        byte_of(v as int, 0) + 256 * byte_of(v as int, 1) + 65536 * byte_of(v as int, 2) + 16777216
            * byte_of(v as int, 3) == v,
{
}

/// Splitting a 32-bit value into bytes and reading it back gives the value.
pub proof fn law_le32_round_trip(s: Seq<u8>, o: int, v: u32)
    requires
        0 <= o,
        o + 4 <= s.len(),
    ensures
        le32(with_le32(s, o, v as int), o) == v,
{
}

/// Writing the bytes of the value that is read changes nothing.
pub proof fn law_with_le32_of_le32(s: Seq<u8>, o: int)
    requires
        0 <= o,
        o + 4 <= s.len(),
    ensures
        with_le32(s, o, le32(s, o)) == s,
{
    let v = le32(s, o);
    assert(v % 256 == s[o]);
    assert(v / 256 % 256 == s[o + 1]);
    assert(v / 65536 % 256 == s[o + 2]);
    assert(v / 16777216 % 256 == s[o + 3]);
    assert(with_le32(s, o, v) =~= s);
}

/// The 16-bit value at offset `o`.
pub fn get16(b: &[u8], o: usize) -> (v: u16)
    requires
        o + 2 <= b@.len(),
    ensures
        v == le16(b@, o as int),
{
    (b[o] as u16) + 256 * (b[o + 1] as u16)
}

/// The 32-bit value at offset `o`.
pub fn get32(b: &[u8], o: usize) -> (v: u32)
    requires
        o + 4 <= b@.len(),
    ensures
        v == le32(b@, o as int),
{
    (b[o] as u32) + 256 * (b[o + 1] as u32) + 65536 * (b[o + 2] as u32) + 16777216 * (b[o + 3]
        as u32)
}

/// The signed 32-bit value at offset `o`.
pub fn get_i32(b: &[u8], o: usize) -> (v: i32)
    requires
        o + 4 <= b@.len(),
    ensures
        v == signed32(le32(b@, o as int)),
{
    to_signed(get32(b, o))
}

/// The two's-complement reading of a 32-bit pattern.
pub fn to_signed(v: u32) -> (r: i32)
    ensures
        r == signed32(v as int),
{
    if v >= 0x8000_0000 {
        (v as i64 - 0x1_0000_0000) as i32
    } else {
        v as i32
    }
}

/// The 32-bit pattern of a signed value.
pub fn to_unsigned(v: i32) -> (r: u32)
    ensures
        r == unsigned32(v as int),
{
    if v < 0 {
        (v as i64 + 0x1_0000_0000) as u32
    } else {
        v as u32
    }
}

/// Stores `v` at offset `o`.
pub fn put32(b: &mut [u8], o: usize, v: u32)
    requires
        o + 4 <= old(b)@.len(),
    ensures
        final(b)@ == with_le32(old(b)@, o as int, v as int),
{
    b[o] = (v % 256) as u8;
    b[o + 1] = (v / 256 % 256) as u8;
    b[o + 2] = (v / 65536 % 256) as u8;
    b[o + 3] = (v / 16777216 % 256) as u8;
}

} // verus!
