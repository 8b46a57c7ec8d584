//! Keys and values of the tokens decoded so far: a plane per layer and
//! kind, planar, with a column per token.

use crate::layout::{C, HD, HEADS, MAX_TOKENS, W4};
use vstd::prelude::*;
use vstd::slice::slice_subrange;

verus! {

/// Planes: keys and values of four layers.
pub const PLANES: usize = 8;

/// Bytes of a plane.
pub const PLANE: usize = 12288;

/// Bytes of a head in a plane.
pub const HEAD: usize = 2048;

/// The plane of a layer's keys, or values.
pub open spec fn plane_of(layer: int, values: bool) -> int {
    2 * layer + (if values {
        1int
    } else {
        0
    })
}

/// Channel `ch` of token `t` in a plane.
pub open spec fn at(plane: Seq<i8>, ch: int, t: int) -> i8 {
    plane[32 * ch + t]
}

pub struct KvCache {
    pub planes: Vec<Vec<i8>>,
}

impl KvCache {
    pub open spec fn wf(self) -> bool {
        &&& self.planes@.len() == PLANES
        &&& forall|p: int| 0 <= p < PLANES ==> (#[trigger] self.planes@[p])@.len() == PLANE
    }

    /// All zero.
    pub fn new() -> (k: KvCache)
        ensures
            k.wf(),
            forall|p: int, i: int|
                0 <= p < PLANES && 0 <= i < PLANE ==> #[trigger] k.planes@[p]@[i] == 0,
    {
        let mut planes: Vec<Vec<i8>> = Vec::new();
        let mut p: usize = 0;
        while p < PLANES
            invariant
                p <= PLANES,
                planes@.len() == p,
                forall|q: int| 0 <= q < p ==> (#[trigger] planes@[q])@.len() == PLANE,
                forall|q: int, i: int|
                    0 <= q < p && 0 <= i < PLANE ==> #[trigger] planes@[q]@[i] == 0,
            decreases PLANES - p,
        {
            let zero: Vec<i8> = vec![0i8; PLANE];
            planes.push(zero);
            p = p + 1;
        }
        KvCache { planes }
    }

    /// Takes token `t` of a layer in: `src` is planar with four columns, of
    /// which the first is the token's.
    pub fn append(&mut self, layer: usize, values: bool, t: usize, src: &[i8])
        requires
            old(self).wf(),
            layer < 4,
            t < MAX_TOKENS,
            src@.len() == 1536,
        ensures
            final(self).wf(),
            forall|ch: int, u: int|
                0 <= ch < 384 && 0 <= u < 32 ==> #[trigger] at(
                    final(self).planes@[plane_of(layer as int, values)]@,
                    ch,
                    u,
                ) == (if u == t {
                    src@[4 * ch]
                } else {
                    at(old(self).planes@[plane_of(layer as int, values)]@, ch, u)
                }),
            forall|p: int|
                0 <= p < PLANES && p != plane_of(layer as int, values)
                    ==> #[trigger] final(self).planes@[p]@ == old(self).planes@[p]@,
    {
        let p: usize = 2 * layer + (if values {
            1
        } else {
            0
        });
        let ghost start = self.planes@;
        let ghost was = self.planes@[p as int]@;
        let mut plane: Vec<i8> = Vec::new();
        std::mem::swap(&mut plane, &mut self.planes[p]);
        let mut ch: usize = 0;
        while ch < C
            invariant
                ch <= 384,
                t < 32,
                src@.len() == 1536,
                plane@.len() == PLANE,
                was.len() == PLANE,
                forall|c: int, u: int|
                    0 <= c < 384 && 0 <= u < 32 ==> #[trigger] at(plane@, c, u) == (if u == t && c
                        < ch {
                        src@[4 * c]
                    } else {
                        at(was, c, u)
                    }),
            decreases 384 - ch,
        {
            let ghost before = plane@;
            plane.set(ch * MAX_TOKENS + t, src[ch * W4]);
            assert forall|c: int, u: int| 0 <= c < 384 && 0 <= u < 32 implies #[trigger] at(
                plane@,
                c,
                u,
            ) == (if u == t && c < ch + 1 {
                src@[4 * c]
            } else {
                at(was, c, u)
            }) by {
                assert(at(before, c, u) == before[32 * c + u]);
            }
            ch = ch + 1;
        }
        std::mem::swap(&mut plane, &mut self.planes[p]);
    }

    /// The part of a plane that a head attends over.
    pub fn head(&self, layer: usize, values: bool, h: usize) -> (s: &[i8])
        requires
            self.wf(),
            layer < 4,
            h < HEADS,
        ensures
            s@ == self.planes@[plane_of(layer as int, values)]@.subrange(2048 * h, 2048 * (h + 1)),
            forall|ch: int, u: int|
                0 <= ch < 64 && 0 <= u < 32 ==> #[trigger] s@[32 * ch + u] == at(
                    self.planes@[plane_of(layer as int, values)]@,
                    64 * h + ch,
                    u,
                ),
    {
        let p: usize = 2 * layer + (if values {
            1
        } else {
            0
        });
        let base: usize = h * HD * MAX_TOKENS;
        slice_subrange(self.planes[p].as_slice(), base, base + HEAD)
    }
}

/// A token's residual as the kernels take it: the first of four columns,
/// the others zero.
pub fn place_column(v: &[i16]) -> (x: Vec<i16>)
    requires
        v@.len() == 384,
    ensures
        x@.len() == 1536,
        forall|i: int|
            0 <= i < 1536 ==> #[trigger] x@[i] == (if i % 4 == 0 {
                v@[i / 4]
            } else {
                0
            }),
{
    let mut x: Vec<i16> = Vec::new();
    let mut i: usize = 0;
    while i < C * W4
        invariant
            i <= 1536,
            v@.len() == 384,
            x@.len() == i,
            forall|k: int|
                0 <= k < i ==> #[trigger] x@[k] == (if k % 4 == 0 {
                    v@[k / 4]
                } else {
                    0
                }),
        decreases 1536 - i,
    {
        if i % W4 == 0 {
            x.push(v[i / W4]);
        } else {
            x.push(0);
        }
        i = i + 1;
    }
    x
}

/// Keys and values of every layer have planes of their own.
pub proof fn law_planes_are_apart(l: int, v: bool, m: int, w: bool)
    requires
        0 <= l < 4,
        0 <= m < 4,
    ensures
        plane_of(l, v) == plane_of(m, w) <==> l == m && v == w,
        0 <= plane_of(l, v) < 8,
{
}

/// Every channel of every token has a place of its own in a plane, and the
/// channels of a head are a plane of their own inside it.
pub proof fn law_every_value_has_its_place(f: spec_fn(int, int) -> i8, h: int)
    requires
        0 <= h < 6,
    ensures
        exists|plane: Seq<i8>| #[trigger]
            plane.len() == 12288 && (forall|ch: int, t: int|
                0 <= ch < 384 && 0 <= t < 32 ==> #[trigger] at(plane, ch, t) == f(ch, t)),
        forall|plane: Seq<i8>, ch: int, t: int|
            plane.len() == 12288 && 0 <= ch < 64 && 0 <= t < 32 ==> #[trigger] at(
                plane.subrange(2048 * h, 2048 * h + 2048),
                ch,
                t,
            ) == at(plane, 64 * h + ch, t),
{
    let plane = Seq::new(12288, |i: int| f(i / 32, i % 32));
    assert forall|ch: int, t: int| 0 <= ch < 384 && 0 <= t < 32 implies #[trigger] at(
        plane,
        ch,
        t,
    ) == f(ch, t) by {
        assert((32 * ch + t) / 32 == ch && (32 * ch + t) % 32 == t);
    }
    assert(plane.len() == 12288);
}

} // verus!
