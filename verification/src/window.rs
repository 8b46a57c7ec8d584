//! Column windows over tiled tensors: what a convolution reads, with the
//! columns beyond either end padded.

use crate::layout::T;
use vstd::prelude::*;

verus! {

/// A cell of planar rows of `t_in` columns.
pub open spec fn win(d: Seq<i8>, t_in: int, r: int, c: int) -> i8 {
    d[r * t_in + c]
}

/// Tile `tile` has column `col`.
pub open spec fn in_tile(tile: int, col: int) -> bool {
    64 * tile <= col < 64 * tile + 64
}

/// `after` is the window `before` with the columns that tile `src` has.
pub open spec fn copied(
    before: Seq<i8>,
    after: Seq<i8>,
    src: Seq<i8>,
    rows: int,
    t_in: int,
    col0: int,
    tile: int,
) -> bool {
    forall|r: int, c: int|
        0 <= r < rows && 0 <= c < t_in ==> #[trigger] win(after, t_in, r, c) == (if in_tile(
            tile,
            col0 + c,
        ) {
            src[64 * r + (col0 + c - 64 * tile)]
        } else {
            win(before, t_in, r, c)
        })
}

proof fn lemma_cell(r: int, c: int, rows: int, t_in: int)
    by (nonlinear_arith)
    requires
        0 <= r < rows,
        0 <= c < t_in,
    ensures
        0 <= r * t_in + c < rows * t_in,
{
}

proof fn lemma_cells_apart(r: int, c: int, q: int, d: int, t_in: int)
    by (nonlinear_arith)
    requires
        0 <= c < t_in,
        0 <= d < t_in,
        r * t_in + c == q * t_in + d,
    ensures
        r == q && c == d,
{
}

/// Copies the columns that tile `tile` shares with the window of `t_in`
/// columns from `col0` on.
pub fn halo_copy(
    src: &[i8],
    dst: &mut [i8],
    rows: usize,
    t_in: usize,
    col0: i32,
    tile: u32,
)
    requires
        src@.len() == 64 * rows,
        old(dst)@.len() == rows * t_in,
        0 < t_in,
        64 * tile + 64 <= i32::MAX,
        col0 + t_in <= i32::MAX,
        t_in <= i32::MAX,
    ensures
        final(dst)@.len() == old(dst)@.len(),
        copied(old(dst)@, final(dst)@, src@, rows as int, t_in as int, col0 as int, tile as int),
{
    let ghost start = dst@;
    let total: usize = dst.len();
    let from_total: usize = src.len();
    let t0: i32 = 64 * (tile as i32);
    let lo: i32 = if col0 > t0 {
        col0
    } else {
        t0
    };
    let end: i32 = col0 + t_in as i32;
    let hi: i32 = if end < t0 + T as i32 {
        end
    } else {
        t0 + T as i32
    };
    let mut r: usize = 0;
    while r < rows
        invariant
            r <= rows,
            src@.len() == from_total,
            0 < t_in <= i32::MAX,
            src@.len() == 64 * rows,
            dst@.len() == total,
            start.len() == total,
            total == rows * t_in,
            col0 + t_in <= i32::MAX,
            64 * tile + 64 <= i32::MAX,
            t0 == 64 * tile,
            lo == (if col0 > t0 {
                col0
            } else {
                t0
            }),
            hi == (if col0 + t_in < t0 + 64 {
                col0 + t_in
            } else {
                t0 + 64
            }),
            forall|q: int, c: int|
                0 <= q < rows && 0 <= c < t_in ==> #[trigger] win(dst@, t_in as int, q, c) == (
                if q < r && in_tile(tile as int, col0 + c) {
                    src@[64 * q + (col0 + c - 64 * tile)]
                } else {
                    win(start, t_in as int, q, c)
                }),
        decreases rows - r,
    {
        let mut col: i32 = lo;
        while col < hi
            invariant
                r < rows,
                src@.len() == from_total,
                0 < t_in <= i32::MAX,
                src@.len() == 64 * rows,
                dst@.len() == total,
                start.len() == total,
                total == rows * t_in,
                col0 + t_in <= i32::MAX,
                64 * tile + 64 <= i32::MAX,
                t0 == 64 * tile,
                lo == (if col0 > t0 {
                    col0
                } else {
                    t0
                }),
                hi == (if col0 + t_in < t0 + 64 {
                    col0 + t_in
                } else {
                    t0 + 64
                }),
                lo <= col,
                forall|q: int, c: int|
                    0 <= q < rows && 0 <= c < t_in ==> #[trigger] win(dst@, t_in as int, q, c) == (
                    if (q < r || (q == r && col0 + c < col)) && in_tile(
                        tile as int,
                        col0 + c,
                    ) {
                        src@[64 * q + (col0 + c - 64 * tile)]
                    } else {
                        win(start, t_in as int, q, c)
                    }),
            decreases hi - col,
        {
            let ghost before = dst@;
            let cc: usize = (col - col0) as usize;
            proof {
                lemma_cell(r as int, cc as int, rows as int, t_in as int);
                assert(r * t_in >= 0) by (nonlinear_arith)
                    requires
                        r >= 0,
                        t_in >= 0,
                ;
            }
            let at: usize = r * t_in + cc;
            let from: usize = 64 * r + (col - t0) as usize;
            dst[at] = src[from];
            assert forall|q: int, c: int|
                0 <= q < rows && 0 <= c < t_in implies #[trigger] win(dst@, t_in as int, q, c) == (
            if (q < r || (q == r && col0 + c < col + 1)) && in_tile(tile as int, col0 + c) {
                src@[64 * q + (col0 + c - 64 * tile)]
            } else {
                win(start, t_in as int, q, c)
            }) by {
                lemma_cell(q, c, rows as int, t_in as int);
                assert(win(before, t_in as int, q, c) == before[q * t_in + c]);
                if q * t_in + c == at {
                    lemma_cells_apart(q, c, r as int, cc as int, t_in as int);
                } else {
                    assert(!(q == r && c == cc));
                }
            }
            col = col + 1;
        }
        r = r + 1;
    }
}

/// Filling a window with padding and copying every tile that it touches
/// gives the tensor's columns where there are any, and padding beyond
/// either end. `states` are the window's contents: the fill, then one after
/// each tile from `t0` on.
pub proof fn law_window_shows_the_tensor(
    tiles: Seq<Seq<i8>>,
    states: Seq<Seq<i8>>,
    rows: int,
    t_in: int,
    col0: int,
    t0: int,
    pad: i8,
)
    requires
        states.len() >= 1,
        64 * t0 <= col0,
        col0 + t_in <= 64 * (t0 + states.len() - 1),
        forall|r: int, c: int|
            0 <= r < rows && 0 <= c < t_in ==> #[trigger] win(states[0], t_in, r, c) == pad,
        forall|i: int|
            #![trigger states[i + 1]]
            0 <= i < states.len() - 1 ==> if 0 <= t0 + i < tiles.len() {
                copied(states[i], states[i + 1], tiles[t0 + i], rows, t_in, col0, t0 + i)
            } else {
                states[i + 1] == states[i]
            },
    ensures
        forall|r: int, c: int|
            0 <= r < rows && 0 <= c < t_in ==> #[trigger] win(states.last(), t_in, r, c) == (if 0
                <= col0 + c < 64 * tiles.len() {
                tiles[(col0 + c) / 64][64 * r + (col0 + c) % 64]
            } else {
                pad
            }),
{
    let n = states.len() - 1;
    lemma_states(tiles, states, rows, t_in, col0, t0, pad, n);
    assert forall|r: int, c: int| 0 <= r < rows && 0 <= c < t_in implies #[trigger] win(
        states.last(),
        t_in,
        r,
        c,
    ) == (if 0 <= col0 + c < 64 * tiles.len() {
        tiles[(col0 + c) / 64][64 * r + (col0 + c) % 64]
    } else {
        pad
    }) by {
        assert(states.last() == states[n]);
        assert(col0 + c < 64 * (t0 + n));
    }
}

proof fn lemma_states(
    tiles: Seq<Seq<i8>>,
    states: Seq<Seq<i8>>,
    rows: int,
    t_in: int,
    col0: int,
    t0: int,
    pad: i8,
    n: int,
)
    requires
        0 <= n < states.len(),
        64 * t0 <= col0,
        forall|r: int, c: int|
            0 <= r < rows && 0 <= c < t_in ==> #[trigger] win(states[0], t_in, r, c) == pad,
        forall|i: int|
            #![trigger states[i + 1]]
            0 <= i < states.len() - 1 ==> if 0 <= t0 + i < tiles.len() {
                copied(states[i], states[i + 1], tiles[t0 + i], rows, t_in, col0, t0 + i)
            } else {
                states[i + 1] == states[i]
            },
    ensures
        forall|r: int, c: int|
            0 <= r < rows && 0 <= c < t_in ==> #[trigger] win(states[n], t_in, r, c) == (if 0
                <= col0 + c < 64 * tiles.len() && col0 + c < 64 * (t0 + n) {
                tiles[(col0 + c) / 64][64 * r + (col0 + c) % 64]
            } else {
                pad
            }),
    decreases n,
{
    if n > 0 {
        lemma_states(tiles, states, rows, t_in, col0, t0, pad, n - 1);
        let i = n - 1;
        assert(states[i + 1] == states[n]);
        assert forall|r: int, c: int| 0 <= r < rows && 0 <= c < t_in implies #[trigger] win(
            states[n],
            t_in,
            r,
            c,
        ) == (if 0 <= col0 + c < 64 * tiles.len() && col0 + c < 64 * (t0 + n) {
            tiles[(col0 + c) / 64][64 * r + (col0 + c) % 64]
        } else {
            pad
        }) by {
            let col = col0 + c;
            assert(win(states[i], t_in, r, c) == (if 0 <= col < 64 * tiles.len() && col < 64 * (t0
                + i) {
                tiles[col / 64][64 * r + col % 64]
            } else {
                pad
            }));
            if in_tile(t0 + i, col) {
                assert(col / 64 == t0 + i);
                assert(col % 64 == col - 64 * (t0 + i));
            }
        }
    }
}

} // verus!
