//! Recording: chunks of microphone samples into mel chunks, when to stop,
//! and how much of the window the encoder has to look at.
//!
//! A chunk is 10240 samples, 64 frames. Its window reaches 1280 samples back
//! and 256 forward; the streaming recorder slides one window along, the
//! sequential one reads the same window back from storage.

use crate::bytes::{get32, le32};
use crate::encoder::mel_known;
use crate::layout::{
    arena, arena_buf, Buf, ARENA_BASE, BLOCK, CTX, N_SAMPLES, R_COS, R_HANN, R_MAX, R_MELF,
    R_TILE, R_WIN, S_MEL, S_MELF, S_PCM,
};
use crate::mel::{reflected, tap, MelParams};
use vstd::prelude::*;
use vstd::string::*;

verus! {

/// Samples of a chunk.
pub const CHUNK: usize = 10240;

/// Eighteen chunks of 64 frames and one of 48: 1200 frames.
pub const N_CHUNKS: usize = 19;

/// Samples of the sliding window.
pub const WIN: usize = 12032;

/// Recording ends after this many silent chunks behind speech, and not
/// before that many chunks.
pub const SIL_CHUNKS: usize = 3;

pub const MIN_CHUNKS: usize = 7;

// --- chunk windows ----------------------------------------------------------------------

/// First sample of chunk `ci`'s window.
pub open spec fn window_start(ci: int) -> int {
    if ci == 0 {
        0
    } else {
        10240 * ci - 1280
    }
}

/// Behind the last sample of chunk `ci`'s window.
pub open spec fn window_end(ci: int) -> int {
    if ci == 18 {
        192000
    } else {
        10240 * ci + 10496
    }
}

/// Frames of chunk `ci`.
pub open spec fn chunk_frames(ci: int) -> int {
    if ci == 18 {
        48
    } else {
        64
    }
}

/// The chunk's first frame in its window.
pub open spec fn chunk_frame0(ci: int) -> int {
    if ci == 0 {
        0
    } else {
        8
    }
}

/// A chunk as the sequential pass computes it: where its samples lie, and
/// its frames.
#[derive(Clone, Copy, PartialEq, Eq, Structural, Debug)]
pub struct ChunkWindow {
    /// First sample.
    pub start: usize,
    /// Whole blocks that hold the window, in bytes.
    pub bytes: usize,
    pub n_samples: usize,
    pub frame0: usize,
    pub n_frames: usize,
}

/// The window of chunk `ci`. It starts eight frames early, so that the
/// frames' left half has samples and the window starts on a block.
pub fn chunk_window(ci: usize) -> (w: ChunkWindow)
    requires
        ci < N_CHUNKS,
    ensures
        w.start == window_start(ci as int),
        w.n_samples == window_end(ci as int) - window_start(ci as int),
        w.bytes == 2 * w.n_samples,
        w.bytes % BLOCK == 0,
        (2 * w.start) % BLOCK as int == 0,
        w.frame0 == chunk_frame0(ci as int),
        w.n_frames == chunk_frames(ci as int),
{
    let f0: usize = ci * 64;
    let n_frames: usize = if ci == 18 {
        48
    } else {
        64
    };
    let s0: usize = if f0 * 160 < 1280 {
        0
    } else {
        f0 * 160 - 1280
    };
    let end: usize = (f0 + n_frames) * 160 + 256;
    let span: usize = if end < N_SAMPLES {
        end - s0
    } else {
        N_SAMPLES - s0
    };
    let bytes: usize = (span * 2 + 511) / BLOCK * BLOCK;
    let n_samples: usize = if bytes / 2 < N_SAMPLES - s0 {
        bytes / 2
    } else {
        N_SAMPLES - s0
    };
    ChunkWindow { start: s0, bytes, n_samples, frame0: (f0 * 160 - s0) / 160, n_frames }
}

/// A frame computed in its chunk's window reads the samples that it reads
/// in the whole recording, with the recording's ends reflected.
pub proof fn law_window_is_the_recording(ci: int, f: int, i: int)
    requires
        0 <= ci < 19,
        0 <= f < chunk_frames(ci),
        0 <= i < 400,
    ensures
        ({
            let n = window_end(ci) - window_start(ci);
            let local = reflected(tap(chunk_frame0(ci) + f, i), n);
            &&& 0 <= local < n
            &&& window_start(ci) + local == reflected(tap(64 * ci + f, i), 192000)
        }),
{
}

/// The sliding window of the streaming recorder.
pub struct Slide {
    pub win: Vec<i16>,
    /// Samples in it.
    pub have: usize,
}

impl Slide {
    pub open spec fn wf(self) -> bool {
        self.win@.len() == WIN && self.have <= WIN
    }

    /// The window holds the recording `pcm` from chunk `k`'s window start to
    /// the end of buffer `k`.
    pub open spec fn holds(self, pcm: Seq<i16>, k: int) -> bool {
        &&& self.wf()
        &&& self.have == 10240 * (k + 1) - window_start(k)
        &&& self.win@.take(self.have as int) == pcm.subrange(window_start(k), 10240 * (k + 1))
    }

    pub fn new() -> (s: Slide)
        ensures
            s.wf(),
            s.have == 0,
    {
        Slide { win: vec![0i16; WIN], have: 0 }
    }

    /// Copies `n` samples of `src` to place `at`.
    fn put(&mut self, at: usize, src: &[i16], n: usize)
        requires
            old(self).wf(),
            at + n <= WIN,
            n <= src@.len(),
        ensures
            final(self).win@.len() == WIN,
            final(self).have == old(self).have,
            forall|i: int|
                at <= i < at + n ==> #[trigger] final(self).win@[i] == src@[i - at],
            forall|i: int|
                0 <= i < WIN && !(at <= i < at + n) ==> #[trigger] final(self).win@[i]
                    == old(self).win@[i],
    {
        let ghost start = self.win@;
        let mut i: usize = 0;
        while i < n
            invariant
                i <= n,
                at + n <= WIN,
                n <= src@.len(),
                self.win@.len() == WIN,
                self.have == old(self).have,
                start == old(self).win@,
                forall|k: int| at <= k < at + i ==> #[trigger] self.win@[k] == src@[k - at],
                forall|k: int|
                    0 <= k < WIN && !(at <= k < at + i) ==> #[trigger] self.win@[k] == start[k],
            decreases n - i,
        {
            self.win.set(at + i, src[i]);
            i = i + 1;
        }
    }

    /// The first buffer.
    pub fn first(&mut self, hop: &[i16])
        requires
            old(self).wf(),
            hop@.len() == CHUNK,
        ensures
            final(self).wf(),
            final(self).have == CHUNK,
            forall|pcm: Seq<i16>|
                pcm.len() >= CHUNK && pcm.take(CHUNK as int) == hop@ ==>
                    #[trigger] final(self).holds(pcm, 0),
    {
        self.put(0, hop, CHUNK);
        self.have = CHUNK;
        assert forall|pcm: Seq<i16>| pcm.len() >= CHUNK && pcm.take(CHUNK as int)
            == hop@ implies #[trigger] self.holds(pcm, 0) by {
            assert forall|i: int| 0 <= i < CHUNK implies self.win@[i] == pcm[i] by {
                assert(pcm.take(CHUNK as int)[i] == hop@[i]);
            }
            assert(self.win@.take(CHUNK as int) =~= pcm.subrange(0, CHUNK as int));
        }
    }

    /// The next buffer's first samples complete the window of the chunk
    /// before it; the count of samples in that window comes back.
    pub fn complete(&mut self, hop: &[i16]) -> (n: usize)
        requires
            old(self).wf(),
            old(self).have + 256 <= WIN,
            hop@.len() == CHUNK,
        ensures
            final(self).wf(),
            final(self).have == old(self).have,
            n == old(self).have + 256,
            forall|i: int|
                0 <= i < old(self).have ==> #[trigger] final(self).win@[i] == old(self).win@[i],
            forall|pcm: Seq<i16>, k: int|
                #![trigger old(self).holds(pcm, k)]
                0 <= k < 18 && old(self).holds(pcm, k) && pcm.len() >= 10240 * (k + 2)
                    && pcm.subrange(10240 * (k + 1), 10240 * (k + 2)) == hop@ ==> {
                    &&& final(self).holds(pcm, k)
                    &&& n == window_end(k) - window_start(k)
                    &&& final(self).win@.take(n as int) == pcm.subrange(
                        window_start(k),
                        window_end(k),
                    )
                },
    {
        let ghost before = *self;
        let at: usize = self.have;
        self.put(at, hop, 256);
        assert forall|pcm: Seq<i16>, k: int|
            #![trigger before.holds(pcm, k)]
            0 <= k < 18 && before.holds(pcm, k) && pcm.len() >= 10240 * (k + 2) && pcm.subrange(
                10240 * (k + 1),
                10240 * (k + 2),
            ) == hop@ implies {
            &&& self.holds(pcm, k)
            &&& at + 256 == window_end(k) - window_start(k)
            &&& self.win@.take(at + 256) == pcm.subrange(window_start(k), window_end(k))
        } by {
            let s = window_start(k);
            let old_part = before.win@.take(at as int);
            assert(old_part == pcm.subrange(s, 10240 * (k + 1)));
            assert forall|i: int| 0 <= i < at implies self.win@[i] == pcm[s + i] by {
                assert(old_part[i] == pcm.subrange(s, 10240 * (k + 1))[i]);
            }
            assert forall|i: int| at <= i < at + 256 implies self.win@[i] == pcm[s + i] by {
                assert(hop@[i - at] == pcm.subrange(10240 * (k + 1), 10240 * (k + 2))[i - at]);
            }
            assert(self.win@.take(at as int) =~= pcm.subrange(s, 10240 * (k + 1)));
            assert(self.win@.take(at + 256) =~= pcm.subrange(s, window_end(k)));
        }
        at + 256
    }

    /// Slides on: the last 1280 samples, then all of the next buffer.
    pub fn slide(&mut self, hop: &[i16])
        requires
            old(self).wf(),
            1280 <= old(self).have <= 11520,
            hop@.len() == CHUNK,
        ensures
            final(self).wf(),
            final(self).have == 11520,
            forall|pcm: Seq<i16>, k: int|
                #![trigger old(self).holds(pcm, k)]
                0 <= k < 18 && old(self).holds(pcm, k) && pcm.len() >= 10240 * (k + 2)
                    && pcm.subrange(10240 * (k + 1), 10240 * (k + 2)) == hop@
                    ==> final(self).holds(pcm, k + 1),
    {
        let ghost before = *self;
        let from: usize = self.have - 1280;
        let mut i: usize = 0;
        while i < 1280
            invariant
                i <= 1280,
                from + 1280 <= WIN,
                from == before.have - 1280,
                self.win@.len() == WIN,
                before.win@.len() == WIN,
                self.have == before.have,
                forall|k: int| 0 <= k < i ==> #[trigger] self.win@[k] == before.win@[from + k],
                forall|k: int| i <= k < WIN ==> #[trigger] self.win@[k] == before.win@[k],
            decreases 1280 - i,
        {
            let v: i16 = self.win[from + i];
            self.win.set(i, v);
            i = i + 1;
        }
        let ghost mid = self.win@;
        self.put(1280, hop, CHUNK);
        self.have = 11520;
        assert forall|pcm: Seq<i16>, k: int|
            #![trigger before.holds(pcm, k)]
            0 <= k < 18 && before.holds(pcm, k) && pcm.len() >= 10240 * (k + 2) && pcm.subrange(
                10240 * (k + 1),
                10240 * (k + 2),
            ) == hop@ implies self.holds(pcm, k + 1) by {
            let s = window_start(k);
            let t = window_start(k + 1);
            let old_part = before.win@.take(before.have as int);
            assert(old_part == pcm.subrange(s, 10240 * (k + 1)));
            assert forall|j: int| 0 <= j < 1280 implies self.win@[j] == pcm[t + j] by {
                assert(mid[j] == before.win@[from + j]);
                assert(old_part[from + j] == pcm.subrange(s, 10240 * (k + 1))[from + j]);
            }
            assert forall|j: int| 1280 <= j < 11520 implies self.win@[j] == pcm[t + j] by {
                assert(hop@[j - 1280] == pcm.subrange(10240 * (k + 1), 10240 * (k + 2))[j
                    - 1280]);
            }
            assert(self.win@.take(11520) =~= pcm.subrange(t, 10240 * (k + 2)));
        }
    }
}

// --- recording while the mel is computed ------------------------------------------------

/// A chunk to compute and spill: its window is the first samples of the
/// sliding one.
#[derive(Clone, Copy, PartialEq, Eq, Structural, Debug)]
pub struct ChunkJob {
    pub ci: usize,
    pub n_samples: usize,
    pub n_frames: usize,
    /// Where its mel goes: first block, and blocks.
    pub at: u32,
    pub blocks: u32,
}

/// The job of chunk `ci`.
pub open spec fn job_of(ci: int) -> ChunkJob {
    ChunkJob {
        ci: ci as usize,
        n_samples: (window_end(ci) - window_start(ci)) as usize,
        n_frames: chunk_frames(ci) as usize,
        at: (S_MELF + 40 * ci) as u32,
        blocks: melf_blocks(ci) as u32,
    }
}

/// Buffers of `pcm` behind one another: buffer `k` is `hop`.
pub open spec fn is_buffer(pcm: Seq<i16>, k: int, hop: Seq<i16>) -> bool {
    pcm.len() >= 10240 * (k + 1) && pcm.subrange(10240 * k, 10240 * (k + 1)) == hop
}

/// A recording whose mel is computed in the gaps between buffers.
pub struct RecordMel {
    /// Buffers taken.
    pub k: usize,
    pub slide: Slide,
}

impl RecordMel {
    pub open spec fn wf(self) -> bool {
        &&& self.slide.wf()
        &&& self.k <= N_CHUNKS
        &&& self.k == 1 ==> self.slide.have == CHUNK
        &&& self.k > 1 ==> self.slide.have == 11520
    }

    /// What has been taken is the start of `pcm`.
    pub open spec fn holds(self, pcm: Seq<i16>) -> bool {
        self.k >= 1 ==> self.slide.holds(pcm, self.k - 1)
    }

    pub fn record_mel() -> (r: RecordMel)
        ensures
            r.wf(),
            r.k == 0,
            forall|pcm: Seq<i16>| #[trigger] r.holds(pcm),
    {
        RecordMel { k: 0, slide: Slide::new() }
    }

    /// A buffer has been filled. The first one only starts the window; each
    /// one after it completes the chunk before it, which is to be computed
    /// and spilled.
    pub fn hop(&mut self, hop: &[i16]) -> (r: Option<ChunkJob>)
        requires
            old(self).wf(),
            old(self).k < N_CHUNKS,
            hop@.len() == CHUNK,
        ensures
            old(self).k == 0 ==> {
                &&& r is None
                &&& final(self).wf()
                &&& final(self).k == 1
                &&& forall|pcm: Seq<i16>|
                    is_buffer(pcm, 0, hop@) ==> #[trigger] final(self).holds(pcm)
            },
            old(self).k > 0 ==> {
                &&& r == Some(job_of(old(self).k - 1))
                &&& final(self).wf()
                &&& final(self).k == old(self).k
                &&& forall|pcm: Seq<i16>|
                    #![trigger old(self).holds(pcm)]
                    old(self).holds(pcm) && is_buffer(pcm, old(self).k as int, hop@) ==> {
                        &&& final(self).holds(pcm)
                        &&& final(self).slide.win@.take(
                            window_end(old(self).k - 1) - window_start(old(self).k - 1),
                        ) == pcm.subrange(
                            window_start(old(self).k - 1),
                            window_end(old(self).k - 1),
                        )
                    }
            },
    {
        if self.k == 0 {
            self.slide.first(hop);
            self.k = 1;
            assert forall|pcm: Seq<i16>| is_buffer(pcm, 0, hop@) implies #[trigger] self.holds(
                pcm,
            ) by {
                assert(pcm.take(CHUNK as int) =~= pcm.subrange(0, 10240));
                assert(self.slide.holds(pcm, 0));
            }
            return None;
        }
        let ci: usize = self.k - 1;
        let ghost before = self.slide;
        let n: usize = self.slide.complete(hop);
        assert forall|pcm: Seq<i16>|
            #![trigger before.holds(pcm, ci as int)]
            before.holds(pcm, ci as int) && is_buffer(pcm, ci + 1, hop@) implies {
            &&& self.slide.holds(pcm, ci as int)
            &&& self.slide.win@.take(window_end(ci as int) - window_start(ci as int))
                == pcm.subrange(window_start(ci as int), window_end(ci as int))
        } by {
            assert(before.holds(pcm, ci as int));
        }
        Some(
            ChunkJob {
                ci,
                n_samples: n,
                n_frames: 64,
                at: S_MELF + 40 * (ci as u32),
                blocks: 40,
            },
        )
    }

    /// The chunk is spilled, and `tail` chunks behind the last speech are
    /// silent. `Some(n)` ends the recording with `n` chunks; otherwise the
    /// same buffer slides in.
    pub fn spilled(&mut self, tail: usize, hop: &[i16]) -> (r: Option<usize>)
        requires
            old(self).wf(),
            0 < old(self).k < N_CHUNKS,
            hop@.len() == CHUNK,
        ensures
            r == (if old(self).k >= MIN_CHUNKS && tail >= SIL_CHUNKS {
                Some(old(self).k)
            } else {
                None
            }),
            r is None ==> {
                &&& final(self).wf()
                &&& final(self).k == old(self).k + 1
                &&& forall|pcm: Seq<i16>|
                    #![trigger old(self).holds(pcm)]
                    old(self).holds(pcm) && is_buffer(pcm, old(self).k as int, hop@)
                        ==> final(self).holds(pcm)
            },
    {
        let k: usize = self.k;
        if stops(k, tail) {
            return Some(k);
        }
        let ghost before = self.slide;
        self.slide.slide(hop);
        self.k = k + 1;
        assert forall|pcm: Seq<i16>|
            #![trigger before.holds(pcm, k - 1)]
            before.holds(pcm, k - 1) && is_buffer(pcm, k as int, hop@) implies self.slide.holds(
            pcm,
            k as int,
        ) by {
            assert(before.holds(pcm, k - 1));
        }
        None
    }

    /// The last chunk of a full recording: its window is complete without
    /// another buffer.
    pub fn last(&self) -> (j: ChunkJob)
        requires
            self.wf(),
            self.k == N_CHUNKS,
        ensures
            j == job_of(18),
            forall|pcm: Seq<i16>|
                pcm.len() >= 194560 && #[trigger] self.holds(pcm) ==> self.slide.win@.take(
                    j.n_samples as int,
                ) == pcm.subrange(window_start(18), 192000),
    {
        let n: usize = N_SAMPLES - (18 * CHUNK - 1280);
        assert forall|pcm: Seq<i16>|
            pcm.len() >= 194560 && #[trigger] self.holds(pcm) implies self.slide.win@.take(
            n as int,
        ) == pcm.subrange(window_start(18), 192000) by {
            let whole = self.slide.win@.take(self.slide.have as int);
            let rec = pcm.subrange(window_start(18), 194560);
            assert(whole == rec);
            assert(self.slide.win@.take(n as int) =~= whole.take(n as int));
            assert(pcm.subrange(window_start(18), 192000) =~= rec.take(n as int));
        }
        ChunkJob { ci: 18, n_samples: n, n_frames: 48, at: S_MELF + 720, blocks: 30 }
    }
}

/// The streaming pass computes each chunk from the window that the
/// sequential pass reads back, and spills it to the same place.
pub proof fn law_both_passes_agree(ci: int)
    requires
        0 <= ci < 19,
    ensures
        pass1_chunk(ci)[0] matches MelStep::Read { at, dst } && 512 * (at - S_PCM) == 2
            * window_start(ci) && dst.len == 2 * job_of(ci).n_samples && dst.off == R_WIN,
        pass1_chunk(ci)[1] matches MelStep::Frames { pcm, n_samples, frame0, n_frames, .. }
            && pcm.off == R_WIN && n_samples == job_of(ci).n_samples && frame0 == chunk_frame0(ci)
            && n_frames == job_of(ci).n_frames,
        pass1_chunk(ci)[2] matches MelStep::Write { at, src } && at == job_of(ci).at && src.len
            == 512 * job_of(ci).blocks,
{
}

/// The kernel's parameters for a chunk in the sliding window.
pub fn mel_chunk(ci: usize, n_samples: usize, n_frames: usize, interlayer: u32) -> (p: MelParams)
    requires
        n_samples <= WIN,
        n_frames <= 64,
    ensures
        p == (MelParams {
            pcm: (ARENA_BASE + R_WIN) as u32,
            n_samples: n_samples as u32,
            frame0: chunk_frame0(ci as int) as u32,
            n_frames: n_frames as u32,
            hann: (ARENA_BASE + R_HANN) as u32,
            cos_tab: (ARENA_BASE + R_COS) as u32,
            filters: interlayer,
            out: (ARENA_BASE + R_MELF) as u32,
            max_acc: (ARENA_BASE + R_MAX) as u32,
        }),
{
    MelParams {
        pcm: (ARENA_BASE + R_WIN) as u32,
        n_samples: n_samples as u32,
        frame0: if ci == 0 {
            0
        } else {
            8
        },
        n_frames: n_frames as u32,
        hann: (ARENA_BASE + R_HANN) as u32,
        cos_tab: (ARENA_BASE + R_COS) as u32,
        filters: interlayer,
        out: (ARENA_BASE + R_MELF) as u32,
        max_acc: (ARENA_BASE + R_MAX) as u32,
    }
}

// --- when to stop -----------------------------------------------------------------------

/// Whole silent chunks behind the last speech chunk, of `k` chunks; none if
/// there was no speech.
pub fn silent_tail(k: usize, last: Option<usize>) -> (n: usize)
    requires
        k >= 1,
        last matches Some(f) ==> f / 64 < k,
    ensures
        n == match last {
            Some(f) => k - 1 - f / 64,
            None => 0,
        },
{
    match last {
        Some(f) => k - 1 - f / 64,
        None => 0,
    }
}

/// Whether recording ends after `k` chunks.
pub fn stops(k: usize, tail: usize) -> (b: bool)
    ensures
        b == (k >= MIN_CHUNKS && tail >= SIL_CHUNKS),
{
    k >= MIN_CHUNKS && tail >= SIL_CHUNKS
}

/// Context floor and margin, in encoder frames.
pub const VAD_FLOOR_CTX: usize = 192;

pub const VAD_MARGIN_CTX: usize = 32;

/// Encoder frames to look at when the last speech is in mel frame `last`.
pub open spec fn context_for(last: int) -> int {
    if last / 2 + 32 < 192 {
        192
    } else if last / 2 + 32 > 600 {
        600
    } else {
        last / 2 + 32
    }
}

/// Tiles and context of an utterance whose last speech is in mel frame
/// `last`: half rate, plus a margin, floored and capped, in whole tiles.
pub fn extent(last: usize) -> (r: (usize, usize))
    ensures
        r.1 == context_for(last as int),
        r.0 == (context_for(last as int) + 63) / 64,
        3 <= r.0 <= 10,
        192 <= r.1 <= 600,
        64 * (r.0 - 1) < r.1 <= 64 * r.0,
        r.1 >= last / 2 + 32 || r.1 == 600,
        r.1 <= last / 2 + 32 || r.1 == 192,
{
    let half: usize = last / 2;
    let ctx: usize = if half < 160 {
        VAD_FLOOR_CTX
    } else if half > 568 {
        CTX
    } else {
        half + VAD_MARGIN_CTX
    };
    ((ctx + 63) / 64, ctx)
}

/// The encoder looks at the speech and a margin behind it: at two mel frames
/// to one of its own, everything up to 32 frames past the last speech lies
/// inside of the context, as far as the window goes. It looks at no more than
/// that, but for the shortest context.
pub proof fn law_context_covers_the_speech(last: int)
    requires
        0 <= last,
    ensures
        192 <= context_for(last) <= 600,
        context_for(last) >= last / 2 + 32 || context_for(last) == 600,
        context_for(last) <= last / 2 + 32 || context_for(last) == 192,
        context_for(last) < 600 ==> 2 * context_for(last) >= last + 63,
{
}

/// Later speech is never looked at through a shorter context.
pub proof fn law_context_grows_with_the_speech(a: int, b: int)
    requires
        0 <= a <= b,
    ensures
        context_for(a) <= context_for(b),
        context_for(b) - context_for(a) <= (b - a + 1) / 2,
{
}

/// Stopping early leaves the encoder's input as the full recording would:
/// every mel frame that its tiles and the convolution's halo touch was
/// recorded.
pub proof fn law_early_stop_records_enough(k: int, last: int)
    requires
        MIN_CHUNKS <= k < N_CHUNKS,
        0 <= last < 64 * k,
        k - 1 - last / 64 >= SIL_CHUNKS,
    ensures
        128 * ((context_for(last) + 63) / 64) + 1 <= 64 * k,
{
}

/// Without speech the floor applies, and it was recorded as well.
pub proof fn law_floor_is_recorded(k: int)
    requires
        MIN_CHUNKS <= k,
    ensures
        128 * ((context_for(0) + 63) / 64) + 1 <= 64 * k,
{
}

/// Mel frames of a recording of `rec` chunks.
pub fn recorded_frames(rec: usize) -> (n: usize)
    ensures
        n == (if rec >= N_CHUNKS {
            1200
        } else {
            64 * rec
        }),
{
    if rec >= N_CHUNKS {
        1200
    } else {
        rec * 64
    }
}

/// Milliseconds of recording behind the last speech frame.
pub fn speech_tail_ms(n_frames: usize, last: usize) -> (ms: u32)
    requires
        last < n_frames,
        10 * (n_frames - 1 - last) <= u32::MAX,
    ensures
        ms == 10 * (n_frames - 1 - last),
{
    ((n_frames - 1 - last) * 10) as u32
}

// --- levels -----------------------------------------------------------------------------
//
// Levels come as order keys of their single-precision values.

/// The quietest and the loudest frame; the two ends of the key range if
/// there is no frame.
pub fn level_range(keys: &[i32], top: i32, bottom: i32) -> (r: (i32, i32))
    ensures
        r.0 <= top,
        r.1 >= bottom,
        forall|i: int| 0 <= i < keys@.len() ==> r.0 <= #[trigger] keys@[i] <= r.1,
        r.0 == top || exists|i: int| 0 <= i < keys@.len() && #[trigger] keys@[i] == r.0,
        r.1 == bottom || exists|i: int| 0 <= i < keys@.len() && #[trigger] keys@[i] == r.1,
{
    let mut lo: i32 = top;
    let mut hi: i32 = bottom;
    let mut i: usize = 0;
    while i < keys.len()
        invariant
            i <= keys@.len(),
            lo <= top,
            hi >= bottom,
            forall|k: int| 0 <= k < i ==> lo <= #[trigger] keys@[k] <= hi,
            lo == top || exists|k: int| 0 <= k < i && #[trigger] keys@[k] == lo,
            hi == bottom || exists|k: int| 0 <= k < i && #[trigger] keys@[k] == hi,
        decreases keys@.len() - i,
    {
        let v: i32 = keys[i];
        let ghost lo0 = lo;
        let ghost hi0 = hi;
        if v < lo {
            lo = v;
        }
        if v > hi {
            hi = v;
        }
        proof {
            assert(keys@[i as int] == v);
            if lo == lo0 && lo0 != top {
                let k = choose|k: int| 0 <= k < i && #[trigger] keys@[k] == lo0;
                assert(keys@[k] == lo);
            }
            if hi == hi0 && hi0 != bottom {
                let k = choose|k: int| 0 <= k < i && #[trigger] keys@[k] == hi0;
                assert(keys@[k] == hi);
            }
        }
        i = i + 1;
    }
    (lo, hi)
}

/// The last frame louder than the threshold.
pub open spec fn is_last_above(keys: Seq<i32>, thresh: i32, r: Option<usize>) -> bool {
    match r {
        Some(f) => {
            &&& f < keys.len()
            &&& keys[f as int] > thresh
            &&& forall|i: int| f < i < keys.len() ==> #[trigger] keys[i] <= thresh
        },
        None => forall|i: int| 0 <= i < keys.len() ==> #[trigger] keys[i] <= thresh,
    }
}

/// The speech test over per-frame levels.
pub fn vad_scan(keys: &[i32], thresh: i32) -> (r: Option<usize>)
    ensures
        is_last_above(keys@, thresh, r),
{
    let mut last: Option<usize> = None;
    let mut i: usize = 0;
    while i < keys.len()
        invariant
            i <= keys@.len(),
            is_last_above(keys@.take(i as int), thresh, last),
        decreases keys@.len() - i,
    {
        let ghost before = keys@.take(i as int);
        let ghost now = keys@.take(i + 1);
        if keys[i] > thresh {
            last = Some(i);
        }
        proof {
            assert forall|k: int| 0 <= k < i implies now[k] == before[k] by {}
            assert(now[i as int] == keys@[i as int]);
            match last {
                Some(f) => {
                    assert forall|k: int| f < k < now.len() implies #[trigger] now[k]
                        <= thresh by {
                        if k < i {
                            assert(before[k] <= thresh);
                        }
                    }
                },
                None => {
                    assert forall|k: int| 0 <= k < now.len() implies #[trigger] now[k]
                        <= thresh by {
                        if k < i {
                            assert(before[k] <= thresh);
                        }
                    }
                },
            }
        }
        i = i + 1;
    }
    assert(keys@.take(i as int) =~= keys@);
    last
}

/// Where an utterance ends: the frame of the last speech, the tiles and the
/// context that the encoder looks at, and the recording behind the speech in
/// milliseconds.
#[derive(Clone, Copy, PartialEq, Eq, Structural, Debug)]
pub struct Endpoint {
    pub last: usize,
    pub tiles: usize,
    pub ctx: usize,
    pub tail_ms: u32,
}

/// The end of an utterance from the levels of its frames: the last frame
/// that is louder than the threshold, the first frame if none is.
pub fn endpoint(keys: &[i32], thresh: i32) -> (e: Endpoint)
    requires
        1 <= keys@.len(),
        10 * (keys@.len() - 1) <= u32::MAX,
    ensures
        e.last < keys@.len(),
        is_last_above(keys@, thresh, Some(e.last)) || (is_last_above(keys@, thresh, None) && e.last
            == 0),
        e.ctx == context_for(e.last as int),
        e.tiles == (context_for(e.last as int) + 63) / 64,
        e.tail_ms == 10 * (keys@.len() - 1 - e.last),
        3 <= e.tiles <= 10,
        192 <= e.ctx <= 600,
        // 32 frames behind the speech, unless that is too few or the window ends
        e.ctx >= e.last / 2 + 32 || e.ctx == 600,
        e.ctx <= e.last / 2 + 32 || e.ctx == 192,
        64 * (e.tiles - 1) < e.ctx <= 64 * e.tiles,
{
    let last: usize = match vad_scan(keys, thresh) {
        Some(f) => f,
        None => 0,
    };
    let (tiles, ctx) = extent(last);
    Endpoint { last, tiles, ctx, tail_ms: speech_tail_ms(keys.len(), last) }
}

/// The microphone's level over a window.
#[derive(Clone, Copy, PartialEq, Eq, Structural, Debug)]
pub struct MicLevel {
    pub peak: i32,
    pub sumsq: u64,
    pub n: u32,
}

pub open spec fn magnitude(x: int) -> int {
    if x < 0 {
        -x
    } else {
        x
    }
}

/// The sum of squares of the first `n` samples.
pub open spec fn squares(s: Seq<i16>, n: int) -> int
    decreases n,
{
    if n <= 0 {
        0
    } else {
        squares(s, n - 1) + s[n - 1] * s[n - 1]
    }
}

impl MicLevel {
    pub fn mic_reset() -> (m: MicLevel)
        ensures
            m == (MicLevel { peak: 0, sumsq: 0, n: 0 }),
    {
        MicLevel { peak: 0, sumsq: 0, n: 0 }
    }

    /// More samples.
    pub fn hear(&mut self, hop: &[i16])
        requires
            0 <= old(self).peak <= 32768,
            old(self).n + hop@.len() <= u32::MAX,
            old(self).sumsq <= 0x4000_0000 * old(self).n,
        ensures
            final(self).n == old(self).n + hop@.len(),
            final(self).sumsq == old(self).sumsq + squares(hop@, hop@.len() as int),
            final(self).sumsq <= 0x4000_0000 * final(self).n,
            0 <= final(self).peak <= 32768,
            final(self).peak >= old(self).peak,
            forall|i: int|
                0 <= i < hop@.len() ==> magnitude((#[trigger] hop@[i]) as int) <= final(self).peak,
            final(self).peak == old(self).peak || exists|i: int|
                0 <= i < hop@.len() && magnitude((#[trigger] hop@[i]) as int) == final(self).peak,
    {
        let ghost start = *self;
        let mut i: usize = 0;
        while i < hop.len()
            invariant
                i <= hop@.len(),
                start.n + hop@.len() <= u32::MAX,
                self.n == start.n + i,
                self.sumsq == start.sumsq + squares(hop@, i as int),
                self.sumsq <= 0x4000_0000 * self.n,
                0 <= self.peak <= 32768,
                self.peak >= start.peak,
                forall|k: int|
                    0 <= k < i ==> magnitude((#[trigger] hop@[k]) as int) <= self.peak,
                self.peak == start.peak || exists|k: int|
                    0 <= k < i && magnitude((#[trigger] hop@[k]) as int) == self.peak,
            decreases hop@.len() - i,
        {
            let x: i64 = hop[i] as i64;
            let a: i32 = if x < 0 {
                (-x) as i32
            } else {
                x as i32
            };
            let ghost peak0 = self.peak;
            if a > self.peak {
                self.peak = a;
            }
            proof {
                assert(0 <= x * x <= 0x4000_0000) by (nonlinear_arith)
                    requires
                        -32768 <= x <= 32767,
                ;
                assert(magnitude(hop@[i as int] as int) == a);
                if self.peak == peak0 && peak0 != start.peak {
                    let k = choose|k: int|
                        0 <= k < i && magnitude((#[trigger] hop@[k]) as int) == peak0;
                    assert(magnitude(hop@[k] as int) == self.peak);
                }
            }
            self.sumsq = self.sumsq + (x * x) as u64;
            self.n = self.n + 1;
            i = i + 1;
        }
    }
}

/// Windows of a microphone check, and the peak that ends it.
pub const MIC_WINDOWS: u32 = 30;

pub const MIC_TRIGGER: i32 = 200;

/// Whether a microphone check goes on after window `w` with this peak.
pub fn mic_check(w: u32, peak: i32) -> (more: bool)
    ensures
        more == (peak < MIC_TRIGGER && w + 1 < MIC_WINDOWS),
{
    peak < MIC_TRIGGER && w < MIC_WINDOWS - 1
}

// --- samples on storage -----------------------------------------------------------------

/// Where chunk `k`'s samples go, clipped to the recording's region: byte
/// offset and bytes, or nothing if the chunk lies behind it.
pub fn spill_pcm(k: usize) -> (r: Option<(usize, usize)>)
    requires
        20480 * k <= usize::MAX,
    ensures
        match r {
            Some((off, bytes)) => {
                &&& off == 20480 * k
                &&& off < 384000
                &&& bytes == (if k == 18 {
                    15360int
                } else {
                    20480
                })
                &&& off + bytes <= 384000
            },
            None => 20480 * k >= 384000,
        },
{
    let off: usize = k * CHUNK * 2;
    if off >= N_SAMPLES * 2 {
        return None;
    }
    let left: usize = N_SAMPLES * 2 - off;
    let bytes: usize = if left < CHUNK * 2 {
        left
    } else {
        CHUNK * 2
    };
    Some((off, bytes))
}

/// Bytes of a hop of the plain recorder, and hops per write.
pub const HOP_BYTES: usize = 640;

pub const HOPS_PER_WRITE: usize = 8;

/// The plain recorder: hops gather in a ring and go out eight at a time.
#[derive(Clone, Copy, PartialEq, Eq, Structural, Debug)]
pub struct Recorder {
    pub filled: usize,
    pub written: usize,
}

/// What a hop asks for.
#[derive(Clone, Copy, PartialEq, Eq, Structural, Debug)]
pub enum Hop {
    More,
    /// Write 5120 bytes at this offset of the recording.
    Write(usize),
}

impl Recorder {
    pub open spec fn wf(self) -> bool {
        &&& self.filled < HOPS_PER_WRITE
        &&& self.written <= 2 * N_SAMPLES
        &&& self.written % 5120 == 0
    }

    /// Bytes heard so far.
    pub open spec fn heard(self) -> int {
        self.written + 640 * self.filled
    }

    pub fn record() -> (r: Recorder)
        ensures
            r.wf(),
            r.heard() == 0,
    {
        Recorder { filled: 0, written: 0 }
    }

    /// Whether the recording is complete.
    pub fn done(&self) -> (b: bool)
        ensures
            b == (self.written >= 2 * N_SAMPLES),
    {
        self.written >= N_SAMPLES * 2
    }

    /// Where in the ring the next hop goes.
    pub fn place(&self) -> (o: usize)
        requires
            self.wf(),
        ensures
            o == 640 * self.filled,
            o + 640 <= 5120,
    {
        self.filled * HOP_BYTES
    }

    /// A hop is in the ring.
    pub fn hop(&mut self) -> (h: Hop)
        requires
            old(self).wf(),
            old(self).written < 2 * N_SAMPLES,
        ensures
            final(self).wf(),
            final(self).heard() == old(self).heard() + 640,
            old(self).filled < 7 ==> h == Hop::More && final(self).written == old(self).written,
            old(self).filled == 7 ==> h == Hop::Write(old(self).written) && final(self).written
                == old(self).written + 5120,
    {
        self.filled = self.filled + 1;
        if self.filled == HOPS_PER_WRITE {
            let at: usize = self.written;
            self.written = at + 5120;
            self.filled = 0;
            Hop::Write(at)
        } else {
            Hop::More
        }
    }
}

/// The marker of a clip that was put into the recording's region.
pub open spec fn inject_marker() -> Seq<u8> {
    "WMOCKAU1".spec_bytes()
}

/// The sample count of an injected clip, if the marker block says so.
pub fn injected(block: &[u8]) -> (r: Option<u32>)
    requires
        block@.len() >= 16,
    ensures
        r == (if block@.take(8) == inject_marker() {
            Some(le32(block@, 8) as u32)
        } else {
            None::<u32>
        }),
{
    let m: &[u8] = "WMOCKAU1".as_bytes();
    proof {
        broadcast use is_ascii_spec_bytes;

        reveal_strlit("WMOCKAU1");
        assert("WMOCKAU1".is_ascii());
        assert(m@.len() == 8);
    }
    let mut i: usize = 0;
    while i < 8
        invariant
            i <= 8,
            m@.len() == 8,
            m@ == inject_marker(),
            block@.len() >= 16,
            forall|k: int| 0 <= k < i ==> #[trigger] block@[k] == m@[k],
        decreases 8 - i,
    {
        if block[i] != m[i] {
            assert(block@.take(8)[i as int] != inject_marker()[i as int]);
            return None;
        }
        i = i + 1;
    }
    assert(block@.take(8) =~= inject_marker());
    Some(get32(block, 8))
}

// --- mel passes -------------------------------------------------------------------------

#[derive(Clone, Copy, PartialEq, Eq, Structural, Debug)]
pub enum MelStep {
    /// Scratch blocks from block `at` on.
    Read { at: u32, dst: Buf },
    Write { at: u32, src: Buf },
    /// Log-mel frames of a window, updating the running maximum.
    Frames { pcm: Buf, n_samples: usize, frame0: usize, n_frames: usize, out: Buf },
    /// Per-frame means of a chunk.
    Means { src: Buf, first: usize, frames: usize },
    /// Normalised and quantised.
    Normalize { src: Buf, dst: Buf, n: usize },
    /// The code of real zero in every byte.
    Pad { dst: Buf },
    /// Rows of 48 into padded rows of 64.
    Widen { src: Buf, dst: Buf },
}

/// Blocks of a mel chunk.
pub open spec fn melf_blocks(ci: int) -> int {
    if ci == 18 {
        30
    } else {
        40
    }
}

/// One chunk of the sequential first pass.
pub open spec fn pass1_chunk(ci: int) -> Seq<MelStep> {
    let n = window_end(ci) - window_start(ci);
    seq![
        MelStep::Read {
            at: (S_PCM + window_start(ci) / 256) as u32,
            dst: arena_buf(R_WIN as int, 2 * n),
        },
        MelStep::Frames {
            pcm: arena_buf(R_WIN as int, 2 * n),
            n_samples: n as usize,
            frame0: chunk_frame0(ci) as usize,
            n_frames: chunk_frames(ci) as usize,
            out: arena_buf(R_MELF as int, 320 * chunk_frames(ci)),
        },
        MelStep::Write {
            at: (S_MELF + 40 * ci) as u32,
            src: arena_buf(R_MELF as int, 512 * melf_blocks(ci)),
        },
    ]
}

pub open spec fn pass1_steps(n: int) -> Seq<MelStep>
    decreases n,
{
    if n <= 0 {
        Seq::empty()
    } else {
        pass1_steps(n - 1) + pass1_chunk(n - 1)
    }
}

/// The sequential first pass: every chunk's window back from storage.
pub fn mel_pass1() -> (r: Vec<MelStep>)
    ensures
        r@ == pass1_steps(19),
{
    let mut r: Vec<MelStep> = Vec::new();
    let mut ci: usize = 0;
    assert(r@ =~= pass1_steps(0));
    while ci < N_CHUNKS
        invariant
            ci <= 19,
            r@ == pass1_steps(ci as int),
        decreases 19 - ci,
    {
        let ghost before = r@;
        let w = chunk_window(ci);
        let pcm = arena(R_WIN, w.bytes);
        r.push(MelStep::Read { at: S_PCM + (w.start / 256) as u32, dst: pcm });
        r.push(
            MelStep::Frames {
                pcm,
                n_samples: w.n_samples,
                frame0: w.frame0,
                n_frames: w.n_frames,
                out: arena(R_MELF, 320 * w.n_frames),
            },
        );
        let blocks: usize = (320 * w.n_frames + 511) / BLOCK;
        r.push(
            MelStep::Write {
                at: S_MELF + 40 * (ci as u32),
                src: arena(R_MELF, blocks * BLOCK),
            },
        );
        assert(r@ =~= before + pass1_chunk(ci as int));
        ci = ci + 1;
    }
    r
}

/// One int8 mel tile: a recorded chunk, the short last one widened, or
/// padding.
pub open spec fn pass2_tile(mt: int, rec: int) -> Seq<MelStep> {
    let tile = arena_buf(R_TILE as int, 5120);
    (if mt < 18 && mt < rec {
        seq![
            MelStep::Read {
                at: (S_MELF + 40 * mt) as u32,
                dst: arena_buf(R_MELF as int, 20480),
            },
            MelStep::Means {
                src: arena_buf(R_MELF as int, 20480),
                first: (64 * mt) as usize,
                frames: 64,
            },
            MelStep::Normalize { src: arena_buf(R_MELF as int, 20480), dst: tile, n: 5120 },
        ]
    } else if mt == 18 && rec >= 19 {
        seq![
            MelStep::Read {
                at: (S_MELF + 40 * mt) as u32,
                dst: arena_buf(R_MELF as int, 15360),
            },
            MelStep::Means {
                src: arena_buf(R_MELF as int, 15360),
                first: (64 * mt) as usize,
                frames: 48,
            },
            MelStep::Normalize {
                src: arena_buf(R_MELF as int, 15360),
                dst: arena_buf(R_TILE + 5120, 3840),
                n: 3840,
            },
            MelStep::Pad { dst: tile },
            MelStep::Widen { src: arena_buf(R_TILE + 5120, 3840), dst: tile },
        ]
    } else {
        seq![MelStep::Pad { dst: tile }]
    }) + seq![MelStep::Write { at: (S_MEL + 10 * mt) as u32, src: tile }]
}

pub open spec fn pass2_steps(n: int, rec: int) -> Seq<MelStep>
    decreases n,
{
    if n <= 0 {
        Seq::empty()
    } else {
        pass2_steps(n - 1, rec) + pass2_tile(n - 1, rec)
    }
}

/// The second pass: all twenty int8 mel tiles of a recording of `rec`
/// chunks.
pub fn mel_pass2(rec: usize) -> (r: Vec<MelStep>)
    ensures
        r@ == pass2_steps(20, rec as int),
{
    let tile = arena(R_TILE, 5120);
    let mut r: Vec<MelStep> = Vec::new();
    let mut mt: usize = 0;
    assert(r@ =~= pass2_steps(0, rec as int));
    while mt < 20
        invariant
            mt <= 20,
            tile == arena_buf(R_TILE as int, 5120),
            r@ == pass2_steps(mt as int, rec as int),
        decreases 20 - mt,
    {
        let ghost before = r@;
        let at: u32 = S_MELF + 40 * (mt as u32);
        if mt < 18 && mt < rec {
            let m = arena(R_MELF, 20480);
            r.push(MelStep::Read { at, dst: m });
            r.push(MelStep::Means { src: m, first: 64 * mt, frames: 64 });
            r.push(MelStep::Normalize { src: m, dst: tile, n: 5120 });
        } else if mt == 18 && rec >= N_CHUNKS {
            let m = arena(R_MELF, 15360);
            let st = arena(R_TILE + 5120, 3840);
            r.push(MelStep::Read { at, dst: m });
            r.push(MelStep::Means { src: m, first: 64 * mt, frames: 48 });
            r.push(MelStep::Normalize { src: m, dst: st, n: 3840 });
            r.push(MelStep::Pad { dst: tile });
            r.push(MelStep::Widen { src: st, dst: tile });
        } else {
            r.push(MelStep::Pad { dst: tile });
        }
        r.push(MelStep::Write { at: S_MEL + 10 * (mt as u32), src: tile });
        assert(r@ =~= before + pass2_tile(mt as int, rec as int));
        mt = mt + 1;
    }
    r
}

/// A step writes block `b` of the scratch area.
pub open spec fn writes_block(s: MelStep, b: int) -> bool {
    s matches MelStep::Write { at, src } && at <= b < at + src.len / 512
}

/// A step reads block `b` of the scratch area.
pub open spec fn reads_block(s: MelStep, b: int) -> bool {
    s matches MelStep::Read { at, dst } && at <= b < at + dst.len / 512
}

/// Some step of the script writes block `b`.
pub open spec fn written(steps: Seq<MelStep>, b: int) -> bool {
    exists|i: int| 0 <= i < steps.len() && #[trigger] writes_block(steps[i], b)
}

/// The second pass writes every mel tile that the encoder starts from,
/// however long the recording was.
pub proof fn law_second_pass_fills_the_mel(rec: int, b: int)
    requires
        S_MEL <= b < S_MEL + 200,
    ensures
        written(pass2_steps(20, rec), b),
        mel_known(10).contains(b),
{
    lemma_tiles_written(20, rec, b);
}

proof fn lemma_tiles_written(n: int, rec: int, b: int)
    requires
        0 <= n <= 20,
        S_MEL <= b < S_MEL + 10 * n,
    ensures
        written(pass2_steps(n, rec), b),
    decreases n,
{
    let head = pass2_steps(n - 1, rec);
    let tile = pass2_tile(n - 1, rec);
    let all = pass2_steps(n, rec);
    if b < S_MEL + 10 * (n - 1) {
        lemma_tiles_written(n - 1, rec, b);
        let i = choose|i: int| 0 <= i < head.len() && #[trigger] writes_block(head[i], b);
        assert(all[i] == head[i]);
        assert(writes_block(all[i], b));
    } else {
        let i = all.len() - 1;
        assert(all[i] == tile.last());
        assert(writes_block(all[i], b));
    }
}

/// The second pass reads nothing but what a recording of `rec` chunks has
/// spilled.
pub proof fn law_second_pass_reads_what_was_recorded(rec: int, i: int, b: int)
    requires
        0 <= rec <= 19,
        0 <= i < pass2_steps(20, rec).len(),
        reads_block(pass2_steps(20, rec)[i], b),
    ensures
        exists|ci: int|
            0 <= ci < rec && #[trigger] job_of(ci).at <= b < job_of(ci).at + job_of(ci).blocks,
{
    lemma_tiles_read(20, rec, i, b);
}

proof fn lemma_tiles_read(n: int, rec: int, i: int, b: int)
    requires
        0 <= n <= 20,
        0 <= rec <= 19,
        0 <= i < pass2_steps(n, rec).len(),
        reads_block(pass2_steps(n, rec)[i], b),
    ensures
        exists|ci: int|
            0 <= ci < rec && #[trigger] job_of(ci).at <= b < job_of(ci).at + job_of(ci).blocks,
    decreases n,
{
    let head = pass2_steps(n - 1, rec);
    let tile = pass2_tile(n - 1, rec);
    let all = pass2_steps(n, rec);
    if i < head.len() {
        assert(all[i] == head[i]);
        lemma_tiles_read(n - 1, rec, i, b);
    } else {
        assert(all[i] == tile[i - head.len()]);
        assert(job_of(n - 1).at <= b < job_of(n - 1).at + job_of(n - 1).blocks);
    }
}

/// Row `r` of 48 columns behind one another becomes the first 48 of 64.
pub fn widen_rows(st: &[i8], pad: i8, dst: &mut [i8])
    requires
        st@.len() == 3840,
        old(dst)@.len() == 5120,
    ensures
        final(dst)@.len() == 5120,
        forall|r: int, c: int|
            0 <= r < 80 && 0 <= c < 64 ==> #[trigger] tile_cell(final(dst)@, r, c) == (if c < 48 {
                st@[48 * r + c]
            } else {
                pad
            }),
{
    let mut r: usize = 0;
    while r < 80
        invariant
            r <= 80,
            st@.len() == 3840,
            dst@.len() == 5120,
            forall|q: int, c: int|
                0 <= q < r && 0 <= c < 64 ==> #[trigger] tile_cell(dst@, q, c) == (if c < 48 {
                    st@[48 * q + c]
                } else {
                    pad
                }),
        decreases 80 - r,
    {
        let ghost outer = dst@;
        let mut c: usize = 0;
        while c < 64
            invariant
                c <= 64,
                r < 80,
                st@.len() == 3840,
                dst@.len() == 5120,
                outer.len() == 5120,
                forall|k: int| 0 <= k < 64 * r ==> #[trigger] dst@[k] == outer[k],
                forall|d: int|
                    0 <= d < c ==> #[trigger] tile_cell(dst@, r as int, d) == (if d < 48 {
                        st@[48 * r + d]
                    } else {
                        pad
                    }),
            decreases 64 - c,
        {
            let ghost before = dst@;
            dst[64 * r + c] = if c < 48 {
                st[48 * r + c]
            } else {
                pad
            };
            assert forall|d: int| 0 <= d < c + 1 implies #[trigger] tile_cell(dst@, r as int, d)
                == (if d < 48 {
                st@[48 * r + d]
            } else {
                pad
            }) by {
                if d < c {
                    assert(tile_cell(before, r as int, d) == before[64 * r + d]);
                }
            }
            c = c + 1;
        }
        assert forall|q: int, d: int| 0 <= q < r + 1 && 0 <= d < 64 implies #[trigger] tile_cell(
            dst@,
            q,
            d,
        ) == (if d < 48 {
            st@[48 * q + d]
        } else {
            pad
        }) by {
            if q < r {
                assert(tile_cell(outer, q, d) == outer[64 * q + d]);
                assert(dst@[64 * q + d] == outer[64 * q + d]);
            }
        }
        r = r + 1;
    }
}

/// Cell of a mel tile.
pub open spec fn tile_cell(t: Seq<i8>, r: int, c: int) -> i8 {
    t[64 * r + c]
}

/// The first pass computes every frame where it lies in the recording: what
/// is read begins where the chunk's first frame, counted from there, is frame
/// `64 * ci` of the recording, and reaches as far as its first and last
/// frames do, or to the recording's ends. The frames go where the chunk's
/// are.
pub proof fn law_first_pass_computes_each_frame_in_place(ci: int)
    requires
        0 <= ci < 19,
    ensures
        pass1_chunk(ci).len() == 3,
        match (pass1_chunk(ci)[0], pass1_chunk(ci)[1], pass1_chunk(ci)[2]) {
            (
                MelStep::Read { at, dst },
                MelStep::Frames { pcm, n_samples, frame0, n_frames, out },
                MelStep::Write { at: to, src },
            ) => {
                let start = 256 * at;
                &&& dst == pcm && pcm.len == 2 * n_samples
                &&& start + 160 * frame0 == 10240 * ci
                &&& start == 0 || start <= 10240 * ci - 200
                &&& start + n_samples == 192000 || start + n_samples >= 160 * (64 * ci + n_frames
                    - 1) + 200
                &&& start + n_samples <= 192000
                &&& n_frames == (if ci < 18 {
                    64int
                } else {
                    48
                })
                &&& out.off == src.off && out.mem == src.mem && out.len == 320 * n_frames
                &&& out.len <= src.len
                &&& to == 768 + 40 * ci
            },
            _ => false,
        },
{
}

/// The second pass takes, for each tile that was recorded, the means of the
/// frames that the tile holds out of that tile's own chunk, normalises that
/// chunk and nothing else into the tile, and writes the tile to its place.
pub proof fn law_second_pass_takes_each_tile_from_its_chunk(mt: int, rec: int, i: int)
    requires
        0 <= mt < 20,
        0 <= i < pass2_tile(mt, rec).len(),
    ensures
        match pass2_tile(mt, rec)[i] {
            MelStep::Read { at, dst } => at == 768 + 40 * mt && mt < rec && dst.len == 320 * (if mt
                < 18 {
                64int
            } else {
                48
            }),
            MelStep::Means { src, first, frames } => first == 64 * mt && mt < rec && src.len == 320
                * frames && frames == (if mt < 18 {
                64int
            } else {
                48
            }),
            MelStep::Normalize { src, dst, n } => src.len == 4 * n && dst.len == n && mt < rec && n
                == 80 * (if mt < 18 {
                64int
            } else {
                48
            }),
            MelStep::Write { at, src } => at == 1600 + 10 * mt && src.len == 5120 && i
                == pass2_tile(mt, rec).len() - 1,
            _ => true,
        },
        pass2_tile(mt, rec).last() is Write,
        // a recorded tile is read, measured and normalised, any other padded
        mt < rec && mt < 19 ==> pass2_tile(mt, rec)[0] is Read && pass2_tile(mt, rec)[1] is Means
            && pass2_tile(mt, rec)[2] is Normalize,
        mt >= rec || mt >= 19 ==> pass2_tile(mt, rec)[0] is Pad,
{
}

/// Magnitudes do not depend on the sign.
pub proof fn law_magnitude_is_the_distance_from_zero(x: int)
    ensures
        magnitude(x) >= 0,
        magnitude(x) == x || magnitude(x) == -x,
{
}

/// The first pass takes the chunks in order, each whole.
pub proof fn law_first_pass_takes_the_chunks_in_order(n: int, ci: int, k: int)
    requires
        0 <= ci < n,
        0 <= k < 3,
    ensures
        pass1_steps(n).len() == 3 * n,
        pass1_steps(n)[3 * ci + k] == pass1_chunk(ci)[k],
    decreases n,
{
    reveal_with_fuel(pass1_steps, 2);
    if ci < n - 1 {
        law_first_pass_takes_the_chunks_in_order(n - 1, ci, k);
    } else if n > 1 {
        law_first_pass_takes_the_chunks_in_order(n - 1, 0, 0);
    }
}

} // verus!
