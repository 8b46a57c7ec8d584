//! Decoding token by token: the prompt, the sampled tokens, the vocabulary
//! table and the transcript.

use crate::bytes::{get32, le32};
use crate::image::{found, lookup, Entry, E_NO_ASSET, E_SPAN, E_TOKEN, INDEX_BYTES};
use crate::layout::{ARENA_BASE, BLOCK, MAX_TOKENS};
use crate::plan::Plan;
use vstd::prelude::*;
use vstd::string::*;

verus! {

// --- entries ----------------------------------------------------------------------------

/// The entries that a decode reads, apart from the blobs and the constants
/// of its blocks.
#[derive(Clone, Copy, PartialEq, Eq, Structural, Debug)]
pub struct Entries {
    /// Embedding rows.
    pub embf: Entry,
    /// Chunks of the LM head, four-bit, and int8 if the image has them.
    pub embc4: Entry,
    pub embc8: Option<Entry>,
    /// Kept ids.
    pub ids: Entry,
    /// Positional rows.
    pub posd: Entry,
    /// The vocabulary table.
    pub vtb: Entry,
    /// Gain and bias of the final norm.
    pub fin: Entry,
    /// The constants of a block come in one entry.
    pub bundled: bool,
}

/// The entry of this name.
pub open spec fn entry_of(idx: Seq<u8>, name: &str) -> Option<Entry> {
    match found(idx, name.spec_bytes()) {
        Some((e, _)) => Some(e),
        None => None,
    }
}

/// The image has everything that a decode cannot do without.
pub open spec fn decodable(idx: Seq<u8>) -> bool {
    &&& entry_of(idx, "embf") is Some
    &&& entry_of(idx, "embc4") is Some
    &&& entry_of(idx, "embpids") is Some
    &&& entry_of(idx, "posdec") is Some
    &&& entry_of(idx, "vocabtb") is Some
    &&& entry_of(idx, "final_gb.bin") is Some
}

/// The arena is not where the blobs expect it.
pub const E_ARENA: i32 = -910;

/// Whether a decode may run with its arena at `at`: the blobs hold its
/// address.
pub fn arena_in_place(at: u32) -> (r: Result<(), i32>)
    ensures
        r == (if at == ARENA_BASE {
            Ok::<(), i32>(())
        } else {
            Err(E_ARENA)
        }),
{
    if at as usize == ARENA_BASE {
        Ok(())
    } else {
        Err(E_ARENA)
    }
}

impl Entries {
    /// Finds the entries, or says that one is missing.
    pub fn find(idx: &[u8]) -> (r: Result<Entries, i32>)
        requires
            idx@.len() == INDEX_BYTES,
        ensures
            r == (if decodable(idx@) {
                Ok::<Entries, i32>(
                    Entries {
                        embf: entry_of(idx@, "embf")->0,
                        embc4: entry_of(idx@, "embc4")->0,
                        embc8: entry_of(idx@, "embc8"),
                        ids: entry_of(idx@, "embpids")->0,
                        posd: entry_of(idx@, "posdec")->0,
                        vtb: entry_of(idx@, "vocabtb")->0,
                        fin: entry_of(idx@, "final_gb.bin")->0,
                        bundled: entry_of(idx@, "dc0") is Some,
                    },
                )
            } else {
                Err(E_NO_ASSET)
            }),
    {
        let (embf, embc4) = match (
            lookup(idx, "embf".as_bytes()),
            lookup(idx, "embc4".as_bytes()),
        ) {
            (Some(a), Some(b)) => (a, b),
            _ => return Err(E_NO_ASSET),
        };
        let (ids, posd) = match (
            lookup(idx, "embpids".as_bytes()),
            lookup(idx, "posdec".as_bytes()),
        ) {
            (Some(a), Some(b)) => (a, b),
            _ => return Err(E_NO_ASSET),
        };
        let (vtb, fin) = match (
            lookup(idx, "vocabtb".as_bytes()),
            lookup(idx, "final_gb.bin".as_bytes()),
        ) {
            (Some(a), Some(b)) => (a, b),
            _ => return Err(E_NO_ASSET),
        };
        let embc8 = lookup(idx, "embc8".as_bytes());
        let bundled = lookup(idx, "dc0".as_bytes()).is_some();
        Ok(Entries { embf, embc4, embc8, ids, posd, vtb, fin, bundled })
    }
}

// --- small unaligned reads --------------------------------------------------------------

/// Where a small read lies on the storage: whole blocks, and the offset of
/// the wanted bytes in them.
#[derive(Clone, Copy, PartialEq, Eq, Structural, Debug)]
pub struct Window {
    pub lba: u32,
    pub blocks: u32,
    pub skew: usize,
}

/// Blocks that `n` bytes from `byte_off` on touch, counted from the block
/// of the first; none for no bytes at the start of a block.
pub open spec fn window_blocks(byte_off: int, n: int) -> int {
    (byte_off % 512 + n + 511) / 512
}

/// The window of `n` bytes of an entry, two blocks at most.
pub fn sd_read_bytes(e: Entry, byte_off: usize, n: usize) -> (r: Result<Window, i32>)
    requires
        e.lba + byte_off / BLOCK <= u32::MAX,
        byte_off % 512 + n + 511 <= usize::MAX,
    ensures
        match r {
            Ok(w) => {
                &&& window_blocks(byte_off as int, n as int) <= 2
                &&& w.lba == e.lba + byte_off / BLOCK
                &&& w.blocks == window_blocks(byte_off as int, n as int)
                &&& w.skew == byte_off % BLOCK
                &&& w.skew + n <= 1024
            },
            Err(rc) => rc == E_SPAN && window_blocks(byte_off as int, n as int) > 2,
        },
{
    let skew: usize = byte_off % BLOCK;
    let blocks: usize = (skew + n + 511) / BLOCK;
    if blocks > 2 {
        return Err(E_SPAN);
    }
    Ok(Window { lba: e.lba + (byte_off / BLOCK) as u32, blocks: blocks as u32, skew })
}

impl Window {
    /// The wanted bytes out of the blocks that were read.
    pub fn take(&self, bounce: &[u8], dst: &mut [u8])
        requires
            self.skew + old(dst)@.len() <= bounce@.len(),
        ensures
            final(dst)@ == bounce@.subrange(self.skew as int, self.skew + old(dst)@.len()),
    {
        let n: usize = dst.len();
        let total: usize = bounce.len();
        let mut i: usize = 0;
        while i < n
            invariant
                i <= n,
                dst@.len() == n,
                total == bounce@.len(),
                self.skew + n <= total,
                forall|k: int| 0 <= k < i ==> #[trigger] dst@[k] == bounce@[self.skew + k],
            decreases n - i,
        {
            dst[i] = bounce[self.skew + i];
            i = i + 1;
        }
        assert(dst@ =~= bounce@.subrange(self.skew as int, self.skew + n));
    }
}

// --- kept positions ---------------------------------------------------------------------

/// A binary search for a token in the sorted table of kept ids, one read
/// per probe.
#[derive(Clone, Copy, PartialEq, Eq, Structural, Debug)]
pub struct KeptSearch {
    pub token: u32,
    pub lo: usize,
    pub hi: usize,
}

pub open spec fn is_ascending(ids: Seq<u32>) -> bool {
    forall|i: int, j: int| 0 <= i < j < ids.len() ==> ids[i] < ids[j]
}

impl KeptSearch {
    pub open spec fn wf(self) -> bool {
        self.hi <= 0x4000_0000
    }

    /// The token is in none of the places that are out of the search.
    pub open spec fn narrowed(self, ids: Seq<u32>) -> bool {
        &&& self.lo <= self.hi <= ids.len()
        &&& forall|i: int| 0 <= i < self.lo ==> #[trigger] ids[i] < self.token
        &&& forall|i: int| self.hi <= i < ids.len() ==> #[trigger] ids[i] > self.token
    }

    /// Starts on a table of `ids.len` bytes.
    pub fn kept_position(ids: Entry, token: u32) -> (s: KeptSearch)
        ensures
            s == (KeptSearch { token, lo: 0, hi: (ids.len / 4) as usize }),
            s.wf(),
            forall|t: Seq<u32>| t.len() == ids.len / 4 ==> s.narrowed(t),
    {
        KeptSearch { token, lo: 0, hi: (ids.len / 4) as usize }
    }

    /// The place to look at next, or that the token is not kept.
    pub fn probe(&self) -> (r: Result<usize, i32>)
        requires
            self.wf(),
        ensures
            self.lo < self.hi ==> r == Ok::<usize, i32>(((self.lo + self.hi) / 2) as usize),
            self.lo >= self.hi ==> r == Err::<usize, i32>(E_TOKEN),
            r matches Ok(mid) ==> self.lo <= mid < self.hi,
    {
        if self.lo < self.hi {
            Ok((self.lo + self.hi) / 2)
        } else {
            Err(E_TOKEN)
        }
    }

    /// The id at the probed place: the position if it is the token's.
    pub fn answer(&mut self, v: u32) -> (r: Option<usize>)
        requires
            old(self).wf(),
            old(self).lo < old(self).hi,
        ensures
            final(self).wf(),
            final(self).token == old(self).token,
            ({
                let mid = (old(self).lo + old(self).hi) / 2;
                &&& r == (if v == old(self).token {
                    Some(mid as usize)
                } else {
                    None::<usize>
                })
                &&& r is None ==> final(self).hi - final(self).lo < old(self).hi - old(self).lo
                &&& forall|ids: Seq<u32>|
                    is_ascending(ids) && old(self).narrowed(ids) && ids[mid] == v && r is None
                        ==> #[trigger] final(self).narrowed(ids)
            }),
    {
        let mid: usize = (self.lo + self.hi) / 2;
        if v == self.token {
            return Some(mid);
        }
        if v < self.token {
            self.lo = mid + 1;
        } else {
            self.hi = mid;
        }
        None
    }
}

/// A search that has nothing left to look at is right: the token is not in
/// the table.
pub proof fn law_an_empty_search_is_right(s: KeptSearch, ids: Seq<u32>, i: int)
    requires
        s.narrowed(ids),
        s.lo >= s.hi,
        0 <= i < ids.len(),
    ensures
        ids[i] != s.token,
{
    if i < s.lo {
        assert(ids[i] < s.token);
    } else {
        assert(ids[i] > s.token);
    }
}

// --- the vocabulary table ---------------------------------------------------------------

/// Longest text piece that is taken over.
pub const PIECE_MAX: usize = 48;

/// Offset of the two words that bound a kept token's text.
pub fn piece_offsets_at(kept_pos: usize) -> (o: usize)
    requires
        4 + 4 * kept_pos <= usize::MAX,
    ensures
        o == 4 + 4 * kept_pos,
{
    4 + kept_pos * 4
}

/// A text piece in the vocabulary table.
#[derive(Clone, Copy, PartialEq, Eq, Structural, Debug)]
pub struct Piece {
    pub at: usize,
    pub len: usize,
}

/// Where a piece lies, from the two offset words: strings start behind the
/// string count and its `n_off + 1` offsets.
pub fn piece_span(n_off: usize, offs: &[u8]) -> (p: Piece)
    requires
        offs@.len() >= 8,
        le32(offs@, 0) <= le32(offs@, 4),
        4 + 4 * (n_off + 1) + le32(offs@, 0) <= usize::MAX,
    ensures
        p.at == 4 + 4 * (n_off + 1) + le32(offs@, 0),
        p.len == (if le32(offs@, 4) - le32(offs@, 0) < PIECE_MAX {
            le32(offs@, 4) - le32(offs@, 0)
        } else {
            PIECE_MAX as int
        }),
{
    let o0: usize = get32(offs, 0) as usize;
    let o1: usize = get32(offs, 4) as usize;
    let n: usize = o1 - o0;
    let len: usize = if n < PIECE_MAX {
        n
    } else {
        PIECE_MAX
    };
    Piece { at: 4 + (n_off + 1) * 4 + o0, len }
}

// --- text buffers -----------------------------------------------------------------------

/// What fits of `piece` behind `have` in `cap` bytes.
pub open spec fn appended(have: Seq<u8>, piece: Seq<u8>, cap: int) -> Seq<u8> {
    have + piece.take(
        if piece.len() <= cap - have.len() {
            piece.len() as int
        } else {
            cap - have.len()
        },
    )
}

/// The running transcript, cut off when it is full.
pub struct Transcript {
    pub buf: [u8; 256],
    pub len: usize,
}

impl Transcript {
    pub open spec fn wf(self) -> bool {
        self.len <= 256
    }

    pub open spec fn view(&self) -> Seq<u8> {
        self.buf@.subrange(0, self.len as int)
    }

    pub fn new() -> (t: Transcript)
        ensures
            t.wf(),
            t@ == Seq::<u8>::empty(),
    {
        let t = Transcript { buf: [0u8; 256], len: 0 };
        assert(t@ =~= Seq::<u8>::empty());
        t
    }

    /// Appends a token's text.
    pub fn append_token(&mut self, piece: &[u8])
        requires
            old(self).wf(),
        ensures
            final(self).wf(),
            final(self)@ == appended(old(self)@, piece@, 256),
    {
        let ghost before = self@;
        let room: usize = 256 - self.len;
        let n: usize = piece.len();
        let count: usize = if n < room {
            n
        } else {
            room
        };
        let start: usize = self.len;
        let mut i: usize = 0;
        while i < count
            invariant
                i <= count,
                count <= n,
                n == piece@.len(),
                start + count <= 256,
                before.len() == start,
                self.len == start,
                forall|k: int| 0 <= k < start ==> #[trigger] self.buf@[k] == before[k],
                forall|k: int| 0 <= k < i ==> self.buf@[start + k] == #[trigger] piece@[k],
            decreases count - i,
        {
            self.buf[start + i] = piece[i];
            i = i + 1;
        }
        self.len = start + count;
        assert(self@ =~= appended(before, piece@, 256)) by {
            assert forall|k: int| 0 <= k < self@.len() implies self@[k] == appended(
                before,
                piece@,
                256,
            )[k] by {
                if k >= start {
                    assert(piece@[k - start] == self.buf@[start + (k - start)]);
                }
            }
        }
    }

    /// The text so far.
    pub fn text(&self) -> (b: &[u8])
        requires
            self.wf(),
        ensures
            b@ == self@,
    {
        let s = self.buf.as_slice();
        vstd::slice::slice_subrange(s, 0, self.len)
    }
}

/// One formatted line for the display, cut off when it is full.
pub struct OledLine {
    pub b: [u8; 48],
    pub n: usize,
}

impl OledLine {
    pub open spec fn wf(self) -> bool {
        self.n <= 48
    }

    pub open spec fn view(&self) -> Seq<u8> {
        self.b@.subrange(0, self.n as int)
    }

    pub fn new() -> (l: OledLine)
        ensures
            l.wf(),
            l@ == Seq::<u8>::empty(),
    {
        let l = OledLine { b: [0u8; 48], n: 0 };
        assert(l@ =~= Seq::<u8>::empty());
        l
    }

    /// Appends formatted text.
    pub fn write(&mut self, s: &[u8])
        requires
            old(self).wf(),
        ensures
            final(self).wf(),
            final(self)@ == appended(old(self)@, s@, 48),
    {
        let ghost before = self@;
        let room: usize = 48 - self.n;
        let n: usize = s.len();
        let count: usize = if n < room {
            n
        } else {
            room
        };
        let start: usize = self.n;
        let mut i: usize = 0;
        while i < count
            invariant
                i <= count,
                count <= n,
                n == s@.len(),
                start + count <= 48,
                before.len() == start,
                self.n == start,
                forall|k: int| 0 <= k < start ==> #[trigger] self.b@[k] == before[k],
                forall|k: int| 0 <= k < i ==> self.b@[start + k] == #[trigger] s@[k],
            decreases count - i,
        {
            self.b[start + i] = s[i];
            i = i + 1;
        }
        self.n = start + count;
        assert(self@ =~= appended(before, s@, 48)) by {
            assert forall|k: int| 0 <= k < self@.len() implies self@[k] == appended(
                before,
                s@,
                48,
            )[k] by {
                if k >= start {
                    assert(s@[k - start] == self.b@[start + (k - start)]);
                }
            }
        }
    }

    pub fn text(&self) -> (b: &[u8])
        requires
            self.wf(),
        ensures
            b@ == self@,
    {
        let s = self.b.as_slice();
        vstd::slice::slice_subrange(s, 0, self.n)
    }
}

/// Milliseconds from the end of speech to the transcript: processing since
/// the capture ended at `end`, and for live audio the tail that was still
/// recorded. The clock wraps.
pub fn latency(live: bool, tail: u32, end: u32, now: u32) -> (ms: u32)
    requires
        live ==> tail + (now - end) % 0x1_0000_0000 <= u32::MAX,
    ensures
        ms == (now - end) % 0x1_0000_0000 + (if live {
            tail as int
        } else {
            0
        }),
{
    let processing: u32 = now.wrapping_sub(end);
    if live {
        tail + processing
    } else {
        processing
    }
}

// --- the token loop ---------------------------------------------------------------------

/// What follows the four blocks of a step.
#[derive(Clone, Copy, PartialEq, Eq, Structural, Debug)]
pub enum AfterBlocks {
    /// The prompt goes on.
    Feed,
    /// Sample; `first` suppresses blanks.
    Sample { first: bool },
}

/// What follows a sampled token.
#[derive(Clone, Copy, PartialEq, Eq, Structural, Debug)]
pub enum AfterSample {
    /// The end token: the transcript is complete.
    Done,
    /// Its text was appended, and the cache is full.
    Full,
    /// Its text was appended, and it is fed next.
    Feed,
}

/// The decode loop between steps.
#[derive(Clone, Copy, PartialEq, Eq, Structural, Debug)]
pub struct Decode {
    /// Steps done, and the tokens in the cache.
    pub step: usize,
    /// The token that is fed next.
    pub token: u32,
    /// Tokens whose text was appended.
    pub printed: usize,
}

/// A prompt that the plan can hold.
pub open spec fn prompt_fits(plan: Plan) -> bool {
    1 <= plan.n_sot <= 4
}

/// After the blocks of a step: while the prompt lasts, its next token is
/// fed; after it, a token is sampled.
pub open spec fn blocks_next(plan: Plan, d: Decode) -> (Decode, AfterBlocks) {
    let next = Decode { step: (d.step + 1) as usize, ..d };
    if d.step < plan.n_sot - 1 {
        (Decode { token: plan.sot[d.step + 1], ..next }, AfterBlocks::Feed)
    } else {
        (next, AfterBlocks::Sample { first: d.step == plan.n_sot - 1 })
    }
}

/// After a sampled token.
pub open spec fn sample_next(plan: Plan, d: Decode, best: u32) -> (Decode, AfterSample) {
    if best == plan.eot {
        (d, AfterSample::Done)
    } else {
        (
            Decode { token: best, printed: (d.printed + 1) as usize, ..d },
            if d.step >= MAX_TOKENS {
                AfterSample::Full
            } else {
                AfterSample::Feed
            },
        )
    }
}

impl Decode {
    /// The cache has room for this step's column.
    pub open spec fn wf(self) -> bool {
        self.step < MAX_TOKENS
    }

    pub fn new(plan: &Plan) -> (d: Decode)
        requires
            prompt_fits(*plan),
        ensures
            d.wf(),
            d == (Decode { step: 0, token: plan.sot[0], printed: 0 }),
    {
        Decode { step: 0, token: plan.sot[0], printed: 0 }
    }

    /// The blocks of a step are through.
    pub fn blocks_done(&mut self, plan: &Plan) -> (a: AfterBlocks)
        requires
            old(self).wf(),
            prompt_fits(*plan),
        ensures
            (*final(self), a) == blocks_next(*plan, *old(self)),
            a == AfterBlocks::Feed ==> final(self).wf(),
    {
        let step: usize = self.step;
        self.step = step + 1;
        if step < plan.n_sot - 1 {
            self.token = plan.sot[step + 1];
            AfterBlocks::Feed
        } else {
            AfterBlocks::Sample { first: step == plan.n_sot - 1 }
        }
    }

    /// A token was sampled; unless it is the end token, `piece` is its text.
    pub fn sampled(
        &mut self,
        plan: &Plan,
        best: u32,
        piece: &[u8],
        transcript: &mut Transcript,
    ) -> (a: AfterSample)
        requires
            1 <= old(self).step <= MAX_TOKENS,
            old(self).printed < old(self).step,
            old(transcript).wf(),
        ensures
            final(transcript).wf(),
            (*final(self), a) == sample_next(*plan, *old(self), best),
            final(transcript)@ == (if best == plan.eot {
                old(transcript)@
            } else {
                appended(old(transcript)@, piece@, 256)
            }),
            a == AfterSample::Feed ==> final(self).wf(),
    {
        if best == plan.eot {
            return AfterSample::Done;
        }
        transcript.append_token(piece);
        self.printed = self.printed + 1;
        self.token = best;
        if self.step >= MAX_TOKENS {
            AfterSample::Full
        } else {
            AfterSample::Feed
        }
    }
}

/// One round of the loop in which `best` is what a sample gives, if one is
/// taken; none if the decode is over with it.
pub open spec fn round(plan: Plan, d: Decode, best: u32) -> Option<Decode> {
    match blocks_next(plan, d) {
        (n, AfterBlocks::Feed) => Some(n),
        (n, AfterBlocks::Sample { .. }) => match sample_next(plan, n, best) {
            (m, AfterSample::Feed) => Some(m),
            _ => None,
        },
    }
}

/// The loop after `n` rounds, unless it is over by then.
pub open spec fn after_rounds(plan: Plan, samples: Seq<u32>, n: int) -> Option<Decode>
    decreases n,
{
    if n <= 0 {
        Some(Decode { step: 0, token: plan.sot[0], printed: 0 })
    } else {
        match after_rounds(plan, samples, n - 1) {
            None => None,
            Some(d) => round(plan, d, samples[n - 1]),
        }
    }
}

/// A decode ends, whatever is sampled: it goes on only while the cache has
/// room. Until it ends it has fed the prompt and then every sampled token,
/// one a round.
pub proof fn law_decoding_ends(plan: Plan, samples: Seq<u32>, n: int)
    requires
        prompt_fits(plan),
        0 <= n,
    ensures
        n >= MAX_TOKENS ==> after_rounds(plan, samples, n) is None,
        after_rounds(plan, samples, n) matches Some(d) ==> {
            &&& d.wf()
            &&& d.step == n
            &&& d.token == (if n < plan.n_sot {
                plan.sot[n]
            } else {
                samples[n - 1]
            })
            &&& d.printed == (if n < plan.n_sot {
                0
            } else {
                n - plan.n_sot + 1
            })
        },
    decreases n,
{
    if n > 0 {
        law_decoding_ends(plan, samples, n - 1);
    }
}

/// The blocks of a window hold the wanted bytes, and no fewer would.
pub proof fn law_a_window_holds_the_bytes(byte_off: int, n: int)
    requires
        0 <= byte_off,
        1 <= n,
    ensures
        ({
            let first = byte_off / 512;
            let last = (byte_off + n - 1) / 512;
            window_blocks(byte_off, n) == last - first + 1
        }),
{
}

/// A text buffer keeps the beginning of everything that was put into it, as
/// much as it has room for.
pub proof fn law_a_buffer_keeps_the_beginning(have: Seq<u8>, piece: Seq<u8>, cap: int)
    requires
        have.len() <= cap,
    ensures
        ({
            let all = have + piece;
            let kept = appended(have, piece, cap);
            &&& kept.len() == (if all.len() < cap {
                all.len() as int
            } else {
                cap
            })
            &&& kept == all.take(kept.len() as int)
        }),
{
    let all = have + piece;
    let kept = appended(have, piece, cap);
    assert(kept =~= all.take(kept.len() as int));
}

/// The prompt is fed first, sampling begins behind it, and only the first
/// sample is told so.
pub proof fn law_only_the_first_sample_is_the_first(plan: Plan, samples: Seq<u32>, n: int)
    requires
        prompt_fits(plan),
        0 <= n,
        after_rounds(plan, samples, n) is Some,
    ensures
        match blocks_next(plan, after_rounds(plan, samples, n)->0).1 {
            AfterBlocks::Feed => n + 1 < plan.n_sot,
            AfterBlocks::Sample { first } => n + 1 >= plan.n_sot && (first <==> n + 1
                == plan.n_sot),
        },
        // a sample ends the decode if and only if it is the end token or the
        // cache is full
        n + 1 >= plan.n_sot ==> (round(
            plan,
            after_rounds(plan, samples, n)->0,
            samples[n],
        ) is None <==> samples[n] == plan.eot || n + 1 >= 32),
{
    law_decoding_ends(plan, samples, n);
}

} // verus!
