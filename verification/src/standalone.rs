//! The board on its own: from power-up to a first utterance, and the
//! phases of an utterance.

use crate::bytes::{get32, le32};
use crate::image::{
    blocks_of, entry_blocks, found, has_magic, img_magic, lookup, Entry, E_NO_ASSET, INDEX_BYTES,
};
use crate::layout::{ARENA_BASE, ARENA_BYTES, BLOCK, CTX, INTERLAYER_BYTES, N_TILES};
use crate::layout::{SLOT_BASE, SLOT_BYTES, S_END};
use crate::plan::Plan;
use crate::storage::{route_of, settled, Backend, Storage, E_BUSY};
use vstd::prelude::*;
use vstd::string::*;

verus! {

// --- power-up ---------------------------------------------------------------------------

/// Reads of the index before the image is given up.
pub const INDEX_TRIES: u32 = 3;

/// Blocks of the index.
pub const INDEX_BLOCKS: u32 = 16;

/// Why the board stays with its mailbox.
#[derive(Clone, Copy, PartialEq, Eq, Structural, Debug)]
pub enum Why {
    NoStorage,
    NoImage,
    BadPlan,
    /// The image was linked for another build.
    Stale,
}

/// What the power-up does next.
#[derive(Clone, Copy, PartialEq, Eq, Structural, Debug)]
pub enum Boot {
    /// Bring the storage up.
    Storage,
    /// Read the index; half a second goes by after each try that fails.
    Index { attempt: u32 },
    /// Read the plan.
    Plan(Entry),
    /// Read the addresses that the image was linked against.
    Fwid(Entry),
    /// Load the sums, hold the NPU, and begin.
    Ready,
    /// Serve the mailbox.
    Mailbox(Why),
}

/// After the storage came up, or failed with a code.
pub open spec fn after_storage(rc: i32) -> Boot {
    if rc == 0 {
        Boot::Index { attempt: 0 }
    } else {
        Boot::Mailbox(Why::NoStorage)
    }
}

/// After a read of the index.
pub open spec fn after_index(attempt: u32, rc: i32, idx: Seq<u8>) -> Boot {
    if rc != 0 {
        if attempt + 1 < INDEX_TRIES {
            Boot::Index { attempt: (attempt + 1) as u32 }
        } else {
            Boot::Mailbox(Why::NoImage)
        }
    } else if idx.take(8) != img_magic() {
        Boot::Mailbox(Why::NoImage)
    } else {
        match found(idx, "plan".spec_bytes()) {
            Some((e, _)) => if e.len <= 2048 {
                Boot::Plan(e)
            } else {
                Boot::Mailbox(Why::BadPlan)
            },
            None => Boot::Mailbox(Why::BadPlan),
        }
    }
}

/// After a plan was read, good or not.
pub open spec fn after_plan(good: bool, idx: Seq<u8>) -> Boot {
    if !good {
        Boot::Mailbox(Why::BadPlan)
    } else {
        match found(idx, "fwid".spec_bytes()) {
            Some((e, _)) => Boot::Fwid(e),
            None => Boot::Ready,
        }
    }
}

/// After the linked addresses were read; ones that cannot be read are not
/// held against the image.
pub open spec fn after_fwid(rc: i32, b: Seq<u8>, interlayer: u32, psum: u32) -> Boot {
    if rc == 0 && (le32(b, 0) != interlayer || le32(b, 4) != psum) {
        Boot::Mailbox(Why::Stale)
    } else {
        Boot::Ready
    }
}

/// The power-up, step by step.
#[derive(Clone, Copy, PartialEq, Eq, Structural, Debug)]
pub struct PowerUp {
    pub at: Boot,
}

impl PowerUp {
    pub fn run() -> (p: PowerUp)
        ensures
            p.at == Boot::Storage,
    {
        PowerUp { at: Boot::Storage }
    }

    pub fn storage_done(&mut self, rc: i32)
        requires
            old(self).at == Boot::Storage,
        ensures
            final(self).at == after_storage(rc),
    {
        self.at = if rc == 0 {
            Boot::Index { attempt: 0 }
        } else {
            Boot::Mailbox(Why::NoStorage)
        };
    }

    pub fn index_read(&mut self, rc: i32, idx: &[u8])
        requires
            old(self).at is Index,
            old(self).at->attempt < INDEX_TRIES,
            idx@.len() == INDEX_BYTES,
        ensures
            final(self).at == after_index(old(self).at->attempt, rc, idx@),
    {
        if let Boot::Index { attempt } = self.at {
            if rc != 0 {
                self.at = if attempt + 1 < INDEX_TRIES {
                    Boot::Index { attempt: attempt + 1 }
                } else {
                    Boot::Mailbox(Why::NoImage)
                };
                return;
            }
        }
        if !has_magic(idx) {
            self.at = Boot::Mailbox(Why::NoImage);
            return;
        }
        self.at = match Plan::locate(idx) {
            Ok(e) => Boot::Plan(e),
            Err(_) => Boot::Mailbox(Why::BadPlan),
        };
    }

    /// The plan was read with code `rc` into its buffer.
    pub fn plan_read(&mut self, rc: i32, buf: &[u8], idx: &[u8]) -> (p: Option<Plan>)
        requires
            old(self).at is Plan,
            buf@.len() == crate::plan::PLAN_BYTES,
            idx@.len() == INDEX_BYTES,
        ensures
            ({
                let good = rc == 0 && le32(buf@, 0) == crate::image::PLAN_MAGIC && le32(buf@, 4)
                    == 1;
                &&& final(self).at == after_plan(good, idx@)
                &&& p is Some <==> good
                &&& p matches Some(x) ==> crate::plan::is_plan(x, buf@)
            }),
    {
        if rc != 0 {
            self.at = Boot::Mailbox(Why::BadPlan);
            return None;
        }
        match Plan::load(buf) {
            Err(_) => {
                self.at = Boot::Mailbox(Why::BadPlan);
                None
            },
            Ok(p) => {
                self.at = match lookup(idx, "fwid".as_bytes()) {
                    Some(e) => Boot::Fwid(e),
                    None => Boot::Ready,
                };
                Some(p)
            },
        }
    }

    /// The first eight bytes of the linked addresses were read with code
    /// `rc`; this build's buffers are at `interlayer` and `psum`.
    pub fn fwid_read(&mut self, rc: i32, b: &[u8], interlayer: u32, psum: u32)
        requires
            old(self).at is Fwid,
            b@.len() >= 8,
        ensures
            final(self).at == after_fwid(rc, b@, interlayer, psum),
    {
        self.at = if rc == 0 && (get32(b, 0) != interlayer || get32(b, 4) != psum) {
            Boot::Mailbox(Why::Stale)
        } else {
            Boot::Ready
        };
    }
}

/// The board begins only on an image that is one, with a plan, and that was
/// not linked for another build.
pub proof fn law_only_a_good_image_begins(
    rc: i32,
    attempt: u32,
    irc: i32,
    idx: Seq<u8>,
    good: bool,
    frc: i32,
    b: Seq<u8>,
    interlayer: u32,
    psum: u32,
)
    requires
        after_storage(rc) is Index,
        after_index(attempt, irc, idx) is Plan,
        after_plan(good, idx) == Boot::Ready || (after_plan(good, idx) is Fwid && after_fwid(
            frc,
            b,
            interlayer,
            psum,
        ) == Boot::Ready),
    ensures
        rc == 0,
        irc == 0,
        idx.take(8) == img_magic(),
        good,
        found(idx, "fwid".spec_bytes()) is Some && frc == 0 ==> le32(b, 0) == interlayer && le32(
            b,
            4,
        ) == psum,
{
}

// --- an utterance -----------------------------------------------------------------------

/// A streaming recording lost audio.
pub const E_OVERRUN: i32 = -908;

/// Where the audio comes from.
#[derive(Clone, Copy, PartialEq, Eq, Structural, Debug)]
pub enum Source {
    /// Already in the scratch area.
    Injected,
    /// The microphone, with the mel computed meanwhile.
    Stream,
    /// The microphone, with the mel computed afterwards.
    Sequential,
}

#[derive(Clone, Copy, PartialEq, Eq, Structural, Debug)]
pub enum Phase {
    /// Wait for a transfer that an aborted utterance left pending. Its
    /// result counts for nothing.
    Settle,
    /// Look for injected audio, which decides the phases that follow.
    Marker,
    /// Record until a window is loud enough, and stop there.
    MicCheck,
    Record,
    RecordMel,
    MelTables,
    MelPass1,
    MelPass2,
    Encoder,
    CrossKv,
    Decode,
}

/// The phases of an utterance.
pub open spec fn phases_of(s: Source) -> Seq<Phase> {
    (match s {
        Source::Injected => seq![Phase::MelTables, Phase::MelPass1],
        Source::Stream => seq![Phase::RecordMel],
        Source::Sequential => seq![Phase::Record, Phase::MelTables, Phase::MelPass1],
    }) + seq![Phase::MelPass2, Phase::Encoder, Phase::CrossKv, Phase::Decode]
}

/// What a build of the firmware does with an utterance.
#[derive(Clone, Copy, PartialEq, Eq, Structural, Debug)]
pub enum Build {
    /// All of it.
    Whole,
    /// The microphone alone.
    MicCheck,
    /// The decoder alone, on the cross keys and values that the last whole
    /// run left in the scratch area.
    DecodeOnly,
}

/// What follows an utterance.
#[derive(Clone, Copy, PartialEq, Eq, Structural, Debug)]
pub enum After {
    /// The next one.
    Next,
    /// The next one, after a second.
    Retry,
    /// Serve the mailbox.
    Mailbox,
}

/// The phases that an utterance opens with; `busy` says that a transfer is
/// pending.
pub open spec fn opening_of(build: Build, busy: bool) -> Seq<Phase> {
    (if busy {
        seq![Phase::Settle]
    } else {
        Seq::empty()
    }) + seq![
        match build {
            Build::Whole => Phase::Marker,
            Build::MicCheck => Phase::MicCheck,
            Build::DecodeOnly => Phase::Decode,
        },
    ]
}

/// Opens an utterance.
pub fn opening(build: Build, busy: bool) -> (v: Vec<Phase>)
    ensures
        v@ == opening_of(build, busy),
{
    let mut v: Vec<Phase> = Vec::new();
    if busy {
        v.push(Phase::Settle);
    }
    v.push(
        match build {
            Build::Whole => Phase::Marker,
            Build::MicCheck => Phase::MicCheck,
            Build::DecodeOnly => Phase::Decode,
        },
    );
    assert(v@ =~= opening_of(build, busy));
    v
}

/// What follows an utterance that went well or was aborted. A build that
/// does a part of it does so once.
pub fn after(build: Build, ok: bool) -> (a: After)
    ensures
        a == (if build != Build::Whole {
            After::Mailbox
        } else if ok {
            After::Next
        } else {
            After::Retry
        }),
{
    match build {
        Build::Whole => if ok {
            After::Next
        } else {
            After::Retry
        },
        _ => After::Mailbox,
    }
}

/// The storage when the phases up to `n` of an opening are through.
pub open spec fn opened(ph: Seq<Phase>, n: int, s: Storage, rc: i32) -> Storage
    decreases n,
{
    if n <= 0 {
        s
    } else {
        let before = opened(ph, n - 1, s, rc);
        if ph[n - 1] == Phase::Settle {
            settled(before, rc)
        } else {
            before
        }
    }
}

/// Whatever an utterance before left pending, the first phase that calls the
/// storage for something new is not refused as busy.
pub proof fn law_an_utterance_finds_the_storage_free(build: Build, s: Storage, rc: i32)
    ensures
        ({
            let ph = opening_of(build, s.pending);
            let first = ph.len() - 1;
            &&& forall|i: int| 0 <= i < first ==> ph[i] == Phase::Settle
            &&& ph[first] != Phase::Settle
            &&& route_of(opened(ph, first, s, rc)) != Err::<Backend, i32>(E_BUSY)
        }),
{
    reveal_with_fuel(opened, 2);
}

/// What lasts from one utterance to the next.
#[derive(Clone, Copy, PartialEq, Eq, Structural, Debug)]
pub struct Session {
    /// Streaming has kept up so far.
    pub stream_ok: bool,
}

impl Session {
    pub fn new() -> (s: Session)
        ensures
            s.stream_ok,
    {
        Session { stream_ok: true }
    }

    /// The source and the phases of the next utterance.
    pub fn utterance(&self, injected: bool) -> (r: (Source, Vec<Phase>))
        ensures
            r.0 == (if injected {
                Source::Injected
            } else if self.stream_ok {
                Source::Stream
            } else {
                Source::Sequential
            }),
            r.1@ == phases_of(r.0),
    {
        let s = if injected {
            Source::Injected
        } else if self.stream_ok {
            Source::Stream
        } else {
            Source::Sequential
        };
        let mut v: Vec<Phase> = Vec::new();
        match s {
            Source::Injected => {
                v.push(Phase::MelTables);
                v.push(Phase::MelPass1);
            },
            Source::Stream => {
                v.push(Phase::RecordMel);
            },
            Source::Sequential => {
                v.push(Phase::Record);
                v.push(Phase::MelTables);
                v.push(Phase::MelPass1);
            },
        }
        v.push(Phase::MelPass2);
        v.push(Phase::Encoder);
        v.push(Phase::CrossKv);
        v.push(Phase::Decode);
        assert(v@ =~= phases_of(s));
        (s, v)
    }

    /// A streaming recording is over. One that lost audio is discarded, and
    /// no later one streams.
    pub fn recorded(&mut self, overruns: u32) -> (r: Result<(), i32>)
        ensures
            r == (if overruns > 0 {
                Err::<(), i32>(E_OVERRUN)
            } else {
                Ok(())
            }),
            final(self).stream_ok == (old(self).stream_ok && overruns == 0),
    {
        if overruns > 0 {
            self.stream_ok = false;
            return Err(E_OVERRUN);
        }
        Ok(())
    }
}

/// Every utterance ends with the same phases, in the same order.
pub proof fn law_phases_share_their_end(s: Source)
    ensures
        phases_of(s).len() >= 4,
        phases_of(s).skip(phases_of(s).len() - 4) == seq![
            Phase::MelPass2,
            Phase::Encoder,
            Phase::CrossKv,
            Phase::Decode,
        ],
{
    assert(phases_of(s).skip(phases_of(s).len() - 4) =~= seq![
        Phase::MelPass2,
        Phase::Encoder,
        Phase::CrossKv,
        Phase::Decode,
    ]);
}

// --- an utterance's context -------------------------------------------------------------

/// The scratch area, the blob in the slot, and the extent of the utterance.
#[derive(Clone, Copy, PartialEq, Eq, Structural, Debug)]
pub struct Ctxt {
    pub scratch: u32,
    pub loaded: Entry,
    pub tiles: usize,
    pub ctx: usize,
}

/// A transfer of whole blocks.
#[derive(Clone, Copy, PartialEq, Eq, Structural, Debug)]
pub struct Blocks {
    pub lba: u32,
    pub count: u32,
}

impl Ctxt {
    /// The scratch area ends inside of the device's addresses.
    pub open spec fn wf(self) -> bool {
        self.scratch + S_END <= u32::MAX
    }

    pub fn new(scratch: u32) -> (c: Ctxt)
        ensures
            c == (Ctxt {
                scratch,
                loaded: (Entry { lba: 0, len: 0 }),
                tiles: N_TILES,
                ctx: CTX,
            }),
    {
        Ctxt { scratch, loaded: Entry { lba: 0, len: 0 }, tiles: N_TILES, ctx: CTX }
    }

    /// Block address of a byte offset in a region of the scratch area.
    pub fn lba(&self, region: u32, byte_off: usize) -> (b: u32)
        requires
            self.wf(),
            region + byte_off / BLOCK <= S_END,
        ensures
            b == self.scratch + region + byte_off / BLOCK,
    {
        self.scratch + region + (byte_off / BLOCK) as u32
    }

    /// The blocks that hold `len` bytes from a byte offset in a region on.
    pub fn blocks(&self, region: u32, byte_off: usize, len: usize) -> (b: Blocks)
        requires
            self.wf(),
            region + byte_off / BLOCK <= S_END,
            len / BLOCK <= S_END,
        ensures
            b.lba == self.scratch + region + byte_off / BLOCK,
            b.count == len / BLOCK,
    {
        Blocks { lba: self.lba(region, byte_off), count: (len / BLOCK) as u32 }
    }

    /// Where a whole named asset is, and its blocks.
    pub fn asset(&self, idx: &[u8], name: &[u8]) -> (r: Result<(Entry, Blocks), i32>)
        requires
            idx@.len() == INDEX_BYTES,
        ensures
            match found(idx@, name@) {
                None => r == Err::<(Entry, Blocks), i32>(E_NO_ASSET),
                Some((e, _)) => r == Ok::<(Entry, Blocks), i32>(
                    (e, Blocks { lba: e.lba, count: blocks_of(e.len as int) as u32 }),
                ),
            },
    {
        match lookup(idx, name) {
            None => Err(E_NO_ASSET),
            Some(e) => Ok((e, Blocks { lba: e.lba, count: entry_blocks(e) })),
        }
    }
}

/// Address of an arena offset.
pub fn arena_addr(off: usize) -> (a: u32)
    requires
        off <= ARENA_BYTES,
    ensures
        a == ARENA_BASE + off,
{
    (ARENA_BASE + off) as u32
}

/// Address of `len` bytes of the slot.
pub fn slot_at(off: usize, len: usize) -> (a: u32)
    requires
        off + len <= SLOT_BYTES,
    ensures
        a == SLOT_BASE + off,
        a + len <= SLOT_BASE + SLOT_BYTES,
{
    (SLOT_BASE + off) as u32
}

/// Address of `len` bytes of the interlayer buffer, which is at `base`.
pub fn interlayer_at(base: u32, off: usize, len: usize) -> (a: u32)
    requires
        off + len <= INTERLAYER_BYTES,
        base + INTERLAYER_BYTES <= u32::MAX,
    ensures
        a == base + off,
        a + len <= base + INTERLAYER_BYTES,
{
    base + off as u32
}

/// Whatever the source, the mel is computed before it is normalised, and only
/// a source that listens records.
pub proof fn law_a_source_brings_its_mel(s: Source)
    ensures
        phases_of(s).contains(Phase::Record) || phases_of(s).contains(Phase::RecordMel) <==> s
            != Source::Injected,
        phases_of(s).contains(Phase::RecordMel) <==> !phases_of(s).contains(Phase::MelPass1),
        ({
            let n = phases_of(s).len();
            &&& phases_of(s)[n - 4] == Phase::MelPass2
            &&& phases_of(s)[n - 5] == (if s == Source::Stream {
                Phase::RecordMel
            } else {
                Phase::MelPass1
            })
            &&& s == Source::Sequential ==> phases_of(s)[0] == Phase::Record
        }),
{
    let p = phases_of(s);
    match s {
        Source::Injected => {
            assert(p[1] == Phase::MelPass1);
        },
        Source::Stream => {
            assert(p[0] == Phase::RecordMel);
        },
        Source::Sequential => {
            assert(p[0] == Phase::Record && p[2] == Phase::MelPass1);
        },
    }
}

} // verus!
