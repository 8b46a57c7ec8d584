//! What a phase took: processor time by its parts, traffic, and how far the
//! expansion of the blobs hid behind their transfers.

use vstd::prelude::*;

verus! {

/// Processor cycles in a millisecond.
pub const CYC_PER_MS: u64 = 128_000;

/// Bytes of nibbles in a group of weights.
pub const GROUP_NIBBLES: u64 = 8;

/// Nibbles of a square weight matrix, in KB.
pub const MATRIX_KB: u64 = 72;

/// Whole milliseconds of so many cycles.
pub fn ms(cycles: u64) -> (m: u64)
    ensures
        m == cycles / 128_000,
        128_000 * m <= cycles < 128_000 * (m + 1),
{
    cycles / CYC_PER_MS
}

/// Whole KB of so many bytes.
fn kb(bytes: u64) -> (k: u64)
    ensures
        k == bytes / 1024,
{
    bytes / 1024
}

/// KB and milliseconds of a phase's storage traffic: bytes read, cycles,
/// bytes written, cycles.
pub fn sd_stats(rb: u64, rc: u64, wb: u64, wc: u64) -> (r: (u64, u64, u64, u64))
    ensures
        r == (rb / 1024, rc / 128_000, wb / 1024, wc / 128_000),
{
    (kb(rb), ms(rc), kb(wb), ms(wc))
}

// --- processor time ---------------------------------------------------------------------

/// What the processor spends its time on.
#[derive(Clone, Copy, PartialEq, Eq, Structural, Debug)]
pub enum Part {
    Attention,
    LmHead,
    Unpack,
    Sums,
    Npu,
}

pub open spec fn part_index(p: Part) -> int {
    match p {
        Part::Attention => 0,
        Part::LmHead => 1,
        Part::Unpack => 2,
        Part::Sums => 3,
        Part::Npu => 4,
    }
}

/// Cycles from one reading of a 32-bit counter to a later one, less than one
/// turn of it apart.
pub open spec fn elapsed(t0: u32, now: u32) -> int {
    (now - t0) % 0x1_0000_0000
}

/// Cycles by their part.
#[derive(Clone, Copy, PartialEq, Eq, Debug)]
pub struct Profile {
    pub cyc: [u64; 5],
}

impl Profile {
    pub fn new() -> (p: Profile)
        ensures
            p.cyc@ == Seq::new(5, |i: int| 0u64),
    {
        let p = Profile { cyc: [0u64; 5] };
        assert(p.cyc@ =~= Seq::new(5, |i: int| 0u64));
        p
    }

    /// A piece of work that began at `t0` is through.
    pub fn prof_add(&mut self, part: Part, t0: u32, now: u32)
        requires
            old(self).cyc@[part_index(part)] + elapsed(t0, now) <= u64::MAX,
        ensures
            final(self).cyc@ == old(self).cyc@.update(
                part_index(part),
                (old(self).cyc@[part_index(part)] + elapsed(t0, now)) as u64,
            ),
    {
        let i: usize = match part {
            Part::Attention => 0,
            Part::LmHead => 1,
            Part::Unpack => 2,
            Part::Sums => 3,
            Part::Npu => 4,
        };
        self.cyc[i] = self.cyc[i] + now.wrapping_sub(t0) as u64;
    }

    /// The cycles since the last call.
    pub fn take(&mut self) -> (cyc: [u64; 5])
        ensures
            cyc == old(self).cyc,
            final(self).cyc@ == Seq::new(5, |i: int| 0u64),
    {
        let cyc = self.cyc;
        *self = Profile::new();
        cyc
    }
}

// --- chases -----------------------------------------------------------------------------

/// One chase as it goes.
#[derive(Clone, Copy, PartialEq, Eq, Structural, Debug)]
pub struct Seen {
    /// Bytes that had landed at the first poll.
    pub first: Option<usize>,
    /// Groups expanded before the transfer was through.
    pub early: usize,
    pub polls: u64,
}

impl Seen {
    pub fn new() -> (s: Seen)
        ensures
            s == (Seen { first: None, early: 0, polls: 0 }),
    {
        Seen { first: None, early: 0, polls: 0 }
    }

    /// A poll found `got` bytes, and `groups` are expanded after it.
    pub fn poll(&mut self, done: bool, got: usize, groups: usize)
        requires
            old(self).polls < u64::MAX,
        ensures
            *final(self) == (Seen {
                first: if old(self).first is None {
                    Some(got)
                } else {
                    old(self).first
                },
                early: if done {
                    old(self).early
                } else {
                    groups
                },
                polls: (old(self).polls + 1) as u64,
            }),
    {
        if self.first.is_none() {
            self.first = Some(got);
        }
        if !done {
            self.early = groups;
        }
        self.polls = self.polls + 1;
    }
}

/// The chases since the last report.
#[derive(Clone, Copy, PartialEq, Eq, Structural, Debug)]
pub struct ChaseStats {
    pub blobs: u64,
    /// Bytes landed at the first polls.
    pub first: u64,
    /// Nibble bytes expanded before the transfers were through.
    pub nibbles: u64,
    pub polls: u64,
}

/// The figures of a report, by blob.
#[derive(Clone, Copy, PartialEq, Eq, Structural, Debug)]
pub struct ChaseLine {
    pub blobs: u64,
    pub first_kb: u64,
    pub nibble_kb: u64,
    /// Polls, and their tenths.
    pub polls: u64,
    pub tenths: u64,
}

/// Bytes that had landed at the first poll of a chase.
pub open spec fn first_of(s: Seen) -> int {
    match s.first {
        Some(n) => n as int,
        None => 0,
    }
}

impl ChaseStats {
    pub fn new() -> (s: ChaseStats)
        ensures
            s == (ChaseStats { blobs: 0, first: 0, nibbles: 0, polls: 0 }),
    {
        ChaseStats { blobs: 0, first: 0, nibbles: 0, polls: 0 }
    }

    /// A chase whose transfer went well is over.
    pub fn chased(&mut self, s: Seen)
        requires
            old(self).blobs < u64::MAX,
            old(self).first + first_of(s) <= u64::MAX,
            old(self).nibbles + 8 * s.early <= u64::MAX,
            old(self).polls + s.polls <= u64::MAX,
        ensures
            *final(self) == (ChaseStats {
                blobs: (old(self).blobs + 1) as u64,
                first: (old(self).first + first_of(s)) as u64,
                nibbles: (old(self).nibbles + 8 * s.early) as u64,
                polls: (old(self).polls + s.polls) as u64,
            }),
    {
        let first: u64 = match s.first {
            Some(n) => n as u64,
            None => 0,
        };
        self.blobs = self.blobs + 1;
        self.first = self.first + first;
        self.nibbles = self.nibbles + GROUP_NIBBLES * s.early as u64;
        self.polls = self.polls + s.polls;
    }

    /// The figures since the last call, if there was a chase.
    pub fn chase_stats(&mut self) -> (r: Option<ChaseLine>)
        requires
            10 * old(self).polls <= u64::MAX,
        ensures
            *final(self) == (ChaseStats { blobs: 0, first: 0, nibbles: 0, polls: 0 }),
            r == (if old(self).blobs == 0 {
                None::<ChaseLine>
            } else {
                Some(
                    ChaseLine {
                        blobs: old(self).blobs,
                        first_kb: old(self).first / old(self).blobs / 1024,
                        nibble_kb: old(self).nibbles / old(self).blobs / 1024,
                        polls: old(self).polls / old(self).blobs,
                        tenths: (10 * old(self).polls / old(self).blobs as int % 10) as u64,
                    },
                )
            }),
    {
        let s = *self;
        *self = ChaseStats::new();
        if s.blobs == 0 {
            return None;
        }
        Some(
            ChaseLine {
                blobs: s.blobs,
                first_kb: kb(s.first / s.blobs),
                nibble_kb: kb(s.nibbles / s.blobs),
                polls: s.polls / s.blobs,
                tenths: s.polls * 10 / s.blobs % 10,
            },
        )
    }
}

/// A clock that wraps still measures every time shorter than its period.
pub proof fn law_a_wrapping_clock_measures(t0: u32, d: u32)
    ensures
        elapsed(t0, ((t0 + d) % 0x1_0000_0000) as u32) == d,
{
}

/// Each part of the time has its own place.
pub proof fn law_parts_are_counted_apart(a: Part, b: Part)
    ensures
        part_index(a) == part_index(b) <==> a == b,
        0 <= part_index(a) < 5,
{
}

} // verus!
