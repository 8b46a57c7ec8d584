//! Looking at a card's bus from outside: a monitor of line activity, a
//! sniffer that decodes bytes, and a tester that talks to a card by hand.

use crate::hal::spim::byte_of_levels;
use crate::image::{has_magic, img_magic};
use crate::sd::{reset_ops, Answer, Op};
use vstd::prelude::*;

verus! {

/// The four lines at one moment.
#[derive(Clone, Copy, PartialEq, Eq, Structural, Debug)]
pub struct Levels {
    pub sck: bool,
    pub miso: bool,
    pub mosi: bool,
    pub cs: bool,
}

/// The lines in the order that reports name them.
#[derive(Clone, Copy, PartialEq, Eq, Structural, Debug)]
pub enum Wire {
    Sck,
    Miso,
    Mosi,
    Cs,
}

impl Levels {
    /// The lines out of an input register: bits 4 to 7.
    pub fn of(word: u32) -> (l: Levels)
        ensures
            l == (Levels {
                sck: word / 16 % 2 == 1,
                miso: word / 32 % 2 == 1,
                mosi: word / 64 % 2 == 1,
                cs: word / 128 % 2 == 1,
            }),
    {
        Levels {
            sck: word / 16 % 2 == 1,
            miso: word / 32 % 2 == 1,
            mosi: word / 64 % 2 == 1,
            cs: word / 128 % 2 == 1,
        }
    }

    pub open spec fn at(self, w: Wire) -> bool {
        match w {
            Wire::Sck => self.sck,
            Wire::Miso => self.miso,
            Wire::Mosi => self.mosi,
            Wire::Cs => self.cs,
        }
    }

    pub fn get(&self, w: Wire) -> (b: bool)
        ensures
            b == self.at(w),
    {
        match w {
            Wire::Sck => self.sck,
            Wire::Miso => self.miso,
            Wire::Mosi => self.mosi,
            Wire::Cs => self.cs,
        }
    }
}

// --- activity ---------------------------------------------------------------------------

/// Edges of a line in the first `n` samples.
pub open spec fn edges(v: Seq<Levels>, w: Wire, n: int) -> int
    decreases n,
{
    if n <= 1 {
        0
    } else {
        edges(v, w, n - 1) + (if v[n - 1].at(w) != v[n - 2].at(w) {
            1int
        } else {
            0
        })
    }
}

/// Counts the edges of a line.
pub fn edge_count(v: &[Levels], w: Wire) -> (c: u32)
    requires
        v@.len() <= u32::MAX,
    ensures
        c == edges(v@, w, v@.len() as int),
        c <= v@.len(),
{
    let mut c: u32 = 0;
    let mut i: usize = 1;
    while i < v.len()
        invariant
            1 <= i,
            v@.len() <= u32::MAX,
            v@.len() >= 1 ==> i <= v@.len(),
            v@.len() == 0 ==> i == 1,
            c < i,
            c == edges(v@, w, i as int),
        decreases v@.len() - i,
    {
        if v[i].get(w) != v[i - 1].get(w) {
            c = c + 1;
        }
        i = i + 1;
    }
    c
}

/// Samples among the first `n` in which a line is low.
pub open spec fn lows(v: Seq<Levels>, w: Wire, n: int) -> int
    decreases n,
{
    if n <= 0 {
        0
    } else {
        lows(v, w, n - 1) + (if v[n - 1].at(w) {
            0int
        } else {
            1
        })
    }
}

/// Counts the samples in which a line is low.
pub fn low_count(v: &[Levels], w: Wire) -> (c: u32)
    requires
        v@.len() <= u32::MAX,
    ensures
        c == lows(v@, w, v@.len() as int),
        c <= v@.len(),
{
    let mut c: u32 = 0;
    let mut i: usize = 0;
    while i < v.len()
        invariant
            i <= v@.len() <= u32::MAX,
            c <= i,
            c == lows(v@, w, i as int),
        decreases v@.len() - i,
    {
        if !v[i].get(w) {
            c = c + 1;
        }
        i = i + 1;
    }
    c
}

/// The share of `samples` in percent that `low` are.
pub fn percent(low: u32, samples: u32) -> (p: u32)
    ensures
        p == low as int / (if samples / 100 == 0 {
            1
        } else {
            samples as int / 100
        }),
{
    let hundredth: u32 = samples / 100;
    if hundredth == 0 {
        low
    } else {
        low / hundredth
    }
}

/// A line's edges and low samples, counted as they come.
#[derive(Clone, Copy, PartialEq, Eq, Structural, Debug)]
pub struct Activity {
    pub edges: u32,
    pub lows: u32,
}

/// The lines over a stretch of time.
#[derive(Clone, Copy, PartialEq, Eq, Structural, Debug)]
pub struct Monitor {
    pub prev: Levels,
    pub samples: u32,
    pub sck: Activity,
    pub miso: Activity,
    pub mosi: Activity,
    pub cs: Activity,
}

/// A line's counts after one more sample.
pub open spec fn counted(a: Activity, was: bool, level: bool) -> Activity {
    Activity {
        edges: (a.edges + (if level != was {
            1int
        } else {
            0
        })) as u32,
        lows: (a.lows + (if level {
            0int
        } else {
            1
        })) as u32,
    }
}

/// The counts after one more sample.
pub open spec fn watched(m: Monitor, l: Levels) -> Monitor {
    Monitor {
        prev: l,
        samples: (m.samples + 1) as u32,
        sck: counted(m.sck, m.prev.sck, l.sck),
        miso: counted(m.miso, m.prev.miso, l.miso),
        mosi: counted(m.mosi, m.prev.mosi, l.mosi),
        cs: counted(m.cs, m.prev.cs, l.cs),
    }
}

/// The counts after the first `n` samples of `v`, where the lines were at
/// `first` before.
pub open spec fn watched_all(first: Levels, v: Seq<Levels>, n: int) -> Monitor
    decreases n,
{
    if n <= 0 {
        let none = Activity { edges: 0, lows: 0 };
        Monitor { prev: first, samples: 0, sck: none, miso: none, mosi: none, cs: none }
    } else {
        watched(watched_all(first, v, n - 1), v[n - 1])
    }
}

fn count(a: Activity, was: bool, level: bool) -> (r: Activity)
    requires
        a.edges < u32::MAX,
        a.lows < u32::MAX,
    ensures
        r == counted(a, was, level),
{
    Activity {
        edges: if level != was {
            a.edges + 1
        } else {
            a.edges
        },
        lows: if level {
            a.lows
        } else {
            a.lows + 1
        },
    }
}

impl Monitor {
    /// No line has more edges or low samples than there were samples.
    pub open spec fn wf(self) -> bool {
        &&& forall|w: Wire| (#[trigger] self.of_line(w)).edges <= self.samples
        &&& forall|w: Wire| (#[trigger] self.of_line(w)).lows <= self.samples
    }

    pub open spec fn of_line(self, w: Wire) -> Activity {
        match w {
            Wire::Sck => self.sck,
            Wire::Miso => self.miso,
            Wire::Mosi => self.mosi,
            Wire::Cs => self.cs,
        }
    }

    /// Begins with the lines at these levels.
    pub fn new(first: Levels) -> (m: Monitor)
        ensures
            m.wf(),
            m == watched_all(first, Seq::empty(), 0),
    {
        let none = Activity { edges: 0, lows: 0 };
        Monitor { prev: first, samples: 0, sck: none, miso: none, mosi: none, cs: none }
    }

    /// Takes a sample in.
    pub fn sample(&mut self, l: Levels)
        requires
            old(self).wf(),
            old(self).samples < u32::MAX,
        ensures
            final(self).wf(),
            *final(self) == watched(*old(self), l),
    {
        assert(self.of_line(Wire::Sck) == self.sck);
        assert(self.of_line(Wire::Miso) == self.miso);
        assert(self.of_line(Wire::Mosi) == self.mosi);
        assert(self.of_line(Wire::Cs) == self.cs);
        let m = Monitor {
            prev: l,
            samples: self.samples + 1,
            sck: count(self.sck, self.prev.sck, l.sck),
            miso: count(self.miso, self.prev.miso, l.miso),
            mosi: count(self.mosi, self.prev.mosi, l.mosi),
            cs: count(self.cs, self.prev.cs, l.cs),
        };
        *self = m;
    }

    /// Whether any line has moved.
    pub fn active(&self) -> (b: bool)
        ensures
            b == exists|w: Wire| (#[trigger] self.of_line(w)).edges > 0,
    {
        proof {
            assert(self.of_line(Wire::Sck) == self.sck);
            assert(self.of_line(Wire::Miso) == self.miso);
            assert(self.of_line(Wire::Mosi) == self.mosi);
            assert(self.of_line(Wire::Cs) == self.cs);
        }
        self.sck.edges > 0 || self.miso.edges > 0 || self.mosi.edges > 0 || self.cs.edges > 0
    }
}

/// Counting as the samples come gives what counting a recording of them
/// does: the edges of the recording that starts with the first levels, and
/// the low samples of the rest.
pub proof fn law_monitor_counts_the_recording(first: Levels, v: Seq<Levels>, w: Wire, n: int)
    requires
        0 <= n <= v.len() < u32::MAX,
    ensures
        watched_all(first, v, n).samples == n,
        watched_all(first, v, n).of_line(w).edges == edges(seq![first] + v, w, n + 1),
        watched_all(first, v, n).of_line(w).lows == lows(v, w, n),
        0 <= edges(seq![first] + v, w, n + 1) <= n,
        0 <= lows(v, w, n) <= n,
        watched_all(first, v, n).prev == (seq![first] + v)[n],
    decreases n,
{
    if n > 0 {
        law_monitor_counts_the_recording(first, v, w, n - 1);
        let all = seq![first] + v;
        assert(all[n] == v[n - 1]);
        let m = watched_all(first, v, n - 1);
        assert(m.prev == all[n - 1]);
        match w {
            Wire::Sck => {},
            Wire::Miso => {},
            Wire::Mosi => {},
            Wire::Cs => {},
        }
    }
}

// --- recording --------------------------------------------------------------------------

/// Transitions that a recording holds.
pub const CAP: usize = 16384;

/// Waits for the card to be selected: high first, then low.
#[derive(Clone, Copy, PartialEq, Eq, Structural, Debug)]
pub struct Arm {
    pub seen_high: bool,
}

impl Arm {
    pub fn new() -> (a: Arm)
        ensures
            a == (Arm { seen_high: false }),
    {
        Arm { seen_high: false }
    }

    /// Takes the level of the select line in; true at its falling edge.
    pub fn sample(&mut self, cs: bool) -> (fell: bool)
        ensures
            fell == (old(self).seen_high && !cs),
            final(self).seen_high == (old(self).seen_high || cs),
    {
        if cs {
            self.seen_high = true;
            return false;
        }
        self.seen_high
    }
}

/// Cycles per microsecond, out of the cycles that 100 ms took.
pub fn calibrate(before: u32, after: u32) -> (c: u32)
    ensures
        c == (after - before) % 0x1_0000_0000 / 100_000,
{
    after.wrapping_sub(before) / 100_000
}

/// Cycles of an idle second.
pub fn idle_limit(cyc_per_us: u32) -> (c: u32)
    requires
        cyc_per_us * 1_000_000 <= u32::MAX,
    ensures
        c == cyc_per_us * 1_000_000,
{
    cyc_per_us * 1_000_000
}

/// What a recorder has: the transitions, the levels as they are, and since
/// when the card has been deselected.
pub struct Recorded {
    pub ts: Seq<u32>,
    pub val: Seq<Levels>,
    pub prev: Levels,
    pub high_since: Option<u32>,
    pub over: bool,
}

/// The recorder after a sample at time `t`. It is over if a transition finds
/// no room, or if the card has been deselected for longer than `limit`.
pub open spec fn record_of(r: Recorded, limit: u32, t: u32, l: Levels) -> Recorded {
    if r.over {
        r
    } else if l != r.prev && r.ts.len() >= CAP {
        Recorded { over: true, ..r }
    } else {
        let (ts, val) = if l != r.prev {
            (r.ts.push(t), r.val.push(l))
        } else {
            (r.ts, r.val)
        };
        Recorded {
            ts,
            val,
            prev: l,
            high_since: if !l.cs {
                None
            } else if r.high_since is None {
                Some(t)
            } else {
                r.high_since
            },
            over: l.cs && (r.high_since matches Some(s) && (t - s) % 0x1_0000_0000 > limit),
        }
    }
}

/// Records the transitions of the lines.
pub struct Recorder {
    pub ts: Vec<u32>,
    pub val: Vec<Levels>,
    pub prev: Levels,
    pub high_since: Option<u32>,
    pub over: bool,
    pub limit: u32,
}

impl Recorder {
    pub open spec fn view(&self) -> Recorded {
        Recorded {
            ts: self.ts@,
            val: self.val@,
            prev: self.prev,
            high_since: self.high_since,
            over: self.over,
        }
    }

    pub open spec fn wf(&self) -> bool {
        &&& self.ts@.len() == self.val@.len()
        &&& 1 <= self.ts@.len() <= CAP
        &&& self.val@.last() == self.prev
        &&& moves(self.val@)
    }

    /// Begins with the lines at these levels, at time 0.
    pub fn new(first: Levels, limit: u32) -> (r: Recorder)
        ensures
            r.wf(),
            r.limit == limit,
            r@.ts == seq![0u32],
            r@.val == seq![first],
            r@.prev == first,
            r@.high_since is None,
            !r@.over,
    {
        let ts: Vec<u32> = vec![0];
        let val: Vec<Levels> = vec![first];
        assert(ts@ =~= seq![0u32] && val@ =~= seq![first]);
        Recorder { ts, val, prev: first, high_since: None, over: false, limit }
    }

    /// Takes a sample in; says whether the recording goes on.
    pub fn sample(&mut self, t: u32, l: Levels) -> (goes_on: bool)
        requires
            old(self).wf(),
        ensures
            final(self).wf(),
            final(self).limit == old(self).limit,
            final(self)@ == record_of(old(self)@, old(self).limit, t, l),
            goes_on == !final(self)@.over,
    {
        if self.over {
            return false;
        }
        if l != self.prev {
            if self.ts.len() >= CAP {
                self.over = true;
                return false;
            }
            self.ts.push(t);
            self.val.push(l);
            self.prev = l;
        }
        if l.cs {
            match self.high_since {
                None => {
                    self.high_since = Some(t);
                },
                Some(s) => {
                    if t.wrapping_sub(s) > self.limit {
                        self.over = true;
                    }
                },
            }
        } else {
            self.high_since = None;
        }
        !self.over
    }
}

/// Every entry of a recording differs from the one before it.
pub open spec fn moves(v: Seq<Levels>) -> bool {
    forall|i: int| 0 < i < v.len() ==> #[trigger] v[i] != v[i - 1]
}

// --- clock ------------------------------------------------------------------------------

/// Half periods of the clock, in cycles.
#[derive(Clone, Copy, PartialEq, Eq, Structural, Debug)]
pub struct Halves {
    /// The last edge, if there was one.
    pub last: Option<u32>,
    pub min: u32,
    pub max: u32,
    pub sum: u64,
    pub count: u32,
}

/// The half periods after an edge at time `t`.
pub open spec fn edge_at(h: Halves, t: u32) -> Halves {
    match h.last {
        None => Halves { last: Some(t), ..h },
        Some(p) => {
            let d = ((t - p) % 0x1_0000_0000) as u32;
            Halves {
                last: Some(t),
                min: if d < h.min {
                    d
                } else {
                    h.min
                },
                max: if d > h.max {
                    d
                } else {
                    h.max
                },
                sum: (h.sum + d) as u64,
                count: (h.count + 1) as u32,
            }
        },
    }
}

/// The half periods of the first `n` samples.
pub open spec fn halves_of(ts: Seq<u32>, v: Seq<Levels>, n: int) -> Halves
    decreases n,
{
    if n <= 1 {
        Halves { last: None, min: u32::MAX, max: 0, sum: 0, count: 0 }
    } else {
        let h = halves_of(ts, v, n - 1);
        if v[n - 1].sck != v[n - 2].sck {
            edge_at(h, ts[n - 1])
        } else {
            h
        }
    }
}

/// Measures the clock: shortest, longest and summed half periods.
pub fn half_periods(ts: &[u32], v: &[Levels]) -> (h: Halves)
    requires
        ts@.len() == v@.len(),
        v@.len() <= u32::MAX,
    ensures
        h == halves_of(ts@, v@, v@.len() as int),
{
    let mut h = Halves { last: None, min: u32::MAX, max: 0, sum: 0, count: 0 };
    let mut i: usize = 1;
    while i < v.len()
        invariant
            1 <= i,
            ts@.len() == v@.len(),
            v@.len() <= u32::MAX,
            v@.len() >= 1 ==> i <= v@.len(),
            v@.len() == 0 ==> i == 1,
            h == halves_of(ts@, v@, i as int),
            h.count < i,
            h.sum <= 0xFFFF_FFFF * i,
        decreases v@.len() - i,
    {
        if v[i].sck != v[i - 1].sck {
            let t: u32 = ts[i];
            match h.last {
                None => {
                    h.last = Some(t);
                },
                Some(p) => {
                    let d: u32 = t.wrapping_sub(p);
                    h.last = Some(t);
                    if d < h.min {
                        h.min = d;
                    }
                    if d > h.max {
                        h.max = d;
                    }
                    h.sum = h.sum + d as u64;
                    h.count = h.count + 1;
                },
            }
        }
        i = i + 1;
    }
    h
}

impl Halves {
    /// The average half period: the low word of the sum, spread over the
    /// halves.
    pub fn average(&self) -> (a: u32)
        requires
            self.count > 0,
        ensures
            a == (self.sum as int % 0x1_0000_0000) / self.count as int,
    {
        let low: u32 = (self.sum % 0x1_0000_0000) as u32;
        low / self.count
    }
}

/// Cycles in microseconds, whole and in hundredths.
pub fn micros(d: u32, cyc_per_us: u32) -> (r: (u32, u32))
    requires
        cyc_per_us <= 42_949_673,
    ensures
        ({
            let c = if cyc_per_us == 0 {
                1
            } else {
                cyc_per_us as int
            };
            r.0 == d as int / c && r.1 == (d as int % c) * 100 / c
        }),
{
    let c: u32 = if cyc_per_us == 0 {
        1
    } else {
        cyc_per_us
    };
    (d / c, (d % c) * 100 / c)
}

// --- bytes ------------------------------------------------------------------------------

/// What a decoded line shows.
#[derive(Clone, Copy, PartialEq, Eq, Structural, Debug)]
pub enum Mark {
    Byte(u8),
    /// Bits that made no byte before the card was deselected.
    Bits(u32),
    Release,
    Line,
    /// The rest is left out.
    More,
}

/// Marks in a report at most.
pub const MARKS_MAX: u32 = 400;

/// Marks in a line of a report.
pub const MARKS_LINE: u32 = 24;

/// A line being decoded.
#[derive(Clone, Copy, PartialEq, Eq, Structural, Debug)]
pub struct Decoder {
    pub shift: u32,
    pub bits: u32,
    pub printed: u32,
    pub was_high: bool,
    pub stopped: bool,
}

/// What the decoder makes of a sample `cur` behind `prev`, where `level` is
/// the data line's.
pub open spec fn decoded(d: Decoder, clock_rises: bool, cs: bool, level: bool) -> (
    Decoder,
    Seq<Mark>,
) {
    if d.stopped {
        (d, Seq::empty())
    } else if cs {
        if d.was_high {
            (d, Seq::empty())
        } else {
            (
                Decoder {
                    shift: if d.bits != 0 {
                        0u32
                    } else {
                        d.shift
                    },
                    bits: 0,
                    printed: (d.printed + 1) as u32,
                    was_high: true,
                    stopped: false,
                },
                if d.bits != 0 {
                    seq![Mark::Bits(d.bits), Mark::Release]
                } else {
                    seq![Mark::Release]
                },
            )
        }
    } else {
        let (a, m) = if clock_rises {
            let s = (2 * d.shift + (if level {
                1int
            } else {
                0
            })) as u32;
            if d.bits == 7 {
                (
                    Decoder {
                        shift: 0,
                        bits: 0,
                        printed: (d.printed + 1) as u32,
                        was_high: false,
                        stopped: false,
                    },
                    seq![Mark::Byte(s as u8)],
                )
            } else {
                (
                    Decoder {
                        shift: s,
                        bits: (d.bits + 1) as u32,
                        was_high: false,
                        ..d
                    },
                    Seq::empty(),
                )
            }
        } else {
            (Decoder { was_high: false, ..d }, Seq::empty())
        };
        let (b, n) = if a.printed > 0 && a.printed % MARKS_LINE == 0 {
            (Decoder { printed: (a.printed + 1) as u32, ..a }, m.push(Mark::Line))
        } else {
            (a, m)
        };
        if b.printed > MARKS_MAX {
            (Decoder { stopped: true, ..b }, n.push(Mark::More))
        } else {
            (b, n)
        }
    }
}

impl Decoder {
    pub open spec fn wf(self) -> bool {
        &&& self.bits < 8
        &&& self.shift < 128
        &&& self.bits == 0 ==> self.shift == 0
        &&& self.bits == 1 ==> self.shift < 2
        &&& self.bits == 2 ==> self.shift < 4
        &&& self.bits == 3 ==> self.shift < 8
        &&& self.bits == 4 ==> self.shift < 16
        &&& self.bits == 5 ==> self.shift < 32
        &&& self.bits == 6 ==> self.shift < 64
        &&& self.printed <= 0x7FFF_FFFF
    }

    pub fn new() -> (d: Decoder)
        ensures
            d == (Decoder { shift: 0, bits: 0, printed: 0, was_high: true, stopped: false }),
            d.wf(),
    {
        Decoder { shift: 0, bits: 0, printed: 0, was_high: true, stopped: false }
    }

    /// Takes a sample in.
    pub fn sample(&mut self, clock_rises: bool, cs: bool, level: bool) -> (m: Vec<Mark>)
        requires
            old(self).wf(),
            old(self).printed < 0x7FFF_FFF0,
        ensures
            final(self).wf(),
            final(self).printed <= old(self).printed + 2,
            *final(self) == decoded(*old(self), clock_rises, cs, level).0,
            m@ == decoded(*old(self), clock_rises, cs, level).1,
    {
        let ghost d0 = *self;
        let mut m: Vec<Mark> = Vec::new();
        if self.stopped {
            return m;
        }
        if cs {
            if !self.was_high {
                if self.bits != 0 {
                    m.push(Mark::Bits(self.bits));
                    self.bits = 0;
                    self.shift = 0;
                }
                m.push(Mark::Release);
                self.printed = self.printed + 1;
                self.was_high = true;
            }
            assert(m@ =~= decoded(d0, clock_rises, cs, level).1);
            return m;
        }
        self.was_high = false;
        if clock_rises {
            let bit: u32 = if level {
                1
            } else {
                0
            };
            self.shift = 2 * self.shift + bit;
            if self.bits == 7 {
                m.push(Mark::Byte(self.shift as u8));
                self.printed = self.printed + 1;
                self.shift = 0;
                self.bits = 0;
            } else {
                self.bits = self.bits + 1;
            }
        }
        if self.printed > 0 && self.printed % MARKS_LINE == 0 {
            m.push(Mark::Line);
            self.printed = self.printed + 1;
        }
        if self.printed > MARKS_MAX {
            m.push(Mark::More);
            self.stopped = true;
        }
        assert(m@ =~= decoded(d0, clock_rises, cs, level).1);
        m
    }
}

/// The decoder after the data levels of some clocks, the card selected.
pub open spec fn clocked(d: Decoder, levels: Seq<bool>) -> Decoder
    decreases levels.len(),
{
    if levels.len() == 0 {
        d
    } else {
        decoded(clocked(d, levels.drop_last()), true, false, levels.last()).0
    }
}

/// Eight clocks from a byte's start decode to the byte whose bits the
/// levels are.
pub proof fn law_eight_clocks_make_a_byte(levels: Seq<bool>)
    requires
        levels.len() == 8,
    ensures
        ({
            let d = Decoder { shift: 0, bits: 0, printed: 0, was_high: true, stopped: false };
            let before = clocked(d, levels.drop_last());
            decoded(before, true, false, levels.last()).1 == seq![
                Mark::Byte(byte_of_levels(levels) as u8),
            ]
        }),
{
    let d = Decoder { shift: 0, bits: 0, printed: 0, was_high: true, stopped: false };
    let head = levels.drop_last();
    lemma_clocks(head);
    let s = byte_of_levels(head);
    assert(byte_of_levels(levels) == 2 * s + (if levels.last() {
        1int
    } else {
        0
    }));
    assert(decoded(clocked(d, head), true, false, levels.last()).1 =~= seq![
        Mark::Byte(byte_of_levels(levels) as u8),
    ]);
}

/// The largest value of `n` bits, plus one.
pub open spec fn span(n: int) -> int {
    if n <= 0 {
        1
    } else if n == 1 {
        2
    } else if n == 2 {
        4
    } else if n == 3 {
        8
    } else if n == 4 {
        16
    } else if n == 5 {
        32
    } else if n == 6 {
        64
    } else {
        128
    }
}

proof fn lemma_clocks(levels: Seq<bool>)
    requires
        levels.len() <= 7,
    ensures
        ({
            let d = Decoder { shift: 0, bits: 0, printed: 0, was_high: true, stopped: false };
            let e = clocked(d, levels);
            &&& e.bits == levels.len()
            &&& e.shift == byte_of_levels(levels)
            &&& 0 <= byte_of_levels(levels) < span(levels.len() as int)
            &&& e.printed == 0
            &&& !e.stopped
        }),
    decreases levels.len(),
{
    if levels.len() > 0 {
        lemma_clocks(levels.drop_last());
    }
}

// --- a tester ---------------------------------------------------------------------------

/// The code of an attempt that failed.
pub const T_FAIL: i32 = -1;

/// Bytes in which the tester looks for a response, and for a data token.
pub const TESTER_R1_BYTES: u32 = 16;

pub const TESTER_TOKEN_BYTES: u32 = 100_000;

/// Tries of the start command in the tester.
pub const TESTER_STARTS: u32 = 2000;

#[derive(Clone, Copy, PartialEq, Eq, Structural, Debug)]
pub enum TestState {
    Probing(u32),
    Version,
    Echo,
    Prefix { v2: bool, tries: u32 },
    Start { late: bool, count: u32 },
    Ocr,
    OcrBytes,
    ReadCommand,
    Token,
    Over,
}

/// What follows an answer in the tester. The end comes with 0 for a pass.
pub open spec fn test_next(st: TestState, a: Answer) -> (TestState, Seq<Op>) {
    match (st, a) {
        (TestState::Probing(tries), Answer::Byte(r)) => if r == 0x01 {
            (TestState::Version, seq![Op::Command { cmd: 8, arg: 0x1AA, crc: 0x87 }])
        } else if tries < 8 {
            (
                TestState::Probing((tries + 1) as u32),
                seq![Op::Deselect, Op::Clocks(1)] + reset_ops(false),
            )
        } else {
            (TestState::Over, seq![Op::Deselect, Op::Clocks(1), Op::Deselect, Op::End(T_FAIL)])
        },
        (TestState::Version, Answer::Byte(r)) => if r == 0x01 {
            (TestState::Echo, seq![Op::Receive4])
        } else {
            (
                TestState::Prefix { v2: false, tries: 0 },
                seq![Op::Command { cmd: 55, arg: 0, crc: 0xFF }],
            )
        },
        (TestState::Echo, Answer::Four(_, _, _, _)) => (
            TestState::Prefix { v2: true, tries: 0 },
            seq![Op::Command { cmd: 55, arg: 0, crc: 0xFF }],
        ),
        (TestState::Prefix { v2, tries }, Answer::Byte(_)) => (
            TestState::Start { late: v2, count: tries },
            seq![
                Op::Command {
                    cmd: 41,
                    arg: if v2 {
                        0x4000_0000u32
                    } else {
                        0u32
                    },
                    crc: 0xFF,
                },
            ],
        ),
        (TestState::Start { late, count }, Answer::Byte(r)) => if r == 0 {
            (TestState::Ocr, seq![Op::Command { cmd: 58, arg: 0, crc: 0xFF }])
        } else if r != 0x01 || count + 1 > TESTER_STARTS {
            (TestState::Over, seq![Op::Deselect, Op::End(T_FAIL)])
        } else {
            (
                TestState::Prefix { v2: late, tries: (count + 1) as u32 },
                seq![Op::Command { cmd: 55, arg: 0, crc: 0xFF }],
            )
        },
        (TestState::Ocr, Answer::Byte(_)) => (TestState::OcrBytes, seq![Op::Receive4]),
        (TestState::OcrBytes, Answer::Four(_, _, _, _)) => (
            TestState::ReadCommand,
            seq![Op::Command { cmd: 17, arg: 0, crc: 0xFF }],
        ),
        (TestState::ReadCommand, Answer::Byte(r)) => if r != 0 {
            (TestState::Over, seq![Op::Deselect, Op::End(T_FAIL)])
        } else {
            (TestState::Token, seq![Op::AwaitToken])
        },
        (TestState::Token, Answer::Byte(b)) => if b != 0xFE {
            (TestState::Over, seq![Op::Deselect, Op::End(T_FAIL)])
        } else {
            (
                TestState::Over,
                seq![Op::ReceiveBlock(0), Op::Deselect, Op::Clocks(1), Op::End(0)],
            )
        },
        _ => (st, Seq::empty()),
    }
}

/// The answer is of the kind that the tester waits for.
pub open spec fn test_answers(st: TestState, a: Answer) -> bool {
    match st {
        TestState::Echo | TestState::OcrBytes => a is Four,
        TestState::Over => false,
        _ => a is Byte,
    }
}

/// One attempt at a card.
#[derive(Clone, Copy, PartialEq, Eq, Structural, Debug)]
pub struct Attempt {
    pub st: TestState,
}

fn push_reset(v: &mut Vec<Op>)
    ensures
        final(v)@ == old(v)@ + reset_ops(false),
{
    let ghost start = v@;
    v.push(Op::Select);
    v.push(Op::Clocks(1));
    v.push(Op::Command { cmd: 0, arg: 0, crc: 0x95 });
    assert(v@ =~= start + reset_ops(false));
}

impl Attempt {
    pub open spec fn wf(self) -> bool {
        match self.st {
            TestState::Probing(n) => 1 <= n <= 8,
            TestState::Prefix { tries, .. } => tries <= TESTER_STARTS,
            TestState::Start { count, .. } => count <= TESTER_STARTS,
            _ => true,
        }
    }

    pub fn attempt() -> (r: (Attempt, Vec<Op>))
        ensures
            r.0.wf(),
            r.0.st == TestState::Probing(1),
            r.1@ == seq![Op::Deselect, Op::Clocks(20)] + reset_ops(false),
    {
        let mut v: Vec<Op> = vec![Op::Deselect, Op::Clocks(20)];
        assert(v@ =~= seq![Op::Deselect, Op::Clocks(20)]);
        push_reset(&mut v);
        (Attempt { st: TestState::Probing(1) }, v)
    }

    /// Takes an answer in.
    pub fn next(&mut self, a: Answer) -> (v: Vec<Op>)
        requires
            old(self).wf(),
            test_answers(old(self).st, a),
        ensures
            final(self).wf(),
            final(self).st == test_next(old(self).st, a).0,
            v@ == test_next(old(self).st, a).1,
    {
        let mut v: Vec<Op> = Vec::new();
        let ghost st0 = self.st;
        match (self.st, a) {
            (TestState::Probing(tries), Answer::Byte(r)) => {
                if r == 0x01 {
                    self.st = TestState::Version;
                    v.push(Op::Command { cmd: 8, arg: 0x1AA, crc: 0x87 });
                } else if tries < 8 {
                    self.st = TestState::Probing(tries + 1);
                    v.push(Op::Deselect);
                    v.push(Op::Clocks(1));
                    assert(v@ =~= seq![Op::Deselect, Op::Clocks(1)]);
                    push_reset(&mut v);
                } else {
                    self.st = TestState::Over;
                    v.push(Op::Deselect);
                    v.push(Op::Clocks(1));
                    v.push(Op::Deselect);
                    v.push(Op::End(T_FAIL));
                }
            },
            (TestState::Version, Answer::Byte(r)) => {
                if r == 0x01 {
                    self.st = TestState::Echo;
                    v.push(Op::Receive4);
                } else {
                    self.st = TestState::Prefix { v2: false, tries: 0 };
                    v.push(Op::Command { cmd: 55, arg: 0, crc: 0xFF });
                }
            },
            (TestState::Echo, Answer::Four(_, _, _, _)) => {
                self.st = TestState::Prefix { v2: true, tries: 0 };
                v.push(Op::Command { cmd: 55, arg: 0, crc: 0xFF });
            },
            (TestState::Prefix { v2, tries }, Answer::Byte(_)) => {
                self.st = TestState::Start { late: v2, count: tries };
                let arg: u32 = if v2 {
                    0x4000_0000
                } else {
                    0
                };
                v.push(Op::Command { cmd: 41, arg, crc: 0xFF });
            },
            (TestState::Start { late, count }, Answer::Byte(r)) => {
                if r == 0 {
                    self.st = TestState::Ocr;
                    v.push(Op::Command { cmd: 58, arg: 0, crc: 0xFF });
                } else if r != 0x01 || count + 1 > TESTER_STARTS {
                    self.st = TestState::Over;
                    v.push(Op::Deselect);
                    v.push(Op::End(T_FAIL));
                } else {
                    self.st = TestState::Prefix { v2: late, tries: count + 1 };
                    v.push(Op::Command { cmd: 55, arg: 0, crc: 0xFF });
                }
            },
            (TestState::Ocr, Answer::Byte(_)) => {
                self.st = TestState::OcrBytes;
                v.push(Op::Receive4);
            },
            (TestState::OcrBytes, Answer::Four(_, _, _, _)) => {
                self.st = TestState::ReadCommand;
                v.push(Op::Command { cmd: 17, arg: 0, crc: 0xFF });
            },
            (TestState::ReadCommand, Answer::Byte(r)) => {
                if r != 0 {
                    self.st = TestState::Over;
                    v.push(Op::Deselect);
                    v.push(Op::End(T_FAIL));
                } else {
                    self.st = TestState::Token;
                    v.push(Op::AwaitToken);
                }
            },
            (TestState::Token, Answer::Byte(b)) => {
                self.st = TestState::Over;
                if b != 0xFE {
                    v.push(Op::Deselect);
                    v.push(Op::End(T_FAIL));
                } else {
                    v.push(Op::ReceiveBlock(0));
                    v.push(Op::Deselect);
                    v.push(Op::Clocks(1));
                    v.push(Op::End(0));
                }
            },
            _ => {},
        }
        assert(v@ =~= test_next(st0, a).1);
        v
    }
}

/// Answers that a tester still takes at most.
pub open spec fn answers_left(st: TestState) -> int {
    match st {
        TestState::Probing(n) => 5000 - n,
        TestState::Version => 4900,
        TestState::Echo => 4800,
        TestState::Prefix { tries, .. } => 2 * (TESTER_STARTS - tries) + 102,
        TestState::Start { count, .. } => 2 * (TESTER_STARTS - count) + 101,
        TestState::Ocr => 4,
        TestState::OcrBytes => 3,
        TestState::ReadCommand => 2,
        TestState::Token => 1,
        TestState::Over => 0,
    }
}

/// Whatever a card answers, an attempt ends: every answer brings it nearer
/// its end. The end comes once, with the card deselected, and it is a pass
/// only behind a block.
pub proof fn law_an_attempt_ends(t: Attempt, a: Answer)
    requires
        t.wf(),
        test_answers(t.st, a),
    ensures
        ({
            let (st, ops) = test_next(t.st, a);
            &&& 0 <= answers_left(st) < answers_left(t.st)
            &&& st is Over <==> ops.last() is End
            &&& st is Over ==> ops.contains(Op::Deselect)
            &&& ops.last() == Op::End(0) ==> ops[0] == Op::ReceiveBlock(0)
            &&& forall|i: int| 0 <= i < ops.len() - 1 ==> !(#[trigger] ops[i] is End)
        }),
{
    let (st, ops) = test_next(t.st, a);
    assert(ops.len() >= 1);
    if st is Over {
        assert(ops[0] == Op::Deselect || ops[1] == Op::Deselect);
    }
}

/// Whether the first block of a card is a model image's.
pub fn is_image(block: &[u8]) -> (b: bool)
    requires
        block@.len() >= 8,
    ensures
        b == (block@.take(8) == img_magic()),
{
    has_magic(block)
}

/// Between two edges lies the time that the clock counted, however it
/// wrapped; the shortest, the longest and the sum take it in.
pub proof fn law_an_edge_closes_a_half_period(h: Halves, p: u32, d: u32)
    requires
        h.last == Some(p),
        h.sum + d <= u64::MAX,
        h.count < u32::MAX,
    ensures
        ({
            let g = edge_at(h, ((p + d) % 0x1_0000_0000) as u32);
            &&& g.last == Some(((p + d) % 0x1_0000_0000) as u32)
            &&& g.sum == h.sum + d
            &&& g.count == h.count + 1
            &&& g.min <= d <= g.max
            &&& g.min <= h.min && h.max <= g.max
            &&& g.min == h.min || g.min == d
            &&& g.max == h.max || g.max == d
        }),
{
}

/// Samples in which a line is low, and those in which it is not, are all of
/// them; its edges are fewer.
pub proof fn law_every_sample_is_high_or_low(v: Seq<Levels>, w: Wire, n: int)
    requires
        1 <= n,
    ensures
        lows(v, w, n) == lows(v, w, n - 1) + (if v[n - 1].at(w) {
            0int
        } else {
            1
        }),
        0 <= lows(v, w, n) <= n,
        0 <= edges(v, w, n) < n,
        n >= 2 && v[n - 1].at(w) == v[n - 2].at(w) ==> edges(v, w, n) == edges(v, w, n - 1),
        n >= 2 && v[n - 1].at(w) != v[n - 2].at(w) ==> edges(v, w, n) == edges(v, w, n - 1) + 1,
    decreases n,
{
    if n > 1 {
        law_every_sample_is_high_or_low(v, w, n - 1);
    }
}

/// A recording holds the changes and when they came: a sample like the one
/// before adds nothing, any other one entry, as long as there is room.
pub proof fn law_changes_are_recorded_when_they_come(r: Recorded, limit: u32, t: u32, l: Levels)
    requires
        !r.over,
    ensures
        ({
            let s = record_of(r, limit, t, l);
            &&& l == r.prev ==> s.ts == r.ts && s.val == r.val
            &&& l != r.prev && r.ts.len() < CAP ==> s.ts == r.ts.push(t) && s.val == r.val.push(l)
            &&& l != r.prev && r.ts.len() >= CAP ==> s.over && s.ts == r.ts && s.val == r.val
            &&& !s.over ==> s.prev == l
            // the recording ends when the card has been let go for long enough
            &&& !l.cs && (l == r.prev || r.ts.len() < CAP) ==> !s.over && s.high_since is None
        }),
{
}

} // verus!
