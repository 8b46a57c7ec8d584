//! The microphone interface: configuration, gain codes, and the
//! double-buffered capture.

use fixed::types::I7F1;
use vstd::prelude::*;

verus! {

/// The largest buffer of one run: a 15-bit byte count.
pub const MAX_SAMPLES: usize = 0x3FFF;

#[derive(Clone, Copy, PartialEq, Eq, Structural, Debug)]
pub enum Error {
    /// A buffer is longer than one run can fill.
    BufferTooLong,
    /// A buffer is empty.
    BufferZeroLength,
    /// The two buffers have different lengths.
    BufferLengthMismatch,
}

#[derive(Clone, Copy, PartialEq, Eq, Structural, Debug)]
pub enum OperationMode {
    Mono,
    Stereo,
}

/// The edge on which the left channel is sampled.
#[derive(Clone, Copy, PartialEq, Eq, Structural, Debug)]
pub enum Edge {
    LeftRising,
    LeftFalling,
}

#[derive(Clone, Copy, PartialEq, Eq, Structural, Debug)]
pub enum ClockSource {
    /// The 32 MHz peripheral clock.
    Pclk32M,
    /// The audio clock.
    Aclk,
}

/// Gains in half decibels.
#[derive(Clone, Copy, PartialEq, Eq, Structural, Debug)]
pub struct Config {
    pub operation_mode: OperationMode,
    pub edge: Edge,
    pub clock_source: ClockSource,
    /// Divisor of the clock: 25 of 32 MHz gives 1.28 MHz.
    pub prescaler: u8,
    /// Decimation: 1.28 MHz by 80 is 16 kHz.
    pub ratio: u8,
    pub gain_left: i8,
    pub gain_right: i8,
}

impl Default for Config {
    fn default() -> (c: Config)
        ensures
            c == (Config {
                operation_mode: OperationMode::Mono,
                edge: Edge::LeftFalling,
                clock_source: ClockSource::Pclk32M,
                prescaler: 25,
                ratio: 80,
                gain_left: 0,
                gain_right: 0,
            }),
    {
        Config {
            operation_mode: OperationMode::Mono,
            edge: Edge::LeftFalling,
            clock_source: ClockSource::Pclk32M,
            prescaler: 25,
            ratio: 80,
            gain_left: 0,
            gain_right: 0,
        }
    }
}

// --- gain -------------------------------------------------------------------------------

/// The sum of two gains, held at the ends of the range.
pub open spec fn gain_sum(a: int, b: int) -> int {
    if a + b > 127 {
        127
    } else if a + b < -128 {
        -128
    } else {
        a + b
    }
}

/// `I7F1::saturating_add` of the `fixed` crate on the bits of two
/// fixed-point numbers with one fractional bit: the sum of the bits, held at
/// the smallest and the largest `i8`.
#[verifier::external_body]
fn saturating_add_bits(a: i8, b: i8) -> (s: i8)
    ensures
        s == gain_sum(a as int, b as int),
{
    I7F1::from_bits(a).saturating_add(I7F1::from_bits(b)).to_bits()
}

/// The register code of 0 dB, and the largest code.
pub const GAIN_ZERO: i8 = 0x28;

pub const GAIN_TOP: i8 = 0x50;

/// The code of a gain in half decibels: one step each around 0x28, from
/// -20 dB to +20 dB.
pub open spec fn gain_code(gain: int) -> int {
    let s = gain_sum(gain, GAIN_ZERO as int);
    if s < 0 {
        0
    } else if s > GAIN_TOP {
        GAIN_TOP as int
    } else {
        s
    }
}

/// The register code of a gain.
pub fn gain_register(gain: i8) -> (c: u8)
    ensures
        c == gain_code(gain as int),
{
    let s: i8 = saturating_add_bits(gain, GAIN_ZERO);
    if s < 0 {
        0
    } else if s > GAIN_TOP {
        GAIN_TOP as u8
    } else {
        s as u8
    }
}

/// A louder gain never has a smaller code, and a gain between -20 dB and
/// +20 dB has its own.
pub proof fn law_gain_codes_are_ordered(a: int, b: int)
    requires
        -128 <= a <= b <= 127,
    ensures
        0 <= gain_code(a) <= gain_code(b) <= 0x50,
        -40 <= a < b <= 40 ==> gain_code(a) < gain_code(b),
{
}

// --- capture ----------------------------------------------------------------------------

/// The microphone interface as it is configured.
#[derive(Clone, Copy, PartialEq, Eq, Structural, Debug)]
pub struct Pdm {
    pub config: Config,
}

impl Pdm {
    pub fn new_blocking(config: Config) -> (p: Pdm)
        ensures
            p.config == config,
    {
        Pdm { config }
    }

    /// Adjusts the gains; the codes for the two gain registers come back.
    pub fn set_gain(&mut self, gain_left: i8, gain_right: i8) -> (c: (u8, u8))
        ensures
            final(self).config == (Config { gain_left, gain_right, ..old(self).config }),
            c.0 == gain_code(gain_left as int),
            c.1 == gain_code(gain_right as int),
    {
        self.config.gain_left = gain_left;
        self.config.gain_right = gain_right;
        (gain_register(gain_left), gain_register(gain_right))
    }

    /// Starts a capture into two buffers of these lengths; the first one
    /// fills.
    pub fn blocking_stream(&self, len0: usize, len1: usize) -> (r: Result<Stream, Error>)
        ensures
            r == (if len0 == 0 {
                Err::<Stream, Error>(Error::BufferZeroLength)
            } else if len0 > MAX_SAMPLES {
                Err::<Stream, Error>(Error::BufferTooLong)
            } else if len1 != len0 {
                Err::<Stream, Error>(Error::BufferLengthMismatch)
            } else {
                Ok::<Stream, Error>(Stream { filling: 0, overruns: 0 })
            }),
    {
        if len0 == 0 {
            return Err(Error::BufferZeroLength);
        }
        if len0 > MAX_SAMPLES {
            return Err(Error::BufferTooLong);
        }
        if len1 != len0 {
            return Err(Error::BufferLengthMismatch);
        }
        Ok(Stream::new())
    }
}

/// The byte count of a run of `len` samples.
pub fn run_bytes(len: usize) -> (n: u16)
    requires
        len <= MAX_SAMPLES,
    ensures
        n == 2 * len,
{
    (len * 2) as u16
}

/// A capture under way: which of the two buffers fills, and how many were
/// lost because the caller came late.
#[derive(Clone, Copy, PartialEq, Eq, Structural, Debug)]
pub struct Stream {
    pub filling: usize,
    pub overruns: u32,
}

impl Stream {
    pub open spec fn wf(self) -> bool {
        self.filling < 2
    }

    pub fn new() -> (s: Stream)
        ensures
            s.wf(),
            s == (Stream { filling: 0, overruns: 0 }),
    {
        Stream { filling: 0, overruns: 0 }
    }

    /// Queues the idle buffer; `late` says that the one in flight had
    /// already completed. Returns the buffer that comes back once the
    /// hardware has taken the idle one over.
    pub fn next_buffer(&mut self, late: bool) -> (done: usize)
        requires
            old(self).wf(),
            old(self).overruns < u32::MAX,
        ensures
            final(self).wf(),
            done == old(self).filling,
            final(self).filling == 1 - old(self).filling,
            final(self).overruns == old(self).overruns + (if late {
                1int
            } else {
                0
            }),
    {
        if late {
            self.overruns = self.overruns + 1;
        }
        let done: usize = self.filling;
        self.filling = 1 - done;
        done
    }

    pub fn overruns(&self) -> (n: u32)
        ensures
            n == self.overruns,
    {
        self.overruns
    }

    pub fn clear_overruns(&mut self)
        ensures
            final(self).overruns == 0,
            final(self).filling == old(self).filling,
    {
        self.overruns = 0;
    }
}

/// Half a decibel per code around the neutral one, and no code outside the
/// register's range.
pub proof fn law_gain_codes_follow_the_gain(gain: int)
    requires
        -128 <= gain <= 127,
    ensures
        -40 <= gain <= 40 ==> gain_code(gain) == 40 + gain,
        gain < -40 ==> gain_code(gain) == 0,
        gain > 40 ==> gain_code(gain) == 80,
{
}

} // verus!
