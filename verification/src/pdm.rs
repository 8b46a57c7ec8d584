//! The microphone on this board: its pins, its clock, and the polled
//! capture that counts the buffers it lost.

use crate::hal::pdm::{gain_register, Config, Edge};
use vstd::prelude::*;

verus! {

/// Divisor of the 32 MHz clock, and the decimation behind it.
pub const PRESCALER_DIV: u8 = 25;

pub const RATIO: u8 = 80;

pub const SAMPLE_RATE_HZ: u32 = 16_000;

/// The divisors give the sample rate exactly.
pub proof fn law_clock_divides_exactly()
    ensures
        SAMPLE_RATE_HZ * PRESCALER_DIV * RATIO == 32_000_000,
{
}

/// Half decibels of gain: ordinary speech arrives about 7 bits wide, and
/// 12 dB more keep its peaks far from full scale.
pub const MIC_GAIN: i8 = 24;

/// A pin of a port.
#[derive(Clone, Copy, PartialEq, Eq, Structural, Debug)]
pub struct Pin {
    pub port: u8,
    pub pin: u8,
}

/// The selection register of a pin that is not connected.
pub const DISCONNECTED: u32 = 0x8000_0000;

impl Pin {
    pub open spec fn wf(self) -> bool {
        self.port < 4 && self.pin < 32
    }

    /// The selection register of the pin.
    pub fn psel(self) -> (v: u32)
        requires
            self.wf(),
        ensures
            v == self.pin + 32 * self.port,
            v % 32 == self.pin,
            v / 32 == self.port,
            v < DISCONNECTED,
    {
        self.pin as u32 + 32 * (self.port as u32)
    }

    /// The pin of a selection register.
    pub fn of_psel(v: u32) -> (p: Option<Pin>)
        ensures
            p is Some <==> v < DISCONNECTED,
            p matches Some(q) ==> q.wf() && q.pin == v % 32 && q.port == v / 32 % 4,
    {
        if v >= DISCONNECTED {
            return None;
        }
        Some(Pin { port: (v / 32 % 4) as u8, pin: (v % 32) as u8 })
    }
}

/// A selection register names its pin.
pub proof fn law_psel_names_the_pin(p: Pin)
    requires
        p.wf(),
    ensures
        ({
            let v = p.pin + 32 * p.port;
            v % 32 == p.pin && v / 32 % 4 == p.port
        }),
{
}

/// The microphone's clock and data pins.
pub fn mic_pins() -> (p: (Pin, Pin))
    ensures
        p.0 == (Pin { port: 1, pin: 23 }),
        p.1 == (Pin { port: 1, pin: 24 }),
{
    (Pin { port: 1, pin: 23 }, Pin { port: 1, pin: 24 })
}

/// The microphone's configuration.
pub fn mic_config() -> (c: Config)
    ensures
        c.edge == Edge::LeftRising,
        c.gain_left == MIC_GAIN,
        c.gain_right == MIC_GAIN,
        c.prescaler == PRESCALER_DIV,
        c.ratio == RATIO,
{
    let mut c = Config::default();
    c.edge = Edge::LeftRising;
    c.gain_left = MIC_GAIN;
    c.gain_right = MIC_GAIN;
    c
}

/// The gain code of the microphone.
pub fn mic_gain_code() -> (c: u8)
    ensures
        c == 0x40,
{
    gain_register(MIC_GAIN)
}

/// High levels among the first `n`.
pub open spec fn highs(levels: Seq<bool>, n: int) -> int
    decreases n,
{
    if n <= 0 {
        0
    } else {
        highs(levels, n - 1) + (if levels[n - 1] {
            1int
        } else {
            0
        })
    }
}

/// Counts the levels that a pin was seen at, high and low. A line that is
/// alive shows both.
pub fn probe_pin_activity(levels: &[bool]) -> (r: (u32, u32))
    requires
        levels@.len() <= u32::MAX,
    ensures
        r.0 == highs(levels@, levels@.len() as int),
        r.0 + r.1 == levels@.len(),
{
    let mut high: u32 = 0;
    let mut low: u32 = 0;
    let mut i: usize = 0;
    while i < levels.len()
        invariant
            i <= levels@.len() <= u32::MAX,
            high == highs(levels@, i as int),
            high + low == i,
        decreases levels@.len() - i,
    {
        if levels[i] {
            high = high + 1;
        } else {
            low = low + 1;
        }
        i = i + 1;
    }
    (high, low)
}

/// A pin is high in as many looks as it was seen high.
pub proof fn law_looks_are_counted(levels: Seq<bool>, n: int)
    requires
        0 <= n < levels.len(),
    ensures
        highs(levels, 0) == 0,
        highs(levels, n + 1) == highs(levels, n) + (if levels[n] {
            1int
        } else {
            0
        }),
        0 <= highs(levels, n) <= n,
    decreases n,
{
    if n > 0 {
        law_looks_are_counted(levels, n - 1);
    }
}

} // verus!
