//! The card's serial link: a bit-banged slow phase and a DMA-driven fast
//! phase on the same pins, with a software chip select.

use vstd::prelude::*;

verus! {

/// Pad drive once the peripheral has taken over.
#[derive(Clone, Copy, PartialEq, Eq, Structural, Debug)]
pub enum Drive {
    Standard,
    /// Extra-high drive with the highest slew.
    ExtraHigh,
}

#[derive(Clone, Copy, PartialEq, Eq, Structural, Debug)]
pub struct Config {
    /// Clock divisor.
    pub divisor: u8,
    /// What goes out past the end of the data.
    pub orc: u8,
    pub drive: Drive,
    /// Half period of the bit-banged clock in cycles.
    pub bitbang_half_cycles: u32,
}

impl Default for Config {
    fn default() -> (c: Config)
        ensures
            c == (Config {
                divisor: 4,
                orc: 0xFF,
                drive: Drive::Standard,
                bitbang_half_cycles: 256,
            }),
    {
        Config { divisor: 4, orc: 0xFF, drive: Drive::Standard, bitbang_half_cycles: 256 }
    }
}

#[derive(Clone, Copy, PartialEq, Eq, Structural, Debug)]
pub enum Error {
    /// A transfer did not complete in time; the link is faulted from here
    /// on.
    Timeout,
    /// Refused because an earlier transfer timed out.
    Faulted,
}

/// Which stage of a transfer timed out.
#[derive(Clone, Copy, PartialEq, Eq, Structural, Debug)]
pub enum Stage {
    Started,
    DmaEnd,
}

/// The registers behind a fault.
#[derive(Clone, Copy, Debug)]
pub struct FaultSnapshot {
    pub stage: Stage,
    pub events_started: u32,
    pub events_end: u32,
    pub enable: u32,
    pub prescaler: u32,
    pub config: u32,
    pub dma_rx_end: u32,
    pub dma_rx_ready: u32,
    pub dma_rx_buserror: u32,
    pub dma_rx_match: [u32; 4],
    pub dma_tx_end: u32,
    pub dma_tx_ready: u32,
    pub dma_tx_buserror: u32,
    pub rx_buserror_address: u32,
    pub tx_buserror_address: u32,
}

/// One of the four lines.
#[derive(Clone, Copy, PartialEq, Eq, Structural, Debug)]
pub enum Line {
    Sck,
    Mosi,
    Miso,
    Cs,
}

/// Cycles that one wait for an event may take: 20 ms.
pub const EVENT_CYCLES: u32 = 2_560_000;

/// Cycles that a stop may take: 1 ms.
pub const STOP_CYCLES: u32 = 128_000;

/// The chip-select duration that the divisor asks for: with more than two,
/// the first bit sent would otherwise corrupt the rest.
pub fn csn_duration(divisor: u8) -> (d: u8)
    ensures
        d == divisor / 2 + 1,
{
    divisor / 2 + 1
}

/// Whether the first-bit workaround is needed around every start.
pub fn needs_workaround(divisor: u8) -> (b: bool)
    ensures
        b == (divisor > 2),
{
    divisor > 2
}

// --- the link ---------------------------------------------------------------------------

/// How a transfer is carried out.
#[derive(Clone, Copy, PartialEq, Eq, Structural, Debug)]
pub enum Path {
    /// Byte by byte on the pins.
    BitBang,
    /// Refused; what would be received reads 0xFF.
    Refused,
    Dma,
}

#[derive(Clone, Copy, PartialEq, Eq, Structural, Debug)]
pub enum Pull {
    Disabled,
    Pulldown,
    Pullup,
}

/// How a pin is configured.
#[derive(Clone, Copy, PartialEq, Eq, Structural, Debug)]
pub struct PinCnf {
    pub output: bool,
    /// The input buffer is connected.
    pub connected: bool,
    pub pull: Pull,
    pub drive: Drive,
}

/// A pin that drives its line.
pub open spec fn output_cnf(drive: Drive) -> PinCnf {
    PinCnf { output: true, connected: false, pull: Pull::Disabled, drive }
}

/// A pin that listens.
pub open spec fn input_cnf(pull: Pull) -> PinCnf {
    PinCnf { output: false, connected: true, pull, drive: Drive::Standard }
}

/// A pin in high impedance.
pub open spec fn released_cnf() -> PinCnf {
    PinCnf { output: false, connected: false, pull: Pull::Disabled, drive: Drive::Standard }
}

fn cnf_output(drive: Drive) -> (c: PinCnf)
    ensures
        c == output_cnf(drive),
{
    PinCnf { output: true, connected: false, pull: Pull::Disabled, drive }
}

fn cnf_input(pull: Pull) -> (c: PinCnf)
    ensures
        c == input_cnf(pull),
{
    PinCnf { output: false, connected: true, pull, drive: Drive::Standard }
}

/// The four pins.
#[derive(Clone, Copy, PartialEq, Eq, Structural, Debug)]
pub struct Pins {
    pub sck: PinCnf,
    pub mosi: PinCnf,
    pub miso: PinCnf,
    pub cs: PinCnf,
}

impl Pins {
    pub open spec fn at(self, l: Line) -> PinCnf {
        match l {
            Line::Sck => self.sck,
            Line::Mosi => self.mosi,
            Line::Miso => self.miso,
            Line::Cs => self.cs,
        }
    }
}

/// The pins of the bit-banged phase: one data pin drives, the other listens.
pub open spec fn bitbang_pins(swapped: bool) -> Pins {
    let out = output_cnf(Drive::Standard);
    let listen = input_cnf(Pull::Pullup);
    Pins {
        sck: out,
        mosi: if swapped {
            listen
        } else {
            out
        },
        miso: if swapped {
            out
        } else {
            listen
        },
        cs: out,
    }
}

/// The pins that nothing drives.
pub open spec fn released_pins() -> Pins {
    Pins {
        sck: released_cnf(),
        mosi: released_cnf(),
        miso: released_cnf(),
        cs: released_cnf(),
    }
}

pub struct SpimSoftCs {
    pub config: Config,
    /// The pins are bit-banged.
    pub bitbang: bool,
    /// The data pins' roles are exchanged.
    pub swapped: bool,
    pub fault: Option<FaultSnapshot>,
    pub pins: Pins,
    /// The chip select is low.
    pub selected: bool,
}

impl SpimSoftCs {
    /// The link in its bit-banged phase, deselected.
    pub fn new_blocking(config: Config) -> (s: SpimSoftCs)
        ensures
            s.config == config,
            s.bitbang,
            !s.swapped,
            s.fault is None,
            s.pins == bitbang_pins(false),
            !s.selected,
    {
        let out = cnf_output(Drive::Standard);
        let pins = Pins { sck: out, mosi: out, miso: cnf_input(Pull::Pullup), cs: out };
        SpimSoftCs { config, bitbang: true, swapped: false, fault: None, pins, selected: false }
    }

    /// Back to the bit-banged phase, deselected; the data pins keep their
    /// roles.
    pub fn enter_bitbang(&mut self)
        ensures
            *final(self) == (SpimSoftCs {
                bitbang: true,
                pins: bitbang_pins(old(self).swapped),
                selected: false,
                ..*old(self)
            }),
    {
        self.bitbang = true;
        self.selected = false;
        self.pins.sck = cnf_output(Drive::Standard);
        self.pins.cs = cnf_output(Drive::Standard);
        self.config_data_pins();
    }

    /// The data pins in their roles.
    fn config_data_pins(&mut self)
        ensures
            *final(self) == (SpimSoftCs {
                pins: Pins {
                    mosi: bitbang_pins(old(self).swapped).mosi,
                    miso: bitbang_pins(old(self).swapped).miso,
                    ..old(self).pins
                },
                ..*old(self)
            }),
    {
        let out = cnf_output(Drive::Standard);
        let listen = cnf_input(Pull::Pullup);
        if self.swapped {
            self.pins.miso = out;
            self.pins.mosi = listen;
        } else {
            self.pins.mosi = out;
            self.pins.miso = listen;
        }
    }

    /// Drives the chip select low.
    pub fn cs_assert(&mut self)
        ensures
            *final(self) == (SpimSoftCs { selected: true, ..*old(self) }),
    {
        self.selected = true;
    }

    /// Drives it high.
    pub fn cs_release(&mut self)
        ensures
            *final(self) == (SpimSoftCs { selected: false, ..*old(self) }),
    {
        self.selected = false;
    }

    /// The peripheral takes clock and data over with the configured drive;
    /// the chip select stays as it is. Clears a fault.
    pub fn engage(&mut self)
        ensures
            *final(self) == (SpimSoftCs {
                bitbang: false,
                fault: None,
                pins: Pins {
                    sck: output_cnf(old(self).config.drive),
                    mosi: output_cnf(old(self).config.drive),
                    ..old(self).pins
                },
                ..*old(self)
            }),
    {
        self.pins.sck = cnf_output(self.config.drive);
        self.pins.mosi = cnf_output(self.config.drive);
        self.bitbang = false;
        self.fault = None;
    }

    /// All pins in high impedance, so that somebody else can drive the
    /// wires; the link is bit-banged again.
    pub fn release_pins(&mut self)
        ensures
            *final(self) == (SpimSoftCs {
                bitbang: true,
                pins: released_pins(),
                ..*old(self)
            }),
    {
        let free = PinCnf {
            output: false,
            connected: false,
            pull: Pull::Disabled,
            drive: Drive::Standard,
        };
        self.pins = Pins { sck: free, mosi: free, miso: free, cs: free };
        self.bitbang = true;
    }

    /// Exchanges the data pins' roles, or not.
    pub fn swap_data_pins(&mut self, swapped: bool)
        ensures
            *final(self) == (SpimSoftCs {
                swapped,
                pins: Pins {
                    mosi: bitbang_pins(swapped).mosi,
                    miso: bitbang_pins(swapped).miso,
                    ..old(self).pins
                },
                ..*old(self)
            }),
    {
        self.swapped = swapped;
        self.config_data_pins();
    }

    /// Pulls the input line up or down.
    pub fn miso_pull(&mut self, pull_up: bool)
        ensures
            *final(self) == (SpimSoftCs {
                pins: Pins {
                    miso: input_cnf(
                        if pull_up {
                            Pull::Pullup
                        } else {
                            Pull::Pulldown
                        },
                    ),
                    ..old(self).pins
                },
                ..*old(self)
            }),
    {
        self.pins.miso = cnf_input(
            if pull_up {
                Pull::Pullup
            } else {
                Pull::Pulldown
            },
        );
    }

    pub fn is_bitbang(&self) -> (b: bool)
        ensures
            b == self.bitbang,
    {
        self.bitbang
    }

    pub fn fault(&self) -> (f: Option<FaultSnapshot>)
        ensures
            f == self.fault,
    {
        self.fault
    }

    /// The line that data go out on, and the one they come in on.
    pub fn data_lines(&self) -> (l: (Line, Line))
        ensures
            l == (if self.swapped {
                (Line::Miso, Line::Mosi)
            } else {
                (Line::Mosi, Line::Miso)
            }),
    {
        if self.swapped {
            (Line::Miso, Line::Mosi)
        } else {
            (Line::Mosi, Line::Miso)
        }
    }

    pub open spec fn path_of(self) -> Path {
        if self.bitbang {
            Path::BitBang
        } else if self.fault is Some {
            Path::Refused
        } else {
            Path::Dma
        }
    }

    /// How the next transfer goes. A link that has faulted fails fast.
    pub fn path(&self) -> (p: Path)
        ensures
            p == self.path_of(),
    {
        if self.bitbang {
            Path::BitBang
        } else if self.fault.is_some() {
            Path::Refused
        } else {
            Path::Dma
        }
    }

    /// The stage that failed, if one did: the start, or either direction's
    /// end.
    pub fn failed_stage(started: bool, rx_end: bool, tx_end: bool) -> (s: Option<Stage>)
        ensures
            s == (if !started {
                Some(Stage::Started)
            } else if !(rx_end && tx_end) {
                Some(Stage::DmaEnd)
            } else {
                None::<Stage>
            }),
    {
        if !started {
            Some(Stage::Started)
        } else if !(rx_end && tx_end) {
            Some(Stage::DmaEnd)
        } else {
            None
        }
    }

    /// The end of a transfer, which went the way that `path` says. `rx` holds
    /// what came in on the pins or by DMA. A DMA transfer that failed comes
    /// with its registers as `fault`, and the link is faulted from here on; a
    /// refused one leaves the link as it was and reads 0xFF.
    pub fn blocking_transfer(
        &mut self,
        rx: &mut [u8],
        fault: Option<FaultSnapshot>,
    ) -> (r: Result<(), Error>)
        ensures
            r == (if old(self).bitbang {
                Ok::<(), Error>(())
            } else if old(self).fault is Some {
                Err(Error::Faulted)
            } else if fault is Some {
                Err(Error::Timeout)
            } else {
                Ok(())
            }),
            *final(self) == (if old(self).bitbang || old(self).fault is Some {
                *old(self)
            } else {
                SpimSoftCs { fault, ..*old(self) }
            }),
            final(rx)@ == (if !old(self).bitbang && old(self).fault is Some {
                Seq::new(old(rx)@.len(), |i: int| 0xFFu8)
            } else {
                old(rx)@
            }),
    {
        match self.path() {
            Path::BitBang => Ok(()),
            Path::Refused => {
                refused_bytes(rx);
                assert(rx@ =~= Seq::new(old(rx)@.len(), |i: int| 0xFFu8));
                Err(Error::Faulted)
            },
            Path::Dma => {
                self.fault = fault;
                match fault {
                    Some(_) => Err(Error::Timeout),
                    None => Ok(()),
                }
            },
        }
    }

    /// Whether a line can be driven: the input cannot.
    pub fn drive_line(line: Line) -> (b: bool)
        ensures
            b == (line != Line::Miso),
    {
        line != Line::Miso
    }
}

/// Once a transfer has timed out, every later one is refused until the link
/// is brought up again.
pub proof fn law_a_fault_stays(s: SpimSoftCs, f: FaultSnapshot)
    requires
        !s.bitbang,
        s.fault is None,
    ensures
        (SpimSoftCs { fault: Some(f), ..s }).path_of() == Path::Refused,
        s.path_of() == Path::Dma,
{
}

/// In the bit-banged phase exactly one of the data lines is driven, and it is
/// the one that data go out on; released pins drive none.
pub proof fn law_one_data_line_is_driven(swapped: bool, l: Line)
    ensures
        bitbang_pins(swapped).mosi.output != bitbang_pins(swapped).miso.output,
        bitbang_pins(swapped).miso.output == swapped,
        !released_pins().at(l).output,
        released_pins().at(l).pull == Pull::Disabled,
{
}

/// What a refused transfer receives.
fn refused_bytes(rx: &mut [u8])
    ensures
        final(rx)@.len() == old(rx)@.len(),
        forall|i: int| 0 <= i < final(rx)@.len() ==> #[trigger] final(rx)@[i] == 0xFF,
{
    let n: usize = rx.len();
    let mut i: usize = 0;
    while i < n
        invariant
            i <= n,
            n == rx@.len(),
            n == old(rx)@.len(),
            forall|k: int| 0 <= k < i ==> #[trigger] rx@[k] == 0xFF,
        decreases n - i,
    {
        rx[i] = 0xFF;
        i = i + 1;
    }
}

// --- bits -------------------------------------------------------------------------------

/// Powers of two.
pub open spec fn two_to(k: int) -> int
    decreases k,
{
    if k <= 0 {
        1
    } else {
        2 * two_to(k - 1)
    }
}

/// The byte whose bits, most significant first, are these levels.
pub open spec fn byte_of_levels(levels: Seq<bool>) -> int
    decreases levels.len(),
{
    if levels.len() == 0 {
        0
    } else {
        2 * byte_of_levels(levels.drop_last()) + (if levels.last() {
            1int
        } else {
            0
        })
    }
}

/// The level of the data line for bit `k` from the top of a byte.
pub fn bit_level(tx: u8, k: u8) -> (b: bool)
    requires
        k < 8,
    ensures
        b == levels_of(tx)[k as int],
{
    proof {
        reveal_with_fuel(two_to, 9);
    }
    let d: u8 = if k == 0 {
        128
    } else if k == 1 {
        64
    } else if k == 2 {
        32
    } else if k == 3 {
        16
    } else if k == 4 {
        8
    } else if k == 5 {
        4
    } else if k == 6 {
        2
    } else {
        1
    };
    tx / d % 2 == 1
}

/// One more level, sampled on a rising edge.
pub fn shift_in(rx: u8, level: bool) -> (r: u8)
    requires
        rx < 128,
    ensures
        r == 2 * rx + (if level {
            1int
        } else {
            0
        }),
{
    if level {
        2 * rx + 1
    } else {
        2 * rx
    }
}

/// The byte that eight sampled levels make.
pub fn bitbang_byte(levels: &[bool; 8]) -> (rx: u8)
    ensures
        rx == byte_of_levels(levels@),
{
    let mut rx: u8 = 0;
    let mut k: usize = 0;
    assert(levels@.take(0) =~= Seq::<bool>::empty());
    while k < 8
        invariant
            k <= 8,
            rx == byte_of_levels(levels@.take(k as int)),
            byte_of_levels(levels@.take(k as int)) < two_to(k as int),
        decreases 8 - k,
    {
        proof {
            reveal_with_fuel(two_to, 9);
            assert(levels@.take(k + 1).drop_last() =~= levels@.take(k as int));
            assert(rx < 128);
        }
        rx = shift_in(rx, levels[k]);
        k = k + 1;
    }
    assert(levels@.take(8) =~= levels@);
    rx
}

/// The levels of a byte, most significant bit first.
pub open spec fn levels_of(b: u8) -> Seq<bool> {
    Seq::new(8, |k: int| b as int / two_to(7 - k) % 2 == 1)
}

proof fn lemma_halves(x: int)
    requires
        0 <= x < 256,
    ensures
        x / 2 / 2 == x / 4,
        x / 4 / 2 == x / 8,
        x / 8 / 2 == x / 16,
        x / 16 / 2 == x / 32,
        x / 32 / 2 == x / 64,
        x / 64 / 2 == x / 128,
{
}

/// What is shifted out on one side is what the other side shifts in.
#[verifier::rlimit(30)]
pub proof fn law_bits_come_through(b: u8)
    ensures
        byte_of_levels(levels_of(b)) == b,
{
    reveal_with_fuel(two_to, 9);
    reveal_with_fuel(byte_of_levels, 9);
    let l = levels_of(b);
    let s1 = l.drop_last();
    let s2 = s1.drop_last();
    let s3 = s2.drop_last();
    let s4 = s3.drop_last();
    let s5 = s4.drop_last();
    let s6 = s5.drop_last();
    let s7 = s6.drop_last();
    assert(s7.len() == 1);
    assert(l.last() == l[7] && s1.last() == l[6] && s2.last() == l[5] && s3.last() == l[4]);
    assert(s4.last() == l[3] && s5.last() == l[2] && s6.last() == l[1] && s7.last() == l[0]);
    assert(s7.drop_last() =~= Seq::<bool>::empty());
    lemma_halves(b as int);
}

} // verus!
