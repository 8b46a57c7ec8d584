//! The port in device mode: buffers, bus events and endpoint transfers.

use crate::hal::usbhs::host::packets;
use crate::hal::usbhs::Error;
use vstd::prelude::*;

verus! {

/// Packet size of endpoint 0.
pub const EP0_MPS: usize = 64;

/// The packet buffers in words: one for receiving, one per IN endpoint.
#[derive(Clone, Copy, Debug)]
pub struct Config {
    pub rx_fifo_words: u32,
    pub tx_fifo_words: [u32; 3],
}

impl Default for Config {
    fn default() -> (c: Config)
        ensures
            c.rx_fifo_words == 640,
            c.tx_fifo_words@ == seq![256u32, 1024u32, 64u32],
    {
        let c = Config { rx_fifo_words: 640, tx_fifo_words: [256, 1024, 64] };
        assert(c.tx_fifo_words@ =~= seq![256u32, 1024u32, 64u32]);
        c
    }
}

#[derive(Clone, Copy, PartialEq, Eq, Structural, Debug)]
pub enum Speed {
    High,
    Full,
}

#[derive(Clone, Copy, PartialEq, Eq, Structural, Debug)]
pub enum BusEvent {
    Quiet,
    /// The host reset the port: the address is 0 and nothing is configured.
    Reset,
    Enumerated(Speed),
}

/// What endpoint 0 has received.
#[derive(Clone, Copy, PartialEq, Eq, Structural, Debug)]
pub enum Ep0Out {
    Nothing,
    Setup,
    /// A data or status stage is complete.
    TransferComplete,
}

#[derive(Clone, Copy, PartialEq, Eq, Structural, Debug)]
pub enum EndpointStatus {
    Busy,
    /// Complete; for OUT, the bytes received.
    Complete(usize),
    AhbError,
}

#[derive(Clone, Copy, PartialEq, Eq, Structural, Debug)]
pub enum Direction {
    Out,
    In,
}

/// Registers for a diagnostic line.
#[derive(Clone, Copy, PartialEq, Eq, Structural, Debug)]
pub struct Snapshot {
    pub gintsts: u32,
    pub dsts: u32,
    pub dctl: u32,
    pub ghwcfg3: u32,
    pub gdfifocfg: u32,
    pub grxfsiz: u32,
    pub gnptxfsiz: u32,
    pub dieptxf1: u32,
    pub dieptxf2: u32,
    pub diepctl: u32,
    pub dieptsiz: u32,
    pub diepint: u32,
    pub dtxfsts: u32,
    pub doepctl: u32,
    pub doeptsiz: u32,
    pub doepint: u32,
}

// --- buffers ----------------------------------------------------------------------------

/// The words written for the buffers: each transmit word holds a depth in
/// the high half and a start in the low half.
#[derive(Clone, Copy, PartialEq, Eq, Structural, Debug)]
pub struct FifoWords {
    pub grxfsiz: u32,
    pub gnptxfsiz: u32,
    pub dieptxf1: u32,
    pub dieptxf2: u32,
    /// Where the endpoint information starts, above every buffer.
    pub epinfo: u32,
}

/// The buffers have sizes that half words hold.
pub open spec fn fifos_fit(c: Config) -> bool {
    c.rx_fifo_words + c.tx_fifo_words[0] + c.tx_fifo_words[1] + c.tx_fifo_words[2] < 0x1_0000
}

/// Depth and start as one word.
pub open spec fn fifo_word(depth: int, start: int) -> int {
    65536 * depth + start
}

/// The words put the buffers one behind the other.
pub open spec fn carves(w: FifoWords, c: Config) -> bool {
    &&& w.grxfsiz == c.rx_fifo_words
    &&& w.gnptxfsiz == fifo_word(c.tx_fifo_words[0] as int, c.rx_fifo_words as int)
    &&& w.dieptxf1 == fifo_word(
        c.tx_fifo_words[1] as int,
        c.rx_fifo_words + c.tx_fifo_words[0],
    )
    &&& w.dieptxf2 == fifo_word(
        c.tx_fifo_words[2] as int,
        c.rx_fifo_words + c.tx_fifo_words[0] + c.tx_fifo_words[1],
    )
    &&& w.epinfo == c.rx_fifo_words + c.tx_fifo_words[0] + c.tx_fifo_words[1]
        + c.tx_fifo_words[2]
}

/// The words for a configuration.
pub fn fifo_words(c: Config) -> (w: FifoWords)
    requires
        fifos_fit(c),
    ensures
        carves(w, c),
{
    let rx: u32 = c.rx_fifo_words;
    let tx0: u32 = c.tx_fifo_words[0];
    let tx1: u32 = c.tx_fifo_words[1];
    let tx2: u32 = c.tx_fifo_words[2];
    FifoWords {
        grxfsiz: rx,
        gnptxfsiz: tx0 * 65536 + rx,
        dieptxf1: tx1 * 65536 + (rx + tx0),
        dieptxf2: tx2 * 65536 + (rx + tx0 + tx1),
        epinfo: rx + tx0 + tx1 + tx2,
    }
}

/// The depth and the start of a buffer can be read back from its word.
pub proof fn law_fifo_word_holds_both(depth: int, start: int)
    requires
        0 <= depth < 0x1_0000,
        0 <= start < 0x1_0000,
    ensures
        fifo_word(depth, start) / 65536 == depth,
        fifo_word(depth, start) % 65536 == start,
{
}

/// The steps that take an armed endpoint back.
#[derive(Clone, Copy, PartialEq, Eq, Structural, Debug)]
pub enum AbortStep {
    /// Refuse everything in this direction, and wait for it.
    GlobalNak(Direction),
    /// Disable the endpoint, and wait for it.
    Disable(u8, Direction),
    ClearFlags(u8, Direction),
    /// Flush the transmit buffer, and wait for it.
    Flush(u8),
    ClearNak(Direction),
}

/// Taking back an endpoint: nothing if it is not armed.
pub open spec fn abort_steps(armed: bool, n: u8, d: Direction) -> Seq<AbortStep> {
    if !armed {
        Seq::empty()
    } else {
        seq![
            AbortStep::GlobalNak(d),
            AbortStep::Disable(n, d),
            AbortStep::ClearFlags(n, d),
        ] + (if d == Direction::In {
            seq![AbortStep::Flush(n)]
        } else {
            Seq::empty()
        }) + seq![AbortStep::ClearNak(d)]
    }
}

// --- endpoints --------------------------------------------------------------------------

/// What arming endpoint 0 writes to its size register.
#[derive(Clone, Copy, PartialEq, Eq, Structural, Debug)]
pub struct Ep0Size {
    /// Setup packets that may come back to back.
    pub supcnt: u8,
    pub pktcnt: u8,
    pub xfersize: u8,
}

#[derive(Clone, Copy, PartialEq, Eq, Structural, Debug)]
pub enum EpType {
    Bulk,
    Interrupt,
}

/// The control register of an endpoint that is activated: its toggle is at
/// DATA0, and it refuses until it is armed.
#[derive(Clone, Copy, PartialEq, Eq, Structural, Debug)]
pub struct EpCtl {
    pub mps: u16,
    pub usbactep: bool,
    pub eptype: EpType,
    /// The transmit buffer, for an IN endpoint.
    pub txfnum: Option<u8>,
    pub setd0pid: bool,
    pub snak: bool,
}

/// Offset of the registers of a numbered endpoint.
pub open spec fn endpoint_at(n: int, d: Direction) -> int {
    (if d == Direction::In {
        0x900int
    } else {
        0xB00
    }) + 32 * n
}

/// Offset of the registers of a numbered endpoint.
pub fn endpoint_offset(n: u8, direction: Direction) -> (o: usize)
    requires
        1 <= n < 16,
    ensures
        o == endpoint_at(n as int, direction),
{
    match direction {
        Direction::In => 0x900 + n as usize * 0x20,
        Direction::Out => 0xB00 + n as usize * 0x20,
    }
}

/// No two endpoints share a register.
pub proof fn law_endpoints_are_apart(n: int, d: Direction, m: int, e: Direction)
    requires
        1 <= n < 16,
        1 <= m < 16,
        n != m || d != e,
    ensures
        endpoint_at(n, d) + 32 <= endpoint_at(m, e) || endpoint_at(m, e) + 32 <= endpoint_at(n, d),
{
}

/// The port in device mode.
#[derive(Clone, Copy, PartialEq, Eq, Structural, Debug)]
pub struct Device {
    /// The address that the host gave it.
    pub devaddr: u8,
    /// The bus is held off.
    pub sftdiscon: bool,
}

impl Device {
    pub fn new_blocking() -> (d: Device)
        ensures
            d == (Device { devaddr: 0, sftdiscon: true }),
    {
        Device { devaddr: 0, sftdiscon: true }
    }

    /// The core is reset; `device` says that it took the role. The words for
    /// the packet buffers come back, and the bus is held off.
    pub fn power_up(&mut self, device: bool, config: Config) -> (r: Result<FifoWords, Error>)
        requires
            fifos_fit(config),
        ensures
            !device ==> r == Err::<FifoWords, Error>(Error::ModeRefused) && *final(self) == *old(
                self,
            ),
            device ==> (r matches Ok(w) && carves(w, config)) && *final(self) == (Device {
                sftdiscon: true,
                ..*old(self)
            }),
    {
        if !device {
            return Err(Error::ModeRefused);
        }
        self.sftdiscon = true;
        Ok(fifo_words(config))
    }

    /// Connects to the bus.
    pub fn attach(&mut self)
        ensures
            *final(self) == (Device { sftdiscon: false, ..*old(self) }),
    {
        self.sftdiscon = false;
    }

    pub fn detach(&mut self)
        ensures
            *final(self) == (Device { sftdiscon: true, ..*old(self) }),
    {
        self.sftdiscon = true;
    }

    /// The bus event behind the interrupt flags: a reset comes first, and
    /// takes the address away.
    pub fn poll_bus(&mut self, usbrst: bool, enumdone: bool, high: bool) -> (e: BusEvent)
        ensures
            e == (if usbrst {
                BusEvent::Reset
            } else if enumdone {
                BusEvent::Enumerated(
                    if high {
                        Speed::High
                    } else {
                        Speed::Full
                    },
                )
            } else {
                BusEvent::Quiet
            }),
            *final(self) == (if usbrst {
                Device { devaddr: 0, ..*old(self) }
            } else {
                *old(self)
            }),
    {
        if usbrst {
            self.devaddr = 0;
            return BusEvent::Reset;
        }
        if enumdone {
            return BusEvent::Enumerated(
                if high {
                    Speed::High
                } else {
                    Speed::Full
                },
            );
        }
        BusEvent::Quiet
    }

    pub fn set_address(&mut self, address: u8)
        ensures
            *final(self) == (Device { devaddr: address, ..*old(self) }),
    {
        self.devaddr = address;
    }

    /// Endpoint 0 takes up to three setup packets.
    pub fn ep0_arm_setup() -> (s: Ep0Size)
        ensures
            s == (Ep0Size { supcnt: 3, pktcnt: 1, xfersize: 24 }),
    {
        Ep0Size { supcnt: 3, pktcnt: 1, xfersize: 24 }
    }

    /// Endpoint 0 takes a data or status stage of at most one packet.
    pub fn ep0_arm_out(len: usize) -> (s: Ep0Size)
        requires
            len <= EP0_MPS,
        ensures
            s == (Ep0Size { supcnt: 0, pktcnt: 1, xfersize: len as u8 }),
    {
        Ep0Size { supcnt: 0, pktcnt: 1, xfersize: len as u8 }
    }

    /// Endpoint 0 sends `len` bytes, at most three packets; none sends an
    /// empty packet.
    pub fn ep0_in(len: usize) -> (s: Ep0Size)
        requires
            len <= 192,
        ensures
            s.supcnt == 0,
            s.pktcnt == packets(len as int, EP0_MPS as int),
            s.xfersize == len,
    {
        let pkts: usize = if len == 0 {
            1
        } else {
            (len + (EP0_MPS - 1)) / EP0_MPS
        };
        Ep0Size { supcnt: 0, pktcnt: pkts as u8, xfersize: len as u8 }
    }

    /// What endpoint 0 has received.
    pub fn ep0_out_event(setup: bool, xfercompl: bool) -> (e: Ep0Out)
        ensures
            e == (if setup {
                Ep0Out::Setup
            } else if xfercompl {
                Ep0Out::TransferComplete
            } else {
                Ep0Out::Nothing
            }),
    {
        if setup {
            Ep0Out::Setup
        } else if xfercompl {
            Ep0Out::TransferComplete
        } else {
            Ep0Out::Nothing
        }
    }

    /// Activates a bulk endpoint; an IN endpoint sends from the transmit
    /// buffer of its number.
    pub fn configure_bulk(n: u8, direction: Direction, max_packet_size: u16) -> (c: EpCtl)
        requires
            1 <= n < 16,
        ensures
            c == (EpCtl {
                mps: max_packet_size,
                usbactep: true,
                eptype: EpType::Bulk,
                txfnum: if direction == Direction::In {
                    Some(n)
                } else {
                    None
                },
                setd0pid: true,
                snak: true,
            }),
    {
        EpCtl {
            mps: max_packet_size,
            usbactep: true,
            eptype: EpType::Bulk,
            txfnum: match direction {
                Direction::In => Some(n),
                Direction::Out => None,
            },
            setd0pid: true,
            snak: true,
        }
    }

    /// Activates an interrupt IN endpoint.
    pub fn configure_interrupt_in(n: u8, max_packet_size: u16) -> (c: EpCtl)
        requires
            1 <= n < 16,
        ensures
            c == (EpCtl {
                mps: max_packet_size,
                usbactep: true,
                eptype: EpType::Interrupt,
                txfnum: Some(n),
                setd0pid: true,
                snak: true,
            }),
    {
        EpCtl {
            mps: max_packet_size,
            usbactep: true,
            eptype: EpType::Interrupt,
            txfnum: Some(n),
            setd0pid: true,
            snak: true,
        }
    }

    /// Packets of an IN transfer.
    pub fn in_arm(max_packet_size: usize, len: usize) -> (pkts: u16)
        requires
            max_packet_size > 0,
            max_packet_size <= 1024,
            len <= 1023 * max_packet_size,
        ensures
            pkts == packets(len as int, max_packet_size as int),
    {
        if len == 0 {
            1
        } else {
            assert((len + max_packet_size - 1) / max_packet_size as int <= 1023)
                by (nonlinear_arith)
                requires
                    0 < max_packet_size,
                    0 <= len <= 1023 * max_packet_size,
            ;
            assert(len + max_packet_size <= 1024 * 1024) by (nonlinear_arith)
                requires
                    max_packet_size <= 1024,
                    len <= 1023 * max_packet_size,
            ;
            ((len + (max_packet_size - 1)) / max_packet_size) as u16
        }
    }

    /// How an IN transfer stands.
    pub fn in_status(xfercompl: bool, ahberr: bool) -> (s: EndpointStatus)
        ensures
            s == (if xfercompl {
                EndpointStatus::Complete(0)
            } else if ahberr {
                EndpointStatus::AhbError
            } else {
                EndpointStatus::Busy
            }),
    {
        if xfercompl {
            EndpointStatus::Complete(0)
        } else if ahberr {
            EndpointStatus::AhbError
        } else {
            EndpointStatus::Busy
        }
    }

    /// Packets and bytes that an OUT transfer into `cap` bytes is programmed
    /// for: whole packets, at least one.
    pub fn out_arm(max_packet_size: usize, cap: usize) -> (r: (u16, usize))
        requires
            max_packet_size > 0,
            cap / max_packet_size <= 1023,
            max_packet_size <= 1024,
        ensures
            r.0 == (if cap / max_packet_size == 0 {
                1
            } else {
                (cap / max_packet_size) as int
            }),
            r.1 == r.0 * max_packet_size,
            r.1 <= cap || r.1 == max_packet_size,
    {
        let q: usize = cap / max_packet_size;
        let pkts: usize = if q == 0 {
            1
        } else {
            q
        };
        assert(pkts * max_packet_size <= 1023 * 1024) by (nonlinear_arith)
            requires
                pkts <= 1023,
                max_packet_size <= 1024,
        ;
        assert(q * max_packet_size <= cap) by (nonlinear_arith)
            requires
                q == cap / max_packet_size,
                max_packet_size > 0,
        ;
        assert(1 * max_packet_size == max_packet_size);
        (pkts as u16, pkts * max_packet_size)
    }

    /// How an OUT transfer of `want` bytes stands: the core leaves what did
    /// not come.
    pub fn out_status(xfercompl: bool, ahberr: bool, want: usize, left: usize) -> (s:
        EndpointStatus)
        requires
            xfercompl ==> left <= want,
        ensures
            s == (if xfercompl {
                EndpointStatus::Complete((want - left) as usize)
            } else if ahberr {
                EndpointStatus::AhbError
            } else {
                EndpointStatus::Busy
            }),
    {
        if xfercompl {
            EndpointStatus::Complete(want - left)
        } else if ahberr {
            EndpointStatus::AhbError
        } else {
            EndpointStatus::Busy
        }
    }

    /// The ceremony that takes an armed endpoint back; stale packets of an
    /// IN endpoint are flushed.
    pub fn abort(armed: bool, n: u8, direction: Direction) -> (r: Vec<AbortStep>)
        ensures
            r@ == abort_steps(armed, n, direction),
    {
        let mut r: Vec<AbortStep> = Vec::new();
        if armed {
            r.push(AbortStep::GlobalNak(direction));
            r.push(AbortStep::Disable(n, direction));
            r.push(AbortStep::ClearFlags(n, direction));
            if direction == Direction::In {
                r.push(AbortStep::Flush(n));
            }
            r.push(AbortStep::ClearNak(direction));
        }
        assert(r@ =~= abort_steps(armed, n, direction));
        r
    }
}

/// Whatever direction is refused while an endpoint is taken back is let in
/// again at the end, and nothing else is refused.
pub proof fn law_an_abort_lets_traffic_in_again(n: u8, d: Direction)
    ensures
        abort_steps(true, n, d).first() == AbortStep::GlobalNak(d),
        abort_steps(true, n, d).last() == AbortStep::ClearNak(d),
        forall|i: int|
            0 <= i < abort_steps(true, n, d).len() ==> (
            #[trigger] abort_steps(true, n, d)[i] matches AbortStep::GlobalNak(e) ==> e == d),
{
}

/// The buffers lie one behind the other from the start: what comes in, then
/// what goes out of each endpoint, then the endpoint information.
pub proof fn law_buffers_lie_behind_one_another(w: FifoWords, c: Config)
    requires
        carves(w, c),
        fifos_fit(c),
    ensures
        w.gnptxfsiz as int % 65536 == w.grxfsiz,
        w.dieptxf1 as int % 65536 == w.gnptxfsiz as int % 65536 + w.gnptxfsiz as int / 65536,
        w.dieptxf2 as int % 65536 == w.dieptxf1 as int % 65536 + w.dieptxf1 as int / 65536,
        w.epinfo == w.dieptxf2 as int % 65536 + w.dieptxf2 as int / 65536,
        w.gnptxfsiz as int / 65536 == c.tx_fifo_words[0],
        w.dieptxf1 as int / 65536 == c.tx_fifo_words[1],
        w.dieptxf2 as int / 65536 == c.tx_fifo_words[2],
        w.grxfsiz == c.rx_fifo_words,
{
}

} // verus!
