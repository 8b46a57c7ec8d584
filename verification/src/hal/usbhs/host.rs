//! The port in host mode: endpoints, packet ids, and how a transfer ends.

use crate::hal::usbhs::{elapsed_ms, Error};
use vstd::prelude::*;

verus! {

/// The speed of the device on the port.
#[derive(Clone, Copy, PartialEq, Eq, Structural, Debug)]
pub enum Speed {
    High,
    Full,
    Low,
}

/// The packet id of the next transaction.
#[derive(Clone, Copy, PartialEq, Eq, Structural, Debug)]
pub enum Pid {
    Data0,
    Data2,
    Data1,
    Setup,
}

/// The register bits of a packet id.
pub open spec fn pid_bits(p: Pid) -> int {
    match p {
        Pid::Data0 => 0,
        Pid::Data2 => 1,
        Pid::Data1 => 2,
        Pid::Setup => 3,
    }
}

impl Pid {
    pub fn to_bits(self) -> (b: u8)
        ensures
            b == pid_bits(self),
    {
        match self {
            Pid::Data0 => 0,
            Pid::Data2 => 1,
            Pid::Data1 => 2,
            Pid::Setup => 3,
        }
    }

    /// The packet id of the two lowest bits.
    pub fn from_bits(v: u8) -> (p: Pid)
        ensures
            pid_bits(p) == v % 4,
    {
        let b: u8 = v % 4;
        if b == 0 {
            Pid::Data0
        } else if b == 1 {
            Pid::Data2
        } else if b == 2 {
            Pid::Data1
        } else {
            Pid::Setup
        }
    }
}

/// Two packet ids with the same bits are the same.
pub proof fn law_pid_bits_are_distinct(a: Pid, b: Pid)
    requires
        pid_bits(a) == pid_bits(b),
    ensures
        a == b,
{
}

#[derive(Clone, Copy, PartialEq, Eq, Structural, Debug)]
pub enum Direction {
    Out,
    In,
}

#[derive(Clone, Copy, PartialEq, Eq, Structural, Debug)]
pub enum EndpointType {
    Control,
    Isochronous,
    Bulk,
    Interrupt,
}

/// What a transfer addresses.
#[derive(Clone, Copy, PartialEq, Eq, Structural, Debug)]
pub struct Endpoint {
    pub device_address: u8,
    pub number: u8,
    pub direction: Direction,
    pub ep_type: EndpointType,
    pub max_packet_size: u16,
}

#[derive(Clone, Copy, PartialEq, Eq, Structural, Debug)]
pub enum TransferError {
    /// The deadline passed.
    Timeout,
    Stall,
    Transaction,
    Babble,
    DataToggle,
    Ahb,
    FrameOverrun,
    Unknown,
}

/// What a channel reports.
#[derive(Clone, Copy, PartialEq, Eq, Structural, Debug)]
pub struct ChannelInts {
    pub chhltd: bool,
    pub xfercompl: bool,
    pub stall: bool,
    pub xacterr: bool,
    pub bblerr: bool,
    pub datatglerr: bool,
    pub ahberr: bool,
    pub frmovrun: bool,
}

/// The error that a halted channel reports: the first of its flags.
pub open spec fn channel_error(i: ChannelInts) -> TransferError {
    if i.stall {
        TransferError::Stall
    } else if i.xacterr {
        TransferError::Transaction
    } else if i.bblerr {
        TransferError::Babble
    } else if i.datatglerr {
        TransferError::DataToggle
    } else if i.ahberr {
        TransferError::Ahb
    } else if i.frmovrun {
        TransferError::FrameOverrun
    } else {
        TransferError::Unknown
    }
}

/// Packets of a transfer: at least one.
pub open spec fn packets(len: int, mps: int) -> int {
    if len == 0 {
        1
    } else {
        (len + mps - 1) / mps
    }
}

/// Packets of a transfer of `len` bytes in packets of `mps`.
pub fn packet_count(len: usize, mps: u16) -> (n: usize)
    requires
        mps > 0,
        len <= 0x7FFF_FFFF,
    ensures
        n == packets(len as int, mps as int),
{
    if len == 0 {
        1
    } else {
        (len + (mps as usize - 1)) / mps as usize
    }
}

// --- the port ---------------------------------------------------------------------------

/// The port register. A one written to any of the first four has an effect
/// of its own: it clears an event, or disables the port.
#[derive(Clone, Copy, PartialEq, Eq, Structural, Debug)]
pub struct Hprt {
    /// A device was connected.
    pub prtconndet: bool,
    pub prtena: bool,
    pub prtenchng: bool,
    pub prtovrcurrchng: bool,
    /// A device is there.
    pub prtconnsts: bool,
    pub prtrst: bool,
    pub prtpwr: bool,
    pub prtspd: u8,
}

impl Hprt {
    /// Written back, the value clears no event and leaves the port enabled.
    pub open spec fn harmless(self) -> bool {
        !self.prtconndet && !self.prtena && !self.prtenchng && !self.prtovrcurrchng
    }

    /// The value with nothing in it that writing it back would do.
    pub open spec fn masked(self) -> Hprt {
        Hprt {
            prtconndet: false,
            prtena: false,
            prtenchng: false,
            prtovrcurrchng: false,
            ..self
        }
    }

    /// The start of a read-modify-write.
    fn hprt_rmw(self) -> (v: Hprt)
        ensures
            v == self.masked(),
            v.harmless(),
    {
        Hprt {
            prtconndet: false,
            prtena: false,
            prtenchng: false,
            prtovrcurrchng: false,
            ..self
        }
    }

    pub open spec fn speed(self) -> Speed {
        if self.prtspd == 0 {
            Speed::High
        } else if self.prtspd == 1 {
            Speed::Full
        } else {
            Speed::Low
        }
    }
}

/// How a wait of the port reset went.
#[derive(Clone, Copy, PartialEq, Eq, Structural, Debug)]
pub enum PortReset {
    /// Write this, wait 60 ms, then [`Host::port_reset_over`].
    Begin(Hprt),
    /// Write this, then wait 100 ms for the port to enable.
    End(Hprt),
    /// Write this; the port runs at this speed.
    Enabled(Hprt, Speed),
    Failed(Error),
}

// --- channel 0 --------------------------------------------------------------------------

/// The channel's characteristics register.
#[derive(Clone, Copy, PartialEq, Eq, Structural, Debug)]
pub struct Char {
    pub mps: u16,
    pub epnum: u8,
    pub epdir: Direction,
    pub eptype: EndpointType,
    /// Transactions per frame.
    pub ec: u8,
    pub devaddr: u8,
    pub chena: bool,
    pub chdis: bool,
}

/// What is written to the channel to start a transfer, the characteristics
/// last.
#[derive(Clone, Copy, PartialEq, Eq, Structural, Debug)]
pub struct Program {
    pub xfersize: u32,
    pub pktcnt: u16,
    pub pid: u8,
    pub dma: u32,
    pub chr: Char,
}

/// An armed transfer: its characteristics, and the cycle it started at.
#[derive(Clone, Copy, PartialEq, Eq, Structural, Debug)]
pub struct Transfer {
    pub chr: Char,
    pub start: u32,
}

/// The characteristics of an endpoint: one transaction, not yet enabled.
pub open spec fn char_of(ep: Endpoint) -> Char {
    Char {
        mps: ep.max_packet_size,
        epnum: ep.number,
        epdir: ep.direction,
        eptype: ep.ep_type,
        ec: 1,
        devaddr: ep.device_address,
        chena: false,
        chdis: false,
    }
}

/// The deadline of a transfer has passed.
pub open spec fn overdue(t: Transfer, now: u32, timeout_ms: u32) -> bool {
    (now - t.start) % 0x1_0000_0000 >= 128_000 * timeout_ms
}

/// The port in host mode.
#[derive(Clone, Copy, PartialEq, Eq, Structural, Debug)]
pub struct Host {
    /// Power and clocks are on.
    pub powered: bool,
}

impl Host {
    pub fn new_blocking() -> (h: Host)
        ensures
            !h.powered,
    {
        Host { powered: false }
    }

    /// The core has power and is reset; `host` says that it took the role.
    /// A refusal leaves it powered.
    pub fn power_up(&mut self, host: bool) -> (r: Result<(), Error>)
        ensures
            final(self).powered,
            r == (if host {
                Ok::<(), Error>(())
            } else {
                Err::<(), Error>(Error::ModeRefused)
            }),
    {
        self.powered = true;
        if host {
            Ok(())
        } else {
            Err(Error::ModeRefused)
        }
    }

    pub fn power_down(&mut self)
        ensures
            !final(self).powered,
    {
        self.powered = false;
    }

    /// What to write to switch the port's power.
    pub fn port_power(v: Hprt, on: bool) -> (w: Hprt)
        ensures
            w == (Hprt { prtpwr: on, ..v.masked() }),
            w.harmless(),
    {
        let mut w = v.hprt_rmw();
        w.prtpwr = on;
        w
    }

    /// What to write once a device is there: it clears the event.
    pub fn wait_connect(v: Hprt) -> (w: Option<Hprt>)
        ensures
            w == (if v.prtconnsts {
                Some(Hprt { prtconndet: true, ..v.masked() })
            } else {
                None::<Hprt>
            }),
    {
        if !v.prtconnsts {
            return None;
        }
        let mut w = v.hprt_rmw();
        w.prtconndet = true;
        Some(w)
    }

    /// Starts a reset of the port.
    pub fn port_reset(v: Hprt) -> (r: PortReset)
        ensures
            r == PortReset::Begin(Hprt { prtrst: true, ..v.masked() }),
    {
        let mut w = v.hprt_rmw();
        w.prtrst = true;
        PortReset::Begin(w)
    }

    /// The time of the reset is over.
    pub fn port_reset_over(v: Hprt) -> (r: PortReset)
        ensures
            r == PortReset::End(Hprt { prtrst: false, ..v.masked() }),
    {
        let mut w = v.hprt_rmw();
        w.prtrst = false;
        PortReset::End(w)
    }

    /// The wait for the port is over; `v` is what it reads now. Both events
    /// are cleared.
    pub fn port_enabled(v: Hprt) -> (r: PortReset)
        ensures
            r == (if v.prtena {
                PortReset::Enabled(
                    Hprt { prtenchng: true, prtconndet: true, ..v.masked() },
                    v.speed(),
                )
            } else {
                PortReset::Failed(Error::ResetTimeout)
            }),
    {
        if !v.prtena {
            return PortReset::Failed(Error::ResetTimeout);
        }
        let mut w = v.hprt_rmw();
        w.prtenchng = true;
        w.prtconndet = true;
        let speed = if v.prtspd == 0 {
            Speed::High
        } else if v.prtspd == 1 {
            Speed::Full
        } else {
            Speed::Low
        };
        PortReset::Enabled(w, speed)
    }

    /// The characteristics of an endpoint.
    fn chr(ep: &Endpoint) -> (c: Char)
        ensures
            c == char_of(*ep),
    {
        Char {
            mps: ep.max_packet_size,
            epnum: ep.number,
            epdir: ep.direction,
            eptype: ep.ep_type,
            ec: 1,
            devaddr: ep.device_address,
            chena: false,
            chdis: false,
        }
    }

    /// Arms a transfer of `len` bytes at `buf`; the clock reads `now`.
    pub fn start_transfer(ep: &Endpoint, pid: Pid, buf: u32, len: usize, now: u32) -> (r: (
        Transfer,
        Program,
    ))
        requires
            ep.max_packet_size > 0,
            len <= 0x7FFF_FFFF,
            packets(len as int, ep.max_packet_size as int) <= 0xFFFF,
        ensures
            r.0 == (Transfer { chr: char_of(*ep), start: now }),
            r.1.xfersize == len,
            r.1.pktcnt == packets(len as int, ep.max_packet_size as int),
            r.1.pid == pid_bits(pid),
            r.1.dma == buf,
            r.1.chr == (Char { chena: true, ..char_of(*ep) }),
    {
        let pkts: usize = packet_count(len, ep.max_packet_size);
        let chr = Host::chr(ep);
        let program = Program {
            xfersize: len as u32,
            pktcnt: pkts as u16,
            pid: pid.to_bits(),
            dma: buf,
            chr: Char { chena: true, ..chr },
        };
        (Transfer { chr, start: now }, program)
    }

    /// How a transfer stands: still running, over with the packet id that
    /// comes next (`pid` has its bits), or failed.
    pub fn poll_transfer(
        t: &Transfer,
        i: ChannelInts,
        pid: u8,
        now: u32,
        timeout_ms: u32,
    ) -> (r: Option<Result<Pid, TransferError>>)
        requires
            timeout_ms <= 33_554,
        ensures
            !i.chhltd && !overdue(*t, now, timeout_ms) ==> r is None,
            !i.chhltd && overdue(*t, now, timeout_ms) ==> r == Some(
                Err::<Pid, TransferError>(TransferError::Timeout),
            ),
            i.chhltd && i.xfercompl ==> (r matches Some(Ok(p)) && pid_bits(p) == pid % 4),
            i.chhltd && !i.xfercompl ==> r == Some(Err::<Pid, TransferError>(channel_error(i))),
    {
        if !i.chhltd {
            if !elapsed_ms(t.start, now, timeout_ms) {
                return None;
            }
            return Some(Err(TransferError::Timeout));
        }
        if i.xfercompl {
            return Some(Ok(Pid::from_bits(pid)));
        }
        Some(
            Err(
                if i.stall {
                    TransferError::Stall
                } else if i.xacterr {
                    TransferError::Transaction
                } else if i.bblerr {
                    TransferError::Babble
                } else if i.datatglerr {
                    TransferError::DataToggle
                } else if i.ahberr {
                    TransferError::Ahb
                } else if i.frmovrun {
                    TransferError::FrameOverrun
                } else {
                    TransferError::Unknown
                },
            ),
        )
    }

    /// What to write to halt a channel whose transfer timed out.
    pub fn halt(t: &Transfer) -> (c: Char)
        ensures
            c == (Char { chena: true, chdis: true, ..t.chr }),
    {
        Char { chena: true, chdis: true, ..t.chr }
    }
}

/// No write of the port register disables the port, and an event is cleared
/// only where that is asked for.
pub proof fn law_port_writes_are_harmless(v: Hprt, on: bool)
    ensures
        (Hprt { prtpwr: on, ..v.masked() }).harmless(),
        (Hprt { prtrst: on, ..v.masked() }).harmless(),
        !(Hprt { prtconndet: true, ..v.masked() }).prtena,
        !(Hprt { prtenchng: true, prtconndet: true, ..v.masked() }).prtena,
        !(Hprt { prtenchng: true, prtconndet: true, ..v.masked() }).prtovrcurrchng,
        v.masked().prtpwr == v.prtpwr,
{
}

/// The packet buffers in words: receive, transmit and periodic transmit.
pub const RX_WORDS: u32 = 0x400;

pub const NPTX_WORDS: u32 = 0x200;

pub const PTX_WORDS: u32 = 0x100;

/// Words available.
pub const FIFO_WORDS: u32 = 12160;

/// The buffers follow one another and fit.
pub proof fn law_host_buffers_fit()
    ensures
        RX_WORDS + NPTX_WORDS == 0x600,
        RX_WORDS + NPTX_WORDS + PTX_WORDS <= FIFO_WORDS,
{
}

/// A transfer takes the packets that its bytes fill, and an empty one takes
/// one.
pub proof fn law_packets_carry_the_bytes(len: int, mps: int)
    requires
        0 <= len,
        1 <= mps,
    ensures
        packets(len, mps) >= 1,
        packets(len, mps) * mps >= len,
        len > 0 ==> (packets(len, mps) - 1) * mps < len,
{
    if len > 0 {
        vstd::arithmetic::div_mod::lemma_fundamental_div_mod(len + mps - 1, mps);
        let p = (len + mps - 1) / mps;
        assert(mps * p == p * mps) by (nonlinear_arith);
        assert((p - 1) * mps == p * mps - mps) by (nonlinear_arith);
        assert(p >= 1) by (nonlinear_arith)
            requires
                mps * p > len - 1,
                len >= 1,
                mps >= 1,
        ;
    }
}

/// A channel that stopped says why; a stall before anything else.
pub proof fn law_a_channel_says_why_it_stopped(i: ChannelInts)
    ensures
        i.stall <==> channel_error(i) == TransferError::Stall,
        channel_error(i) == TransferError::Transaction ==> i.xacterr,
        channel_error(i) == TransferError::Babble ==> i.bblerr,
        channel_error(i) == TransferError::DataToggle ==> i.datatglerr,
        channel_error(i) == TransferError::Ahb ==> i.ahberr,
        channel_error(i) == TransferError::FrameOverrun ==> i.frmovrun,
        channel_error(i) == TransferError::Unknown <==> !(i.stall || i.xacterr || i.bblerr
            || i.datatglerr || i.ahberr || i.frmovrun),
{
}

/// A transfer is overdue when its time has passed, however the clock wrapped
/// (128 ticks to a microsecond).
pub proof fn law_a_transfer_is_overdue_after_its_time(t: Transfer, d: u32, ms: u32)
    ensures
        overdue(t, ((t.start + d) % 0x1_0000_0000) as u32, ms) <==> d >= 128000 * ms,
{
}

/// A channel's characteristics tell endpoints apart and say nothing else of
/// them: one transaction a microframe, and not started.
pub proof fn law_a_channel_belongs_to_its_endpoint(a: Endpoint, b: Endpoint)
    ensures
        char_of(a) == char_of(b) <==> a == b,
        char_of(a).devaddr == a.device_address && char_of(a).epnum == a.number,
        char_of(a).epdir == a.direction && char_of(a).eptype == a.ep_type,
        char_of(a).mps == a.max_packet_size,
        1 <= char_of(a).ec <= 1,
        !char_of(a).chena && !char_of(a).chdis,
{
}

} // verus!
