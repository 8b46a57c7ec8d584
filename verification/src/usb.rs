//! The model image on a USB stick: enumeration, the bulk-only transport with
//! its recovery, and block commands whose data phase runs in the background.

use crate::bytes::{get16, le16};
use crate::hal::usbhs::host::{Direction, Endpoint, EndpointType, Pid, Speed, TransferError};
use crate::hal::usbhs::Error;
use crate::layout::BLOCK;
use crate::mockblk::Path;
use crate::storage::E_BUSY;
use crate::usbproto::{
    build_cbw, cbw, cdb10, cdb_read10, cdb_read_capacity10, cdb_test_unit_ready, cdb_write10,
    check_csw, config_function, csw_status, parse_config, setup, MscIface, CSW_LEN, DESC_CONFIG,
    DESC_DEVICE, FEATURE_ENDPOINT_HALT, REQ_CLEAR_FEATURE, REQ_GET_DESCRIPTOR, REQ_MSC_RESET,
    REQ_SET_ADDRESS, REQ_SET_CONFIGURATION,
};
use vstd::prelude::*;
use vstd::slice::{slice_subrange, slice_to_vec};

verus! {

// --- error codes ------------------------------------------------------------------------

pub const E_VBUS: i32 = -600;

pub const E_CLOCK: i32 = -601;

pub const E_CORE: i32 = -602;

pub const E_AHB: i32 = -603;

pub const E_RESET: i32 = -604;

pub const E_MODE: i32 = -605;

/// The peripheral is in the other role.
pub const E_ROLE: i32 = -606;

pub const E_TIMEOUT: i32 = -650;

pub const E_STALL: i32 = -651;

pub const E_TRANSACTION: i32 = -652;

pub const E_BABBLE: i32 = -653;

pub const E_TOGGLE: i32 = -654;

pub const E_DMA: i32 = -655;

pub const E_FRAME: i32 = -656;

pub const E_UNKNOWN: i32 = -657;

/// No stick is ready.
pub const E_NO_STICK: i32 = -660;

/// The stick failed a read, or a write.
pub const E_READ10: i32 = -661;

pub const E_WRITE10: i32 = -662;

/// The command failed; sense data are pending.
pub const E_SCSI: i32 = -670;

/// The device wants a reset.
pub const E_PHASE: i32 = -671;

/// The code of a bring-up error.
pub fn code(e: Error) -> (c: i32)
    ensures
        c == (match e {
            Error::NoVbus => E_VBUS,
            Error::Xo24mTimeout => E_CLOCK,
            Error::CoreNotResponding => E_CORE,
            Error::AhbNotIdle => E_AHB,
            Error::ResetTimeout => E_RESET,
            Error::ModeRefused => E_MODE,
        }),
{
    match e {
        Error::NoVbus => E_VBUS,
        Error::Xo24mTimeout => E_CLOCK,
        Error::CoreNotResponding => E_CORE,
        Error::AhbNotIdle => E_AHB,
        Error::ResetTimeout => E_RESET,
        Error::ModeRefused => E_MODE,
    }
}

/// The code of a transfer error.
pub open spec fn transfer_code(e: TransferError) -> i32 {
    match e {
        TransferError::Timeout => E_TIMEOUT,
        TransferError::Stall => E_STALL,
        TransferError::Transaction => E_TRANSACTION,
        TransferError::Babble => E_BABBLE,
        TransferError::DataToggle => E_TOGGLE,
        TransferError::Ahb => E_DMA,
        TransferError::FrameOverrun => E_FRAME,
        TransferError::Unknown => E_UNKNOWN,
    }
}

pub fn xfer_code(e: TransferError) -> (c: i32)
    ensures
        c == transfer_code(e),
{
    match e {
        TransferError::Timeout => E_TIMEOUT,
        TransferError::Stall => E_STALL,
        TransferError::Transaction => E_TRANSACTION,
        TransferError::Babble => E_BABBLE,
        TransferError::DataToggle => E_TOGGLE,
        TransferError::Ahb => E_DMA,
        TransferError::FrameOverrun => E_FRAME,
        TransferError::Unknown => E_UNKNOWN,
    }
}

// --- the stick --------------------------------------------------------------------------

/// The stick on the port.
#[derive(Clone, Copy, PartialEq, Eq, Structural, Debug)]
pub struct Dev {
    pub addr: u8,
    pub mps0: u16,
    pub msc: MscIface,
    /// The packet id that comes next in each direction: the data toggle.
    pub pid_in: Pid,
    pub pid_out: Pid,
    pub tag: u32,
    pub ready: bool,
}

/// A stick that nothing is known of yet.
pub open spec fn new_dev() -> Dev {
    Dev {
        addr: 0,
        mps0: 64,
        msc: MscIface { cfg_value: 0, ifnum: 0, ep_in: 0, ep_out: 0, mps_in: 0, mps_out: 0 },
        pid_in: Pid::Data0,
        pid_out: Pid::Data0,
        tag: 0,
        ready: false,
    }
}

impl Dev {
    pub fn new() -> (d: Dev)
        ensures
            d == new_dev(),
    {
        Dev {
            addr: 0,
            mps0: 64,
            msc: MscIface { cfg_value: 0, ifnum: 0, ep_in: 0, ep_out: 0, mps_in: 0, mps_out: 0 },
            pid_in: Pid::Data0,
            pid_out: Pid::Data0,
            tag: 0,
            ready: false,
        }
    }

    /// Endpoint 0 in a direction.
    pub fn ep0(&self, direction: Direction) -> (e: Endpoint)
        ensures
            e == (Endpoint {
                device_address: self.addr,
                number: 0,
                direction,
                ep_type: EndpointType::Control,
                max_packet_size: self.mps0,
            }),
    {
        Endpoint {
            device_address: self.addr,
            number: 0,
            direction,
            ep_type: EndpointType::Control,
            max_packet_size: self.mps0,
        }
    }

    /// The bulk endpoint of a direction.
    pub fn bulk_ep(&self, dir_in: bool) -> (e: Endpoint)
        ensures
            e == (Endpoint {
                device_address: self.addr,
                number: if dir_in {
                    self.msc.ep_in
                } else {
                    self.msc.ep_out
                },
                direction: if dir_in {
                    Direction::In
                } else {
                    Direction::Out
                },
                ep_type: EndpointType::Bulk,
                max_packet_size: self.mps(dir_in),
            }),
    {
        Endpoint {
            device_address: self.addr,
            number: if dir_in {
                self.msc.ep_in
            } else {
                self.msc.ep_out
            },
            direction: if dir_in {
                Direction::In
            } else {
                Direction::Out
            },
            ep_type: EndpointType::Bulk,
            max_packet_size: if dir_in {
                self.msc.mps_in
            } else {
                self.msc.mps_out
            },
        }
    }

    /// The packet size of a direction.
    pub open spec fn mps(self, dir_in: bool) -> u16 {
        if dir_in {
            self.msc.mps_in
        } else {
            self.msc.mps_out
        }
    }

    /// The packet id that a direction expects.
    pub open spec fn pid(self, dir_in: bool) -> Pid {
        if dir_in {
            self.pid_in
        } else {
            self.pid_out
        }
    }

    /// The packet id for the next transfer of a direction.
    pub fn next_pid(&self, dir_in: bool) -> (p: Pid)
        ensures
            p == self.pid(dir_in),
    {
        if dir_in {
            self.pid_in
        } else {
            self.pid_out
        }
    }

    /// A bulk transfer is over: a success carries the data toggle on.
    pub fn bulk(&mut self, dir_in: bool, result: Result<Pid, TransferError>) -> (rc: i32)
        ensures
            match result {
                Ok(next) => {
                    &&& rc == 0
                    &&& final(self).pid(dir_in) == next
                    &&& final(self).pid(!dir_in) == old(self).pid(!dir_in)
                    &&& *final(self) == (Dev {
                        pid_in: final(self).pid_in,
                        pid_out: final(self).pid_out,
                        ..*old(self)
                    })
                },
                Err(e) => rc == transfer_code(e) && *final(self) == *old(self),
            },
    {
        match result {
            Ok(next) => {
                if dir_in {
                    self.pid_in = next;
                } else {
                    self.pid_out = next;
                }
                0
            },
            Err(e) => xfer_code(e),
        }
    }

    /// The request that clears a stalled bulk endpoint.
    pub fn clear_halt(&self, dir_in: bool) -> (p: [u8; 8])
        requires
            self.msc.ep_in < 128,
        ensures
            p@[0] == 0x02,
            p@[1] == REQ_CLEAR_FEATURE,
            le16(p@, 2) == FEATURE_ENDPOINT_HALT,
            le16(p@, 4) == (if dir_in {
                self.msc.ep_in + 0x80
            } else {
                self.msc.ep_out as int
            }),
            le16(p@, 6) == 0,
    {
        let ep: u16 = if dir_in {
            self.msc.ep_in as u16 + 0x80
        } else {
            self.msc.ep_out as u16
        };
        setup(0x02, REQ_CLEAR_FEATURE, FEATURE_ENDPOINT_HALT, ep, 0)
    }

    /// ... and its effect: the toggle starts again.
    pub fn halt_cleared(&mut self, dir_in: bool, rc: i32)
        ensures
            rc != 0 ==> *final(self) == *old(self),
            rc == 0 ==> final(self).pid(dir_in) == Pid::Data0 && final(self).pid(!dir_in) == old(
                self).pid(!dir_in) && *final(self) == (Dev {
                pid_in: final(self).pid_in,
                pid_out: final(self).pid_out,
                ..*old(self)
            }),
    {
        if rc == 0 {
            if dir_in {
                self.pid_in = Pid::Data0;
            } else {
                self.pid_out = Pid::Data0;
            }
        }
    }
}

// --- control transfers ------------------------------------------------------------------

/// One stage of a control transfer on endpoint 0.
#[derive(Clone, Copy, PartialEq, Eq, Structural, Debug)]
pub struct ControlStage {
    pub direction: Direction,
    pub pid: Pid,
    /// Bytes to program.
    pub len: usize,
    pub ms: u32,
    /// The setup packet rather than the staging buffer.
    pub setup: bool,
}

/// `n` rounded up to whole packets.
pub open spec fn rounded(n: int, mps: int) -> int {
    (n + mps - 1) / mps * mps
}

/// The stages of a request with `dlen` bytes of data to the host: setup,
/// data if there are any, and a status in the other direction.
pub open spec fn control_stages(mps0: int, dlen: int) -> Seq<ControlStage> {
    let first = seq![
        ControlStage { direction: Direction::Out, pid: Pid::Setup, len: 8, ms: 200, setup: true },
    ];
    let status = |d: Direction|
        seq![ControlStage { direction: d, pid: Pid::Data1, len: 0, ms: 200, setup: false }];
    if dlen == 0 {
        first + status(Direction::In)
    } else {
        first + seq![
            ControlStage {
                direction: Direction::In,
                pid: Pid::Data1,
                len: rounded(dlen, mps0) as usize,
                ms: 500,
                setup: false,
            },
        ] + status(Direction::Out)
    }
}

/// The stages of a control request; each runs only if the one before it
/// succeeded.
pub fn control_in(mps0: u16, dlen: usize) -> (r: Vec<ControlStage>)
    requires
        mps0 > 0,
        dlen <= 512,
    ensures
        r@ == control_stages(mps0 as int, dlen as int),
{
    let mut r: Vec<ControlStage> = Vec::new();
    r.push(
        ControlStage { direction: Direction::Out, pid: Pid::Setup, len: 8, ms: 200, setup: true },
    );
    if dlen > 0 {
        let m: usize = mps0 as usize;
        assert((dlen + m - 1) / m as int * m <= dlen + m - 1) by (nonlinear_arith)
            requires
                m > 0,
                dlen >= 0,
        ;
        let len: usize = (dlen + (m - 1)) / m * m;
        r.push(
            ControlStage {
                direction: Direction::In,
                pid: Pid::Data1,
                len,
                ms: 500,
                setup: false,
            },
        );
    }
    let direction = if dlen == 0 {
        Direction::In
    } else {
        Direction::Out
    };
    r.push(ControlStage { direction, pid: Pid::Data1, len: 0, ms: 200, setup: false });
    assert(r@ =~= control_stages(mps0 as int, dlen as int));
    r
}

// --- bulk-only transport ----------------------------------------------------------------

/// Most bytes of one data run: 1023 packets, in whole blocks.
pub open spec fn chunk_limit(mps: int) -> int {
    1023 * mps / 512 * 512
}

pub fn chunk_bytes(mps: usize) -> (n: usize)
    requires
        mps <= 65535,
    ensures
        n == chunk_limit(mps as int),
        n % 512 == 0,
        mps >= 1 ==> n >= 512,
{
    (1023 * mps / BLOCK) * BLOCK
}

/// What a command asks for next.
#[derive(Clone, Copy, PartialEq, Eq, Structural, Debug)]
pub enum BotAct {
    /// Send the command block.
    Command,
    /// Move the data from offset `off` on; `prog` bytes are programmed.
    Data { off: usize, prog: usize },
    /// Clear the stalled direction, then read the status.
    ClearThenStatus(bool),
    Status,
    Done(i32),
}

/// A command under way.
#[derive(Clone, Copy, PartialEq, Eq, Structural, Debug)]
pub struct Bot {
    pub dir_in: bool,
    pub dlen: usize,
    pub mps: usize,
    pub tag: u32,
    pub off: usize,
    /// Bytes of the run that was last asked for.
    pub n: usize,
    /// The one retry of the status has been used.
    pub retried: bool,
}

/// The result of a command that the status names.
pub open spec fn status_code(csw: Seq<u8>, tag: u32) -> i32 {
    match csw_status(csw, tag) {
        Ok(s) => if s == 0 {
            0
        } else if s == 1 {
            E_SCSI
        } else {
            E_PHASE
        },
        Err(e) => e,
    }
}

/// The status of a command from its status block.
pub fn command_status(csw: &[u8], tag: u32) -> (rc: i32)
    ensures
        rc == status_code(csw@, tag),
{
    match check_csw(csw, tag) {
        Ok(s) => if s == 0 {
            0
        } else if s == 1 {
            E_SCSI
        } else {
            E_PHASE
        },
        Err(e) => e,
    }
}

/// After this result the device's side has to be realigned.
pub fn needs_recovery(rc: i32) -> (b: bool)
    ensures
        b == (rc != 0 && rc != E_SCSI),
{
    rc != 0 && rc != E_SCSI
}

impl Bot {
    pub open spec fn wf(self) -> bool {
        &&& 1 <= self.mps <= 65535
        &&& self.off <= self.dlen <= 0x4000_0000
        &&& self.n <= self.dlen - self.off
    }

    /// The next run of data: the rest, as far as one run goes; a read is
    /// programmed in whole packets.
    pub open spec fn run(self) -> int {
        if self.dlen - self.off < chunk_limit(self.mps as int) {
            self.dlen - self.off
        } else {
            chunk_limit(self.mps as int)
        }
    }

    pub open spec fn next_act(self) -> BotAct {
        if self.off < self.dlen {
            BotAct::Data {
                off: self.off,
                prog: (if self.dir_in {
                    rounded(self.run(), self.mps as int)
                } else {
                    self.run()
                }) as usize,
            }
        } else {
            BotAct::Status
        }
    }

    /// Starts a command with `dlen` bytes of data; its block comes back.
    pub fn bot(dev: &mut Dev, cb: &[u8], dir_in: bool, dlen: usize) -> (r: (Bot, [u8; 32]))
        requires
            cb@.len() <= 17,
            dlen <= 0x4000_0000,
            old(dev).mps(dir_in) > 0,
        ensures
            r.0.wf(),
            ({
                let tag = if old(dev).tag == u32::MAX {
                    0u32
                } else {
                    (old(dev).tag + 1) as u32
                };
                &&& *final(dev) == (Dev { tag, ..*old(dev) })
                &&& r.0 == (Bot {
                    dir_in,
                    dlen,
                    mps: old(dev).mps(dir_in) as usize,
                    tag,
                    off: 0,
                    n: 0,
                    retried: false,
                })
                &&& r.1@ == cbw(tag, dlen as u32, dir_in, cb@)
            }),
    {
        dev.tag = dev.tag.wrapping_add(1);
        let mut block: [u8; 32] = [0u8; 32];
        build_cbw(&mut block, dev.tag, dlen as u32, dir_in, cb);
        let mps: usize = if dir_in {
            dev.msc.mps_in as usize
        } else {
            dev.msc.mps_out as usize
        };
        (Bot { dir_in, dlen, mps, tag: dev.tag, off: 0, n: 0, retried: false }, block)
    }

    fn advance(&mut self) -> (a: BotAct)
        requires
            old(self).wf(),
        ensures
            final(self).wf(),
            a == old(self).next_act(),
            *final(self) == (Bot { n: final(self).n, ..*old(self) }),
            a is Data ==> final(self).n == old(self).run() && final(self).n > 0,
    {
        if self.off < self.dlen {
            let limit: usize = chunk_bytes(self.mps);
            let left: usize = self.dlen - self.off;
            let n: usize = if left < limit {
                left
            } else {
                limit
            };
            self.n = n;
            let m: usize = self.mps;
            assert((n + m - 1) / m as int * m <= n + m - 1) by (nonlinear_arith)
                requires
                    m > 0,
                    n >= 0,
            ;
            let prog: usize = if self.dir_in {
                (n + (m - 1)) / m * m
            } else {
                n
            };
            BotAct::Data { off: self.off, prog }
        } else {
            BotAct::Status
        }
    }

    /// The command block went out with result `rc`.
    pub fn sent(&mut self, rc: i32) -> (a: BotAct)
        requires
            old(self).wf(),
        ensures
            final(self).wf(),
            rc != 0 ==> a == BotAct::Done(rc) && *final(self) == *old(self),
            rc == 0 ==> a == old(self).next_act() && *final(self) == (Bot {
                n: final(self).n,
                ..*old(self)
            }) && (a is Data ==> final(self).n == old(self).run() && final(self).n > 0),
    {
        if rc != 0 {
            return BotAct::Done(rc);
        }
        self.advance()
    }

    /// A data run is over. A stall means that the device has cut the data
    /// short; the status still tells the result.
    pub fn moved(&mut self, rc: i32) -> (a: BotAct)
        requires
            old(self).wf(),
            old(self).n > 0,
        ensures
            final(self).wf(),
            rc == E_STALL ==> a == BotAct::ClearThenStatus(old(self).dir_in) && *final(self)
                == *old(self),
            rc != 0 && rc != E_STALL ==> a == BotAct::Done(rc) && *final(self) == *old(self),
            rc == 0 ==> {
                let now = Bot { off: (old(self).off + old(self).n) as usize, n: 0, ..*old(self) };
                &&& a == now.next_act()
                &&& *final(self) == (Bot { n: final(self).n, ..now })
                &&& a is Data ==> final(self).n == now.run() && final(self).n > 0
            },
    {
        if rc == E_STALL {
            return BotAct::ClearThenStatus(self.dir_in);
        }
        if rc != 0 {
            return BotAct::Done(rc);
        }
        self.off = self.off + self.n;
        self.n = 0;
        self.advance()
    }

    /// The status block came in with result `rc`; one stall is cleared and
    /// tried again.
    pub fn status(&mut self, rc: i32, csw: &[u8]) -> (a: BotAct)
        requires
            old(self).wf(),
        ensures
            final(self).wf(),
            rc == E_STALL && !old(self).retried ==> a == BotAct::ClearThenStatus(true)
                && *final(self) == (Bot { retried: true, ..*old(self) }),
            rc != 0 && !(rc == E_STALL && !old(self).retried) ==> a == BotAct::Done(rc)
                && *final(self) == *old(self),
            rc == 0 ==> a == BotAct::Done(status_code(csw@, old(self).tag)) && *final(self)
                == *old(self),
    {
        if rc == E_STALL && !self.retried {
            self.retried = true;
            return BotAct::ClearThenStatus(true);
        }
        if rc != 0 {
            return BotAct::Done(rc);
        }
        BotAct::Done(command_status(csw, self.tag))
    }
}

/// A data run moves something and no more than is left; every run but the
/// last moves whole blocks.
pub proof fn law_data_runs_end(b: Bot)
    requires
        b.wf(),
        b.off < b.dlen,
    ensures
        0 < b.run() <= b.dlen - b.off,
        b.off + b.run() < b.dlen ==> b.run() % 512 == 0,
{
    let m = b.mps as int;
    assert(1023 * m / 512 >= 1);
}

/// Where a command's data stand after `k` more runs that succeed.
pub open spec fn off_after(b: Bot, k: int) -> int
    decreases k,
{
    if k <= 0 {
        b.off as int
    } else {
        let o = off_after(b, k - 1);
        if o < b.dlen {
            o + (Bot { off: o as usize, ..b }).run()
        } else {
            o
        }
    }
}

/// Runs that succeed follow one another and move all of the data: none is
/// left out, and nothing beyond them is moved.
pub proof fn law_runs_move_all_data(b: Bot, k: int)
    requires
        b.wf(),
        0 <= k,
    ensures
        b.off <= off_after(b, k) <= b.dlen,
        k >= b.dlen - b.off ==> off_after(b, k) == b.dlen,
        off_after(b, k) >= b.off + k || off_after(b, k) == b.dlen,
    decreases k,
{
    if k > 0 {
        law_runs_move_all_data(b, k - 1);
        let o = off_after(b, k - 1);
        if o < b.dlen {
            law_data_runs_end(Bot { off: o as usize, n: 0, ..b });
            assert((Bot { off: o as usize, n: 0, ..b }).run() == (Bot { off: o as usize, ..b }).run());
        }
    }
}

/// The request that resets a mass-storage function.
pub fn bot_recover(dev: &Dev) -> (p: [u8; 8])
    ensures
        p@[0] == 0x21,
        p@[1] == REQ_MSC_RESET,
        le16(p@, 2) == 0,
        le16(p@, 4) == dev.msc.ifnum,
        le16(p@, 6) == 0,
{
    setup(0x21, REQ_MSC_RESET, 0, dev.msc.ifnum as u16, 0)
}

/// The sense key, from the result of a request for sense and its answer.
pub fn request_sense(rc: i32, answer: &[u8]) -> (k: i32)
    requires
        answer@.len() >= 3,
    ensures
        k == (if rc != 0 && rc != E_SCSI {
            rc
        } else {
            (answer@[2] % 16) as i32
        }),
{
    if rc != 0 && rc != E_SCSI {
        return rc;
    }
    (answer[2] % 16) as i32
}

// --- bring-up ---------------------------------------------------------------------------

/// The stages of bringing up a stick.
#[derive(Clone, Copy, PartialEq, Eq, Structural, Debug)]
pub enum InitStage {
    /// Power, clocks and host mode.
    Power,
    /// A device on the port, within [`CONNECT_MS`].
    Connect,
    /// Reset the port.
    Reset,
    /// The first eight bytes of the device descriptor, and once more.
    FirstDescriptor,
    FirstDescriptorAgain,
    SetAddress,
    DeviceDescriptor,
    ConfigHeader,
    ConfigWhole,
    SetConfig,
    /// Test the unit, asking for sense until it is ready, for [`READY_MS`].
    UnitReady,
    Capacity,
    /// The stick can be used.
    Ready,
}

/// What a stage brought.
#[derive(Clone, Copy, Debug)]
pub struct Report<'a> {
    /// Its result.
    pub rc: i32,
    /// Bytes that came in.
    pub data: &'a [u8],
    /// The speed after a reset.
    pub speed: Speed,
    /// The time for the unit to become ready is over.
    pub expired: bool,
}

pub const E_CONNECT: i32 = -610;

pub const E_PORT_RESET: i32 = -611;

pub const E_LOW_SPEED: i32 = -612;

pub const E_FIRST_DESC: i32 = -620;

pub const E_MPS0: i32 = -621;

pub const E_ADDRESS: i32 = -622;

pub const E_DEVICE_DESC: i32 = -623;

pub const E_CONFIG_HEAD: i32 = -624;

pub const E_CONFIG: i32 = -625;

pub const E_NO_FUNCTION: i32 = -626;

pub const E_SET_CONFIG: i32 = -627;

pub const E_NOT_READY: i32 = -640;

pub const E_CAPACITY: i32 = -641;

pub const E_BLOCK_SIZE: i32 = -642;

/// Milliseconds in which a device has to show on the port, and its unit has
/// to become ready.
pub const CONNECT_MS: u32 = 400;

pub const READY_MS: u32 = 5000;

/// A stick being brought up.
#[derive(Clone, Copy, PartialEq, Eq, Structural, Debug)]
pub struct Bringup {
    pub stage: InitStage,
    pub dev: Dev,
    pub speed: Speed,
    /// Bytes of the configuration descriptor.
    pub total: usize,
    pub vid: u16,
    pub pid: u16,
    pub last_lba: u32,
}

/// A big-endian word.
pub open spec fn be32(b: Seq<u8>, o: int) -> int {
    0x100_0000 * b[o] + 0x1_0000 * b[o + 1] + 0x100 * b[o + 2] + b[o + 3]
}

fn get_be32(b: &[u8], o: usize) -> (v: u32)
    requires
        o + 4 <= b@.len(),
    ensures
        v == be32(b@, o as int),
{
    b[o] as u32 * 0x100_0000 + b[o + 1] as u32 * 0x1_0000 + b[o + 2] as u32 * 0x100 + b[o
        + 3] as u32
}

/// The configuration's length as far as the staging buffer takes it.
pub open spec fn config_len(b: Seq<u8>) -> int {
    if le16(b, 2) < 448 {
        le16(b, 2)
    } else {
        448
    }
}

/// What follows a stage: the state, or the code that ends the bring-up.
pub open spec fn init_after(s: Bringup, r: Report) -> Result<Bringup, i32> {
    let b = r.data@;
    match s.stage {
        InitStage::Power => if r.rc != 0 {
            Err(r.rc)
        } else {
            Ok(Bringup { stage: InitStage::Connect, ..s })
        },
        InitStage::Connect => if r.rc != 0 {
            Err(E_CONNECT)
        } else {
            Ok(Bringup { stage: InitStage::Reset, ..s })
        },
        InitStage::Reset => if r.rc != 0 {
            Err(E_PORT_RESET)
        } else if r.speed == Speed::Low {
            Err(E_LOW_SPEED)
        } else {
            Ok(Bringup { stage: InitStage::FirstDescriptor, speed: r.speed, ..s })
        },
        InitStage::FirstDescriptor => if r.rc != 0 {
            Ok(Bringup { stage: InitStage::FirstDescriptorAgain, ..s })
        } else if b[7] < 8 {
            Err(E_MPS0)
        } else {
            Ok(
                Bringup {
                    stage: InitStage::SetAddress,
                    dev: Dev { mps0: b[7] as u16, ..s.dev },
                    ..s
                },
            )
        },
        InitStage::FirstDescriptorAgain => if r.rc != 0 {
            Err(E_FIRST_DESC)
        } else if b[7] < 8 {
            Err(E_MPS0)
        } else {
            Ok(
                Bringup {
                    stage: InitStage::SetAddress,
                    dev: Dev { mps0: b[7] as u16, ..s.dev },
                    ..s
                },
            )
        },
        InitStage::SetAddress => if r.rc != 0 {
            Err(E_ADDRESS)
        } else {
            Ok(Bringup { stage: InitStage::DeviceDescriptor, dev: Dev { addr: 1, ..s.dev }, ..s })
        },
        InitStage::DeviceDescriptor => if r.rc != 0 {
            Err(E_DEVICE_DESC)
        } else {
            Ok(
                Bringup {
                    stage: InitStage::ConfigHeader,
                    vid: le16(b, 8) as u16,
                    pid: le16(b, 10) as u16,
                    ..s
                },
            )
        },
        InitStage::ConfigHeader => if r.rc != 0 {
            Err(E_CONFIG_HEAD)
        } else if config_len(b) < 9 {
            Err(E_CONFIG)
        } else {
            Ok(Bringup { stage: InitStage::ConfigWhole, total: config_len(b) as usize, ..s })
        },
        InitStage::ConfigWhole => if r.rc != 0 {
            Err(E_CONFIG)
        } else {
            match config_function(b.take(s.total as int)) {
                Ok(m) => Ok(
                    Bringup { stage: InitStage::SetConfig, dev: Dev { msc: m, ..s.dev }, ..s },
                ),
                Err(_) => Err(E_NO_FUNCTION),
            }
        },
        InitStage::SetConfig => if r.rc != 0 {
            Err(E_SET_CONFIG)
        } else {
            Ok(Bringup { stage: InitStage::UnitReady, ..s })
        },
        InitStage::UnitReady => if r.rc == 0 {
            Ok(Bringup { stage: InitStage::Capacity, ..s })
        } else if r.expired {
            Err(E_NOT_READY)
        } else {
            Ok(s)
        },
        InitStage::Capacity => if r.rc != 0 {
            Err(E_CAPACITY)
        } else if be32(b, 4) != 512 {
            Err(E_BLOCK_SIZE)
        } else {
            Ok(
                Bringup {
                    stage: InitStage::Ready,
                    last_lba: be32(b, 0) as u32,
                    dev: Dev { ready: true, ..s.dev },
                    ..s
                },
            )
        },
        InitStage::Ready => Ok(s),
    }
}

/// A bring-up that has not begun.
pub open spec fn new_bringup() -> Bringup {
    Bringup {
        stage: InitStage::Power,
        dev: new_dev(),
        speed: Speed::High,
        total: 0,
        vid: 0,
        pid: 0,
        last_lba: 0,
    }
}

impl Bringup {
    pub open spec fn wf(self) -> bool {
        self.total <= 448
    }

    /// Begins, unless the peripheral is in the other role.
    pub fn begin(host: bool) -> (r: Result<Bringup, i32>)
        ensures
            host ==> (r matches Ok(s) && s == new_bringup()),
            !host ==> r == Err::<Bringup, i32>(E_ROLE),
    {
        if !host {
            return Err(E_ROLE);
        }
        Ok(Bringup::new())
    }

    /// A new bring-up of a peripheral in host mode.
    pub fn new() -> (s: Bringup)
        ensures
            s.wf(),
            s == new_bringup(),
    {
        Bringup {
            stage: InitStage::Power,
            dev: Dev::new(),
            speed: Speed::High,
            total: 0,
            vid: 0,
            pid: 0,
            last_lba: 0,
        }
    }

    /// The control request of a stage and its data, if it makes one.
    pub fn request(&self) -> (r: Option<([u8; 8], usize)>)
        ensures
            match self.stage {
                InitStage::FirstDescriptor => r matches Some((p, n)) && n == 8 && is_request(
                    p@,
                    0x80,
                    6,
                    0x100,
                    8,
                ),
                InitStage::FirstDescriptorAgain => r matches Some((p, n)) && n == 8 && is_request(
                    p@,
                    0x80,
                    6,
                    0x100,
                    8,
                ),
                InitStage::SetAddress => r matches Some((p, n)) && n == 0 && is_request(
                    p@,
                    0,
                    5,
                    1,
                    0,
                ),
                InitStage::DeviceDescriptor => r matches Some((p, n)) && n == 18 && is_request(
                    p@,
                    0x80,
                    6,
                    0x100,
                    18,
                ),
                InitStage::ConfigHeader => r matches Some((p, n)) && n == 9 && is_request(
                    p@,
                    0x80,
                    6,
                    0x200,
                    9,
                ),
                InitStage::ConfigWhole => r matches Some((p, n)) && n == self.total
                    && (self.total <= 65535 ==> is_request(p@, 0x80, 6, 0x200, self.total as int)),
                InitStage::SetConfig => r matches Some((p, n)) && n == 0 && is_request(
                    p@,
                    0,
                    9,
                    self.dev.msc.cfg_value as int,
                    0,
                ),
                _ => r is None,
            },
    {
        match self.stage {
            InitStage::FirstDescriptor => Some(
                (setup(0x80, REQ_GET_DESCRIPTOR, DESC_DEVICE, 0, 8), 8),
            ),
            InitStage::FirstDescriptorAgain => Some(
                (setup(0x80, REQ_GET_DESCRIPTOR, DESC_DEVICE, 0, 8), 8),
            ),
            InitStage::SetAddress => Some((setup(0x00, REQ_SET_ADDRESS, 1, 0, 0), 0)),
            InitStage::DeviceDescriptor => Some(
                (setup(0x80, REQ_GET_DESCRIPTOR, DESC_DEVICE, 0, 18), 18),
            ),
            InitStage::ConfigHeader => Some(
                (setup(0x80, REQ_GET_DESCRIPTOR, DESC_CONFIG, 0, 9), 9),
            ),
            InitStage::ConfigWhole => {
                let n: u16 = if self.total <= 65535 {
                    self.total as u16
                } else {
                    65535
                };
                Some((setup(0x80, REQ_GET_DESCRIPTOR, DESC_CONFIG, 0, n), self.total))
            },
            InitStage::SetConfig => Some(
                (
                    setup(0x00, REQ_SET_CONFIGURATION, self.dev.msc.cfg_value as u16, 0, 0),
                    0,
                ),
            ),
            _ => None,
        }
    }

    /// The command of a stage and its data to the host, if it makes one.
    pub fn scsi(&self) -> (r: Option<(Vec<u8>, usize)>)
        ensures
            match self.stage {
                InitStage::UnitReady => r matches Some((c, n)) && c@ == seq![0u8, 0, 0, 0, 0, 0]
                    && n == 0,
                InitStage::Capacity => r matches Some((c, n)) && c@ == seq![
                    0x25u8,
                    0,
                    0,
                    0,
                    0,
                    0,
                    0,
                    0,
                    0,
                    0,
                ] && n == 8,
                _ => r is None,
            },
    {
        match self.stage {
            InitStage::UnitReady => {
                let c = cdb_test_unit_ready();
                Some((slice_to_vec(c.as_slice()), 0))
            },
            InitStage::Capacity => {
                let c = cdb_read_capacity10();
                Some((slice_to_vec(c.as_slice()), 8))
            },
            _ => None,
        }
    }

    /// Whether sense data have to be collected before the stage ends: a
    /// unit reports that it was powered until it has been asked.
    pub fn wants_sense(&self, rc: i32) -> (b: bool)
        ensures
            b == (self.stage == InitStage::UnitReady && (rc == E_SCSI || rc == E_PHASE)),
    {
        self.stage == InitStage::UnitReady && (rc == E_SCSI || rc == E_PHASE)
    }

    /// Whether a bring-up that ends with this code takes the port's power
    /// away: a core that never came up has nothing to take down.
    pub fn powers_down(&self, rc: i32) -> (b: bool)
        ensures
            b == (self.stage != InitStage::Power || rc == E_MODE),
    {
        self.stage != InitStage::Power || rc == E_MODE
    }

    /// A stage is over.
    pub fn init(&mut self, r: Report) -> (e: Result<(), i32>)
        requires
            old(self).wf(),
            r.data@.len() >= 512,
        ensures
            final(self).wf(),
            match init_after(*old(self), r) {
                Ok(next) => e == Ok::<(), i32>(()) && *final(self) == next,
                Err(c) => e == Err::<(), i32>(c) && *final(self) == *old(self),
            },
    {
        let b: &[u8] = r.data;
        match self.stage {
            InitStage::Power => {
                if r.rc != 0 {
                    return Err(r.rc);
                }
                self.stage = InitStage::Connect;
            },
            InitStage::Connect => {
                if r.rc != 0 {
                    return Err(E_CONNECT);
                }
                self.stage = InitStage::Reset;
            },
            InitStage::Reset => {
                if r.rc != 0 {
                    return Err(E_PORT_RESET);
                }
                if r.speed == Speed::Low {
                    return Err(E_LOW_SPEED);
                }
                self.speed = r.speed;
                self.stage = InitStage::FirstDescriptor;
            },
            InitStage::FirstDescriptor => {
                if r.rc != 0 {
                    self.stage = InitStage::FirstDescriptorAgain;
                    return Ok(());
                }
                if b[7] < 8 {
                    return Err(E_MPS0);
                }
                self.dev.mps0 = b[7] as u16;
                self.stage = InitStage::SetAddress;
            },
            InitStage::FirstDescriptorAgain => {
                if r.rc != 0 {
                    return Err(E_FIRST_DESC);
                }
                if b[7] < 8 {
                    return Err(E_MPS0);
                }
                self.dev.mps0 = b[7] as u16;
                self.stage = InitStage::SetAddress;
            },
            InitStage::SetAddress => {
                if r.rc != 0 {
                    return Err(E_ADDRESS);
                }
                self.dev.addr = 1;
                self.stage = InitStage::DeviceDescriptor;
            },
            InitStage::DeviceDescriptor => {
                if r.rc != 0 {
                    return Err(E_DEVICE_DESC);
                }
                self.vid = get16(b, 8);
                self.pid = get16(b, 10);
                self.stage = InitStage::ConfigHeader;
            },
            InitStage::ConfigHeader => {
                if r.rc != 0 {
                    return Err(E_CONFIG_HEAD);
                }
                let told: usize = get16(b, 2) as usize;
                let total: usize = if told < 448 {
                    told
                } else {
                    448
                };
                if total < 9 {
                    return Err(E_CONFIG);
                }
                self.total = total;
                self.stage = InitStage::ConfigWhole;
            },
            InitStage::ConfigWhole => {
                if r.rc != 0 {
                    return Err(E_CONFIG);
                }
                let cfg = slice_subrange(b, 0, self.total);
                assert(cfg@ =~= b@.take(self.total as int));
                match parse_config(cfg) {
                    Ok(m) => {
                        self.dev.msc = m;
                        self.stage = InitStage::SetConfig;
                    },
                    Err(_) => {
                        return Err(E_NO_FUNCTION);
                    },
                }
            },
            InitStage::SetConfig => {
                if r.rc != 0 {
                    return Err(E_SET_CONFIG);
                }
                self.stage = InitStage::UnitReady;
            },
            InitStage::UnitReady => {
                if r.rc == 0 {
                    self.stage = InitStage::Capacity;
                } else if r.expired {
                    return Err(E_NOT_READY);
                }
            },
            InitStage::Capacity => {
                if r.rc != 0 {
                    return Err(E_CAPACITY);
                }
                if get_be32(b, 4) != 512 {
                    return Err(E_BLOCK_SIZE);
                }
                self.last_lba = get_be32(b, 0);
                self.dev.ready = true;
                self.stage = InitStage::Ready;
            },
            InitStage::Ready => {},
        }
        Ok(())
    }
}

/// Milliseconds to wait when a stage follows another: the attachment
/// settles, the port and the address recover, and a unit that is not ready is
/// given time.
pub fn settle_ms(before: InitStage, after: InitStage) -> (ms: u32)
    ensures
        ms == (match after {
            InitStage::Reset => 100u32,
            InitStage::FirstDescriptor => 20,
            InitStage::FirstDescriptorAgain => 20,
            InitStage::DeviceDescriptor => 5,
            InitStage::UnitReady => if before == InitStage::UnitReady {
                20
            } else {
                5
            },
            _ => 0,
        }),
{
    match after {
        InitStage::Reset => 100,
        InitStage::FirstDescriptor => 20,
        InitStage::FirstDescriptorAgain => 20,
        InitStage::DeviceDescriptor => 5,
        InitStage::UnitReady => if before == InitStage::UnitReady {
            20
        } else {
            5
        },
        _ => 0,
    }
}

/// A setup packet without an index.
pub open spec fn is_request(p: Seq<u8>, bm: u8, req: u8, value: int, len: int) -> bool {
    &&& p.len() == 8
    &&& p[0] == bm
    &&& p[1] == req
    &&& le16(p, 2) == value
    &&& le16(p, 4) == 0
    &&& le16(p, 6) == len
}

/// Stages left, so that a bring-up that does not wait for the unit ends.
pub open spec fn init_left(s: InitStage) -> int {
    match s {
        InitStage::Power => 12,
        InitStage::Connect => 11,
        InitStage::Reset => 10,
        InitStage::FirstDescriptor => 9,
        InitStage::FirstDescriptorAgain => 8,
        InitStage::SetAddress => 7,
        InitStage::DeviceDescriptor => 6,
        InitStage::ConfigHeader => 5,
        InitStage::ConfigWhole => 4,
        InitStage::SetConfig => 3,
        InitStage::UnitReady => 2,
        InitStage::Capacity => 1,
        InitStage::Ready => 0,
    }
}

/// A bring-up makes progress at every stage but the wait for the unit, which
/// ends when its time is over; only the last stage makes the stick ready.
pub proof fn law_bringup_ends(s: Bringup, r: Report)
    requires
        s.stage != InitStage::Ready,
        !s.dev.ready,
    ensures
        init_after(s, r) matches Ok(n) ==> {
            &&& init_left(n.stage) < init_left(s.stage) || (s.stage == InitStage::UnitReady
                && !r.expired && n == s)
            &&& n.dev.ready <==> n.stage == InitStage::Ready
        },
{
}

/// A device name for the log: 24 bytes of an inquiry, with what cannot be
/// printed replaced.
pub fn inquiry_name(b: &[u8]) -> (n: [u8; 24])
    requires
        b@.len() >= 32,
    ensures
        forall|i: int|
            0 <= i < 24 ==> #[trigger] n@[i] == (if 0x20 <= b@[8 + i] < 0x7F {
                b@[8 + i]
            } else {
                0x3Fu8
            }),
{
    let mut n: [u8; 24] = [0x20u8; 24];
    let mut i: usize = 0;
    while i < 24
        invariant
            i <= 24,
            b@.len() >= 32,
            forall|k: int|
                0 <= k < i ==> #[trigger] n@[k] == (if 0x20 <= b@[8 + k] < 0x7F {
                    b@[8 + k]
                } else {
                    0x3Fu8
                }),
        decreases 24 - i,
    {
        let c: u8 = b[8 + i];
        n[i] = if 0x20 <= c && c < 0x7F {
            c
        } else {
            0x3F
        };
        i = i + 1;
    }
    n
}

// --- block commands ---------------------------------------------------------------------

/// How blocks are moved: not at all without a stick, block by block through
/// an aligned buffer, or directly.
pub fn rw_blocks(dev: &Dev, buf: u32, count: u32) -> (p: Path)
    ensures
        p == (if !dev.ready {
            Path::Now(E_NO_STICK)
        } else if count == 0 {
            Path::Now(0)
        } else if buf % 4 != 0 {
            Path::Bounce
        } else {
            Path::Direct
        }),
{
    if !dev.ready {
        Path::Now(E_NO_STICK)
    } else if count == 0 {
        Path::Now(0)
    } else if buf % 4 != 0 {
        Path::Bounce
    } else {
        Path::Direct
    }
}

/// One block command.
#[derive(Clone, Copy, PartialEq, Eq, Structural, Debug)]
pub struct BlockCmd {
    pub lba: u32,
    pub n: u16,
    /// Blocks before it.
    pub done: u32,
    pub ms: u32,
}

/// Milliseconds for the data of `n` blocks: a write may stall for seconds.
pub open spec fn data_ms(read: bool, n: int) -> int {
    if read {
        2000 + 2 * (n / 2)
    } else {
        3000 + 4 * (n / 2)
    }
}

/// The commands for `count` blocks, `done` of which are done: a block count
/// has 16 bits.
pub open spec fn block_cmds(lba: int, count: int, done: int, read: bool) -> Seq<BlockCmd>
    decreases count - done,
{
    if done >= count {
        Seq::empty()
    } else {
        let n = if count - done < 65535 {
            count - done
        } else {
            65535
        };
        seq![
            BlockCmd {
                lba: (lba + done) as u32,
                n: n as u16,
                done: done as u32,
                ms: data_ms(read, n) as u32,
            },
        ] + block_cmds(lba, count, done + n, read)
    }
}

/// The commands that move `count` blocks from block `lba` on.
pub fn rw_aligned(lba: u32, count: u32, read: bool) -> (r: Vec<BlockCmd>)
    requires
        lba + count <= 0x1_0000_0000,
    ensures
        r@ == block_cmds(lba as int, count as int, 0, read),
{
    let mut r: Vec<BlockCmd> = Vec::new();
    let mut done: u32 = 0;
    while done < count
        invariant
            done <= count,
            lba + count <= 0x1_0000_0000,
            r@ + block_cmds(lba as int, count as int, done as int, read) == block_cmds(
                lba as int,
                count as int,
                0,
                read,
            ),
        decreases count - done,
    {
        let ghost before = r@;
        let left: u32 = count - done;
        let n: u32 = if left < 65535 {
            left
        } else {
            65535
        };
        let ms: u32 = if read {
            2000 + n / 2 * 2
        } else {
            3000 + n / 2 * 4
        };
        let c = BlockCmd { lba: lba + done, n: n as u16, done, ms };
        r.push(c);
        proof {
            let rest = block_cmds(lba as int, count as int, done + n, read);
            assert(block_cmds(lba as int, count as int, done as int, read) == seq![c] + rest);
            assert(before + (seq![c] + rest) =~= before.push(c) + rest);
        }
        done = done + n;
    }
    assert(r@ + Seq::<BlockCmd>::empty() =~= r@);
    r
}

/// The command block of a block command.
pub fn command(c: BlockCmd, read: bool) -> (b: [u8; 10])
    ensures
        b@ == cdb10(if read {
            0x28
        } else {
            0x2A
        }, c.lba, c.n),
{
    if read {
        cdb_read10(c.lba, c.n)
    } else {
        cdb_write10(c.lba, c.n)
    }
}

/// What a block command's result means to the caller: a failed command, once
/// its sense data are collected, is a failed read or write.
pub fn block_result(rc: i32, read: bool) -> (r: i32)
    ensures
        r == (if rc == E_SCSI {
            if read {
                E_READ10
            } else {
                E_WRITE10
            }
        } else {
            rc
        }),
{
    if rc == E_SCSI {
        if read {
            E_READ10
        } else {
            E_WRITE10
        }
    } else {
        rc
    }
}

/// The blocks that the first `n` commands move.
pub open spec fn moved_blocks(cmds: Seq<BlockCmd>, n: int) -> int
    decreases n,
{
    if n <= 0 {
        0
    } else {
        moved_blocks(cmds, n - 1) + cmds[n - 1].n
    }
}

/// The commands move every block once: each starts where the one before it
/// ended, and together they move all of them.
pub proof fn law_commands_move_every_block(lba: int, count: int, done: int, read: bool, i: int)
    requires
        0 <= lba,
        lba + count <= 0x1_0000_0000,
        0 <= done <= count,
        0 <= i <= block_cmds(lba, count, done, read).len(),
    ensures
        ({
            let cmds = block_cmds(lba, count, done, read);
            &&& i < cmds.len() ==> cmds[i].lba == lba + done + moved_blocks(cmds, i)
            &&& i < cmds.len() ==> cmds[i].n > 0
            &&& i == cmds.len() ==> done + moved_blocks(cmds, i) == count
        }),
    decreases count - done,
{
    let cmds = block_cmds(lba, count, done, read);
    if done < count {
        let n = if count - done < 65535 {
            count - done
        } else {
            65535
        };
        let rest = block_cmds(lba, count, done + n, read);
        assert(cmds[0].n == n);
        if i == 0 {
            assert(cmds.len() >= 1);
        } else {
            law_commands_move_every_block(lba, count, done + n, read, i - 1);
            lemma_moved_shift(cmds, rest, i);
            if i < cmds.len() {
                assert(cmds[i] == rest[i - 1]);
            }
        }
    }
}

proof fn lemma_moved_shift(cmds: Seq<BlockCmd>, rest: Seq<BlockCmd>, i: int)
    requires
        1 <= i <= cmds.len(),
        cmds == seq![cmds[0]] + rest,
    ensures
        moved_blocks(cmds, i) == cmds[0].n + moved_blocks(rest, i - 1),
    decreases i,
{
    if i > 1 {
        lemma_moved_shift(cmds, rest, i - 1);
        assert(cmds[i - 1] == rest[i - 2]);
    } else {
        assert(moved_blocks(cmds, 0) == 0);
        assert(moved_blocks(rest, 0) == 0);
    }
}

// --- split-phase commands ---------------------------------------------------------------

#[derive(Clone, Copy, PartialEq, Eq, Structural, Debug)]
pub enum Stage {
    Data,
    Csw,
    Done,
}

/// One command whose data phase runs in the background.
#[derive(Clone, Copy, PartialEq, Eq, Structural, Debug)]
pub struct AsyncOp {
    pub active: bool,
    pub read: bool,
    pub bytes: usize,
    pub off: usize,
    /// Bytes programmed for the running chunk.
    pub prog: usize,
    pub mps: usize,
    pub to_ms: u32,
    pub tag: u32,
    pub rc: i32,
    pub stage: Stage,
    pub csw_retried: bool,
}

/// How a start is carried out.
#[derive(Clone, Copy, PartialEq, Eq, Structural, Debug)]
pub enum Start {
    Refused(i32),
    /// As a blocking command, whose result `blocking` takes.
    Blocking,
    /// Send the command block, then `armed`.
    Split,
}

/// What a poll asks for.
#[derive(Clone, Copy, PartialEq, Eq, Structural, Debug)]
pub enum Poll {
    /// Arm the data from this offset on.
    Arm { off: usize, n: usize },
    /// Arm the status, after clearing a stalled direction if there is one.
    Status(Option<bool>),
    /// The result is ready; `sense` says that sense data have to be
    /// collected, `recover` that the device has to be realigned.
    Ready { sense: bool, recover: bool },
}

impl AsyncOp {
    pub open spec fn wf(self) -> bool {
        &&& 1 <= self.mps <= 65535
        &&& self.off <= self.bytes <= 0x4000_0000
        &&& self.prog <= self.bytes - self.off
    }

    pub fn new() -> (a: AsyncOp)
        ensures
            a.wf(),
            !a.active,
            a.rc == 0,
    {
        AsyncOp {
            active: false,
            read: false,
            bytes: 0,
            off: 0,
            prog: 0,
            mps: 1,
            to_ms: 0,
            tag: 0,
            rc: 0,
            stage: Stage::Done,
            csw_retried: false,
        }
    }

    /// How a start of `count` blocks at `buf` goes.
    fn async_start(&self, dev: &Dev, buf: u32, count: u32) -> (s: Start)
        ensures
            s == start_of(*self, *dev, buf, count),
    {
        if self.active {
            return Start::Refused(E_BUSY);
        }
        if buf % 4 != 0 || count == 0 || count > 65535 || !dev.ready {
            return Start::Blocking;
        }
        Start::Split
    }

    /// A blocking command took the place of a split one.
    pub fn blocking(&mut self, read: bool, rc: i32)
        ensures
            *final(self) == (AsyncOp {
                active: true,
                read,
                rc,
                stage: Stage::Done,
                ..*old(self)
            }),
    {
        self.active = true;
        self.read = read;
        self.rc = rc;
        self.stage = Stage::Done;
    }

    /// The bytes of the next chunk.
    pub open spec fn chunk(self) -> int {
        if self.bytes - self.off < chunk_limit(self.mps as int) {
            self.bytes - self.off
        } else {
            chunk_limit(self.mps as int)
        }
    }

    /// The command block of `count` blocks has gone out with result `rc`.
    pub fn armed(&mut self, dev: &Dev, read: bool, count: u32, tag: u32, rc: i32) -> (p: Poll)
        requires
            1 <= count <= 65535,
            dev.mps(read) > 0,
        ensures
            final(self).wf(),
            ({
                let fresh = AsyncOp {
                    active: true,
                    read,
                    bytes: (512 * count) as usize,
                    off: 0,
                    prog: 0,
                    mps: dev.mps(read) as usize,
                    to_ms: data_ms(read, count as int) as u32,
                    tag,
                    rc,
                    stage: Stage::Data,
                    csw_retried: false,
                };
                &&& rc != 0 ==> p == (Poll::Ready { sense: false, recover: true })
                    && *final(self) == (AsyncOp { stage: Stage::Done, ..fresh })
                &&& rc == 0 ==> *final(self) == (AsyncOp { prog: fresh.chunk() as usize, ..fresh })
                    && p == (Poll::Arm { off: 0, n: fresh.chunk() as usize })
            }),
    {
        let ms: u32 = if read {
            2000 + count / 2 * 2
        } else {
            3000 + count / 2 * 4
        };
        self.active = true;
        self.read = read;
        self.bytes = count as usize * BLOCK;
        self.off = 0;
        self.prog = 0;
        self.mps = if read {
            dev.msc.mps_in as usize
        } else {
            dev.msc.mps_out as usize
        };
        self.to_ms = ms;
        self.tag = tag;
        self.rc = rc;
        self.stage = Stage::Data;
        self.csw_retried = false;
        if rc != 0 {
            self.stage = Stage::Done;
            return Poll::Ready { sense: false, recover: true };
        }
        self.async_arm_chunk()
    }

    fn async_arm_chunk(&mut self) -> (p: Poll)
        requires
            old(self).wf(),
        ensures
            final(self).wf(),
            *final(self) == (AsyncOp { prog: old(self).chunk() as usize, ..*old(self) }),
            p == (Poll::Arm { off: old(self).off, n: old(self).chunk() as usize }),
    {
        let limit: usize = chunk_bytes(self.mps);
        let left: usize = self.bytes - self.off;
        let n: usize = if left < limit {
            left
        } else {
            limit
        };
        self.prog = n;
        Poll::Arm { off: self.off, n }
    }

    fn async_arm_csw(&mut self, clear: Option<bool>) -> (p: Poll)
        requires
            old(self).wf(),
        ensures
            final(self).wf(),
            *final(self) == (AsyncOp { to_ms: 500, stage: Stage::Csw, ..*old(self) }),
            p == Poll::Status(clear),
    {
        self.to_ms = 500;
        self.stage = Stage::Csw;
        Poll::Status(clear)
    }

    fn async_done(&mut self, rc: i32, sense: bool, recover: bool) -> (p: Poll)
        requires
            old(self).wf(),
        ensures
            final(self).wf(),
            *final(self) == (AsyncOp { rc, stage: Stage::Done, ..*old(self) }),
            p == (Poll::Ready { sense, recover }),
    {
        self.rc = rc;
        self.stage = Stage::Done;
        Poll::Ready { sense, recover }
    }

    /// The running transfer of a command is over with result `rc`; `csw` is
    /// the status block if it was one.
    pub fn poll_inner(&mut self, rc: i32, csw: &[u8]) -> (p: Poll)
        requires
            old(self).wf(),
            old(self).active,
            old(self).stage != Stage::Done,
            old(self).stage == Stage::Csw ==> csw@.len() >= CSW_LEN,
        ensures
            final(self).wf(),
            ({
                let a = *old(self);
                match a.stage {
                    Stage::Data => {
                        let now = AsyncOp { off: (a.off + a.prog) as usize, prog: 0, ..a };
                        &&& rc == 0 && now.off < a.bytes ==> p == (Poll::Arm {
                            off: now.off,
                            n: now.chunk() as usize,
                        }) && *final(self) == (AsyncOp { prog: now.chunk() as usize, ..now })
                        &&& rc == 0 && now.off >= a.bytes ==> p == Poll::Status(None)
                            && *final(self) == (AsyncOp { to_ms: 500, stage: Stage::Csw, ..now })
                        &&& rc == E_STALL ==> p == Poll::Status(Some(a.read)) && *final(self) == (
                        AsyncOp { to_ms: 500, stage: Stage::Csw, ..a })
                        &&& rc != 0 && rc != E_STALL ==> p == (Poll::Ready {
                            sense: false,
                            recover: true,
                        }) && *final(self) == (AsyncOp { rc, stage: Stage::Done, ..a })
                    },
                    _ => {
                        let s = block_code(status_code(csw@.take(CSW_LEN as int), a.tag), a.read);
                        &&& rc == E_STALL && !a.csw_retried ==> p == Poll::Status(Some(true))
                            && *final(self) == (AsyncOp {
                            to_ms: 500,
                            stage: Stage::Csw,
                            csw_retried: true,
                            ..a
                        })
                        &&& rc != 0 && !(rc == E_STALL && !a.csw_retried) ==> p == (Poll::Ready {
                            sense: false,
                            recover: true,
                        }) && *final(self) == (AsyncOp { rc, stage: Stage::Done, ..a })
                        &&& rc == 0 ==> p == (Poll::Ready {
                            sense: s == block_code(E_SCSI, a.read),
                            recover: s != 0 && s != E_READ10 && s != E_WRITE10,
                        }) && *final(self) == (AsyncOp { rc: s, stage: Stage::Done, ..a })
                    },
                }
            }),
    {
        if self.stage == Stage::Data {
            if rc == 0 {
                self.off = self.off + self.prog;
                self.prog = 0;
                if self.off < self.bytes {
                    return self.async_arm_chunk();
                }
                return self.async_arm_csw(None);
            }
            if rc == E_STALL {
                let read = self.read;
                return self.async_arm_csw(Some(read));
            }
            return self.async_done(rc, false, true);
        }
        if rc == E_STALL && !self.csw_retried {
            self.csw_retried = true;
            return self.async_arm_csw(Some(true));
        }
        if rc != 0 {
            return self.async_done(rc, false, true);
        }
        let head = slice_subrange(csw, 0, CSW_LEN);
        assert(head@ =~= csw@.take(CSW_LEN as int));
        let s: i32 = block_result(command_status(head, self.tag), self.read);
        let failed: i32 = block_result(E_SCSI, self.read);
        self.async_done(s, s == failed, s != 0 && s != E_READ10 && s != E_WRITE10)
    }
}

/// The code of a failed command.
pub open spec fn block_code(rc: i32, read: bool) -> i32 {
    if rc == E_SCSI {
        if read {
            E_READ10
        } else {
            E_WRITE10
        }
    } else {
        rc
    }
}

pub open spec fn start_of(a: AsyncOp, dev: Dev, buf: u32, count: u32) -> Start {
    if a.active {
        Start::Refused(E_BUSY)
    } else if buf % 4 != 0 || count == 0 || count > 65535 || !dev.ready {
        Start::Blocking
    } else {
        Start::Split
    }
}

/// Starts a read of `count` blocks into `dst`.
pub fn read_start(a: &AsyncOp, dev: &Dev, dst: u32, count: u32) -> (s: Start)
    ensures
        s == start_of(*a, *dev, dst, count),
{
    a.async_start(dev, dst, count)
}

/// Starts a write of `count` blocks from `src`.
pub fn write_start(a: &AsyncOp, dev: &Dev, src: u32, count: u32) -> (s: Start)
    ensures
        s == start_of(*a, *dev, src, count),
{
    a.async_start(dev, src, count)
}

/// Bytes of the pending read that are in memory: the chunks that are
/// through and what the channel has written of the running one, behind a
/// margin of two packets. `left` is what the channel has not moved.
pub open spec fn landed_bytes(a: AsyncOp, left: int) -> int {
    let moved = a.off + (if a.prog > left {
        a.prog - left
    } else {
        0
    });
    let safe = if moved > 2 * a.mps {
        moved - 2 * a.mps
    } else {
        0
    };
    if safe < a.bytes {
        safe
    } else {
        a.bytes as int
    }
}

pub fn xfer_landed(a: &AsyncOp, left: usize) -> (n: usize)
    requires
        a.wf(),
    ensures
        n == (if !a.active {
            0
        } else if a.stage == Stage::Data && a.read {
            landed_bytes(*a, left as int)
        } else {
            a.bytes as int
        }),
        a.stage == Stage::Data && a.read ==> n <= a.bytes,
{
    if !a.active {
        return 0;
    }
    if a.stage == Stage::Data && a.read {
        let run: usize = if a.prog > left {
            a.prog - left
        } else {
            0
        };
        let moved: usize = a.off + run;
        let margin: usize = 2 * a.mps;
        let safe: usize = if moved > margin {
            moved - margin
        } else {
            0
        };
        if safe < a.bytes {
            safe
        } else {
            a.bytes
        }
    } else {
        a.bytes
    }
}

/// What is reported as landed has been moved by the channel.
pub proof fn law_landed_bytes_were_moved(a: AsyncOp, left: int)
    requires
        a.wf(),
        0 <= left <= a.prog,
    ensures
        0 <= landed_bytes(a, left) <= a.off + a.prog - left,
{
}

/// Whether nothing is left to wait for.
pub fn xfer_poll(a: &AsyncOp) -> (b: bool)
    ensures
        b == (!a.active || a.stage == Stage::Done),
{
    !a.active || a.stage == Stage::Done
}

/// Takes the result of a command that is through; 0 if there is none.
pub fn xfer_finish(a: &mut AsyncOp) -> (rc: i32)
    requires
        !old(a).active || old(a).stage == Stage::Done,
    ensures
        *final(a) == (AsyncOp { active: false, ..*old(a) }),
        rc == (if old(a).active {
            old(a).rc
        } else {
            0
        }),
{
    if !a.active {
        return 0;
    }
    a.active = false;
    a.rc
}

/// Rounding goes to whole packets, and to no more of them than needed.
pub proof fn law_rounding_goes_to_whole_packets(n: int, mps: int)
    requires
        0 <= n,
        1 <= mps,
    ensures
        rounded(n, mps) % mps == 0,
        n <= rounded(n, mps) < n + mps,
{
    vstd::arithmetic::div_mod::lemma_fundamental_div_mod(n + mps - 1, mps);
    vstd::arithmetic::div_mod::lemma_mod_multiples_basic((n + mps - 1) / mps, mps);
    assert(mps * ((n + mps - 1) / mps) == (n + mps - 1) / mps * mps) by (nonlinear_arith);
}

/// A data run is made of whole blocks, fits the packet counter, and one block
/// more would not.
pub proof fn law_runs_fit_the_packet_counter(mps: int)
    requires
        1 <= mps <= 65535,
    ensures
        chunk_limit(mps) % 512 == 0,
        chunk_limit(mps) <= 1023 * mps,
        chunk_limit(mps) + 512 > 1023 * mps,
{
}

/// A control request with data takes it in whole packets between its setup
/// and its status, which goes the other way; one without has its status come
/// in.
pub proof fn law_control_stages_alternate(mps0: int, dlen: int)
    requires
        1 <= mps0 <= 65535,
        0 <= dlen <= 65535,
    ensures
        control_stages(mps0, dlen)[0].setup,
        control_stages(mps0, dlen)[0].len == 8,
        control_stages(mps0, dlen).last().len == 0,
        !control_stages(mps0, dlen).last().setup,
        dlen == 0 ==> control_stages(mps0, dlen).len() == 2 && control_stages(
            mps0,
            dlen,
        ).last().direction == Direction::In,
        dlen > 0 ==> {
            let data = control_stages(mps0, dlen)[1];
            &&& control_stages(mps0, dlen).len() == 3
            &&& data.direction == Direction::In
            &&& dlen <= data.len < dlen + mps0
            &&& data.len as int % mps0 == 0
            &&& control_stages(mps0, dlen).last().direction == Direction::Out
        },
{
    law_rounding_goes_to_whole_packets(dlen, mps0);
}

/// A drive is ready only where its blocks have 512 bytes, and its last block
/// is the one it named; both come most significant byte first.
pub proof fn law_only_blocks_of_512_bytes_are_used(s: Bringup, r: Report)
    requires
        s.stage == InitStage::Capacity,
        r.data@.len() >= 8,
    ensures
        ({
            let b = r.data@;
            let size = 16777216 * b[4] + 65536 * b[5] + 256 * b[6] + b[7];
            let last = 16777216 * b[0] + 65536 * b[1] + 256 * b[2] + b[3];
            match init_after(s, r) {
                Ok(t) => r.rc == 0 && size == 512 && t.stage == InitStage::Ready && t.last_lba
                    == last && t.dev.ready,
                Err(_) => r.rc != 0 || size != 512,
            }
        }),
{
}

/// A drive gets an address, a packet size for its control endpoint out of the
/// eighth byte of its descriptor, and its function out of its own
/// configuration, whatever came before.
pub proof fn law_bringup_takes_what_the_drive_says(s: Bringup, r: Report)
    requires
        r.rc == 0,
        r.data@.len() >= 448,
        s.total <= 448,
    ensures
        s.stage == InitStage::FirstDescriptor || s.stage == InitStage::FirstDescriptorAgain ==> (
        init_after(s, r) matches Ok(t) ==> t.dev.mps0 == r.data@[7] && t.dev.mps0 >= 8),
        s.stage == InitStage::SetAddress ==> (init_after(s, r) matches Ok(t) && t.dev.addr == 1),
        s.stage == InitStage::DeviceDescriptor ==> (init_after(s, r) matches Ok(t) && t.vid
            == r.data@[8] + 256 * r.data@[9] && t.pid == r.data@[10] + 256 * r.data@[11]),
        s.stage == InitStage::ConfigHeader ==> (init_after(s, r) matches Ok(t) ==> 9 <= t.total
            <= 448 && (t.total == 448 || t.total == r.data@[2] + 256 * r.data@[3])),
        s.stage == InitStage::Reset && r.speed == Speed::Low ==> init_after(s, r) is Err,
        s.stage == InitStage::Reset && r.speed != Speed::Low ==> (init_after(s, r) matches Ok(t)
            && t.speed == r.speed),
{
}

/// Only whole aligned transfers of a drive that is ready are split up, and
/// one that runs is not disturbed.
pub proof fn law_only_aligned_transfers_are_split(a: AsyncOp, dev: Dev, buf: u32, count: u32)
    ensures
        a.active <==> start_of(a, dev, buf, count) is Refused,
        start_of(a, dev, buf, count) is Split <==> !a.active && buf % 4 == 0 && 1 <= count <= 65535
            && dev.ready,
{
}

/// More blocks are given more time, and writing more than reading.
pub proof fn law_more_blocks_have_more_time(n: int)
    requires
        0 <= n,
    ensures
        data_ms(true, n) >= 2000 + n - 1,
        data_ms(false, n) >= 3000 + 2 * (n - 1),
        data_ms(true, n) <= 2000 + n,
        data_ms(false, n) <= 3000 + 2 * n,
        data_ms(true, n) < data_ms(false, n),
{
}

/// A command went well where its status wrapper says so and nowhere else.
pub proof fn law_a_command_went_well_if_its_status_says_so(csw: Seq<u8>, tag: u32)
    ensures
        status_code(csw, tag) == 0 ==> csw.len() >= 13 && csw[12] == 0,
        csw_status(csw, tag) == Ok::<u8, i32>(0) ==> status_code(csw, tag) == 0,
        csw_status(csw, tag) matches Ok(s) && s != 0 ==> status_code(csw, tag) != 0,
        csw_status(csw, tag) == Ok::<u8, i32>(1) ==> status_code(csw, tag) == E_SCSI,
{
}

/// Each way for a transfer to fail has its own code.
pub proof fn law_failures_are_told_apart(a: TransferError, b: TransferError)
    requires
        a != b,
    ensures
        transfer_code(a) != transfer_code(b),
        transfer_code(a) != 0,
{
}

/// Data comes before the status: what is left, as much as one run takes, and
/// whole packets of it when it comes in.
pub proof fn law_data_comes_before_the_status(b: Bot)
    requires
        b.wf(),
        b.mps >= 8,
    ensures
        b.off >= b.dlen <==> b.next_act() is Status,
        b.next_act() matches BotAct::Data { off, prog } ==> {
            &&& off == b.off
            &&& !b.dir_in ==> prog <= b.dlen - b.off
            &&& b.dir_in ==> prog as int % (b.mps as int) == 0
            &&& prog >= b.dlen - b.off || prog >= 1023 * b.mps - 511
        },
{
    if b.off < b.dlen {
        law_rounding_goes_to_whole_packets(b.run(), b.mps as int);
        law_runs_fit_the_packet_counter(b.mps as int);
    }
}

/// A refused command is told as a failed read or write, anything else as it
/// came.
pub proof fn law_refusals_are_told_by_direction(rc: i32, read: bool)
    ensures
        rc != E_SCSI ==> block_code(rc, read) == rc,
        block_code(E_SCSI, true) == E_READ10,
        block_code(E_SCSI, false) == E_WRITE10,
{
}

} // verus!
