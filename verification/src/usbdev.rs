//! The board as a serial device: descriptors, control requests, and bulk
//! transfers of any length.
//!
//! The function is a standard serial one, so that a host binds its own
//! driver to it. A bulk transfer of whole packets ends with an empty packet:
//! the host could not tell its end otherwise.

use crate::bytes::{get16, le16};
use crate::hal::usbhs::device::{BusEvent, Device, EndpointStatus};
use crate::hal::usbhs::Error;
use vstd::prelude::*;
use vstd::slice::slice_subrange;
use vstd::string::*;

verus! {

/// Packet sizes of endpoint 0 and of the bulk endpoints.
pub const MPS0: usize = 64;

pub const MPS_BULK: usize = 512;

/// Most bytes of one run: 1023 packets.
pub const RUN_MAX: usize = 523776;

// --- descriptors ------------------------------------------------------------------------

pub open spec fn desc_device() -> Seq<u8> {
    seq![
        18u8, 0x01, 0x00, 0x02, 0x02, 0x00, 0x00, 64, 0x09, 0x12, 0x01, 0x00, 0x01, 0x00, 1, 2, 3,
        1,
    ]
}

pub open spec fn desc_qualifier() -> Seq<u8> {
    seq![10u8, 0x06, 0x00, 0x02, 0x02, 0x00, 0x00, 64, 1, 0]
}

pub open spec fn desc_config() -> Seq<u8> {
    seq![
        // configuration: two interfaces, bus powered, 100 mA
        9u8, 0x02, 67, 0x00, 2, 1, 0, 0x80, 50,
        // interface 0: communications, abstract control model
        9, 0x04, 0, 0, 1, 0x02, 0x02, 0x00, 0,
        5, 0x24, 0x00, 0x10, 0x01,
        5, 0x24, 0x01, 0x00, 1,
        4, 0x24, 0x02, 0x02,
        5, 0x24, 0x06, 0, 1,
        // its notification endpoint
        7, 0x05, 0x82, 0x03, 16, 0, 16,
        // interface 1: data, two bulk endpoints
        9, 0x04, 1, 0, 2, 0x0A, 0x00, 0x00, 0,
        7, 0x05, 0x01, 0x02, 0x00, 0x02, 0,
        7, 0x05, 0x81, 0x02, 0x00, 0x02, 0,
    ]
}

pub open spec fn desc_lang() -> Seq<u8> {
    seq![4u8, 0x03, 0x09, 0x04]
}

/// The length that each descriptor states is its own.
pub proof fn law_descriptors_state_their_length()
    ensures
        desc_device().len() == desc_device()[0],
        desc_qualifier().len() == desc_qualifier()[0],
        desc_config().len() == le16(desc_config(), 2),
        desc_lang().len() == desc_lang()[0],
{
}

/// A string descriptor: length, type, then each byte as a 16-bit character.
pub open spec fn string_bytes(s: Seq<u8>) -> Seq<u8> {
    Seq::new(
        2 + 2 * s.len(),
        |i: int|
            if i == 0 {
                (2 + 2 * s.len()) as u8
            } else if i == 1 {
                0x03u8
            } else if i % 2 == 0 {
                s[(i - 2) / 2]
            } else {
                0u8
            },
    )
}

/// Builds a string descriptor from ASCII text.
pub fn string_desc(s: &[u8]) -> (d: Vec<u8>)
    requires
        s@.len() <= 126,
    ensures
        d@ == string_bytes(s@),
{
    let n: usize = s.len();
    let mut d: Vec<u8> = Vec::new();
    d.push((2 + 2 * n) as u8);
    d.push(0x03);
    let mut i: usize = 0;
    while i < n
        invariant
            i <= n <= 126,
            n == s@.len(),
            d@.len() == 2 + 2 * i,
            d@[0] == 2 + 2 * n,
            d@[1] == 0x03,
            forall|k: int|
                2 <= k < 2 + 2 * i ==> #[trigger] d@[k] == (if k % 2 == 0 {
                    s@[(k - 2) / 2]
                } else {
                    0u8
                }),
        decreases n - i,
    {
        let ghost before = d@;
        d.push(s[i]);
        d.push(0);
        assert forall|k: int| 2 <= k < 2 + 2 * (i + 1) implies #[trigger] d@[k] == (if k % 2
            == 0 {
            s@[(k - 2) / 2]
        } else {
            0u8
        }) by {
            if k < 2 + 2 * i {
                assert(d@[k] == before[k]);
            } else if k == 2 + 2 * i {
                assert((k - 2) / 2 == i);
            }
        }
        i = i + 1;
    }
    assert(d@ =~= string_bytes(s@));
    d
}

fn device_bytes() -> (d: Vec<u8>)
    ensures
        d@ == desc_device(),
{
    let d: Vec<u8> = vec![
        18, 0x01, 0x00, 0x02, 0x02, 0x00, 0x00, 64, 0x09, 0x12, 0x01, 0x00, 0x01, 0x00, 1, 2, 3, 1,
    ];
    assert(d@ =~= desc_device());
    d
}

fn qualifier_bytes() -> (d: Vec<u8>)
    ensures
        d@ == desc_qualifier(),
{
    let d: Vec<u8> = vec![10, 0x06, 0x00, 0x02, 0x02, 0x00, 0x00, 64, 1, 0];
    assert(d@ =~= desc_qualifier());
    d
}

fn config_bytes() -> (d: Vec<u8>)
    ensures
        d@ == desc_config(),
{
    let d: Vec<u8> = vec![
        9, 0x02, 67, 0x00, 2, 1, 0, 0x80, 50,
        9, 0x04, 0, 0, 1, 0x02, 0x02, 0x00, 0,
        5, 0x24, 0x00, 0x10, 0x01,
        5, 0x24, 0x01, 0x00, 1,
        4, 0x24, 0x02, 0x02,
        5, 0x24, 0x06, 0, 1,
        7, 0x05, 0x82, 0x03, 16, 0, 16,
        9, 0x04, 1, 0, 2, 0x0A, 0x00, 0x00, 0,
        7, 0x05, 0x01, 0x02, 0x00, 0x02, 0,
        7, 0x05, 0x81, 0x02, 0x00, 0x02, 0,
    ];
    assert(d@ =~= desc_config());
    d
}

fn lang_bytes() -> (d: Vec<u8>)
    ensures
        d@ == desc_lang(),
{
    let d: Vec<u8> = vec![4, 0x03, 0x09, 0x04];
    assert(d@ =~= desc_lang());
    d
}

// --- control requests -------------------------------------------------------------------

/// What answers a setup packet. Endpoint 0 is armed for the next one
/// afterwards in any case.
pub enum Reply {
    /// Refuse both directions.
    Stall,
    /// These bytes, then a status from the host.
    In(Vec<u8>),
    /// An empty packet.
    StatusIn,
    /// Receive one packet, then an empty packet.
    OutThenStatus,
    /// Take this address, then an empty packet.
    SetAddress(u8),
    /// Activate the data endpoints (or not), then an empty packet.
    Configure(bool),
}

/// What a reply is about.
pub ghost enum ReplySpec {
    Stall,
    In(Seq<u8>),
    StatusIn,
    OutThenStatus,
    SetAddress(u8),
    Configure(bool),
}

impl Reply {
    pub open spec fn view(&self) -> ReplySpec {
        match *self {
            Reply::Stall => ReplySpec::Stall,
            Reply::In(d) => ReplySpec::In(d@),
            Reply::StatusIn => ReplySpec::StatusIn,
            Reply::OutThenStatus => ReplySpec::OutThenStatus,
            Reply::SetAddress(a) => ReplySpec::SetAddress(a),
            Reply::Configure(b) => ReplySpec::Configure(b),
        }
    }
}

/// Data for the host: at most what it asked for, and three packets.
pub open spec fn capped(d: Seq<u8>, len: int) -> Seq<u8> {
    let a = if d.len() < len {
        d.len() as int
    } else {
        len
    };
    d.take(
        if a < 192 {
            a
        } else {
            192
        },
    )
}

/// The text of a string descriptor.
pub open spec fn string_text(n: int) -> Seq<u8> {
    if n == 1 {
        "nRF54LM20-DK".spec_bytes()
    } else if n == 2 {
        "Whisper mock storage".spec_bytes()
    } else {
        "WHISPER1".spec_bytes()
    }
}

/// The serial class requests.
pub open spec fn class_reply(req: u8, len: int) -> ReplySpec {
    if req == 0x20 {
        ReplySpec::OutThenStatus
    } else if req == 0x21 {
        ReplySpec::In(capped(seq![0x00u8, 0xC2, 0x01, 0x00, 0x00, 0x00, 0x08], len))
    } else if req == 0x22 || req == 0x23 {
        ReplySpec::StatusIn
    } else {
        ReplySpec::Stall
    }
}

/// The descriptor of a type and an index.
pub open spec fn descriptor_reply(dtype: int, index: int, len: int) -> ReplySpec {
    if dtype == 1 {
        ReplySpec::In(capped(desc_device(), len))
    } else if dtype == 2 {
        ReplySpec::In(capped(desc_config(), len))
    } else if dtype == 6 {
        ReplySpec::In(capped(desc_qualifier(), len))
    } else if dtype == 3 && index == 0 {
        ReplySpec::In(capped(desc_lang(), len))
    } else if dtype == 3 {
        ReplySpec::In(capped(string_bytes(string_text(index)), len))
    } else {
        ReplySpec::Stall
    }
}

/// The standard requests.
pub open spec fn standard_reply(
    req: u8,
    to_host: bool,
    value: int,
    len: int,
    configured: bool,
) -> ReplySpec {
    if req == 0x06 && to_host {
        descriptor_reply(value / 256, value % 256, len)
    } else if req == 0x05 && !to_host {
        ReplySpec::SetAddress((value % 128) as u8)
    } else if req == 0x09 && !to_host {
        ReplySpec::Configure(value != 0)
    } else if req == 0x08 && to_host {
        ReplySpec::In(
            capped(
                seq![
                    if configured {
                        1u8
                    } else {
                        0u8
                    },
                ],
                len,
            ),
        )
    } else if req == 0x00 && to_host {
        ReplySpec::In(capped(seq![0u8, 0u8], len))
    } else if req == 0x0A && to_host {
        ReplySpec::In(capped(seq![0u8], len))
    } else if !to_host && (req == 0x0B || req == 0x01 || req == 0x03) {
        ReplySpec::StatusIn
    } else {
        ReplySpec::Stall
    }
}

/// The answer to a setup packet.
pub open spec fn reply_to(sp: Seq<u8>, configured: bool) -> ReplySpec {
    let kind = sp[0] as int / 32 % 4;
    let to_host = sp[0] >= 0x80;
    let len = le16(sp, 6);
    if kind == 1 {
        class_reply(sp[1], len)
    } else if kind != 0 {
        ReplySpec::Stall
    } else {
        standard_reply(sp[1], to_host, le16(sp, 2), len, configured)
    }
}

fn ep0_in(d: &[u8], len: usize) -> (r: Reply)
    ensures
        r@ == ReplySpec::In(capped(d@, len as int)),
{
    let total: usize = d.len();
    let a: usize = if total < len {
        total
    } else {
        len
    };
    let n: usize = if a < 192 {
        a
    } else {
        192
    };
    let mut out: Vec<u8> = Vec::new();
    out.extend_from_slice(slice_subrange(d, 0, n));
    assert(out@ =~= capped(d@, len as int));
    Reply::In(out)
}

fn string_reply(index: usize, len: usize) -> (r: Reply)
    ensures
        r@ == ReplySpec::In(capped(string_bytes(string_text(index as int)), len as int)),
{
    let s: &str = if index == 1 {
        "nRF54LM20-DK"
    } else if index == 2 {
        "Whisper mock storage"
    } else {
        "WHISPER1"
    };
    proof {
        broadcast use is_ascii_spec_bytes;

        reveal_strlit("nRF54LM20-DK");
        reveal_strlit("Whisper mock storage");
        reveal_strlit("WHISPER1");
        assert("nRF54LM20-DK".is_ascii());
        assert("Whisper mock storage".is_ascii());
        assert("WHISPER1".is_ascii());
    }
    let d = string_desc(s.as_bytes());
    ep0_in(d.as_slice(), len)
}

fn descriptor(dtype: usize, index: usize, len: usize) -> (r: Reply)
    ensures
        r@ == descriptor_reply(dtype as int, index as int, len as int),
{
    if dtype == 1 {
        ep0_in(device_bytes().as_slice(), len)
    } else if dtype == 2 {
        ep0_in(config_bytes().as_slice(), len)
    } else if dtype == 6 {
        ep0_in(qualifier_bytes().as_slice(), len)
    } else if dtype == 3 && index == 0 {
        ep0_in(lang_bytes().as_slice(), len)
    } else if dtype == 3 {
        string_reply(index, len)
    } else {
        Reply::Stall
    }
}

/// Answers a setup packet.
pub fn handle_setup(sp: &[u8], configured: bool) -> (r: Reply)
    requires
        sp@.len() >= 8,
    ensures
        r@ == reply_to(sp@, configured),
{
    let bm: u8 = sp[0];
    let req: u8 = sp[1];
    let value: usize = get16(sp, 2) as usize;
    let len: usize = get16(sp, 6) as usize;
    let kind: u8 = bm / 32 % 4;
    let to_host = bm >= 0x80;
    if kind == 1 {
        if req == 0x20 {
            return Reply::OutThenStatus;
        }
        if req == 0x21 {
            let lc: Vec<u8> = vec![0x00, 0xC2, 0x01, 0x00, 0x00, 0x00, 0x08];
            assert(lc@ =~= seq![0x00u8, 0xC2, 0x01, 0x00, 0x00, 0x00, 0x08]);
            return ep0_in(lc.as_slice(), len);
        }
        if req == 0x22 || req == 0x23 {
            return Reply::StatusIn;
        }
        return Reply::Stall;
    }
    if kind != 0 {
        return Reply::Stall;
    }
    if req == 0x06 && to_host {
        return descriptor(value / 256, value % 256, len);
    }
    if req == 0x05 && !to_host {
        return Reply::SetAddress((value % 128) as u8);
    }
    if req == 0x09 && !to_host {
        return Reply::Configure(value != 0);
    }
    if req == 0x08 && to_host {
        let d: Vec<u8> = vec![if configured {
            1u8
        } else {
            0u8
        }];
        assert(d@ =~= seq![
            if configured {
                1u8
            } else {
                0u8
            },
        ]);
        return ep0_in(d.as_slice(), len);
    }
    if req == 0x00 && to_host {
        let d: Vec<u8> = vec![0, 0];
        assert(d@ =~= seq![0u8, 0u8]);
        return ep0_in(d.as_slice(), len);
    }
    if req == 0x0A && to_host {
        let d: Vec<u8> = vec![0];
        assert(d@ =~= seq![0u8]);
        return ep0_in(d.as_slice(), len);
    }
    if !to_host && (req == 0x0B || req == 0x01 || req == 0x03) {
        return Reply::StatusIn;
    }
    Reply::Stall
}

/// A host never gets more than it asked for, and never more than three
/// packets.
pub proof fn law_answers_are_bounded(sp: Seq<u8>, configured: bool)
    requires
        sp.len() >= 8,
    ensures
        reply_to(sp, configured) matches ReplySpec::In(d) ==> d.len() <= le16(sp, 6) && d.len()
            <= 3 * MPS0,
{
}

// --- link state -------------------------------------------------------------------------

/// Where the link stands.
#[derive(Clone, Copy, PartialEq, Eq, Structural, Debug)]
pub struct Link {
    pub configured: bool,
    pub address: u8,
    /// The host reset the port after it had configured the device: the link
    /// is gone.
    pub reset_after_config: bool,
}

impl Link {
    pub fn new() -> (l: Link)
        ensures
            l == (Link { configured: false, address: 0, reset_after_config: false }),
    {
        Link { configured: false, address: 0, reset_after_config: false }
    }

    pub fn configured(&self) -> (b: bool)
        ensures
            b == self.configured,
    {
        self.configured
    }

    /// A bus event; `true` means that endpoint 0 has to be armed for a setup
    /// packet.
    pub fn pump(&mut self, e: BusEvent) -> (arm: bool)
        ensures
            arm == (e != BusEvent::Quiet),
            e == BusEvent::Reset ==> *final(self) == (Link {
                configured: false,
                reset_after_config: old(self).reset_after_config || old(self).configured,
                ..*old(self)
            }),
            e != BusEvent::Reset ==> *final(self) == *old(self),
    {
        match e {
            BusEvent::Reset => {
                if self.configured {
                    self.reset_after_config = true;
                }
                self.configured = false;
                true
            },
            BusEvent::Enumerated(_) => true,
            BusEvent::Quiet => false,
        }
    }

    /// The effect of a reply.
    pub fn replied(&mut self, r: &Reply)
        ensures
            *final(self) == (match r@ {
                ReplySpec::SetAddress(a) => Link { address: a, ..*old(self) },
                ReplySpec::Configure(b) => Link { configured: b, ..*old(self) },
                _ => *old(self),
            }),
    {
        match r {
            Reply::SetAddress(a) => {
                self.address = *a;
            },
            Reply::Configure(b) => {
                self.configured = *b;
            },
            _ => {},
        }
    }

    /// The device has been configured; a reset during enumeration was
    /// nothing unusual.
    pub fn settled(&mut self)
        ensures
            *final(self) == (Link { reset_after_config: false, ..*old(self) }),
    {
        self.reset_after_config = false;
    }
}

pub const E_MODE_REFUSED: i32 = -630;

pub const E_NOT_CONFIGURED: i32 = -631;

/// The code of a failed bring-up; a refused role still has to be powered
/// down.
pub fn init_code(e: Error) -> (c: i32)
    ensures
        c == (match e {
            Error::ModeRefused => E_MODE_REFUSED,
            Error::NoVbus => crate::usb::E_VBUS,
            Error::Xo24mTimeout => crate::usb::E_CLOCK,
            Error::CoreNotResponding => crate::usb::E_CORE,
            Error::AhbNotIdle => crate::usb::E_AHB,
            Error::ResetTimeout => crate::usb::E_RESET,
        }),
{
    match e {
        Error::ModeRefused => E_MODE_REFUSED,
        other => crate::usb::code(other),
    }
}

// --- deadlines --------------------------------------------------------------------------

pub const CYC_PER_MS: u64 = 128_000;

/// A deadline on a counter that wraps: the time between polls adds up, so
/// that it may be longer than the counter.
#[derive(Clone, Copy, PartialEq, Eq, Structural, Debug)]
pub struct Budget {
    pub last: u32,
    pub acc: u64,
    pub limit: u64,
}

impl Budget {
    /// Far from the end of the range, as every budget in milliseconds is.
    pub open spec fn bounded(&self) -> bool {
        self.acc <= 0x7FFF_FFFF_FFFF_FFFF && self.limit <= 0x7FFF_FFFF_FFFF_FFFF
    }

    pub fn new(ms: u32, now: u32) -> (b: Budget)
        ensures
            b == (Budget { last: now, acc: 0, limit: (128_000 * ms) as u64 }),
            b.bounded(),
    {
        Budget { last: now, acc: 0, limit: ms as u64 * CYC_PER_MS }
    }

    /// Whether the time is over at `now`.
    pub fn expired(&mut self, now: u32) -> (b: bool)
        requires
            old(self).acc <= 0x7FFF_FFFF_FFFF_FFFF,
        ensures
            *final(self) == polled(*old(self), now),
            b == (final(self).acc >= final(self).limit),
    {
        self.acc = self.acc + now.wrapping_sub(self.last) as u64;
        self.last = now;
        self.acc >= self.limit
    }
}

/// A deadline after a look at the counter.
pub open spec fn polled(b: Budget, now: u32) -> Budget {
    Budget {
        last: now,
        acc: (b.acc + (now - b.last) % 0x1_0000_0000) as u64,
        limit: b.limit,
    }
}

/// A deadline after looks at `n` times, of which the counter shows the
/// remainder.
pub open spec fn after_polls(b: Budget, times: Seq<int>, n: int) -> Budget
    decreases n,
{
    if n <= 0 {
        b
    } else {
        polled(after_polls(b, times, n - 1), (times[n - 1] % 0x1_0000_0000) as u32)
    }
}

/// The time of look `i`; the first comes after `start`.
pub open spec fn look(start: int, times: Seq<int>, i: int) -> int {
    if i < 0 {
        start
    } else {
        times[i]
    }
}

/// A deadline counts the time that has really passed, however long that is,
/// as long as the counter does not go round between two looks.
pub proof fn law_deadlines_count_real_time(start: int, limit: u64, times: Seq<int>, n: int)
    requires
        0 <= start,
        0 <= n <= times.len(),
        forall|i: int|
            0 <= i < n ==> look(start, times, i - 1) <= #[trigger] times[i] < look(
                start,
                times,
                i - 1,
            ) + 0x1_0000_0000,
        look(start, times, n - 1) - start <= u64::MAX,
    ensures
        ({
            let b = Budget { last: (start % 0x1_0000_0000) as u32, acc: 0, limit };
            let e = after_polls(b, times, n);
            &&& e.acc == look(start, times, n - 1) - start
            &&& e.last == look(start, times, n - 1) % 0x1_0000_0000
            &&& e.limit == limit
            &&& 0 <= look(start, times, n - 1)
        }),
    decreases n,
{
    if n > 0 {
        let then = look(start, times, n - 2);
        assert(then <= times[n - 1]);
        law_deadlines_count_real_time(start, limit, times, n - 1);
        lemma_counter_difference(then, times[n - 1]);
    }
}

proof fn lemma_counter_difference(then: int, now: int)
    requires
        0 <= then <= now < then + 0x1_0000_0000,
    ensures
        (now % 0x1_0000_0000 - then % 0x1_0000_0000) % 0x1_0000_0000 == now - then,
{
    let m = 0x1_0000_0000int;
    let a = then / m;
    let b = now / m;
    let x = then % m;
    let y = now % m;
    assert(then == m * a + x && now == m * b + y);
    assert(a <= b <= a + 1);
    if b == a {
        assert(y - x == now - then);
    } else {
        assert(y - x == now - then - m);
        assert((y - x) % m == y - x + m);
    }
}

// --- transfers --------------------------------------------------------------------------

pub const E_SEND_TIME: i32 = -620;

pub const E_BUS: i32 = -621;

pub const E_RECV_TIME: i32 = -622;

pub const E_LINK: i32 = -623;

/// The host sent an empty packet: it has lost the framing.
pub const E_EMPTY: i32 = -624;

/// How a running transfer stands.
#[derive(Clone, Copy, PartialEq, Eq, Structural, Debug)]
pub enum Check {
    Running,
    /// Over, with the bytes received.
    Moved(usize),
    /// Take the endpoint back and fail.
    Abort(i32),
}

/// A transfer that is neither complete nor failed goes on, unless the link
/// is gone or the time is over.
pub open spec fn check_of(s: EndpointStatus, gone: bool, expired: bool, late: i32) -> Check {
    match s {
        EndpointStatus::Complete(n) => Check::Moved(n),
        EndpointStatus::AhbError => Check::Abort(E_BUS),
        EndpointStatus::Busy => if gone {
            Check::Abort(E_LINK)
        } else if expired {
            Check::Abort(late)
        } else {
            Check::Running
        },
    }
}

fn check(s: EndpointStatus, gone: bool, expired: bool, late: i32) -> (c: Check)
    ensures
        c == check_of(s, gone, expired, late),
{
    match s {
        EndpointStatus::Complete(n) => Check::Moved(n),
        EndpointStatus::AhbError => Check::Abort(E_BUS),
        EndpointStatus::Busy => {
            if gone {
                Check::Abort(E_LINK)
            } else if expired {
                Check::Abort(late)
            } else {
                Check::Running
            }
        },
    }
}

pub fn ep_in_check(s: EndpointStatus, gone: bool, expired: bool) -> (c: Check)
    ensures
        c == check_of(s, gone, expired, E_SEND_TIME),
{
    check(s, gone, expired, E_SEND_TIME)
}

pub fn ep_out_check(s: EndpointStatus, gone: bool, expired: bool) -> (c: Check)
    ensures
        c == check_of(s, gone, expired, E_RECV_TIME),
{
    check(s, gone, expired, E_RECV_TIME)
}

/// A run of packets: where it starts, and its bytes.
#[derive(Clone, Copy, PartialEq, Eq, Structural, Debug)]
pub struct Run {
    pub off: usize,
    pub n: usize,
}

/// Bytes of the next run when `left` are left.
pub open spec fn run_len(left: int) -> int {
    if left < RUN_MAX {
        left
    } else {
        RUN_MAX as int
    }
}

/// The runs that send the bytes from `off` on, and the empty packet that
/// whole packets need.
pub open spec fn send_runs(len: int, off: int) -> Seq<Run>
    decreases len - off,
{
    if off >= len {
        if len % 512 == 0 {
            seq![Run { off: 0, n: 0 }]
        } else {
            Seq::empty()
        }
    } else {
        seq![Run { off: off as usize, n: run_len(len - off) as usize }] + send_runs(
            len,
            off + run_len(len - off),
        )
    }
}

/// The run that follows when `off` of `len` bytes have gone out, or the end.
pub open spec fn send_next(off: int, len: int) -> Next {
    if off < len {
        Next::More(Run { off: off as usize, n: run_len(len - off) as usize })
    } else if len % 512 == 0 {
        Next::More(Run { off: 0, n: 0 })
    } else {
        Next::Done(0)
    }
}

/// What follows run `r` of a send of `len` bytes that came out with `rc`: the
/// first failure ends it, and so does the empty packet.
pub open spec fn send_after(r: Run, len: int, rc: i32) -> Next {
    if rc != 0 {
        Next::Done(rc)
    } else if r.n == 0 {
        Next::Done(0)
    } else {
        send_next(r.off + r.n, len)
    }
}

fn next_send(off: usize, len: usize) -> (x: Next)
    ensures
        x == send_next(off as int, len as int),
{
    if off < len {
        let left: usize = len - off;
        let n: usize = if left < RUN_MAX {
            left
        } else {
            RUN_MAX
        };
        Next::More(Run { off, n })
    } else if len % MPS_BULK == 0 {
        Next::More(Run { off: 0, n: 0 })
    } else {
        Next::Done(0)
    }
}

/// The first run of a send of exactly `len` bytes.
pub fn send_first(len: usize) -> (r: Run)
    ensures
        Next::More(r) == send_next(0, len as int),
        r == send_runs(len as int, 0)[0],
{
    match next_send(0, len) {
        Next::More(r) => r,
        Next::Done(_) => Run { off: 0, n: 0 },
    }
}

/// Follows a run of a send of exactly `len` bytes: `rc` is how it came out.
pub fn send(r: Run, len: usize, rc: i32) -> (x: Next)
    requires
        r.off + r.n <= usize::MAX,
    ensures
        x == send_after(r, len as int, rc),
{
    if rc != 0 {
        return Next::Done(rc);
    }
    if r.n == 0 {
        return Next::Done(0);
    }
    next_send(r.off + r.n, len)
}

/// A send whose runs all go out makes the runs that move its bytes, one after
/// another, and ends behind the last of them.
pub proof fn law_a_send_makes_its_runs(len: int, i: int)
    requires
        0 <= len <= usize::MAX,
        0 <= i < send_runs(len, 0).len(),
    ensures
        send_after(send_runs(len, 0)[i], len, 0) == (if i + 1 < send_runs(len, 0).len() {
            Next::More(send_runs(len, 0)[i + 1])
        } else {
            Next::Done(0)
        }),
        send_next(0, len) == Next::More(send_runs(len, 0)[0]),
{
    lemma_run_follows(len, 0, i);
}

proof fn lemma_run_follows(len: int, off: int, i: int)
    requires
        0 <= off <= len <= usize::MAX,
        0 <= i < send_runs(len, off).len(),
    ensures
        send_after(send_runs(len, off)[i], len, 0) == (if i + 1 < send_runs(len, off).len() {
            Next::More(send_runs(len, off)[i + 1])
        } else {
            Next::Done(0)
        }),
        send_next(off, len) == Next::More(send_runs(len, off)[0]),
    decreases len - off,
{
    let r = send_runs(len, off);
    if off < len {
        let n = run_len(len - off);
        let rest = send_runs(len, off + n);
        assert(r == seq![Run { off: off as usize, n: n as usize }] + rest);
        if i > 0 {
            lemma_run_follows(len, off + n, i - 1);
            assert(r[i] == rest[i - 1]);
            if i + 1 < r.len() {
                assert(r[i + 1] == rest[i]);
            }
        } else if rest.len() > 0 {
            lemma_run_follows(len, off + n, 0);
            assert(r[1] == rest[0]);
        } else {
            assert(send_runs(len, off + n).len() == 0);
        }
    }
}

/// Bytes of the first `n` runs.
pub open spec fn run_bytes(runs: Seq<Run>, n: int) -> int
    decreases n,
{
    if n <= 0 {
        0
    } else {
        run_bytes(runs, n - 1) + runs[n - 1].n
    }
}

/// A send moves every byte once, and ends with a packet that is not full.
pub proof fn law_sends_end_short(len: int)
    requires
        0 <= len <= usize::MAX,
    ensures
        ({
            let r = send_runs(len, 0);
            &&& r.len() > 0
            &&& run_bytes(r, r.len() as int) == len
            &&& r.last().n % 512 != 0 || r.last().n == 0
        }),
{
    lemma_rest_ends_short(len, 0);
}

proof fn lemma_rest_ends_short(len: int, off: int)
    requires
        0 <= off <= len <= usize::MAX,
        off < len ==> off % 512 == 0,
    ensures
        ({
            let r = send_runs(len, off);
            &&& off + run_bytes(r, r.len() as int) == len
            &&& r.len() > 0 ==> r.last().n % 512 != 0 || r.last().n == 0
            &&& off < len || len % 512 == 0 ==> r.len() > 0
        }),
    decreases len - off,
{
    let r = send_runs(len, off);
    if off < len {
        let n = run_len(len - off);
        let rest = send_runs(len, off + n);
        lemma_rest_ends_short(len, off + n);
        lemma_run_shift(r, rest, r.len() as int);
        if rest.len() > 0 {
            assert(r.last() == rest.last());
        } else {
            assert(r.last().n == n);
        }
    } else if len % 512 == 0 {
        assert(run_bytes(r, 1) == run_bytes(r, 0) + r[0].n);
    }
}

proof fn lemma_run_shift(runs: Seq<Run>, rest: Seq<Run>, i: int)
    requires
        1 <= i <= runs.len(),
        runs == seq![runs[0]] + rest,
    ensures
        run_bytes(runs, i) == runs[0].n + run_bytes(rest, i - 1),
    decreases i,
{
    if i > 1 {
        lemma_run_shift(runs, rest, i - 1);
        assert(runs[i - 1] == rest[i - 2]);
    } else {
        assert(run_bytes(runs, 0) == 0);
        assert(run_bytes(rest, 0) == 0);
    }
}

/// What a transfer of a known length does after a run.
#[derive(Clone, Copy, PartialEq, Eq, Structural, Debug)]
pub enum Next {
    /// Receive into this run.
    More(Run),
    /// Everything is there, or it failed with this code.
    Done(i32),
}

/// The next run of a receive that has `off` of `len` bytes, or its end.
pub open spec fn recv_next(off: int, len: int) -> Next {
    if off < len {
        Next::More(Run { off: off as usize, n: run_len(len - off) as usize })
    } else {
        Next::Done(0)
    }
}

/// Follows a run of a receive: `got` are its bytes or its code. A host that
/// sends an empty packet has lost the framing.
pub fn recv(off: usize, len: usize, got: Result<usize, i32>) -> (x: Next)
    requires
        got matches Ok(n) ==> off + n <= usize::MAX,
    ensures
        x == (match got {
            Err(e) => Next::Done(e),
            Ok(n) => if n == 0 {
                Next::Done(E_EMPTY)
            } else {
                recv_next(off + n, len as int)
            },
        }),
{
    match got {
        Err(e) => Next::Done(e),
        Ok(n) => {
            if n == 0 {
                return Next::Done(E_EMPTY);
            }
            let off = off + n;
            if off < len {
                let left: usize = len - off;
                let n: usize = if left < RUN_MAX {
                    left
                } else {
                    RUN_MAX
                };
                Next::More(Run { off, n })
            } else {
                Next::Done(0)
            }
        },
    }
}

pub const DRAIN_MAX: u32 = 64;

/// Whether another packet is to be thrown away after `reads` of them, the
/// last of which came (or found nothing).
pub fn drain(reads: u32, came: bool) -> (more: bool)
    ensures
        more == (came && reads < DRAIN_MAX),
{
    came && reads < DRAIN_MAX
}

/// A step of the wait for the host: before the bus is looked at, and after.
/// `None` goes on.
pub fn init_step(link: &mut Link, looked: bool, expired: bool) -> (r: Option<i32>)
    ensures
        r == (if looked {
            if expired {
                Some(E_NOT_CONFIGURED)
            } else {
                None
            }
        } else if old(link).configured {
            Some(0i32)
        } else {
            None
        }),
        *final(link) == (Link {
            reset_after_config: old(link).reset_after_config && r != Some(0i32),
            ..*old(link)
        }),
{
    if looked {
        if expired {
            return Some(E_NOT_CONFIGURED);
        }
        return None;
    }
    if link.configured() {
        link.settled();
        return Some(0);
    }
    None
}

// --- split-phase transfers --------------------------------------------------------------

/// A bulk transfer that runs while the processor works.
#[derive(Clone, Copy, PartialEq, Eq, Structural, Debug)]
pub struct Xfer {
    pub dma: u32,
    pub len: usize,
    pub off: usize,
    /// Bytes that the running run was programmed for.
    pub want: usize,
    /// The empty packet at the end has been armed.
    pub zlp_armed: bool,
    pub budget: Budget,
}

/// An endpoint to arm: where the bytes are, and how many.
#[derive(Clone, Copy, PartialEq, Eq, Structural, Debug)]
pub struct Arm {
    pub addr: u32,
    pub n: usize,
}

/// What a check of a split-phase transfer asks for.
#[derive(Clone, Copy, PartialEq, Eq, Structural, Debug)]
pub enum Flow {
    Wait,
    Arm(Arm),
    Done,
    /// Take the endpoint back and fail.
    Abort(i32),
    /// Fail; the endpoint is idle.
    Fail(i32),
}

/// The endpoint setting of a run of a buffer at `dma`.
pub open spec fn arm_of(dma: u32, r: Run) -> Arm {
    Arm { addr: (dma + r.off) as u32, n: r.n }
}

impl Xfer {
    /// The buffer lies in the address space.
    pub open spec fn fits(&self) -> bool {
        self.dma + self.len <= u32::MAX
    }

    /// The runs that a send still has to complete, the running one first.
    pub open spec fn rest(&self) -> Seq<Run> {
        if self.zlp_armed {
            seq![Run { off: 0, n: 0 }]
        } else {
            send_runs(self.len as int, self.off as int)
        }
    }

    /// A send in progress.
    pub open spec fn sending(&self) -> bool {
        &&& self.fits()
        &&& self.budget.bounded()
        &&& self.zlp_armed ==> self.len % 512 == 0
        &&& !self.zlp_armed ==> self.off < self.len && self.want == run_len(
            self.len - self.off,
        )
    }

    /// A receive in progress: the running run is at least a packet and does
    /// not pass the end by a packet.
    pub open spec fn receiving(&self) -> bool {
        &&& self.fits()
        &&& self.len <= 0xFFFF_FE00
        &&& self.budget.bounded()
        &&& self.off < self.len
        &&& self.want == recv_want(run_len(self.len - self.off))
    }
}

/// Bytes that an OUT run with room for `n` is programmed for: whole packets,
/// at least one.
pub open spec fn recv_want(n: int) -> int {
    if n < 512 {
        512
    } else {
        n / 512 * 512
    }
}

fn send_arm_next(x: &mut Xfer) -> (a: Arm)
    requires
        old(x).fits(),
        old(x).off <= old(x).len,
        old(x).off >= old(x).len ==> old(x).len % 512 == 0,
        !old(x).zlp_armed,
        old(x).budget.bounded(),
    ensures
        final(x).sending(),
        final(x).rest() == send_runs(old(x).len as int, old(x).off as int),
        final(x).rest().len() > 0,
        a == arm_of(old(x).dma, final(x).rest()[0]),
        final(x).dma == old(x).dma,
        final(x).len == old(x).len,
        final(x).budget == old(x).budget,
{
    if x.off < x.len {
        let left: usize = x.len - x.off;
        let n: usize = if left < RUN_MAX {
            left
        } else {
            RUN_MAX
        };
        x.want = n;
        Arm { addr: x.dma + x.off as u32, n }
    } else {
        x.want = 0;
        x.zlp_armed = true;
        Arm { addr: x.dma, n: 0 }
    }
}

/// Starts a send, and says what to arm.
pub fn send_start(dma: u32, len: usize, to_ms: u32, now: u32) -> (r: (Xfer, Arm))
    requires
        dma + len <= u32::MAX,
    ensures
        r.0.sending(),
        r.0.dma == dma,
        r.0.len == len,
        r.0.rest() == send_runs(len as int, 0),
        r.0.rest().len() > 0,
        r.1 == arm_of(dma, r.0.rest()[0]),
        r.0.budget == (Budget { last: now, acc: 0, limit: (128_000 * to_ms) as u64 }),
{
    let mut x = Xfer {
        dma,
        len,
        off: 0,
        want: 0,
        zlp_armed: false,
        budget: Budget::new(to_ms, now),
    };
    let a = send_arm_next(&mut x);
    (x, a)
}

/// The budget after a check: time counts only while the endpoint is busy
/// and the link is up.
pub open spec fn budget_after(b: Budget, s: EndpointStatus, gone: bool, now: u32) -> Budget {
    if s == EndpointStatus::Busy && !gone {
        polled(b, now)
    } else {
        b
    }
}

fn tick(b: &mut Budget, s: EndpointStatus, gone: bool, now: u32) -> (e: bool)
    requires
        old(b).acc <= 0x7FFF_FFFF_FFFF_FFFF,
    ensures
        *final(b) == budget_after(*old(b), s, gone, now),
        s == EndpointStatus::Busy && !gone ==> e == (final(b).acc >= final(b).limit),
{
    match s {
        EndpointStatus::Busy => {
            if gone {
                false
            } else {
                b.expired(now)
            }
        },
        _ => false,
    }
}

/// Checks on a send: the endpoint's state, whether the link is gone, and the
/// time. Each run that is through is followed by the next.
pub fn send_check(x: &mut Xfer, s: EndpointStatus, gone: bool, now: u32) -> (f: Flow)
    requires
        old(x).sending(),
    ensures
        ({
            let b = budget_after(old(x).budget, s, gone, now);
            match check_of(s, gone, b.acc >= b.limit, E_SEND_TIME) {
                Check::Running => {
                    &&& f == Flow::Wait
                    &&& *final(x) == (Xfer { budget: b, ..*old(x) })
                    &&& final(x).sending()
                },
                Check::Abort(c) => f == Flow::Abort(c),
                Check::Moved(_) => {
                    &&& old(x).rest().len() > 0
                    &&& f == Flow::Done <==> old(x).rest().len() == 1
                    &&& old(x).rest().len() > 1 ==> {
                        &&& final(x).sending()
                        &&& final(x).rest() == old(x).rest().drop_first()
                        &&& f == Flow::Arm(arm_of(old(x).dma, final(x).rest()[0]))
                        &&& final(x).dma == old(x).dma
                        &&& final(x).len == old(x).len
                        &&& final(x).budget == old(x).budget
                    }
                },
            }
        }),
{
    let ghost before = *x;
    let e = tick(&mut x.budget, s, gone, now);
    match ep_in_check(s, gone, e) {
        Check::Running => Flow::Wait,
        Check::Abort(c) => Flow::Abort(c),
        Check::Moved(_) => {
            if x.zlp_armed {
                return Flow::Done;
            }
            let ghost first = Run { off: x.off, n: x.want };
            x.off = x.off + x.want;
            proof {
                let rest = send_runs(x.len as int, x.off as int);
                assert(before.rest() == seq![first] + rest);
                assert(before.rest().drop_first() =~= rest);
                assert(x.off >= x.len && x.len % 512 != 0 ==> rest.len() == 0);
                assert(x.off < x.len || x.len % 512 == 0 ==> rest.len() > 0);
            }
            if x.off < x.len || x.len % MPS_BULK == 0 {
                let a = send_arm_next(x);
                return Flow::Arm(a);
            }
            Flow::Done
        },
    }
}

fn recv_arm_next(x: &mut Xfer) -> (a: Arm)
    requires
        old(x).fits(),
        old(x).off < old(x).len <= 0xFFFF_FE00,
        old(x).budget.bounded(),
    ensures
        *final(x) == (Xfer {
            want: recv_want(run_len(old(x).len - old(x).off)) as usize,
            ..*old(x)
        }),
        final(x).receiving(),
        a == (Arm { addr: (old(x).dma + old(x).off) as u32, n: final(x).want }),
{
    let left: usize = x.len - x.off;
    let n: usize = if left < RUN_MAX {
        left
    } else {
        RUN_MAX
    };
    let armed = Device::out_arm(MPS_BULK, n);
    x.want = armed.1;
    Arm { addr: x.dma + x.off as u32, n: x.want }
}

/// Starts a receive, and says what to arm.
pub fn recv_start(dma: u32, len: usize, to_ms: u32, now: u32) -> (r: (Xfer, Arm))
    requires
        dma + len <= u32::MAX,
        0 < len <= 0xFFFF_FE00,
    ensures
        r.0.receiving(),
        r.0 == (Xfer {
            dma,
            len,
            off: 0,
            want: recv_want(run_len(len as int)) as usize,
            zlp_armed: false,
            budget: (Budget { last: now, acc: 0, limit: (128_000 * to_ms) as u64 }),
        }),
        r.1 == (Arm { addr: dma, n: r.0.want }),
{
    let mut x = Xfer {
        dma,
        len,
        off: 0,
        want: 0,
        zlp_armed: false,
        budget: Budget::new(to_ms, now),
    };
    let a = recv_arm_next(&mut x);
    (x, a)
}

/// Bytes of a running receive that are surely in memory, when the core has
/// `left` to go: two packets may still be on their way.
pub fn recv_landed(x: &Xfer, left: usize) -> (n: usize)
    requires
        x.receiving(),
    ensures
        n == ({
            let here = x.off + (if left < x.want {
                x.want - left
            } else {
                0
            });
            let sure = if here < 1024 {
                0
            } else {
                here - 1024
            };
            if sure < x.len {
                sure
            } else {
                x.len as int
            }
        }),
{
    let run: usize = if left < x.want {
        x.want - left
    } else {
        0
    };
    let here: usize = x.off + run;
    let sure: usize = if here < 2 * MPS_BULK {
        0
    } else {
        here - 2 * MPS_BULK
    };
    if sure < x.len {
        sure
    } else {
        x.len
    }
}

/// Checks on a receive, as [`send_check`] on a send.
pub fn recv_check(x: &mut Xfer, s: EndpointStatus, gone: bool, now: u32) -> (f: Flow)
    requires
        old(x).receiving(),
        s matches EndpointStatus::Complete(n) ==> n <= old(x).want,
    ensures
        ({
            let b = budget_after(old(x).budget, s, gone, now);
            match check_of(s, gone, b.acc >= b.limit, E_RECV_TIME) {
                Check::Running => {
                    &&& f == Flow::Wait
                    &&& *final(x) == (Xfer { budget: b, ..*old(x) })
                    &&& final(x).receiving()
                },
                Check::Abort(c) => f == Flow::Abort(c),
                Check::Moved(n) => if n == 0 {
                    f == Flow::Fail(E_EMPTY)
                } else if old(x).off + n >= old(x).len {
                    f == Flow::Done
                } else {
                    &&& final(x).receiving()
                    &&& *final(x) == (Xfer {
                        off: (old(x).off + n) as usize,
                        want: final(x).want,
                        ..*old(x)
                    })
                    &&& f == Flow::Arm(
                        Arm { addr: (old(x).dma + old(x).off + n) as u32, n: final(x).want },
                    )
                },
            }
        }),
{
    let e = tick(&mut x.budget, s, gone, now);
    match ep_out_check(s, gone, e) {
        Check::Running => Flow::Wait,
        Check::Abort(c) => Flow::Abort(c),
        Check::Moved(n) => {
            if n == 0 {
                return Flow::Fail(E_EMPTY);
            }
            x.off = x.off + n;
            if x.off < x.len {
                let a = recv_arm_next(x);
                return Flow::Arm(a);
            }
            Flow::Done
        },
    }
}

/// What is sent of a descriptor is its beginning, as much as was asked for.
pub proof fn law_the_beginning_is_sent(d: Seq<u8>, len: int)
    requires
        d.len() <= 192,
        0 <= len,
    ensures
        capped(d, len).len() == (if d.len() < len {
            d.len() as int
        } else {
            len
        }),
        forall|i: int| 0 <= i < capped(d, len).len() ==> #[trigger] capped(d, len)[i] == d[i],
{
}

/// A string descriptor says its length and its kind, and holds the text as
/// 16-bit characters.
pub proof fn law_strings_hold_their_text(s: Seq<u8>, i: int)
    requires
        s.len() <= 126,
        0 <= i < s.len(),
    ensures
        string_bytes(s).len() == 2 + 2 * s.len(),
        string_bytes(s)[0] == string_bytes(s).len(),
        string_bytes(s)[1] == 3,
        string_bytes(s)[2 + 2 * i] + 256 * string_bytes(s)[3 + 2 * i] == s[i],
{
    assert((2 + 2 * i) % 2 == 0 && (3 + 2 * i) % 2 == 1);
    assert((2 + 2 * i - 2) / 2 == i);
}

/// The host's standard requests are answered as they ask: the descriptor of
/// the kind in the upper byte, the address in the lower seven bits, a
/// configuration that is not zero.
pub proof fn law_standard_requests_are_answered(sp: Seq<u8>, configured: bool)
    requires
        sp.len() == 8,
        sp[0] == 0x80 || sp[0] == 0,
    ensures
        sp[0] == 0x80 && sp[1] == 6 && sp[3] == 1 ==> reply_to(sp, configured) == ReplySpec::In(
            capped(desc_device(), sp[6] + 256 * sp[7]),
        ),
        sp[0] == 0x80 && sp[1] == 6 && sp[3] == 2 ==> reply_to(sp, configured) == ReplySpec::In(
            capped(desc_config(), sp[6] + 256 * sp[7]),
        ),
        sp[0] == 0 && sp[1] == 5 && sp[2] < 128 && sp[3] == 0 ==> reply_to(sp, configured)
            == ReplySpec::SetAddress(sp[2]),
        sp[0] == 0 && sp[1] == 9 && sp[3] == 0 ==> reply_to(sp, configured)
            == ReplySpec::Configure(sp[2] != 0),
        sp[0] == 0 && sp[1] == 6 ==> reply_to(sp, configured) == ReplySpec::Stall,
        sp[0] == 0x80 && (sp[1] == 5 || sp[1] == 9) ==> reply_to(sp, configured)
            == ReplySpec::Stall,
{
}

/// A descriptor that is answered is of the kind that was asked for: it names
/// the kind in its second byte. There are device, configuration, string and
/// qualifier descriptors, and no others.
pub proof fn law_descriptors_name_their_kind(dtype: int, index: int, len: int)
    requires
        2 <= len,
    ensures
        match descriptor_reply(dtype, index, len) {
            ReplySpec::In(d) => {
                &&& dtype == 1 || dtype == 2 || dtype == 3 || dtype == 6
                &&& 2 <= d.len() <= len
                &&& d[1] == dtype
            },
            ReplySpec::Stall => dtype != 1 && dtype != 2 && dtype != 3 && dtype != 6,
            _ => false,
        },
{
}

/// A reception is armed for whole packets, never for less than one, and for
/// no more than one run.
pub proof fn law_receptions_take_whole_packets(n: int)
    requires
        0 <= n,
    ensures
        recv_want(n) % 512 == 0,
        recv_want(n) >= 512,
        n >= 512 ==> n - 512 < recv_want(n) <= n,
{
}

/// An endpoint that is done says how much it moved; one that is not is given
/// up when the link is gone or its time has passed.
pub proof fn law_a_busy_endpoint_is_given_up_in_time(
    s: EndpointStatus,
    gone: bool,
    expired: bool,
    late: i32,
)
    ensures
        s matches EndpointStatus::Complete(n) ==> check_of(s, gone, expired, late)
            == Check::Moved(n),
        s is Busy ==> (check_of(s, gone, expired, late) == Check::Running <==> !gone && !expired),
        s is Busy && expired && !gone ==> check_of(s, gone, expired, late) == Check::Abort(late),
        s is AhbError ==> check_of(s, gone, expired, late) is Abort,
{
}

} // verus!
