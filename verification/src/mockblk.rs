//! Blocks served by a host: frames of 512 bytes, one exchange at a time.
//!
//! ```text
//! device -> host   request frame   [+ payload for a write]
//! host   -> device response frame  [+ payload for a read]
//! ```
//!
//! Every request carries a tag that the answer echoes, and every payload a
//! sum, so that the two sides cannot slip apart unseen.

use crate::bytes::{
    get32, law_bytes_make_the_value, le32, put32, signed32, to_signed, to_unsigned, unsigned32,
    with_le32,
};
use crate::layout::BLOCK;
use crate::storage::E_BUSY;
use vstd::prelude::*;

verus! {

pub const REQ_MAGIC: u32 = 0x514B_4C42;

pub const RSP_MAGIC: u32 = 0x524B_4C42;

pub const OP_READ: u8 = 1;

pub const OP_WRITE: u8 = 2;

pub const OP_INFO: u8 = 3;

/// Bad magic of a response.
pub const E_MAGIC: i32 = -640;

/// The host refused the handshake.
pub const E_REFUSED: i32 = -641;

/// The link is not up.
pub const E_NOT_READY: i32 = -642;

/// The host refused a read.
pub const E_READ: i32 = -643;

/// The host answered for another count.
pub const E_COUNT: i32 = -644;

/// A payload's sum is wrong.
pub const E_PAYLOAD: i32 = -645;

/// The host refused a write.
pub const E_WRITE: i32 = -646;

/// A response to another request.
pub const E_SLIPPED: i32 = -648;

// --- sums -------------------------------------------------------------------------------

/// One step of the payload sum: rotate left by one, add a word.
pub open spec fn sum_step(s: int, w: int) -> int {
    ((2 * s) % 0x1_0000_0000 + s / 0x8000_0000 + w) % 0x1_0000_0000
}

/// The sum of the first `n` words of a payload.
pub open spec fn word_sum(b: Seq<u8>, n: int) -> int
    decreases n,
{
    if n <= 0 {
        0
    } else {
        sum_step(word_sum(b, n - 1), le32(b, 4 * (n - 1)))
    }
}

/// The sum of a payload, a word at a time; bytes that make no whole word do
/// not count.
pub fn sum32(b: &[u8]) -> (s: u32)
    ensures
        s == word_sum(b@, b@.len() as int / 4),
{
    let n: usize = b.len() / 4;
    let total: usize = b.len();
    let mut s: u32 = 0;
    let mut i: usize = 0;
    while i < n
        invariant
            i <= n,
            n == total / 4,
            total == b@.len(),
            s == word_sum(b@, i as int),
        decreases n - i,
    {
        let w: u32 = get32(b, 4 * i);
        let turned: u64 = (2 * (s as u64)) % 0x1_0000_0000 + s as u64 / 0x8000_0000;
        s = ((turned + w as u64) % 0x1_0000_0000) as u32;
        i = i + 1;
    }
    s
}

// --- frames -----------------------------------------------------------------------------

/// A request.
#[derive(Clone, Copy, PartialEq, Eq, Structural, Debug)]
pub struct Request {
    pub op: u8,
    pub lba: u32,
    pub count: u32,
    pub sum: u32,
    pub tag: u32,
}

/// A response.
#[derive(Clone, Copy, PartialEq, Eq, Structural, Debug)]
pub struct Response {
    pub status: i32,
    pub count: u32,
    pub sum: u32,
    pub tag: u32,
}

/// A frame of zeros.
pub open spec fn blank_frame() -> Seq<u8> {
    Seq::new(512, |i: int| 0u8)
}

/// The frame of a request.
pub open spec fn request_frame(r: Request) -> Seq<u8> {
    with_le32(
        with_le32(
            with_le32(
                with_le32(
                    with_le32(blank_frame(), 0, REQ_MAGIC as int).update(4, r.op),
                    8,
                    r.lba as int,
                ),
                12,
                r.count as int,
            ),
            16,
            r.sum as int,
        ),
        20,
        r.tag as int,
    )
}

/// The frame of a response.
pub open spec fn response_frame(r: Response) -> Seq<u8> {
    with_le32(
        with_le32(
            with_le32(
                with_le32(
                    with_le32(blank_frame(), 0, RSP_MAGIC as int),
                    4,
                    unsigned32(r.status as int),
                ),
                8,
                r.count as int,
            ),
            12,
            r.sum as int,
        ),
        16,
        r.tag as int,
    )
}

fn zeros() -> (f: Vec<u8>)
    ensures
        f@ == blank_frame(),
{
    let f: Vec<u8> = vec![0u8; BLOCK];
    assert(f@ =~= blank_frame());
    f
}

/// Builds a request frame.
pub fn build_request(r: Request) -> (f: Vec<u8>)
    ensures
        f@ == request_frame(r),
        f@.len() == 512,
{
    let mut f = zeros();
    put32(f.as_mut_slice(), 0, REQ_MAGIC);
    f.set(4, r.op);
    put32(f.as_mut_slice(), 8, r.lba);
    put32(f.as_mut_slice(), 12, r.count);
    put32(f.as_mut_slice(), 16, r.sum);
    put32(f.as_mut_slice(), 20, r.tag);
    f
}

/// Builds a response frame.
pub fn build_response(r: Response) -> (f: Vec<u8>)
    ensures
        f@ == response_frame(r),
        f@.len() == 512,
{
    let mut f = zeros();
    put32(f.as_mut_slice(), 0, RSP_MAGIC);
    put32(f.as_mut_slice(), 4, to_unsigned(r.status));
    put32(f.as_mut_slice(), 8, r.count);
    put32(f.as_mut_slice(), 12, r.sum);
    put32(f.as_mut_slice(), 16, r.tag);
    f
}

/// The request that a frame carries, if its magic is right.
pub fn parse_request(f: &[u8]) -> (r: Option<Request>)
    requires
        f@.len() >= 24,
    ensures
        r == (if le32(f@, 0) == REQ_MAGIC {
            Some(
                Request {
                    op: f@[4],
                    lba: le32(f@, 8) as u32,
                    count: le32(f@, 12) as u32,
                    sum: le32(f@, 16) as u32,
                    tag: le32(f@, 20) as u32,
                },
            )
        } else {
            None::<Request>
        }),
{
    if get32(f, 0) != REQ_MAGIC {
        return None;
    }
    Some(
        Request {
            op: f[4],
            lba: get32(f, 8),
            count: get32(f, 12),
            sum: get32(f, 16),
            tag: get32(f, 20),
        },
    )
}

/// What a response frame says to the request with tag `tag`.
pub open spec fn answer(f: Seq<u8>, tag: u32) -> Result<(i32, u32, u32), i32> {
    if le32(f, 0) != RSP_MAGIC {
        Err(E_MAGIC)
    } else if le32(f, 16) != tag {
        Err(E_SLIPPED)
    } else {
        Ok((signed32(le32(f, 4)) as i32, le32(f, 8) as u32, le32(f, 12) as u32))
    }
}

/// Checks a response frame against the request's tag: status, count and sum.
pub fn response_parse(f: &[u8], tag: u32) -> (r: Result<(i32, u32, u32), i32>)
    requires
        f@.len() >= 20,
    ensures
        r == answer(f@, tag),
{
    if get32(f, 0) != RSP_MAGIC {
        return Err(E_MAGIC);
    }
    if get32(f, 16) != tag {
        return Err(E_SLIPPED);
    }
    Ok((to_signed(get32(f, 4)), get32(f, 8), get32(f, 12)))
}

/// A word written into a frame does not touch the words elsewhere, and
/// reads back.
proof fn lemma_word(s: Seq<u8>, o: int, v: int, p: int)
    requires
        0 <= o,
        o + 4 <= s.len(),
        0 <= p,
        p + 4 <= s.len(),
        0 <= v < 0x1_0000_0000,
    ensures
        with_le32(s, o, v).len() == s.len(),
        le32(with_le32(s, o, v), o) == v,
        p + 4 <= o || o + 4 <= p ==> le32(with_le32(s, o, v), p) == le32(s, p),
        forall|i: int|
            0 <= i < s.len() && !(o <= i < o + 4) ==> #[trigger] with_le32(s, o, v)[i] == s[i],
{
    crate::bytes::law_le32_round_trip(s, o, v as u32);
}

/// What one side builds the other side reads: a request comes through.
pub proof fn law_request_comes_through(r: Request)
    ensures
        request_frame(r).len() == 512,
        le32(request_frame(r), 0) == REQ_MAGIC,
        request_frame(r)[4] == r.op,
        le32(request_frame(r), 8) == r.lba,
        le32(request_frame(r), 12) == r.count,
        le32(request_frame(r), 16) == r.sum,
        le32(request_frame(r), 20) == r.tag,
{
    let f0 = blank_frame();
    let f1 = with_le32(f0, 0, REQ_MAGIC as int);
    let f2 = f1.update(4, r.op);
    let f3 = with_le32(f2, 8, r.lba as int);
    let f4 = with_le32(f3, 12, r.count as int);
    let f5 = with_le32(f4, 16, r.sum as int);
    lemma_word(f0, 0, REQ_MAGIC as int, 0);
    assert(le32(f2, 0) == le32(f1, 0));
    lemma_word(f2, 8, r.lba as int, 0);
    lemma_word(f3, 12, r.count as int, 0);
    lemma_word(f3, 12, r.count as int, 8);
    lemma_word(f4, 16, r.sum as int, 0);
    lemma_word(f4, 16, r.sum as int, 8);
    lemma_word(f4, 16, r.sum as int, 12);
    lemma_word(f5, 20, r.tag as int, 0);
    lemma_word(f5, 20, r.tag as int, 8);
    lemma_word(f5, 20, r.tag as int, 12);
    lemma_word(f5, 20, r.tag as int, 16);
}

/// ... and so does a response, to the request with its tag and to no other.
pub proof fn law_response_comes_through(r: Response, tag: u32)
    ensures
        response_frame(r).len() == 512,
        answer(response_frame(r), tag) == (if tag == r.tag {
            Ok::<(i32, u32, u32), i32>((r.status, r.count, r.sum))
        } else {
            Err::<(i32, u32, u32), i32>(E_SLIPPED)
        }),
{
    let st = unsigned32(r.status as int);
    let f0 = blank_frame();
    let f1 = with_le32(f0, 0, RSP_MAGIC as int);
    let f2 = with_le32(f1, 4, st);
    let f3 = with_le32(f2, 8, r.count as int);
    let f4 = with_le32(f3, 12, r.sum as int);
    lemma_word(f0, 0, RSP_MAGIC as int, 0);
    lemma_word(f1, 4, st, 0);
    lemma_word(f2, 8, r.count as int, 0);
    lemma_word(f2, 8, r.count as int, 4);
    lemma_word(f3, 12, r.sum as int, 0);
    lemma_word(f3, 12, r.sum as int, 4);
    lemma_word(f3, 12, r.sum as int, 8);
    lemma_word(f4, 16, r.tag as int, 0);
    lemma_word(f4, 16, r.tag as int, 4);
    lemma_word(f4, 16, r.tag as int, 8);
    lemma_word(f4, 16, r.tag as int, 12);
}

// --- one exchange -----------------------------------------------------------------------

/// Milliseconds that an exchange of `count` blocks may take.
pub fn budget_ms(count: u32) -> (ms: u32)
    requires
        3000 + 2 * (count as int / 2) <= u32::MAX,
    ensures
        ms == 3000 + 2 * (count as int / 2),
{
    3000 + count / 2 * 2
}

/// What an exchange asks for next.
#[derive(Clone, Copy, PartialEq, Eq, Structural, Debug)]
pub enum Act {
    /// Send the request frame.
    Request,
    /// Receive the response frame.
    Response,
    /// Receive the payload, or send it.
    Receive,
    Send,
    Done(i32),
}

/// An exchange under way.
#[derive(Clone, Copy, PartialEq, Eq, Structural, Debug)]
pub struct Exchange {
    pub read: bool,
    pub count: u32,
    pub tag: u32,
    /// The sum that the host announced for a read.
    pub sum: u32,
}

impl Exchange {
    /// The request for `count` blocks from block `lba` on; for a write,
    /// `payload` is what will be sent.
    pub fn begin(tag: u32, lba: u32, count: u32, read: bool, payload: &[u8]) -> (r: (
        Exchange,
        Request,
    ))
        ensures
            ({
                let t = if tag == u32::MAX {
                    0u32
                } else {
                    (tag + 1) as u32
                };
                &&& r.0 == (Exchange { read, count, tag: t, sum: 0 })
                &&& r.1 == (Request {
                    op: if read {
                        OP_READ
                    } else {
                        OP_WRITE
                    },
                    lba,
                    count,
                    sum: if read {
                        0u32
                    } else {
                        word_sum(payload@, payload@.len() as int / 4) as u32
                    },
                    tag: t,
                })
            }),
    {
        let t: u32 = tag.wrapping_add(1);
        let sum: u32 = if read {
            0
        } else {
            sum32(payload)
        };
        let op: u8 = if read {
            OP_READ
        } else {
            OP_WRITE
        };
        (Exchange { read, count, tag: t, sum: 0 }, Request { op, lba, count, sum, tag: t })
    }

    /// The request frame went out with result `rc`.
    pub fn requested(&self, rc: i32) -> (a: Act)
        ensures
            a == (if rc != 0 {
                Act::Done(rc)
            } else if self.read {
                Act::Response
            } else {
                Act::Send
            }),
    {
        if rc != 0 {
            Act::Done(rc)
        } else if self.read {
            Act::Response
        } else {
            Act::Send
        }
    }

    /// The response frame came in with result `rc`.
    pub fn answered(&mut self, rc: i32, frame: &[u8]) -> (a: Act)
        requires
            frame@.len() >= 20,
        ensures
            final(self).read == old(self).read,
            final(self).count == old(self).count,
            final(self).tag == old(self).tag,
            rc != 0 ==> a == Act::Done(rc) && *final(self) == *old(self),
            rc == 0 ==> match answer(frame@, old(self).tag) {
                Err(e) => a == Act::Done(e) && *final(self) == *old(self),
                Ok((status, n, sum)) => if status != 0 {
                    a == Act::Done(if old(self).read {
                        E_READ
                    } else {
                        E_WRITE
                    }) && *final(self) == *old(self)
                } else if !old(self).read {
                    a == Act::Done(0) && *final(self) == *old(self)
                } else if n != old(self).count {
                    a == Act::Done(E_COUNT) && *final(self) == *old(self)
                } else {
                    a == Act::Receive && final(self).sum == sum
                },
            },
    {
        if rc != 0 {
            return Act::Done(rc);
        }
        match response_parse(frame, self.tag) {
            Err(e) => Act::Done(e),
            Ok((status, n, sum)) => {
                if status != 0 {
                    return Act::Done(
                        if self.read {
                            E_READ
                        } else {
                            E_WRITE
                        },
                    );
                }
                if !self.read {
                    return Act::Done(0);
                }
                if n != self.count {
                    return Act::Done(E_COUNT);
                }
                self.sum = sum;
                Act::Receive
            },
        }
    }

    /// The payload went through with result `rc`.
    pub fn moved(&self, rc: i32, payload: &[u8]) -> (a: Act)
        ensures
            a == (if rc != 0 {
                Act::Done(rc)
            } else if !self.read {
                Act::Response
            } else if word_sum(payload@, payload@.len() as int / 4) != self.sum {
                Act::Done(E_PAYLOAD)
            } else {
                Act::Done(0)
            }),
    {
        if rc != 0 {
            Act::Done(rc)
        } else if !self.read {
            Act::Response
        } else if sum32(payload) != self.sum {
            Act::Done(E_PAYLOAD)
        } else {
            Act::Done(0)
        }
    }
}

/// How a request for blocks is carried out.
#[derive(Clone, Copy, PartialEq, Eq, Structural, Debug)]
pub enum Path {
    /// The result is known.
    Now(i32),
    /// Block by block through an aligned buffer.
    Bounce,
    /// In one exchange.
    Direct,
}

/// Blocking transfers: the link has to be up, nothing is to do for no
/// blocks, and the endpoint wants word alignment.
pub fn rw(ready: bool, buf: u32, count: u32) -> (p: Path)
    ensures
        p == (if !ready {
            Path::Now(E_NOT_READY)
        } else if count == 0 {
            Path::Now(0)
        } else if buf % 4 != 0 {
            Path::Bounce
        } else {
            Path::Direct
        }),
{
    if !ready {
        Path::Now(E_NOT_READY)
    } else if count == 0 {
        Path::Now(0)
    } else if buf % 4 != 0 {
        Path::Bounce
    } else {
        Path::Direct
    }
}

// --- split-phase transfers --------------------------------------------------------------

#[derive(Clone, Copy, PartialEq, Eq, Structural, Debug)]
pub enum Stage {
    Idle,
    /// The payload is on its way.
    Data,
    /// A write's response is on its way.
    Resp,
    /// The result is ready.
    Done,
}

pub struct AsyncOp {
    pub stage: Stage,
    pub xfer: Exchange,
    pub rc: i32,
}

/// How a start is carried out.
#[derive(Clone, Copy, PartialEq, Eq, Structural, Debug)]
pub enum Start {
    Refused(i32),
    /// As a blocking transfer, whose result `done` takes.
    Blocking,
    /// The request (and for a read the response) now, the payload in the
    /// background.
    Split,
}

impl AsyncOp {
    pub fn new() -> (a: AsyncOp)
        ensures
            a == (AsyncOp {
                stage: Stage::Idle,
                xfer: Exchange { read: false, count: 0, tag: 0, sum: 0 },
                rc: 0,
            }),
    {
        AsyncOp {
            stage: Stage::Idle,
            xfer: Exchange { read: false, count: 0, tag: 0, sum: 0 },
            rc: 0,
        }
    }

    /// Starts a transfer. What cannot be split goes the blocking way.
    fn async_start(&mut self, ready: bool, buf: u32, count: u32, read: bool) -> (s: Start)
        ensures
            s == (if old(self).stage != Stage::Idle {
                Start::Refused(E_BUSY)
            } else if buf % 4 != 0 || count == 0 || !ready {
                Start::Blocking
            } else {
                Start::Split
            }),
            s is Refused ==> *final(self) == *old(self),
            !(s is Refused) ==> final(self).stage == Stage::Idle && final(self).rc == old(self).rc
                && final(self).xfer == (Exchange { read, count, ..old(self).xfer }),
    {
        if self.stage != Stage::Idle {
            return Start::Refused(E_BUSY);
        }
        self.xfer.read = read;
        self.xfer.count = count;
        if buf % 4 != 0 || count == 0 || !ready {
            Start::Blocking
        } else {
            Start::Split
        }
    }

    /// The result is known.
    pub fn done(&mut self, rc: i32)
        ensures
            final(self).stage == Stage::Done,
            final(self).rc == rc,
            final(self).xfer == old(self).xfer,
    {
        self.rc = rc;
        self.stage = Stage::Done;
    }

    /// The payload has been started.
    pub fn armed(&mut self, xfer: Exchange)
        ensures
            final(self).stage == Stage::Data,
            final(self).rc == old(self).rc,
            final(self).xfer == xfer,
    {
        self.xfer = xfer;
        self.stage = Stage::Data;
    }

    /// The payload is through with result `rc`. A write now waits for its
    /// response; `true` means that the result is ready.
    pub fn data_done(&mut self, rc: i32, payload: &[u8]) -> (ready: bool)
        requires
            old(self).stage == Stage::Data,
        ensures
            final(self).xfer == old(self).xfer,
            rc == 0 && !old(self).xfer.read ==> !ready && final(self).stage == Stage::Resp
                && final(self).rc == old(self).rc,
            rc != 0 || old(self).xfer.read ==> ready && final(self).stage == Stage::Done
                && final(self).rc == (if rc != 0 {
                rc
            } else if word_sum(payload@, payload@.len() as int / 4) != old(self).xfer.sum {
                E_PAYLOAD
            } else {
                0
            }),
    {
        match self.xfer.moved(rc, payload) {
            Act::Done(r) => {
                self.done(r);
                true
            },
            _ => {
                self.stage = Stage::Resp;
                false
            },
        }
    }

    /// A write's response is in with result `rc`.
    pub fn resp_done(&mut self, rc: i32, frame: &[u8])
        requires
            old(self).stage == Stage::Resp,
            frame@.len() >= 20,
        ensures
            final(self).stage == Stage::Done,
            final(self).xfer == old(self).xfer,
            final(self).rc == (if rc != 0 {
                rc
            } else {
                match answer(frame@, old(self).xfer.tag) {
                    Err(e) => e,
                    Ok((status, n, sum)) => if status == 0 {
                        0
                    } else {
                        E_WRITE
                    },
                }
            }),
    {
        let r: i32 = if rc != 0 {
            rc
        } else {
            match response_parse(frame, self.xfer.tag) {
                Err(e) => e,
                Ok((status, _, _)) => if status == 0 {
                    0
                } else {
                    E_WRITE
                },
            }
        };
        self.done(r);
    }

    /// Bytes of the pending read that are in memory; `live` is the
    /// endpoint's count.
    pub fn xfer_landed(&self, live: usize) -> (n: usize)
        requires
            self.xfer.count <= 0x7F_FFFF,
        ensures
            n == (if self.stage == Stage::Data && self.xfer.read {
                live as int
            } else if self.stage == Stage::Idle {
                0
            } else {
                512 * self.xfer.count
            }),
    {
        match self.stage {
            Stage::Data if self.xfer.read => live,
            Stage::Idle => 0,
            _ => self.xfer.count as usize * BLOCK,
        }
    }

    /// Whether nothing is left to wait for.
    pub fn xfer_poll(&self) -> (b: bool)
        ensures
            b == (self.stage == Stage::Idle || self.stage == Stage::Done),
    {
        self.stage == Stage::Idle || self.stage == Stage::Done
    }

    /// Takes the result of a transfer that is through; 0 if there is none.
    pub fn xfer_finish(&mut self) -> (rc: i32)
        requires
            old(self).stage == Stage::Idle || old(self).stage == Stage::Done,
        ensures
            final(self).stage == Stage::Idle,
            final(self).rc == old(self).rc,
            final(self).xfer == old(self).xfer,
            rc == (if old(self).stage == Stage::Idle {
                0
            } else {
                old(self).rc
            }),
    {
        if self.stage == Stage::Idle {
            return 0;
        }
        self.stage = Stage::Idle;
        self.rc
    }
}

/// Starts a read of `count` blocks into `dst`.
pub fn read_start(a: &mut AsyncOp, ready: bool, dst: u32, count: u32) -> (s: Start)
    ensures
        s == (if old(a).stage != Stage::Idle {
            Start::Refused(E_BUSY)
        } else if dst % 4 != 0 || count == 0 || !ready {
            Start::Blocking
        } else {
            Start::Split
        }),
        s is Refused ==> *final(a) == *old(a),
        !(s is Refused) ==> final(a).stage == Stage::Idle && final(a).rc == old(a).rc
            && final(a).xfer == (Exchange { read: true, count, ..old(a).xfer }),
{
    a.async_start(ready, dst, count, true)
}

/// Starts a write of `count` blocks from `src`.
pub fn write_start(a: &mut AsyncOp, ready: bool, src: u32, count: u32) -> (s: Start)
    ensures
        s == (if old(a).stage != Stage::Idle {
            Start::Refused(E_BUSY)
        } else if src % 4 != 0 || count == 0 || !ready {
            Start::Blocking
        } else {
            Start::Split
        }),
        s is Refused ==> *final(a) == *old(a),
        !(s is Refused) ==> final(a).stage == Stage::Idle && final(a).rc == old(a).rc
            && final(a).xfer == (Exchange { read: false, count, ..old(a).xfer }),
{
    a.async_start(ready, src, count, false)
}

// --- counters ---------------------------------------------------------------------------

/// Bytes and cycles since the last take.
#[derive(Clone, Copy, PartialEq, Eq, Structural, Debug)]
pub struct Stats {
    pub rd_bytes: u64,
    pub rd_cyc: u64,
    pub wr_bytes: u64,
    pub wr_cyc: u64,
}

impl Stats {
    pub fn new() -> (s: Stats)
        ensures
            s == (Stats { rd_bytes: 0, rd_cyc: 0, wr_bytes: 0, wr_cyc: 0 }),
    {
        Stats { rd_bytes: 0, rd_cyc: 0, wr_bytes: 0, wr_cyc: 0 }
    }

    /// Counts `count` blocks and the cycles from `t0` to `t1` of a clock
    /// that wraps.
    pub fn account(&mut self, read: bool, count: u32, t0: u32, t1: u32)
        requires
            old(self).rd_bytes <= 0x7FFF_FFFF_FFFF_FFFF,
            old(self).rd_cyc <= 0x7FFF_FFFF_FFFF_FFFF,
            old(self).wr_bytes <= 0x7FFF_FFFF_FFFF_FFFF,
            old(self).wr_cyc <= 0x7FFF_FFFF_FFFF_FFFF,
        ensures
            ({
                let dt = (t1 - t0) % 0x1_0000_0000;
                &&& read ==> *final(self) == (Stats {
                    rd_bytes: (old(self).rd_bytes + 512 * count) as u64,
                    rd_cyc: (old(self).rd_cyc + dt) as u64,
                    ..*old(self)
                })
                &&& !read ==> *final(self) == (Stats {
                    wr_bytes: (old(self).wr_bytes + 512 * count) as u64,
                    wr_cyc: (old(self).wr_cyc + dt) as u64,
                    ..*old(self)
                })
            }),
    {
        let dt: u64 = t1.wrapping_sub(t0) as u64;
        let bytes: u64 = count as u64 * 512;
        if read {
            self.rd_cyc = self.rd_cyc + dt;
            self.rd_bytes = self.rd_bytes + bytes;
        } else {
            self.wr_cyc = self.wr_cyc + dt;
            self.wr_bytes = self.wr_bytes + bytes;
        }
    }

    /// Takes the counters.
    pub fn stats_take(&mut self) -> (c: (u64, u64, u64, u64))
        ensures
            c == (old(self).rd_bytes, old(self).rd_cyc, old(self).wr_bytes, old(self).wr_cyc),
            *final(self) == (Stats { rd_bytes: 0, rd_cyc: 0, wr_bytes: 0, wr_cyc: 0 }),
    {
        let c = (self.rd_bytes, self.rd_cyc, self.wr_bytes, self.wr_cyc);
        self.rd_bytes = 0;
        self.rd_cyc = 0;
        self.wr_bytes = 0;
        self.wr_cyc = 0;
        c
    }
}

// --- handshake --------------------------------------------------------------------------

/// Milliseconds for enumeration, for the host to open the port, and for its
/// answer.
pub const ENUM_MS: u32 = 8000;

pub const HANDSHAKE_SEND_MS: u32 = 20_000;

pub const HANDSHAKE_REPLY_MS: u32 = 2500;

/// Attempts of a handshake.
pub const HANDSHAKE_TRIES: u32 = 5;

#[derive(Clone, Copy, PartialEq, Eq, Structural, Debug)]
pub enum Shake {
    /// Ask again, after draining what may still come in.
    Again,
    /// The image has this many blocks.
    Ready(u32),
    Failed(i32),
}

/// The outcome of attempt `attempt` (from 0): `sent` is the request's
/// result, `reply` the response's.
pub fn handshake(attempt: u32, sent: i32, reply: Result<(i32, u32, u32), i32>) -> (s: Shake)
    requires
        attempt < HANDSHAKE_TRIES,
    ensures
        ({
            let err = if sent != 0 {
                Some(sent)
            } else {
                match reply {
                    Err(e) => Some(e),
                    Ok(_) => None,
                }
            };
            s == match err {
                Some(e) => if attempt + 1 < HANDSHAKE_TRIES {
                    Shake::Again
                } else {
                    Shake::Failed(e)
                },
                None => if reply->Ok_0.0 == 0 {
                    Shake::Ready(reply->Ok_0.1)
                } else {
                    Shake::Failed(E_REFUSED)
                },
            }
        }),
{
    let err: i32 = if sent != 0 {
        sent
    } else {
        match reply {
            Err(e) => e,
            Ok((status, blocks, _)) => {
                if status == 0 {
                    return Shake::Ready(blocks);
                }
                return Shake::Failed(E_REFUSED);
            },
        }
    };
    if attempt < HANDSHAKE_TRIES - 1 {
        Shake::Again
    } else {
        Shake::Failed(err)
    }
}

proof fn lemma_step_tells(s: int, r: int, v: int, w: int)
    requires
        0 <= s < 0x1_0000_0000,
        0 <= r < 0x1_0000_0000,
        0 <= v < 0x1_0000_0000,
        0 <= w < 0x1_0000_0000,
    ensures
        s == r && v != w ==> sum_step(s, v) != sum_step(r, w),
        s != r && v == w ==> sum_step(s, v) != sum_step(r, w),
        0 <= sum_step(s, v) < 0x1_0000_0000,
{
}

proof fn lemma_sums_part(a: Seq<u8>, b: Seq<u8>, i: int, n: int)
    requires
        0 <= i < n,
        4 * n <= a.len(),
        a.len() == b.len(),
        forall|k: int| 0 <= k < n && k != i ==> le32(a, 4 * k) == #[trigger] le32(b, 4 * k),
        le32(a, 4 * i) != le32(b, 4 * i),
    ensures
        word_sum(a, n) != word_sum(b, n),
        0 <= word_sum(a, n) < 0x1_0000_0000,
        0 <= word_sum(b, n) < 0x1_0000_0000,
    decreases n,
{
    if i == n - 1 {
        lemma_sums_agree(a, b, n - 1);
    } else {
        lemma_sums_part(a, b, i, n - 1);
        assert(le32(a, 4 * (n - 1)) == le32(b, 4 * (n - 1)));
    }
    lemma_step_tells(
        word_sum(a, n - 1),
        word_sum(b, n - 1),
        le32(a, 4 * (n - 1)),
        le32(b, 4 * (n - 1)),
    );
    lemma_step_tells(
        word_sum(b, n - 1),
        word_sum(b, n - 1),
        le32(b, 4 * (n - 1)),
        le32(b, 4 * (n - 1)),
    );
}

proof fn lemma_sums_agree(a: Seq<u8>, b: Seq<u8>, n: int)
    requires
        0 <= n,
        4 * n <= a.len(),
        a.len() == b.len(),
        forall|k: int| 0 <= k < n ==> le32(a, 4 * k) == #[trigger] le32(b, 4 * k),
    ensures
        word_sum(a, n) == word_sum(b, n),
        0 <= word_sum(a, n) < 0x1_0000_0000,
    decreases n,
{
    if n > 0 {
        lemma_sums_agree(a, b, n - 1);
        assert(le32(a, 4 * (n - 1)) == le32(b, 4 * (n - 1)));
    }
}

/// A payload with one word changed has another sum.
pub proof fn law_a_changed_word_changes_the_sum(a: Seq<u8>, b: Seq<u8>, i: int, n: int)
    requires
        0 <= i < n,
        4 * n <= a.len(),
        a.len() == b.len(),
        forall|k: int| 0 <= k < n && k != i ==> le32(a, 4 * k) == #[trigger] le32(b, 4 * k),
        le32(a, 4 * i) != le32(b, 4 * i),
    ensures
        word_sum(a, n) != word_sum(b, n),
{
    lemma_sums_part(a, b, i, n);
}

/// Each word turns the sum by one bit before it is added: two words that
/// change places are noticed unless the turn makes no difference.
pub proof fn law_the_sum_turns_with_every_word(b: Seq<u8>, n: int)
    requires
        0 <= n,
        4 * n + 4 <= b.len(),
    ensures
        word_sum(b, 0) == 0,
        0 <= word_sum(b, n) < 0x1_0000_0000,
        ({
            let s = word_sum(b, n);
            let turned = if s < 0x8000_0000 {
                2 * s
            } else {
                2 * s - 0xFFFF_FFFF
            };
            let added = turned + le32(b, 4 * n);
            word_sum(b, n + 1) == (if added < 0x1_0000_0000 {
                added
            } else {
                added - 0x1_0000_0000
            })
        }),
{
    lemma_sums_agree(b, b, n);
}

/// Where a request's and a response's fields stand in their frames.
pub proof fn law_frames_have_their_fields_in_place(r: Request, a: Response)
    ensures
        le32(request_frame(r), 0) == REQ_MAGIC,
        request_frame(r)[4] == r.op,
        le32(request_frame(r), 8) == r.lba,
        le32(request_frame(r), 12) == r.count,
        le32(request_frame(r), 16) == r.sum,
        le32(request_frame(r), 20) == r.tag,
        le32(response_frame(a), 0) == RSP_MAGIC,
        le32(response_frame(a), 8) == a.count,
        le32(response_frame(a), 12) == a.sum,
        le32(response_frame(a), 16) == a.tag,
        a.status >= 0 ==> le32(response_frame(a), 4) == a.status,
        a.status < 0 ==> le32(response_frame(a), 4) == a.status + 0x1_0000_0000,
{
    law_bytes_make_the_value(REQ_MAGIC);
    law_bytes_make_the_value(RSP_MAGIC);
    law_bytes_make_the_value(r.lba);
    law_bytes_make_the_value(r.count);
    law_bytes_make_the_value(r.sum);
    law_bytes_make_the_value(r.tag);
    law_bytes_make_the_value(a.count);
    law_bytes_make_the_value(a.sum);
    law_bytes_make_the_value(a.tag);
    law_bytes_make_the_value(unsigned32(a.status as int) as u32);
}

} // verus!
