//! A memory card on the serial bus: entry into its serial mode, and block
//! reads and writes.
//!
//! Each operation is a machine. It says what to do on the bus; the last
//! thing that it asks for either brings an answer, which goes back into the
//! machine, or ends the operation with a code.

use crate::hal::spim::{released_pins, Config, Drive, Line, SpimSoftCs};
use crate::mockblk::Stats;
use vstd::prelude::*;

verus! {

pub const BLOCK: usize = 512;

/// The bus is gone.
pub const E_NO_BUS: i32 = -480;

/// Nothing but zeroes comes from the card.
pub const E_STUCK_LOW: i32 = -461;

/// The card answered, but not as one that was reset.
pub const E_SLIPPED: i32 = -200;

/// The card answers neither way.
pub const E_SILENT: i32 = -455;

/// The two data wires are exchanged.
pub const E_CROSSED: i32 = -460;

pub const E_READ_FAULT: i32 = -470;

pub const E_WRITE_FAULT: i32 = -471;

/// The card's voltage answer does not match.
pub const E_VOLTAGE: i32 = -210;

/// The card does not leave its idle state.
pub const E_IDLE: i32 = -230;

/// No data token came, and the card stayed busy after a read.
pub const E_TOKEN: i32 = -310;

pub const E_READ_BUSY: i32 = -320;

/// The card stayed busy after a block, and after a write.
pub const E_BLOCK_BUSY: i32 = -420;

pub const E_WRITE_BUSY: i32 = -430;

/// Tries of the reset command.
pub const PROBES: u32 = 8;

/// Tries of the start command.
pub const STARTS: u32 = 2500;

/// Bytes in which a response has to come.
pub const R1_BYTES: u32 = 16;

/// Bytes in which a data token, or the end of a read, has to come.
pub const READ_WAIT: u32 = 200_000;

/// Bytes in which a write has to be through.
pub const WRITE_WAIT: u32 = 500_000;

/// One thing to do on the bus.
#[derive(Clone, Copy, PartialEq, Eq, Structural, Debug)]
pub enum Op {
    /// Exchange the data pins' roles, or not.
    Swap(bool),
    /// Drive the pins by hand.
    BitBang,
    Select,
    Deselect,
    /// Receive so many bytes and forget them.
    Clocks(usize),
    /// Send a command; the answer is its response byte.
    Command { cmd: u8, arg: u32, crc: u8 },
    /// Send a command and receive every byte in which its response may come:
    /// the answer.
    Trace { cmd: u8, arg: u32, crc: u8 },
    /// Receive four bytes: the answer.
    Receive4,
    /// Hand the pins to the peripheral.
    Engage,
    /// Receive until something other than 0xFF comes: the answer.
    AwaitToken,
    /// Receive a block, then its two check bytes.
    ReceiveBlock(u32),
    /// Gap and token, a block, two check bytes; the answer is the byte that
    /// follows.
    SendBlock(u32),
    /// Receive until 0xFF comes, at most so many bytes: the answer is
    /// whether it did.
    AwaitReady(u32),
    /// The token that ends a write, and one byte.
    StopToken,
    /// The operation is over with this code.
    End(i32),
}

/// An answer from the bus.
#[derive(Clone, Copy, PartialEq, Eq, Debug)]
pub enum Answer {
    Byte(u8),
    Four(u8, u8, u8, u8),
    Bytes([u8; 16]),
    Ready(bool),
}

// --- waiting for bytes ------------------------------------------------------------------

/// The bytes of a command.
pub fn frame(cmd: u8, arg: u32, crc: u8) -> (f: [u8; 6])
    requires
        cmd < 64,
    ensures
        f@ == seq![
            (0x40 + cmd) as u8,
            (arg / 16777216) as u8,
            (arg / 65536 % 256) as u8,
            (arg / 256 % 256) as u8,
            (arg % 256) as u8,
            crc,
        ],
        f@[0] - 0x40 == cmd,
        16777216 * f@[1] + 65536 * f@[2] + 256 * f@[3] + f@[4] == arg,
{
    let f: [u8; 6] = [
        0x40 + cmd,
        (arg / 16777216) as u8,
        (arg / 65536 % 256) as u8,
        (arg / 256 % 256) as u8,
        (arg % 256) as u8,
        crc,
    ];
    assert(f@ =~= seq![
        (0x40 + cmd) as u8,
        (arg / 16777216) as u8,
        (arg / 65536 % 256) as u8,
        (arg / 256 % 256) as u8,
        (arg % 256) as u8,
        crc,
    ]);
    f
}

/// The response among the bytes that followed a command: the first one
/// whose top bit is clear.
pub open spec fn response(b: Seq<u8>) -> u8
    decreases b.len(),
{
    if b.len() == 0 {
        0xFF
    } else if b[0] < 0x80 {
        b[0]
    } else {
        response(b.skip(1))
    }
}

/// A wait over received bytes.
#[derive(Clone, Copy, PartialEq, Eq, Structural, Debug)]
pub struct Wait {
    /// Bytes that may still come.
    pub left: u32,
}

impl Wait {
    pub fn new(limit: u32) -> (w: Wait)
        ensures
            w.left == limit,
    {
        Wait { left: limit }
    }

    /// A byte after a command; `Some` is the response.
    pub fn r1(&mut self, b: u8) -> (r: Option<u8>)
        requires
            old(self).left > 0,
        ensures
            final(self).left == old(self).left - 1,
            r == (if b < 0x80 {
                Some(b)
            } else if old(self).left == 1 {
                Some(0xFFu8)
            } else {
                None
            }),
    {
        self.left = self.left - 1;
        if b < 0x80 {
            return Some(b);
        }
        if self.left == 0 {
            return Some(0xFF);
        }
        None
    }

    /// A byte before a block; `Some` is the token.
    pub fn token(&mut self, b: u8) -> (r: Option<u8>)
        requires
            old(self).left > 0,
        ensures
            final(self).left == old(self).left - 1,
            r == (if b != 0xFF || old(self).left == 1 {
                Some(b)
            } else {
                None
            }),
    {
        self.left = self.left - 1;
        if b != 0xFF || self.left == 0 {
            return Some(b);
        }
        None
    }

    /// A byte of a card that may be busy; `Some` says whether it is ready.
    pub fn ready(&mut self, b: u8) -> (r: Option<bool>)
        requires
            old(self).left > 0,
        ensures
            final(self).left == old(self).left - 1,
            r == (if b == 0xFF {
                Some(true)
            } else if old(self).left == 1 {
                Some(false)
            } else {
                None
            }),
    {
        self.left = self.left - 1;
        if b == 0xFF {
            return Some(true);
        }
        if self.left == 0 {
            return Some(false);
        }
        None
    }
}

/// The response to a command, out of the bytes that may hold it.
pub fn read_response(b: &[u8]) -> (r: u8)
    ensures
        r == response(b@),
{
    let mut i: usize = 0;
    assert(b@.skip(0) =~= b@);
    while i < b.len()
        invariant
            i <= b@.len(),
            response(b@) == response(b@.skip(i as int)),
        decreases b@.len() - i,
    {
        let ghost rest = b@.skip(i as int);
        assert(rest[0] == b@[i as int]);
        if b[i] < 0x80 {
            return b[i];
        }
        assert(rest.skip(1) =~= b@.skip(i + 1));
        i = i + 1;
    }
    0xFF
}

// --- entry ------------------------------------------------------------------------------

#[derive(Clone, Copy, PartialEq, Eq, Structural, Debug)]
pub enum InitState {
    /// The reset command was sent for the `tries`th time, with the data pins
    /// exchanged or not.
    Probing { tries: u32, swapped: bool },
    /// The card answered zero: four more bytes tell a stuck line.
    Zero,
    Version,
    Check,
    /// The prefix of the start command was sent, and the start command.
    Prefix { v2: bool, starts: u32 },
    Start { late: bool, count: u32 },
    Ocr,
    OcrBytes,
    Over,
}

/// Bringing a card up.
#[derive(Clone, Copy, PartialEq, Eq, Debug)]
pub struct SdInit {
    pub st: InitState,
    /// The card counts in blocks.
    pub high_capacity: bool,
    /// What came after the reset command when it was last sent for the first
    /// time.
    pub trace: [u8; 16],
}

/// The reset command. All that follows its first try is received.
pub open spec fn reset_ops(first: bool) -> Seq<Op> {
    seq![
        Op::Select,
        Op::Clocks(1),
        if first {
            Op::Trace { cmd: 0, arg: 0, crc: 0x95 }
        } else {
            Op::Command { cmd: 0, arg: 0, crc: 0x95 }
        },
    ]
}

pub open spec fn prefix_op() -> Op {
    Op::Command { cmd: 55, arg: 0, crc: 0xFF }
}

/// What follows the reset command's last answer `r`.
pub open spec fn probe_over(swapped: bool, r: u8) -> (InitState, Seq<Op>) {
    if swapped {
        (
            InitState::Over,
            seq![
                Op::Swap(false),
                Op::Deselect,
                Op::End(
                    if r != 0xFF {
                        E_CROSSED
                    } else {
                        E_SILENT
                    },
                ),
            ],
        )
    } else if r == 0x01 {
        (InitState::Version, seq![Op::Command { cmd: 8, arg: 0x1AA, crc: 0x87 }])
    } else if r == 0x00 {
        (InitState::Zero, seq![Op::Receive4])
    } else if r == 0xFF {
        (InitState::Probing { tries: 1, swapped: true }, seq![Op::Swap(true)] + reset_ops(true))
    } else {
        (InitState::Over, seq![Op::Deselect, Op::End((-200 - r) as i32)])
    }
}

/// What follows the `tries`th reset command when it is answered `r`.
pub open spec fn probe_next(tries: u32, swapped: bool, r: u8) -> (InitState, Seq<Op>) {
    if r == 0x01 {
        probe_over(swapped, r)
    } else {
        let between = seq![Op::Deselect, Op::Clocks(1)];
        if tries < PROBES {
            (
                InitState::Probing { tries: (tries + 1) as u32, swapped },
                between + reset_ops(false),
            )
        } else {
            let (s, ops) = probe_over(swapped, r);
            (s, between + ops)
        }
    }
}

/// What follows an answer during the entry.
pub open spec fn init_next(st: InitState, a: Answer) -> (InitState, Seq<Op>) {
    match (st, a) {
        (InitState::Probing { tries, swapped }, Answer::Bytes(b)) => probe_next(
            tries,
            swapped,
            response(b@),
        ),
        (InitState::Probing { tries, swapped }, Answer::Byte(r)) => probe_next(tries, swapped, r),
        (InitState::Zero, Answer::Four(a0, a1, a2, a3)) => (
            InitState::Over,
            seq![
                Op::Deselect,
                Op::End(
                    if a0 == 0 && a1 == 0 && a2 == 0 && a3 == 0 {
                        E_STUCK_LOW
                    } else {
                        E_SLIPPED
                    },
                ),
            ],
        ),
        (InitState::Version, Answer::Byte(r)) => if r == 0x01 {
            (InitState::Check, seq![Op::Receive4])
        } else {
            (InitState::Prefix { v2: false, starts: 0 }, seq![prefix_op()])
        },
        (InitState::Check, Answer::Four(a0, a1, a2, a3)) => if a2 % 16 != 1 || a3 != 0xAA {
            (InitState::Over, seq![Op::Deselect, Op::End(E_VOLTAGE)])
        } else {
            (InitState::Prefix { v2: true, starts: 0 }, seq![prefix_op()])
        },
        (InitState::Prefix { v2, starts }, Answer::Byte(r)) => (
            InitState::Start { late: v2, count: starts },
            seq![
                Op::Command {
                    cmd: 41,
                    arg: if v2 {
                        0x4000_0000u32
                    } else {
                        0u32
                    },
                    crc: 0xFF,
                },
            ],
        ),
        (InitState::Start { late, count }, Answer::Byte(r)) => if r == 0 {
            (InitState::Ocr, seq![Op::Command { cmd: 58, arg: 0, crc: 0xFF }])
        } else if r != 0x01 {
            (InitState::Over, seq![Op::Deselect, Op::End((-220 - r) as i32)])
        } else if count + 1 < STARTS {
            (InitState::Prefix { v2: late, starts: (count + 1) as u32 }, seq![prefix_op()])
        } else {
            (InitState::Over, seq![Op::Deselect, Op::End(E_IDLE)])
        },
        (InitState::Ocr, Answer::Byte(r)) => if r != 0 {
            (InitState::Over, seq![Op::Deselect, Op::End((-240 - r) as i32)])
        } else {
            (InitState::OcrBytes, seq![Op::Receive4])
        },
        (InitState::OcrBytes, Answer::Four(a0, a1, a2, a3)) => (
            InitState::Over,
            seq![Op::Deselect, Op::Clocks(1), Op::Engage, Op::End(0)],
        ),
        _ => (st, Seq::empty()),
    }
}

/// The answer is of the kind that the state waits for.
pub open spec fn answers(st: InitState, a: Answer) -> bool {
    match st {
        InitState::Zero | InitState::Check | InitState::OcrBytes => a is Four,
        InitState::Probing { tries, .. } => if tries == 1 {
            a is Bytes
        } else {
            a is Byte
        },
        InitState::Over => false,
        _ => a is Byte,
    }
}

fn reset_into(v: &mut Vec<Op>, first: bool)
    ensures
        final(v)@ == old(v)@ + reset_ops(first),
{
    let ghost start = v@;
    v.push(Op::Select);
    v.push(Op::Clocks(1));
    if first {
        v.push(Op::Trace { cmd: 0, arg: 0, crc: 0x95 });
    } else {
        v.push(Op::Command { cmd: 0, arg: 0, crc: 0x95 });
    }
    assert(v@ =~= start + reset_ops(first));
}

impl SdInit {
    pub open spec fn wf(self) -> bool {
        match self.st {
            InitState::Probing { tries, .. } => 1 <= tries <= PROBES,
            InitState::Prefix { starts, .. } => starts < STARTS,
            InitState::Start { count, .. } => count < STARTS,
            _ => true,
        }
    }

    /// Starts, if there is a bus: at least 74 clocks without selection, then
    /// the reset.
    pub fn init(bus: bool) -> (r: (SdInit, Vec<Op>))
        ensures
            r.0.wf(),
            r.0 == (SdInit {
                st: if bus {
                    InitState::Probing { tries: 1, swapped: false }
                } else {
                    InitState::Over
                },
                high_capacity: false,
                trace: r.0.trace,
            }),
            r.0.trace@ == Seq::new(16, |i: int| 0u8),
            r.1@ == (if bus {
                seq![Op::Swap(false), Op::BitBang, Op::Deselect, Op::Clocks(20)] + reset_ops(true)
            } else {
                seq![Op::End(E_NO_BUS)]
            }),
    {
        let trace: [u8; 16] = [0u8; 16];
        assert(trace@ =~= Seq::new(16, |i: int| 0u8));
        if !bus {
            let v: Vec<Op> = vec![Op::End(E_NO_BUS)];
            assert(v@ =~= seq![Op::End(E_NO_BUS)]);
            return (SdInit { st: InitState::Over, high_capacity: false, trace }, v);
        }
        let mut v: Vec<Op> = vec![Op::Swap(false), Op::BitBang, Op::Deselect, Op::Clocks(20)];
        assert(v@ =~= seq![Op::Swap(false), Op::BitBang, Op::Deselect, Op::Clocks(20)]);
        reset_into(&mut v, true);
        let st = InitState::Probing { tries: 1, swapped: false };
        (SdInit { st, high_capacity: false, trace }, v)
    }

    fn probed(&mut self, swapped: bool, r: u8, v: &mut Vec<Op>)
        ensures
            final(self).st == probe_over(swapped, r).0,
            final(self).high_capacity == old(self).high_capacity,
            final(self).trace == old(self).trace,
            final(v)@ == old(v)@ + probe_over(swapped, r).1,
    {
        let ghost start = v@;
        if swapped {
            self.st = InitState::Over;
            v.push(Op::Swap(false));
            v.push(Op::Deselect);
            v.push(
                Op::End(
                    if r != 0xFF {
                        E_CROSSED
                    } else {
                        E_SILENT
                    },
                ),
            );
        } else if r == 0x01 {
            self.st = InitState::Version;
            v.push(Op::Command { cmd: 8, arg: 0x1AA, crc: 0x87 });
        } else if r == 0x00 {
            self.st = InitState::Zero;
            v.push(Op::Receive4);
        } else if r == 0xFF {
            self.st = InitState::Probing { tries: 1, swapped: true };
            v.push(Op::Swap(true));
            assert(v@ =~= start + seq![Op::Swap(true)]);
            reset_into(v, true);
        } else {
            self.st = InitState::Over;
            v.push(Op::Deselect);
            v.push(Op::End(-200 - r as i32));
        }
        assert(v@ =~= start + probe_over(swapped, r).1);
    }

    fn probe(&mut self, tries: u32, swapped: bool, r: u8) -> (v: Vec<Op>)
        requires
            1 <= tries <= PROBES,
        ensures
            final(self).wf(),
            final(self).st == probe_next(tries, swapped, r).0,
            final(self).high_capacity == old(self).high_capacity,
            final(self).trace == old(self).trace,
            v@ == probe_next(tries, swapped, r).1,
    {
        let mut v: Vec<Op> = Vec::new();
        if r == 0x01 {
            self.probed(swapped, r, &mut v);
        } else {
            v.push(Op::Deselect);
            v.push(Op::Clocks(1));
            assert(v@ =~= seq![Op::Deselect, Op::Clocks(1)]);
            if tries < PROBES {
                self.st = InitState::Probing { tries: tries + 1, swapped };
                reset_into(&mut v, false);
            } else {
                self.probed(swapped, r, &mut v);
            }
        }
        assert(v@ =~= probe_next(tries, swapped, r).1);
        v
    }

    /// Takes an answer in.
    pub fn next(&mut self, a: Answer) -> (v: Vec<Op>)
        requires
            old(self).wf(),
            answers(old(self).st, a),
        ensures
            final(self).wf(),
            final(self).st == init_next(old(self).st, a).0,
            v@ == init_next(old(self).st, a).1,
            final(self).high_capacity == (match (old(self).st, a) {
                (InitState::OcrBytes, Answer::Four(a0, _, _, _)) => a0 / 64 % 2 == 1,
                _ => old(self).high_capacity,
            }),
            final(self).trace == (match a {
                Answer::Bytes(b) => b,
                _ => old(self).trace,
            }),
    {
        let mut v: Vec<Op> = Vec::new();
        let ghost st0 = self.st;
        match (self.st, a) {
            (InitState::Probing { tries, swapped }, Answer::Bytes(b)) => {
                self.trace = b;
                v = self.probe(tries, swapped, read_response(b.as_slice()));
            },
            (InitState::Probing { tries, swapped }, Answer::Byte(r)) => {
                v = self.probe(tries, swapped, r);
            },
            (InitState::Zero, Answer::Four(a0, a1, a2, a3)) => {
                self.st = InitState::Over;
                v.push(Op::Deselect);
                v.push(
                    Op::End(
                        if a0 == 0 && a1 == 0 && a2 == 0 && a3 == 0 {
                            E_STUCK_LOW
                        } else {
                            E_SLIPPED
                        },
                    ),
                );
            },
            (InitState::Version, Answer::Byte(r)) => {
                if r == 0x01 {
                    self.st = InitState::Check;
                    v.push(Op::Receive4);
                } else {
                    self.st = InitState::Prefix { v2: false, starts: 0 };
                    v.push(Op::Command { cmd: 55, arg: 0, crc: 0xFF });
                }
            },
            (InitState::Check, Answer::Four(_, _, a2, a3)) => {
                if a2 % 16 != 1 || a3 != 0xAA {
                    self.st = InitState::Over;
                    v.push(Op::Deselect);
                    v.push(Op::End(E_VOLTAGE));
                } else {
                    self.st = InitState::Prefix { v2: true, starts: 0 };
                    v.push(Op::Command { cmd: 55, arg: 0, crc: 0xFF });
                }
            },
            (InitState::Prefix { v2, starts }, Answer::Byte(_)) => {
                self.st = InitState::Start { late: v2, count: starts };
                let arg: u32 = if v2 {
                    0x4000_0000
                } else {
                    0
                };
                v.push(Op::Command { cmd: 41, arg, crc: 0xFF });
            },
            (InitState::Start { late, count }, Answer::Byte(r)) => {
                if r == 0 {
                    self.st = InitState::Ocr;
                    v.push(Op::Command { cmd: 58, arg: 0, crc: 0xFF });
                } else if r != 0x01 {
                    self.st = InitState::Over;
                    v.push(Op::Deselect);
                    v.push(Op::End(-220 - r as i32));
                } else if count + 1 < STARTS {
                    self.st = InitState::Prefix { v2: late, starts: count + 1 };
                    v.push(Op::Command { cmd: 55, arg: 0, crc: 0xFF });
                } else {
                    self.st = InitState::Over;
                    v.push(Op::Deselect);
                    v.push(Op::End(E_IDLE));
                }
            },
            (InitState::Ocr, Answer::Byte(r)) => {
                if r != 0 {
                    self.st = InitState::Over;
                    v.push(Op::Deselect);
                    v.push(Op::End(-240 - r as i32));
                } else {
                    self.st = InitState::OcrBytes;
                    v.push(Op::Receive4);
                }
            },
            (InitState::OcrBytes, Answer::Four(a0, _, _, _)) => {
                self.st = InitState::Over;
                self.high_capacity = a0 / 64 % 2 == 1;
                v.push(Op::Deselect);
                v.push(Op::Clocks(1));
                v.push(Op::Engage);
                v.push(Op::End(0));
            },
            _ => {},
        }
        assert(v@ =~= init_next(st0, a).1);
        v
    }
}

/// The operations hold one of these.
pub open spec fn has(ops: Seq<Op>, o: Op) -> bool {
    exists|i: int| 0 <= i < ops.len() && #[trigger] ops[i] == o
}

/// An entry that ends leaves the card deselected, and the data pins in
/// their own roles: they are exchanged only while the reset is tried so.
pub proof fn law_entry_leaves_the_bus(st: InitState, a: Answer)
    requires
        answers(st, a),
    ensures
        init_next(st, a).0 == InitState::Over ==> has(init_next(st, a).1, Op::Deselect),
        init_next(st, a).0 == InitState::Over && (st matches InitState::Probing { swapped, .. }
            && swapped) ==> has(init_next(st, a).1, Op::Swap(false)),
{
    let (s, ops) = init_next(st, a);
    if s == InitState::Over {
        match st {
            InitState::Probing { tries, swapped } => {
                let r = match a {
                    Answer::Bytes(b) => response(b@),
                    Answer::Byte(r) => r,
                    _ => 0xFF,
                };
                if r == 0x01 {
                    if swapped {
                        assert(ops[0] == Op::Swap(false));
                        assert(ops[1] == Op::Deselect);
                    }
                } else {
                    assert(ops[0] == Op::Deselect);
                    if swapped {
                        assert(ops[2] == Op::Swap(false));
                    }
                }
            },
            _ => {
                assert(ops[0] == Op::Deselect);
            },
        }
    }
}

/// How far an entry still has to go at most, in answers.
pub open spec fn init_left(st: InitState) -> int {
    match st {
        InitState::Probing { tries, swapped } => if swapped {
            PROBES - tries + 6000
        } else {
            2 * PROBES - tries + 6000
        },
        InitState::Zero => 1,
        InitState::Version => 5500,
        InitState::Check => 5400,
        InitState::Prefix { starts, .. } => 2 * (STARTS - starts) + 3,
        InitState::Start { count, .. } => 2 * (STARTS - count) + 2,
        InitState::Ocr => 2,
        InitState::OcrBytes => 1,
        InitState::Over => 0,
    }
}

/// Every answer brings the entry nearer to its end.
pub proof fn law_entry_ends(s: SdInit, a: Answer)
    requires
        s.wf(),
        answers(s.st, a),
    ensures
        0 <= init_left(init_next(s.st, a).0) < init_left(s.st),
{
}

// --- blocks -----------------------------------------------------------------------------

/// A card that has been brought up.
pub struct SdCard {
    pub bus: SpimSoftCs,
    pub high_capacity: bool,
}

/// Card address of a block: bytes on a small card.
pub open spec fn address(high_capacity: bool, lba: int) -> int {
    if high_capacity {
        lba
    } else {
        512 * lba
    }
}

pub fn card_addr(high_capacity: bool, lba: u32) -> (a: u32)
    requires
        address(high_capacity, lba as int) <= u32::MAX,
    ensures
        a == address(high_capacity, lba as int),
{
    if high_capacity {
        lba
    } else {
        lba * 512
    }
}

/// The bus for either wiring.
pub fn bus_config(fast: bool) -> (c: Config)
    ensures
        c.divisor == (if fast {
            4u8
        } else {
            2u8
        }),
        c.drive == (if fast {
            Drive::ExtraHigh
        } else {
            Drive::Standard
        }),
{
    let mut c = Config::default();
    if fast {
        c.divisor = 4;
        c.drive = Drive::ExtraHigh;
    } else {
        c.divisor = 2;
        c.drive = Drive::Standard;
    }
    c
}

/// Releases the pins, if there is a card on the bus.
pub fn release_pins(card: &mut Option<SdCard>)
    ensures
        match *old(card) {
            None => *final(card) is None,
            Some(c) => *final(card) matches Some(d) && d.bus == (SpimSoftCs {
                bitbang: true,
                pins: released_pins(),
                ..c.bus
            }) && d.high_capacity
                == c.high_capacity,
        },
{
    match card {
        Some(c) => {
            c.bus.release_pins();
        },
        None => {},
    }
}

#[derive(Clone, Copy, PartialEq, Eq, Structural, Debug)]
pub enum BlockState {
    /// The transfer command was sent.
    Command,
    /// Block `i` is on its way: its token, its acceptance, its end.
    Token(u32),
    Accept(u32),
    Written(u32),
    /// The stop command was sent.
    Stop,
    /// The last wait.
    Last,
    Over,
}

/// A transfer of blocks.
#[derive(Clone, Copy, PartialEq, Eq, Structural, Debug)]
pub struct Transfer {
    pub read: bool,
    pub count: u32,
    pub st: BlockState,
}

/// The code of a bus that has failed.
pub open spec fn fault_code(read: bool) -> i32 {
    if read {
        E_READ_FAULT
    } else {
        E_WRITE_FAULT
    }
}

/// Before block `i` of a read, or after the last.
pub open spec fn read_at(i: int, count: u32) -> (BlockState, Seq<Op>) {
    if i < count {
        (BlockState::Token(i as u32), seq![Op::AwaitToken])
    } else {
        (BlockState::Stop, seq![Op::Command { cmd: 12, arg: 0, crc: 0xFF }])
    }
}

/// Before block `i` of a write, or after the last.
pub open spec fn write_at(i: int, count: u32) -> (BlockState, Seq<Op>) {
    if i < count {
        (BlockState::Accept(i as u32), seq![Op::SendBlock(i as u32)])
    } else {
        (BlockState::Last, seq![Op::StopToken, Op::AwaitReady(WRITE_WAIT)])
    }
}

pub open spec fn fails(rc: int) -> (BlockState, Seq<Op>) {
    (BlockState::Over, seq![Op::Deselect, Op::End(rc as i32)])
}

/// What follows an answer during a transfer; `fault` says that the bus has
/// failed meanwhile.
pub open spec fn block_next(t: Transfer, a: Answer, fault: bool) -> (BlockState, Seq<Op>) {
    match (t.st, a) {
        (BlockState::Command, Answer::Byte(r)) => if r != 0 {
            fails(
                if t.read {
                    -300 - r
                } else {
                    -400 - r
                },
            )
        } else if t.read {
            read_at(0, t.count)
        } else {
            write_at(0, t.count)
        },
        (BlockState::Token(i), Answer::Byte(b)) => if b != 0xFE {
            fails(E_TOKEN as int)
        } else {
            let (s, ops) = read_at(i + 1, t.count);
            (s, seq![Op::ReceiveBlock(i)] + ops)
        },
        (BlockState::Stop, Answer::Byte(_)) => (
            BlockState::Last,
            seq![Op::AwaitReady(READ_WAIT)],
        ),
        (BlockState::Accept(i), Answer::Byte(b)) => if b % 32 != 5 {
            fails(-410 - b % 32)
        } else {
            (BlockState::Written(i), seq![Op::AwaitReady(WRITE_WAIT)])
        },
        (BlockState::Written(i), Answer::Ready(ok)) => if !ok {
            fails(E_BLOCK_BUSY as int)
        } else {
            write_at(i + 1, t.count)
        },
        (BlockState::Last, Answer::Ready(ok)) => if !ok {
            fails(
                if t.read {
                    E_READ_BUSY as int
                } else {
                    E_WRITE_BUSY as int
                },
            )
        } else if fault {
            fails(fault_code(t.read) as int)
        } else {
            fails(0)
        },
        _ => (t.st, Seq::empty()),
    }
}

/// The answer is of the kind that the transfer waits for.
pub open spec fn block_answers(st: BlockState, a: Answer) -> bool {
    match st {
        BlockState::Written(_) | BlockState::Last => a is Ready,
        BlockState::Over => false,
        _ => a is Byte,
    }
}

fn fail(rc: i32) -> (r: (BlockState, Vec<Op>))
    ensures
        r.0 == fails(rc as int).0,
        r.1@ == fails(rc as int).1,
{
    let v: Vec<Op> = vec![Op::Deselect, Op::End(rc)];
    assert(v@ =~= seq![Op::Deselect, Op::End(rc)]);
    (BlockState::Over, v)
}

impl Transfer {
    pub open spec fn wf(self) -> bool {
        match self.st {
            BlockState::Token(i) => self.read && i < self.count,
            BlockState::Accept(i) => !self.read && i < self.count,
            BlockState::Written(i) => !self.read && i < self.count,
            BlockState::Stop => self.read,
            _ => true,
        }
    }

    /// Starts a transfer, unless the bus has failed before.
    pub fn start(read: bool, addr: u32, count: u32, fault: bool) -> (r: (Transfer, Vec<Op>))
        ensures
            r.0.wf(),
            r.0.read == read,
            r.0.count == count,
            fault ==> r.0.st == BlockState::Over && r.1@ == seq![Op::End(fault_code(read))],
            !fault ==> r.0.st == BlockState::Command && r.1@ == seq![
                Op::Select,
                Op::Command {
                    cmd: if read {
                        18u8
                    } else {
                        25u8
                    },
                    arg: addr,
                    crc: 0xFF,
                },
            ],
    {
        if fault {
            let c: i32 = if read {
                E_READ_FAULT
            } else {
                E_WRITE_FAULT
            };
            let v: Vec<Op> = vec![Op::End(c)];
            assert(v@ =~= seq![Op::End(fault_code(read))]);
            return (Transfer { read, count, st: BlockState::Over }, v);
        }
        let cmd: u8 = if read {
            18
        } else {
            25
        };
        let v: Vec<Op> = vec![Op::Select, Op::Command { cmd, arg: addr, crc: 0xFF }];
        assert(v@ =~= seq![Op::Select, Op::Command { cmd, arg: addr, crc: 0xFF }]);
        (Transfer { read, count, st: BlockState::Command }, v)
    }

    fn reading(&mut self, i: u32, v: &mut Vec<Op>)
        ensures
            final(self).st == read_at(i as int, old(self).count).0,
            final(self).read == old(self).read,
            final(self).count == old(self).count,
            final(v)@ == old(v)@ + read_at(i as int, old(self).count).1,
    {
        let ghost start = v@;
        if i < self.count {
            self.st = BlockState::Token(i);
            v.push(Op::AwaitToken);
        } else {
            self.st = BlockState::Stop;
            v.push(Op::Command { cmd: 12, arg: 0, crc: 0xFF });
        }
        assert(v@ =~= start + read_at(i as int, self.count).1);
    }

    fn writing(&mut self, i: u32, v: &mut Vec<Op>)
        ensures
            final(self).st == write_at(i as int, old(self).count).0,
            final(self).read == old(self).read,
            final(self).count == old(self).count,
            final(v)@ == old(v)@ + write_at(i as int, old(self).count).1,
    {
        let ghost start = v@;
        if i < self.count {
            self.st = BlockState::Accept(i);
            v.push(Op::SendBlock(i));
        } else {
            self.st = BlockState::Last;
            v.push(Op::StopToken);
            v.push(Op::AwaitReady(WRITE_WAIT));
        }
        assert(v@ =~= start + write_at(i as int, self.count).1);
    }

    /// Takes an answer in.
    pub fn next(&mut self, a: Answer, fault: bool) -> (v: Vec<Op>)
        requires
            old(self).wf(),
            block_answers(old(self).st, a),
        ensures
            final(self).wf(),
            final(self).read == old(self).read,
            final(self).count == old(self).count,
            final(self).st == block_next(*old(self), a, fault).0,
            v@ == block_next(*old(self), a, fault).1,
    {
        let mut v: Vec<Op> = Vec::new();
        let ghost t0 = *self;
        match (self.st, a) {
            (BlockState::Command, Answer::Byte(r)) => {
                if r != 0 {
                    let rc: i32 = if self.read {
                        -300 - r as i32
                    } else {
                        -400 - r as i32
                    };
                    let (s, w) = fail(rc);
                    self.st = s;
                    v = w;
                } else if self.read {
                    self.reading(0, &mut v);
                } else {
                    self.writing(0, &mut v);
                }
            },
            (BlockState::Token(i), Answer::Byte(b)) => {
                if b != 0xFE {
                    let (s, w) = fail(E_TOKEN);
                    self.st = s;
                    v = w;
                } else {
                    v.push(Op::ReceiveBlock(i));
                    assert(v@ =~= seq![Op::ReceiveBlock(i)]);
                    self.reading(i + 1, &mut v);
                }
            },
            (BlockState::Stop, Answer::Byte(_)) => {
                self.st = BlockState::Last;
                v.push(Op::AwaitReady(READ_WAIT));
            },
            (BlockState::Accept(i), Answer::Byte(b)) => {
                if b % 32 != 5 {
                    let (s, w) = fail(-410 - (b % 32) as i32);
                    self.st = s;
                    v = w;
                } else {
                    self.st = BlockState::Written(i);
                    v.push(Op::AwaitReady(WRITE_WAIT));
                }
            },
            (BlockState::Written(i), Answer::Ready(ok)) => {
                if !ok {
                    let (s, w) = fail(E_BLOCK_BUSY);
                    self.st = s;
                    v = w;
                } else {
                    self.writing(i + 1, &mut v);
                }
            },
            (BlockState::Last, Answer::Ready(ok)) => {
                let rc: i32 = if !ok {
                    if self.read {
                        E_READ_BUSY
                    } else {
                        E_WRITE_BUSY
                    }
                } else if fault {
                    if self.read {
                        E_READ_FAULT
                    } else {
                        E_WRITE_FAULT
                    }
                } else {
                    0
                };
                let (s, w) = fail(rc);
                self.st = s;
                v = w;
            },
            _ => {},
        }
        assert(v@ =~= block_next(t0, a, fault).1);
        v
    }
}

/// Blocks that a transfer has moved when it is in this state.
pub open spec fn moved(t: Transfer) -> int {
    match t.st {
        BlockState::Command => 0,
        BlockState::Token(i) => i as int,
        BlockState::Accept(i) => i as int,
        BlockState::Written(i) => i + 1,
        _ => t.count as int,
    }
}

/// A transfer moves its blocks in order, each once: a block is received or
/// accepted only when all before it were, and a transfer that ends well has
/// moved them all.
pub proof fn law_blocks_move_in_order(t: Transfer, a: Answer, fault: bool, i: u32)
    requires
        t.wf(),
        block_answers(t.st, a),
    ensures
        ({
            let (s, ops) = block_next(t, a, fault);
            let n = Transfer { st: s, ..t };
            &&& has(ops, Op::ReceiveBlock(i)) || has(ops, Op::SendBlock(i)) ==> i < t.count
            &&& has(ops, Op::ReceiveBlock(i)) ==> i == moved(t) && (s != BlockState::Over
                ==> moved(n) == i + 1)
            &&& has(ops, Op::SendBlock(i)) ==> i == moved(n)
            &&& s != BlockState::Over ==> moved(t) <= moved(n) <= moved(t) + 1
            &&& has(ops, Op::End(0)) ==> t.st == BlockState::Last && moved(t) == t.count
        }),
{
}

/// Every transfer that was started deselects the card at its end.
pub proof fn law_transfers_leave_the_bus(t: Transfer, a: Answer, fault: bool)
    requires
        t.wf(),
        block_answers(t.st, a),
        block_next(t, a, fault).0 == BlockState::Over,
    ensures
        has(block_next(t, a, fault).1, Op::Deselect),
{
    assert(block_next(t, a, fault).1[0] == Op::Deselect);
}

// --- counters and checks of the wiring --------------------------------------------------

/// Adds a transfer up: its blocks, and the cycles from `t0` to `t1`.
pub fn account(st: &mut Stats, read: bool, count: u32, t0: u32, t1: u32)
    requires
        old(st).rd_bytes <= 0x7FFF_FFFF_FFFF_FFFF,
        old(st).rd_cyc <= 0x7FFF_FFFF_FFFF_FFFF,
        old(st).wr_bytes <= 0x7FFF_FFFF_FFFF_FFFF,
        old(st).wr_cyc <= 0x7FFF_FFFF_FFFF_FFFF,
    ensures
        ({
            let dt = (t1 - t0) % 0x1_0000_0000;
            &&& read ==> *final(st) == (Stats {
                rd_bytes: (old(st).rd_bytes + 512 * count) as u64,
                rd_cyc: (old(st).rd_cyc + dt) as u64,
                ..*old(st)
            })
            &&& !read ==> *final(st) == (Stats {
                wr_bytes: (old(st).wr_bytes + 512 * count) as u64,
                wr_cyc: (old(st).wr_cyc + dt) as u64,
                ..*old(st)
            })
        }),
{
    st.account(read, count, t0, t1);
}

/// The bytes that a loopback of the data lines is tried with, and how many
/// of them came back.
pub fn loopback(got: &[u8; 4]) -> (ok: u32)
    ensures
        ok == (if got@[0] == 0xA5 {
            1int
        } else {
            0
        }) + (if got@[1] == 0x3C {
            1int
        } else {
            0
        }) + (if got@[2] == 0x0F {
            1int
        } else {
            0
        }) + (if got@[3] == 0x81 {
            1int
        } else {
            0
        }),
{
    let mut ok: u32 = 0;
    if got[0] == 0xA5 {
        ok = ok + 1;
    }
    if got[1] == 0x3C {
        ok = ok + 1;
    }
    if got[2] == 0x0F {
        ok = ok + 1;
    }
    if got[3] == 0x81 {
        ok = ok + 1;
    }
    ok
}

/// A step of the wiring diagnostic.
#[derive(Clone, Copy, PartialEq, Eq, Structural, Debug)]
pub enum DiagStep {
    /// Hold a line at a level.
    Drive(Line, bool),
    /// Milliseconds to wait.
    Wait(u32),
    /// Pull the input line up, or down.
    Pull(bool),
    /// Read the input line.
    Level,
    /// Send a byte on the pins and compare what comes back.
    Loop(u8),
}

/// A line low and high for three seconds each, and low again if it idles
/// low.
pub open spec fn diag_line(l: Line, idle_high: bool) -> Seq<DiagStep> {
    seq![
        DiagStep::Drive(l, false),
        DiagStep::Wait(3000),
        DiagStep::Drive(l, true),
        DiagStep::Wait(3000),
    ] + (if idle_high {
        Seq::empty()
    } else {
        seq![DiagStep::Drive(l, false)]
    })
}

/// One round: the driven lines, the input's pulls, and a loopback.
pub open spec fn diag_round() -> Seq<DiagStep> {
    diag_line(Line::Sck, false) + diag_line(Line::Mosi, true) + diag_line(Line::Cs, true) + seq![
        DiagStep::Pull(false),
        DiagStep::Wait(3000),
        DiagStep::Level,
        DiagStep::Pull(true),
        DiagStep::Wait(10),
        DiagStep::Level,
        DiagStep::Loop(0xA5),
        DiagStep::Loop(0x3C),
        DiagStep::Loop(0x0F),
        DiagStep::Loop(0x81),
    ]
}

pub open spec fn diag_rounds(n: int) -> Seq<DiagStep>
    decreases n,
{
    if n <= 0 {
        Seq::empty()
    } else {
        diag_rounds(n - 1) + diag_round()
    }
}

fn push_diag_line(r: &mut Vec<DiagStep>, l: Line, idle_high: bool)
    ensures
        final(r)@ == old(r)@ + diag_line(l, idle_high),
{
    r.push(DiagStep::Drive(l, false));
    r.push(DiagStep::Wait(3000));
    r.push(DiagStep::Drive(l, true));
    r.push(DiagStep::Wait(3000));
    if !idle_high {
        r.push(DiagStep::Drive(l, false));
    }
    assert(r@ =~= old(r)@ + diag_line(l, idle_high));
}

/// The wiring diagnostic after a failed entry, `cycles` times over: levels
/// to measure at the socket, the input's pulls, and a loopback of the data
/// lines.
pub fn diag(cycles: u32) -> (r: Vec<DiagStep>)
    ensures
        r@ == diag_rounds(cycles as int),
{
    let mut r: Vec<DiagStep> = Vec::new();
    let mut c: u32 = 0;
    while c < cycles
        invariant
            c <= cycles,
            r@ == diag_rounds(c as int),
        decreases cycles - c,
    {
        let ghost before = r@;
        push_diag_line(&mut r, Line::Sck, false);
        push_diag_line(&mut r, Line::Mosi, true);
        push_diag_line(&mut r, Line::Cs, true);
        r.push(DiagStep::Pull(false));
        r.push(DiagStep::Wait(3000));
        r.push(DiagStep::Level);
        r.push(DiagStep::Pull(true));
        r.push(DiagStep::Wait(10));
        r.push(DiagStep::Level);
        r.push(DiagStep::Loop(0xA5));
        r.push(DiagStep::Loop(0x3C));
        r.push(DiagStep::Loop(0x0F));
        r.push(DiagStep::Loop(0x81));
        assert(r@ =~= before + diag_round());
        c = c + 1;
    }
    r
}

/// The level that steps leave a line at, if they drive it.
pub open spec fn level_after(s: Seq<DiagStep>, l: Line) -> Option<bool>
    decreases s.len(),
{
    if s.len() == 0 {
        None
    } else {
        match s.last() {
            DiagStep::Drive(m, high) => if m == l {
                Some(high)
            } else {
                level_after(s.drop_last(), l)
            },
            _ => level_after(s.drop_last(), l),
        }
    }
}

proof fn lemma_level_of_a_sum(a: Seq<DiagStep>, b: Seq<DiagStep>, l: Line)
    ensures
        level_after(a + b, l) == (if level_after(b, l) is Some {
            level_after(b, l)
        } else {
            level_after(a, l)
        }),
    decreases b.len(),
{
    if b.len() == 0 {
        assert(a + b =~= a);
    } else {
        lemma_level_of_a_sum(a, b.drop_last(), l);
        assert((a + b).drop_last() =~= a + b.drop_last());
        assert((a + b).last() == b.last());
    }
}

/// However often it runs, the diagnostic leaves the lines as they idle: the
/// clock low, data and chip select high. It never drives the input.
pub proof fn law_a_diagnostic_leaves_the_lines_idle(n: int)
    requires
        n >= 1,
    ensures
        level_after(diag_rounds(n), Line::Sck) == Some(false),
        level_after(diag_rounds(n), Line::Mosi) == Some(true),
        level_after(diag_rounds(n), Line::Cs) == Some(true),
        level_after(diag_rounds(n), Line::Miso) is None,
    decreases n,
{
    lemma_round_levels(Line::Sck);
    lemma_round_levels(Line::Mosi);
    lemma_round_levels(Line::Cs);
    lemma_round_levels(Line::Miso);
    lemma_level_of_a_sum(diag_rounds(n - 1), diag_round(), Line::Sck);
    lemma_level_of_a_sum(diag_rounds(n - 1), diag_round(), Line::Mosi);
    lemma_level_of_a_sum(diag_rounds(n - 1), diag_round(), Line::Cs);
    lemma_level_of_a_sum(diag_rounds(n - 1), diag_round(), Line::Miso);
    if n > 1 {
        law_a_diagnostic_leaves_the_lines_idle(n - 1);
    }
}

proof fn lemma_line_levels(m: Line, idle_high: bool, l: Line)
    ensures
        level_after(diag_line(m, idle_high), l) == (if l == m {
            Some(idle_high)
        } else {
            None
        }),
{
    reveal_with_fuel(level_after, 7);
    let s = diag_line(m, idle_high);
    if idle_high {
        assert(s.drop_last() =~= seq![
            DiagStep::Drive(m, false),
            DiagStep::Wait(3000),
            DiagStep::Drive(m, true),
        ]);
    } else {
        assert(s.drop_last() =~= seq![
            DiagStep::Drive(m, false),
            DiagStep::Wait(3000),
            DiagStep::Drive(m, true),
            DiagStep::Wait(3000),
        ]);
        assert(s.drop_last().drop_last() =~= seq![
            DiagStep::Drive(m, false),
            DiagStep::Wait(3000),
            DiagStep::Drive(m, true),
        ]);
    }
    let t = seq![DiagStep::Drive(m, false), DiagStep::Wait(3000), DiagStep::Drive(m, true)];
    assert(t.drop_last() =~= seq![DiagStep::Drive(m, false), DiagStep::Wait(3000)]);
    assert(t.drop_last().drop_last() =~= seq![DiagStep::Drive(m, false)]);
    assert(t.drop_last().drop_last().drop_last() =~= Seq::<DiagStep>::empty());
}

proof fn lemma_undriven(s: Seq<DiagStep>, l: Line)
    requires
        forall|i: int| 0 <= i < s.len() ==> !(#[trigger] s[i] is Drive),
    ensures
        level_after(s, l) is None,
    decreases s.len(),
{
    if s.len() > 0 {
        assert(s.last() == s[s.len() - 1]);
        assert forall|i: int| 0 <= i < s.drop_last().len() implies !(
        #[trigger] s.drop_last()[i] is Drive) by {
            assert(s.drop_last()[i] == s[i]);
        }
        lemma_undriven(s.drop_last(), l);
    }
}

proof fn lemma_round_levels(l: Line)
    ensures
        level_after(diag_round(), l) == (match l {
            Line::Sck => Some(false),
            Line::Mosi => Some(true),
            Line::Cs => Some(true),
            Line::Miso => None,
        }),
{
    let a = diag_line(Line::Sck, false);
    let b = diag_line(Line::Mosi, true);
    let c = diag_line(Line::Cs, true);
    let d = seq![
        DiagStep::Pull(false),
        DiagStep::Wait(3000),
        DiagStep::Level,
        DiagStep::Pull(true),
        DiagStep::Wait(10),
        DiagStep::Level,
        DiagStep::Loop(0xA5),
        DiagStep::Loop(0x3C),
        DiagStep::Loop(0x0F),
        DiagStep::Loop(0x81),
    ];
    lemma_line_levels(Line::Sck, false, l);
    lemma_line_levels(Line::Mosi, true, l);
    lemma_line_levels(Line::Cs, true, l);
    lemma_undriven(d, l);
    lemma_level_of_a_sum(a, b, l);
    lemma_level_of_a_sum(a + b, c, l);
    lemma_level_of_a_sum(a + b + c, d, l);
}

/// Blocks lie one behind the other: one address apart on a high-capacity
/// card, 512 apart on another.
pub proof fn law_blocks_are_a_block_apart(high_capacity: bool, lba: int)
    ensures
        address(high_capacity, 0) == 0,
        address(high_capacity, lba + 1) - address(high_capacity, lba) == (if high_capacity {
            1int
        } else {
            512
        }),
{
}

/// The answer of a card is the first byte whose top bit is clear.
pub proof fn law_the_answer_is_the_first_clear_byte(b: Seq<u8>, i: int)
    requires
        0 <= i < b.len(),
        b[i] < 128,
        forall|k: int| 0 <= k < i ==> #[trigger] b[k] >= 128,
    ensures
        response(b) == b[i],
    decreases i,
{
    if i > 0 {
        let c = b.skip(1);
        assert(c[i - 1] == b[i]);
        assert forall|k: int| 0 <= k < i - 1 implies #[trigger] c[k] >= 128 by {
            assert(b[k + 1] >= 128);
        }
        law_the_answer_is_the_first_clear_byte(c, i - 1);
    }
}

/// ... and a card that gives none is silent.
pub proof fn law_no_clear_byte_is_silence(b: Seq<u8>)
    requires
        forall|k: int| 0 <= k < b.len() ==> #[trigger] b[k] >= 128,
    ensures
        response(b) == 255,
    decreases b.len(),
{
    if b.len() > 0 {
        let c = b.skip(1);
        assert forall|k: int| 0 <= k < c.len() implies #[trigger] c[k] >= 128 by {
            assert(b[k + 1] >= 128);
        }
        law_no_clear_byte_is_silence(c);
    }
}

/// A card that answers in the order of the standard enters: idle, the check
/// pattern echoed at its voltage, started as a high-capacity host asks, its
/// register read.
pub proof fn law_a_standard_card_enters(
    tries: u32,
    a: Answer,
    a0: u8,
    a1: u8,
    a2: u8,
    r: u8,
    starts: u32,
    o0: u8,
    o1: u8,
    o2: u8,
    o3: u8,
)
    requires
        a == Answer::Byte(1),
        a2 % 16 == 1,
        1 <= tries,
    ensures
        init_next(InitState::Probing { tries, swapped: false }, a) == (
            InitState::Version,
            seq![Op::Command { cmd: 8, arg: 426, crc: 0x87 }],
        ),
        init_next(InitState::Version, Answer::Byte(1)) == (
            InitState::Check,
            seq![Op::Receive4],
        ),
        init_next(InitState::Check, Answer::Four(a0, a1, a2, 170)).0 == (InitState::Prefix {
            v2: true,
            starts: 0,
        }),
        // a high-capacity host says so to a card of the second version only
        init_next(InitState::Prefix { v2: true, starts }, Answer::Byte(r)).1 == seq![
            Op::Command { cmd: 41, arg: 1073741824, crc: 255 },
        ],
        init_next(InitState::Prefix { v2: false, starts }, Answer::Byte(r)).1 == seq![
            Op::Command { cmd: 41, arg: 0, crc: 255 },
        ],
        init_next(InitState::Start { late: true, count: starts }, Answer::Byte(0)).0
            == InitState::Ocr,
        init_next(InitState::Ocr, Answer::Byte(0)).0 == InitState::OcrBytes,
        has(
            init_next(InitState::OcrBytes, Answer::Four(o0, o1, o2, o3)).1,
            Op::End(0),
        ),
{
    let ops = init_next(InitState::OcrBytes, Answer::Four(o0, o1, o2, o3)).1;
    assert(ops[3] == Op::End(0));
}

/// A card that does not echo the pattern, or not at this voltage, is refused.
pub proof fn law_a_wrong_echo_is_refused(a0: u8, a1: u8, a2: u8, a3: u8)
    requires
        a2 % 16 != 1 || a3 != 170,
    ensures
        init_next(InitState::Check, Answer::Four(a0, a1, a2, a3)).0 == InitState::Over,
        init_next(InitState::Check, Answer::Four(a0, a1, a2, a3)).1.last() matches Op::End(rc) ==> rc
            != 0,
{
}

/// A card that stays silent is asked again as often as is allowed, then with
/// the data lines exchanged; one that then answers is crossed.
pub proof fn law_a_silent_card_is_tried_crossed(tries: u32, r: u8)
    requires
        1 <= tries,
    ensures
        tries < PROBES && r != 1 ==> (probe_next(tries, false, r).0 matches InitState::Probing {
            tries: n,
            swapped,
        } && n == tries + 1 && !swapped),
        tries >= PROBES ==> probe_next(tries, false, 0xFF).0 == (InitState::Probing {
            tries: 1,
            swapped: true,
        }),
        tries >= PROBES && r != 0xFF ==> probe_next(tries, true, r).1.last() == Op::End(E_CROSSED),
        tries >= PROBES ==> probe_next(tries, true, 0xFF).1.last() == Op::End(E_SILENT),
{
}

/// A refused command ends a transfer with its code, a wrong token and a
/// refused block likewise, and none of them as if it had gone well.
pub proof fn law_refusals_end_a_transfer(t: Transfer, b: u8, fault: bool)
    ensures
        t.st == BlockState::Command && b != 0 ==> block_next(t, Answer::Byte(b), fault) == (
            BlockState::Over,
            seq![
                Op::Deselect,
                Op::End(
                    if t.read {
                        (-300 - b) as i32
                    } else {
                        (-400 - b) as i32
                    },
                ),
            ],
        ),
        t.st is Token && b != 0xFE ==> block_next(t, Answer::Byte(b), fault).0
            == BlockState::Over && block_next(t, Answer::Byte(b), fault).1.last() != Op::End(0),
        t.st is Accept && b % 32 != 5 ==> block_next(t, Answer::Byte(b), fault).0
            == BlockState::Over && block_next(t, Answer::Byte(b), fault).1.last() != Op::End(0),
        // a transfer went well if it came to its end, the card is ready and
        // the bus saw no fault
        t.st == BlockState::Last && !fault ==> block_next(t, Answer::Ready(true), fault).1.last()
            == Op::End(0),
        t.st == BlockState::Last && fault ==> block_next(t, Answer::Ready(true), fault).1.last()
            != Op::End(0),
        t.st == BlockState::Last ==> block_next(t, Answer::Ready(false), fault).1.last()
            != Op::End(0),
{
}

} // verus!
