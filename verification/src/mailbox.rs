//! The mailbox: how a host drives the board, command by command.
//!
//! The host writes arguments and a command, then counts up `cmd_seq`. The
//! board runs the command, writes its status, then sets `ack_seq` to the
//! number that it answered. `magic` tells a board that hangs from one that
//! failed.

use crate::kernels::MAX_KEYS;
use crate::mel::{MelNormParams, MelParams};
use crate::params::{
    law_add_block_comes_through, law_add_pos_block_comes_through, law_attn_block_comes_through,
    law_fc2_sum_block_comes_through, law_ln_block_comes_through, word_bytes, words_at, AddParams,
    AddPosParams, AttnParams, Fc2SumParams, LnParams,
};
use vstd::prelude::*;

verus! {

/// "LAYR": ready.
pub const MAILBOX_MAGIC: u32 = 0x4C41_5952;

/// "BOOT": the program has started.
pub const MAILBOX_BOOT: u32 = 0x424F_4F54;

/// "FAIL": the NPU did not start.
pub const MAILBOX_FAIL: u32 = 0x4641_494C;

/// What a ping is answered: "PING".
pub const PONG: i32 = 0x5049_4E47;

pub const CMD_PING: u32 = 1;

pub const CMD_RUN_NPU: u32 = 2;

pub const CMD_LUT8: u32 = 3;

pub const CMD_MATMUL_BT: u32 = 4;

pub const CMD_SOFTMAX: u32 = 6;

pub const CMD_REQUANT: u32 = 7;

pub const CMD_LN: u32 = 8;

pub const CMD_ADD16: u32 = 9;

pub const CMD_ADDPOS: u32 = 10;

pub const CMD_LOGITS_MAX: u32 = 11;

pub const CMD_ATTN_HEAD: u32 = 12;

pub const CMD_FC2SUM: u32 = 13;

pub const CMD_SD_INIT: u32 = 20;

pub const CMD_SD_READ: u32 = 21;

pub const CMD_SD_WRITE: u32 = 22;

pub const CMD_MEL: u32 = 23;

pub const CMD_MELNORM: u32 = 24;

pub const CMD_RECORD: u32 = 25;

/// A command that asks for too much.
pub const E_TOO_LARGE: i32 = -1;

/// A command that does not exist.
pub const E_UNKNOWN: i32 = -100;

/// Columns of a softmax at most.
pub const MAX_SOFTMAX_COLS: usize = 640;

/// The shared words.
#[derive(Clone, Copy, Debug)]
pub struct Mailbox {
    pub magic: u32,
    pub cmd_seq: u32,
    pub cmd: u32,
    pub args: [u32; 8],
    pub ack_seq: u32,
    pub status: i32,
}

/// A command that waits.
#[derive(Clone, Copy, Debug)]
pub struct Request {
    pub seq: u32,
    pub cmd: u32,
    pub args: [u32; 8],
}

impl Mailbox {
    pub fn new() -> (m: Mailbox)
        ensures
            m.magic == 0,
            m.cmd_seq == 0,
            m.cmd == 0,
            m.args@ == seq![0u32, 0, 0, 0, 0, 0, 0, 0],
            m.ack_seq == 0,
            m.status == 0,
    {
        let args: [u32; 8] = [0, 0, 0, 0, 0, 0, 0, 0];
        assert(args@ =~= seq![0u32, 0, 0, 0, 0, 0, 0, 0]);
        Mailbox { magic: 0, cmd_seq: 0, cmd: 0, args, ack_seq: 0, status: 0 }
    }

    /// A command waits.
    pub open spec fn waiting(self) -> bool {
        self.cmd_seq != self.ack_seq
    }

    /// The program has started.
    pub fn boot(&mut self)
        ensures
            *final(self) == (Mailbox { magic: MAILBOX_BOOT, ..*old(self) }),
    {
        self.magic = MAILBOX_BOOT;
    }

    /// The NPU has started, or failed to with a code.
    pub fn booted(&mut self, rc: i32)
        ensures
            *final(self) == (if rc == 0 {
                Mailbox { magic: MAILBOX_MAGIC, ..*old(self) }
            } else {
                Mailbox { magic: MAILBOX_FAIL, status: rc, ..*old(self) }
            }),
    {
        if rc == 0 {
            self.magic = MAILBOX_MAGIC;
        } else {
            self.status = rc;
            self.magic = MAILBOX_FAIL;
        }
    }

    /// The command that waits.
    pub fn poll(&self) -> (r: Option<Request>)
        ensures
            r is Some <==> self.waiting(),
            r matches Some(q) ==> q.seq == self.cmd_seq && q.cmd == self.cmd && q.args
                == self.args,
    {
        if self.cmd_seq == self.ack_seq {
            return None;
        }
        Some(Request { seq: self.cmd_seq, cmd: self.cmd, args: self.args })
    }

    /// Answers the command with number `seq`.
    pub fn answer(&mut self, seq: u32, status: i32)
        ensures
            *final(self) == (Mailbox { status, ack_seq: seq, ..*old(self) }),
    {
        self.status = status;
        self.ack_seq = seq;
    }
}

/// The milestone before and after a command, for the report after a reset.
pub fn crumbs(cmd: u32) -> (r: (u32, u32))
    ensures
        r.0 == (0x300 + cmd) % 0x1_0000_0000,
        r.1 == (0x400 + cmd) % 0x1_0000_0000,
{
    (cmd.wrapping_add(0x300), cmd.wrapping_add(0x400))
}

// --- commands ---------------------------------------------------------------------------

/// What a command asks the board to do. Addresses are absolute; scales and
/// factors are bit patterns of floats.
#[derive(Clone, Copy, PartialEq, Eq, Structural, Debug)]
pub enum Task {
    /// Nothing but this status.
    Reply(i32),
    RunNpu { input: u32, output: u32 },
    Lut8 { lut: u32, from: u32, to: u32, len: u32 },
    MatMul { a: u32, b: u32, acc: u32, m: u32, k: u32, n: u32, za: i32 },
    AttnHead(AttnParams),
    Fc2Sum(Fc2SumParams),
    Softmax { scores: u32, probs: u32, rows: u32, cols: u32, mult: u32 },
    Requant { sums: u32, codes: u32, count: u32, factor: u32, scale: u32, zp: i32 },
    Ln(LnParams),
    Add16(AddParams),
    AddPos(AddPosParams),
    LogitsMax { logits: u32, mults: u32, ids: u32, rows_in: u32, state: u32 },
    SdInit,
    SdRead { lba: u32, into: u32, blocks: u32 },
    SdWrite { at: u32, source: u32, amount: u32 },
    Mel(MelParams),
    MelNorm(MelNormParams),
    Record { samples: u32, wanted: u32 },
}

/// Bytes of the parameter block that a command's first argument points to.
pub open spec fn block_len(cmd: u32) -> int {
    if cmd == CMD_LN || cmd == CMD_ADD16 {
        40
    } else if cmd == CMD_ADDPOS {
        32
    } else if cmd == CMD_ATTN_HEAD {
        64
    } else if cmd == CMD_FC2SUM {
        76
    } else if cmd == CMD_MEL {
        36
    } else if cmd == CMD_MELNORM {
        24
    } else {
        0
    }
}

pub fn block_bytes(cmd: u32) -> (n: usize)
    ensures
        n == block_len(cmd),
{
    if cmd == CMD_LN || cmd == CMD_ADD16 {
        40
    } else if cmd == CMD_ADDPOS {
        32
    } else if cmd == CMD_ATTN_HEAD {
        64
    } else if cmd == CMD_FC2SUM {
        76
    } else if cmd == CMD_MEL {
        36
    } else if cmd == CMD_MELNORM {
        24
    } else {
        0
    }
}

/// The task of the commands that have a parameter block.
pub open spec fn block_task(cmd: u32, b: Seq<u8>) -> Task {
    if cmd == CMD_ATTN_HEAD {
        let p = AttnParams::of(words_at(b, 16));
        if p.tk > MAX_KEYS {
            Task::Reply(E_TOO_LARGE)
        } else {
            Task::AttnHead(p)
        }
    } else if cmd == CMD_FC2SUM {
        Task::Fc2Sum(Fc2SumParams::of(words_at(b, 19)))
    } else if cmd == CMD_LN {
        Task::Ln(LnParams::of(words_at(b, 10)))
    } else if cmd == CMD_ADD16 {
        Task::Add16(AddParams::of(words_at(b, 10)))
    } else if cmd == CMD_MEL {
        Task::Mel(MelParams::of(words_at(b, 9)))
    } else if cmd == CMD_MELNORM {
        Task::MelNorm(MelNormParams::of(words_at(b, 6)))
    } else {
        Task::AddPos(AddPosParams::of(words_at(b, 8)))
    }
}

/// The task of a command.
pub open spec fn task_of(cmd: u32, a: Seq<u32>, b: Seq<u8>) -> Task {
    if cmd == CMD_PING {
        Task::Reply(PONG)
    } else if cmd == CMD_RUN_NPU {
        Task::RunNpu { input: a[0], output: a[1] }
    } else if cmd == CMD_LUT8 {
        Task::Lut8 { lut: a[0], from: a[1], to: a[2], len: a[3] }
    } else if cmd == CMD_MATMUL_BT {
        Task::MatMul {
            a: a[0],
            b: a[1],
            acc: a[2],
            m: a[3],
            k: a[4],
            n: a[5],
            za: crate::bytes::signed32(a[6] as int) as i32,
        }
    } else if cmd == CMD_SOFTMAX {
        if a[3] > MAX_SOFTMAX_COLS {
            Task::Reply(E_TOO_LARGE)
        } else {
            Task::Softmax { scores: a[0], probs: a[1], rows: a[2], cols: a[3], mult: a[4] }
        }
    } else if cmd == CMD_REQUANT {
        Task::Requant {
            sums: a[0],
            codes: a[1],
            count: a[2],
            factor: a[3],
            scale: a[4],
            zp: crate::bytes::signed32(a[5] as int) as i32,
        }
    } else if cmd == CMD_LOGITS_MAX {
        Task::LogitsMax { logits: a[0], mults: a[1], ids: a[2], rows_in: a[3], state: a[4] }
    } else if cmd == CMD_SD_INIT {
        Task::SdInit
    } else if cmd == CMD_SD_READ {
        Task::SdRead { lba: a[0], into: a[1], blocks: a[2] }
    } else if cmd == CMD_SD_WRITE {
        Task::SdWrite { at: a[0], source: a[1], amount: a[2] }
    } else if cmd == CMD_RECORD {
        Task::Record { samples: a[0], wanted: a[1] }
    } else if block_len(cmd) > 0 {
        block_task(cmd, b)
    } else {
        Task::Reply(E_UNKNOWN)
    }
}

fn dispatch_block(cmd: u32, b: &[u8]) -> (t: Task)
    requires
        block_len(cmd) > 0,
        b@.len() >= block_len(cmd),
    ensures
        t == block_task(cmd, b@),
{
    if cmd == CMD_ATTN_HEAD {
        let p = AttnParams::parse(b);
        if p.tk as usize > MAX_KEYS {
            Task::Reply(E_TOO_LARGE)
        } else {
            Task::AttnHead(p)
        }
    } else if cmd == CMD_FC2SUM {
        Task::Fc2Sum(Fc2SumParams::parse(b))
    } else if cmd == CMD_LN {
        Task::Ln(LnParams::parse(b))
    } else if cmd == CMD_ADD16 {
        Task::Add16(AddParams::parse(b))
    } else if cmd == CMD_MEL {
        Task::Mel(MelParams::parse(b))
    } else if cmd == CMD_MELNORM {
        Task::MelNorm(MelNormParams::parse(b))
    } else {
        Task::AddPos(AddPosParams::parse(b))
    }
}

/// Decides what a command asks for: `b` are the bytes that its first
/// argument points to, where it has a parameter block.
pub fn dispatch(cmd: u32, a: &[u32; 8], b: &[u8]) -> (t: Task)
    requires
        b@.len() >= block_len(cmd),
    ensures
        t == task_of(cmd, a@, b@),
{
    if cmd == CMD_PING {
        Task::Reply(PONG)
    } else if cmd == CMD_RUN_NPU {
        Task::RunNpu { input: a[0], output: a[1] }
    } else if cmd == CMD_LUT8 {
        Task::Lut8 { lut: a[0], from: a[1], to: a[2], len: a[3] }
    } else if cmd == CMD_MATMUL_BT {
        Task::MatMul {
            a: a[0],
            b: a[1],
            acc: a[2],
            m: a[3],
            k: a[4],
            n: a[5],
            za: crate::bytes::to_signed(a[6]),
        }
    } else if cmd == CMD_SOFTMAX {
        if a[3] as usize > MAX_SOFTMAX_COLS {
            Task::Reply(E_TOO_LARGE)
        } else {
            Task::Softmax { scores: a[0], probs: a[1], rows: a[2], cols: a[3], mult: a[4] }
        }
    } else if cmd == CMD_REQUANT {
        Task::Requant {
            sums: a[0],
            codes: a[1],
            count: a[2],
            factor: a[3],
            scale: a[4],
            zp: crate::bytes::to_signed(a[5]),
        }
    } else if cmd == CMD_LOGITS_MAX {
        Task::LogitsMax { logits: a[0], mults: a[1], ids: a[2], rows_in: a[3], state: a[4] }
    } else if cmd == CMD_SD_INIT {
        Task::SdInit
    } else if cmd == CMD_SD_READ {
        Task::SdRead { lba: a[0], into: a[1], blocks: a[2] }
    } else if cmd == CMD_SD_WRITE {
        Task::SdWrite { at: a[0], source: a[1], amount: a[2] }
    } else if cmd == CMD_RECORD {
        Task::Record { samples: a[0], wanted: a[1] }
    } else if block_bytes(cmd) > 0 {
        dispatch_block(cmd, b)
    } else {
        Task::Reply(E_UNKNOWN)
    }
}

/// A piece of memory that a task uses: `count` elements of `size` bytes.
#[derive(Clone, Copy, PartialEq, Eq, Structural, Debug)]
pub struct Access {
    pub addr: u32,
    pub count: u64,
    pub size: u8,
    pub write: bool,
}

/// Elements of a matrix.
pub open spec fn area(r: u32, c: u32) -> u64 {
    (r * c) as u64
}

pub open spec fn reads(addr: u32, count: u64, size: u8) -> Access {
    Access { addr, count, size, write: false }
}

pub open spec fn writes(addr: u32, count: u64, size: u8) -> Access {
    Access { addr, count, size, write: true }
}

/// The memory that a kernel reads and writes.
pub open spec fn accesses_of(t: Task) -> Seq<Access> {
    match t {
        Task::Lut8 { lut, from, to, len } => seq![
            reads(lut, 256, 1),
            reads(from, len as u64, 1),
            writes(to, len as u64, 1),
        ],
        Task::MatMul { a, b, acc, m, k, n, za } => seq![
            reads(a, area(m, k), 1),
            reads(b, area(n, k), 1),
            writes(acc, area(m, n), 4),
        ],
        Task::AttnHead(p) => seq![
            reads(p.q, area(p.hd, p.qstride), 1),
            reads(p.k, area(p.hd, p.kstride), 1),
            reads(p.v, area(p.hd, p.kstride), 1),
            writes(p.ctx, area(p.hd, p.qstride), 1),
        ],
        Task::Fc2Sum(p) => seq![
            reads(p.p0, p.len as u64, 1),
            reads(p.p1, p.len as u64, 1),
            reads(p.p2, p.len as u64, 1),
            reads(p.p3, p.len as u64, 1),
            reads(p.a, p.len as u64, 2),
            writes(p.dst, p.len as u64, 2),
        ],
        Task::Softmax { scores, probs, rows, cols, mult } => seq![
            reads(scores, area(rows, cols), 4),
            writes(probs, area(rows, cols), 1),
        ],
        Task::Requant { sums, codes, count, factor, scale, zp } => seq![
            reads(sums, count as u64, 4),
            writes(codes, count as u64, 1),
        ],
        Task::Ln(p) => seq![
            reads(p.src, area(p.ch, p.w), 2),
            reads(p.gamma, p.ch as u64, 4),
            reads(p.beta, p.ch as u64, 4),
            writes(p.dst, area(p.ch, p.w), 1),
        ],
        Task::Add16(p) => seq![
            reads(p.a, p.len as u64, 2),
            reads(p.b, p.len as u64, 1),
            writes(p.dst, p.len as u64, 2),
        ],
        Task::AddPos(p) => seq![
            reads(p.a, p.len as u64, 1),
            reads(p.b, p.len as u64, 4),
            writes(p.dst, p.len as u64, 2),
        ],
        Task::LogitsMax { logits, mults, ids, rows_in, state } => seq![
            reads(logits, rows_in as u64, 4),
            reads(mults, rows_in as u64, 4),
            reads(ids, rows_in as u64, 4),
            writes(state, 1, 8),
        ],
        Task::Mel(p) => seq![
            reads(p.pcm, p.n_samples as u64, 2),
            reads(p.hann, 400, 4),
            reads(p.cos_tab, 400, 4),
            reads(p.filters, 16080, 4),
            writes(p.out, area(80, p.n_frames), 4),
            writes(p.max_acc, 1, 4),
        ],
        Task::MelNorm(p) => seq![
            reads(p.mel, p.n as u64, 4),
            reads(p.max_acc, 1, 4),
            writes(p.out, p.n as u64, 1),
        ],
        _ => Seq::empty(),
    }
}

fn area_of(r: u32, c: u32) -> (n: u64)
    ensures
        n == r * c,
        n == area(r, c),
{
    assert(r * c <= 0xFFFF_FFFF * 0xFFFF_FFFF) by (nonlinear_arith)
        requires
            0 <= r <= 0xFFFF_FFFF,
            0 <= c <= 0xFFFF_FFFF,
    ;
    r as u64 * c as u64
}

fn rd(addr: u32, count: u64, size: u8) -> (a: Access)
    ensures
        a == reads(addr, count, size),
{
    Access { addr, count, size, write: false }
}

fn wr(addr: u32, count: u64, size: u8) -> (a: Access)
    ensures
        a == writes(addr, count, size),
{
    Access { addr, count, size, write: true }
}

impl Task {
    /// Lists the memory that a kernel reads and writes.
    pub fn accesses(&self) -> (r: Vec<Access>)
        ensures
            r@ == accesses_of(*self),
    {
        let v: Vec<Access> = match *self {
            Task::Lut8 { lut, from, to, len } => vec![
                rd(lut, 256, 1),
                rd(from, len as u64, 1),
                wr(to, len as u64, 1),
            ],
            Task::MatMul { a, b, acc, m, k, n, za } => vec![
                rd(a, area_of(m, k), 1),
                rd(b, area_of(n, k), 1),
                wr(acc, area_of(m, n), 4),
            ],
            Task::AttnHead(p) => vec![
                rd(p.q, area_of(p.hd, p.qstride), 1),
                rd(p.k, area_of(p.hd, p.kstride), 1),
                rd(p.v, area_of(p.hd, p.kstride), 1),
                wr(p.ctx, area_of(p.hd, p.qstride), 1),
            ],
            Task::Fc2Sum(p) => vec![
                rd(p.p0, p.len as u64, 1),
                rd(p.p1, p.len as u64, 1),
                rd(p.p2, p.len as u64, 1),
                rd(p.p3, p.len as u64, 1),
                rd(p.a, p.len as u64, 2),
                wr(p.dst, p.len as u64, 2),
            ],
            Task::Softmax { scores, probs, rows, cols, mult } => vec![
                rd(scores, area_of(rows, cols), 4),
                wr(probs, area_of(rows, cols), 1),
            ],
            Task::Requant { sums, codes, count, factor, scale, zp } => vec![
                rd(sums, count as u64, 4),
                wr(codes, count as u64, 1),
            ],
            Task::Ln(p) => vec![
                rd(p.src, area_of(p.ch, p.w), 2),
                rd(p.gamma, p.ch as u64, 4),
                rd(p.beta, p.ch as u64, 4),
                wr(p.dst, area_of(p.ch, p.w), 1),
            ],
            Task::Add16(p) => vec![
                rd(p.a, p.len as u64, 2),
                rd(p.b, p.len as u64, 1),
                wr(p.dst, p.len as u64, 2),
            ],
            Task::AddPos(p) => vec![
                rd(p.a, p.len as u64, 1),
                rd(p.b, p.len as u64, 4),
                wr(p.dst, p.len as u64, 2),
            ],
            Task::LogitsMax { logits, mults, ids, rows_in, state } => vec![
                rd(logits, rows_in as u64, 4),
                rd(mults, rows_in as u64, 4),
                rd(ids, rows_in as u64, 4),
                wr(state, 1, 8),
            ],
            Task::Mel(p) => vec![
                rd(p.pcm, p.n_samples as u64, 2),
                rd(p.hann, 400, 4),
                rd(p.cos_tab, 400, 4),
                rd(p.filters, 16080, 4),
                wr(p.out, area_of(80, p.n_frames), 4),
                wr(p.max_acc, 1, 4),
            ],
            Task::MelNorm(p) => vec![
                rd(p.mel, p.n as u64, 4),
                rd(p.max_acc, 1, 4),
                wr(p.out, p.n as u64, 1),
            ],
            _ => Vec::new(),
        };
        assert(v@ =~= accesses_of(*self));
        v
    }

    /// Whether the hang watchdog watches over a task. A recording takes
    /// longer than it allows.
    pub fn watched(&self) -> (b: bool)
        ensures
            b == (match *self {
                Task::RunNpu { .. }
                | Task::SdInit
                | Task::SdRead { .. }
                | Task::SdWrite { .. }
                | Task::Mel(_) => true,
                _ => false,
            }),
    {
        match *self {
            Task::RunNpu { .. }
            | Task::SdInit
            | Task::SdRead { .. }
            | Task::SdWrite { .. }
            | Task::Mel(_) => true,
            _ => false,
        }
    }
}

/// The status that a task is answered with when carrying it out gave `rc`.
pub open spec fn status_of(t: Task, rc: i32) -> i32 {
    match t {
        Task::Reply(s) => s,
        Task::RunNpu { .. }
        | Task::SdInit
        | Task::SdRead { .. }
        | Task::SdWrite { .. }
        | Task::Record { .. } => rc,
        _ => 0,
    }
}

/// The NPU, the card and the recording answer their own code; a kernel that
/// was carried out answers zero, whatever its results are.
pub fn status(t: Task, rc: i32) -> (s: i32)
    ensures
        s == status_of(t, rc),
{
    match t {
        Task::Reply(s) => s,
        Task::RunNpu { .. }
        | Task::SdInit
        | Task::SdRead { .. }
        | Task::SdWrite { .. }
        | Task::Record { .. } => rc,
        _ => 0,
    }
}

/// A card that did not start leaves the bus free for others.
pub fn sd_init_releases(rc: i32) -> (b: bool)
    ensures
        b == (rc != 0),
{
    rc != 0
}

/// A recording into memory. The first buffer is dropped, with the overruns
/// up to there: the microphone settles in it.
#[derive(Clone, Copy, PartialEq, Eq, Structural, Debug)]
pub struct Listen {
    pub wanted: usize,
    pub written: usize,
    pub settled: bool,
}

impl Listen {
    pub open spec fn wf(self) -> bool {
        &&& self.written <= self.wanted
        &&& self.written > 0 ==> self.settled
    }

    pub fn record(wanted: usize) -> (r: Listen)
        ensures
            r.wf(),
            r == (Listen { wanted, written: 0, settled: false }),
    {
        Listen { wanted, written: 0, settled: false }
    }

    /// Nothing more is wanted.
    pub fn done(&self) -> (b: bool)
        ensures
            b == (self.settled && self.written >= self.wanted),
    {
        self.settled && self.written >= self.wanted
    }

    /// A buffer of `len` samples came in: how many of its first samples are
    /// kept, and behind how many others. None says that it is the one to be
    /// dropped.
    pub fn hop(&mut self, len: usize) -> (r: Option<(usize, usize)>)
        requires
            old(self).wf(),
        ensures
            final(self).wf(),
            final(self).wanted == old(self).wanted,
            final(self).settled,
            !old(self).settled ==> r is None && final(self).written == old(self).written,
            old(self).settled ==> {
                let left = old(self).wanted - old(self).written;
                let take = if len < left {
                    len as int
                } else {
                    left
                };
                &&& r == Some((take as usize, old(self).written))
                &&& final(self).written == old(self).written + take
            },
    {
        if !self.settled {
            self.settled = true;
            return None;
        }
        let left: usize = self.wanted - self.written;
        let take: usize = if len < left {
            len
        } else {
            left
        };
        let at: usize = self.written;
        self.written = at + take;
        Some((take, at))
    }
}

// --- the hang watchdog ------------------------------------------------------------------

pub const WDOG_DISARMED: u32 = u32::MAX;

/// Ticks of 10 ms that a driver call may take.
pub const WDOG_LIMIT_TICKS: u32 = 200;

/// Counts ticks while a driver call runs.
#[derive(Clone, Copy, PartialEq, Eq, Structural, Debug)]
pub struct Watchdog {
    pub ticks: u32,
}

impl Watchdog {
    pub fn new() -> (w: Watchdog)
        ensures
            w.ticks == WDOG_DISARMED,
    {
        Watchdog { ticks: WDOG_DISARMED }
    }

    pub fn arm(&mut self)
        ensures
            final(self).ticks == 0,
    {
        self.ticks = 0;
    }

    pub fn disarm(&mut self)
        ensures
            final(self).ticks == WDOG_DISARMED,
    {
        self.ticks = WDOG_DISARMED;
    }

    /// A tick; `true` resets the chip.
    pub fn tick(&mut self) -> (reset: bool)
        ensures
            reset == (old(self).ticks != WDOG_DISARMED && old(self).ticks >= WDOG_LIMIT_TICKS),
            *final(self) == old(self).ticked(),
    {
        if self.ticks == WDOG_DISARMED {
            return false;
        }
        if self.ticks >= WDOG_LIMIT_TICKS {
            return true;
        }
        self.ticks = self.ticks + 1;
        false
    }

    /// After a tick.
    pub open spec fn ticked(self) -> Watchdog {
        if self.ticks == WDOG_DISARMED || self.ticks >= WDOG_LIMIT_TICKS {
            self
        } else {
            Watchdog { ticks: (self.ticks + 1) as u32 }
        }
    }

    /// After `n` ticks.
    pub open spec fn after(self, n: nat) -> Watchdog
        decreases n,
    {
        if n == 0 {
            self
        } else {
            self.after((n - 1) as nat).ticked()
        }
    }
}

/// A call that is armed and never returns resets the chip at the tick after
/// the limit, and not before; a disarmed watchdog never does.
pub proof fn law_a_hang_is_reset(n: nat)
    ensures
        ({
            let armed = (Watchdog { ticks: 0 }).after(n);
            armed.ticks >= WDOG_LIMIT_TICKS <==> n >= WDOG_LIMIT_TICKS
        }),
        (Watchdog { ticks: WDOG_DISARMED }).after(n).ticks == WDOG_DISARMED,
{
    lemma_after(n);
}

proof fn lemma_after(n: nat)
    ensures
        (Watchdog { ticks: 0 }).after(n).ticks == (if n < WDOG_LIMIT_TICKS {
            n as int
        } else {
            WDOG_LIMIT_TICKS as int
        }),
        (Watchdog { ticks: WDOG_DISARMED }).after(n).ticks == WDOG_DISARMED,
    decreases n,
{
    if n > 0 {
        lemma_after((n - 1) as nat);
    }
}

// --- start ------------------------------------------------------------------------------

/// Cycles in which a host may take over after the start: 3 s.
pub const GRACE_CYCLES: u32 = 384_000_000;

/// What follows a look at the mailbox and the clock after the start.
#[derive(Clone, Copy, PartialEq, Eq, Structural, Debug)]
pub enum Start {
    /// Look again.
    Wait,
    /// A host has called: serve the mailbox.
    Host,
    /// Nobody has: run alone.
    Alone,
}

/// The time is looked at first.
pub fn grace(m: &Mailbox, start: u32, now: u32) -> (s: Start)
    ensures
        s == (if (now - start) % 0x1_0000_0000 >= GRACE_CYCLES {
            Start::Alone
        } else if m.waiting() {
            Start::Host
        } else {
            Start::Wait
        }),
{
    if now.wrapping_sub(start) >= GRACE_CYCLES {
        return Start::Alone;
    }
    match m.poll() {
        Some(_) => Start::Host,
        None => Start::Wait,
    }
}

// --- the host's side --------------------------------------------------------------------

pub const MB_MAGIC: u64 = 0;

pub const MB_CMD_SEQ: u64 = 4;

pub const MB_CMD: u64 = 8;

pub const MB_ARGS: u64 = 12;

pub const MB_ACK_SEQ: u64 = 44;

pub const MB_STATUS: u64 = 48;

/// The host's end of the mailbox: where it is, and the last number used.
#[derive(Clone, Copy, PartialEq, Eq, Structural, Debug)]
pub struct Caller {
    pub base: u64,
    pub seq: u32,
}

/// Words to write at an address.
#[derive(Debug)]
pub struct Poke {
    pub addr: u64,
    pub words: Vec<u32>,
}

/// Arguments padded with zeroes.
pub open spec fn padded(args: Seq<u32>) -> Seq<u32> {
    Seq::new(8, |i: int| if i < args.len() { args[i] } else { 0u32 })
}

/// What a write does to the mailbox at `base`.
pub open spec fn poked(m: Mailbox, base: int, addr: int, words: Seq<u32>) -> Mailbox {
    if addr == base + MB_ARGS {
        Mailbox { args: args_with(m.args, words), ..m }
    } else if addr == base + MB_CMD {
        Mailbox { cmd: words[0], ..m }
    } else {
        Mailbox { cmd_seq: words[0], ..m }
    }
}

/// An argument array with this content.
pub open spec fn args_with(a: [u32; 8], words: Seq<u32>) -> [u32; 8] {
    choose|x: [u32; 8]| x@ == words
}

impl Caller {
    /// The writes that post a command, in order: the number comes last.
    pub fn post(&mut self, cmd: u32, args: &[u32]) -> (w: Vec<Poke>)
        requires
            args@.len() <= 8,
            old(self).seq < u32::MAX,
            old(self).base <= u64::MAX - 64,
        ensures
            final(self).seq == old(self).seq + 1,
            final(self).base == old(self).base,
            w@.len() == 3,
            w@[0].addr == old(self).base + MB_ARGS,
            w@[0].words@ == padded(args@),
            w@[1].addr == old(self).base + MB_CMD,
            w@[1].words@ == seq![cmd],
            w@[2].addr == old(self).base + MB_CMD_SEQ,
            w@[2].words@ == seq![final(self).seq],
    {
        let mut a: Vec<u32> = Vec::new();
        let mut i: usize = 0;
        while i < 8
            invariant
                i <= 8,
                a@.len() == i,
                forall|k: int| 0 <= k < i ==> #[trigger] a@[k] == padded(args@)[k],
            decreases 8 - i,
        {
            if i < args.len() {
                a.push(args[i]);
            } else {
                a.push(0);
            }
            i = i + 1;
        }
        assert(a@ =~= padded(args@));
        self.seq = self.seq + 1;
        let c: Vec<u32> = vec![cmd];
        let s: Vec<u32> = vec![self.seq];
        assert(c@ =~= seq![cmd]);
        assert(s@ =~= seq![self.seq]);
        let mut w: Vec<Poke> = Vec::new();
        w.push(Poke { addr: self.base + MB_ARGS, words: a });
        w.push(Poke { addr: self.base + MB_CMD, words: c });
        w.push(Poke { addr: self.base + MB_CMD_SEQ, words: s });
        w
    }

    /// A look at the answer: `None` looks again, `Some(true)` says that the
    /// status may be read, `Some(false)` that the time is over.
    pub fn answered(&self, ack: u32, late: bool) -> (r: Option<bool>)
        ensures
            r == (if ack == self.seq {
                Some(true)
            } else if late {
                Some(false)
            } else {
                None
            }),
    {
        if ack == self.seq {
            Some(true)
        } else if late {
            Some(false)
        } else {
            None
        }
    }
}

/// A board that waits sees nothing of a command until its last write, and
/// then all of it.
pub proof fn law_a_command_is_seen_whole(m: Mailbox, base: int, args: [u32; 8], cmd: u32, seq: u32)
    requires
        !m.waiting(),
        seq != m.cmd_seq,
    ensures
        ({
            let a = poked(m, base, base + MB_ARGS, args@);
            let b = poked(a, base, base + MB_CMD, seq![cmd]);
            let c = poked(b, base, base + MB_CMD_SEQ, seq![seq]);
            &&& !a.waiting()
            &&& !b.waiting()
            &&& c.waiting()
            &&& c.cmd_seq == seq
            &&& c.cmd == cmd
            &&& c.args@ == args@
        }),
{
    let a = poked(m, base, base + MB_ARGS, args@);
    assert(exists|x: [u32; 8]| x@ == args@);
    assert(a.args@ == args@);
}

/// Each posted command is answered once: after the answer nothing waits.
pub proof fn law_answers_settle(m: Mailbox, status: i32)
    ensures
        !(Mailbox { status, ack_seq: m.cmd_seq, ..m }).waiting(),
{
}

/// What a board that should have started looks like.
#[derive(Clone, Copy, PartialEq, Eq, Structural, Debug)]
pub enum Ready {
    Yes,
    /// The status holds the code.
    Failed,
    /// Look again in a while.
    Wait,
    Hung,
    NeverStarted,
    Unknown,
}

/// Reads the magic word of a board that was started; `late` says that the
/// time is over.
pub fn ready(magic: u32, late: bool) -> (r: Ready)
    ensures
        r == (if magic == MAILBOX_MAGIC {
            Ready::Yes
        } else if magic == MAILBOX_FAIL {
            Ready::Failed
        } else if !late {
            Ready::Wait
        } else if magic == MAILBOX_BOOT {
            Ready::Hung
        } else if magic == 0 {
            Ready::NeverStarted
        } else {
            Ready::Unknown
        }),
{
    if magic == MAILBOX_MAGIC {
        Ready::Yes
    } else if magic == MAILBOX_FAIL {
        Ready::Failed
    } else if !late {
        Ready::Wait
    } else if magic == MAILBOX_BOOT {
        Ready::Hung
    } else if magic == 0 {
        Ready::NeverStarted
    } else {
        Ready::Unknown
    }
}

/// A command's block is as long as the words that are read out of it.
pub proof fn law_blocks_are_as_long_as_their_words(
    ln: LnParams,
    add: AddParams,
    pos: AddPosParams,
    attn: AttnParams,
    fc2: Fc2SumParams,
    mel: MelParams,
    norm: MelNormParams,
)
    ensures
        block_len(8) == 4 * ln.words().len(),
        block_len(9) == 4 * add.words().len(),
        block_len(10) == 4 * pos.words().len(),
        block_len(12) == 4 * attn.words().len(),
        block_len(13) == 4 * fc2.words().len(),
        block_len(23) == 4 * mel.words().len(),
        block_len(24) == 4 * norm.words().len(),
{
}

/// What a caller packs for a command with a block reaches that command's
/// kernel as it was packed.
pub proof fn law_a_block_reaches_its_kernel(
    a: Seq<u32>,
    ln: LnParams,
    add: AddParams,
    pos: AddPosParams,
    attn: AttnParams,
    fc2: Fc2SumParams,
)
    ensures
        task_of(8, a, word_bytes(ln.words())) == Task::Ln(ln),
        task_of(9, a, word_bytes(add.words())) == Task::Add16(add),
        task_of(10, a, word_bytes(pos.words())) == Task::AddPos(pos),
        attn.tk <= 640 ==> task_of(12, a, word_bytes(attn.words())) == Task::AttnHead(attn),
        attn.tk > 640 ==> task_of(12, a, word_bytes(attn.words())) is Reply,
        task_of(13, a, word_bytes(fc2.words())) == Task::Fc2Sum(fc2),
{
    law_ln_block_comes_through(ln);
    law_add_block_comes_through(add);
    law_add_pos_block_comes_through(pos);
    law_attn_block_comes_through(attn);
    law_fc2_sum_block_comes_through(fc2);
}

/// The arguments of the other commands come in the order in which their
/// callers put them.
pub proof fn law_arguments_come_in_order(a: Seq<u32>, b: Seq<u8>)
    requires
        a.len() == 8,
    ensures
        task_of(2, a, b) == (Task::RunNpu { input: a[0], output: a[1] }),
        task_of(3, a, b) == (Task::Lut8 { lut: a[0], from: a[1], to: a[2], len: a[3] }),
        task_of(4, a, b) matches Task::MatMul { a: x, b: y, acc, m, k, n, za } && x == a[0] && y
            == a[1] && acc == a[2] && m == a[3] && k == a[4] && n == a[5] && (za >= 0 ==> za
            == a[6]) && (za < 0 ==> za + 0x1_0000_0000 == a[6]),
        task_of(11, a, b) == (Task::LogitsMax {
            logits: a[0],
            mults: a[1],
            ids: a[2],
            rows_in: a[3],
            state: a[4],
        }),
        task_of(21, a, b) == (Task::SdRead { lba: a[0], into: a[1], blocks: a[2] }),
        task_of(22, a, b) == (Task::SdWrite { at: a[0], source: a[1], amount: a[2] }),
        task_of(25, a, b) == (Task::Record { samples: a[0], wanted: a[1] }),
        task_of(1, a, b) is Reply,
        task_of(20, a, b) is SdInit,
{
}

/// A command's answer is the code of what it did where that can fail, what
/// was to be said where there is nothing to do, and zero otherwise.
pub proof fn law_answers_are_codes(t: Task, rc: i32)
    ensures
        t matches Task::Reply(s) ==> status_of(t, rc) == s,
        t is RunNpu || t is SdInit || t is SdRead || t is SdWrite || t is Record ==> status_of(t, rc)
            == rc,
        t is Lut8 || t is MatMul || t is Softmax || t is Requant || t is Ln || t is Add16
            || t is AddPos || t is LogitsMax || t is AttnHead || t is Fc2Sum || t is Mel
            || t is MelNorm ==> status_of(t, rc) == 0,
{
}

/// What a kernel touches: as many elements as its shape says, read where it
/// reads and written where it writes.
pub proof fn law_kernels_touch_their_tensors(
    lut: u32,
    from: u32,
    to: u32,
    len: u32,
    m: u32,
    k: u32,
    n: u32,
    za: i32,
    ln: LnParams,
    add: AddParams,
    attn: AttnParams,
    fc2: Fc2SumParams,
)
    ensures
        ({
            let a = accesses_of(Task::Lut8 { lut, from, to, len });
            &&& a.len() == 3
            &&& a[0].addr == lut && a[0].count == 256 && a[0].size == 1 && !a[0].write
            &&& a[1].addr == from && a[1].count == len && a[1].size == 1 && !a[1].write
            &&& a[2].addr == to && a[2].count == len && a[2].size == 1 && a[2].write
        }),
        ({
            let a = accesses_of(Task::MatMul { a: lut, b: from, acc: to, m, k, n, za });
            &&& a.len() == 3
            &&& a[0].addr == lut && a[0].count == m * k && a[0].size == 1 && !a[0].write
            &&& a[1].addr == from && a[1].count == n * k && a[1].size == 1 && !a[1].write
            &&& a[2].addr == to && a[2].count == m * n && a[2].size == 4 && a[2].write
        }),
        ({
            let a = accesses_of(Task::Ln(ln));
            &&& a.len() == 4
            &&& a[0].addr == ln.src && a[0].count == ln.ch * ln.w && a[0].size == 2 && !a[0].write
            &&& a[1].addr == ln.gamma && a[1].count == ln.ch && a[1].size == 4 && !a[1].write
            &&& a[2].addr == ln.beta && a[2].count == ln.ch && a[2].size == 4 && !a[2].write
            &&& a[3].addr == ln.dst && a[3].count == ln.ch * ln.w && a[3].size == 1 && a[3].write
        }),
        ({
            let a = accesses_of(Task::Add16(add));
            &&& a.len() == 3
            &&& a[0].addr == add.a && a[0].count == add.len && a[0].size == 2 && !a[0].write
            &&& a[1].addr == add.b && a[1].count == add.len && a[1].size == 1 && !a[1].write
            &&& a[2].addr == add.dst && a[2].count == add.len && a[2].size == 2 && a[2].write
        }),
        ({
            let a = accesses_of(Task::AttnHead(attn));
            &&& a.len() == 4
            &&& a[0].addr == attn.q && a[0].count == attn.hd * attn.qstride && !a[0].write
            &&& a[1].addr == attn.k && a[1].count == attn.hd * attn.kstride && !a[1].write
            &&& a[2].addr == attn.v && a[2].count == attn.hd * attn.kstride && !a[2].write
            &&& a[3].addr == attn.ctx && a[3].count == attn.hd * attn.qstride && a[3].write
        }),
        ({
            let a = accesses_of(Task::Fc2Sum(fc2));
            &&& a.len() == 6
            &&& a[0].addr == fc2.p0 && a[1].addr == fc2.p1 && a[2].addr == fc2.p2 && a[3].addr
                == fc2.p3
            &&& forall|i: int|
                0 <= i < 4 ==> (#[trigger] a[i]).count == fc2.len && a[i].size == 1 && !a[i].write
            &&& a[4].addr == fc2.a && a[4].count == fc2.len && a[4].size == 2 && !a[4].write
            &&& a[5].addr == fc2.dst && a[5].count == fc2.len && a[5].size == 2 && a[5].write
        }),
{
    lemma_area(m, k);
    lemma_area(n, k);
    lemma_area(m, n);
    lemma_area(ln.ch, ln.w);
    lemma_area(attn.hd, attn.qstride);
    lemma_area(attn.hd, attn.kstride);
}

proof fn lemma_area(r: u32, c: u32)
    ensures
        area(r, c) == r * c,
{
    assert(0 <= r * c <= 0xFFFF_FFFF * 0xFFFF_FFFF) by (nonlinear_arith)
        requires
            0 <= r <= 0xFFFF_FFFF,
            0 <= c <= 0xFFFF_FFFF,
    ;
}

} // verus!
