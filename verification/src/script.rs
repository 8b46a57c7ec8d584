//! Scripts: what a phase asks of storage, of the NPU and of the CPU, step
//! by step, and the discipline that every script keeps.
//!
//! Transfers overlap with computation: a queue of block transfers is filled
//! with `Push`, advanced by `Pump` (and during a pumped NPU run), and
//! emptied by `Drain`. Between a push and the next drain the transfer may
//! be running at any moment, so nothing may write a buffer that it uses,
//! nothing may read a buffer that it fills, and no blocking transfer may be
//! made. A script also never reads scratch blocks that hold nothing yet.

use crate::image::Kind;
use crate::kernels::Quant;
use crate::layout::{il_buf, slot_buf, Buf, INTERLAYER_BYTES, SL_EXPTAB, S_END};
use vstd::prelude::*;

verus! {

/// A compiled layer.
#[derive(Clone, Copy, PartialEq, Eq, Structural, Debug)]
pub enum Blob {
    Conv1,
    /// Output channels 128 times the part and on.
    Conv2(usize),
    /// Block, layer and part of the encoder.
    Enc(usize, Kind, usize),
    /// ... of the decoder.
    Dec(usize, Kind, usize),
}

/// A table of the image.
#[derive(Clone, Copy, PartialEq, Eq, Structural, Debug)]
pub enum Asset {
    /// GELU tables after the first convolution and each part of the second.
    Gelu1,
    Gelu2(usize),
    /// Positional embedding of the encoder, tile-major.
    PosEnc,
    /// Layer norms and GELU tables of an encoder block.
    EncLn1(usize),
    EncLn2(usize),
    EncLut(usize, usize),
    LnPost,
    /// All constants of a decoder block, or one by one.
    DecAll(usize),
    DecLn1(usize),
    DecXln(usize),
    DecLn2(usize),
    DecLut(usize, usize),
}

#[derive(Clone, Copy, Debug)]
pub enum Step {
    /// Milestone for the crash report.
    Crumb(u32),
    /// The slot no longer holds a blob.
    Forget,
    /// A whole asset.
    Asset { what: Asset, dst: Buf },
    /// Blocks of an asset, from block `block` on.
    Image { what: Asset, block: u32, dst: Buf },
    /// A blob into the slot, unless it is there.
    Load(Blob),
    /// One inference of the loaded blob; `pumped` advances the queue
    /// meanwhile.
    Run { blob: Blob, input: Buf, output: Buf, pumped: bool },
    /// Scratch blocks from block `at` on, blocking.
    Read { at: u32, dst: Buf },
    Write { at: u32, src: Buf },
    /// The same, queued.
    Push { read: bool, at: u32, buf: Buf },
    Pump,
    Drain,
    /// The code of real zero in every byte.
    Fill { dst: Buf, zero: Quant },
    /// The columns that a tile shares with a window of `t_in` columns
    /// from `col0` on.
    Columns { src: Buf, dst: Buf, rows: usize, t_in: usize, col0: i32, tile: u32 },
    /// An int8 map in place.
    Lut { table: Buf, buf: Buf },
    /// Layer norm of int16 columns into int8.
    Norm { src: Buf, gb: Buf, dst: Buf, from: Quant, to: Quant },
    /// int8 plus float vector into int16.
    AddPos { a: Buf, b: Buf, dst: Buf, qa: Quant, qd: Quant },
    /// int16 plus int8, in place.
    AddTo { acc: Buf, b: Buf, qa: Quant, qb: Quant, qd: Quant },
    /// int16 plus four int8 parts that follow one another, in place.
    Sum4 { acc: Buf, parts: Buf, pq: [Quant; 4], qa: Quant, qd: Quant },
    /// The softmax table for the score multiplier of these two scales.
    ExpTable { q: Quant, k: Quant, dst: Buf },
    /// Staged key blocks transposed into the slot.
    Keys { stage: Buf, tk: usize, dst: Buf },
    /// Staged value blocks widened into the slot.
    Values { stage: Buf, tk: usize, dst: Buf },
    Copy { src: Buf, dst: Buf },
    /// Attention of 16 queries of a tile block from `first` on.
    Attend {
        query: Buf,
        kv: Buf,
        table: Buf,
        work: Buf,
        ctx: Buf,
        first: usize,
        tk: usize,
        qq: Quant,
        qk: Quant,
        qv: Quant,
        qc: Quant,
    },
    /// int8 from one quantisation to another, in place.
    Requant { buf: Buf, from: Quant, to: Quant },
    /// Head blocks transposed one by one.
    Transpose { src: Buf, dst: Buf },
}

/// A transfer that was pushed and may be running.
pub ghost struct Xfer {
    pub read: bool,
    pub buf: Buf,
}

/// Where a script stands.
pub ghost struct Flow {
    /// Transfers since the last drain.
    pub queue: Seq<Xfer>,
    /// Scratch blocks that hold data of this utterance.
    pub known: Set<int>,
}

/// Most transfers between two drains.
pub const IOQ_MAX: usize = 8;

/// Where a list of steps goes on.
#[derive(Clone, Copy, PartialEq, Eq, Structural, Debug)]
pub enum Go {
    /// With this step.
    On(usize),
    /// It is over with this code.
    Over(i32),
}

/// What follows step `at` of `n`, which gave `rc`.
pub open spec fn follow_of(n: int, at: int, rc: i32) -> Go {
    if rc != 0 {
        Go::Over(rc)
    } else if at + 1 < n {
        Go::On((at + 1) as usize)
    } else {
        Go::Over(0)
    }
}

/// Steps follow one another as long as they go well; the first that fails
/// ends them with its code.
pub fn follow(n: usize, at: usize, rc: i32) -> (g: Go)
    requires
        at < n,
    ensures
        g == follow_of(n as int, at as int, rc),
{
    if rc != 0 {
        return Go::Over(rc);
    }
    if at + 1 < n {
        Go::On(at + 1)
    } else {
        Go::Over(0)
    }
}

/// Where a list of steps stands when step `at` has been reached and the
/// steps give these codes.
pub open spec fn played(rcs: Seq<i32>, at: int) -> (int, i32)
    decreases rcs.len() - at,
{
    if at < 0 || at >= rcs.len() {
        (at, 0)
    } else {
        match follow_of(rcs.len() as int, at, rcs[at]) {
            Go::Over(rc) => (at + 1, rc),
            Go::On(_) => played(rcs, at + 1),
        }
    }
}

/// A list of steps is carried out up to its first failure, whose code it
/// ends with, or to its end, with zero.
pub proof fn law_the_first_failure_ends_a_script(rcs: Seq<i32>, at: int)
    requires
        0 <= at < rcs.len() <= usize::MAX,
    ensures
        ({
            let (done, rc) = played(rcs, at);
            &&& at < done <= rcs.len()
            &&& rc == rcs[done - 1]
            &&& forall|i: int| at <= i < done - 1 ==> #[trigger] rcs[i] == 0
            &&& rc == 0 ==> done == rcs.len()
        }),
    decreases rcs.len() - at,
{
    if rcs[at] == 0 && at + 1 < rcs.len() {
        law_the_first_failure_ends_a_script(rcs, at + 1);
    }
}

/// The blocks from `lo` up to `hi` hold data.
pub open spec fn covers(known: Set<int>, lo: int, hi: int) -> bool {
    forall|b: int| lo <= b < hi ==> #[trigger] known.contains(b)
}

/// `known` and the blocks from `lo` up to `hi`.
pub open spec fn extend(known: Set<int>, lo: int, hi: int) -> Set<int> {
    Set::new(|b: int| known.contains(b) || lo <= b < hi)
}

/// A buffer that the CPU or the NPU may read: no queued read fills it.
pub open spec fn readable(b: Buf, queue: Seq<Xfer>) -> bool {
    &&& b.inside()
    &&& forall|i: int| 0 <= i < queue.len() && (#[trigger] queue[i]).read ==> b.apart(queue[i].buf)
}

/// A buffer that may be written: no queued transfer uses it.
pub open spec fn writable(b: Buf, queue: Seq<Xfer>) -> bool {
    &&& b.inside()
    &&& forall|i: int| 0 <= i < queue.len() ==> b.apart((#[trigger] queue[i]).buf)
}

/// The slot as far as blobs reach.
pub open spec fn blob_room() -> Buf {
    slot_buf(0, SL_EXPTAB as int)
}

/// The buffers of a block transfer and its place in the scratch area fit.
pub open spec fn fits(at: u32, b: Buf) -> bool {
    &&& b.inside()
    &&& b.is_blocks()
    &&& at + b.len / 512 <= S_END
}

/// What a step needs.
pub open spec fn allowed(s: Step, f: Flow) -> bool {
    let q = f.queue;
    match s {
        Step::Crumb(_) => true,
        Step::Forget => true,
        Step::Asset { what, dst } => q.len() == 0 && dst.inside(),
        Step::Image { what, block, dst } => q.len() == 0 && dst.inside() && dst.is_blocks(),
        Step::Load(_) => q.len() == 0,
        Step::Run { blob, input, output, pumped } => {
            &&& readable(input, q)
            &&& readable(blob_room(), q)
            &&& writable(output, q)
            &&& writable(il_buf(0, INTERLAYER_BYTES as int), q)
            &&& input.apart(output)
            &&& pumped || q.len() == 0
        },
        Step::Read { at, dst } => {
            &&& q.len() == 0
            &&& fits(at, dst)
            &&& covers(f.known, at as int, at + dst.len / 512)
        },
        Step::Write { at, src } => q.len() == 0 && fits(at, src),
        Step::Push { read, at, buf } => {
            &&& q.len() < IOQ_MAX
            &&& fits(at, buf)
            &&& read ==> writable(buf, q) && covers(f.known, at as int, at + buf.len / 512)
            &&& !read ==> readable(buf, q)
        },
        Step::Pump => true,
        Step::Drain => true,
        Step::Fill { dst, .. } => writable(dst, q),
        Step::Columns { src, dst, .. } => readable(src, q) && writable(dst, q) && src.apart(dst),
        Step::Lut { table, buf } => readable(table, q) && writable(buf, q),
        Step::Norm { src, gb, dst, .. } => {
            readable(src, q) && readable(gb, q) && writable(dst, q) && src.apart(dst) && gb.apart(
                dst,
            )
        },
        Step::AddPos { a, b, dst, .. } => {
            readable(a, q) && readable(b, q) && writable(dst, q) && a.apart(dst) && b.apart(dst)
        },
        Step::AddTo { acc, b, .. } => readable(b, q) && writable(acc, q) && acc.apart(b),
        Step::Sum4 { acc, parts, .. } => readable(parts, q) && writable(acc, q) && acc.apart(parts),
        Step::ExpTable { dst, .. } => writable(dst, q),
        Step::Keys { stage, dst, .. } => readable(stage, q) && writable(dst, q) && stage.apart(dst),
        Step::Values { stage, dst, .. } => readable(stage, q) && writable(dst, q) && stage.apart(
            dst,
        ),
        Step::Copy { src, dst } => {
            readable(src, q) && writable(dst, q) && src.apart(dst) && src.len == dst.len
        },
        Step::Attend { query, kv, table, work, ctx, .. } => {
            &&& readable(query, q)
            &&& readable(kv, q)
            &&& readable(table, q)
            &&& writable(work, q)
            &&& writable(ctx, q)
            &&& ctx.apart(query)
            &&& ctx.apart(kv)
            &&& ctx.apart(table)
            &&& ctx.apart(work)
        },
        Step::Requant { buf, .. } => writable(buf, q),
        Step::Transpose { src, dst } => {
            readable(src, q) && writable(dst, q) && src.apart(dst) && src.len == dst.len
        },
    }
}

/// Where a script stands after a step.
pub open spec fn after(s: Step, f: Flow) -> Flow {
    match s {
        Step::Write { at, src } => Flow {
            known: extend(f.known, at as int, at + src.len / 512),
            ..f
        },
        Step::Push { read, at, buf } => Flow {
            queue: f.queue.push(Xfer { read, buf }),
            known: if read {
                f.known
            } else {
                extend(f.known, at as int, at + buf.len / 512)
            },
        },
        Step::Drain => Flow { queue: Seq::empty(), ..f },
        _ => f,
    }
}

/// Where a script stands at its end, if every step had what it needed.
pub open spec fn flow_of(steps: Seq<Step>, start: Flow) -> Option<Flow>
    decreases steps.len(),
{
    if steps.len() == 0 {
        Some(start)
    } else {
        match flow_of(steps.drop_last(), start) {
            None => None,
            Some(f) => if allowed(steps.last(), f) {
                Some(after(steps.last(), f))
            } else {
                None
            },
        }
    }
}

/// Nothing queued, and these blocks hold data.
pub open spec fn flow_from(known: Set<int>) -> Flow {
    Flow { queue: Seq::empty(), known }
}

/// The script keeps the discipline from a state in which `known` holds
/// data, ends with nothing queued, and leaves data in the blocks from `lo`
/// up to `hi`.
pub open spec fn runs_clean(steps: Seq<Step>, known: Set<int>, lo: int, hi: int) -> bool {
    match flow_of(steps, flow_from(known)) {
        None => false,
        Some(f) => f.queue.len() == 0 && covers(f.known, lo, hi),
    }
}

/// Every prefix of a clean script is clean up to there: each step had what
/// it needed when it came.
pub proof fn law_every_step_was_allowed(steps: Seq<Step>, start: Flow, i: int)
    requires
        flow_of(steps, start) is Some,
        0 <= i < steps.len(),
    ensures
        flow_of(steps.take(i), start) is Some,
        allowed(steps[i], flow_of(steps.take(i), start)->0),
    decreases steps.len() - i,
{
    if i == steps.len() - 1 {
        assert(steps.take(i) =~= steps.drop_last());
    } else {
        law_every_step_was_allowed(steps.drop_last(), start, i);
        assert(steps.drop_last().take(i) =~= steps.take(i));
    }
}

/// Scripts one after the other.
pub proof fn law_scripts_follow_one_another(a: Seq<Step>, b: Seq<Step>, start: Flow)
    requires
        flow_of(a, start) is Some,
    ensures
        flow_of(a + b, start) == flow_of(b, flow_of(a, start)->0),
    decreases b.len(),
{
    if b.len() == 0 {
        assert(a + b =~= a);
    } else {
        law_scripts_follow_one_another(a, b.drop_last(), start);
        assert((a + b).drop_last() =~= a + b.drop_last());
        assert((a + b).last() == b.last());
    }
}

/// A script that is clean where `few` hold data is clean where more do.
pub proof fn law_more_data_does_no_harm(steps: Seq<Step>, few: Flow, more: Flow)
    requires
        few.queue == more.queue,
        forall|b: int| few.known.contains(b) ==> #[trigger] more.known.contains(b),
        flow_of(steps, few) is Some,
    ensures
        flow_of(steps, more) is Some,
        flow_of(steps, more)->0.queue == flow_of(steps, few)->0.queue,
        forall|b: int|
            flow_of(steps, few)->0.known.contains(b) ==> #[trigger] flow_of(
                steps,
                more,
            )->0.known.contains(b),
    decreases steps.len(),
{
    if steps.len() > 0 {
        law_more_data_does_no_harm(steps.drop_last(), few, more);
    }
}

/// A script under construction, and where it stands.
pub struct Script {
    pub steps: Vec<Step>,
    pub start: Ghost<Flow>,
    pub flow: Ghost<Flow>,
}

impl Script {
    /// The steps so far keep the discipline.
    pub open spec fn wf(self) -> bool {
        flow_of(self.steps@, self.start@) == Some(self.flow@)
    }

    /// Nothing is queued.
    pub open spec fn idle(self) -> bool {
        self.flow@.queue.len() == 0
    }

    /// `self` is `before` with some steps added, and no data lost.
    pub open spec fn extends(self, before: Script, more: Seq<Step>) -> bool {
        &&& self.wf()
        &&& self.start == before.start
        &&& self.steps@ == before.steps@ + more
        &&& forall|b: int|
            #![trigger self.flow@.known.contains(b)]
            before.flow@.known.contains(b) ==> self.flow@.known.contains(b)
    }

    /// An empty script, from a state in which `known` holds data.
    pub fn new(known: Ghost<Set<int>>) -> (s: Script)
        ensures
            s.wf(),
            s.steps@.len() == 0,
            s.start@ == flow_from(known@),
            s.flow@ == s.start@,
    {
        Script {
            steps: Vec::new(),
            start: Ghost(flow_from(known@)),
            flow: Ghost(flow_from(known@)),
        }
    }

    /// Adds a step.
    pub fn emit(&mut self, s: Step)
        requires
            old(self).wf(),
            allowed(s, old(self).flow@),
        ensures
            final(self).wf(),
            final(self).start == old(self).start,
            final(self).steps@ == old(self).steps@.push(s),
            final(self).flow@ == after(s, old(self).flow@),
    {
        self.steps.push(s);
        self.flow = Ghost(after(s, self.flow@));
        assert(self.steps@.drop_last() =~= old(self).steps@);
    }
}

} // verus!
