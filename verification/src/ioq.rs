//! A short queue of block transfers that run one after another while the
//! CPU computes.
//!
//! `pump` is called between units of work: it retires a finished transfer
//! and names the next one to start. The first error stops the queue, and
//! every later call reports it.

use crate::layout::BLOCK;
use crate::script::IOQ_MAX;
use vstd::prelude::*;

verus! {

/// A transfer of `count` blocks between block `lba` on and a buffer.
#[derive(Clone, Copy, PartialEq, Eq, Structural, Debug)]
pub struct IoOp {
    pub read: bool,
    pub lba: u32,
    pub buf: u32,
    pub count: u32,
}

pub struct IoQueue {
    pub ops: [IoOp; IOQ_MAX],
    pub n: usize,
    pub next: usize,
    pub rc: i32,
}

/// What the queue asks for.
#[derive(Clone, Copy, PartialEq, Eq, Structural, Debug)]
pub enum Pump {
    /// Nothing to do now.
    Idle,
    /// The transfer under way is through: collect its result.
    Finish,
    /// Start this transfer.
    Start(IoOp),
    /// The queue has failed.
    Failed(i32),
}

/// A queue as its callers see it: what has not been started, and the first
/// error.
#[verifier::ext_equal]
pub struct Queue {
    pub waiting: Seq<IoOp>,
    pub rc: i32,
}

/// The next transfer, if there is one.
pub open spec fn advance_of(q: Queue) -> (Queue, Pump) {
    if q.waiting.len() > 0 {
        (Queue { waiting: q.waiting.drop_first(), ..q }, Pump::Start(q.waiting[0]))
    } else {
        (q, Pump::Idle)
    }
}

pub open spec fn pump_of(q: Queue, busy: bool, done: bool) -> (Queue, Pump) {
    if q.rc != 0 {
        (q, Pump::Failed(q.rc))
    } else if busy {
        (q, if done {
            Pump::Finish
        } else {
            Pump::Idle
        })
    } else {
        advance_of(q)
    }
}

pub open spec fn finished_of(q: Queue, rc: i32) -> (Queue, Pump) {
    if rc != 0 {
        (Queue { rc, ..q }, Pump::Failed(rc))
    } else {
        advance_of(q)
    }
}

pub open spec fn started_of(q: Queue, rc: i32) -> (Queue, Pump) {
    if rc != 0 {
        (Queue { rc, ..q }, Pump::Failed(rc))
    } else {
        (q, Pump::Idle)
    }
}

impl IoQueue {
    pub open spec fn wf(self) -> bool {
        self.next <= self.n <= IOQ_MAX
    }

    /// The transfers that have not been started.
    pub open spec fn waiting(self) -> Seq<IoOp> {
        self.ops@.subrange(self.next as int, self.n as int)
    }

    pub open spec fn view(&self) -> Queue {
        Queue { waiting: self.waiting(), rc: self.rc }
    }

    pub fn new() -> (q: IoQueue)
        ensures
            q.wf(),
            q@ == (Queue { waiting: Seq::<IoOp>::empty(), rc: 0 }),
            q.n == 0,
            q.next == 0,
    {
        let e = IoOp { read: true, lba: 0, buf: 0, count: 0 };
        let q = IoQueue { ops: [e; IOQ_MAX], n: 0, next: 0, rc: 0 };
        assert(q.waiting() =~= Seq::<IoOp>::empty());
        q
    }

    /// Queues a transfer between block `lba` on and the `len` bytes at
    /// `buf`.
    pub fn push(&mut self, read: bool, lba: u32, buf: u32, len: usize)
        requires
            old(self).wf(),
            old(self).n < IOQ_MAX,
            len % BLOCK == 0,
            len / BLOCK <= u32::MAX,
        ensures
            final(self).wf(),
            final(self).n == old(self).n + 1,
            final(self).next == old(self).next,
            final(self)@ == (Queue {
                waiting: old(self)@.waiting.push(
                    (IoOp { read, lba, buf, count: (len / BLOCK) as u32 }),
                ),
                ..old(self)@
            }),
    {
        let ghost before = *self;
        let i = self.n;
        self.ops[i] = IoOp { read, lba, buf, count: (len / BLOCK) as u32 };
        self.n = i + 1;
        assert(self.waiting() =~= before.waiting().push(
            IoOp { read, lba, buf, count: (len / BLOCK) as u32 },
        ));
    }

    /// Retires a completed transfer and starts the next one; never blocks.
    /// `busy` says whether a transfer is under way, `done` whether it is
    /// through.
    pub fn pump(&mut self, busy: bool, done: bool) -> (p: Pump)
        requires
            old(self).wf(),
        ensures
            final(self).wf(),
            final(self).n == old(self).n,
            final(self)@ == pump_of(old(self)@, busy, done).0,
            p == pump_of(old(self)@, busy, done).1,
    {
        if self.rc != 0 {
            return Pump::Failed(self.rc);
        }
        if busy {
            return if done {
                Pump::Finish
            } else {
                Pump::Idle
            };
        }
        self.advance()
    }

    /// The next transfer, if there is one.
    fn advance(&mut self) -> (p: Pump)
        requires
            old(self).wf(),
        ensures
            final(self).wf(),
            final(self).n == old(self).n,
            final(self)@ == advance_of(old(self)@).0,
            p == advance_of(old(self)@).1,
    {
        let ghost before = *self;
        if self.next < self.n {
            let op = self.ops[self.next];
            self.next = self.next + 1;
            assert(self.waiting() =~= before.waiting().drop_first());
            Pump::Start(op)
        } else {
            Pump::Idle
        }
    }

    /// The result of the transfer that `pump` asked to collect.
    pub fn finished(&mut self, rc: i32) -> (p: Pump)
        requires
            old(self).wf(),
        ensures
            final(self).wf(),
            final(self).n == old(self).n,
            final(self)@ == finished_of(old(self)@, rc).0,
            p == finished_of(old(self)@, rc).1,
    {
        if rc != 0 {
            return self.fail(rc);
        }
        self.advance()
    }

    /// The result of starting the transfer that was asked for.
    pub fn started(&mut self, rc: i32) -> (p: Pump)
        requires
            old(self).wf(),
        ensures
            final(self).wf(),
            final(self).n == old(self).n,
            final(self)@ == started_of(old(self)@, rc).0,
            p == started_of(old(self)@, rc).1,
    {
        if rc != 0 {
            return self.fail(rc);
        }
        Pump::Idle
    }

    /// Stops the queue.
    fn fail(&mut self, rc: i32) -> (p: Pump)
        requires
            old(self).wf(),
        ensures
            final(self).wf(),
            final(self).n == old(self).n,
            final(self)@ == (Queue { rc, ..old(self)@ }),
            p == Pump::Failed(rc),
    {
        self.rc = rc;
        Pump::Failed(rc)
    }

    /// Whether everything is through, or the error of a queue that has
    /// failed. A queue that is through has room for `IOQ_MAX` transfers
    /// again.
    pub fn drain(&mut self, busy: bool) -> (r: Result<bool, i32>)
        requires
            old(self).wf(),
        ensures
            final(self).wf(),
            final(self)@ == old(self)@,
            r == (if old(self)@.rc != 0 {
                Err::<bool, i32>(old(self)@.rc)
            } else {
                Ok(old(self)@.waiting.len() == 0 && !busy)
            }),
            r == Ok::<bool, i32>(true) ==> final(self).n == 0 && final(self).next == 0,
            r != Ok::<bool, i32>(true) ==> *final(self) == *old(self),
    {
        if self.rc != 0 {
            return Err(self.rc);
        }
        if self.next == self.n && !busy {
            let ghost before = self.waiting();
            self.n = 0;
            self.next = 0;
            assert(self.waiting() =~= before);
            return Ok(true);
        }
        Ok(false)
    }
}

// --- a queue and its storage ------------------------------------------------------------

/// What happens to a queue.
pub enum Turn {
    /// A transfer is pushed.
    Push(IoOp),
    /// The queue is pumped; the storage says whether the transfer under way
    /// is through, and would answer a finish and a start with these codes.
    Pump { done: bool, finish: i32, start: i32 },
}

/// A queue at work: the transfers pushed and started so far, how many of the
/// latter have finished well, and whether one is under way.
#[verifier::ext_equal]
pub struct Work {
    pub q: Queue,
    pub busy: bool,
    pub pushed: Seq<IoOp>,
    pub started: Seq<IoOp>,
    pub finished: int,
}

/// Nothing has been pushed, and the storage is idle.
pub open spec fn idle() -> Work {
    Work {
        q: Queue { waiting: Seq::empty(), rc: 0 },
        busy: false,
        pushed: Seq::empty(),
        started: Seq::empty(),
        finished: 0,
    }
}

/// The start that the queue asks for is made.
pub open spec fn made(w: Work, p: Pump, rc: i32) -> Work {
    match p {
        Pump::Start(op) => Work {
            q: started_of(w.q, rc).0,
            busy: rc == 0,
            started: w.started.push(op),
            ..w
        },
        _ => w,
    }
}

/// The state after a turn: what `pump` asks for is done, and its result goes
/// to `finished` or `started`, until the queue asks for nothing more.
pub open spec fn turned(w: Work, t: Turn) -> Work {
    match t {
        Turn::Push(op) => Work {
            q: Queue { waiting: w.q.waiting.push(op), ..w.q },
            pushed: w.pushed.push(op),
            ..w
        },
        Turn::Pump { done, finish, start } => {
            let (q, p) = pump_of(w.q, w.busy, done);
            match p {
                Pump::Finish => {
                    let (q2, p2) = finished_of(q, finish);
                    made(
                        Work {
                            q: q2,
                            busy: false,
                            finished: w.finished + (if finish == 0 {
                                1int
                            } else {
                                0
                            }),
                            ..w
                        },
                        p2,
                        start,
                    )
                },
                _ => made(Work { q, ..w }, p, start),
            }
        },
    }
}

/// The state after the first `n` turns.
pub open spec fn after_turns(turns: Seq<Turn>, n: int) -> Work
    decreases n,
{
    if n <= 0 {
        idle()
    } else {
        turned(after_turns(turns, n - 1), turns[n - 1])
    }
}

/// Whatever is pushed, and whenever the queue is pumped, the transfers are
/// started once each, in the order in which they were pushed: those that
/// have been started, followed by those that wait, are those that were
/// pushed. One is started only after all before it have finished well. A
/// queue without an error that drains has started and finished everything.
pub proof fn law_transfers_start_in_order(turns: Seq<Turn>, n: int)
    requires
        0 <= n <= turns.len(),
    ensures
        ({
            let w = after_turns(turns, n);
            &&& w.pushed == w.started + w.q.waiting
            &&& 0 <= w.finished <= w.started.len()
            &&& w.q.rc == 0 ==> w.started.len() == w.finished + (if w.busy {
                1int
            } else {
                0
            })
            &&& w.q.rc != 0 ==> !w.busy
            &&& w.q.rc == 0 && w.q.waiting.len() == 0 && !w.busy ==> w.started == w.pushed
                && w.finished == w.pushed.len()
        }),
        n > 0 ==> ({
            let v = after_turns(turns, n - 1);
            let w = after_turns(turns, n);
            &&& v.started.is_prefix_of(w.started)
            &&& w.started.len() <= v.started.len() + 1
            &&& w.started.len() > v.started.len() ==> w.finished == v.started.len()
        }),
    decreases n,
{
    if n > 0 {
        law_transfers_start_in_order(turns, n - 1);
        let v = after_turns(turns, n - 1);
        let w = after_turns(turns, n);
        assert(v.pushed == v.started + v.q.waiting);
        match turns[n - 1] {
            Turn::Push(op) => {
                assert(w.pushed =~= w.started + w.q.waiting);
            },
            Turn::Pump { done, finish, start } => {
                if w.started.len() > v.started.len() {
                    assert(w.pushed =~= w.started + w.q.waiting);
                }
            },
        }
        assert(w.q.waiting.len() == 0 ==> w.started + w.q.waiting =~= w.started);
    } else {
        assert(idle().pushed =~= idle().started + idle().q.waiting);
    }
}

/// The first error stops the queue: nothing more is started, every later
/// pump reports it, and so does a drain.
pub proof fn law_an_error_stays(w: Work, t: Turn)
    requires
        w.q.rc != 0,
    ensures
        turned(w, t).q.rc == w.q.rc,
        turned(w, t).started == w.started,
        turned(w, t).finished == w.finished,
        turned(w, t).busy == w.busy,
        forall|busy: bool, done: bool|
            #[trigger] pump_of(w.q, busy, done).1 == Pump::Failed(w.q.rc),
{
}

/// An error is the first code other than 0 that a finish or a start gave.
pub proof fn law_the_first_error_counts(w: Work, done: bool, finish: i32, start: i32)
    requires
        w.q.rc == 0,
    ensures
        ({
            let v = turned(w, Turn::Pump { done, finish, start });
            let ends = w.busy && done;
            let starts = (!w.busy || (done && finish == 0)) && w.q.waiting.len() > 0;
            v.q.rc == (if ends && finish != 0 {
                finish
            } else if starts {
                start
            } else {
                0
            })
        }),
{
}

} // verus!
