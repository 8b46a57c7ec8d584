//! The host that drives a board over a debug probe: where the firmware's
//! symbols are, how memory compares with a file, and how a tape of
//! operations is played.

use crate::bytes::{get16, le16};
use crate::layout::SLOT_BASE;
use object::read::Error as ObjectError;
use object::{Object, ObjectSymbol};
use vstd::prelude::*;

verus! {

// --- symbols ----------------------------------------------------------------------------

/// The error of the `object` crate.
#[verifier::external_type_specification]
#[verifier::external_body]
pub struct ExObjectError(ObjectError);

/// `object::File::parse` takes the bytes for an object file.
pub uninterp spec fn is_object(elf: Seq<u8>) -> bool;

/// The address of the symbol that `Object::symbol_by_name` finds in the
/// file.
pub uninterp spec fn symbol_in(elf: Seq<u8>, name: Seq<char>) -> Option<u64>;

/// `object::File::parse`, then `Object::symbol_by_name` and
/// `ObjectSymbol::address`: both depend on the bytes and the name alone.
/// Which bytes are an object file, and which address a symbol has, is left
/// to the crate.
#[verifier::external_body]
fn symbol_address(elf: &[u8], name: &str) -> (r: Result<Option<u64>, ObjectError>)
    ensures
        r is Ok <==> is_object(elf@),
        r matches Ok(a) ==> a == symbol_in(elf@, name@),
{
    let file = object::File::parse(elf)?;
    match file.symbol_by_name(name) {
        Some(s) => Ok(Some(s.address())),
        None => Ok(None),
    }
}

/// Why a firmware file cannot be driven.
#[derive(Clone, Copy, PartialEq, Eq, Structural, Debug)]
pub enum ElfError {
    NotAnObject,
    NoMailbox,
}

/// What the host has to know of a firmware: where its mailbox is, and its
/// log, if it has one.
#[derive(Clone, Copy, PartialEq, Eq, Structural, Debug)]
pub struct Symbols {
    pub mailbox: u64,
    pub rtt: Option<u64>,
}

/// A firmware without a mailbox is none.
pub fn symbols_of(mailbox: Option<u64>, rtt: Option<u64>) -> (r: Result<Symbols, ElfError>)
    ensures
        r == (match mailbox {
            Some(m) => Ok::<Symbols, ElfError>(Symbols { mailbox: m, rtt }),
            None => Err(ElfError::NoMailbox),
        }),
{
    match mailbox {
        Some(m) => Ok(Symbols { mailbox: m, rtt }),
        None => Err(ElfError::NoMailbox),
    }
}

/// The symbols of a firmware file.
pub fn symbols(elf: &[u8]) -> (r: Result<Symbols, ElfError>)
    ensures
        r == (if !is_object(elf@) {
            Err::<Symbols, ElfError>(ElfError::NotAnObject)
        } else {
            match symbol_in(elf@, "MAILBOX"@) {
                Some(m) => Ok(
                    Symbols { mailbox: m, rtt: symbol_in(elf@, "_SEGGER_RTT"@) },
                ),
                None => Err(ElfError::NoMailbox),
            }
        }),
{
    match symbol_address(elf, "MAILBOX") {
        Err(_) => Err(ElfError::NotAnObject),
        Ok(mailbox) => match symbol_address(elf, "_SEGGER_RTT") {
            Err(_) => Err(ElfError::NotAnObject),
            Ok(rtt) => symbols_of(mailbox, rtt),
        },
    }
}

// --- comparing --------------------------------------------------------------------------

/// The signed reading of a byte.
pub open spec fn signed8(b: u8) -> int {
    if b >= 128 {
        b - 256
    } else {
        b as int
    }
}

/// Element `i` of a buffer: 16 bits wide if the width says so, else a byte.
pub open spec fn elem(b: Seq<u8>, width: int, i: int) -> int {
    if width == 2 {
        if le16(b, 2 * i) >= 0x8000 {
            le16(b, 2 * i) - 0x1_0000
        } else {
            le16(b, 2 * i)
        }
    } else {
        signed8(b[i])
    }
}

/// How far two buffers are apart at element `i`.
pub open spec fn apart(a: Seq<u8>, b: Seq<u8>, width: int, i: int) -> int {
    let d = elem(a, width, i) - elem(b, width, i);
    if d < 0 {
        -d
    } else {
        d
    }
}

/// Elements among the first `n` that are further apart than `tol`.
pub open spec fn over(a: Seq<u8>, b: Seq<u8>, width: int, tol: int, n: int) -> int
    decreases n,
{
    if n <= 0 {
        0
    } else {
        over(a, b, width, tol, n - 1) + (if apart(a, b, width, n - 1) > tol {
            1int
        } else {
            0
        })
    }
}

/// The largest distance among the first `n` elements.
pub open spec fn furthest(a: Seq<u8>, b: Seq<u8>, width: int, n: int) -> int
    decreases n,
{
    if n <= 0 {
        0
    } else {
        let m = furthest(a, b, width, n - 1);
        if apart(a, b, width, n - 1) > m {
            apart(a, b, width, n - 1)
        } else {
            m
        }
    }
}

/// The outcome of a comparison.
#[derive(Clone, Copy, PartialEq, Eq, Structural, Debug)]
pub struct Compared {
    pub diffs: usize,
    pub max_err: i32,
}

fn elem_of(b: &[u8], width: u32, i: usize) -> (v: i32)
    requires
        width >= 1,
        i < b@.len() / (width as nat),
    ensures
        v == elem(b@, width as int, i as int),
        -0x8000 <= v <= 0x7FFF,
{
    let total: usize = b.len();
    proof {
        let w = width as int;
        let q = total as int / w;
        assert(i < q);
        assert(q * w <= total) by (nonlinear_arith)
            requires
                q == total as int / w,
                w >= 1,
        ;
        assert((i + 1) * w <= q * w) by (nonlinear_arith)
            requires
                i + 1 <= q,
                w >= 1,
        ;
        assert((i + 1) * 1 <= (i + 1) * w) by (nonlinear_arith)
            requires
                w >= 1,
                i >= 0,
        ;
    }
    if width == 2 {
        let w: u16 = get16(b, 2 * i);
        if w >= 0x8000 {
            w as i32 - 0x1_0000
        } else {
            w as i32
        }
    } else {
        let x: u8 = b[i];
        if x >= 128 {
            x as i32 - 256
        } else {
            x as i32
        }
    }
}

/// Compares two buffers element by element: how many are further apart than
/// `tol`, and how far the furthest is.
pub fn compare(got: &[u8], expect: &[u8], width: u32, tol: i32) -> (r: Compared)
    requires
        got@.len() == expect@.len(),
        width >= 1,
    ensures
        r.diffs == over(
            got@,
            expect@,
            width as int,
            tol as int,
            (expect@.len() / (width as nat)) as int,
        ),
        r.max_err == furthest(
            got@,
            expect@,
            width as int,
            (expect@.len() / (width as nat)) as int,
        ),
{
    let n: usize = expect.len() / width as usize;
    let mut diffs: usize = 0;
    let mut max_err: i32 = 0;
    let mut i: usize = 0;
    while i < n
        invariant
            i <= n,
            width >= 1,
            got@.len() == expect@.len(),
            n == expect@.len() / (width as nat),
            diffs <= i,
            diffs == over(got@, expect@, width as int, tol as int, i as int),
            max_err == furthest(got@, expect@, width as int, i as int),
            0 <= max_err <= 0xFFFF,
        decreases n - i,
    {
        let a: i32 = elem_of(got, width, i);
        let b: i32 = elem_of(expect, width, i);
        let d: i32 = if a < b {
            b - a
        } else {
            a - b
        };
        if d > tol {
            diffs = diffs + 1;
        }
        if d > max_err {
            max_err = d;
        }
        i = i + 1;
    }
    Compared { diffs, max_err }
}

/// A buffer agrees with itself, whatever the tolerance.
pub proof fn law_a_copy_passes(a: Seq<u8>, width: int, tol: int, n: int)
    requires
        tol >= 0,
    ensures
        over(a, a, width, tol, n) == 0,
        furthest(a, a, width, n) == 0,
    decreases n,
{
    if n > 0 {
        law_a_copy_passes(a, width, tol, n - 1);
    }
}

/// The checks of a tape so far.
#[derive(Clone, Copy, PartialEq, Eq, Structural, Debug)]
pub struct Tally {
    pub checks: u32,
    pub failed: u32,
}

impl Tally {
    pub fn new() -> (t: Tally)
        ensures
            t.checks == 0,
            t.failed == 0,
    {
        Tally { checks: 0, failed: 0 }
    }

    /// Takes a comparison in: it passes if nothing is too far apart.
    pub fn check(&mut self, c: Compared) -> (pass: bool)
        requires
            old(self).failed <= old(self).checks < u32::MAX,
        ensures
            pass == (c.diffs == 0),
            final(self).checks == old(self).checks + 1,
            final(self).failed == old(self).failed + (if pass {
                0int
            } else {
                1
            }),
            final(self).failed <= final(self).checks,
    {
        self.checks = self.checks + 1;
        if c.diffs == 0 {
            return true;
        }
        self.failed = self.failed + 1;
        false
    }
}

// --- the slot ---------------------------------------------------------------------------

/// Which blob the host has put into the slot, by name; nothing at first.
pub struct InSlot {
    pub name: String,
}

impl InSlot {
    pub fn new() -> (s: InSlot)
        ensures
            s.name@ == Seq::<char>::empty(),
    {
        InSlot { name: String::new() }
    }

    /// Whether the blob has to be brought in.
    pub fn lacks(&self, name: &String) -> (b: bool)
        ensures
            b == (self.name@ != name@),
    {
        !(self.name == *name)
    }

    pub fn took(&mut self, name: &String)
        ensures
            final(self).name@ == name@,
    {
        self.name = name.clone();
    }
}

/// The arguments of the card read that brings a blob of `bytes` bytes at
/// `lba` into the slot: whole blocks.
pub fn card_args(lba: u32, bytes: u32) -> (a: [u32; 3])
    ensures
        a@ == seq![lba, SLOT_BASE as u32, ((bytes + 511) / 512) as u32],
{
    let blocks: u32 = bytes / 512 + (if bytes % 512 == 0 {
        0
    } else {
        1
    });
    let a: [u32; 3] = [lba, SLOT_BASE as u32, blocks];
    assert(a@ =~= seq![lba, SLOT_BASE as u32, ((bytes + 511) / 512) as u32]);
    a
}

// --- tapes ------------------------------------------------------------------------------

/// An operation of a tape.
pub enum Step {
    /// A blob into the slot, unless it is there.
    Blob { file: String },
    /// A file to an address.
    Write { file: String, addr: u64 },
    /// A command; a nonzero status ends the tape.
    Cmd { code: u32, args: Vec<u32> },
    /// Memory against a file, in elements of `width` bytes.
    Check { file: String, addr: u64, label: String, tol: i32, width: u32 },
    /// Memory to a file.
    Read { file: String, addr: u64, len: u32 },
}

/// What an operation asks for.
#[derive(Clone, Copy, PartialEq, Eq, Structural, Debug)]
pub enum Todo {
    Nothing,
    /// Write the file's bytes there.
    Put(u64),
    /// Call the mailbox.
    Call,
    /// Read as many bytes as the file has, and compare.
    Compare(u64),
    /// Read so many bytes, and write the file.
    Dump(u64, u32),
}

/// How an operation came out.
#[derive(Clone, Copy, PartialEq, Eq, Structural, Debug)]
pub enum Outcome {
    Nothing,
    /// So many bytes were written.
    Put(usize),
    /// The status of the command.
    Status(i32),
    Compared(Compared),
}

/// How far a tape has come: what is in the slot, bytes written, and the
/// checks.
pub struct Played {
    pub in_slot: Seq<char>,
    pub streamed: int,
    pub checks: int,
    pub failed: int,
}

pub open spec fn todo_of(in_slot: Seq<char>, s: Step) -> Todo {
    match s {
        Step::Blob { file } => if file@ == in_slot {
            Todo::Nothing
        } else {
            Todo::Put(SLOT_BASE as u64)
        },
        Step::Write { addr, .. } => Todo::Put(addr),
        Step::Cmd { .. } => Todo::Call,
        Step::Check { addr, .. } => Todo::Compare(addr),
        Step::Read { addr, len, .. } => Todo::Dump(addr, len),
    }
}

/// What the slot holds after an operation.
pub open spec fn slot_after(in_slot: Seq<char>, s: Step) -> Seq<char> {
    match s {
        Step::Blob { file } => file@,
        _ => in_slot,
    }
}

/// The state after an operation that came out so.
pub open spec fn played(p: Played, s: Step, o: Outcome) -> Played {
    Played {
        in_slot: slot_after(p.in_slot, s),
        streamed: p.streamed + (match o {
            Outcome::Put(n) => n as int,
            _ => 0,
        }),
        checks: p.checks + (if o is Compared {
            1int
        } else {
            0
        }),
        failed: p.failed + (if failing(o) {
            1int
        } else {
            0
        }),
    }
}

/// A comparison with something too far apart.
pub open spec fn failing(o: Outcome) -> bool {
    o matches Outcome::Compared(c) && c.diffs != 0
}

/// A command that was refused: the tape ends.
pub open spec fn refused(o: Outcome) -> bool {
    o matches Outcome::Status(rc) && rc != 0
}

/// The state after the first `n` operations.
pub open spec fn after_steps(p: Played, steps: Seq<Step>, outcomes: Seq<Outcome>, n: int) -> Played
    decreases n,
{
    if n <= 0 {
        p
    } else {
        played(after_steps(p, steps, outcomes, n - 1), steps[n - 1], outcomes[n - 1])
    }
}

/// Plays a tape.
pub struct Player {
    pub slot: InSlot,
    pub streamed: usize,
    pub tally: Tally,
}

impl Player {
    pub open spec fn view(&self) -> Played {
        Played {
            in_slot: self.slot.name@,
            streamed: self.streamed as int,
            checks: self.tally.checks as int,
            failed: self.tally.failed as int,
        }
    }

    pub open spec fn wf(&self) -> bool {
        self.tally.failed <= self.tally.checks
    }

    pub fn new() -> (p: Player)
        ensures
            p.wf(),
            p@ == (Played { in_slot: Seq::empty(), streamed: 0, checks: 0, failed: 0 }),
    {
        Player { slot: InSlot::new(), streamed: 0, tally: Tally::new() }
    }

    /// What the next operation asks for.
    pub fn todo(&self, s: &Step) -> (t: Todo)
        ensures
            t == todo_of(self@.in_slot, *s),
    {
        match s {
            Step::Blob { file } => {
                if self.slot.lacks(file) {
                    Todo::Put(SLOT_BASE as u64)
                } else {
                    Todo::Nothing
                }
            },
            Step::Write { addr, .. } => Todo::Put(*addr),
            Step::Cmd { .. } => Todo::Call,
            Step::Check { addr, .. } => Todo::Compare(*addr),
            Step::Read { addr, len, .. } => Todo::Dump(*addr, *len),
        }
    }

    /// Takes the outcome of an operation in; says whether the tape goes on.
    pub fn done(&mut self, s: &Step, o: Outcome) -> (goes_on: bool)
        requires
            old(self).wf(),
            old(self).tally.checks < u32::MAX,
            o matches Outcome::Put(n) ==> old(self).streamed + n <= usize::MAX,
        ensures
            final(self).wf(),
            final(self)@ == played(old(self)@, *s, o),
            goes_on == !refused(o),
    {
        match s {
            Step::Blob { file } => {
                self.slot.took(file);
            },
            _ => {},
        }
        match o {
            Outcome::Put(n) => {
                self.streamed = self.streamed + n;
                true
            },
            Outcome::Compared(c) => {
                self.tally.check(c);
                true
            },
            Outcome::Status(rc) => rc == 0,
            Outcome::Nothing => true,
        }
    }

    /// Whether every check has passed.
    pub fn passed(&self) -> (b: bool)
        ensures
            b == (self@.failed == 0),
    {
        self.tally.failed == 0
    }
}

/// A blob that is in the slot is not streamed again: whatever operations
/// follow, as long as none of them brings another blob in.
pub proof fn law_a_blob_is_streamed_once(
    p: Played,
    blob: Step,
    o: Outcome,
    steps: Seq<Step>,
    outcomes: Seq<Outcome>,
    n: int,
)
    requires
        blob is Blob,
        0 <= n <= steps.len(),
        forall|i: int|
            0 <= i < n ==> ((#[trigger] steps[i]) matches Step::Blob { file } ==> file@
                == blob->Blob_file@),
    ensures
        todo_of(after_steps(played(p, blob, o), steps, outcomes, n).in_slot, blob) is Nothing,
    decreases n,
{
    if n > 0 {
        law_a_blob_is_streamed_once(p, blob, o, steps, outcomes, n - 1);
        assert(steps[n - 1] matches Step::Blob { file } ==> file@ == blob->Blob_file@);
    }
}

/// A tape passes if and only if every one of its comparisons does.
pub proof fn law_a_tape_passes_with_its_checks(
    p: Played,
    steps: Seq<Step>,
    outcomes: Seq<Outcome>,
    n: int,
)
    requires
        p.failed == 0,
        0 <= n,
    ensures
        after_steps(p, steps, outcomes, n).failed >= 0,
        after_steps(p, steps, outcomes, n).failed == 0 <==> forall|i: int|
            0 <= i < n ==> !failing(#[trigger] outcomes[i]),
    decreases n,
{
    if n > 0 {
        law_a_tape_passes_with_its_checks(p, steps, outcomes, n - 1);
        if failing(outcomes[n - 1]) {
            assert(after_steps(p, steps, outcomes, n).failed > 0);
        } else if forall|i: int| 0 <= i < n - 1 ==> !failing(#[trigger] outcomes[i]) {
            assert forall|i: int| 0 <= i < n implies !failing(#[trigger] outcomes[i]) by {}
        }
    }
}

/// Elements are little-endian and signed: two bytes, or one.
pub proof fn law_elements_are_signed(b: Seq<u8>, i: int)
    requires
        0 <= i,
        2 * i + 2 <= b.len(),
    ensures
        -32768 <= elem(b, 2, i) <= 32767,
        (elem(b, 2, i) - b[2 * i] - 256 * b[2 * i + 1]) % 65536 == 0,
        -128 <= elem(b, 1, i) <= 127,
        (elem(b, 1, i) - b[i]) % 256 == 0,
{
}

/// A comparison finds the largest difference, and counts those over the
/// tolerance: none, if and only if no element is.
pub proof fn law_a_comparison_finds_the_largest_difference(
    a: Seq<u8>,
    b: Seq<u8>,
    width: int,
    tol: int,
    n: int,
)
    requires
        0 <= n,
    ensures
        forall|i: int|
            0 <= i < n ==> #[trigger] apart(a, b, width, i) <= furthest(a, b, width, n),
        furthest(a, b, width, n) == 0 || exists|i: int|
            0 <= i < n && #[trigger] apart(a, b, width, i) == furthest(a, b, width, n),
        0 <= over(a, b, width, tol, n) <= n,
        over(a, b, width, tol, n) == 0 <==> forall|i: int|
            0 <= i < n ==> #[trigger] apart(a, b, width, i) <= tol,
    decreases n,
{
    if n > 0 {
        law_a_comparison_finds_the_largest_difference(a, b, width, tol, n - 1);
        if over(a, b, width, tol, n) == 0 {
            assert(apart(a, b, width, n - 1) <= tol);
        }
        if furthest(a, b, width, n) != 0 {
            if apart(a, b, width, n - 1) > furthest(a, b, width, n - 1) {
                assert(apart(a, b, width, n - 1) == furthest(a, b, width, n));
            } else {
                let i = choose|i: int|
                    0 <= i < n - 1 && #[trigger] apart(a, b, width, i) == furthest(
                        a,
                        b,
                        width,
                        n - 1,
                    );
                assert(apart(a, b, width, i) == furthest(a, b, width, n));
            }
        }
    }
}

/// A difference does not depend on which side is which, and is zero between
/// equals only.
pub proof fn law_differences_are_symmetric(a: Seq<u8>, b: Seq<u8>, width: int, i: int)
    ensures
        apart(a, b, width, i) == apart(b, a, width, i),
        apart(a, b, width, i) >= 0,
        apart(a, b, width, i) == 0 <==> elem(a, width, i) == elem(b, width, i),
{
}

/// Only a command that answers with a code other than zero ends a tape.
pub proof fn law_only_a_zero_status_goes_on(o: Outcome)
    ensures
        match o {
            Outcome::Status(rc) => refused(o) <==> rc < 0 || rc > 0,
            _ => !refused(o),
        },
{
}

/// A comparison counts once, and once more among the failures if something
/// was too far apart; nothing else counts.
pub proof fn law_a_comparison_counts_once(p: Played, s: Step, o: Outcome)
    ensures
        p.checks <= played(p, s, o).checks <= p.checks + 1,
        p.failed <= played(p, s, o).failed <= p.failed + played(p, s, o).checks - p.checks,
        played(p, s, o).checks > p.checks <==> o is Compared,
        o matches Outcome::Compared(c) ==> (played(p, s, o).failed > p.failed <==> c.diffs > 0),
        o matches Outcome::Put(n) ==> played(p, s, o).streamed - p.streamed == n,
{
}

} // verus!
