//! The decoder's blob pipeline: while a blob runs, the next one's packed
//! bytes are on their way.

use crate::image::{
    blocks_of, entry_blocks, found, law_lookup_finds_the_first, lookup_idx, Entry, E_NO_BLOB,
    E_SUM, INDEX_BYTES, MAX_ENTRIES,
};
use crate::layout::{BLOCK, LAND_BYTES};
use crate::loader::{sum_fits, LOAD_TRIES};
use vstd::prelude::*;

verus! {

/// A blob's entry and its place in the index.
#[derive(Clone, Copy, PartialEq, Eq, Structural, Debug)]
pub struct Place {
    pub entry: Entry,
    pub idx: usize,
}

pub struct Pipe {
    /// Whose packed bytes are complete in the landing zone.
    pub landed: Option<Place>,
    /// Whose read into the landing zone is under way.
    pub pending: Option<Place>,
}

/// A read to start: whole blocks of an entry into the landing zone.
#[derive(Clone, Copy, PartialEq, Eq, Structural, Debug)]
pub struct Fetch {
    pub place: Place,
    pub bytes: usize,
}

/// Only packed blobs fit the landing zone.
pub open spec fn is_packed(e: Entry) -> bool {
    e.len <= LAND_BYTES
}

/// What a prefetch of `name` has to start: nothing if the blob is not
/// packed or another read is pending.
pub open spec fn fetch_of(p: Pipe, idx: Seq<u8>, name: Seq<u8>) -> Result<Option<Fetch>, i32> {
    match found(idx, name) {
        None => Err(E_NO_BLOB),
        Some((e, i)) => if !is_packed(e) || p.pending is Some {
            Ok(None)
        } else {
            Ok(
                Some(
                    Fetch {
                        place: Place { entry: e, idx: i },
                        bytes: (blocks_of(e.len as int) * 512) as usize,
                    },
                ),
            )
        },
    }
}

/// The entry of an optional place starts at block `lba`.
pub open spec fn is_at(p: Option<Place>, lba: u32) -> bool {
    p is Some && p->0.entry.lba == lba
}

fn place_is(p: &Option<Place>, lba: u32) -> (b: bool)
    ensures
        b == is_at(*p, lba),
{
    match p {
        Some(x) => x.entry.lba == lba,
        None => false,
    }
}

impl Pipe {
    pub fn new() -> (p: Pipe)
        ensures
            p.landed is None,
            p.pending is None,
    {
        Pipe { landed: None, pending: None }
    }

    /// Whether an entry fits the landing zone.
    pub fn packed(e: Entry) -> (b: bool)
        ensures
            b == is_packed(e),
    {
        e.len as usize <= LAND_BYTES
    }

    /// What to start reading for `name`.
    pub fn prefetch(&self, idx: &[u8], name: &[u8]) -> (r: Result<Option<Fetch>, i32>)
        requires
            idx@.len() == INDEX_BYTES,
        ensures
            r == fetch_of(*self, idx@, name@),
            r matches Ok(Some(f)) ==> f.bytes <= LAND_BYTES && f.bytes % BLOCK == 0,
    {
        match lookup_idx(idx, name) {
            None => Err(E_NO_BLOB),
            Some((e, i)) => {
                if !Pipe::packed(e) || self.pending.is_some() {
                    return Ok(None);
                }
                let bytes: usize = entry_blocks(e) as usize * BLOCK;
                Ok(Some(Fetch { place: Place { entry: e, idx: i }, bytes }))
            },
        }
    }

    /// The read has started.
    pub fn begun(&mut self, f: Fetch)
        ensures
            final(self).pending == Some(f.place),
            final(self).landed == old(self).landed,
    {
        self.pending = Some(f.place);
    }

    /// The pending read, if there is one, is through with result `rc`.
    pub fn settle(&mut self, rc: i32) -> (r: Result<(), i32>)
        ensures
            final(self).pending is None,
            old(self).pending is None ==> r == Ok::<(), i32>(()) && final(self).landed == old(
                self,
            ).landed,
            old(self).pending is Some && rc == 0 ==> r == Ok::<(), i32>(()) && final(self).landed
                == old(self).pending,
            old(self).pending is Some && rc != 0 ==> r == Err::<(), i32>(rc) && final(self).landed
                == old(self).landed,
    {
        let p = self.pending;
        self.pending = None;
        if p.is_some() {
            if rc != 0 {
                return Err(rc);
            }
            self.landed = p;
        }
        Ok(())
    }
}

/// What running a blob asks for next.
#[derive(Clone, Copy, PartialEq, Eq, Structural, Debug)]
pub enum RunStep {
    /// Wait for the pending read.
    Settle,
    /// Not packed: load it whole and run it.
    Raw,
    /// Expand it behind its own read.
    Chase,
    /// Read it into the landing zone.
    Read { lba: u32, blocks: u32 },
    /// Sum the landed bytes.
    Sum,
    /// Expand the landed bytes.
    Expand,
    /// Check the expansion.
    Verify,
    /// Start on the next blob and infer.
    Infer,
    Fail(i32),
}

/// A packed blob on its way to the NPU.
#[derive(Clone, Copy, PartialEq, Eq, Structural, Debug)]
pub struct BlobRun {
    pub place: Place,
    pub expect: u32,
    /// Sums that did not match.
    pub tries: u32,
    /// The packed bytes' sum is the image's.
    pub good: bool,
}

pub open spec fn first_step(p: Pipe, e: Entry) -> RunStep {
    if is_at(p.pending, e.lba) {
        if is_packed(e) {
            RunStep::Chase
        } else {
            RunStep::Raw
        }
    } else if p.pending is Some {
        RunStep::Settle
    } else {
        settled_step(p, e)
    }
}

/// ... once nothing is pending.
pub open spec fn settled_step(p: Pipe, e: Entry) -> RunStep {
    if !is_packed(e) {
        RunStep::Raw
    } else if is_at(p.landed, e.lba) {
        RunStep::Sum
    } else {
        RunStep::Read { lba: e.lba, blocks: blocks_of(e.len as int) as u32 }
    }
}

impl BlobRun {
    pub open spec fn wf(self) -> bool {
        self.tries <= LOAD_TRIES
    }

    /// Starts on blob `name`.
    pub fn run(pipe: &mut Pipe, idx: &[u8], sums: &[u32], name: &[u8]) -> (r: (BlobRun, RunStep))
        requires
            idx@.len() == INDEX_BYTES,
            sums@.len() >= MAX_ENTRIES,
        ensures
            r.0.wf(),
            match found(idx@, name@) {
                None => r.1 == RunStep::Fail(E_NO_BLOB) && *final(pipe) == *old(pipe),
                Some((e, i)) => {
                    &&& r.0 == (BlobRun {
                        place: Place { entry: e, idx: i },
                        expect: sums@[i as int],
                        tries: 0,
                        good: false,
                    })
                    &&& r.1 == first_step(*old(pipe), e)
                    &&& r.1 is Chase ==> final(pipe).pending is None
                    &&& !(r.1 is Chase) ==> final(pipe).pending == old(pipe).pending
                    &&& final(pipe).landed == (if r.1 is Chase || r.1 is Raw {
                        None
                    } else {
                        old(pipe).landed
                    })
                },
            },
    {
        proof {
            law_lookup_finds_the_first(idx@, name@, 0);
        }
        match lookup_idx(idx, name) {
            None => {
                let place = Place { entry: Entry { lba: 0, len: 0 }, idx: 0 };
                (BlobRun { place, expect: 0, tries: 0, good: false }, RunStep::Fail(E_NO_BLOB))
            },
            Some((e, i)) => {
                let r = BlobRun {
                    place: Place { entry: e, idx: i },
                    expect: sums[i],
                    tries: 0,
                    good: false,
                };
                let step = if place_is(&pipe.pending, e.lba) {
                    if Pipe::packed(e) {
                        pipe.pending = None;
                        pipe.landed = None;
                        RunStep::Chase
                    } else {
                        pipe.landed = None;
                        RunStep::Raw
                    }
                } else if pipe.pending.is_some() {
                    RunStep::Settle
                } else {
                    r.proceed(pipe)
                };
                (r, step)
            },
        }
    }

    /// Nothing is pending any more.
    fn proceed(&self, pipe: &mut Pipe) -> (s: RunStep)
        ensures
            s == settled_step(*old(pipe), self.place.entry),
            final(pipe).pending == old(pipe).pending,
            final(pipe).landed == (if s is Raw {
                None
            } else {
                old(pipe).landed
            }),
    {
        let e = self.place.entry;
        if !Pipe::packed(e) {
            pipe.landed = None;
            RunStep::Raw
        } else if place_is(&pipe.landed, e.lba) {
            RunStep::Sum
        } else {
            RunStep::Read { lba: e.lba, blocks: entry_blocks(e) }
        }
    }

    /// The pending read is through with result `rc`.
    pub fn settled(&self, pipe: &mut Pipe, rc: i32) -> (s: RunStep)
        requires
            old(pipe).pending is Some,
        ensures
            final(pipe).pending is None,
            rc != 0 ==> s == RunStep::Fail(rc) && final(pipe).landed == old(pipe).landed,
            rc == 0 ==> s == settled_step(
                Pipe { landed: old(pipe).pending, pending: None },
                self.place.entry,
            ),
            rc == 0 && !(s is Raw) ==> final(pipe).landed == old(pipe).pending,
            rc == 0 && s is Raw ==> final(pipe).landed is None,
    {
        match pipe.settle(rc) {
            Err(e) => RunStep::Fail(e),
            Ok(_) => self.proceed(pipe),
        }
    }

    /// The chase is over with the sum of the packed bytes, or failed.
    pub fn chased(&mut self, pipe: &Pipe, result: Result<u32, i32>) -> (s: RunStep)
        requires
            old(self).wf(),
            pipe.landed is None,
        ensures
            final(self).wf(),
            final(self).place == old(self).place,
            final(self).expect == old(self).expect,
            final(self).tries == old(self).tries,
            match result {
                Err(rc) => s == RunStep::Fail(rc) && final(self).good == old(self).good,
                Ok(sum) => if sum_fits(old(self).expect, sum as int) {
                    s == RunStep::Verify && final(self).good
                } else {
                    s == (RunStep::Read {
                        lba: old(self).place.entry.lba,
                        blocks: blocks_of(old(self).place.entry.len as int) as u32,
                    }) && final(self).good == old(self).good
                },
            },
    {
        match result {
            Err(rc) => RunStep::Fail(rc),
            Ok(sum) => {
                if self.expect == 0 || sum == self.expect {
                    self.good = true;
                    RunStep::Verify
                } else {
                    let e = self.place.entry;
                    RunStep::Read { lba: e.lba, blocks: entry_blocks(e) }
                }
            },
        }
    }

    /// The read that was asked for is through with result `rc`.
    pub fn read_done(&self, pipe: &mut Pipe, rc: i32) -> (s: RunStep)
        ensures
            final(pipe).pending == old(pipe).pending,
            rc != 0 ==> s == RunStep::Fail(rc) && final(pipe).landed == old(pipe).landed,
            rc == 0 ==> s == RunStep::Sum && final(pipe).landed == Some(self.place),
    {
        if rc != 0 {
            return RunStep::Fail(rc);
        }
        pipe.landed = Some(self.place);
        RunStep::Sum
    }

    /// The sum of the landed bytes. A wrong one sends for them again, three
    /// times at most.
    pub fn summed(&mut self, pipe: &mut Pipe, sum: u32) -> (s: RunStep)
        requires
            old(self).wf(),
            old(self).tries < LOAD_TRIES,
        ensures
            final(self).wf(),
            final(self).place == old(self).place,
            final(self).expect == old(self).expect,
            final(pipe).pending == old(pipe).pending,
            sum_fits(old(self).expect, sum as int) ==> {
                &&& s == RunStep::Expand
                &&& final(self).good
                &&& final(self).tries == old(self).tries
                &&& final(pipe).landed == old(pipe).landed
            },
            !sum_fits(old(self).expect, sum as int) ==> {
                &&& final(self).good == old(self).good
                &&& final(self).tries == old(self).tries + 1
                &&& final(pipe).landed is None
                &&& s == (if old(self).tries + 1 < LOAD_TRIES {
                    RunStep::Read {
                        lba: old(self).place.entry.lba,
                        blocks: blocks_of(old(self).place.entry.len as int) as u32,
                    }
                } else {
                    RunStep::Fail(E_SUM)
                })
            },
    {
        if self.expect == 0 || sum == self.expect {
            self.good = true;
            return RunStep::Expand;
        }
        pipe.landed = None;
        self.tries = self.tries + 1;
        if self.tries < LOAD_TRIES {
            let e = self.place.entry;
            RunStep::Read { lba: e.lba, blocks: entry_blocks(e) }
        } else {
            RunStep::Fail(E_SUM)
        }
    }

    /// The expansion is through.
    pub fn expanded(&self, result: Result<(), i32>) -> (s: RunStep)
        ensures
            s == match result {
                Ok(_) => RunStep::Verify,
                Err(rc) => RunStep::Fail(rc),
            },
    {
        match result {
            Ok(_) => RunStep::Verify,
            Err(rc) => RunStep::Fail(rc),
        }
    }

    /// The check of the expansion is through. Only a blob whose packed sum
    /// matched comes here, so nothing else is ever inferred.
    pub fn verified(&self, pipe: &mut Pipe, result: Result<(), i32>) -> (s: RunStep)
        requires
            self.good,
        ensures
            final(pipe).pending == old(pipe).pending,
            match result {
                Ok(_) => s == RunStep::Infer && final(pipe).landed is None,
                Err(rc) => s == RunStep::Fail(rc) && final(pipe).landed == old(pipe).landed,
            },
    {
        match result {
            Ok(_) => {
                pipe.landed = None;
                RunStep::Infer
            },
            Err(rc) => RunStep::Fail(rc),
        }
    }
}

/// What has come is not fetched again: a blob that is on its way is taken as
/// it comes, one that has landed is summed, and any other is read whole.
pub proof fn law_what_has_come_is_not_read_again(p: Pipe, e: Entry)
    requires
        is_packed(e),
    ensures
        p.pending is Some && p.pending->0.entry.lba == e.lba ==> first_step(p, e)
            == RunStep::Chase,
        p.pending is None && p.landed is Some && p.landed->0.entry.lba == e.lba ==> first_step(
            p,
            e,
        ) == RunStep::Sum,
        p.pending is None && !(p.landed is Some && p.landed->0.entry.lba == e.lba) ==> (first_step(
            p,
            e,
        ) matches RunStep::Read { lba, blocks } && lba == e.lba && e.len <= 512 * blocks < e.len
            + 512),
        p.pending is Some && p.pending->0.entry.lba != e.lba ==> first_step(p, e)
            == RunStep::Settle,
{
}

/// A prefetch is of a packed blob that the index has, whole blocks of it, and
/// only when none is under way.
pub proof fn law_a_prefetch_is_of_whole_blocks(p: Pipe, idx: Seq<u8>, name: Seq<u8>)
    ensures
        match fetch_of(p, idx, name) {
            Err(_) => found(idx, name) is None,
            Ok(None) => found(idx, name) matches Some((e, _)) && (p.pending is Some || e.len
                > 131072),
            Ok(Some(f)) => {
                &&& p.pending is None
                &&& found(idx, name) == Some((f.place.entry, f.place.idx))
                &&& f.place.entry.len <= f.bytes < f.place.entry.len + 512
                &&& f.bytes % 512 == 0
            },
        },
{
}

} // verus!
