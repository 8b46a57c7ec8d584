//! Blobs on their way from the image into the slot: sums checked, packed
//! ones expanded behind the transfer that brings them.

use crate::bytes::{get32, le32};
use crate::dsp::{byte_sum, law_byte_sum_splits, sum_of_bytes};
use crate::image::{
    blocks_of, entry_blocks, found, law_lookup_finds_the_first, lookup_idx, Entry, E_NO_BLOB, E_SUM,
    E_TOKEN, INDEX_BYTES, MAX_ENTRIES,
};
use crate::layout::{CRUMB_OFF, DEC_OFF, IL_KEEP, LAND_BYTES, SLOT_BASE};
use vstd::prelude::*;
use vstd::slice::slice_subrange;

verus! {

/// Most reads of a blob whose sum does not match.
pub const LOAD_TRIES: u32 = 3;

/// A blob is good if its sum is the image's, or the image has none.
pub open spec fn sum_fits(expect: u32, sum: int) -> bool {
    expect == 0 || sum == expect
}

// --- whole blobs ----------------------------------------------------------------------

#[derive(Clone, Copy, PartialEq, Eq, Structural, Debug)]
pub enum LoadStep {
    /// The blob is in the slot.
    Ready,
    /// Read this many blocks from block `lba` on into the slot.
    Read { lba: u32, blocks: u32 },
    Fail(i32),
}

/// A blob being loaded.
#[derive(Clone, Copy, PartialEq, Eq, Structural, Debug)]
pub struct BlobLoad {
    pub entry: Entry,
    pub expect: u32,
    /// Reads that did not match.
    pub tries: u32,
}

pub open spec fn read_entry(e: Entry) -> LoadStep {
    LoadStep::Read { lba: e.lba, blocks: blocks_of(e.len as int) as u32 }
}

impl BlobLoad {
    /// Starts on a blob: nothing to do if it is the one in the slot.
    pub fn load(idx: &[u8], sums: &[u32], loaded: Entry, blob: &[u8]) -> (r: (BlobLoad, LoadStep))
        requires
            idx@.len() == INDEX_BYTES,
            sums@.len() >= MAX_ENTRIES,
        ensures
            match found(idx@, blob@) {
                None => r.1 == LoadStep::Fail(E_NO_BLOB),
                Some((e, i)) => {
                    &&& r.0 == (BlobLoad { entry: e, expect: sums@[i as int], tries: 0 })
                    &&& r.1 == (if loaded.lba == e.lba {
                        LoadStep::Ready
                    } else {
                        read_entry(e)
                    })
                },
            },
    {
        proof {
            law_lookup_finds_the_first(idx@, blob@, 0);
        }
        match lookup_idx(idx, blob) {
            None => (
                BlobLoad { entry: Entry { lba: 0, len: 0 }, expect: 0, tries: 0 },
                LoadStep::Fail(E_NO_BLOB),
            ),
            Some((e, i)) => {
                let l = BlobLoad { entry: e, expect: sums[i], tries: 0 };
                if loaded.lba == e.lba {
                    (l, LoadStep::Ready)
                } else {
                    (l, LoadStep::Read { lba: e.lba, blocks: entry_blocks(e) })
                }
            },
        }
    }

    /// A read is through with result `rc`; `bytes` is what it brought.
    pub fn landed(&mut self, rc: i32, bytes: &[u8]) -> (s: LoadStep)
        requires
            old(self).tries < LOAD_TRIES,
            bytes@.len() >= old(self).entry.len,
        ensures
            final(self).entry == old(self).entry,
            final(self).expect == old(self).expect,
            rc != 0 ==> s == LoadStep::Fail(rc) && *final(self) == *old(self),
            rc == 0 && sum_fits(
                old(self).expect,
                sum_of_bytes(bytes@.take(old(self).entry.len as int)),
            ) ==> s == LoadStep::Ready && *final(self) == *old(self),
            rc == 0 && !sum_fits(
                old(self).expect,
                sum_of_bytes(bytes@.take(old(self).entry.len as int)),
            ) ==> {
                &&& final(self).tries == old(self).tries + 1
                &&& s == (if old(self).tries + 1 < LOAD_TRIES {
                    read_entry(old(self).entry)
                } else {
                    LoadStep::Fail(E_SUM)
                })
            },
    {
        if rc != 0 {
            return LoadStep::Fail(rc);
        }
        let whole = slice_subrange(bytes, 0, self.entry.len as usize);
        assert(whole@ =~= bytes@.take(self.entry.len as int));
        if self.expect == 0 || byte_sum(whole) == self.expect {
            return LoadStep::Ready;
        }
        self.tries = self.tries + 1;
        if self.tries < LOAD_TRIES {
            LoadStep::Read { lba: self.entry.lba, blocks: entry_blocks(self.entry) }
        } else {
            LoadStep::Fail(E_SUM)
        }
    }
}

// --- packed blobs -----------------------------------------------------------------------

/// First word of a level-coded packed blob: "LAY5".
pub const MAGIC5: u32 = 0x3559_414C;

/// Weights that share a scale code.
pub const GL: usize = 16;

/// Six header words.
pub const HDR5: usize = 24;

/// The header of a packed blob: the raw length, where in the raw blob the
/// weights start, how many there are, and the raw blob's byte sum.
#[derive(Clone, Copy, PartialEq, Eq, Structural, Debug)]
pub struct Lay5 {
    pub raw_len: usize,
    pub w_off: usize,
    pub n: usize,
    pub raw_sum: u32,
}

impl Lay5 {
    /// Groups of weights.
    pub open spec fn groups(self) -> int {
        self.n as int / 16
    }

    /// Offset of the nibbles in the packed blob: behind the header, the raw
    /// head and the scale codes.
    pub open spec fn nib_off(self) -> int {
        HDR5 + self.w_off + self.groups()
    }

    /// The header describes a packed blob of `len` bytes that expands to
    /// where the decoder blobs run, short of the breadcrumbs.
    pub open spec fn fits(self, len: int) -> bool {
        &&& self.w_off + self.n == self.raw_len
        &&& DEC_OFF + self.raw_len <= CRUMB_OFF
        &&& self.w_off % 4 == 0
        &&& self.n % 32 == 0
        &&& self.nib_off() + self.n as int / 2 == len
    }
}

/// The header words say `h`.
pub open spec fn says(land: Seq<u8>, h: Lay5) -> bool {
    &&& le32(land, 0) == MAGIC5
    &&& le32(land, 4) == h.raw_len
    &&& le32(land, 8) == h.w_off
    &&& le32(land, 12) == h.n
    &&& le32(land, 16) == h.raw_sum
    &&& le32(land, 20) == SLOT_BASE + DEC_OFF
}

/// The validated header of the packed blob of `len` bytes in the landing
/// zone.
pub fn lay5_header(land: &[u8], len: u32) -> (r: Result<Lay5, i32>)
    requires
        land@.len() >= HDR5,
    ensures
        match r {
            Ok(h) => says(land@, h) && h.fits(len as int),
            Err(e) => e == E_TOKEN && !exists|h: Lay5| says(land@, h) && h.fits(len as int),
        },
{
    let magic: u32 = get32(land, 0);
    let raw_len: u32 = get32(land, 4);
    let w_off: u32 = get32(land, 8);
    let n: u32 = get32(land, 12);
    let raw_sum: u32 = get32(land, 16);
    let base: u32 = get32(land, 20);
    let h = Lay5 { raw_len: raw_len as usize, w_off: w_off as usize, n: n as usize, raw_sum };
    assert forall|g: Lay5| says(land@, g) implies g == h by {
        assert(g.raw_len == h.raw_len && g.w_off == h.w_off && g.n == h.n && g.raw_sum
            == h.raw_sum);
    }
    if magic != MAGIC5 || base as usize != SLOT_BASE + DEC_OFF {
        return Err(E_TOKEN);
    }
    let want: u64 = HDR5 as u64 + w_off as u64 + n as u64 / 16 + n as u64 / 2;
    if w_off as u64 + n as u64 != raw_len as u64 || DEC_OFF as u64 + raw_len as u64
        > CRUMB_OFF as u64 || w_off % 4 != 0 || n % 32 != 0 || want != len as u64 {
        return Err(E_TOKEN);
    }
    assert(says(land@, h) && h.fits(len as int));
    Ok(h)
}

/// One poll of a packed blob that is still landing: what to expand now.
#[derive(Clone, Copy, PartialEq, Eq, Structural, Debug)]
pub struct Work {
    /// Copy the raw head of this many bytes.
    pub head: Option<usize>,
    /// Expand these groups.
    pub from: usize,
    pub to: usize,
}

/// A packed blob that is expanded and summed behind its transfer.
#[derive(Clone, Copy, PartialEq, Eq, Structural, Debug)]
pub struct Chase {
    pub len: u32,
    pub header: Option<Lay5>,
    pub head_done: bool,
    /// Groups expanded.
    pub groups: usize,
    /// Bytes summed, and their sum.
    pub summed: usize,
    pub sum: u32,
}

/// How far the landing zone is good: to the end when the transfer is
/// through, else to whole 32-byte units of what has landed.
pub open spec fn usable(len: int, done: bool, landed: int) -> int {
    if done {
        len
    } else {
        let l = if landed < len {
            landed
        } else {
            len
        };
        l - l % 32
    }
}

pub open spec fn larger(a: int, b: int) -> int {
    if a < b {
        b
    } else {
        a
    }
}

/// Groups whose nibbles lie below `got`.
pub open spec fn groups_below(h: Lay5, got: int) -> int {
    if got < h.nib_off() {
        0
    } else if (got - h.nib_off()) / 8 < h.groups() {
        (got - h.nib_off()) / 8
    } else {
        h.groups()
    }
}

/// A poll with the first `got` bytes of `land` good takes a chase from `c` to
/// `d` and hands `w` out.
pub open spec fn polled(c: Chase, got: int, land: Seq<u8>, d: Chase, w: Work) -> bool {
    &&& forall|m: int| c.behind(m) && got <= m ==> #[trigger] d.behind(m)
    &&& d.len == c.len
    &&& d.summed == larger(c.summed as int, got)
    &&& c.header is Some ==> d.header == c.header
    &&& d.header is Some <==> c.header is Some || got >= HDR5
    &&& c.header is None && d.header is Some ==> says(land, d.header->0)
    &&& w.from == c.groups
    &&& w.to == d.groups
    &&& w.head is Some <==> !c.head_done && d.head_done
    &&& w.head matches Some(n) ==> n == d.header->0.w_off
    &&& d.header matches Some(h) ==> {
        &&& d.head_done <==> c.head_done || got >= h.nib_off()
        &&& d.groups == larger(c.groups as int, groups_below(h, got))
    }
    &&& d.header is None ==> d.groups == c.groups && d.head_done == c.head_done
    &&& c.sums(land) ==> d.sums(land)
}

/// A chase of a blob of `len` bytes before its first poll.
pub open spec fn not_begun(len: u32) -> Chase {
    Chase { len, header: None, head_done: false, groups: 0, summed: 0, sum: 0 }
}

impl Chase {
    pub open spec fn wf(self) -> bool {
        &&& self.len <= LAND_BYTES
        &&& self.summed <= self.len
        &&& self.header is None ==> !self.head_done && self.groups == 0
        &&& self.header matches Some(h) ==> h.fits(self.len as int) && self.groups <= h.groups()
        &&& !self.head_done ==> self.groups == 0
    }

    /// The sum so far is that of the first bytes of `land`.
    pub open spec fn sums(self, land: Seq<u8>) -> bool {
        self.sum == sum_of_bytes(land.take(self.summed as int))
    }

    /// Everything that has been expanded lies below `got`.
    pub open spec fn behind(self, got: int) -> bool {
        &&& self.summed <= got
        &&& self.header matches Some(h) ==> {
            &&& HDR5 <= got
            &&& self.head_done ==> h.nib_off() + 8 * self.groups <= got
        }
    }

    /// All of the blob has been expanded and summed.
    pub open spec fn complete(self) -> bool {
        &&& self.header is Some
        &&& self.head_done
        &&& self.groups == self.header->0.groups()
        &&& self.summed == self.len
    }

    pub fn new(e: Entry) -> (c: Chase)
        requires
            e.len <= LAND_BYTES,
        ensures
            c.wf(),
            c == not_begun(e.len),
            forall|land: Seq<u8>| c.sums(land),
    {
        let c = Chase { len: e.len, header: None, head_done: false, groups: 0, summed: 0, sum: 0 };
        assert forall|land: Seq<u8>| c.sums(land) by {
            assert(land.take(0) =~= Seq::<u8>::empty());
            assert(crate::dsp::total(Seq::<u8>::empty()) == 0);
        }
        c
    }

    /// Looks for the header once it has landed.
    fn look(&mut self, got: usize, land: &[u8]) -> (r: Result<(), i32>)
        requires
            old(self).wf(),
            land@.len() >= old(self).len >= got,
        ensures
            final(self).wf(),
            *final(self) == (Chase { header: final(self).header, ..*old(self) }),
            old(self).header is Some ==> r is Ok && final(self).header == old(self).header,
            old(self).header is None && got < HDR5 ==> r is Ok && final(self).header is None,
            old(self).header is None && got >= HDR5 && r is Ok ==> final(self).header is Some
                && says(land@, final(self).header->0),
            r matches Err(e) ==> {
                &&& e == E_TOKEN
                &&& old(self).header is None
                &&& got >= HDR5
                &&& !exists|h: Lay5| says(land@, h) && h.fits(old(self).len as int)
            },
            r is Ok ==> forall|m: int| old(self).behind(m) && got <= m ==> final(self).behind(m),
    {
        if self.header.is_none() && got >= HDR5 {
            match lay5_header(land, self.len) {
                Ok(h) => {
                    self.header = Some(h);
                },
                Err(e) => {
                    return Err(e);
                },
            }
        }
        Ok(())
    }

    /// What can newly be expanded.
    fn expand(&mut self, got: usize) -> (w: Work)
        requires
            old(self).wf(),
            got <= old(self).len,
        ensures
            final(self).wf(),
            forall|m: int| old(self).behind(m) && got <= m ==> final(self).behind(m),
            *final(self) == (Chase {
                head_done: final(self).head_done,
                groups: final(self).groups,
                ..*old(self)
            }),
            w.from == old(self).groups,
            w.to == final(self).groups,
            w.head is Some <==> !old(self).head_done && final(self).head_done,
            w.head matches Some(n) ==> n == final(self).header->0.w_off,
            final(self).header matches Some(h) ==> {
                &&& final(self).head_done <==> old(self).head_done || got >= h.nib_off()
                &&& final(self).groups == larger(
                    old(self).groups as int,
                    groups_below(h, got as int),
                )
            },
            final(self).header is None ==> final(self).groups == old(self).groups
                && final(self).head_done == old(self).head_done,
    {
        let from: usize = self.groups;
        let mut head: Option<usize> = None;
        if let Some(h) = self.header {
            let n_groups: usize = h.n / 16;
            let nib_off: usize = HDR5 + h.w_off + n_groups;
            if !self.head_done && got >= nib_off {
                head = Some(h.w_off);
                self.head_done = true;
            }
            if self.head_done {
                let room: usize = if got < nib_off {
                    0
                } else {
                    (got - nib_off) / 8
                };
                let avail: usize = if room < n_groups {
                    room
                } else {
                    n_groups
                };
                if avail > self.groups {
                    self.groups = avail;
                }
            }
        }
        Work { head, from, to: self.groups }
    }

    /// Sums what has newly landed.
    fn sum_up(&mut self, got: usize, land: &[u8])
        requires
            old(self).summed <= land@.len(),
            got <= land@.len(),
        ensures
            *final(self) == (Chase {
                summed: final(self).summed,
                sum: final(self).sum,
                ..*old(self)
            }),
            final(self).summed == larger(old(self).summed as int, got as int),
            old(self).sums(land@) ==> final(self).sums(land@),
    {
        let ghost before = *self;
        if got > self.summed {
            let fresh = slice_subrange(land, self.summed, got);
            let s: u32 = byte_sum(fresh);
            proof {
                let a = land@.take(before.summed as int);
                let b = fresh@;
                assert(a + b =~= land@.take(got as int));
                law_byte_sum_splits(a, b);
            }
            self.sum = self.sum.wrapping_add(s);
            self.summed = got;
        }
    }

    /// One poll: `landed` bytes are there, all of them if `done`. What has
    /// newly landed is summed; what can newly be expanded comes back. A bad
    /// header ends the chase.
    pub fn poll(&mut self, done: bool, landed: usize, land: &[u8]) -> (r: Result<Work, i32>)
        requires
            old(self).wf(),
            land@.len() >= old(self).len,
        ensures
            final(self).wf(),
            final(self).len == old(self).len,
            ({
                let got = usable(old(self).len as int, done, landed as int);
                match r {
                    Err(e) => {
                        &&& e == E_TOKEN
                        &&& old(self).header is None
                        &&& got >= HDR5
                        &&& !exists|h: Lay5| says(land@, h) && h.fits(old(self).len as int)
                    },
                    Ok(w) => polled(*old(self), got, land@, *final(self), w),
                }
            }),
    {
        let total: usize = self.len as usize;
        let got: usize = if done {
            total
        } else {
            let l: usize = if landed < total {
                landed
            } else {
                total
            };
            l - l % 32
        };
        assert(got == usable(self.len as int, done, landed as int));
        match self.look(got, land) {
            Ok(_) => {},
            Err(e) => {
                return Err(e);
            },
        }
        let w = self.expand(got);
        self.sum_up(got, land);
        Ok(w)
    }

    /// The transfer is through with result `rc`: the sum of the packed
    /// bytes, if all of them were expanded and summed.
    pub fn finish(&self, rc: i32) -> (r: Result<u32, i32>)
        requires
            self.wf(),
        ensures
            r == (if rc != 0 {
                Err::<u32, i32>(rc)
            } else if self.complete() {
                Ok::<u32, i32>(self.sum)
            } else {
                Err::<u32, i32>(E_TOKEN)
            }),
    {
        if rc != 0 {
            return Err(rc);
        }
        match self.header {
            Some(h) => {
                if self.head_done && self.groups == h.n / 16 && self.summed == self.len as usize {
                    Ok(self.sum)
                } else {
                    Err(E_TOKEN)
                }
            },
            None => Err(E_TOKEN),
        }
    }
}

/// Bytes that have been summed and do not change afterwards keep their sum,
/// whatever lands behind them.
pub proof fn law_landed_bytes_keep_their_sum(c: Chase, now: Seq<u8>, later: Seq<u8>)
    requires
        c.sums(now),
        now.take(c.summed as int) == later.take(c.summed as int),
    ensures
        c.sums(later),
{
}

/// A poll after the transfer is through completes the chase of a blob whose
/// header is good: every group has been expanded.
pub proof fn law_last_poll_completes(h: Lay5, len: int)
    requires
        h.fits(len),
    ensures
        groups_below(h, usable(len, true, 0)) == h.groups(),
        h.nib_off() <= len,
        HDR5 <= len,
{
    assert(h.n as int / 2 == 8 * h.groups());
}

/// Where the groups of a packed blob are, and where they go: scale codes,
/// nibbles and raw weights, as offsets and lengths. The first two are in the
/// landing zone, the last one is in the slot.
#[derive(Clone, Copy, PartialEq, Eq, Structural, Debug)]
pub struct Groups {
    pub codes: usize,
    pub n_codes: usize,
    pub nibs: usize,
    pub n_nibs: usize,
    pub raw: usize,
    pub n_raw: usize,
}

/// The places of groups `from` up to `to` of a blob.
pub open spec fn groups_of(h: Lay5, from: int, to: int) -> Groups {
    Groups {
        codes: (HDR5 + h.w_off + from) as usize,
        n_codes: (to - from) as usize,
        nibs: (h.nib_off() + 8 * from) as usize,
        n_nibs: (8 * (to - from)) as usize,
        raw: (DEC_OFF + h.w_off + 16 * from) as usize,
        n_raw: (16 * (to - from)) as usize,
    }
}

/// Where groups `from` up to `to` are expanded from and to.
pub fn expand_groups(h: Lay5, from: usize, to: usize, len: u32) -> (g: Groups)
    requires
        h.fits(len as int),
        from <= to <= h.groups(),
    ensures
        g == groups_of(h, from as int, to as int),
        // inside of what landed, and of what the decoder blobs may use
        g.codes + g.n_codes <= h.nib_off(),
        g.nibs + g.n_nibs <= len,
        DEC_OFF + h.w_off <= g.raw,
        g.raw + g.n_raw <= DEC_OFF + h.raw_len,
{
    let n_groups: usize = h.n / 16;
    let codes: usize = HDR5 + h.w_off;
    let nibs: usize = codes + n_groups;
    Groups {
        codes: codes + from,
        n_codes: to - from,
        nibs: nibs + 8 * from,
        n_nibs: 8 * (to - from),
        raw: DEC_OFF + h.w_off + 16 * from,
        n_raw: 16 * (to - from),
    }
}

/// Runs of groups that follow one another are expanded from and to places
/// that follow one another: all of them together make up the weights.
pub proof fn law_groups_join(h: Lay5, from: int, mid: int, to: int, len: int)
    requires
        h.fits(len),
        0 <= from <= mid <= to <= h.groups(),
    ensures
        ({
            let a = groups_of(h, from, mid);
            let b = groups_of(h, mid, to);
            &&& a.codes + a.n_codes == b.codes
            &&& a.nibs + a.n_nibs == b.nibs
            &&& a.raw + a.n_raw == b.raw
        }),
        groups_of(h, 0, h.groups()).raw == DEC_OFF + h.w_off,
        groups_of(h, 0, h.groups()).n_raw == h.n,
        groups_of(h, 0, h.groups()).nibs + groups_of(h, 0, h.groups()).n_nibs == len,
{
}

/// Groups that a poll hands out have landed.
pub proof fn law_expanded_groups_have_landed(c: Chase, w: Work, got: int)
    requires
        c.wf(),
        c.behind(got),
        c.head_done,
        0 <= w.from <= w.to <= c.groups,
    ensures
        ({
            let g = groups_of(c.header->0, w.from as int, w.to as int);
            g.codes + g.n_codes <= got && g.nibs + g.n_nibs <= got
        }),
{
}

// --- a whole chase ----------------------------------------------------------------------

/// Byte `i` of the raw blob that a packed blob stands for: its head as it is,
/// then the weights; `f` expands a group out of its scale code and its
/// nibbles.
#[verifier::opaque]
pub open spec fn raw_byte(
    packed: Seq<u8>,
    h: Lay5,
    f: spec_fn(u8, Seq<u8>) -> Seq<u8>,
    i: int,
) -> u8 {
    if i < h.w_off {
        packed[HDR5 + i]
    } else {
        let g = (i - h.w_off) / 16;
        f(
            packed[HDR5 + h.w_off + g],
            packed.subrange(h.nib_off() + 8 * g, h.nib_off() + 8 * g + 8),
        )[(i - h.w_off) % 16]
    }
}

/// The bytes that a piece of work writes.
pub open spec fn worked_on(w: Work, h: Lay5, i: int) -> bool {
    w.head is Some && 0 <= i < h.w_off || h.w_off + 16 * w.from <= i < h.w_off + 16 * w.to
}

/// What a piece of work makes of the memory that the raw blob goes to.
pub open spec fn carried(
    dec: Seq<u8>,
    w: Work,
    h: Lay5,
    land: Seq<u8>,
    f: spec_fn(u8, Seq<u8>) -> Seq<u8>,
) -> Seq<u8> {
    Seq::new(
        dec.len(),
        |i: int|
            if worked_on(w, h, i) {
                raw_byte(land, h, f, i)
            } else {
                dec[i]
            },
    )
}

/// The memory after the first `n` polls, each of which had its work carried
/// out on what had landed then.
pub open spec fn carried_all(
    dec: Seq<u8>,
    ws: Seq<Work>,
    lands: Seq<Seq<u8>>,
    h: Lay5,
    f: spec_fn(u8, Seq<u8>) -> Seq<u8>,
    n: int,
) -> Seq<u8>
    decreases n,
{
    if n <= 0 {
        dec
    } else {
        carried(carried_all(dec, ws, lands, h, f, n - 1), ws[n - 1], h, lands[n - 1], f)
    }
}

/// The first `n` polls of a chase of the blob `packed`: poll `i` finds the
/// first `gots[i]` bytes there, of which no fewer come later, and goes from
/// `cs[i]` to `cs[i + 1]`.
#[verifier::opaque]
pub open spec fn is_chase(
    packed: Seq<u8>,
    cs: Seq<Chase>,
    ws: Seq<Work>,
    gots: Seq<int>,
    lands: Seq<Seq<u8>>,
    n: int,
) -> bool {
    &&& packed.len() <= LAND_BYTES
    &&& cs[0] == not_begun(packed.len() as u32)
    &&& forall|i: int| 0 <= i <= n ==> (#[trigger] cs[i]).wf()
    &&& forall|i: int, j: int| 0 <= i <= j < n ==> gots[i] <= gots[j]
    &&& forall|i: int|
        0 <= i < n ==> {
            &&& 0 <= #[trigger] gots[i] <= packed.len() <= lands[i].len()
            &&& lands[i].take(gots[i]) == packed.take(gots[i])
            &&& polled(cs[i], gots[i], lands[i], cs[i + 1], ws[i])
        }
}

proof fn lemma_same_header(land: Seq<u8>, packed: Seq<u8>, got: int, h: Lay5)
    requires
        HDR5 <= got <= packed.len(),
        got <= land.len(),
        land.take(got) == packed.take(got),
        says(packed, h),
    ensures
        says(land, h),
        forall|g: Lay5| says(land, g) ==> g == h,
{
    lemma_landed_is_packed(land, packed, got, 0, HDR5 as int);
    assert forall|g: Lay5| says(land, g) implies g == h by {
        assert(g.raw_len == h.raw_len && g.w_off == h.w_off && g.n == h.n && g.raw_sum
            == h.raw_sum);
    }
}

proof fn lemma_landed_is_packed(land: Seq<u8>, packed: Seq<u8>, got: int, a: int, b: int)
    requires
        0 <= a <= b <= got <= packed.len(),
        got <= land.len(),
        land.take(got) == packed.take(got),
    ensures
        land.subrange(a, b) == packed.subrange(a, b),
        forall|i: int| a <= i < b ==> land[i] == packed[i],
{
    assert forall|i: int| a <= i < b implies land[i] == packed[i] by {
        assert(land[i] == land.take(got)[i]);
        assert(packed[i] == packed.take(got)[i]);
    }
    assert(land.subrange(a, b) =~= packed.subrange(a, b));
}

proof fn lemma_work_is_right(
    packed: Seq<u8>,
    land: Seq<u8>,
    got: int,
    h: Lay5,
    w: Work,
    f: spec_fn(u8, Seq<u8>) -> Seq<u8>,
    i: int,
)
    requires
        h.fits(packed.len() as int),
        0 <= got <= packed.len(),
        got <= land.len(),
        land.take(got) == packed.take(got),
        worked_on(w, h, i),
        0 <= w.from,
        w.to <= h.groups(),
        w.head is Some || w.from < w.to ==> h.nib_off() <= got,
        w.from < w.to ==> h.nib_off() + 8 * w.to <= got,
    ensures
        raw_byte(land, h, f, i) == raw_byte(packed, h, f, i),
{
    reveal(raw_byte);
    if i < h.w_off {
        lemma_landed_is_packed(land, packed, got, 0, h.nib_off());
    } else {
        let g = (i - h.w_off) / 16;
        assert(w.from <= g < w.to);
        lemma_landed_is_packed(land, packed, got, 0, h.nib_off());
        lemma_landed_is_packed(
            land,
            packed,
            got,
            h.nib_off() + 8 * g,
            h.nib_off() + 8 * g + 8,
        );
    }
}

/// One poll of a chase.
proof fn lemma_poll(
    packed: Seq<u8>,
    cs: Seq<Chase>,
    ws: Seq<Work>,
    gots: Seq<int>,
    lands: Seq<Seq<u8>>,
    n: int,
    i: int,
)
    requires
        is_chase(packed, cs, ws, gots, lands, n),
        0 <= i < n,
    ensures
        0 <= gots[i] <= packed.len() <= lands[i].len(),
        i > 0 ==> gots[i - 1] <= gots[i],
        lands[i].take(gots[i]) == packed.take(gots[i]),
        polled(cs[i], gots[i], lands[i], cs[i + 1], ws[i]),
        cs[i].wf(),
        cs[i + 1].wf(),
{
    reveal(is_chase);
    assert(gots[i] == gots[i]);
    assert(cs[i].wf() && cs[i + 1].wf());
}

/// How far a chase has come when the first `got` bytes have landed.
pub open spec fn has_come(c: Chase, packed: Seq<u8>, h: Lay5, got: int) -> bool {
    &&& c.len == packed.len()
    &&& c.header == (if got >= HDR5 {
        Some(h)
    } else {
        None
    })
    &&& c.head_done == (got >= h.nib_off())
    &&& c.groups == groups_below(h, got)
    &&& c.summed == got
    &&& c.sum == sum_of_bytes(packed.take(got))
}

/// Bytes that have landed at the last of the first `n` polls.
pub open spec fn got_at(gots: Seq<int>, n: int) -> int {
    if n <= 0 {
        0
    } else {
        gots[n - 1]
    }
}

proof fn lemma_has_come(
    packed: Seq<u8>,
    h: Lay5,
    cs: Seq<Chase>,
    ws: Seq<Work>,
    gots: Seq<int>,
    lands: Seq<Seq<u8>>,
    n: int,
    i: int,
)
    requires
        is_chase(packed, cs, ws, gots, lands, n),
        0 <= i <= n,
        says(packed, h),
        h.fits(packed.len() as int),
    ensures
        has_come(cs[i], packed, h, got_at(gots, i)),
    decreases i,
{
    if i <= 0 {
        assert(cs[0] == not_begun(packed.len() as u32)) by {
            reveal(is_chase);
        }
        assert(packed.len() <= LAND_BYTES) by {
            reveal(is_chase);
        }
        assert(packed.take(0) =~= Seq::<u8>::empty());
        assert(crate::dsp::total(Seq::<u8>::empty()) == 0);
    } else {
        lemma_has_come(packed, h, cs, ws, gots, lands, n, i - 1);
        lemma_poll(packed, cs, ws, gots, lands, n, i - 1);
        let got = gots[i - 1];
        let land = lands[i - 1];
        let c = cs[i - 1];
        let d = cs[i];
        if i > 1 {
            assert(gots[i - 2] <= got);
        }
        assert(c.summed <= got);
        if got >= HDR5 {
            lemma_same_header(land, packed, got, h);
        }
        assert(d.header is Some ==> d.header == Some(h));
        lemma_landed_is_packed(land, packed, got, 0, c.summed as int);
        assert(land.take(c.summed as int) =~= land.subrange(0, c.summed as int));
        assert(packed.take(c.summed as int) =~= packed.subrange(0, c.summed as int));
        assert(c.sums(land));
        assert(d.sums(land));
    }
}

proof fn lemma_chase_memory(
    packed: Seq<u8>,
    h: Lay5,
    cs: Seq<Chase>,
    ws: Seq<Work>,
    gots: Seq<int>,
    lands: Seq<Seq<u8>>,
    dec: Seq<u8>,
    f: spec_fn(u8, Seq<u8>) -> Seq<u8>,
    n: int,
    i: int,
)
    requires
        is_chase(packed, cs, ws, gots, lands, n),
        0 <= i <= n,
        says(packed, h),
        h.fits(packed.len() as int),
        dec.len() >= h.raw_len,
    ensures
        carried_all(dec, ws, lands, h, f, i).len() == dec.len(),
        forall|k: int|
            cs[i].head_done && 0 <= k < h.w_off || h.w_off <= k < h.w_off + 16 * cs[i].groups
                ==> #[trigger] carried_all(dec, ws, lands, h, f, i)[k] == raw_byte(
                packed,
                h,
                f,
                k,
            ),
    decreases i,
{
    lemma_has_come(packed, h, cs, ws, gots, lands, n, i);
    if i > 0 {
        lemma_chase_memory(packed, h, cs, ws, gots, lands, dec, f, n, i - 1);
        lemma_has_come(packed, h, cs, ws, gots, lands, n, i - 1);
        lemma_poll(packed, cs, ws, gots, lands, n, i - 1);
        let got = gots[i - 1];
        let land = lands[i - 1];
        let c = cs[i - 1];
        let d = cs[i];
        let w = ws[i - 1];
        let before = carried_all(dec, ws, lands, h, f, i - 1);
        let now = carried_all(dec, ws, lands, h, f, i);
        assert(d.groups <= h.groups());
        assert(w.from < w.to ==> h.nib_off() + 8 * w.to <= got);
        assert forall|k: int|
            d.head_done && 0 <= k < h.w_off || h.w_off <= k < h.w_off + 16
                * d.groups implies #[trigger] now[k] == raw_byte(packed, h, f, k) by {
            if worked_on(w, h, k) {
                lemma_work_is_right(packed, land, got, h, w, f, k);
            } else {
                assert(before[k] == raw_byte(packed, h, f, k));
            }
        }
    }
}

/// What poll `i` hands out.
pub open spec fn hands_out(w: Work, h: Lay5, was: int, got: int) -> bool {
    &&& w.from == groups_below(h, was)
    &&& w.to == groups_below(h, got)
    &&& w.head == (if was < h.nib_off() <= got {
        Some(h.w_off)
    } else {
        None
    })
}

proof fn lemma_hands_out(
    packed: Seq<u8>,
    h: Lay5,
    cs: Seq<Chase>,
    ws: Seq<Work>,
    gots: Seq<int>,
    lands: Seq<Seq<u8>>,
    n: int,
    i: int,
)
    requires
        is_chase(packed, cs, ws, gots, lands, n),
        0 <= i < n,
        says(packed, h),
        h.fits(packed.len() as int),
    ensures
        hands_out(ws[i], h, got_at(gots, i), got_at(gots, i + 1)),
{
    lemma_poll(packed, cs, ws, gots, lands, n, i);
    lemma_has_come(packed, h, cs, ws, gots, lands, n, i);
    lemma_has_come(packed, h, cs, ws, gots, lands, n, i + 1);
}

/// What a chase has done when its first `n` polls are over, and poll `i` of
/// them. Once all bytes are there it is complete.
pub open spec fn chased(
    packed: Seq<u8>,
    h: Lay5,
    c: Chase,
    now: Seq<u8>,
    f: spec_fn(u8, Seq<u8>) -> Seq<u8>,
    got: int,
) -> bool {
    &&& has_come(c, packed, h, got)
    &&& forall|k: int|
        c.head_done && 0 <= k < h.w_off || h.w_off <= k < h.w_off + 16 * c.groups
            ==> #[trigger] now[k] == raw_byte(packed, h, f, k)
    &&& got == packed.len() ==> {
        &&& c.complete()
        &&& c.sum == sum_of_bytes(packed)
        &&& forall|k: int| 0 <= k < h.raw_len ==> #[trigger] now[k] == raw_byte(packed, h, f, k)
    }
}

/// A chase of a blob with a good header, whatever landed when. At every poll
/// the header is found as soon as it is there, the sum is that of the bytes
/// so far, the groups that come out follow those of the poll before, the head
/// comes out once, and what the work has written is the raw blob's. Once all
/// bytes are there the chase is complete: its sum is the whole blob's, the
/// last group has come out, and the memory holds the whole raw blob, as it
/// would if the blob were expanded in one go.
pub proof fn law_a_chase_expands_the_blob(
    packed: Seq<u8>,
    h: Lay5,
    cs: Seq<Chase>,
    ws: Seq<Work>,
    gots: Seq<int>,
    lands: Seq<Seq<u8>>,
    dec: Seq<u8>,
    f: spec_fn(u8, Seq<u8>) -> Seq<u8>,
    n: int,
    i: int,
)
    requires
        is_chase(packed, cs, ws, gots, lands, n),
        0 <= i < n,
        says(packed, h),
        h.fits(packed.len() as int),
        dec.len() >= h.raw_len,
    ensures
        hands_out(ws[i], h, got_at(gots, i), got_at(gots, i + 1)),
        chased(
            packed,
            h,
            cs[i + 1],
            carried_all(dec, ws, lands, h, f, i + 1),
            f,
            got_at(gots, i + 1),
        ),
        got_at(gots, i + 1) == packed.len() ==> ws[i].to == h.groups(),
{
    lemma_hands_out(packed, h, cs, ws, gots, lands, n, i);
    lemma_has_come(packed, h, cs, ws, gots, lands, n, i + 1);
    lemma_chase_memory(packed, h, cs, ws, gots, lands, dec, f, n, i + 1);
    lemma_chased(
        packed,
        h,
        cs[i + 1],
        carried_all(dec, ws, lands, h, f, i + 1),
        f,
        got_at(gots, i + 1),
    );
    if got_at(gots, i + 1) == packed.len() {
        law_last_poll_completes(h, packed.len() as int);
    }
}

proof fn lemma_chased(
    packed: Seq<u8>,
    h: Lay5,
    c: Chase,
    now: Seq<u8>,
    f: spec_fn(u8, Seq<u8>) -> Seq<u8>,
    got: int,
)
    requires
        h.fits(packed.len() as int),
        has_come(c, packed, h, got),
        forall|k: int|
            c.head_done && 0 <= k < h.w_off || h.w_off <= k < h.w_off + 16 * c.groups
                ==> #[trigger] now[k] == raw_byte(packed, h, f, k),
    ensures
        chased(packed, h, c, now, f, got),
{
    if got == packed.len() {
        law_last_poll_completes(h, packed.len() as int);
        assert(packed.take(packed.len() as int) =~= packed);
        assert(h.w_off + 16 * c.groups == h.raw_len);
    }
}

/// A chase that finishes well had a good header: the blob's header words
/// describe it.
pub proof fn law_a_finished_chase_had_a_header(
    packed: Seq<u8>,
    cs: Seq<Chase>,
    ws: Seq<Work>,
    gots: Seq<int>,
    lands: Seq<Seq<u8>>,
    n: int,
)
    requires
        0 <= n,
        is_chase(packed, cs, ws, gots, lands, n),
        cs[n].header is Some,
    ensures
        says(packed, cs[n].header->0),
        cs[n].header->0.fits(packed.len() as int),
        cs[n].len == packed.len(),
    decreases n,
{
    reveal(is_chase);
    if n > 0 {
        let c = cs[n - 1];
        lemma_poll(packed, cs, ws, gots, lands, n, n - 1);
        lemma_chase_keeps_its_length(packed, cs, ws, gots, lands, n);
        if c.header is Some {
            law_a_finished_chase_had_a_header(packed, cs, ws, gots, lands, n - 1);
        } else {
            let got = gots[n - 1];
            lemma_landed_is_packed(lands[n - 1], packed, got, 0, got);
        }
    }
}

proof fn lemma_chase_keeps_its_length(
    packed: Seq<u8>,
    cs: Seq<Chase>,
    ws: Seq<Work>,
    gots: Seq<int>,
    lands: Seq<Seq<u8>>,
    n: int,
)
    requires
        0 <= n,
        is_chase(packed, cs, ws, gots, lands, n),
    ensures
        cs[n].len == packed.len(),
    decreases n,
{
    reveal(is_chase);
    if n > 0 {
        lemma_chase_keeps_its_length(packed, cs, ws, gots, lands, n - 1);
        assert(polled(cs[n - 1], gots[n - 1], lands[n - 1], cs[n], ws[n - 1]));
    }
}

// --- once per boot ----------------------------------------------------------------------

/// The expansion's sum is not the packed header's.
pub const E_RAW_SUM: i32 = -907;

/// The blob uses more of the interlayer buffer than decoding leaves it.
pub const E_INTERLAYER: i32 = -909;

/// The expansion against the header's raw sum, and the blob's declared
/// interlayer use against what decoding leaves it, once per entry.
pub fn verify_expanded(
    verified: &mut [bool; MAX_ENTRIES],
    idx: usize,
    land: &[u8],
    raw: &[u8],
    need: Option<u32>,
) -> (r: Result<(), i32>)
    requires
        idx < MAX_ENTRIES,
        land@.len() >= HDR5,
        raw@.len() >= le32(land@, 4),
    ensures
        ({
            let seen = old(verified)@[idx as int];
            let good_sum = sum_of_bytes(raw@.take(le32(land@, 4))) == le32(land@, 16);
            let small = need is Some && need->0 <= IL_KEEP;
            match r {
                Ok(_) => {
                    &&& seen || (good_sum && small)
                    &&& final(verified)@ == old(verified)@.update(idx as int, true)
                },
                Err(e) => {
                    &&& !seen
                    &&& e == E_RAW_SUM && !good_sum || e == E_INTERLAYER && good_sum && !small
                    &&& final(verified)@ == old(verified)@
                },
            }
        }),
{
    if verified[idx] {
        assert(verified@ =~= old(verified)@.update(idx as int, true));
        return Ok(());
    }
    let raw_len: usize = get32(land, 4) as usize;
    let whole = slice_subrange(raw, 0, raw_len);
    assert(whole@ =~= raw@.take(le32(land@, 4)));
    if byte_sum(whole) != get32(land, 16) {
        return Err(E_RAW_SUM);
    }
    match need {
        Some(n) => {
            if n as usize > IL_KEEP {
                return Err(E_INTERLAYER);
            }
        },
        None => {
            return Err(E_INTERLAYER);
        },
    }
    verified[idx] = true;
    Ok(())
}

/// Where a packed blob's header says what it is: the length it expands to,
/// where its weights begin, how many there are, its sum, and where it runs.
pub proof fn law_a_header_is_six_words(land: Seq<u8>, h: Lay5)
    requires
        land.len() >= 24,
        says(land, h),
    ensures
        land[0] == 0x4C && land[1] == 0x41 && land[2] == 0x59 && land[3] == 0x35,
        land[4] + 256 * land[5] + 65536 * land[6] + 16777216 * land[7] == h.raw_len,
        land[8] + 256 * land[9] + 65536 * land[10] + 16777216 * land[11] == h.w_off,
        land[12] + 256 * land[13] + 65536 * land[14] + 16777216 * land[15] == h.n,
        land[16] + 256 * land[17] + 65536 * land[18] + 16777216 * land[19] == h.raw_sum,
        land[20] + 256 * land[21] + 65536 * land[22] + 16777216 * land[23] == 0x2005_9000,
{
}

/// A packed blob is its header, what stands before its weights, a code for
/// every sixteen weights, and half a byte for every weight; expanded, it fits
/// where it runs.
pub proof fn law_a_packed_blob_is_made_of_its_parts(h: Lay5, len: int)
    requires
        h.fits(len),
    ensures
        len == 24 + h.w_off + h.n as int / 16 + h.n as int / 2,
        h.raw_len == h.w_off + h.n,
        57344 + h.raw_len <= 212984,
        h.n % 32 == 0,
{
}

/// A sum of zero was not taken; any other has to agree.
pub proof fn law_sums_agree_where_they_were_taken(expect: u32, sum: int)
    ensures
        expect == 0 ==> sum_fits(expect, sum),
        expect != 0 ==> (sum_fits(expect, sum) <==> sum == expect),
{
}

/// What may be used of a blob that is still coming: nothing that has not
/// landed, all of it but the last piece, and everything at the end.
pub proof fn law_only_landed_bytes_are_used(len: int, done: bool, landed: int)
    requires
        0 <= landed,
        0 <= len,
    ensures
        done ==> usable(len, done, landed) == len,
        !done ==> usable(len, done, landed) <= landed && usable(len, done, landed) <= len,
        !done && landed <= len ==> landed - 32 < usable(len, done, landed),
        !done ==> usable(len, done, landed) % 32 == 0,
{
}

/// An expanded blob is what stood before its weights, as it was, and then
/// sixteen weights for every code and its eight bytes.
pub proof fn law_every_code_expands_to_sixteen_weights(
    packed: Seq<u8>,
    h: Lay5,
    f: spec_fn(u8, Seq<u8>) -> Seq<u8>,
    i: int,
    g: int,
    k: int,
)
    requires
        0 <= i,
        0 <= g < h.n as int / 16,
        0 <= k < 16,
    ensures
        i < h.w_off ==> raw_byte(packed, h, f, i) == packed[24 + i],
        ({
            let codes = 24 + h.w_off;
            let nibs = codes + h.n as int / 16;
            raw_byte(packed, h, f, h.w_off + 16 * g + k) == f(
                packed[codes + g],
                packed.subrange(nibs + 8 * g, nibs + 8 * g + 8),
            )[k]
        }),
{
    reveal(raw_byte);
    assert((16 * g + k) / 16 == g);
    assert((16 * g + k) % 16 == k);
}

} // verus!
