//! The host that serves the model image to the board: its answers, the
//! image's own layout, and audio that stands in for a recording.

use crate::bytes::{byte_of, get16, get32, law_bytes_make_the_value, le16, le32, put32, with_le32};
use crate::capture::inject_marker;
use crate::image::{entry_name, has_magic, img_magic, name_len, PLAN_MAGIC};
use crate::layout::{BLOCK, N_SAMPLES, S_INJECT};
use crate::mockblk::{
    answer, parse_request, response_frame, sum32, word_sum, Request, Response, OP_INFO, OP_READ,
    OP_WRITE, REQ_MAGIC,
};
use vstd::prelude::*;
use vstd::string::*;

verus! {

// --- requests ---------------------------------------------------------------------------

/// The request reaches beyond the image.
pub const S_RANGE: i32 = -1;

/// A payload does not have the sum that was announced.
pub const S_SUM: i32 = -2;

/// No such operation.
pub const S_OP: i32 = -3;

/// What a request frame asks of the host.
#[derive(Clone, Copy, PartialEq, Eq, Structural, Debug)]
pub enum Serve {
    /// The frame is none: the two sides have slipped apart.
    Lost,
    /// Answer with this.
    Reply(Response),
    /// Read the blocks, then [`loaded`].
    Load(Request),
    /// Receive the payload, then [`taken`].
    Take(Request),
}

/// The request lies inside of an image of `total` blocks.
pub open spec fn in_range(r: Request, total: int) -> bool {
    r.lba + r.count <= total
}

/// What request `r` asks of a host with `total` blocks.
pub open spec fn serve_of(r: Request, total: u64) -> Serve {
    if r.op == OP_INFO {
        Serve::Reply(
            Response {
                status: 0,
                count: (total % 0x1_0000_0000u64) as u32,
                sum: 0,
                tag: r.tag,
            },
        )
    } else if r.op == OP_READ {
        if in_range(r, total as int) {
            Serve::Load(r)
        } else {
            Serve::Reply(Response { status: S_RANGE, count: 0, sum: 0, tag: r.tag })
        }
    } else if r.op == OP_WRITE {
        Serve::Take(r)
    } else {
        Serve::Reply(Response { status: S_OP, count: 0, sum: 0, tag: r.tag })
    }
}

/// Serves a request frame of a board, on an image of `total` blocks.
pub fn serve(frame: &[u8], total: u64) -> (s: Serve)
    requires
        frame@.len() >= 24,
    ensures
        le32(frame@, 0) != REQ_MAGIC ==> s == Serve::Lost,
        le32(frame@, 0) == REQ_MAGIC ==> s == serve_of(
            Request {
                op: frame@[4],
                lba: le32(frame@, 8) as u32,
                count: le32(frame@, 12) as u32,
                sum: le32(frame@, 16) as u32,
                tag: le32(frame@, 20) as u32,
            },
            total,
        ),
{
    match parse_request(frame) {
        None => Serve::Lost,
        Some(r) => {
            if r.op == OP_INFO {
                Serve::Reply(
                    Response {
                        status: 0,
                        count: (total % 0x1_0000_0000) as u32,
                        sum: 0,
                        tag: r.tag,
                    },
                )
            } else if r.op == OP_READ {
                if r.lba as u64 + r.count as u64 > total {
                    Serve::Reply(Response { status: S_RANGE, count: 0, sum: 0, tag: r.tag })
                } else {
                    Serve::Load(r)
                }
            } else if r.op == OP_WRITE {
                Serve::Take(r)
            } else {
                Serve::Reply(Response { status: S_OP, count: 0, sum: 0, tag: r.tag })
            }
        },
    }
}

/// The answer to a read: the count, and the sum of the blocks.
pub open spec fn load_reply(r: Request, payload: Seq<u8>) -> Response {
    Response {
        status: 0,
        count: r.count,
        sum: word_sum(payload, payload.len() as int / 4) as u32,
        tag: r.tag,
    }
}

/// The blocks of a read are there; the answer goes ahead of them.
pub fn loaded(r: Request, payload: &[u8]) -> (a: Response)
    ensures
        a == load_reply(r, payload@),
{
    Response { status: 0, count: r.count, sum: sum32(payload), tag: r.tag }
}

/// The status of a write: its sum is looked at first.
pub open spec fn take_status(r: Request, payload: Seq<u8>, total: int) -> i32 {
    if word_sum(payload, payload.len() as int / 4) != r.sum {
        S_SUM
    } else if !in_range(r, total) {
        S_RANGE
    } else {
        0
    }
}

/// The payload of a write is there. The answer, and whether the blocks are
/// to be stored.
pub fn taken(r: Request, payload: &[u8], total: u64) -> (a: (Response, bool))
    ensures
        a.0 == (Response {
            status: take_status(r, payload@, total as int),
            count: 0,
            sum: 0,
            tag: r.tag,
        }),
        a.1 == (take_status(r, payload@, total as int) == 0),
{
    if sum32(payload) != r.sum {
        return (Response { status: S_SUM, count: 0, sum: 0, tag: r.tag }, false);
    }
    if r.lba as u64 + r.count as u64 > total {
        return (Response { status: S_RANGE, count: 0, sum: 0, tag: r.tag }, false);
    }
    (Response { status: 0, count: 0, sum: 0, tag: r.tag }, true)
}

// --- the image as blocks ----------------------------------------------------------------

/// Where a request's blocks are in the image, and how many bytes they take.
pub fn span(r: Request) -> (s: (u64, u64))
    ensures
        s.0 == 512 * r.lba,
        s.1 == 512 * r.count,
{
    (512 * r.lba as u64, 512 * r.count as u64)
}

/// Blocks of an image.
pub open spec fn load(img: Seq<u8>, lba: int, count: int) -> Seq<u8> {
    img.subrange(512 * lba, 512 * (lba + count))
}

/// An image with blocks replaced.
pub open spec fn store(img: Seq<u8>, lba: int, payload: Seq<u8>) -> Seq<u8> {
    Seq::new(
        img.len(),
        |i: int|
            if 512 * lba <= i < 512 * lba + payload.len() {
                payload[i - 512 * lba]
            } else {
                img[i]
            },
    )
}

/// A read gives back what a write wrote.
pub proof fn law_a_read_gives_back_a_write(img: Seq<u8>, lba: int, count: int, payload: Seq<u8>)
    requires
        0 <= lba,
        0 <= count,
        payload.len() == 512 * count,
        512 * (lba + count) <= img.len(),
    ensures
        load(store(img, lba, payload), lba, count) == payload,
{
    assert(load(store(img, lba, payload), lba, count) =~= payload);
}

/// A write leaves every other block alone.
pub proof fn law_a_write_stays_in_place(
    img: Seq<u8>,
    lba: int,
    payload: Seq<u8>,
    other: int,
    count: int,
)
    requires
        0 <= lba,
        0 <= other,
        0 <= count,
        512 * (other + count) <= img.len(),
        payload.len() % 512 == 0,
        512 * lba + payload.len() <= img.len(),
        other + count <= lba || 512 * lba + payload.len() <= 512 * other,
    ensures
        load(store(img, lba, payload), other, count) == load(img, other, count),
{
    assert(load(store(img, lba, payload), other, count) =~= load(img, other, count));
}

/// An intact write and read over the link: the board's write is stored, and
/// its read of the same blocks is answered with its tag, its count and the
/// sum of what it wrote.
pub proof fn law_the_link_keeps_blocks(
    img: Seq<u8>,
    w: Request,
    r: Request,
    payload: Seq<u8>,
    total: u64,
)
    requires
        img.len() == 512 * total,
        w.op == OP_WRITE,
        r.op == OP_READ,
        w.lba == r.lba,
        w.count == r.count,
        in_range(w, total as int),
        payload.len() == 512 * w.count,
        w.sum == word_sum(payload, payload.len() as int / 4) as u32,
    ensures
        serve_of(w, total) == Serve::Take(w),
        take_status(w, payload, total as int) == 0,
        serve_of(r, total) == Serve::Load(r),
        ({
            let back = load(store(img, w.lba as int, payload), r.lba as int, r.count as int);
            &&& back == payload
            &&& answer(response_frame(load_reply(r, back)), r.tag) == Ok::<(i32, u32, u32), i32>(
                (0i32, r.count, word_sum(payload, payload.len() as int / 4) as u32),
            )
        }),
{
    law_a_read_gives_back_a_write(img, w.lba as int, w.count as int, payload);
    lemma_sum_is_a_word(payload, payload.len() as int / 4);
    let back = load(store(img, w.lba as int, payload), r.lba as int, r.count as int);
    crate::mockblk::law_response_comes_through(load_reply(r, back), r.tag);
}

proof fn lemma_sum_is_a_word(b: Seq<u8>, n: int)
    ensures
        0 <= word_sum(b, n) < 0x1_0000_0000,
{
}

// --- the image's layout -----------------------------------------------------------------

/// Why an image cannot be served.
#[derive(Clone, Copy, PartialEq, Eq, Structural, Debug)]
pub enum ImageError {
    NotAnImage,
    NoPlan,
    PlanMagic,
}

/// Blocks behind the start of the scratch area that the image gets.
pub const SCRATCH_BLOCKS: u64 = 20608;

/// Bytes of the index.
pub const HEADER_BYTES: usize = 8192;

/// Entry `i` is the plan: its name is that, and padding.
pub open spec fn names_plan(hdr: Seq<u8>, i: int) -> bool {
    let e = 16 + 32 * i;
    hdr[e] == 0x70 && hdr[e + 1] == 0x6C && hdr[e + 2] == 0x61 && hdr[e + 3] == 0x6E && (forall|
        k: int,
    | 4 <= k < 24 ==> #[trigger] hdr[e + k] == 0)
}

/// The first entry from `i` on that is the plan, of `n`.
pub open spec fn plan_entry(hdr: Seq<u8>, i: int, n: int) -> Option<int>
    decreases n - i,
{
    if i >= n {
        None
    } else if names_plan(hdr, i) {
        Some(i)
    } else {
        plan_entry(hdr, i + 1, n)
    }
}

/// Entries that the index records, as far as it can hold them.
pub open spec fn recorded(hdr: Seq<u8>) -> int {
    if le32(hdr, 12) < 255 {
        le32(hdr, 12)
    } else {
        255
    }
}

fn is_plan_name(hdr: &[u8], e: usize) -> (b: bool)
    requires
        e + 24 <= hdr@.len(),
        e >= 16,
        (e - 16) % 32 == 0,
    ensures
        b == names_plan(hdr@, (e - 16) / 32),
{
    let ghost i = (e - 16) / 32;
    let total: usize = hdr.len();
    assert(e == 16 + 32 * i);
    if hdr[e] != 0x70 || hdr[e + 1] != 0x6C || hdr[e + 2] != 0x61 || hdr[e + 3] != 0x6E {
        return false;
    }
    let mut k: usize = 4;
    while k < 24
        invariant
            4 <= k <= 24,
            e + 24 <= total,
            total == hdr@.len(),
            e == 16 + 32 * i,
            i == (e - 16) / 32,
            forall|j: int| 4 <= j < k ==> #[trigger] hdr@[e + j] == 0,
        decreases 24 - k,
    {
        if hdr[e + k] != 0 {
            assert(hdr@[16 + 32 * i + k] != 0);
            return false;
        }
        k = k + 1;
    }
    assert forall|j: int| 4 <= j < 24 implies #[trigger] hdr@[16 + 32 * i + j] == 0 by {
        assert(hdr@[e + j] == 0);
    }
    true
}

/// Where the image's plan is. An index whose plan is not among the entries
/// that fit is not to be asked.
pub fn plan_lba(hdr: &[u8]) -> (r: Result<u32, ImageError>)
    requires
        hdr@.len() == HEADER_BYTES,
        le32(hdr@, 12) <= 255 || plan_entry(hdr@, 0, 255) is Some,
    ensures
        r == (if hdr@.take(8) != img_magic() {
            Err::<u32, ImageError>(ImageError::NotAnImage)
        } else {
            match plan_entry(hdr@, 0, recorded(hdr@)) {
                Some(i) => Ok(le32(hdr@, 16 + 32 * i + 24) as u32),
                None => Err(ImageError::NoPlan),
            }
        }),
{
    if !has_magic(hdr) {
        return Err(ImageError::NotAnImage);
    }
    let given: u32 = get32(hdr, 12);
    let n: usize = if given < 255 {
        given as usize
    } else {
        255
    };
    let mut i: usize = 0;
    while i < n
        invariant
            i <= n <= 255,
            n == recorded(hdr@),
            hdr@.len() == HEADER_BYTES,
            hdr@.take(8) == img_magic(),
            plan_entry(hdr@, 0, n as int) == plan_entry(hdr@, i as int, n as int),
        decreases n - i,
    {
        let e: usize = 16 + 32 * i;
        assert((e - 16) / 32 == i);
        if is_plan_name(hdr, e) {
            return Ok(get32(hdr, e + 24));
        }
        i = i + 1;
    }
    Err(ImageError::NoPlan)
}

/// Where the scratch area starts, out of the plan's first bytes.
pub fn scratch_lba(plan: &[u8]) -> (r: Result<u64, ImageError>)
    requires
        plan@.len() >= 12,
    ensures
        r == (if le32(plan@, 0) != PLAN_MAGIC {
            Err::<u64, ImageError>(ImageError::PlanMagic)
        } else {
            Ok(le32(plan@, 8) as u64)
        }),
{
    if get32(plan, 0) != PLAN_MAGIC {
        return Err(ImageError::PlanMagic);
    }
    Ok(get32(plan, 8) as u64)
}

/// Blocks of an image whose scratch area starts at `scratch`.
pub fn total_blocks(scratch: u64) -> (n: u64)
    requires
        scratch <= 0xFFFF_FFFF,
    ensures
        n == scratch + SCRATCH_BLOCKS,
{
    scratch + SCRATCH_BLOCKS
}

/// The scratch area has room for every region.
pub proof fn law_scratch_holds_every_region()
    ensures
        crate::layout::S_END <= SCRATCH_BLOCKS,
{
}

// --- audio ------------------------------------------------------------------------------

/// Why a file is no audio that the board takes.
#[derive(Clone, Copy, PartialEq, Eq, Structural, Debug)]
pub enum PcmError {
    /// Channels, rate and bits are not 1, 16000 and 16.
    Format { channels: u16, rate: u32, bits: u16 },
    /// The samples come before their format.
    DataFirst,
    NoData,
}

/// The 16-bit sample at byte `o`.
pub open spec fn sample_at(b: Seq<u8>, o: int) -> i16 {
    (if le16(b, o) >= 0x8000 {
        le16(b, o) - 0x1_0000
    } else {
        le16(b, o)
    }) as i16
}

/// The samples of the bytes from `lo` to `hi`, an odd byte left out.
pub open spec fn samples(b: Seq<u8>, lo: int, hi: int) -> Seq<i16> {
    Seq::new(((hi - lo) / 2) as nat, |i: int| sample_at(b, lo + 2 * i))
}

/// A file with a RIFF header of audio.
pub open spec fn is_riff(b: Seq<u8>) -> bool {
    b.len() >= 12 && b[0] == 0x52 && b[1] == 0x49 && b[2] == 0x46 && b[3] == 0x46 && b[8] == 0x57
        && b[9] == 0x41 && b[10] == 0x56 && b[11] == 0x45
}

/// The chunk at `pos` is a format.
pub open spec fn is_fmt(b: Seq<u8>, pos: int) -> bool {
    b[pos] == 0x66 && b[pos + 1] == 0x6D && b[pos + 2] == 0x74 && b[pos + 3] == 0x20
}

/// The chunk at `pos` has samples.
pub open spec fn is_data(b: Seq<u8>, pos: int) -> bool {
    b[pos] == 0x64 && b[pos + 1] == 0x61 && b[pos + 2] == 0x74 && b[pos + 3] == 0x61
}

/// The format chunk with this body is the board's.
pub open spec fn good_format(b: Seq<u8>, body: int) -> bool {
    le16(b, body + 2) == 1 && le32(b, body + 4) == 16000 && le16(b, body + 14) == 16
}

/// What a walk over the chunks from `pos` on finds; `fmt` says that a format
/// came.
pub open spec fn chunks(b: Seq<u8>, pos: int, fmt: bool) -> Result<(int, int), PcmError>
    decreases
            if pos <= b.len() {
                b.len() - pos + 1
            } else {
                0
            },
{
    if pos + 8 > b.len() {
        Err(PcmError::NoData)
    } else {
        let size = le32(b, pos + 4);
        let body = pos + 8;
        let next = body + size + size % 2;
        if is_fmt(b, pos) && body + 16 <= b.len() {
            if good_format(b, body) {
                chunks(b, next, true)
            } else {
                Err(
                    PcmError::Format {
                        channels: le16(b, body + 2) as u16,
                        rate: le32(b, body + 4) as u32,
                        bits: le16(b, body + 14) as u16,
                    },
                )
            }
        } else if is_data(b, pos) {
            if fmt {
                Ok(
                    (
                        body,
                        if body + size < b.len() {
                            body + size
                        } else {
                            b.len() as int
                        },
                    ),
                )
            } else {
                Err(PcmError::DataFirst)
            }
        } else {
            chunks(b, next, fmt)
        }
    }
}

/// The samples of a file: of its data chunk, or of all of it if it has no
/// header.
pub open spec fn pcm_of(b: Seq<u8>) -> Result<Seq<i16>, PcmError> {
    if is_riff(b) {
        match chunks(b, 12, false) {
            Ok((lo, hi)) => Ok(samples(b, lo, hi)),
            Err(e) => Err(e),
        }
    } else {
        Ok(samples(b, 0, b.len() as int))
    }
}

fn read_samples(b: &[u8], lo: usize, hi: usize) -> (v: Vec<i16>)
    requires
        lo <= hi <= b@.len(),
    ensures
        v@ == samples(b@, lo as int, hi as int),
{
    let n: usize = (hi - lo) / 2;
    let mut v: Vec<i16> = Vec::new();
    let mut i: usize = 0;
    while i < n
        invariant
            i <= n,
            n == (hi - lo) / 2,
            lo <= hi <= b@.len(),
            v@.len() == i,
            forall|k: int| 0 <= k < i ==> #[trigger] v@[k] == sample_at(b@, lo + 2 * k),
        decreases n - i,
    {
        let w: u16 = get16(b, lo + 2 * i);
        let x: i16 = if w >= 0x8000 {
            (w as i32 - 0x1_0000) as i16
        } else {
            w as i16
        };
        v.push(x);
        i = i + 1;
    }
    assert(v@ =~= samples(b@, lo as int, hi as int));
    v
}

/// Reads mono 16 kHz 16-bit samples out of a file with or without header.
pub fn load_pcm(b: &[u8]) -> (r: Result<Vec<i16>, PcmError>)
    ensures
        match pcm_of(b@) {
            Ok(s) => r matches Ok(v) && v@ == s,
            Err(e) => r == Err::<Vec<i16>, PcmError>(e),
        },
{
    let total: usize = b.len();
    let riff = total >= 12 && b[0] == 0x52 && b[1] == 0x49 && b[2] == 0x46 && b[3] == 0x46 && b[8]
        == 0x57 && b[9] == 0x41 && b[10] == 0x56 && b[11] == 0x45;
    if !riff {
        return Ok(read_samples(b, 0, total));
    }
    let mut pos: usize = 12;
    let mut fmt = false;
    while pos <= total && total - pos >= 8
        invariant
            total == b@.len(),
            is_riff(b@),
            pos >= 12,
            chunks(b@, 12, false) == chunks(b@, pos as int, fmt),
        decreases total + 1 - (if pos <= total {
            pos as int
        } else {
            total + 1
        }),
    {
        let size: usize = get32(b, pos + 4) as usize;
        let body: usize = pos + 8;
        let ghost had = fmt;
        let f = b[pos] == 0x66 && b[pos + 1] == 0x6D && b[pos + 2] == 0x74 && b[pos + 3] == 0x20;
        if f && total - body >= 16 {
            let channels: u16 = get16(b, body + 2);
            let rate: u32 = get32(b, body + 4);
            let bits: u16 = get16(b, body + 14);
            if channels != 1 || rate != 16000 || bits != 16 {
                return Err(PcmError::Format { channels, rate, bits });
            }
            fmt = true;
        } else if b[pos] == 0x64 && b[pos + 1] == 0x61 && b[pos + 2] == 0x74 && b[pos + 3] == 0x61 {
            if !fmt {
                return Err(PcmError::DataFirst);
            }
            let hi: usize = if size < total - body {
                body + size
            } else {
                total
            };
            return Ok(read_samples(b, body, hi));
        }
        assert(chunks(b@, pos as int, had) == chunks(b@, body + size + size % 2, fmt));
        if size > total - body || size + size % 2 > total - body {
            assert(chunks(b@, body + size + size % 2, fmt) == Err::<(int, int), PcmError>(
                PcmError::NoData,
            ));
            return Err(PcmError::NoData);
        }
        pos = body + size + size % 2;
    }
    Err(PcmError::NoData)
}

/// Cut or padded with silence to the length of a recording.
pub open spec fn fitted(pcm: Seq<i16>) -> Seq<i16> {
    Seq::new(192000, |i: int| if i < pcm.len() { pcm[i] } else { 0i16 })
}

/// The bytes of a recording, 16 bits each, the least significant first.
pub open spec fn pcm_bytes(pcm: Seq<i16>) -> Seq<u8> {
    Seq::new(
        2 * pcm.len(),
        |i: int|
            ({
                let w = if pcm[i / 2] < 0 {
                    pcm[i / 2] + 0x1_0000
                } else {
                    pcm[i / 2] as int
                };
                if i % 2 == 0 {
                    (w % 256) as u8
                } else {
                    (w / 256) as u8
                }
            }),
    )
}

/// The bytes of a clip in place of a recording.
pub fn inject_bytes(pcm: &[i16]) -> (b: Vec<u8>)
    ensures
        b@ == pcm_bytes(fitted(pcm@)),
{
    let mut b: Vec<u8> = Vec::new();
    let mut i: usize = 0;
    while i < N_SAMPLES
        invariant
            i <= 192000,
            b@.len() == 2 * i,
            forall|k: int| 0 <= k < 2 * i ==> #[trigger] b@[k] == pcm_bytes(fitted(pcm@))[k],
        decreases 192000 - i,
    {
        let x: i16 = if i < pcm.len() {
            pcm[i]
        } else {
            0
        };
        let w: u32 = if x < 0 {
            (x as i32 + 0x1_0000) as u32
        } else {
            x as u32
        };
        let ghost before = b@;
        b.push((w % 256) as u8);
        b.push((w / 256) as u8);
        proof {
            let whole = pcm_bytes(fitted(pcm@));
            assert forall|k: int| 0 <= k < 2 * (i + 1) implies #[trigger] b@[k] == whole[k] by {
                if k < 2 * i {
                    assert(b@[k] == before[k]);
                } else {
                    assert(k / 2 == i);
                    assert(fitted(pcm@)[i as int] == x);
                }
            }
        }
        i = i + 1;
    }
    assert(b@ =~= pcm_bytes(fitted(pcm@)));
    b
}

/// Samples come back out of their bytes.
pub proof fn law_samples_come_back(pcm: Seq<i16>)
    ensures
        samples(pcm_bytes(pcm), 0, 2 * pcm.len() as int) == pcm,
{
    let b = pcm_bytes(pcm);
    assert forall|i: int| 0 <= i < pcm.len() implies #[trigger] samples(
        b,
        0,
        2 * pcm.len() as int,
    )[i] == pcm[i] by {
        assert((2 * i) / 2 == i && (2 * i + 1) / 2 == i);
        assert((2 * i) % 2 == 0 && (2 * i + 1) % 2 == 1);
    }
    assert(samples(b, 0, 2 * pcm.len() as int) =~= pcm);
}

/// The block that tells the board of a clip.
pub open spec fn marker_block() -> Seq<u8> {
    with_le32(
        with_le32(
            Seq::new(
                512,
                |i: int|
                    if i < 8 {
                        inject_marker()[i]
                    } else {
                        0u8
                    },
            ),
            8,
            N_SAMPLES as int,
        ),
        12,
        16000,
    )
}

pub fn inject_block() -> (b: Vec<u8>)
    ensures
        b@ == marker_block(),
{
    let m: &[u8] = "WMOCKAU1".as_bytes();
    proof {
        broadcast use is_ascii_spec_bytes;

        reveal_strlit("WMOCKAU1");
        assert("WMOCKAU1".is_ascii());
        assert(m@.len() == 8);
    }
    let mut b: Vec<u8> = vec![0u8; BLOCK];
    let mut i: usize = 0;
    while i < 8
        invariant
            i <= 8,
            m@.len() == 8,
            m@ == inject_marker(),
            b@.len() == 512,
            forall|k: int|
                0 <= k < 512 ==> #[trigger] b@[k] == (if k < i {
                    inject_marker()[k]
                } else {
                    0u8
                }),
        decreases 8 - i,
    {
        b.set(i, m[i]);
        i = i + 1;
    }
    assert(b@ =~= Seq::new(
        512,
        |i: int|
            if i < 8 {
                inject_marker()[i]
            } else {
                0u8
            },
    ));
    put32(b.as_mut_slice(), 8, N_SAMPLES as u32);
    put32(b.as_mut_slice(), 12, 16000);
    b
}

/// Where the marker is, behind the start of the scratch area.
pub fn marker_lba(scratch: u64) -> (b: u64)
    requires
        scratch <= 0xFFFF_FFFF,
    ensures
        b == scratch + S_INJECT,
{
    scratch + S_INJECT as u64
}

/// The board takes the marker for one, with all of the samples.
pub proof fn law_the_marker_is_seen()
    ensures
        marker_block().len() == 512,
        marker_block().take(8) == inject_marker(),
        le32(marker_block(), 8) == N_SAMPLES,
{
    broadcast use is_ascii_spec_bytes;

    reveal_strlit("WMOCKAU1");
    assert("WMOCKAU1".is_ascii());
    let s = Seq::new(
        512,
        |i: int|
            if i < 8 {
                inject_marker()[i]
            } else {
                0u8
            },
    );
    let m = with_le32(s, 8, N_SAMPLES as int);
    crate::bytes::law_le32_round_trip(s, 8, N_SAMPLES as u32);
    assert(marker_block()[8] == m[8] && marker_block()[9] == m[9] && marker_block()[10] == m[10]
        && marker_block()[11] == m[11]);
    assert(marker_block().take(8) =~= inject_marker());
}

/// A file with the usual header: format, then samples.
pub open spec fn wav_file(pcm: Seq<i16>) -> Seq<u8> {
    let n = 2 * pcm.len() as int;
    seq![
        0x52u8, 0x49, 0x46, 0x46,
        byte_of(n + 36, 0), byte_of(n + 36, 1), byte_of(n + 36, 2), byte_of(n + 36, 3),
        0x57, 0x41, 0x56, 0x45,
        0x66, 0x6D, 0x74, 0x20, 16, 0, 0, 0,
        1, 0, 1, 0,
        0x80, 0x3E, 0, 0,
        0, 0x7D, 0, 0,
        2, 0, 16, 0,
        0x64, 0x61, 0x74, 0x61,
        byte_of(n, 0), byte_of(n, 1), byte_of(n, 2), byte_of(n, 3),
    ] + pcm_bytes(pcm)
}

/// An ordinary file of 16 kHz mono samples gives its samples.
pub proof fn law_an_ordinary_file_gives_its_samples(pcm: Seq<i16>)
    requires
        2 * pcm.len() + 36 < 0x1_0000_0000,
    ensures
        pcm_of(wav_file(pcm)) == Ok::<Seq<i16>, PcmError>(pcm),
{
    let b = wav_file(pcm);
    let n = 2 * pcm.len() as int;
    law_bytes_make_the_value(n as u32);
    assert(b.len() == 44 + n);
    assert(is_riff(b));
    assert(is_fmt(b, 12) && le32(b, 16) == 16);
    assert(good_format(b, 20));
    assert(!is_fmt(b, 36) && is_data(b, 36));
    assert(le32(b, 40) == n);
    assert(chunks(b, 36, true) == Ok::<(int, int), PcmError>((44, 44 + n)));
    assert(chunks(b, 12, false) == chunks(b, 36, true));
    law_samples_come_back(pcm);
    assert forall|i: int| 0 <= i < pcm.len() implies #[trigger] samples(b, 44, 44 + n)[i]
        == pcm[i] by {
        assert(samples(pcm_bytes(pcm), 0, n)[i] == pcm[i]);
        assert(b[44 + 2 * i] == pcm_bytes(pcm)[2 * i]);
        assert(b[44 + 2 * i + 1] == pcm_bytes(pcm)[2 * i + 1]);
    }
    assert(samples(b, 44, 44 + n) =~= pcm);
}

/// Chunks of other kinds are passed over, with the byte that fills an odd one
/// up.
pub proof fn law_other_chunks_are_passed_over(b: Seq<u8>, pos: int, size: int, fmt: bool)
    requires
        0 <= pos,
        pos + 8 <= b.len(),
        !is_fmt(b, pos),
        !is_data(b, pos),
        size == b[pos + 4] + 256 * b[pos + 5] + 65536 * b[pos + 6] + 16777216 * b[pos + 7],
    ensures
        size % 2 == 0 ==> chunks(b, pos, fmt) == chunks(b, pos + 8 + size, fmt),
        size % 2 == 1 ==> chunks(b, pos, fmt) == chunks(b, pos + 9 + size, fmt),
{
}

/// A clip fills the whole window: its samples, as far as they fit, and then
/// silence.
pub proof fn law_a_clip_fills_the_window(pcm: Seq<i16>, i: int)
    requires
        0 <= i < 192000,
    ensures
        fitted(pcm).len() == 192000,
        i < pcm.len() ==> fitted(pcm)[i] == pcm[i],
        i >= pcm.len() ==> fitted(pcm)[i] == 0,
{
}

/// A request for blocks that exist is served, one for others is refused, and
/// every answer carries its request's tag.
pub proof fn law_requests_stay_inside(r: Request, total: u64)
    ensures
        r.op == OP_READ && r.lba + r.count <= total ==> serve_of(r, total) == Serve::Load(r),
        serve_of(r, total) matches Serve::Load(x) ==> x == r && r.lba + r.count <= total,
        serve_of(r, total) matches Serve::Reply(x) ==> x.tag == r.tag,
        serve_of(r, total) matches Serve::Reply(x) ==> (x.status == 0 <==> r.op == OP_INFO),
        r.op == OP_INFO ==> serve_of(r, total) is Reply,
        r.op == OP_WRITE ==> serve_of(r, total) == Serve::Take(r),
{
}

/// The entry that is taken for the plan is the one that the image's index
/// calls so.
pub proof fn law_the_plan_is_found_by_its_name(hdr: Seq<u8>, i: int)
    requires
        0 <= i,
        16 + 32 * i + 32 <= hdr.len(),
        names_plan(hdr, i),
    ensures
        entry_name(hdr, i) == seq![0x70u8, 0x6C, 0x61, 0x6E],
{
    let e = 16 + 32 * i;
    assert(hdr[e + 4] == 0);
    reveal_with_fuel(name_len, 6);
    assert(name_len(hdr, e, 4) == 4);
    assert(name_len(hdr, e, 0) == 4);
    assert(entry_name(hdr, i) =~= seq![0x70u8, 0x6C, 0x61, 0x6E]);
}

/// The plan is the first entry that is called so.
pub proof fn law_the_first_plan_is_taken(hdr: Seq<u8>, i: int, n: int)
    requires
        0 <= i <= n,
    ensures
        match plan_entry(hdr, i, n) {
            Some(k) => i <= k < n && names_plan(hdr, k) && forall|j: int|
                i <= j < k ==> !#[trigger] names_plan(hdr, j),
            None => forall|j: int| i <= j < n ==> !#[trigger] names_plan(hdr, j),
        },
    decreases n - i,
{
    if i < n && !names_plan(hdr, i) {
        law_the_first_plan_is_taken(hdr, i + 1, n);
    }
}

} // verus!
