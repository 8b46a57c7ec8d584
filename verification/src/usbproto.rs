//! USB protocol building and parsing for the host mass-storage path:
//! control setup packets, configuration-descriptor walking, bulk-only
//! transport framing and the SCSI command blocks a USB stick needs.

use crate::bytes::{byte_of, get32, law_bytes_make_the_value, le16, le32};
use vstd::prelude::*;

verus! {

/// Standard requests used during enumeration.
pub const REQ_GET_DESCRIPTOR: u8 = 6;

pub const REQ_SET_ADDRESS: u8 = 5;

pub const REQ_SET_CONFIGURATION: u8 = 9;

pub const REQ_CLEAR_FEATURE: u8 = 1;

/// Class request: bulk-only mass-storage reset.
pub const REQ_MSC_RESET: u8 = 0xFF;

pub const DESC_DEVICE: u16 = 0x0100;

pub const DESC_CONFIG: u16 = 0x0200;

pub const FEATURE_ENDPOINT_HALT: u16 = 0;

/// Not a configuration descriptor.
pub const E_NOT_CONFIG: i32 = -630;

/// Malformed descriptor chain.
pub const E_CHAIN: i32 = -631;

/// No bulk-only mass-storage interface with both endpoints.
pub const E_NO_MSC: i32 = -632;

/// The status wrapper is short, is none, or answers another command.
pub const E_CSW_SHORT: i32 = -633;

pub const E_CSW_SIG: i32 = -634;

pub const E_CSW_TAG: i32 = -635;

/// The 8-byte SETUP packet (USB 2.0, 9.3).
pub fn setup(bm_req_type: u8, b_request: u8, w_value: u16, w_index: u16, w_length: u16) -> (p: [u8;
    8])
    ensures
        p@ == seq![
            bm_req_type,
            b_request,
            byte_of(w_value as int, 0),
            byte_of(w_value as int, 1),
            byte_of(w_index as int, 0),
            byte_of(w_index as int, 1),
            byte_of(w_length as int, 0),
            byte_of(w_length as int, 1),
        ],
{
    let p = [
        bm_req_type,
        b_request,
        (w_value % 256) as u8,
        (w_value / 256 % 256) as u8,
        (w_index % 256) as u8,
        (w_index / 256 % 256) as u8,
        (w_length % 256) as u8,
        (w_length / 256 % 256) as u8,
    ];
    assert(p@ =~= seq![
        bm_req_type,
        b_request,
        byte_of(w_value as int, 0),
        byte_of(w_value as int, 1),
        byte_of(w_index as int, 0),
        byte_of(w_index as int, 1),
        byte_of(w_length as int, 0),
        byte_of(w_length as int, 1),
    ]);
    p
}

/// What enumeration needs to know about the stick's mass-storage function.
#[derive(Clone, Copy, PartialEq, Eq, Structural, Debug)]
pub struct MscIface {
    pub cfg_value: u8,
    pub ifnum: u8,
    /// Endpoint numbers with the direction bit stripped.
    pub ep_in: u8,
    pub ep_out: u8,
    pub mps_in: u16,
    pub mps_out: u16,
}

impl Default for MscIface {
    fn default() -> (m: Self)
        ensures
            m == (MscIface {
                cfg_value: 0,
                ifnum: 0,
                ep_in: 0,
                ep_out: 0,
                mps_in: 0,
                mps_out: 0,
            }),
    {
        MscIface { cfg_value: 0, ifnum: 0, ep_in: 0, ep_out: 0, mps_in: 0, mps_out: 0 }
    }
}

/// The descriptor at `p` is an interface descriptor.
pub open spec fn is_interface(d: Seq<u8>, p: int) -> bool {
    d[p + 1] == 4 && d[p] >= 9
}

/// ... of a bulk-only mass-storage function, alternate setting 0.
pub open spec fn is_msc_interface(d: Seq<u8>, p: int) -> bool {
    is_interface(d, p) && d[p + 3] == 0 && d[p + 5] == 0x08 && d[p + 6] == 0x06 && d[p + 7] == 0x50
}

/// The descriptor at `p` is a bulk endpoint in the given direction.
pub open spec fn is_bulk_endpoint(d: Seq<u8>, p: int, dir_in: bool) -> bool {
    d[p + 1] == 5 && d[p] >= 7 && d[p + 3] % 4 == 2 && (d[p + 2] >= 128) == dir_in
}

/// Packet size of the endpoint descriptor at `p` (11 bits).
pub open spec fn endpoint_mps(d: Seq<u8>, p: int) -> u16 {
    (le16(d, p + 4) % 2048) as u16
}

/// The descriptor at `p` runs past the buffer or cannot be stepped over.
pub open spec fn is_malformed(d: Seq<u8>, p: int) -> bool {
    d[p] < 2 || p + d[p] > d.len()
}

/// What a walk over the descriptors has found so far: the function under
/// construction and where in the buffer its parts came from.
pub ghost struct Scan {
    pub m: MscIface,
    /// The last interface descriptor was a mass-storage one.
    pub in_msc: bool,
    /// Offset of the last mass-storage interface descriptor.
    pub at_iface: int,
    /// Offsets of the endpoint descriptors that were taken.
    pub at_in: int,
    pub at_out: int,
}

/// The walk before the first descriptor after the configuration header.
pub open spec fn scan_start(d: Seq<u8>) -> Scan {
    Scan {
        m: MscIface { cfg_value: d[5], ifnum: 0, ep_in: 0, ep_out: 0, mps_in: 0, mps_out: 0 },
        in_msc: false,
        at_iface: 0,
        at_in: 0,
        at_out: 0,
    }
}

/// A complete function is followed by another interface: nothing later can
/// belong to it.
pub open spec fn scan_ends(d: Seq<u8>, p: int, s: Scan) -> bool {
    is_interface(d, p) && s.in_msc && s.m.ep_in != 0 && s.m.ep_out != 0
}

/// The walk after the descriptor at `p`. An interface descriptor opens or
/// closes the mass-storage function; the first bulk endpoint of each
/// direction inside it is taken.
pub open spec fn scan_over(d: Seq<u8>, p: int, s: Scan) -> Scan {
    if is_msc_interface(d, p) {
        Scan {
            m: MscIface { ifnum: d[p + 2], ep_in: 0, ep_out: 0, ..s.m },
            in_msc: true,
            at_iface: p,
            ..s
        }
    } else if is_interface(d, p) {
        Scan { in_msc: false, ..s }
    } else if s.in_msc && is_bulk_endpoint(d, p, true) && s.m.ep_in == 0 {
        Scan {
            m: MscIface { ep_in: (d[p + 2] % 16) as u8, mps_in: endpoint_mps(d, p), ..s.m },
            at_in: p,
            ..s
        }
    } else if s.in_msc && is_bulk_endpoint(d, p, false) && s.m.ep_out == 0 {
        Scan {
            m: MscIface { ep_out: (d[p + 2] % 16) as u8, mps_out: endpoint_mps(d, p), ..s.m },
            at_out: p,
            ..s
        }
    } else {
        s
    }
}

/// The whole walk from offset `p` on: the function found, or the error.
pub open spec fn scan_from(d: Seq<u8>, p: int, s: Scan) -> Result<Scan, i32>
    decreases d.len() - p,
{
    if p + 2 > d.len() || scan_ends(d, p, s) && !is_malformed(d, p) {
        if s.m.ep_in == 0 || s.m.ep_out == 0 {
            Err(E_NO_MSC)
        } else {
            Ok(s)
        }
    } else if is_malformed(d, p) {
        Err(E_CHAIN)
    } else {
        scan_from(d, p + d[p], scan_over(d, p, s))
    }
}

/// What a configuration descriptor says: `E_NOT_CONFIG` when it is none, `E_CHAIN` when
/// the chain is malformed before the function is complete, `E_NO_MSC` when it
/// holds no bulk-only mass-storage function with both endpoints.
pub open spec fn config_scan(d: Seq<u8>) -> Result<Scan, i32> {
    if d.len() < 9 || d[1] != 2 {
        Err(E_NOT_CONFIG)
    } else {
        scan_from(d, d[0] as int, scan_start(d))
    }
}

/// `config_scan` without the offsets.
pub open spec fn config_function(d: Seq<u8>) -> Result<MscIface, i32> {
    match config_scan(d) {
        Ok(s) => Ok(s.m),
        Err(e) => Err(e),
    }
}

/// Every part of a finished walk comes from the descriptors it names.
pub open spec fn scan_sound(d: Seq<u8>, p: int, s: Scan) -> bool {
    &&& s.in_msc ==> 0 <= s.at_iface < p && is_msc_interface(d, s.at_iface) && s.m.ifnum
        == d[s.at_iface + 2]
    &&& s.m.ep_in != 0 ==> {
        &&& 0 <= s.at_iface < s.at_in < p
        &&& is_msc_interface(d, s.at_iface)
        &&& s.m.ifnum == d[s.at_iface + 2]
        &&& is_bulk_endpoint(d, s.at_in, true)
        &&& s.m.ep_in == d[s.at_in + 2] % 16
        &&& s.m.mps_in == endpoint_mps(d, s.at_in)
    }
    &&& s.m.ep_out != 0 ==> {
        &&& 0 <= s.at_iface < s.at_out < p
        &&& is_msc_interface(d, s.at_iface)
        &&& s.m.ifnum == d[s.at_iface + 2]
        &&& is_bulk_endpoint(d, s.at_out, false)
        &&& s.m.ep_out == d[s.at_out + 2] % 16
        &&& s.m.mps_out == endpoint_mps(d, s.at_out)
    }
}

proof fn lemma_scan_sound(d: Seq<u8>, p: int, s: Scan)
    requires
        0 <= p,
        scan_sound(d, p, s),
        p <= d.len() || s.m.ep_in == 0,
        s.m.cfg_value == d[5],
        scan_from(d, p, s) is Ok,
    ensures
        scan_sound(d, d.len() as int, scan_from(d, p, s)->Ok_0),
        scan_from(d, p, s)->Ok_0.m.ep_in != 0,
        scan_from(d, p, s)->Ok_0.m.ep_out != 0,
        scan_from(d, p, s)->Ok_0.m.cfg_value == d[5],
    decreases d.len() - p,
{
    if p + 2 > d.len() || scan_ends(d, p, s) && !is_malformed(d, p) {
    } else {
        lemma_scan_sound(d, p + d[p], scan_over(d, p, s));
    }
}

/// A function that is found is really there: its interface number stands in
/// a bulk-only mass-storage interface descriptor, and each endpoint stands
/// in a bulk endpoint descriptor of its direction behind that interface.
pub proof fn law_found_function_is_in_the_descriptor(d: Seq<u8>)
    requires
        config_scan(d) is Ok,
    ensures
        ({
            let s = config_scan(d)->Ok_0;
            &&& s.m.cfg_value == d[5]
            &&& 0 <= s.at_iface < s.at_in < d.len()
            &&& s.at_iface < s.at_out < d.len()
            &&& is_msc_interface(d, s.at_iface)
            &&& s.m.ifnum == d[s.at_iface + 2]
            &&& is_bulk_endpoint(d, s.at_in, true)
            &&& s.m.ep_in == d[s.at_in + 2] % 16 && s.m.ep_in != 0
            &&& s.m.mps_in == endpoint_mps(d, s.at_in)
            &&& is_bulk_endpoint(d, s.at_out, false)
            &&& s.m.ep_out == d[s.at_out + 2] % 16 && s.m.ep_out != 0
            &&& s.m.mps_out == endpoint_mps(d, s.at_out)
        }),
{
    lemma_scan_sound(d, d[0] as int, scan_start(d));
}

/// Walks a configuration descriptor (the full wTotalLength read) and finds
/// the first mass-storage bulk-only interface (class 8, subclass 6,
/// protocol 0x50, alternate setting 0) with both bulk endpoints.
/// Composite devices interleave other interfaces; endpoints are assigned
/// to the interface descriptor that precedes them.
pub fn parse_config(d: &[u8]) -> (r: Result<MscIface, i32>)
    ensures
        r == config_function(d@),
{
    if d.len() < 9 || d[1] != 2 {
        return Err(E_NOT_CONFIG);
    }
    let mut m = MscIface {
        cfg_value: d[5],
        ifnum: 0,
        ep_in: 0,
        ep_out: 0,
        mps_in: 0,
        mps_out: 0,
    };
    let mut in_msc: bool = false;
    let mut p: usize = d[0] as usize;
    let ghost mut s = scan_start(d@);
    while p < d.len() && d.len() - p >= 2
        invariant
            d@.len() >= 9,
            d@[1] == 2,
            s.m == m,
            s.in_msc == in_msc,
            config_scan(d@) == scan_from(d@, p as int, s),
        decreases d@.len() - p,
    {
        let len: usize = d[p] as usize;
        if len < 2 || len > d.len() - p {
            return Err(E_CHAIN);
        }
        let kind: u8 = d[p + 1];
        let ghost before = s;
        proof {
            s = scan_over(d@, p as int, s);
        }
        if kind == 4 && len >= 9 {
            if in_msc && m.ep_in != 0 && m.ep_out != 0 {
                return Ok(m);
            }
            in_msc = d[p + 3] == 0 && d[p + 5] == 0x08 && d[p + 6] == 0x06 && d[p + 7] == 0x50;
            if in_msc {
                m.ifnum = d[p + 2];
                m.ep_in = 0;
                m.ep_out = 0;
            }
        } else if kind == 5 && len >= 7 && in_msc {
            let addr: u8 = d[p + 2];
            let bulk: bool = d[p + 3] % 4 == 2;
            let mps: u16 = ((d[p + 4] as u32 + 256 * (d[p + 5] as u32)) % 2048) as u16;
            if bulk && addr >= 128 && m.ep_in == 0 {
                m.ep_in = addr % 16;
                m.mps_in = mps;
            } else if bulk && addr < 128 && m.ep_out == 0 {
                m.ep_out = addr % 16;
                m.mps_out = mps;
            }
        }
        assert(scan_from(d@, p as int, before) == scan_from(d@, p + len, s));
        p = p + len;
    }
    if m.ep_in == 0 || m.ep_out == 0 {
        return Err(E_NO_MSC);
    }
    Ok(m)
}

// --- bulk-only transport ------------------------------------------------------

pub const CBW_LEN: usize = 31;

pub const CSW_LEN: usize = 13;

/// "USBC"
pub const CBW_SIG: u32 = 0x4342_5355;

/// "USBS"
pub const CSW_SIG: u32 = 0x5342_5355;

/// The command block wrapper of BOT 1.0, 5.1: signature, tag, data length,
/// direction, LUN 0, command length and the command, zero padded.
pub open spec fn cbw(tag: u32, data_len: u32, dir_in: bool, cb: Seq<u8>) -> Seq<u8> {
    Seq::new(
        32,
        |i: int|
            if i < 4 {
                byte_of(CBW_SIG as int, i)
            } else if i < 8 {
                byte_of(tag as int, i - 4)
            } else if i < 12 {
                byte_of(data_len as int, i - 8)
            } else if i == 12 {
                if dir_in {
                    0x80u8
                } else {
                    0u8
                }
            } else if i == 14 {
                cb.len() as u8
            } else if 15 <= i < 15 + cb.len() {
                cb[i - 15]
            } else {
                0u8
            },
    )
}

/// Fills a 31-byte command block wrapper. `dir_in` is the data-phase
/// direction (ignored by devices when `data_len` is 0).
pub fn build_cbw(buf: &mut [u8; 32], tag: u32, data_len: u32, dir_in: bool, cb: &[u8])
    requires
        cb@.len() <= 17,
    ensures
        final(buf)@ == cbw(tag, data_len, dir_in, cb@),
{
    let mut i: usize = 0;
    while i < 32
        invariant
            i <= 32,
            forall|k: int| 0 <= k < i ==> buf@[k] == 0,
        decreases 32 - i,
    {
        buf[i] = 0;
        i = i + 1;
    }
    buf[0] = 0x55;
    buf[1] = 0x53;
    buf[2] = 0x42;
    buf[3] = 0x43;
    buf[4] = (tag % 256) as u8;
    buf[5] = (tag / 256 % 256) as u8;
    buf[6] = (tag / 65536 % 256) as u8;
    buf[7] = (tag / 16777216 % 256) as u8;
    buf[8] = (data_len % 256) as u8;
    buf[9] = (data_len / 256 % 256) as u8;
    buf[10] = (data_len / 65536 % 256) as u8;
    buf[11] = (data_len / 16777216 % 256) as u8;
    if dir_in {
        buf[12] = 0x80;
    }
    buf[14] = cb.len() as u8;
    let ghost head = buf@;
    let mut k: usize = 0;
    while k < cb.len()
        invariant
            k <= cb@.len() <= 17,
            head.len() == 32,
            forall|j: int|
                0 <= j < 32 ==> buf@[j] == if 15 <= j < 15 + k {
                    cb@[j - 15]
                } else {
                    head[j]
                },
        decreases cb@.len() - k,
    {
        buf[15 + k] = cb[k];
        k = k + 1;
    }
    assert(buf@ =~= cbw(tag, data_len, dir_in, cb@));
}

/// What a command status wrapper says of the command with this tag.
pub open spec fn csw_status(raw: Seq<u8>, tag: u32) -> Result<u8, i32> {
    if raw.len() < CSW_LEN {
        Err(E_CSW_SHORT)
    } else if le32(raw, 0) != CSW_SIG {
        Err(E_CSW_SIG)
    } else if le32(raw, 4) != tag {
        Err(E_CSW_TAG)
    } else {
        Ok(raw[12])
    }
}

/// Validates a command status wrapper against the CBW tag. Returns the
/// status byte: 0 passed, 1 command failed (read the sense data), 2 phase
/// error (reset recovery required).
pub fn check_csw(raw: &[u8], tag: u32) -> (r: Result<u8, i32>)
    ensures
        r == csw_status(raw@, tag),
{
    if raw.len() < CSW_LEN {
        return Err(E_CSW_SHORT);
    }
    if get32(raw, 0) != CSW_SIG {
        return Err(E_CSW_SIG);
    }
    if get32(raw, 4) != tag {
        return Err(E_CSW_TAG);
    }
    Ok(raw[12])
}

/// A wrapper holds its tag and its data length where the device and the
/// status check look for them, and two wrappers with different tags or
/// lengths differ.
pub proof fn law_cbw_fields(tag: u32, data_len: u32, dir_in: bool, cb: Seq<u8>)
    requires
        cb.len() <= 16,
    ensures
        le32(cbw(tag, data_len, dir_in, cb), 0) == CBW_SIG,
        le32(cbw(tag, data_len, dir_in, cb), 4) == tag,
        le32(cbw(tag, data_len, dir_in, cb), 8) == data_len,
        cbw(tag, data_len, dir_in, cb).subrange(15, 15 + cb.len() as int) == cb,
        cbw(tag, data_len, dir_in, cb)[31] == 0,
        // the direction is the top bit, and nothing else is in its byte
        cbw(tag, data_len, dir_in, cb)[12] == (if dir_in {
            128u8
        } else {
            0u8
        }),
        cbw(tag, data_len, dir_in, cb)[13] == 0,
        cbw(tag, data_len, dir_in, cb)[14] == cb.len(),
        forall|i: int|
            15 + cb.len() <= i < 31 ==> #[trigger] cbw(tag, data_len, dir_in, cb)[i] == 0,
{
    let c = cbw(tag, data_len, dir_in, cb);
    law_bytes_make_the_value(CBW_SIG);
    law_bytes_make_the_value(tag);
    law_bytes_make_the_value(data_len);
    assert(c[4] == byte_of(tag as int, 0) && c[5] == byte_of(tag as int, 1) && c[6] == byte_of(
        tag as int,
        2,
    ) && c[7] == byte_of(tag as int, 3));
    assert(c[8] == byte_of(data_len as int, 0) && c[9] == byte_of(data_len as int, 1) && c[10]
        == byte_of(data_len as int, 2) && c[11] == byte_of(data_len as int, 3));
    assert(c.subrange(15, 15 + cb.len() as int) =~= cb);
}

// --- SCSI command blocks ------------------------------------------------------

pub fn cdb_test_unit_ready() -> (c: [u8; 6])
    ensures
        c@ == seq![0u8, 0, 0, 0, 0, 0],
{
    let c = [0, 0, 0, 0, 0, 0];
    assert(c@ =~= seq![0u8, 0, 0, 0, 0, 0]);
    c
}

pub fn cdb_request_sense(alloc: u8) -> (c: [u8; 6])
    ensures
        c@ == seq![0x03u8, 0, 0, 0, alloc, 0],
{
    let c = [0x03, 0, 0, 0, alloc, 0];
    assert(c@ =~= seq![0x03u8, 0, 0, 0, alloc, 0]);
    c
}

pub fn cdb_inquiry(alloc: u8) -> (c: [u8; 6])
    ensures
        c@ == seq![0x12u8, 0, 0, 0, alloc, 0],
{
    let c = [0x12, 0, 0, 0, alloc, 0];
    assert(c@ =~= seq![0x12u8, 0, 0, 0, alloc, 0]);
    c
}

pub fn cdb_read_capacity10() -> (c: [u8; 10])
    ensures
        c@ == seq![0x25u8, 0, 0, 0, 0, 0, 0, 0, 0, 0],
{
    let c = [0x25, 0, 0, 0, 0, 0, 0, 0, 0, 0];
    assert(c@ =~= seq![0x25u8, 0, 0, 0, 0, 0, 0, 0, 0, 0]);
    c
}

/// A ten-byte block command: the opcode, the address and the count, most
/// significant byte first.
pub open spec fn cdb10(op: u8, lba: u32, count: u16) -> Seq<u8> {
    seq![
        op,
        0,
        byte_of(lba as int, 3),
        byte_of(lba as int, 2),
        byte_of(lba as int, 1),
        byte_of(lba as int, 0),
        0,
        byte_of(count as int, 1),
        byte_of(count as int, 0),
        0,
    ]
}

fn block_command(op: u8, lba: u32, count: u16) -> (c: [u8; 10])
    ensures
        c@ == cdb10(op, lba, count),
{
    let c = [
        op,
        0,
        (lba / 16777216 % 256) as u8,
        (lba / 65536 % 256) as u8,
        (lba / 256 % 256) as u8,
        (lba % 256) as u8,
        0,
        (count / 256 % 256) as u8,
        (count % 256) as u8,
        0,
    ];
    assert(c@ =~= cdb10(op, lba, count));
    c
}

pub fn cdb_read10(lba: u32, count: u16) -> (c: [u8; 10])
    ensures
        c@ == cdb10(0x28, lba, count),
{
    block_command(0x28, lba, count)
}

pub fn cdb_write10(lba: u32, count: u16) -> (c: [u8; 10])
    ensures
        c@ == cdb10(0x2A, lba, count),
{
    block_command(0x2A, lba, count)
}

/// Whoever reads a command block, most significant byte first, finds the
/// address and the number of blocks in it, and nothing else.
pub proof fn law_commands_carry_address_and_count(op: u8, lba: u32, count: u16)
    ensures
        ({
            let c = cdb10(op, lba, count);
            &&& c.len() == 10
            &&& c[0] == op
            &&& 16777216 * c[2] + 65536 * c[3] + 256 * c[4] + c[5] == lba
            &&& 256 * c[7] + c[8] == count
            &&& c[1] == 0 && c[6] == 0 && c[9] == 0
        }),
{
    law_bytes_make_the_value(lba);
    law_bytes_make_the_value(count as u32);
}

/// A status wrapper that answers this command hands its status on; one that
/// answers another does not.
pub proof fn law_a_status_comes_through(raw: Seq<u8>, tag: u32, other: u32)
    requires
        raw.len() >= 13,
        raw[0] == 0x55 && raw[1] == 0x53 && raw[2] == 0x42 && raw[3] == 0x53,
        raw[4] + 256 * raw[5] + 65536 * raw[6] + 16777216 * raw[7] == tag,
        other != tag,
    ensures
        csw_status(raw, tag) == Ok::<u8, i32>(raw[12]),
        csw_status(raw, other) is Err,
{
}

/// What is no status wrapper is refused.
pub proof fn law_only_a_status_wrapper_counts(raw: Seq<u8>, tag: u32)
    requires
        raw.len() < 13 || raw[0] != 0x55 || raw[1] != 0x53 || raw[2] != 0x42 || raw[3] != 0x53,
    ensures
        csw_status(raw, tag) is Err,
{
}

/// A configuration with one bulk-only drive, its endpoints in order.
pub open spec fn plain_drive(
    cfg: u8,
    ifnum: u8,
    ep_in: u8,
    ep_out: u8,
    mps_in: u16,
    mps_out: u16,
) -> Seq<u8> {
    seq![
        9u8, 2, 32, 0, 1, cfg, 0, 0x80, 50,
        9, 4, ifnum, 0, 2, 8, 6, 0x50, 0,
        7, 5, (0x80 + ep_in) as u8, 2, (mps_in % 256) as u8, (mps_in / 256) as u8, 0,
        7, 5, ep_out, 2, (mps_out % 256) as u8, (mps_out / 256) as u8, 0,
    ]
}

/// An ordinary drive is found, with its own interface, endpoints and packet
/// sizes.
pub proof fn law_an_ordinary_drive_is_found(
    cfg: u8,
    ifnum: u8,
    ep_in: u8,
    ep_out: u8,
    mps_in: u16,
    mps_out: u16,
)
    requires
        1 <= ep_in < 16,
        1 <= ep_out < 16,
        mps_in < 2048,
        mps_out < 2048,
    ensures
        config_function(plain_drive(cfg, ifnum, ep_in, ep_out, mps_in, mps_out)) == Ok::<
            MscIface,
            i32,
        >(MscIface { cfg_value: cfg, ifnum, ep_in, ep_out, mps_in, mps_out }),
{
    let d = plain_drive(cfg, ifnum, ep_in, ep_out, mps_in, mps_out);
    let s0 = scan_start(d);
    let s1 = scan_over(d, 9, s0);
    assert(s1.in_msc && s1.m.ifnum == ifnum && s1.m.ep_in == 0 && s1.m.ep_out == 0);
    let s2 = scan_over(d, 18, s1);
    assert(d[20] == 0x80 + ep_in);
    assert((0x80 + ep_in) % 16 == ep_in);
    assert(le16(d, 22) == mps_in);
    assert(s2.m.ep_in == ep_in && s2.m.mps_in == mps_in && s2.m.ep_out == 0);
    let s3 = scan_over(d, 25, s2);
    assert(le16(d, 29) == mps_out);
    assert(s3.m.ep_out == ep_out && s3.m.mps_out == mps_out);
    assert(scan_from(d, 32, s3) == Ok::<Scan, i32>(s3));
    assert(scan_from(d, 25, s2) == scan_from(d, 32, s3));
    assert(scan_from(d, 18, s1) == scan_from(d, 25, s2));
    assert(scan_from(d, 9, s0) == scan_from(d, 18, s1));
}

} // verus!
