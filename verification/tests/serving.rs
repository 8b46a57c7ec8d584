use whisper::capture::injected;
use whisper::host::{compare, symbols, symbols_of, Compared, ElfError, Symbols, Tally};
use whisper::mockblk::{
    build_request, build_response, response_parse, sum32, Act, Exchange, Request, Response,
    OP_INFO, OP_READ, OP_WRITE,
};
use whisper::server::{
    inject_block, inject_bytes, load_pcm, loaded, marker_lba, plan_lba, scratch_lba, serve, span,
    taken, total_blocks, ImageError, PcmError, Serve,
};

fn request(op: u8, lba: u32, count: u32, sum: u32) -> Request {
    Request { op, lba, count, sum, tag: 99 }
}

#[test]
fn a_write_and_a_read_over_the_link() {
    let mut img = vec![0u8; 512 * 100];
    let payload: Vec<u8> = (0..1024u32).map(|i| (i * 13 % 251) as u8).collect();
    let (mut x, req) = Exchange::begin(7, 40, 2, false, &payload);
    match serve(&build_request(req), 100) {
        Serve::Take(r) => {
            let (rsp, store) = taken(r, &payload, 100);
            assert!(store);
            assert_eq!(span(r), (40 * 512, 2 * 512));
            img[40 * 512..42 * 512].copy_from_slice(&payload);
            assert_eq!(x.moved(0, &payload), Act::Response);
            assert_eq!(x.answered(0, &build_response(rsp)), Act::Done(0));
        }
        _ => panic!("no write"),
    }
    let (mut y, req) = Exchange::begin(8, 40, 2, true, &[]);
    match serve(&build_request(req), 100) {
        Serve::Load(r) => {
            let back = &img[40 * 512..42 * 512];
            let rsp = loaded(r, back);
            assert_eq!(y.answered(0, &build_response(rsp)), Act::Receive);
            assert_eq!(y.moved(0, back), Act::Done(0));
            assert_eq!(back, payload);
        }
        _ => panic!("no read"),
    }
}

#[test]
fn refused_requests() {
    let refused = |s: Serve| match s {
        Serve::Reply(r) => r.status,
        _ => panic!("not refused"),
    };
    assert_eq!(refused(serve(&build_request(request(OP_READ, 99, 2, 0)), 100)), -1);
    assert_eq!(refused(serve(&build_request(request(9, 0, 0, 0)), 100)), -3);
    let p = [1u8; 512];
    let bad = request(OP_WRITE, 0, 1, 5);
    assert_eq!(taken(bad, &p, 100).0.status, -2);
    assert!(!taken(bad, &p, 100).1);
    let late = request(OP_WRITE, 100, 1, sum32(&p));
    assert_eq!(taken(late, &p, 100).0.status, -1);
    let mut torn = build_request(request(OP_READ, 0, 1, 0));
    torn[0] ^= 1;
    assert_eq!(serve(&torn, 100), Serve::Lost);
}

#[test]
fn the_image_is_announced() {
    assert_eq!(
        serve(&build_request(request(OP_INFO, 0, 0, 0)), 0x1_0000_0005),
        Serve::Reply(Response { status: 0, count: 5, sum: 0, tag: 99 })
    );
}

#[test]
fn answers_to_other_requests_are_refused() {
    let rsp = Response { status: 0, count: 1, sum: 2, tag: 5 };
    let f = build_response(rsp);
    assert_eq!(response_parse(&f, 5), Ok((0, 1, 2)));
    assert_eq!(response_parse(&f, 6), Err(-648));
    assert_eq!(response_parse(&[0; 512], 5), Err(-640));
}

fn header(names: &[(&str, u32)]) -> Vec<u8> {
    let mut h = vec![0u8; 8192];
    h[..8].copy_from_slice(b"WSPRIMG1");
    h[12..16].copy_from_slice(&(names.len() as u32).to_le_bytes());
    for (i, (n, lba)) in names.iter().enumerate() {
        let e = 16 + 32 * i;
        h[e..e + n.len()].copy_from_slice(n.as_bytes());
        h[e + 24..e + 28].copy_from_slice(&lba.to_le_bytes());
    }
    h
}

#[test]
fn the_plan_names_the_scratch_area() {
    assert_eq!(plan_lba(&header(&[("planb", 3), ("plan", 17)])), Ok(17));
    assert_eq!(plan_lba(&header(&[("other", 3)])), Err(ImageError::NoPlan));
    assert_eq!(plan_lba(&vec![0u8; 8192]), Err(ImageError::NotAnImage));
    let mut p = [0u8; 16];
    p[..4].copy_from_slice(b"WPLN");
    p[8..12].copy_from_slice(&5000u32.to_le_bytes());
    assert_eq!(scratch_lba(&p), Ok(5000));
    assert_eq!(scratch_lba(&[0; 16]), Err(ImageError::PlanMagic));
    assert_eq!(total_blocks(5000), 25608);
    assert_eq!(marker_lba(5000), 5750);
}

fn wav(chunks: &[(&[u8; 4], Vec<u8>)]) -> Vec<u8> {
    let mut b = b"RIFF\0\0\0\0WAVE".to_vec();
    for (id, body) in chunks {
        b.extend_from_slice(*id);
        b.extend_from_slice(&(body.len() as u32).to_le_bytes());
        b.extend_from_slice(body);
        if body.len() % 2 == 1 {
            b.push(0);
        }
    }
    b
}

fn format(channels: u16, rate: u32, bits: u16) -> Vec<u8> {
    let mut f = vec![0u8; 16];
    f[2..4].copy_from_slice(&channels.to_le_bytes());
    f[4..8].copy_from_slice(&rate.to_le_bytes());
    f[14..16].copy_from_slice(&bits.to_le_bytes());
    f
}

#[test]
fn clips_with_and_without_header() {
    let samples = vec![1u8, 0, 0xFF, 0xFF, 9];
    let w = wav(&[
        (b"LIST", vec![1, 2, 3]),
        (b"fmt ", format(1, 16000, 16)),
        (b"data", samples.clone()),
    ]);
    assert_eq!(load_pcm(&w).unwrap(), [1, -1]);
    assert_eq!(load_pcm(&samples).unwrap(), [1, -1]);
    let early = wav(&[(b"data", samples.clone())]);
    assert_eq!(load_pcm(&early), Err(PcmError::DataFirst));
    let none = wav(&[(b"fmt ", format(1, 16000, 16))]);
    assert_eq!(load_pcm(&none), Err(PcmError::NoData));
    let stereo = wav(&[(b"fmt ", format(2, 44100, 16)), (b"data", samples)]);
    assert_eq!(
        load_pcm(&stereo),
        Err(PcmError::Format { channels: 2, rate: 44100, bits: 16 })
    );
    let mut cut = wav(&[(b"fmt ", format(1, 16000, 16)), (b"data", vec![5, 0, 6, 0])]);
    cut.truncate(cut.len() - 2);
    assert_eq!(load_pcm(&cut).unwrap(), [5]);
}

#[test]
fn clips_stand_in_for_recordings() {
    let b = inject_bytes(&[1, -2]);
    assert_eq!(b.len(), 384_000);
    assert_eq!(&b[..6], &[1, 0, 0xFE, 0xFF, 0, 0]);
    assert_eq!(load_pcm(&b).unwrap()[..3], [1, -2, 0]);
    let long = inject_bytes(&vec![7i16; 200_000]);
    assert_eq!(long.len(), 384_000);
    let m = inject_block();
    assert_eq!(m.len(), 512);
    assert_eq!(injected(&m), Some(192_000));
    assert_eq!(&m[12..16], &16000u32.to_le_bytes());
    assert_eq!(injected(&[0; 512]), None);
}

/// A 32-bit little-endian object file with these symbols.
fn elf(names: &[(&str, u32)]) -> Vec<u8> {
    let mut strtab = vec![0u8];
    let mut symtab = vec![0u8; 16];
    for (n, addr) in names {
        let mut s = Vec::new();
        s.extend_from_slice(&(strtab.len() as u32).to_le_bytes());
        s.extend_from_slice(&addr.to_le_bytes());
        s.extend_from_slice(&4u32.to_le_bytes());
        s.extend_from_slice(&[0x11, 0, 0xF1, 0xFF]);
        symtab.extend(s);
        strtab.extend_from_slice(n.as_bytes());
        strtab.push(0);
    }
    let names_tab = b"\0.symtab\0.strtab\0.shstrtab\0".to_vec();
    let sym_off = 52;
    let str_off = sym_off + symtab.len();
    let nam_off = str_off + strtab.len();
    let sh_off = (nam_off + names_tab.len() + 3) / 4 * 4;
    let mut f = vec![0x7F, b'E', b'L', b'F', 1, 1, 1, 0, 0, 0, 0, 0, 0, 0, 0, 0];
    for v in [2u16, 40] {
        f.extend_from_slice(&v.to_le_bytes());
    }
    for v in [1u32, 0, 0, sh_off as u32, 0] {
        f.extend_from_slice(&v.to_le_bytes());
    }
    for v in [52u16, 0, 0, 40, 4, 3] {
        f.extend_from_slice(&v.to_le_bytes());
    }
    f.extend(symtab.iter());
    f.extend(strtab.iter());
    f.extend(names_tab.iter());
    f.resize(sh_off, 0);
    let mut section = |v: [u32; 10]| {
        for x in v {
            f.extend_from_slice(&x.to_le_bytes());
        }
    };
    section([0; 10]);
    section([1, 2, 0, 0, sym_off as u32, symtab.len() as u32, 2, 1, 4, 16]);
    section([9, 3, 0, 0, str_off as u32, strtab.len() as u32, 0, 0, 1, 0]);
    section([17, 3, 0, 0, nam_off as u32, names_tab.len() as u32, 0, 0, 1, 0]);
    f
}

#[test]
fn firmware_symbols() {
    let both = elf(&[("other", 1), ("MAILBOX", 0x2000_1234), ("_SEGGER_RTT", 0x2000_0008)]);
    assert_eq!(
        symbols(&both),
        Ok(Symbols { mailbox: 0x2000_1234, rtt: Some(0x2000_0008) })
    );
    let quiet = elf(&[("MAILBOX", 0x2000_1234)]);
    assert_eq!(symbols(&quiet), Ok(Symbols { mailbox: 0x2000_1234, rtt: None }));
    assert_eq!(symbols(&elf(&[("other", 1)])), Err(ElfError::NoMailbox));
    assert_eq!(symbols(b"not an object file"), Err(ElfError::NotAnObject));
    assert_eq!(symbols_of(None, Some(1)), Err(ElfError::NoMailbox));
    assert_eq!(symbols_of(Some(2), None), Ok(Symbols { mailbox: 2, rtt: None }));
}

#[test]
fn memory_against_a_file() {
    let a = [0u8, 255, 10, 128];
    let b = [0u8, 1, 10, 127];
    assert_eq!(compare(&a, &b, 1, 0), Compared { diffs: 2, max_err: 255 });
    assert_eq!(compare(&a, &b, 1, 2), Compared { diffs: 1, max_err: 255 });
    assert_eq!(compare(&[0xFF, 0xFF], &[1, 0], 2, 1), Compared { diffs: 1, max_err: 2 });
    assert_eq!(compare(&a, &a, 1, 0), Compared { diffs: 0, max_err: 0 });
    assert_eq!(compare(&[], &[], 1, 0), Compared { diffs: 0, max_err: 0 });
    let mut t = Tally::new();
    assert!(t.check(compare(&a, &a, 1, 0)));
    assert!(!t.check(compare(&a, &b, 1, 0)));
    assert_eq!((t.checks, t.failed), (2, 1));
}
