use whisper::cross::cross_kv;
use whisper::decode::{
    latency, piece_offsets_at, piece_span, sd_read_bytes, AfterBlocks, AfterSample, Decode,
    KeptSearch, OledLine, Transcript,
};
use whisper::decoder::{token_script, DStep};
use whisper::encoder::encoder;
use whisper::image::Entry;
use whisper::lm::{
    blank, chunk_dots, counts, float_key, lm_head, rank, row_head, LmBest, LmStep,
};
use whisper::plan::Plan;
use whisper::q4::{tables16, TABLES16};
use whisper::script::{Blob, Step};

fn plan() -> Plan {
    let mut b = vec![0u8; 2048];
    b[..4].copy_from_slice(b"WPLN");
    let mut put = |o: usize, v: u32| b[o..o + 4].copy_from_slice(&v.to_le_bytes());
    put(4, 1);
    put(8, 5000);
    put(12, 200);
    put(16, 3);
    put(20, 50258);
    put(24, 50259);
    put(28, 50359);
    put(36, 50257);
    put(40, 1);
    put(44, 220);
    Plan::load(&b).ok().unwrap()
}

#[test]
fn bytes_are_read_through_blocks() {
    let e = Entry { lba: 100, len: 5000 };
    let w = sd_read_bytes(e, 1020, 8).unwrap();
    assert_eq!((w.lba, w.blocks, w.skew), (101, 2, 508));
    let bounce: Vec<u8> = (0..1024).map(|i| (i % 251) as u8).collect();
    let mut dst = [0u8; 8];
    w.take(&bounce, &mut dst);
    assert_eq!(dst[..], bounce[508..516]);
    assert_eq!(sd_read_bytes(e, 1, 1024), Err(-930));
}

fn find(ids: &[u32], token: u32) -> Result<usize, i32> {
    let mut s = KeptSearch::kept_position(Entry { lba: 0, len: 4 * ids.len() as u32 }, token);
    loop {
        let mid = s.probe()?;
        if let Some(at) = s.answer(ids[mid]) {
            return Ok(at);
        }
    }
}

#[test]
fn kept_tokens_are_found() {
    let ids: Vec<u32> = (0..137).map(|i| 3 * i + i / 50).collect();
    for (i, id) in ids.iter().enumerate() {
        assert_eq!(find(&ids, *id), Ok(i));
    }
    assert_eq!(find(&ids, 4), Err(-906));
    assert_eq!(find(&[], 4), Err(-906));
    assert_eq!(piece_offsets_at(5), 24);
    let p = piece_span(200, &[10, 0, 0, 0, 13, 0, 0, 0]);
    assert_eq!((p.at, p.len), (818, 3));
    assert_eq!(piece_span(0, &[0, 0, 0, 0, 255, 0, 0, 0]).len, 48);
}

#[test]
fn texts_are_bounded() {
    let mut t = Transcript::new();
    t.append_token(b" hello");
    t.append_token(b" world");
    assert_eq!(t.text(), b" hello world");
    let mut l = OledLine::new();
    l.write(b"12345");
    l.write(b"678");
    assert_eq!(l.text(), b"12345678");
    l.write(&[b'x'; 100]);
    assert!(l.text().len() <= 48);
    assert_eq!(latency(false, 50, 0xFFFF_FFFF, 9), 10);
    assert_eq!(latency(true, 50, 0xFFFF_FFFF, 9), 60);
}

#[test]
fn a_prompt_then_samples() {
    let p = plan();
    let mut d = Decode::new(&p);
    let mut t = Transcript::new();
    assert_eq!(d.token, 50258);
    assert_eq!(d.blocks_done(&p), AfterBlocks::Feed);
    assert_eq!(d.token, 50259);
    assert_eq!(d.blocks_done(&p), AfterBlocks::Feed);
    assert_eq!(d.token, 50359);
    assert_eq!(d.blocks_done(&p), AfterBlocks::Sample { first: true });
    assert_eq!(d.sampled(&p, 400, b" hi", &mut t), AfterSample::Feed);
    assert_eq!(d.blocks_done(&p), AfterBlocks::Sample { first: false });
    assert_eq!(d.sampled(&p, 50257, b"never", &mut t), AfterSample::Done);
    assert_eq!(t.text(), b" hi");
    assert_eq!((d.step, d.printed), (4, 1));
    let mut steps = 0;
    let mut d = Decode::new(&p);
    loop {
        steps += 1;
        match d.blocks_done(&p) {
            AfterBlocks::Feed => {}
            AfterBlocks::Sample { .. } => match d.sampled(&p, 7, b"", &mut t) {
                AfterSample::Full => break,
                other => assert_eq!(other, AfterSample::Feed),
            },
        }
    }
    assert_eq!(steps, whisper::layout::MAX_TOKENS);
}

#[test]
fn the_best_logit_wins() {
    let p = plan();
    let mut b = LmBest::new(&p);
    assert_eq!(b.id, 50257);
    b.consider(&p, true, 900, 220, 0);
    assert_eq!(b.id, 50257);
    b.consider(&p, true, 10, 5, 1);
    b.consider(&p, true, 30, 6, 2);
    b.consider(&p, true, 30, 7, 3);
    assert_eq!((b.id, b.pos, b.best), (6, 2, 30));
    b.consider(&p, false, 900, 220, 4);
    assert_eq!((b.id, b.pos), (220, 4));
    assert!(blank(&p, 220));
    assert!(!blank(&p, 0));
}

#[test]
fn the_first_largest_row_of_the_pass_wins() {
    let p = plan();
    let scale = |il: &mut [u8], row: usize, v: f32| {
        il[4 * row..4 * row + 4].copy_from_slice(&v.to_bits().to_le_bytes())
    };
    let chunk = |ids: u32| {
        let mut il = vec![0u8; 512];
        for row in 0..64 {
            scale(&mut il, row, 1.0);
            let at = 256 + 4 * row;
            il[at..at + 4].copy_from_slice(&(ids + row as u32).to_le_bytes());
        }
        il
    };
    let mut first = chunk(1000);
    // a padding row and an input-only row take no part, whatever their key
    scale(&mut first, 5, 0.0);
    scale(&mut first, 6, -1.0);
    let mut keys = [0i32; 64];
    keys[5] = 99;
    keys[6] = 98;
    keys[9] = 40;
    keys[11] = 40;
    let mut b = LmBest::new(&p);
    b.chunk(&p, false, &first, 64, 0, &keys);
    assert_eq!((b.id, b.pos, b.best), (1009, 9, 40));
    // the last chunk keeps eight rows
    let second = chunk(2000);
    let mut keys = [0i32; 64];
    keys[3] = 40;
    keys[7] = 41;
    keys[8] = 77;
    b.chunk(&p, false, &second, 8, 64, &keys);
    assert_eq!((b.id, b.pos, b.best), (2007, 71, 41));
    // no row at all: the end of the text
    let mut none = LmBest::new(&p);
    none.chunk(&p, false, &vec![0u8; 512], 64, 0, &[5; 64]);
    assert_eq!((none.id, none.pos), (50257, 0));
    // the blank row is out at the first token alone
    let mut at_first = LmBest::new(&p);
    let mut keys = [0i32; 64];
    keys[20] = 9;
    at_first.chunk(&p, true, &chunk(200), 64, 0, &keys);
    assert_eq!((at_first.id, at_first.best), (200, 0));
    let mut later = LmBest::new(&p);
    later.chunk(&p, false, &chunk(200), 64, 0, &keys);
    assert_eq!((later.id, later.best), (220, 9));
}

#[test]
fn float_bits_keep_their_order() {
    let v = [-3.4e38f32, -2.0, -1e-30, -0.0, 0.0, 1e-30, 0.5, 7.0];
    for w in v.windows(2) {
        assert!(float_key(w[0].to_bits()) <= float_key(w[1].to_bits()));
    }
    assert_eq!(float_key((-0.0f32).to_bits()), float_key(0.0f32.to_bits()));
    assert_eq!(rank(f32::NAN.to_bits()), i32::MIN);
    assert_eq!(rank((-f32::NAN).to_bits()), i32::MIN);
    assert_eq!(rank(f32::INFINITY.to_bits()), 0x7F80_0000);
    assert!(rank(f32::NEG_INFINITY.to_bits()) > i32::MIN);
    assert!(counts(3, 4, 1.0f32.to_bits()));
    assert!(!counts(4, 4, 1.0f32.to_bits()));
    assert!(!counts(3, 4, (-1.0f32).to_bits()));
    assert!(!counts(3, 4, 0));
}

#[test]
fn rows_are_dotted() {
    let mut il = vec![0u8; 65536];
    for (i, b) in il.iter_mut().enumerate() {
        *b = (i * 31 % 256) as u8;
    }
    let hq: Vec<i16> = (0..384).map(|i| i as i16 - 190).collect();
    let mut tables = [0u32; TABLES16];
    tables16(&mut tables);
    let d = chunk_dots(&il, true, &hq, &tables);
    assert_eq!(d.len(), 64);
    let rows = whisper::lm::CH_ROWS;
    let mut want = 0i32;
    for c in 0..384 {
        want += il[rows + 384 * 5 + c] as i8 as i32 * hq[whisper::dsp::perm4(c)] as i32;
    }
    assert_eq!(d[5], want);
    assert_eq!(chunk_dots(&il, false, &hq, &tables).len(), 64);
    let at = whisper::lm::CH_SCL + 12;
    let head = row_head(&il, 3);
    assert_eq!(head.0, u32::from_le_bytes([il[at], il[at + 1], il[at + 2], il[at + 3]]));
}

#[test]
fn the_vocabulary_is_walked_in_chunks() {
    for rows8 in [true, false] {
        let s = lm_head(rows8, 200);
        let dots: Vec<(usize, usize)> = s
            .iter()
            .filter_map(|s| match s {
                LmStep::Dots { first, rows, .. } => Some((*first, *rows)),
                _ => None,
            })
            .collect();
        assert_eq!(dots, [(0, 64), (64, 64), (128, 64), (192, 8)]);
        assert!(matches!(s[0], LmStep::Start { block: 0, .. }));
    }
}

#[test]
fn encoder_scripts_grow_with_the_utterance() {
    let p = plan();
    let runs = |steps: &[Step]| steps.iter().filter(|s| matches!(s, Step::Run { .. })).count();
    let short = encoder(&p, 3, 192);
    let long = encoder(&p, 10, 600);
    assert!(runs(&long) > runs(&short));
    let loads: Vec<Blob> = short
        .iter()
        .filter_map(|s| match s {
            Step::Load(b) => Some(*b),
            _ => None,
        })
        .collect();
    assert_eq!(loads[0], Blob::Conv1);
    assert!(runs(&cross_kv(&p, 10)) > runs(&cross_kv(&p, 3)));
}

#[test]
fn token_scripts() {
    let p = plan();
    for bundled in [true, false] {
        let s = token_script(&p, bundled, 17, 4, 4, 3, 192);
        assert!(matches!(s[0], DStep::Settle));
        assert!(matches!(s[1], DStep::Embed { row: 17, place: 4, .. }));
        let blobs: Vec<Blob> = s
            .iter()
            .filter_map(|s| match s {
                DStep::Run { blob, .. } => Some(*blob),
                _ => None,
            })
            .collect();
        let next: Vec<Blob> = s
            .iter()
            .filter_map(|s| match s {
                DStep::Run { next, .. } => Some(*next),
                _ => None,
            })
            .collect();
        assert_eq!(blobs.len(), 56);
        // each run starts on the bytes of the one that follows it
        assert_eq!(next[..55], blobs[1..]);
        assert_eq!(next[55], blobs[0]);
        let columns = s.iter().filter(|s| matches!(s, DStep::Append { pos: 4, .. })).count();
        assert_eq!(columns, 4);
        let heads = s.iter().filter(|s| matches!(s, DStep::SelfHead { t: 5, .. })).count();
        assert_eq!(heads, 24);
        let cross = s.iter().filter(|s| matches!(s, DStep::CrossHead { tk: 192, .. })).count();
        assert_eq!(cross, 24);
    }
}
