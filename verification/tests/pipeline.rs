use whisper::image::{Entry, SUMS_MAX};
use whisper::ioq::{IoOp, IoQueue, Pump};
use whisper::loader::{
    expand_groups, lay5_header, verify_expanded, BlobLoad, Chase, Lay5, LoadStep, Work,
};
use whisper::pipe::{BlobRun, Fetch, Pipe, Place, RunStep};
use whisper::power::{enable_reg, PowerAction, PowerVotes, UserEvent};
use whisper::slot::{interlayer_needed, run, run_at};

fn index(entries: &[(&str, u32, u32)]) -> Vec<u8> {
    let mut h = vec![0u8; 8192];
    h[..8].copy_from_slice(b"WSPRIMG1");
    h[12..16].copy_from_slice(&(entries.len() as u32).to_le_bytes());
    for (i, (n, lba, len)) in entries.iter().enumerate() {
        let e = 16 + 32 * i;
        h[e..e + n.len()].copy_from_slice(n.as_bytes());
        h[e + 24..e + 28].copy_from_slice(&lba.to_le_bytes());
        h[e + 28..e + 32].copy_from_slice(&len.to_le_bytes());
    }
    h
}

#[test]
fn blobs_are_read_until_their_sum_fits() {
    let idx = index(&[("a", 10, 3), ("b", 20, 1000)]);
    let mut sums = [0u32; SUMS_MAX];
    sums[0] = 6;
    let none = Entry { lba: 0, len: 0 };
    let (mut l, step) = BlobLoad::load(&idx, &sums, none, b"a");
    assert_eq!(step, LoadStep::Read { lba: 10, blocks: 1 });
    let mut flaky = l;
    assert_eq!(l.landed(0, &[1, 2, 3]), LoadStep::Ready);
    assert_eq!(flaky.landed(0, &[1, 2, 4]), LoadStep::Read { lba: 10, blocks: 1 });
    assert_eq!(flaky.landed(0, &[1, 2, 4]), LoadStep::Read { lba: 10, blocks: 1 });
    assert_eq!(flaky.landed(0, &[1, 2, 4]), LoadStep::Fail(-905));
    let (mut l, _) = BlobLoad::load(&idx, &sums, none, b"a");
    assert_eq!(l.landed(-661, &[0, 0, 0]), LoadStep::Fail(-661));
    assert_eq!(
        BlobLoad::load(&idx, &sums, Entry { lba: 10, len: 3 }, b"a").1,
        LoadStep::Ready
    );
    assert_eq!(BlobLoad::load(&idx, &sums, none, b"c").1, LoadStep::Fail(-904));
    // no sum in the image: anything goes
    let (mut l, _) = BlobLoad::load(&idx, &sums, none, b"b");
    assert_eq!(l.landed(0, &[9; 1000]), LoadStep::Ready);
}

/// A packed blob: header, raw head, group scales, nibbles.
fn packed(w_off: usize, n: usize) -> Vec<u8> {
    let mut b = vec![0u8; 24];
    b[..4].copy_from_slice(b"LAY5");
    for (i, v) in [w_off + n, w_off, n, 1234, 0x2005_9000].iter().enumerate() {
        b[4 + 4 * i..8 + 4 * i].copy_from_slice(&(*v as u32).to_le_bytes());
    }
    b.extend((0..w_off).map(|i| i as u8));
    b.extend((0..n / 16).map(|i| i as u8));
    b.extend((0..n / 2).map(|i| (i * 7) as u8));
    b
}

#[test]
fn packed_headers() {
    let b = packed(64, 128);
    assert_eq!(
        lay5_header(&b, b.len() as u32),
        Ok(Lay5 { raw_len: 192, w_off: 64, n: 128, raw_sum: 1234 })
    );
    assert_eq!(lay5_header(&b, b.len() as u32 - 1), Err(-906));
    let mut bad = b.clone();
    bad[0] = 0;
    assert_eq!(lay5_header(&bad, b.len() as u32), Err(-906));
}

#[test]
fn expansion_follows_the_transfer() {
    let b = packed(64, 1024);
    let e = Entry { lba: 5, len: b.len() as u32 };
    let mut c = Chase::new(e);
    assert_eq!(c.poll(false, 10, &b), Ok(Work { head: None, from: 0, to: 0 }));
    let nib_off = 24 + 64 + 64;
    let mut last = 0;
    let mut head = 0;
    for landed in [100, nib_off - 1, nib_off, nib_off + 100, nib_off + 300] {
        let w = c.poll(false, landed, &b).unwrap();
        assert_eq!(w.from, last);
        last = w.to;
        if w.head.is_some() {
            assert_eq!(w.head, Some(64));
            head += 1;
        }
    }
    assert_eq!(head, 1);
    assert_eq!(c.finish(0), Err(-906));
    let w = c.poll(true, 0, &b).unwrap();
    assert_eq!((w.from, w.to), (last, 64));
    let sum = b.iter().fold(0u32, |s, &x| s.wrapping_add(x as u32));
    assert_eq!(c.finish(0), Ok(sum));
    assert_eq!(c.finish(-3), Err(-3));
}

#[test]
fn every_split_of_a_transfer_expands_the_same() {
    let b = packed(64, 1024);
    let len = b.len() as u32;
    let h = lay5_header(&b, len).unwrap();
    let sum = b.iter().fold(0u32, |s, &x| s.wrapping_add(x as u32));
    let splits: [&[usize]; 4] = [&[], &[24, 88, 152, 153, 400], &[31, 32, 33, 664], &[150, 663]];
    for polls in splits {
        let mut c = Chase::new(Entry { lba: 5, len });
        let mut raw = vec![0u8; 192 + 1024];
        let mut seen = vec![0u8; b.len()];
        for i in 0..=polls.len() {
            let done = i == polls.len();
            let landed = if done { b.len() } else { polls[i] };
            seen[..landed].copy_from_slice(&b[..landed]);
            let w = c.poll(done, landed, &seen).unwrap();
            if let Some(n) = w.head {
                raw[..n].copy_from_slice(&seen[24..24 + n]);
            }
            if w.from < w.to {
                let g = expand_groups(h, w.from, w.to, len);
                let at = g.raw - 57344;
                for k in 0..g.n_raw {
                    raw[at + k] = seen[g.nibs + k / 2] ^ seen[g.codes + k / 16];
                }
            }
        }
        assert_eq!(c.finish(0), Ok(sum));
        assert_eq!(raw[..64], b[24..88]);
        for k in 0..1024 {
            assert_eq!(raw[64 + k], b[152 + k / 2] ^ b[88 + k / 16]);
        }
    }
}

#[test]
fn groups_have_their_places() {
    let b = packed(64, 1024);
    let h = lay5_header(&b, b.len() as u32).unwrap();
    let all = expand_groups(h, 0, 64, b.len() as u32);
    assert_eq!((all.codes, all.nibs, all.raw), (88, 152, 57344 + 64));
    assert_eq!((all.n_codes, all.n_nibs, all.n_raw), (64, 512, 1024));
    let first = expand_groups(h, 0, 10, b.len() as u32);
    let rest = expand_groups(h, 10, 64, b.len() as u32);
    assert_eq!(first.codes + first.n_codes, rest.codes);
    assert_eq!(first.nibs + first.n_nibs, rest.nibs);
    assert_eq!(first.raw + first.n_raw, rest.raw);
}

#[test]
fn expansions_are_checked_once() {
    let mut land = packed(64, 128);
    let raw = vec![1u8; 192];
    land[16..20].copy_from_slice(&192u32.to_le_bytes());
    let mut seen = [false; 254];
    assert_eq!(verify_expanded(&mut seen, 3, &land, &raw, None), Err(-909));
    assert_eq!(verify_expanded(&mut seen, 3, &land, &raw, Some(16385)), Err(-909));
    assert_eq!(verify_expanded(&mut seen, 3, &land, &[2u8; 192], Some(0)), Err(-907));
    assert_eq!(verify_expanded(&mut seen, 3, &land, &raw, Some(16384)), Ok(()));
    assert!(seen[3]);
    assert_eq!(verify_expanded(&mut seen, 3, &land, &[2u8; 192], None), Ok(()));
}

#[test]
fn a_prefetched_blob_is_expanded_behind_its_read() {
    let idx = index(&[("d0q", 100, 80_000), ("d0k", 300, 80_000), ("raw", 600, 200_000)]);
    let mut sums = [0u32; SUMS_MAX];
    sums[1] = 55;
    let mut pipe = Pipe::new();
    assert!(Pipe::packed(Entry { lba: 1, len: 80_000 }));
    assert!(!Pipe::packed(Entry { lba: 1, len: 200_000 }));
    let (_, step) = BlobRun::run(&mut pipe, &idx, &sums, b"raw");
    assert_eq!(step, RunStep::Raw);
    let (_, step) = BlobRun::run(&mut pipe, &idx, &sums, b"gone");
    assert_eq!(step, RunStep::Fail(-904));
    // nothing landed: read, sum, expand, verify
    let (mut r, step) = BlobRun::run(&mut pipe, &idx, &sums, b"d0k");
    assert_eq!(step, RunStep::Read { lba: 300, blocks: 157 });
    assert_eq!(r.read_done(&mut pipe, 0), RunStep::Sum);
    assert_eq!(r.summed(&mut pipe, 54), RunStep::Read { lba: 300, blocks: 157 });
    assert_eq!(r.read_done(&mut pipe, 0), RunStep::Sum);
    assert_eq!(r.summed(&mut pipe, 55), RunStep::Expand);
    assert_eq!(r.expanded(Ok(())), RunStep::Verify);
    assert_eq!(r.verified(&mut pipe, Ok(())), RunStep::Infer);
    // the next one is prefetched while it infers
    let f = pipe.prefetch(&idx, b"d0q").unwrap().unwrap();
    let place = Place { entry: Entry { lba: 100, len: 80_000 }, idx: 0 };
    assert_eq!(f, Fetch { place, bytes: 157 * 512 });
    pipe.begun(f);
    assert_eq!(pipe.pending, Some(place));
    let (mut r, step) = BlobRun::run(&mut pipe, &idx, &sums, b"d0q");
    assert_eq!(step, RunStep::Chase);
    assert_eq!(r.chased(&pipe, Ok(1)), RunStep::Verify);
    let (mut other, _) = BlobRun::run(&mut pipe, &idx, &sums, b"d0k");
    assert_eq!(other.chased(&pipe, Ok(1)), RunStep::Read { lba: 300, blocks: 157 });
    assert_eq!(other.chased(&pipe, Err(-7)), RunStep::Fail(-7));
    // another blob's read is waited for first
    pipe.begun(f);
    let (r, step) = BlobRun::run(&mut pipe, &idx, &sums, b"d0k");
    assert_eq!(step, RunStep::Settle);
    assert_eq!(r.settled(&mut pipe, 0), RunStep::Read { lba: 300, blocks: 157 });
    assert_eq!(pipe.landed, Some(place));
    pipe.begun(f);
    assert_eq!(pipe.settle(-9), Err(-9));
    assert_eq!(pipe.settle(0), Ok(()));
}

#[test]
fn queued_transfers_start_in_order() {
    let mut q = IoQueue::new();
    q.push(true, 10, 0x100, 1024);
    q.push(false, 20, 0x200, 512);
    let first = IoOp { read: true, lba: 10, buf: 0x100, count: 2 };
    let second = IoOp { read: false, lba: 20, buf: 0x200, count: 1 };
    assert_eq!(q.pump(false, false), Pump::Start(first));
    assert_eq!(q.started(0), Pump::Idle);
    assert_eq!(q.pump(true, false), Pump::Idle);
    assert_eq!(q.pump(true, true), Pump::Finish);
    assert_eq!(q.finished(0), Pump::Start(second));
    assert_eq!(q.started(0), Pump::Idle);
    assert_eq!(q.drain(true), Ok(false));
    assert_eq!(q.pump(true, true), Pump::Finish);
    assert_eq!(q.finished(0), Pump::Idle);
    assert_eq!(q.drain(false), Ok(true));
    assert_eq!((q.n, q.next), (0, 0));
}

#[test]
fn a_failed_queue_stays_failed() {
    let mut q = IoQueue::new();
    q.push(true, 10, 0x100, 1024);
    q.push(false, 20, 0x200, 512);
    let first = IoOp { read: true, lba: 10, buf: 0x100, count: 2 };
    assert_eq!(q.pump(false, false), Pump::Start(first));
    assert_eq!(q.started(0), Pump::Idle);
    assert_eq!(q.drain(false), Ok(false));
    assert_eq!(q.pump(true, true), Pump::Finish);
    assert_eq!(q.finished(-5), Pump::Failed(-5));
    assert_eq!(q.pump(false, false), Pump::Failed(-5));
    assert_eq!(q.pump(true, true), Pump::Failed(-5));
    assert_eq!(q.drain(false), Err(-5));
    assert_eq!((q.n, q.next, q.rc), (2, 1, -5));
    let mut refused = IoQueue::new();
    refused.push(true, 10, 0x100, 1024);
    assert_eq!(refused.pump(false, false), Pump::Start(first));
    assert_eq!(refused.started(-7), Pump::Failed(-7));
    assert_eq!(refused.drain(false), Err(-7));
}

#[test]
fn blobs_in_the_slot() {
    let mut h = [0u8; 8];
    assert_eq!(run(&h), Err(-101));
    h[..4].copy_from_slice(&0x4C41_5952u32.to_le_bytes());
    h[4..].copy_from_slice(&0x2004_B010u32.to_le_bytes());
    assert_eq!(run(&h), Ok(0x2004_B010));
    assert_eq!(run_at(&h, 0x2005_9000), Err(-102));
    assert_eq!(interlayer_needed(&h, 0x2004_B000), Some(0x2004_B010));
    h[4..].copy_from_slice(&0x2007_F000u32.to_le_bytes());
    assert_eq!(run(&h), Err(-102));
    assert_eq!(interlayer_needed(&h, 0x2004_B000), None);
}

#[test]
fn the_npu_is_on_while_voted_for() {
    let mut v = PowerVotes::new();
    assert_eq!(v.power_vote_on(), PowerAction::On);
    assert_eq!(v.power_vote_on(), PowerAction::Keep);
    assert_eq!(v.power_vote_off(), PowerAction::Keep);
    assert_eq!(v.power_vote_off(), PowerAction::Off);
    assert_eq!(enable_reg(), 0x5005_6400);
    let mut e = UserEvent { raised: false };
    assert!(!e.take());
    e.generate();
    assert!(e.take());
    assert!(!e.take());
}
