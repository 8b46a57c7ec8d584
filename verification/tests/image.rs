use whisper::decode::{arena_in_place, Entries};
use whisper::image::{
    dec_blob, enc_blob, entry_blocks, has_magic, load_sums, lookup, lookup_idx, sums_blocks, Entry,
    Kind, Name, SUMS_MAX,
};
use whisper::kernels::Quant;
use whisper::names::{asset_name, blob_name};
use whisper::plan::Plan;
use whisper::script::{follow, Asset, Blob, Go};
use whisper::standalone::{
    after, arena_addr, interlayer_at, opening, slot_at, After, Blocks, Boot, Build, Ctxt, Phase,
    PowerUp, Session, Source, Why,
};
use whisper::stats::{ms, sd_stats, ChaseStats, Part, Profile, Seen};
use whisper::storage::{Backend, Storage};

fn index(entries: &[(&str, u32, u32)]) -> Vec<u8> {
    let mut h = vec![0u8; 8192];
    h[..8].copy_from_slice(b"WSPRIMG1");
    h[12..16].copy_from_slice(&(entries.len() as u32).to_le_bytes());
    for (i, (n, lba, len)) in entries.iter().enumerate() {
        let e = 16 + 32 * i;
        h[e..e + n.len()].copy_from_slice(n.as_bytes());
        h[e + 24..e + 28].copy_from_slice(&lba.to_le_bytes());
        h[e + 28..e + 32].copy_from_slice(&len.to_le_bytes());
    }
    h
}

#[test]
fn entries_are_found_by_name() {
    let idx = index(&[("plan", 20, 1200), ("wq0", 30, 513), ("wq0", 99, 1)]);
    assert!(has_magic(&idx));
    assert_eq!(lookup_idx(&idx, b"wq0"), Some((Entry { lba: 30, len: 513 }, 1)));
    assert_eq!(lookup(&idx, b"wq"), None);
    assert_eq!(lookup(&idx, b"plan"), Some(Entry { lba: 20, len: 1200 }));
    assert_eq!(entry_blocks(Entry { lba: 0, len: 513 }), 2);
    assert_eq!(entry_blocks(Entry { lba: 0, len: 512 }), 1);
    assert_eq!(entry_blocks(Entry { lba: 0, len: 0 }), 0);
    assert_eq!(entry_blocks(Entry { lba: 0, len: u32::MAX }), 8_388_608);
}

#[test]
fn sums_of_the_entries() {
    assert_eq!(sums_blocks(Entry { lba: 0, len: 1024 }), Some(2));
    assert_eq!(sums_blocks(Entry { lba: 0, len: 1025 }), None);
    let mut buf = vec![0u8; 1024];
    buf[4..8].copy_from_slice(&77u32.to_le_bytes());
    let mut sums = [5u32; SUMS_MAX];
    load_sums(Entry { lba: 0, len: 10 }, &buf, &mut sums);
    assert_eq!(&sums[..4], &[0, 77, 5, 5]);
}

fn text(n: Name) -> String {
    String::from_utf8(n.s().to_vec()).unwrap()
}

#[test]
fn names_of_blobs() {
    assert_eq!(text(enc_blob(0, Kind::Q, 0)), "wq0");
    assert_eq!(text(enc_blob(0, Kind::Fc1, 2)), "wfc1c");
    assert_eq!(text(enc_blob(0, Kind::Fc2p, 2)), "wfc2p2");
    assert_eq!(text(enc_blob(3, Kind::Out, 0)), "w3out");
    assert_eq!(text(enc_blob(2, Kind::Fc1, 1)), "w2fc1b");
    assert_eq!(text(dec_blob(0, Kind::Xq, 0)), "d0xq");
    assert_eq!(text(dec_blob(1, Kind::Fc2p, 3)), "d1fc2p3");
    assert_eq!(text(blob_name(Blob::Conv1)), "wconv1");
    assert_eq!(text(blob_name(Blob::Conv2(2))), "wconv2c");
    assert_eq!(text(blob_name(Blob::Dec(2, Kind::Fc1, 0))), "d2fc1a");
    assert_eq!(text(Name::of(&["dc", "3"])), "dc3");
}

#[test]
fn names_of_assets() {
    assert_eq!(text(asset_name(Asset::Gelu1)), "g1lut");
    assert_eq!(text(asset_name(Asset::EncLut(1, 3))), "e1lut3");
    assert_eq!(text(asset_name(Asset::LnPost)), "lnpost_gb");
    assert_eq!(text(asset_name(Asset::DecAll(2))), "dc2");
    assert_eq!(text(asset_name(Asset::DecLut(0, 1))), "b0_lut1.bin");
    assert_eq!(text(asset_name(Asset::DecXln(3))), "b3_xln_gb.bin");
}

fn plan_bytes() -> Vec<u8> {
    let mut b = vec![0u8; 2048];
    b[..4].copy_from_slice(b"WPLN");
    let mut put = |o: usize, v: u32| b[o..o + 4].copy_from_slice(&v.to_le_bytes());
    put(4, 1);
    put(8, 5000);
    put(12, 12000);
    put(16, 4);
    put(20, 50258);
    put(36, 50257);
    put(60, 0x3F80_0000);
    put(64, 0xFFFF_FFFF);
    put(532 + 160, 0x4000_0000);
    b
}

#[test]
fn plans_are_read() {
    let p = Plan::load(&plan_bytes()).ok().unwrap();
    assert_eq!((p.scratch, p.vocab_n, p.n_sot, p.eot), (5000, 12000, 4, 50257));
    assert_eq!(p.sot[0], 50258);
    assert_eq!(p.conv1_in, Quant { scale: 0x3F80_0000, zp: -1 });
    assert_eq!(p.dec[1].ln1.scale, 0x4000_0000);
    let mut bad = plan_bytes();
    bad[0] = 0;
    assert!(matches!(Plan::load(&bad), Err(-903)));
    let mut late = plan_bytes();
    late[4] = 2;
    assert!(matches!(Plan::load(&late), Err(-903)));
    assert_eq!(Plan::locate(&index(&[("plan", 9, 2048)])), Ok(Entry { lba: 9, len: 2048 }));
    assert_eq!(Plan::locate(&index(&[("plan", 9, 2049)])), Err(-902));
    assert_eq!(Plan::locate(&index(&[])), Err(-901));
}

#[test]
fn power_up_on_a_good_image() {
    let idx = index(&[("plan", 20, 1200), ("fwid", 25, 8)]);
    let mut p = PowerUp::run();
    p.storage_done(0);
    assert_eq!(p.at, Boot::Index { attempt: 0 });
    p.index_read(-650, &idx);
    assert_eq!(p.at, Boot::Index { attempt: 1 });
    p.index_read(0, &idx);
    assert_eq!(p.at, Boot::Plan(Entry { lba: 20, len: 1200 }));
    assert!(p.plan_read(0, &plan_bytes(), &idx).is_some());
    assert_eq!(p.at, Boot::Fwid(Entry { lba: 25, len: 8 }));
    let mut stale = p;
    p.fwid_read(0, &[1, 0, 0, 0, 2, 0, 0, 0], 1, 2);
    assert_eq!(p.at, Boot::Ready);
    let mut unread = stale;
    unread.fwid_read(-1, &[0; 8], 1, 2);
    assert_eq!(unread.at, Boot::Ready);
    stale.fwid_read(0, &[1, 0, 0, 0, 3, 0, 0, 0], 1, 2);
    assert_eq!(stale.at, Boot::Mailbox(Why::Stale));
}

#[test]
fn power_up_failures() {
    let idx = index(&[("plan", 20, 1200)]);
    let mut p = PowerUp::run();
    p.storage_done(-600);
    assert_eq!(p.at, Boot::Mailbox(Why::NoStorage));
    let mut p = PowerUp { at: Boot::Index { attempt: 2 } };
    p.index_read(-650, &idx);
    assert_eq!(p.at, Boot::Mailbox(Why::NoImage));
    let mut p = PowerUp { at: Boot::Index { attempt: 0 } };
    p.index_read(0, &vec![0u8; 8192]);
    assert_eq!(p.at, Boot::Mailbox(Why::NoImage));
    let mut p = PowerUp { at: Boot::Index { attempt: 0 } };
    p.index_read(0, &index(&[]));
    assert_eq!(p.at, Boot::Mailbox(Why::BadPlan));
    let mut p = PowerUp { at: Boot::Plan(Entry { lba: 20, len: 1200 }) };
    assert!(p.plan_read(0, &vec![0u8; 2048], &idx).is_none());
    assert_eq!(p.at, Boot::Mailbox(Why::BadPlan));
    let mut p = PowerUp { at: Boot::Plan(Entry { lba: 20, len: 1200 }) };
    assert!(p.plan_read(0, &plan_bytes(), &idx).is_some());
    assert_eq!(p.at, Boot::Ready);
}

#[test]
fn a_lost_recording_ends_streaming() {
    let mut s = Session::new();
    assert_eq!(s.utterance(true).0, Source::Injected);
    let (src, phases) = s.utterance(false);
    assert_eq!(src, Source::Stream);
    assert_eq!(phases[0], Phase::RecordMel);
    assert_eq!(phases.len(), 5);
    assert_eq!(s.recorded(0), Ok(()));
    assert_eq!(s.recorded(3), Err(-908));
    let (src, phases) = s.utterance(false);
    assert_eq!(src, Source::Sequential);
    assert_eq!(phases[..3], [Phase::Record, Phase::MelTables, Phase::MelPass1]);
    assert_eq!(
        phases[3..],
        [Phase::MelPass2, Phase::Encoder, Phase::CrossKv, Phase::Decode]
    );
}

#[test]
fn addresses_of_an_utterance() {
    let c = Ctxt::new(5000);
    assert_eq!((c.tiles, c.ctx), (10, 600));
    assert_eq!(c.lba(1600, 5120), 6610);
    assert_eq!(c.blocks(1600, 512, 1024), Blocks { lba: 6601, count: 2 });
    let idx = index(&[("hann", 40, 1600)]);
    assert_eq!(
        c.asset(&idx, b"hann"),
        Ok((Entry { lba: 40, len: 1600 }, Blocks { lba: 40, count: 4 }))
    );
    assert_eq!(c.asset(&idx, b"none"), Err(-901));
    assert_eq!(arena_addr(16), 0x2003_2010);
    assert_eq!(slot_at(16, 4), 0x2004_B010);
    assert_eq!(interlayer_at(0x2000_0000, 100, 4), 0x2000_0064);
}

#[test]
fn figures_of_a_phase() {
    let mut none = ChaseStats { blobs: 0, first: 1, nibbles: 2, polls: 3 };
    assert_eq!(none.chase_stats(), None);
    assert_eq!(none, ChaseStats::new());
    let mut c = ChaseStats { blobs: 4, first: 40960, nibbles: 81920, polls: 31 };
    let l = c.chase_stats().unwrap();
    assert_eq!((l.blobs, l.first_kb, l.nibble_kb, l.polls, l.tenths), (4, 10, 20, 7, 7));
    assert_eq!(c, ChaseStats::new());
    assert_eq!(sd_stats(2048, 256_000, 1023, 127_999), (2, 2, 0, 0));
    assert_eq!(ms(127_999), 0);
}

#[test]
fn a_chase_is_watched() {
    let mut s = Seen::new();
    s.poll(false, 320, 0);
    s.poll(false, 4096, 100);
    s.poll(true, 80000, 4000);
    assert_eq!((s.first, s.early, s.polls), (Some(320), 100, 3));
    let mut c = ChaseStats::new();
    c.chased(s);
    c.chased(Seen::new());
    assert_eq!((c.blobs, c.first, c.nibbles, c.polls), (2, 320, 800, 3));
}

#[test]
fn cycles_are_counted_by_part() {
    let mut p = Profile::new();
    p.prof_add(Part::LmHead, 100, 350);
    // the counter has turned over
    p.prof_add(Part::Npu, u32::MAX - 9, 20);
    p.prof_add(Part::Npu, 0, 5);
    assert_eq!(p.take(), [0, 250, 0, 0, 35]);
    assert_eq!(p.take(), [0; 5]);
}

#[test]
fn an_utterance_settles_what_was_left() {
    assert_eq!(opening(Build::Whole, false), vec![Phase::Marker]);
    assert_eq!(opening(Build::Whole, true), vec![Phase::Settle, Phase::Marker]);
    assert_eq!(opening(Build::MicCheck, true), vec![Phase::Settle, Phase::MicCheck]);
    assert_eq!(opening(Build::DecodeOnly, false), vec![Phase::Decode]);
    assert_eq!(after(Build::Whole, true), After::Next);
    assert_eq!(after(Build::Whole, false), After::Retry);
    assert_eq!(after(Build::DecodeOnly, true), After::Mailbox);
    assert_eq!(after(Build::MicCheck, false), After::Mailbox);
    for backend in [Backend::Usb, Backend::Sd, Backend::Mock] {
        let mut s = Storage { backend, pending: true, sd_rc: -430 };
        assert_eq!(s.route(), Err(-495));
        for phase in opening(Build::Whole, s.busy()) {
            match phase {
                Phase::Settle => {
                    s.finish(-661);
                }
                _ => assert_eq!(s.route(), Ok(backend)),
            }
        }
    }
}

#[test]
fn a_script_ends_at_its_first_failure() {
    assert_eq!(follow(3, 0, 0), Go::On(1));
    assert_eq!(follow(3, 1, -7), Go::Over(-7));
    assert_eq!(follow(3, 2, 0), Go::Over(0));
    assert_eq!(follow(1, 0, -901), Go::Over(-901));
    assert_eq!(arena_in_place(0x2000_0000), Err(-910));
    assert_eq!(arena_in_place(whisper::layout::ARENA_BASE as u32), Ok(()));
}

#[test]
fn a_decode_needs_its_entries() {
    let names = ["embf", "embc4", "embpids", "posdec", "vocabtb", "final_gb.bin"];
    let all: Vec<(&str, u32, u32)> =
        names.iter().enumerate().map(|(i, n)| (*n, 100 + i as u32, 7)).collect();
    let on = Entries::find(&index(&all)).unwrap();
    assert_eq!((on.embf.lba, on.embc4.lba, on.ids.lba), (100, 101, 102));
    assert_eq!((on.posd.lba, on.vtb.lba, on.fin.lba), (103, 104, 105));
    assert_eq!((on.embc8, on.bundled), (None, false));
    for i in 0..names.len() {
        let mut few = all.clone();
        few.remove(i);
        few.push(("embc8", 9, 9));
        assert_eq!(Entries::find(&index(&few)), Err(-901));
    }
    let mut more = all;
    more.push(("embc8", 9, 9));
    more.push(("dc0", 11, 10240));
    let on = Entries::find(&index(&more)).unwrap();
    assert_eq!((on.embc8, on.bundled), (Some(Entry { lba: 9, len: 9 }), true));
}
