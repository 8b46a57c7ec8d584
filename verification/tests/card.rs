use whisper::hal::spim::{Config, Drive, Line, SpimSoftCs};
use whisper::mockblk::Stats;
use whisper::probe::{
    calibrate, edge_count, half_periods, idle_limit, is_image, low_count, micros, percent, Arm,
    Attempt, Decoder, Halves, Levels, Mark, Monitor, Recorder, Wire, CAP, TESTER_R1_BYTES,
    TESTER_TOKEN_BYTES,
};
use whisper::sd::{
    account, bus_config, card_addr, diag, frame, loopback, read_response, release_pins, Answer,
    DiagStep, Op,
    SdCard, SdInit, Transfer, Wait,
};

/// Runs a machine until it ends: answers come from the script.
fn end(ops: &[Op]) -> Option<i32> {
    match ops.last() {
        Some(Op::End(rc)) => Some(*rc),
        _ => None,
    }
}

/// All that follows a reset command which is answered `r`.
fn traced(r: u8) -> Answer {
    let mut t = [0xFFu8; 16];
    if r < 0x80 {
        t[2] = r;
        t[5] = 0x11;
    }
    Answer::Bytes(t)
}

fn init_with(answers: &[Answer]) -> (i32, SdInit) {
    let (mut s, mut ops) = SdInit::init(true);
    let mut i = 0;
    loop {
        if let Some(rc) = end(&ops) {
            assert_eq!(i, answers.len());
            assert!(ops.contains(&Op::Deselect));
            return (rc, s);
        }
        ops = match (ops.last(), answers[i]) {
            (Some(Op::Trace { .. }), Answer::Byte(r)) => s.next(traced(r)),
            (_, a) => s.next(a),
        };
        i += 1;
    }
}

fn b(x: u8) -> Answer {
    Answer::Byte(x)
}

#[test]
fn entry_of_a_high_capacity_card() {
    let (rc, s) = init_with(&[
        b(0x01),
        b(0x01),
        Answer::Four(0, 0, 1, 0xAA),
        b(1),
        b(1),
        b(1),
        b(0),
        b(0),
        Answer::Four(0xC0, 0, 0, 0),
    ]);
    assert_eq!(rc, 0);
    assert!(s.high_capacity);
}

#[test]
fn the_first_reset_is_traced() {
    let mut silent = vec![traced(0xFF)];
    silent.extend([b(0xFF); 7]);
    let mut answers = silent.clone();
    answers.extend(silent);
    let (mut s, mut ops) = SdInit::init(true);
    let mut traces = 0;
    for a in answers {
        if matches!(ops.last(), Some(Op::Trace { .. })) {
            traces += 1;
        }
        ops = s.next(a);
    }
    // once with the pins in their roles, once with them exchanged
    assert_eq!(traces, 2);
    assert_eq!(end(&ops), Some(-455));
    assert_eq!(s.trace, [0xFF; 16]);
    // the last of the sixteen bytes still counts
    let mut t = [0xFFu8; 16];
    t[15] = 0x01;
    let (mut s, _) = SdInit::init(true);
    assert_eq!(s.next(Answer::Bytes(t)), vec![Op::Command { cmd: 8, arg: 0x1AA, crc: 0x87 }]);
    assert_eq!(SdInit::init(false).1, vec![Op::End(-480)]);
}

#[test]
fn entry_of_an_old_card() {
    let (rc, s) = init_with(&[b(0x01), b(0x05), b(1), b(0), b(0), Answer::Four(0x80, 0, 0, 0)]);
    assert_eq!(rc, 0);
    assert!(!s.high_capacity);
}

#[test]
fn entry_failures() {
    let mut silent = vec![b(0xFF); 16];
    assert_eq!(init_with(&silent).0, -455);
    silent[10] = b(0x01);
    assert_eq!(init_with(&silent[..11]).0, -460);
    let mut zero = vec![b(0x00); 8];
    zero.push(Answer::Four(0, 0, 0, 0));
    assert_eq!(init_with(&zero).0, -461);
    zero[8] = Answer::Four(0xFF, 0xFF, 0xFF, 0xFF);
    assert_eq!(init_with(&zero).0, -200);
    assert_eq!(init_with(&vec![b(0x05); 8]).0, -205);
    assert_eq!(init_with(&[b(1), b(1), Answer::Four(0, 0, 2, 0xAA)]).0, -210);
    assert_eq!(init_with(&[b(1), b(5), b(1), b(4)]).0, -224);
    assert_eq!(init_with(&[b(1), b(5), b(1), b(0), b(3)]).0, -243);
    let mut idle = vec![b(1), b(5)];
    for _ in 0..2500 {
        idle.push(b(1));
        idle.push(b(1));
    }
    assert_eq!(init_with(&idle).0, -230);
}

#[test]
fn retries_before_the_card_wakes() {
    let (mut s, ops) = SdInit::init(true);
    assert_eq!(ops.last(), Some(&Op::Trace { cmd: 0, arg: 0, crc: 0x95 }));
    assert_eq!(s.trace, [0; 16]);
    let mut late = [0xFFu8; 16];
    late[15] = 0x05;
    late[3] = 0x80;
    let ops = s.next(Answer::Bytes(late));
    assert_eq!(s.trace, late);
    assert_eq!(
        ops,
        vec![
            Op::Deselect,
            Op::Clocks(1),
            Op::Select,
            Op::Clocks(1),
            Op::Command { cmd: 0, arg: 0, crc: 0x95 },
        ]
    );
    assert_eq!(s.next(b(1)), vec![Op::Command { cmd: 8, arg: 0x1AA, crc: 0x87 }]);
}

#[test]
fn reads_take_blocks_in_order() {
    let (mut t, ops) = Transfer::start(true, 77, 2, false);
    assert_eq!(ops, vec![Op::Select, Op::Command { cmd: 18, arg: 77, crc: 0xFF }]);
    assert_eq!(t.next(b(0), false), vec![Op::AwaitToken]);
    assert_eq!(t.next(b(0xFE), false), vec![Op::ReceiveBlock(0), Op::AwaitToken]);
    assert_eq!(
        t.next(b(0xFE), false),
        vec![Op::ReceiveBlock(1), Op::Command { cmd: 12, arg: 0, crc: 0xFF }]
    );
    assert_eq!(t.next(b(0x7F), false), vec![Op::AwaitReady(200_000)]);
    let mut late = t;
    assert_eq!(t.next(Answer::Ready(true), false), vec![Op::Deselect, Op::End(0)]);
    assert_eq!(late.next(Answer::Ready(true), true), vec![Op::Deselect, Op::End(-470)]);
}

#[test]
fn read_failures() {
    assert_eq!(Transfer::start(true, 0, 1, true).1, vec![Op::End(-470)]);
    let (mut t, _) = Transfer::start(true, 0, 1, false);
    assert_eq!(end(&t.next(b(4), false)), Some(-304));
    let (mut t, _) = Transfer::start(true, 0, 1, false);
    t.next(b(0), false);
    assert_eq!(end(&t.next(b(0xFF), false)), Some(-310));
    let (mut t, _) = Transfer::start(true, 0, 0, false);
    t.next(b(0), false);
    t.next(b(0), false);
    assert_eq!(end(&t.next(Answer::Ready(false), false)), Some(-320));
}

#[test]
fn writes_and_their_failures() {
    let (mut t, ops) = Transfer::start(false, 9, 1, false);
    assert_eq!(ops[1], Op::Command { cmd: 25, arg: 9, crc: 0xFF });
    assert_eq!(t.next(b(0), false), vec![Op::SendBlock(0)]);
    let mut refused = t;
    assert_eq!(end(&refused.next(b(0xEB), false)), Some(-421));
    assert_eq!(t.next(b(0xE5), false), vec![Op::AwaitReady(500_000)]);
    let mut busy = t;
    assert_eq!(end(&busy.next(Answer::Ready(false), false)), Some(-420));
    assert_eq!(
        t.next(Answer::Ready(true), false),
        vec![Op::StopToken, Op::AwaitReady(500_000)]
    );
    let mut stuck = t;
    assert_eq!(end(&stuck.next(Answer::Ready(false), false)), Some(-430));
    assert_eq!(end(&t.next(Answer::Ready(true), false)), Some(0));
    assert_eq!(Transfer::start(false, 0, 1, true).1, vec![Op::End(-471)]);
    let (mut t, _) = Transfer::start(false, 0, 1, false);
    assert_eq!(end(&t.next(b(1), false)), Some(-401));
}

#[test]
fn bytes_on_the_bus() {
    assert_eq!(frame(0, 0, 0x95), [0x40, 0, 0, 0, 0, 0x95]);
    assert_eq!(frame(18, 0x0102_0304, 0xFF), [0x52, 1, 2, 3, 4, 0xFF]);
    assert_eq!(read_response(&[0xFF, 0xFF, 0x01, 0x00]), 1);
    assert_eq!(read_response(&[0xFF; 16]), 0xFF);
    let mut w = Wait::new(2);
    assert_eq!(w.r1(0x80), None);
    assert_eq!(w.r1(0x80), Some(0xFF));
    let mut w = Wait::new(2);
    assert_eq!(w.token(0xFF), None);
    assert_eq!(w.token(0xFE), Some(0xFE));
    let mut w = Wait::new(2);
    assert_eq!(w.ready(0), None);
    assert_eq!(w.ready(0), Some(false));
    assert_eq!(Wait::new(1).ready(0xFF), Some(true));
    assert_eq!(loopback(&[0xA5, 0x3C, 0, 0x81]), 3);
}

#[test]
fn addresses_and_wiring() {
    assert_eq!(card_addr(true, 10), 10);
    assert_eq!(card_addr(false, 10), 5120);
    assert_eq!((bus_config(true).divisor, bus_config(true).drive), (4, Drive::ExtraHigh));
    assert_eq!((bus_config(false).divisor, bus_config(false).drive), (2, Drive::Standard));
    let mut none: Option<SdCard> = None;
    release_pins(&mut none);
    assert!(none.is_none());
    let mut bus = SpimSoftCs::new_blocking(Config::default());
    bus.engage();
    let mut card = Some(SdCard { bus, high_capacity: true });
    release_pins(&mut card);
    assert!(card.unwrap().bus.is_bitbang());
    let mut st = Stats::new();
    account(&mut st, true, 3, 100, 50);
    account(&mut st, false, 1, 5, 9);
    assert_eq!(st.stats_take(), (1536, 0x1_0000_0000 - 50, 512, 4));
}

fn lv(sck: bool, mosi: bool, cs: bool) -> Levels {
    Levels { sck, miso: true, mosi, cs }
}

#[test]
fn line_activity() {
    assert_eq!(Levels::of(0x10), Levels { sck: true, miso: false, mosi: false, cs: false });
    assert_eq!(Levels::of(0xE0), Levels { sck: false, miso: true, mosi: true, cs: true });
    let v = [lv(false, true, true), lv(true, true, false), lv(false, true, false)];
    assert_eq!(edge_count(&v, Wire::Sck), 2);
    assert_eq!(edge_count(&v, Wire::Cs), 1);
    assert_eq!(edge_count(&v, Wire::Miso), 0);
    assert_eq!(edge_count(&[], Wire::Sck), 0);
    assert_eq!(low_count(&v, Wire::Cs), 2);
    assert_eq!(percent(50, 1000), 5);
    assert_eq!(percent(50, 99), 50);
}

#[test]
fn clock_periods() {
    let v = [
        lv(false, true, false),
        lv(true, true, false),
        lv(false, true, false),
        lv(true, true, false),
    ];
    let h = half_periods(&[0, 10, 330, 660], &v);
    assert_eq!((h.min, h.max, h.sum, h.count), (320, 330, 650, 2));
    assert_eq!(half_periods(&[], &[]).count, 0);
    assert_eq!(micros(330, 160), (2, 6));
    assert_eq!(micros(5, 0), (5, 0));
}

#[test]
fn sniffed_bytes() {
    let mut d = Decoder::new();
    let mut marks = Vec::new();
    for k in 0..8 {
        let bit = 0xA7u8 >> (7 - k) & 1 == 1;
        marks.extend(d.sample(true, false, bit));
        marks.extend(d.sample(false, false, bit));
    }
    assert_eq!(marks, vec![Mark::Byte(0xA7)]);
    d.sample(true, false, true);
    d.sample(true, false, true);
    assert_eq!(d.sample(false, true, true), vec![Mark::Bits(2), Mark::Release]);
    assert_eq!(d.sample(false, true, true), vec![]);
}

#[test]
fn long_captures_are_cut() {
    let mut d = Decoder::new();
    let mut bytes = 0;
    let mut lines = 0;
    let mut more = 0;
    for _ in 0..8 * 1000 {
        for m in d.sample(true, false, true) {
            match m {
                Mark::Byte(x) => {
                    assert_eq!(x, 0xFF);
                    bytes += 1;
                }
                Mark::Line => lines += 1,
                Mark::More => more += 1,
                _ => panic!("no release came"),
            }
        }
    }
    assert_eq!(more, 1);
    assert_eq!(bytes + lines, 401);
}

fn attempt_with(answers: &[Answer]) -> i32 {
    let (mut a, mut ops) = Attempt::attempt();
    let mut i = 0;
    loop {
        if let Some(rc) = end(&ops) {
            assert_eq!(i, answers.len());
            return rc;
        }
        ops = a.next(answers[i]);
        i += 1;
    }
}

#[test]
fn the_tester() {
    let ocr = Answer::Four(0xC0, 0, 0, 0);
    let echo = Answer::Four(0, 0, 1, 0xAA);
    assert_eq!(attempt_with(&[b(1), b(1), echo, b(1), b(0), b(0), ocr, b(0), b(0xFE)]), 0);
    assert_eq!(attempt_with(&[b(1), b(1), echo, b(1), b(0), b(0), ocr, b(0), b(0xFF)]), -1);
    assert_eq!(attempt_with(&[b(1), b(5), b(1), b(0), b(0), ocr, b(9)]), -1);
    assert_eq!(attempt_with(&vec![b(0xFF); 8]), -1);
    assert!(is_image(b"WSPRIMG1...."));
    assert!(!is_image(b"WSPRIMG2...."));
}

#[test]
fn a_diagnostic_ends_idle() {
    let s = diag(2);
    assert_eq!(s.len(), 46);
    assert_eq!(s[..23], s[23..]);
    let last = |l: Line| {
        s.iter().rev().find_map(|d| match d {
            DiagStep::Drive(m, high) if *m == l => Some(*high),
            _ => None,
        })
    };
    assert_eq!(last(Line::Sck), Some(false));
    assert_eq!(last(Line::Mosi), Some(true));
    assert_eq!(last(Line::Cs), Some(true));
    assert_eq!(last(Line::Miso), None);
    assert_eq!(s[22], DiagStep::Loop(0x81));
    assert!(diag(0).is_empty());
}

#[test]
fn a_monitor_counts_as_samples_come() {
    let words = [0x00u32, 0x90, 0x80, 0x10, 0x70, 0x00, 0xF0, 0xF0];
    let v: Vec<Levels> = words.iter().map(|w| Levels::of(*w)).collect();
    let mut m = Monitor::new(v[0]);
    for l in &v[1..] {
        m.sample(*l);
    }
    assert_eq!(m.samples, 7);
    assert!(m.active());
    for (w, a) in
        [(Wire::Sck, m.sck), (Wire::Miso, m.miso), (Wire::Mosi, m.mosi), (Wire::Cs, m.cs)]
    {
        assert_eq!(a.edges, edge_count(&v, w));
        assert_eq!(a.lows, low_count(&v[1..], w));
    }
    assert_eq!((m.sck.edges, m.cs.edges, m.miso.lows), (5, 3, 4));
    let mut quiet = Monitor::new(v[0]);
    quiet.sample(v[0]);
    assert!(!quiet.active());
}

#[test]
fn a_recording_starts_at_a_selection() {
    let mut a = Arm::new();
    assert!(!a.sample(false));
    assert!(!a.sample(false));
    assert!(!a.sample(true));
    assert!(!a.sample(true));
    assert!(a.sample(false));
    assert_eq!(calibrate(0xFFFF_FFF0, 16_000_000 - 16), 160);
    assert_eq!(idle_limit(160), 160_000_000);
}

#[test]
fn a_recording_ends_idle_or_full() {
    let low = Levels::of(0x00);
    let clock = Levels::of(0x10);
    let high = Levels::of(0x80);
    let mut r = Recorder::new(low, 100);
    assert!(r.sample(1, low) && r.sample(2, clock) && r.sample(3, low));
    assert!(r.sample(10, high) && r.sample(60, high));
    assert!(r.sample(70, low) && r.sample(80, high));
    assert!(r.sample(180, high));
    assert!(!r.sample(181, high));
    assert!(!r.sample(182, low));
    assert_eq!(r.ts, [0, 2, 3, 10, 70, 80]);
    assert_eq!(r.val, [low, clock, low, high, low, high]);
    let mut full = Recorder::new(low, 100);
    for i in 1..CAP {
        assert!(full.sample(i as u32, if i % 2 == 1 { clock } else { low }));
    }
    assert!(full.sample(99_999, full.prev));
    assert!(!full.sample(99_999, high));
    assert_eq!(full.ts.len(), CAP);
}

#[test]
fn averages_of_half_periods() {
    let h = Halves { last: Some(9), min: 1, max: 9, sum: 100, count: 7 };
    assert_eq!(h.average(), 14);
    assert_eq!(Halves { sum: 0x1_0000_0008, count: 4, ..h }.average(), 2);
    assert_eq!((TESTER_R1_BYTES, TESTER_TOKEN_BYTES), (16, 100_000));
}
