use whisper::hal::usbhs::device::{BusEvent, EndpointStatus, Speed};
use whisper::hal::usbhs::Error;
use whisper::usbdev::{
    drain, ep_in_check, ep_out_check, handle_setup, init_code, init_step, recv, recv_check,
    recv_landed, recv_start, send, send_check, send_first, send_start, string_desc, Arm, Budget,
    Check, Flow, Link, Next, Reply, Run,
};

fn reply(bm: u8, req: u8, value: u16, len: u16, configured: bool) -> Reply {
    let v = value.to_le_bytes();
    let l = len.to_le_bytes();
    handle_setup(&[bm, req, v[0], v[1], 0, 0, l[0], l[1]], configured)
}

fn data(r: Reply) -> Vec<u8> {
    match r {
        Reply::In(d) => d,
        _ => panic!("no data"),
    }
}

#[test]
fn device_descriptor_is_cut_to_the_request() {
    let whole = data(reply(0x80, 6, 0x0100, 64, false));
    assert_eq!(whole.len(), 18);
    assert_eq!(whole[0], 18);
    assert_eq!(&whole[8..12], &[0x09, 0x12, 0x01, 0x00]);
    assert_eq!(data(reply(0x80, 6, 0x0100, 8, false)), whole[..8]);
}

#[test]
fn configuration_descriptor() {
    let c = data(reply(0x80, 6, 0x0200, 255, false));
    assert_eq!(c.len(), 67);
    assert_eq!(u16::from_le_bytes([c[2], c[3]]), 67);
    // the chain of descriptors ends where the total says
    let mut at = 0;
    while at < c.len() {
        at += c[at] as usize;
    }
    assert_eq!(at, 67);
    assert_eq!(&c[53..60], &[7, 0x05, 0x01, 0x02, 0x00, 0x02, 0]);
}

#[test]
fn other_descriptors() {
    assert_eq!(data(reply(0x80, 6, 0x0600, 255, false)).len(), 10);
    assert_eq!(data(reply(0x80, 6, 0x0300, 255, false)), [4, 3, 9, 4]);
    let maker = data(reply(0x80, 6, 0x0301, 255, false));
    assert_eq!(maker.len(), 2 + 2 * 12);
    assert_eq!(&maker[..6], &[26, 3, b'n', 0, b'R', 0]);
    let serial = data(reply(0x80, 6, 0x0303, 255, false));
    assert_eq!(&serial[2..4], &[b'W', 0]);
    assert!(matches!(reply(0x80, 6, 0x0700, 255, false), Reply::Stall));
}

#[test]
fn string_descriptors() {
    assert_eq!(string_desc(b"Hi"), [6, 3, b'H', 0, b'i', 0]);
    assert_eq!(string_desc(b""), [2, 3]);
}

#[test]
fn standard_requests() {
    assert!(matches!(reply(0x00, 5, 9, 0, false), Reply::SetAddress(9)));
    assert!(matches!(reply(0x00, 5, 0x89, 0, false), Reply::SetAddress(9)));
    assert!(matches!(reply(0x00, 9, 1, 0, false), Reply::Configure(true)));
    assert!(matches!(reply(0x00, 9, 0, 0, true), Reply::Configure(false)));
    assert_eq!(data(reply(0x80, 8, 0, 1, true)), [1]);
    assert_eq!(data(reply(0x80, 8, 0, 1, false)), [0]);
    assert_eq!(data(reply(0x80, 0, 0, 2, true)), [0, 0]);
    assert_eq!(data(reply(0x81, 0x0A, 0, 1, true)), [0]);
    assert!(matches!(reply(0x02, 1, 0, 0, true), Reply::StatusIn));
    assert!(matches!(reply(0x80, 0x33, 0, 0, true), Reply::Stall));
    assert!(matches!(reply(0x40, 5, 9, 0, false), Reply::Stall));
}

#[test]
fn class_requests() {
    assert!(matches!(reply(0x21, 0x20, 0, 7, true), Reply::OutThenStatus));
    assert_eq!(data(reply(0xA1, 0x21, 0, 7, true)), [0x00, 0xC2, 0x01, 0x00, 0, 0, 8]);
    assert!(matches!(reply(0x21, 0x22, 3, 0, true), Reply::StatusIn));
    assert!(matches!(reply(0x21, 0x23, 3, 0, true), Reply::StatusIn));
    assert!(matches!(reply(0x21, 0x24, 3, 0, true), Reply::Stall));
}

#[test]
fn a_reset_after_configuration_loses_the_link() {
    let mut l = Link::new();
    assert!(l.pump(BusEvent::Reset));
    assert!(!l.reset_after_config);
    assert!(l.pump(BusEvent::Enumerated(Speed::High)));
    assert!(!l.pump(BusEvent::Quiet));
    l.replied(&Reply::SetAddress(5));
    l.replied(&Reply::Configure(true));
    assert!(l.configured());
    assert_eq!(l.address, 5);
    assert!(l.pump(BusEvent::Reset));
    assert!(l.reset_after_config && !l.configured());
    l.settled();
    assert!(!l.reset_after_config);
}

#[test]
fn bring_up_codes() {
    assert_eq!(init_code(Error::NoVbus), -600);
    assert_eq!(init_code(Error::Xo24mTimeout), -601);
    assert_eq!(init_code(Error::CoreNotResponding), -602);
    assert_eq!(init_code(Error::AhbNotIdle), -603);
    assert_eq!(init_code(Error::ResetTimeout), -604);
    assert_eq!(init_code(Error::ModeRefused), -630);
    let mut l = Link::new();
    assert_eq!(init_step(&mut l, false, false), None);
    assert_eq!(init_step(&mut l, true, false), None);
    assert_eq!(init_step(&mut l, true, true), Some(-631));
    l.configured = true;
    l.reset_after_config = true;
    assert_eq!(init_step(&mut l, false, false), Some(0));
    assert!(!l.reset_after_config);
}

#[test]
fn budgets_outlast_the_counter() {
    let mut b = Budget::new(50_000, 10);
    let mut now = 10u32;
    // 50 s are 6.4e9 cycles; the counter goes round once on the way
    for _ in 0..6 {
        now = now.wrapping_add(1_000_000_000);
        assert!(!b.expired(now));
    }
    now = now.wrapping_add(400_000_000);
    assert!(b.expired(now));
}

#[test]
fn endpoint_checks() {
    assert_eq!(ep_in_check(EndpointStatus::Complete(0), true, true), Check::Moved(0));
    assert_eq!(ep_in_check(EndpointStatus::AhbError, false, false), Check::Abort(-621));
    assert_eq!(ep_in_check(EndpointStatus::Busy, true, true), Check::Abort(-623));
    assert_eq!(ep_in_check(EndpointStatus::Busy, false, true), Check::Abort(-620));
    assert_eq!(ep_in_check(EndpointStatus::Busy, false, false), Check::Running);
    assert_eq!(ep_out_check(EndpointStatus::Busy, false, true), Check::Abort(-622));
    assert_eq!(ep_out_check(EndpointStatus::Complete(7), false, false), Check::Moved(7));
}

fn runs_of(len: usize) -> Vec<Run> {
    let mut runs = vec![send_first(len)];
    loop {
        match send(runs[runs.len() - 1], len, 0) {
            Next::More(r) => runs.push(r),
            Next::Done(rc) => {
                assert_eq!(rc, 0);
                return runs;
            }
        }
    }
}

#[test]
fn sends_end_with_a_short_packet() {
    assert_eq!(runs_of(512), vec![Run { off: 0, n: 512 }, Run { off: 0, n: 0 }]);
    assert_eq!(runs_of(100), vec![Run { off: 0, n: 100 }]);
    assert_eq!(runs_of(0), vec![Run { off: 0, n: 0 }]);
    let big = runs_of(523776 + 5);
    assert_eq!(big, vec![Run { off: 0, n: 523776 }, Run { off: 523776, n: 5 }]);
}

#[test]
fn a_send_stops_at_its_first_failure() {
    let len = 2 * 523776;
    let first = send_first(len);
    assert_eq!(send(first, len, -621), Next::Done(-621));
    let second = Run { off: 523776, n: 523776 };
    assert_eq!(send(first, len, 0), Next::More(second));
    assert_eq!(send(second, len, -622), Next::Done(-622));
    let empty = Run { off: 0, n: 0 };
    assert_eq!(send(second, len, 0), Next::More(empty));
    assert_eq!(send(empty, len, -620), Next::Done(-620));
    assert_eq!(send(empty, len, 0), Next::Done(0));
}

#[test]
fn split_sends_run_the_same_runs() {
    let len = 2 * 523776;
    let runs = runs_of(len);
    let (mut x, first) = send_start(0x2000_0000, len, 1000, 0);
    let mut armed = vec![first];
    loop {
        assert_eq!(send_check(&mut x, EndpointStatus::Busy, false, 5), Flow::Wait);
        match send_check(&mut x, EndpointStatus::Complete(0), false, 9) {
            Flow::Arm(a) => armed.push(a),
            Flow::Done => break,
            _ => panic!("unexpected"),
        }
    }
    assert_eq!(armed.len(), runs.len());
    for (a, r) in armed.iter().zip(&runs) {
        assert_eq!(*a, Arm { addr: 0x2000_0000 + r.off as u32, n: r.n });
    }
    let (mut y, _) = send_start(0x2000_0000, 10, 1, 0);
    assert_eq!(send_check(&mut y, EndpointStatus::Busy, false, 200_000), Flow::Abort(-620));
}

#[test]
fn receives_go_on_after_short_packets() {
    let (mut x, a) = recv_start(0x2000_0000, 2048, 1000, 0);
    assert_eq!(a, Arm { addr: 0x2000_0000, n: 2048 });
    assert_eq!(recv_landed(&x, 2048), 0);
    assert_eq!(recv_landed(&x, 512), 512);
    assert_eq!(recv_landed(&x, 0), 1024);
    let f = recv_check(&mut x, EndpointStatus::Complete(512), false, 1);
    assert_eq!(f, Flow::Arm(Arm { addr: 0x2000_0200, n: 1536 }));
    assert_eq!(recv_check(&mut x, EndpointStatus::Complete(1536), false, 2), Flow::Done);
    let (mut y, _) = recv_start(0x2000_0000, 512, 1000, 0);
    assert_eq!(recv_check(&mut y, EndpointStatus::Complete(0), false, 2), Flow::Fail(-624));
    let (mut z, _) = recv_start(0x2000_0000, 512, 1, 0);
    assert_eq!(recv_check(&mut z, EndpointStatus::Busy, false, 200_000), Flow::Abort(-622));
}

#[test]
fn blocking_receives() {
    assert_eq!(recv(0, 1024, Ok(512)), Next::More(Run { off: 512, n: 512 }));
    assert_eq!(recv(512, 1024, Ok(512)), Next::Done(0));
    assert_eq!(recv(512, 1024, Ok(0)), Next::Done(-624));
    assert_eq!(recv(512, 1024, Err(-622)), Next::Done(-622));
    assert!(drain(0, true) && drain(63, true));
    assert!(!drain(64, true) && !drain(3, false));
}

#[test]
fn deadlines_outlast_the_counter() {
    let mut b = Budget::new(60_000, 5);
    let step = 0xC000_0000u32;
    let mut now = 5u32;
    let mut polls = 0;
    loop {
        now = now.wrapping_add(step);
        polls += 1;
        if b.expired(now) {
            break;
        }
    }
    assert_eq!(polls, 3);
    assert_eq!(b.acc, 3 * step as u64);
}
