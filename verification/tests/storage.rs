use whisper::hal::usbhs::host::{Direction, EndpointType, Pid, Speed, TransferError};
use whisper::hal::usbhs::Error;
use whisper::mockblk::{
    budget_ms, build_request, build_response, handshake, parse_request, response_parse, rw, sum32,
    Act, Exchange, Path, Request, Response, Shake, Stats, OP_READ, OP_WRITE,
};
use whisper::storage::{Backend, Probe, Storage, Wiring};
use whisper::usb::{
    block_result, bot_recover, chunk_bytes, code, command, command_status, control_in,
    inquiry_name, needs_recovery, request_sense, rw_aligned, rw_blocks, xfer_code, Bot, BotAct,
    settle_ms, Bringup, Dev, InitStage, Poll, Report,
};

#[test]
fn a_stick_is_tried_three_times() {
    let w = Wiring { sd_card: true, mock_usb: false };
    let mut s = Storage::new();
    assert_eq!(s.name(), "none");
    assert_eq!(s.route(), Err(-490));
    let mut p = s.init(w);
    let mut seen = Vec::new();
    while p != Probe::Sd {
        seen.push(p);
        p = s.probed(w, p, -610);
    }
    assert_eq!(seen, [Probe::Usb(1), Probe::Usb(2), Probe::Usb(3)]);
    assert_eq!(s.probed(w, p, 0), Probe::Done(0));
    assert_eq!(s.backend(), Backend::Sd);
    let bare = Wiring { sd_card: false, mock_usb: false };
    assert_eq!(s.probed(bare, Probe::Usb(3), -610), Probe::Done(-610));
    assert_eq!(s.probed(bare, Probe::Usb(1), 0), Probe::Done(0));
    assert_eq!(s.backend(), Backend::Usb);
    let linked = Wiring { sd_card: true, mock_usb: true };
    let first = s.init(linked);
    assert_eq!((first, s.backend()), (Probe::Mock, Backend::Absent));
    assert_eq!(s.probed(linked, first, -647), Probe::Done(-647));
    assert_eq!(s.backend(), Backend::Absent);
}

#[test]
fn one_transfer_is_pending() {
    let mut s = Storage { backend: Backend::Usb, pending: false, sd_rc: 0 };
    assert_eq!(s.route(), Ok(Backend::Usb));
    assert_eq!(s.landed(7), usize::MAX);
    assert_eq!(s.started(-660), -660);
    assert!(!s.busy());
    assert_eq!(s.started(0), 0);
    assert!(s.busy());
    assert_eq!(s.route(), Err(-495));
    assert_eq!(s.landed(7), 7);
    assert!(!s.poll(false));
    assert!(s.poll(true));
    assert_eq!(s.finish(-661), -661);
    assert_eq!(s.finish(-661), 0);
    // a card completes when it starts
    let mut s = Storage { backend: Backend::Sd, pending: false, sd_rc: 0 };
    assert_eq!(s.started(-430), 0);
    assert!(s.poll(false));
    assert_eq!(s.landed(7), usize::MAX);
    assert_eq!(s.finish(0), -430);
    assert_eq!(s.stats_take((1, 2, 3, 4)), (1, 2, 3, 4));
    assert_eq!(Storage::new().stats_take((1, 2, 3, 4)), (0, 0, 0, 0));
}

#[test]
fn frames_of_the_link_come_through() {
    let r = Request { op: OP_WRITE, lba: 77, count: 3, sum: 0xFFFF_FFFF, tag: 9 };
    let f = build_request(r);
    assert_eq!(f.len(), 512);
    assert_eq!(&f[..4], b"BLKQ");
    assert_eq!(parse_request(&f), Some(r));
    let other = build_response(Response { status: 0, count: 0, sum: 0, tag: 0 });
    assert_eq!(parse_request(&other), None);
    let a = Response { status: -5, count: 2, sum: 11, tag: 9 };
    let f = build_response(a);
    assert_eq!(&f[..4], b"BLKR");
    assert_eq!(response_parse(&f, 9), Ok((-5, 2, 11)));
    assert_eq!(response_parse(&f, 8), Err(-648));
    assert_eq!(response_parse(&[0; 512], 0), Err(-640));
    assert_eq!(sum32(&[1, 0, 0, 0x80, 0xFF, 0xFF, 0xFF, 0xFF, 9]), 2);
    assert_eq!(budget_ms(9), 3008);
}

#[test]
fn exchanges_over_the_link() {
    let data = vec![3u8; 1024];
    let sum = sum32(&data);
    let (mut x, r) = Exchange::begin(4, 50, 2, true, &[]);
    assert_eq!((r.op, r.lba, r.count, r.tag), (OP_READ, 50, 2, 5));
    assert_eq!(x.requested(0), Act::Response);
    let ok = build_response(Response { status: 0, count: 2, sum, tag: 5 });
    let short = build_response(Response { status: 0, count: 1, sum, tag: 5 });
    let bad = build_response(Response { status: -1, count: 2, sum, tag: 5 });
    assert_eq!(x.answered(0, &short), Act::Done(-644));
    assert_eq!(x.answered(0, &bad), Act::Done(-643));
    assert_eq!(x.answered(-3, &ok), Act::Done(-3));
    assert_eq!(x.answered(0, &ok), Act::Receive);
    assert_eq!(x.moved(0, &data), Act::Done(0));
    assert_eq!(x.moved(0, &vec![4u8; 1024]), Act::Done(-645));
    let (mut x, r) = Exchange::begin(u32::MAX, 50, 2, false, &data);
    assert_eq!((r.op, r.sum, r.tag), (OP_WRITE, sum, 0));
    assert_eq!(x.requested(0), Act::Send);
    assert_eq!(x.moved(0, &data), Act::Response);
    let bad = build_response(Response { status: -1, count: 2, sum, tag: 0 });
    assert_eq!(x.answered(0, &bad), Act::Done(-646));
    let ok = build_response(Response { status: 0, count: 0, sum: 0, tag: 0 });
    assert_eq!(x.answered(0, &ok), Act::Done(0));
    assert_eq!(rw(false, 0, 1), Path::Now(-642));
    assert_eq!(rw(true, 0, 0), Path::Now(0));
    assert_eq!(rw(true, 2, 1), Path::Bounce);
    assert_eq!(rw(true, 4, 1), Path::Direct);
}

#[test]
fn transfers_over_the_link_in_the_background() {
    let data = vec![3u8; 1024];
    let mut a = whisper::mockblk::AsyncOp::new();
    assert!(a.xfer_poll());
    assert_eq!(
        whisper::mockblk::read_start(&mut a, true, 8, 2),
        whisper::mockblk::Start::Split
    );
    let (mut x, _) = Exchange::begin(0, 1, 2, true, &[]);
    x.sum = sum32(&data);
    a.armed(x);
    assert_eq!(a.xfer_landed(100), 100);
    assert_eq!(
        whisper::mockblk::write_start(&mut a, true, 8, 2),
        whisper::mockblk::Start::Refused(-495)
    );
    assert!(a.data_done(0, &data));
    assert_eq!(a.xfer_landed(100), 1024);
    assert_eq!(a.xfer_finish(), 0);
    let (x, _) = Exchange::begin(0, 1, 2, false, &data);
    a.armed(x);
    assert!(!a.data_done(0, &data));
    a.resp_done(0, &build_response(Response { status: 3, count: 0, sum: 0, tag: 1 }));
    assert!(a.xfer_poll());
    assert_eq!(a.xfer_finish(), -646);
    assert_eq!(
        whisper::mockblk::read_start(&mut a, true, 3, 2),
        whisper::mockblk::Start::Blocking
    );
    a.done(-9);
    assert_eq!(a.xfer_finish(), -9);
}

#[test]
fn handshakes_are_repeated() {
    assert_eq!(handshake(0, 0, Ok((0, 5000, 0))), Shake::Ready(5000));
    assert_eq!(handshake(0, -651, Ok((0, 5000, 0))), Shake::Again);
    assert_eq!(handshake(4, -651, Ok((0, 5000, 0))), Shake::Failed(-651));
    assert_eq!(handshake(4, 0, Err(-648)), Shake::Failed(-648));
    assert_eq!(handshake(0, 0, Ok((7, 0, 0))), Shake::Failed(-641));
}

#[test]
fn traffic_is_counted() {
    let mut s = Stats::new();
    s.account(true, 3, 0xFFFF_FFFE, 5);
    s.account(false, 1, 10, 14);
    assert_eq!(s.stats_take(), (1536, 7, 512, 4));
    assert_eq!(s.stats_take(), (0, 0, 0, 0));
}

#[test]
fn result_codes() {
    let table = [
        (Error::NoVbus, -600),
        (Error::Xo24mTimeout, -601),
        (Error::CoreNotResponding, -602),
        (Error::AhbNotIdle, -603),
        (Error::ResetTimeout, -604),
        (Error::ModeRefused, -605),
    ];
    for (e, c) in table {
        assert_eq!(code(e), c);
    }
    let table = [
        (TransferError::Timeout, -650),
        (TransferError::Stall, -651),
        (TransferError::Transaction, -652),
        (TransferError::Babble, -653),
        (TransferError::DataToggle, -654),
        (TransferError::Ahb, -655),
        (TransferError::FrameOverrun, -656),
        (TransferError::Unknown, -657),
    ];
    for (e, c) in table {
        assert_eq!(xfer_code(e), c);
    }
    assert_eq!(block_result(-670, true), -661);
    assert_eq!(block_result(-670, false), -662);
    assert_eq!(block_result(-650, true), -650);
    assert!(!needs_recovery(0));
    assert!(!needs_recovery(-670));
    assert!(needs_recovery(-671));
}

fn dev() -> Dev {
    let mut d = Dev::new();
    d.addr = 1;
    d.msc.ep_in = 1;
    d.msc.ep_out = 2;
    d.msc.mps_in = 512;
    d.msc.mps_out = 512;
    d.ready = true;
    d
}

#[test]
fn endpoints_and_toggles() {
    let mut d = dev();
    let e = d.bulk_ep(true);
    assert_eq!((e.number, e.direction, e.ep_type), (1, Direction::In, EndpointType::Bulk));
    assert_eq!(d.bulk_ep(false).number, 2);
    assert_eq!(d.ep0(Direction::Out).ep_type, EndpointType::Control);
    assert_eq!(d.bulk(true, Ok(Pid::Data1)), 0);
    assert_eq!((d.next_pid(true), d.next_pid(false)), (Pid::Data1, Pid::Data0));
    assert_eq!(d.bulk(true, Err(TransferError::Stall)), -651);
    assert_eq!(d.next_pid(true), Pid::Data1);
    assert_eq!(d.clear_halt(true), [2, 1, 0, 0, 0x81, 0, 0, 0]);
    assert_eq!(d.clear_halt(false), [2, 1, 0, 0, 2, 0, 0, 0]);
    d.halt_cleared(true, -650);
    assert_eq!(d.next_pid(true), Pid::Data1);
    d.halt_cleared(true, 0);
    assert_eq!(d.next_pid(true), Pid::Data0);
    assert_eq!(bot_recover(&d), [0x21, 0xFF, 0, 0, 0, 0, 0, 0]);
}

#[test]
fn control_requests_have_stages() {
    let s = control_in(64, 18);
    assert_eq!(s.len(), 3);
    assert_eq!((s[0].pid, s[0].len, s[0].setup), (Pid::Setup, 8, true));
    assert_eq!((s[1].direction, s[1].pid, s[1].len), (Direction::In, Pid::Data1, 64));
    assert_eq!((s[2].direction, s[2].len), (Direction::Out, 0));
    let s = control_in(64, 0);
    assert_eq!(s.len(), 2);
    assert_eq!(s[1].direction, Direction::In);
}

fn csw(tag: u32, status: u8) -> Vec<u8> {
    let mut b = b"USBS".to_vec();
    b.extend(tag.to_le_bytes());
    b.extend([0, 0, 0, 0, status]);
    b
}

#[test]
fn commands_run_to_their_status() {
    let mut d = dev();
    let (mut b, block) = Bot::bot(&mut d, &[0x28], true, 1000);
    assert_eq!(d.tag, b.tag);
    assert_eq!(&block[..4], b"USBC");
    assert_eq!(b.sent(0), BotAct::Data { off: 0, prog: 1024 });
    let mut stalled = b;
    assert_eq!(b.moved(0), BotAct::Status);
    assert_eq!(b.status(0, &csw(b.tag, 0)), BotAct::Done(0));
    assert_eq!(b.status(0, &csw(b.tag, 1)), BotAct::Done(-670));
    assert_eq!(b.status(0, &csw(b.tag, 2)), BotAct::Done(-671));
    assert_eq!(command_status(&csw(3, 0), 3), 0);
    assert_eq!(b.status(-651, &[]), BotAct::ClearThenStatus(true));
    assert_eq!(b.status(-651, &[]), BotAct::Done(-651));
    assert_eq!(stalled.moved(-651), BotAct::ClearThenStatus(true));
    assert_eq!(stalled.moved(-653), BotAct::Done(-653));
    let (mut b, _) = Bot::bot(&mut d, &[0], false, 0);
    assert_eq!(b.sent(0), BotAct::Status);
    assert_eq!(b.sent(-650), BotAct::Done(-650));
    // long data go in runs
    let (mut b, _) = Bot::bot(&mut d, &[0x2A], false, 600_000);
    assert_eq!(chunk_bytes(512), 523_776);
    assert_eq!(b.sent(0), BotAct::Data { off: 0, prog: 523_776 });
    assert_eq!(b.moved(0), BotAct::Data { off: 523_776, prog: 76_224 });
    assert_eq!(b.moved(0), BotAct::Status);
    assert_eq!(request_sense(0, &[0, 0, 0xF6]), 6);
    assert_eq!(request_sense(-650, &[0, 0, 6]), -650);
}

#[test]
fn blocks_are_moved_by_commands() {
    let c = rw_aligned(10, 70_000, true);
    assert_eq!(c.len(), 2);
    assert_eq!((c[0].lba, c[0].n, c[0].done, c[0].ms), (10, 65535, 0, 67_534));
    assert_eq!((c[1].lba, c[1].n, c[1].done), (65545, 4465, 65535));
    assert_eq!(rw_aligned(10, 0, true).len(), 0);
    assert_eq!(rw_aligned(0, 8, false)[0].ms, 3016);
    assert_eq!(command(c[1], true), [0x28, 0, 0, 1, 0, 9, 0, 0x11, 0x71, 0]);
    assert_eq!(command(c[1], false)[0], 0x2A);
    let d = dev();
    assert_eq!(rw_blocks(&d, 1, 1), Path::Bounce);
    assert_eq!(rw_blocks(&d, 4, 1), Path::Direct);
    assert_eq!(rw_blocks(&d, 4, 0), Path::Now(0));
    assert_eq!(rw_blocks(&Dev::new(), 4, 1), Path::Now(-660));
}

#[test]
fn blocks_are_moved_in_the_background() {
    let d = dev();
    let mut a = whisper::usb::AsyncOp::new();
    assert_eq!(whisper::usb::read_start(&a, &d, 4, 1025), whisper::usb::Start::Split);
    assert_eq!(whisper::usb::write_start(&a, &d, 3, 1025), whisper::usb::Start::Blocking);
    assert_eq!(a.armed(&d, true, 1025, 7, 0), Poll::Arm { off: 0, n: 523_776 });
    assert_eq!(whisper::usb::read_start(&a, &d, 4, 1), whisper::usb::Start::Refused(-495));
    assert_eq!(whisper::usb::xfer_landed(&a, 523_776 - 2048), 1024);
    assert_eq!(whisper::usb::xfer_landed(&a, 523_776), 0);
    assert_eq!(a.poll_inner(0, &[]), Poll::Arm { off: 523_776, n: 1024 });
    assert_eq!(whisper::usb::xfer_landed(&a, 1024), 522_752);
    assert_eq!(a.poll_inner(0, &[]), Poll::Status(None));
    assert!(!whisper::usb::xfer_poll(&a));
    let mut failed = a;
    assert_eq!(a.poll_inner(0, &csw(7, 0)), Poll::Ready { sense: false, recover: false });
    assert_eq!(whisper::usb::xfer_finish(&mut a), 0);
    assert_eq!(whisper::usb::xfer_finish(&mut a), 0);
    assert_eq!(failed.poll_inner(-651, &csw(7, 0)), Poll::Status(Some(true)));
    assert_eq!(failed.poll_inner(0, &csw(7, 1)), Poll::Ready { sense: true, recover: false });
    assert_eq!(whisper::usb::xfer_finish(&mut failed), -661);
    a.blocking(true, -660);
    assert_eq!(whisper::usb::xfer_finish(&mut a), -660);
}

fn report(rc: i32, data: &[u8]) -> (i32, Vec<u8>) {
    let mut b = data.to_vec();
    b.resize(512, 0);
    (rc, b)
}

fn step(b: &mut Bringup, rc: i32, data: &[u8]) -> Result<(), i32> {
    let (rc, data) = report(rc, data);
    b.init(Report { rc, data: &data, speed: Speed::High, expired: false })
}

fn config() -> Vec<u8> {
    let mut c = vec![9, 2, 32, 0, 1, 5, 0, 0x80, 50];
    c.extend([9, 4, 0, 0, 2, 8, 6, 0x50, 0]);
    c.extend([7, 5, 0x81, 2, 0, 2, 0]);
    c.extend([7, 5, 0x02, 2, 0, 2, 0]);
    c
}

#[test]
fn a_peripheral_in_the_other_role_is_left_alone() {
    assert_eq!(Bringup::begin(false).err(), Some(-606));
    let b = Bringup::begin(true).ok().unwrap();
    assert_eq!(b.stage, InitStage::Power);
}

#[test]
fn a_stick_is_brought_up() {
    let mut b = Bringup::new();
    assert_eq!(b.request(), None);
    let mut codes = Vec::new();
    let good: Vec<Vec<u8>> = vec![
        vec![],
        vec![],
        vec![],
        vec![18, 1, 0, 2, 0, 0, 0, 64],
        vec![],
        vec![18, 1, 0, 2, 0, 0, 0, 64, 0x34, 0x12, 0x78, 0x56],
        config()[..9].to_vec(),
        config(),
        vec![],
        vec![],
        vec![0, 0, 0x10, 0, 0, 0, 2, 0],
    ];
    for data in &good {
        let mut failing = b;
        match step(&mut failing, -650, &[]) {
            Err(c) => codes.push(c),
            Ok(()) => codes.push(0),
        }
        assert_eq!(step(&mut b, 0, data), Ok(()));
    }
    assert_eq!(codes, [-650, -610, -611, 0, -622, -623, -624, -625, -627, 0, -641]);
    assert_eq!(b.stage, InitStage::Ready);
    assert!(b.dev.ready);
    assert_eq!((b.vid, b.pid, b.last_lba), (0x1234, 0x5678, 0x1000));
    assert_eq!((b.dev.addr, b.dev.mps0), (1, 64));
    assert_eq!((b.dev.msc.ep_in, b.dev.msc.ep_out, b.dev.msc.cfg_value), (1, 2, 5));
}

#[test]
fn transfers_come_one_at_a_time() {
    let mut s = Storage::new();
    s.backend = Backend::Sd;
    assert_eq!(s.route(), Ok(Backend::Sd));
    assert_eq!(s.started(-310), 0);
    assert_eq!(s.route(), Err(-495));
    assert_eq!(s.finish(0), -310);
    assert_eq!(s.finish(0), 0);
    s.backend = Backend::Usb;
    assert_eq!(s.started(-650), -650);
    assert_eq!(s.route(), Ok(Backend::Usb));
    assert_eq!(s.started(0), 0);
    assert!(s.busy() && !s.poll(false) && s.poll(true));
    assert_eq!(s.finish(-661), -661);
}

#[test]
fn bring_up_refusals() {
    let mut b = Bringup::new();
    b.stage = InitStage::Reset;
    let zeros = vec![0u8; 512];
    let low = Report { rc: 0, data: &zeros, speed: Speed::Low, expired: false };
    assert_eq!(b.init(low), Err(-612));
    b.stage = InitStage::FirstDescriptor;
    assert_eq!(step(&mut b, 0, &[]), Err(-621));
    b.stage = InitStage::FirstDescriptorAgain;
    assert_eq!(step(&mut b, -650, &[]), Err(-620));
    assert_eq!(b.request(), Some(([0x80, 6, 0, 1, 0, 0, 8, 0], 8)));
    b.stage = InitStage::ConfigHeader;
    assert_eq!(step(&mut b, 0, &[9, 2, 8, 0]), Err(-625));
    b.stage = InitStage::ConfigWhole;
    b.total = 9;
    assert_eq!(step(&mut b, 0, &config()), Err(-626));
    assert_eq!(b.scsi(), None);
    assert!(!b.wants_sense(-670) && b.powers_down(-650));
    b.stage = InitStage::UnitReady;
    assert_eq!(b.scsi(), Some((vec![0; 6], 0)));
    assert!(b.wants_sense(-670) && b.wants_sense(-671) && !b.wants_sense(-650));
    let late = Report { rc: -670, data: &zeros, speed: Speed::High, expired: true };
    assert_eq!(b.init(late), Err(-640));
    b.stage = InitStage::Capacity;
    assert_eq!(b.scsi(), Some((vec![0x25, 0, 0, 0, 0, 0, 0, 0, 0, 0], 8)));
    assert_eq!(step(&mut b, 0, &[0, 0, 0, 0, 0, 0, 16, 0]), Err(-642));
    let fresh = Bringup::new();
    assert!(fresh.powers_down(-605) && !fresh.powers_down(-600));
    assert_eq!(settle_ms(InitStage::Connect, InitStage::Reset), 100);
    assert_eq!(settle_ms(InitStage::SetConfig, InitStage::UnitReady), 5);
    assert_eq!(settle_ms(InitStage::UnitReady, InitStage::UnitReady), 20);
    assert_eq!(settle_ms(InitStage::Capacity, InitStage::Ready), 0);
    let mut inquiry = vec![0u8; 36];
    inquiry[8..11].copy_from_slice(b"Abc");
    assert_eq!(&inquiry_name(&inquiry)[..5], b"Abc??");
}
