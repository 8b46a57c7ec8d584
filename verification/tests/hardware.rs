use whisper::hal::axons::{Axons, Enable};
use whisper::hal::pdm::{gain_register, run_bytes, Config as PdmConfig, Error as Refusal, Pdm};
use whisper::hal::spim::{
    bit_level, bitbang_byte, csn_duration, needs_workaround, shift_in, Config,
    Drive, Error as LinkError, FaultSnapshot, Line, Path, Pull, SpimSoftCs,
    Stage,
};
use whisper::hal::usbhs::device::{
    endpoint_offset, fifo_words, AbortStep, BusEvent, Config as FifoConfig, Device, Direction,
    EndpointStatus, Ep0Out, Ep0Size, EpType, Speed,
};
use whisper::hal::usbhs::host::{
    packet_count, ChannelInts, Endpoint, EndpointType, Host, Hprt, Pid, PortReset, TransferError,
};
use whisper::hal::usbhs::{
    elapsed_ms, is_core, power_up, stage_ms, Error, PowerNext, PowerStage,
};

#[test]
fn gains_saturate() {
    let mut p = Pdm::new_blocking(PdmConfig::default());
    assert_eq!(p.set_gain(0, 24), (0x28, 0x40));
    assert_eq!((p.config.gain_left, p.config.gain_right), (0, 24));
    assert_eq!(p.set_gain(40, 41), (0x50, 0x50));
    assert_eq!(p.set_gain(-40, -41), (0, 0));
    assert_eq!(p.set_gain(i8::MAX, i8::MIN), (0x50, 0));
    assert_eq!(p.set_gain(-1, 1), (0x27, 0x29));
    assert_eq!(gain_register(24), 0x40);
}

#[test]
fn microphone_buffers() {
    let p = Pdm::new_blocking(PdmConfig::default());
    assert_eq!(p.blocking_stream(0, 0), Err(Refusal::BufferZeroLength));
    assert_eq!(p.blocking_stream(320, 319), Err(Refusal::BufferLengthMismatch));
    assert_eq!(p.blocking_stream(1 << 20, 1 << 20), Err(Refusal::BufferTooLong));
    assert_eq!(run_bytes(320), 640);
    let mut s = p.blocking_stream(320, 320).unwrap();
    assert_eq!(s.next_buffer(false), 0);
    assert_eq!(s.next_buffer(true), 1);
    assert_eq!(s.next_buffer(true), 0);
    assert_eq!(s.overruns(), 2);
    s.clear_overruns();
    assert_eq!((s.overruns(), s.filling), (0, 1));
    assert_eq!((p.config.prescaler, p.config.ratio, p.config.gain_left), (25, 80, 0));
}

fn snapshot(stage: Stage) -> FaultSnapshot {
    FaultSnapshot {
        stage,
        events_started: 1,
        events_end: 0,
        enable: 7,
        prescaler: 4,
        config: 0,
        dma_rx_end: 0,
        dma_rx_ready: 0,
        dma_rx_buserror: 0,
        dma_rx_match: [0; 4],
        dma_tx_end: 0,
        dma_tx_ready: 0,
        dma_tx_buserror: 0,
        rx_buserror_address: 0,
        tx_buserror_address: 0,
    }
}

#[test]
fn a_timed_out_link_stays_refused() {
    let c = Config::default();
    assert_eq!((c.divisor, c.orc, c.drive, c.bitbang_half_cycles), (4, 0xFF, Drive::Standard, 256));
    let mut s = SpimSoftCs::new_blocking(c);
    assert!(s.is_bitbang());
    assert_eq!(s.path(), Path::BitBang);
    assert_eq!(s.data_lines(), (Line::Mosi, Line::Miso));
    assert!(s.pins.mosi.output && !s.pins.miso.output);
    s.swap_data_pins(true);
    assert_eq!(s.data_lines(), (Line::Miso, Line::Mosi));
    assert!(s.pins.miso.output && !s.pins.mosi.output);
    s.cs_assert();
    assert!(s.selected);
    s.enter_bitbang();
    assert!(!s.selected && s.pins.miso.output);
    s.engage();
    assert_eq!(s.path(), Path::Dma);
    assert!(s.pins.sck.output && s.pins.mosi.output);
    let late = Some(snapshot(Stage::DmaEnd));
    let mut rx = [1u8, 2, 3];
    assert_eq!(s.blocking_transfer(&mut rx, None), Ok(()));
    assert_eq!(rx, [1, 2, 3]);
    assert_eq!(s.blocking_transfer(&mut rx, late), Err(LinkError::Timeout));
    assert_eq!(s.path(), Path::Refused);
    assert_eq!(s.blocking_transfer(&mut rx, None), Err(LinkError::Faulted));
    assert_eq!(rx, [0xFF; 3]);
    assert!(s.fault().is_some());
    s.engage();
    assert_eq!(s.path(), Path::Dma);
    s.release_pins();
    assert_eq!(s.path(), Path::BitBang);
    let mut rx = [4u8, 5];
    assert_eq!(s.blocking_transfer(&mut rx, None), Ok(()));
    assert_eq!(rx, [4, 5]);
    for pin in [s.pins.sck, s.pins.mosi, s.pins.miso, s.pins.cs] {
        assert!(!pin.output && !pin.connected);
        assert_eq!(pin.pull, Pull::Disabled);
    }
    s.miso_pull(false);
    assert_eq!(s.pins.miso.pull, Pull::Pulldown);
    s.cs_release();
    assert_eq!(SpimSoftCs::failed_stage(false, true, true), Some(Stage::Started));
    assert_eq!(SpimSoftCs::failed_stage(true, true, false), Some(Stage::DmaEnd));
    assert_eq!(SpimSoftCs::failed_stage(true, true, true), None);
    assert!(SpimSoftCs::drive_line(Line::Sck));
    assert!(!SpimSoftCs::drive_line(Line::Miso));
    assert_eq!((csn_duration(4), csn_duration(255)), (3, 128));
    assert!(needs_workaround(4));
    assert!(!needs_workaround(2));
}

#[test]
fn bytes_on_the_pins() {
    for b in 0..=255u8 {
        let mut levels = [false; 8];
        let mut rx = 0u8;
        for k in 0..8u8 {
            levels[k as usize] = bit_level(b, k);
            if k > 0 {
                assert!(rx < 128);
            }
            rx = shift_in(rx, levels[k as usize]);
        }
        assert_eq!(rx, b);
        assert_eq!(bitbang_byte(&levels), b);
    }
    assert!(bit_level(0x80, 0));
    assert!(bit_level(0x01, 7));
}

#[test]
fn the_npu_block() {
    let a = Axons::from_ptr(0x5005_6000);
    assert_eq!(a.as_ptr(), 0x5005_6000);
    assert_eq!(a.enable(), 0x5005_6400);
    let mut e = Enable(0xF0);
    assert!(!e.en());
    e.set_en(true);
    assert_eq!(e.0, 0xF1);
    e.set_en(false);
    assert_eq!(e.0, 0xF0);
    assert_eq!(Enable::default().0, 0);
}

#[test]
fn powering_the_port_up() {
    let order = [
        PowerStage::Clock,
        PowerStage::Vbus,
        PowerStage::Core,
        PowerStage::Idle,
        PowerStage::Reset,
        PowerStage::IdleAgain,
        PowerStage::Ready,
    ];
    for p in order.windows(2) {
        assert_eq!(power_up(p[0], true), PowerNext::Go(p[1]));
    }
    let error = Error::Xo24mTimeout;
    assert_eq!(power_up(PowerStage::Clock, false), PowerNext::Fail { error, down: false });
    let errors = [
        (PowerStage::Vbus, Error::NoVbus),
        (PowerStage::Core, Error::CoreNotResponding),
        (PowerStage::Idle, Error::AhbNotIdle),
        (PowerStage::Reset, Error::ResetTimeout),
        (PowerStage::IdleAgain, Error::ResetTimeout),
    ];
    for (stage, error) in errors {
        assert_eq!(power_up(stage, false), PowerNext::Fail { error, down: true });
    }
    assert_eq!((stage_ms(PowerStage::Clock), stage_ms(PowerStage::Reset)), (100, 50));
    assert!(elapsed_ms(u32::MAX - 9, 127_990, 1));
    assert!(!elapsed_ms(u32::MAX - 9, 127_989, 1));
    assert!(is_core(0x4F54_430A));
    assert!(!is_core(0x5531_100A));
}

fn halted() -> ChannelInts {
    ChannelInts {
        chhltd: true,
        xfercompl: false,
        stall: false,
        xacterr: false,
        bblerr: false,
        datatglerr: false,
        ahberr: false,
        frmovrun: false,
    }
}

fn endpoint() -> Endpoint {
    Endpoint {
        device_address: 1,
        number: 2,
        direction: whisper::hal::usbhs::host::Direction::In,
        ep_type: EndpointType::Bulk,
        max_packet_size: 512,
    }
}

#[test]
fn channels_report_how_they_halted() {
    let (t, p) = Host::start_transfer(&endpoint(), Pid::Data1, 0x2000_0000, 1025, 7);
    assert_eq!((p.xfersize, p.pktcnt, p.pid, p.dma), (1025, 3, 2, 0x2000_0000));
    assert!(p.chr.chena && !p.chr.chdis && !t.chr.chena);
    assert_eq!((t.chr.mps, t.chr.epnum, t.chr.devaddr, t.chr.ec), (512, 2, 1, 1));
    let running = ChannelInts { chhltd: false, ..halted() };
    assert_eq!(Host::poll_transfer(&t, running, 0, 128_006, 1), None);
    assert_eq!(
        Host::poll_transfer(&t, running, 0, 128_007, 1),
        Some(Err(TransferError::Timeout))
    );
    let stop = Host::halt(&t);
    assert!(stop.chena && stop.chdis);
    let over = ChannelInts { xfercompl: true, ..halted() };
    assert_eq!(Host::poll_transfer(&t, over, 2, 0, 1), Some(Ok(Pid::Data1)));
    let table = [
        (ChannelInts { stall: true, ..halted() }, TransferError::Stall),
        (ChannelInts { xacterr: true, ..halted() }, TransferError::Transaction),
        (ChannelInts { bblerr: true, ..halted() }, TransferError::Babble),
        (ChannelInts { datatglerr: true, ..halted() }, TransferError::DataToggle),
        (ChannelInts { ahberr: true, ..halted() }, TransferError::Ahb),
        (ChannelInts { frmovrun: true, ..halted() }, TransferError::FrameOverrun),
        (halted(), TransferError::Unknown),
    ];
    for (i, e) in table {
        assert_eq!(Host::poll_transfer(&t, i, 0, 7, 1), Some(Err(e)));
    }
    for v in 0..4 {
        assert_eq!(Pid::from_bits(v).to_bits(), v);
    }
    assert_eq!(Pid::from_bits(6).to_bits(), 2);
    assert_eq!((packet_count(0, 512), packet_count(513, 512), packet_count(512, 512)), (1, 2, 1));
}

#[test]
fn port_writes_are_harmless() {
    let v = Hprt {
        prtconndet: true,
        prtena: true,
        prtenchng: true,
        prtovrcurrchng: true,
        prtconnsts: true,
        prtrst: false,
        prtpwr: true,
        prtspd: 1,
    };
    let w = Host::port_power(v, false);
    assert!(!w.prtena && !w.prtconndet && !w.prtenchng && !w.prtovrcurrchng && !w.prtpwr);
    let w = Host::wait_connect(v).unwrap();
    assert!(w.prtconndet && !w.prtena && !w.prtenchng);
    assert_eq!(Host::wait_connect(Hprt { prtconnsts: false, ..v }), None);
    match Host::port_reset(v) {
        PortReset::Begin(w) => assert!(w.prtrst && !w.prtena && w.prtpwr),
        _ => panic!("a reset begins"),
    }
    match Host::port_reset_over(Hprt { prtrst: true, ..v }) {
        PortReset::End(w) => assert!(!w.prtrst && !w.prtena),
        _ => panic!("a reset ends"),
    }
    match Host::port_enabled(v) {
        PortReset::Enabled(w, speed) => {
            assert!(w.prtenchng && w.prtconndet && !w.prtena);
            assert_eq!(speed, whisper::hal::usbhs::host::Speed::Full);
        }
        _ => panic!("the port is enabled"),
    }
    let refused = PortReset::Failed(Error::ResetTimeout);
    assert_eq!(Host::port_enabled(Hprt { prtena: false, ..v }), refused);
    let mut h = Host::new_blocking();
    assert_eq!(h.power_up(false), Err(Error::ModeRefused));
    assert!(h.powered);
    assert_eq!(h.power_up(true), Ok(()));
    h.power_down();
    assert!(!h.powered);
}

#[test]
fn device_endpoints() {
    let mut d = Device::new_blocking();
    assert!(matches!(d.power_up(false, FifoConfig::default()), Err(Error::ModeRefused)));
    let w = d.power_up(true, FifoConfig::default()).unwrap();
    assert_eq!(w, fifo_words(FifoConfig::default()));
    assert_eq!(w.grxfsiz, 640);
    assert_eq!(w.gnptxfsiz, 256 << 16 | 640);
    assert_eq!(w.dieptxf1, 1024 << 16 | 896);
    assert_eq!(w.dieptxf2, 64 << 16 | 1920);
    assert_eq!(w.epinfo, 1984);
    assert!(d.sftdiscon);
    d.attach();
    assert!(!d.sftdiscon);
    d.set_address(9);
    assert_eq!(d.poll_bus(false, false, true), BusEvent::Quiet);
    assert_eq!(d.poll_bus(false, true, false), BusEvent::Enumerated(Speed::Full));
    assert_eq!(d.devaddr, 9);
    assert_eq!(d.poll_bus(true, true, true), BusEvent::Reset);
    assert_eq!(d.devaddr, 0);
    d.detach();
    assert!(d.sftdiscon);
    assert_eq!(Device::ep0_out_event(true, true), Ep0Out::Setup);
    assert_eq!(Device::ep0_out_event(false, true), Ep0Out::TransferComplete);
    assert_eq!(Device::ep0_out_event(false, false), Ep0Out::Nothing);
    assert_eq!(Device::ep0_arm_setup(), Ep0Size { supcnt: 3, pktcnt: 1, xfersize: 24 });
    assert_eq!(Device::ep0_arm_out(7).xfersize, 7);
    assert_eq!((Device::ep0_in(0).pktcnt, Device::ep0_in(65).pktcnt), (1, 2));
    assert_eq!((Device::ep0_in(192).pktcnt, Device::ep0_in(192).xfersize), (3, 192));
    let c = Device::configure_bulk(2, Direction::In, 512);
    assert_eq!((c.mps, c.eptype, c.txfnum), (512, EpType::Bulk, Some(2)));
    assert!(c.usbactep && c.setd0pid && c.snak);
    assert_eq!(Device::configure_bulk(2, Direction::Out, 512).txfnum, None);
    assert_eq!(Device::configure_interrupt_in(3, 8).eptype, EpType::Interrupt);
    assert_eq!(Device::in_status(true, true), EndpointStatus::Complete(0));
    assert_eq!(Device::in_status(false, true), EndpointStatus::AhbError);
    assert_eq!(Device::out_status(true, false, 1024, 24), EndpointStatus::Complete(1000));
    assert_eq!(Device::out_status(false, false, 1024, 24), EndpointStatus::Busy);
    assert_eq!((Device::in_arm(512, 0), Device::in_arm(512, 1025)), (1, 3));
    assert_eq!(Device::out_arm(512, 1500), (2, 1024));
    assert_eq!(Device::out_arm(512, 100), (1, 512));
    assert_eq!(endpoint_offset(1, Direction::In), 0x920);
    assert_eq!(endpoint_offset(2, Direction::Out), 0xB40);
    assert!(Device::abort(false, 1, Direction::In).is_empty());
    let steps = Device::abort(true, 1, Direction::In);
    assert_eq!(steps[3], AbortStep::Flush(1));
    assert_eq!(steps.last(), Some(&AbortStep::ClearNak(Direction::In)));
    assert_eq!(Device::abort(true, 1, Direction::Out).len(), 4);
}
