use whisper::usbproto::{
    build_cbw, cdb_inquiry, cdb_read10, cdb_read_capacity10, cdb_request_sense,
    cdb_test_unit_ready, cdb_write10, check_csw, parse_config, setup, MscIface, DESC_CONFIG,
    REQ_GET_DESCRIPTOR,
};

fn ep(addr: u8, attr: u8, mps: u16) -> [u8; 7] {
    [7, 5, addr, attr, mps as u8, (mps >> 8) as u8, 0]
}

fn iface(num: u8, alt: u8, neps: u8, class: u8, sub: u8, prot: u8) -> [u8; 9] {
    [9, 4, num, alt, neps, class, sub, prot, 0]
}

fn cfg_header(total: u16, value: u8) -> [u8; 9] {
    [9, 2, total as u8, (total >> 8) as u8, 1, value, 0, 0x80, 50]
}

fn build(parts: &[&[u8]]) -> Vec<u8> {
    let mut v: Vec<u8> = parts.iter().flat_map(|p| p.iter().copied()).collect();
    let total = v.len() as u16;
    v[2] = total as u8;
    v[3] = (total >> 8) as u8;
    v
}

fn stick() -> Vec<u8> {
    build(&[
        &cfg_header(0, 1),
        &iface(0, 0, 2, 0x08, 0x06, 0x50),
        &ep(0x81, 0x02, 512),
        &ep(0x02, 0x02, 512),
    ])
}

#[test]
fn high_speed_stick() {
    assert_eq!(
        parse_config(&stick()),
        Ok(MscIface { cfg_value: 1, ifnum: 0, ep_in: 1, ep_out: 2, mps_in: 512, mps_out: 512 })
    );
}

#[test]
fn full_speed_stick_with_out_first() {
    let fs = build(&[
        &cfg_header(0, 1),
        &iface(0, 0, 2, 0x08, 0x06, 0x50),
        &ep(0x02, 0x02, 64),
        &ep(0x84, 0x02, 64),
    ]);
    let m = parse_config(&fs).unwrap();
    assert!(m.ep_in == 4 && m.ep_out == 2 && m.mps_in == 64);
}

#[test]
fn composite_device() {
    let composite = build(&[
        &cfg_header(0, 2),
        &iface(0, 0, 1, 0x03, 0x00, 0x00),
        &ep(0x83, 0x03, 8),
        &iface(1, 0, 2, 0x08, 0x06, 0x50),
        &ep(0x81, 0x02, 512),
        &ep(0x02, 0x02, 512),
    ]);
    let m = parse_config(&composite).unwrap();
    assert!(m.cfg_value == 2 && m.ifnum == 1 && m.ep_in == 1 && m.ep_out == 2);
}

#[test]
fn alternate_settings_are_ignored() {
    let alts = build(&[
        &cfg_header(0, 1),
        &iface(0, 0, 2, 0x08, 0x06, 0x50),
        &ep(0x81, 0x02, 512),
        &ep(0x02, 0x02, 512),
        &iface(0, 1, 2, 0x08, 0x06, 0x50),
        &ep(0x85, 0x02, 64),
        &ep(0x06, 0x02, 64),
    ]);
    let m = parse_config(&alts).unwrap();
    assert!(m.ep_in == 1 && m.ep_out == 2 && m.mps_in == 512);
}

#[test]
fn class_descriptors_are_skipped() {
    let extra = build(&[
        &cfg_header(0, 1),
        &iface(0, 0, 2, 0x08, 0x06, 0x50),
        &[4, 0x24, 0, 0],
        &ep(0x81, 0x02, 512),
        &ep(0x02, 0x02, 512),
    ]);
    assert!(parse_config(&extra).is_ok());
}

#[test]
fn bad_configurations() {
    let nomsc = build(&[
        &cfg_header(0, 1),
        &iface(0, 0, 1, 0x03, 0x00, 0x00),
        &ep(0x83, 0x03, 8),
    ]);
    assert_eq!(parse_config(&nomsc), Err(-632));
    let mut trunc = stick();
    trunc[9] = 200;
    assert_eq!(parse_config(&trunc), Err(-631));
    assert_eq!(parse_config(&[9, 1, 0, 0, 0, 0, 0, 0, 0]), Err(-630));
}

#[test]
fn command_wrapper_bytes() {
    let mut cbw = [0u8; 32];
    build_cbw(&mut cbw, 0xDEAD_BEEF, 4096, true, &cdb_read10(2, 8));
    assert_eq!(
        cbw[..31],
        [
            0x55, 0x53, 0x42, 0x43, 0xEF, 0xBE, 0xAD, 0xDE, 0x00, 0x10, 0x00, 0x00, 0x80, 0x00,
            0x0A, 0x28, 0x00, 0x00, 0x00, 0x00, 0x02, 0x00, 0x00, 0x08, 0x00, 0, 0, 0, 0, 0, 0,
        ]
    );
}

#[test]
fn status_wrapper() {
    let mut csw = [0u8; 13];
    csw[0..4].copy_from_slice(b"USBS");
    csw[4..8].copy_from_slice(&0xDEAD_BEEFu32.to_le_bytes());
    assert_eq!(check_csw(&csw, 0xDEAD_BEEF), Ok(0));
    csw[12] = 1;
    assert_eq!(check_csw(&csw, 0xDEAD_BEEF), Ok(1));
    assert_eq!(check_csw(&csw, 1), Err(-635));
    csw[0] = b'X';
    assert_eq!(check_csw(&csw, 0xDEAD_BEEF), Err(-634));
    assert_eq!(check_csw(&csw[..12], 0xDEAD_BEEF), Err(-633));
}

#[test]
fn scsi_commands() {
    assert_eq!(
        cdb_write10(0x0102_0304, 0x0506),
        [0x2A, 0, 0x01, 0x02, 0x03, 0x04, 0, 0x05, 0x06, 0]
    );
    assert_eq!(cdb_test_unit_ready(), [0; 6]);
    assert_eq!(cdb_request_sense(18), [0x03, 0, 0, 0, 18, 0]);
    assert_eq!(cdb_inquiry(36), [0x12, 0, 0, 0, 36, 0]);
    assert_eq!(cdb_read_capacity10()[0], 0x25);
}

#[test]
fn setup_packet() {
    assert_eq!(
        setup(0x80, REQ_GET_DESCRIPTOR, DESC_CONFIG, 0, 64),
        [0x80, 6, 0, 2, 0, 0, 64, 0]
    );
}
