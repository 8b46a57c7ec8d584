use whisper::kernels::Quant;
use whisper::mailbox::{
    block_bytes, crumbs, dispatch, grace, ready, sd_init_releases, status, Access, Caller, Listen,
    Mailbox, Ready, Start, Task, Watchdog, CMD_ADD16, CMD_ADDPOS, CMD_ATTN_HEAD, CMD_FC2SUM, CMD_LN,
    CMD_LOGITS_MAX, CMD_LUT8, CMD_MATMUL_BT, CMD_MEL, CMD_MELNORM, CMD_PING, CMD_RECORD,
    CMD_REQUANT, CMD_RUN_NPU, CMD_SD_INIT, CMD_SD_READ, CMD_SD_WRITE, CMD_SOFTMAX, MAILBOX_BOOT,
    MAILBOX_FAIL, MAILBOX_MAGIC,
};
use whisper::mel::{MelNormParams, MelParams};
use whisper::params::{AddParams, AddPosParams, AttnParams, Fc2SumParams, LnParams};

const A: [u32; 8] = [1, 2, 3, 4, 5, 6, 0xFFFF_FFFE, 8];

fn quant(n: u32) -> Quant {
    Quant { scale: n, zp: -(n as i32) }
}

#[test]
fn plain_commands() {
    assert_eq!(dispatch(CMD_PING, &A, &[]), Task::Reply(0x5049_4E47));
    assert_eq!(dispatch(CMD_RUN_NPU, &A, &[]), Task::RunNpu { input: 1, output: 2 });
    assert_eq!(dispatch(CMD_LUT8, &A, &[]), Task::Lut8 { lut: 1, from: 2, to: 3, len: 4 });
    assert_eq!(
        dispatch(CMD_MATMUL_BT, &A, &[]),
        Task::MatMul { a: 1, b: 2, acc: 3, m: 4, k: 5, n: 6, za: -2 }
    );
    assert_eq!(
        dispatch(CMD_SOFTMAX, &A, &[]),
        Task::Softmax { scores: 1, probs: 2, rows: 3, cols: 4, mult: 5 }
    );
    assert_eq!(
        dispatch(CMD_REQUANT, &[1, 2, 3, 4, 5, 0xFFFF_FFFF, 0, 0], &[]),
        Task::Requant { sums: 1, codes: 2, count: 3, factor: 4, scale: 5, zp: -1 }
    );
    assert_eq!(
        dispatch(CMD_LOGITS_MAX, &A, &[]),
        Task::LogitsMax { logits: 1, mults: 2, ids: 3, rows_in: 4, state: 5 }
    );
    assert_eq!(dispatch(CMD_SD_INIT, &A, &[]), Task::SdInit);
    assert_eq!(dispatch(CMD_SD_READ, &A, &[]), Task::SdRead { lba: 1, into: 2, blocks: 3 });
    assert_eq!(dispatch(CMD_SD_WRITE, &A, &[]), Task::SdWrite { at: 1, source: 2, amount: 3 });
    assert_eq!(dispatch(CMD_RECORD, &A, &[]), Task::Record { samples: 1, wanted: 2 });
}

#[test]
fn refused_commands() {
    assert_eq!(dispatch(0, &A, &[]), Task::Reply(-100));
    assert_eq!(dispatch(5, &A, &[]), Task::Reply(-100));
    assert_eq!(dispatch(26, &A, &[]), Task::Reply(-100));
    let mut wide = A;
    wide[3] = 641;
    assert_eq!(dispatch(CMD_SOFTMAX, &wide, &[]), Task::Reply(-1));
    let mut p = attn();
    p.tk = 641;
    assert_eq!(dispatch(CMD_ATTN_HEAD, &A, &p.pack()), Task::Reply(-1));
}

fn attn() -> AttnParams {
    AttnParams {
        q: 1,
        k: 2,
        v: 3,
        ctx: 4,
        hd: 64,
        wq: 1,
        qstride: 4,
        tk: 640,
        kstride: 640,
        zq: -7,
        zk: 8,
        zv: -9,
        score_mult: 10,
        v_scale: 11,
        ctx_q: quant(12),
    }
}

#[test]
fn parameter_blocks_come_through() {
    let ln = LnParams {
        src: 1,
        dst: 2,
        ch: 3,
        w: 4,
        gamma: 5,
        beta: 6,
        sq: quant(7),
        dq: quant(8),
    };
    assert_eq!(ln.pack().len(), block_bytes(CMD_LN));
    assert_eq!(dispatch(CMD_LN, &A, &ln.pack()), Task::Ln(ln));
    let add = AddParams {
        a: 1,
        b: 2,
        dst: 3,
        len: 4,
        qa: quant(5),
        qb: quant(6),
        qd: quant(7),
    };
    assert_eq!(add.pack().len(), block_bytes(CMD_ADD16));
    assert_eq!(dispatch(CMD_ADD16, &A, &add.pack()), Task::Add16(add));
    let pos = AddPosParams { a: 1, b: 2, dst: 3, len: 4, qa: quant(5), qd: quant(6) };
    assert_eq!(pos.pack().len(), block_bytes(CMD_ADDPOS));
    assert_eq!(dispatch(CMD_ADDPOS, &A, &pos.pack()), Task::AddPos(pos));
    assert_eq!(attn().pack().len(), block_bytes(CMD_ATTN_HEAD));
    assert_eq!(dispatch(CMD_ATTN_HEAD, &A, &attn().pack()), Task::AttnHead(attn()));
    let sum = Fc2SumParams {
        p0: 1,
        p1: 2,
        p2: 3,
        p3: 4,
        a: 5,
        dst: 6,
        len: 7,
        pq0: quant(8),
        pq1: quant(9),
        pq2: quant(10),
        pq3: quant(11),
        qa: quant(12),
        qd: quant(13),
    };
    assert_eq!(sum.pack().len(), block_bytes(CMD_FC2SUM));
    assert_eq!(dispatch(CMD_FC2SUM, &A, &sum.pack()), Task::Fc2Sum(sum));
    let mel = MelParams {
        pcm: 1,
        n_samples: 2,
        frame0: 3,
        n_frames: 4,
        hann: 5,
        cos_tab: 6,
        filters: 7,
        out: 8,
        max_acc: 9,
    };
    assert_eq!(mel.pack().len(), block_bytes(CMD_MEL));
    assert_eq!(dispatch(CMD_MEL, &A, &mel.pack()), Task::Mel(mel));
    let norm = MelNormParams { mel: 1, n: 2, max_acc: 3, out: 4, q: quant(5), lift: 0 };
    assert_eq!(norm.pack().len(), block_bytes(CMD_MELNORM));
    assert_eq!(dispatch(CMD_MELNORM, &A, &norm.pack()), Task::MelNorm(norm));
    assert_eq!(block_bytes(CMD_PING), 0);
}

#[test]
fn packed_words_are_little_endian() {
    let pos = AddPosParams {
        a: 0x0403_0201,
        b: 2,
        dst: 3,
        len: 4,
        qa: Quant { scale: 5, zp: -2 },
        qd: quant(0),
    };
    let b = pos.pack();
    assert_eq!(&b[..4], &[1, 2, 3, 4]);
    assert_eq!(&b[20..24], &[0xFE, 0xFF, 0xFF, 0xFF]);
    assert_eq!(AddPosParams::parse(&b), pos);
}

#[test]
fn tasks_say_what_memory_they_use() {
    let t = dispatch(CMD_MATMUL_BT, &[16, 32, 48, 2, 3, 4, 0, 0], &[]);
    assert_eq!(
        t.accesses(),
        vec![
            Access { addr: 16, count: 6, size: 1, write: false },
            Access { addr: 32, count: 12, size: 1, write: false },
            Access { addr: 48, count: 8, size: 4, write: true },
        ]
    );
    let t = dispatch(CMD_LOGITS_MAX, &[16, 32, 48, 5, 64, 0, 0, 0], &[]);
    assert_eq!(t.accesses()[3], Access { addr: 64, count: 1, size: 8, write: true });
    let t = dispatch(CMD_MEL, &A, &[2; 36]);
    assert_eq!(t.accesses()[4].count, 80 * 0x0202_0202);
    assert!(dispatch(CMD_PING, &A, &[]).accesses().is_empty());
}

#[test]
fn the_watchdog_watches_the_drivers() {
    assert!(dispatch(CMD_RUN_NPU, &A, &[]).watched());
    assert!(dispatch(CMD_SD_WRITE, &A, &[]).watched());
    assert!(dispatch(CMD_MEL, &A, &[0; 36]).watched());
    assert!(!dispatch(CMD_RECORD, &A, &[]).watched());
    assert!(!dispatch(CMD_MELNORM, &A, &[0; 24]).watched());
    assert!(sd_init_releases(-200) && !sd_init_releases(0));
}

#[test]
fn a_hang_is_reset_after_the_limit() {
    let mut w = Watchdog::new();
    for _ in 0..1000 {
        assert!(!w.tick());
    }
    w.arm();
    for _ in 0..200 {
        assert!(!w.tick());
    }
    assert!(w.tick());
    w.disarm();
    assert!(!w.tick());
}

#[test]
fn boot_stages() {
    let mut m = Mailbox::new();
    assert_eq!(m.magic, 0);
    m.boot();
    assert_eq!(m.magic, MAILBOX_BOOT);
    let mut good = m;
    good.booted(0);
    assert_eq!((good.magic, good.status), (MAILBOX_MAGIC, 0));
    m.booted(-7);
    assert_eq!((m.magic, m.status), (MAILBOX_FAIL, -7));
}

#[test]
fn a_command_is_posted_whole_and_answered_once() {
    let mut m = Mailbox::new();
    let mut host = Caller { base: 0x1000, seq: m.cmd_seq };
    assert!(m.poll().is_none());
    let w = host.post(CMD_LUT8, &[9, 8, 7]);
    assert_eq!(w.iter().map(|p| p.addr).collect::<Vec<_>>(), [0x100C, 0x1008, 0x1004]);
    assert_eq!(w[0].words, [9, 8, 7, 0, 0, 0, 0, 0]);
    m.args.copy_from_slice(&w[0].words);
    assert!(m.poll().is_none());
    m.cmd = w[1].words[0];
    assert!(m.poll().is_none());
    m.cmd_seq = w[2].words[0];
    let r = m.poll().unwrap();
    assert_eq!((r.seq, r.cmd, r.args[1]), (1, CMD_LUT8, 8));
    assert_eq!(host.answered(m.ack_seq, false), None);
    assert_eq!(host.answered(m.ack_seq, true), Some(false));
    m.answer(r.seq, 42);
    assert_eq!(host.answered(m.ack_seq, true), Some(true));
    assert!(m.poll().is_none());
    assert_eq!(m.status, 42);
    assert_eq!(crumbs(3), (0x303, 0x403));
}

#[test]
fn the_first_seconds_belong_to_the_host() {
    let mut m = Mailbox::new();
    assert_eq!(grace(&m, 100, 200), Start::Wait);
    m.cmd_seq = 1;
    assert_eq!(grace(&m, 100, 200), Start::Host);
    assert_eq!(grace(&m, 100, 100 + 384_000_000), Start::Alone);
    assert_eq!(grace(&m, u32::MAX, 10), Start::Host);
}

#[test]
fn states_of_a_started_board() {
    assert_eq!(ready(MAILBOX_MAGIC, true), Ready::Yes);
    assert_eq!(ready(MAILBOX_FAIL, false), Ready::Failed);
    assert_eq!(ready(MAILBOX_BOOT, false), Ready::Wait);
    assert_eq!(ready(MAILBOX_BOOT, true), Ready::Hung);
    assert_eq!(ready(0, true), Ready::NeverStarted);
    assert_eq!(ready(7, true), Ready::Unknown);
}

#[test]
fn a_recording_drops_its_first_buffer() {
    let mut r = Listen::record(700);
    assert!(!r.done());
    assert_eq!(r.hop(320), None);
    assert_eq!(r.hop(320), Some((320, 0)));
    assert_eq!(r.hop(320), Some((320, 320)));
    assert_eq!(r.hop(320), Some((60, 640)));
    assert!(r.done());
    let mut none = Listen::record(0);
    assert_eq!(none.hop(320), None);
    assert!(none.done());
}

#[test]
fn kernels_answer_zero_and_devices_their_code() {
    assert_eq!(status(dispatch(CMD_PING, &A, &[]), 7), 0x5049_4E47);
    assert_eq!(status(dispatch(9999, &A, &[]), 7), -100);
    assert_eq!(status(dispatch(CMD_LUT8, &A, &[]), 7), 0);
    assert_eq!(status(dispatch(CMD_MATMUL_BT, &A, &[]), -3), 0);
    assert_eq!(status(dispatch(CMD_MEL, &A, &[0; 36]), -3), 0);
    for cmd in [CMD_RUN_NPU, CMD_SD_INIT, CMD_SD_READ, CMD_SD_WRITE, CMD_RECORD] {
        assert_eq!(status(dispatch(cmd, &A, &[]), -7), -7);
    }
}
