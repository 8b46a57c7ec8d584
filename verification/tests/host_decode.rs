use whisper::hostdec::{
    after_token, banned, gather_tile, is_sorted, layer, lut_args, mark, pick, planar, scatter_tile,
    steps_of, suppressed, words_of, AfterToken, Gb, HostBlob, HostBlock, HostStep, Mark, Pick,
    TokenLoop, A_BIG, A_CTX, A_K, A_LN, A_LUT, A_O, A_P, A_Q, A_X16, BIG_HALF,
};
use whisper::host::{card_args, Compared, InSlot, Outcome, Player, Step, Todo};
use whisper::kernels::Quant;
use whisper::lm::rank;

fn q(n: u32) -> Quant {
    Quant { scale: n, zp: n as i32 }
}

fn block() -> HostBlock {
    HostBlock {
        q_in: q(1),
        q_out: q(2),
        k_out: q(3),
        v_out: q(4),
        out_in: q(5),
        out_out: q(6),
        xq_in: q(7),
        xq_out: q(8),
        xk_out: q(9),
        xv_out: q(10),
        xout_in: q(11),
        xout_out: q(12),
        fc1_in: q(13),
        fc2p0: q(14),
        fc2p1: q(15),
        fc2p2: q(16),
        fc2p3: q(17),
        res1: q(18),
        res2: q(19),
        res3: q(20),
    }
}

#[test]
fn tiles_rebuild_the_tensor() {
    let (pad_w, t_tile, ctx) = (40, 8, 37);
    let src: Vec<u8> = (0..384 * pad_w).map(|i| (i * 31 % 253) as u8).collect();
    let mut out = vec![0u8; 384 * ctx];
    for i in 0..pad_w / t_tile {
        let tile = gather_tile(&src, pad_w, t_tile, i);
        assert_eq!(tile[3 * t_tile + 2], src[3 * pad_w + i * t_tile + 2]);
        scatter_tile(&tile, t_tile, i, ctx, &mut out);
    }
    for c in 0..384 {
        assert_eq!(out[c * ctx..(c + 1) * ctx], src[c * pad_w..c * pad_w + ctx]);
    }
}

#[test]
fn cached_columns_become_rows() {
    let buf: Vec<u8> = (0..1536).map(|i| (i % 251) as u8).collect();
    let col = whisper::hostdec::column(&buf);
    assert_eq!(col.len(), 384);
    assert_eq!(col[10], buf[40]);
    let cache = vec![col.clone(), vec![7u8; 384], vec![9u8; 384]];
    let p = planar(&cache);
    assert_eq!(&p[30..33], &[col[10], 7, 9]);
}

#[test]
fn the_steps_of_a_layer() {
    let b = block();
    let v = layer(&b, q(99), 5, 600);
    assert_eq!(v.len(), 6 + 6 + 2 + 2 + 12 + 2 + 1 + 12 + 1);
    match v[0] {
        HostStep::Ln { gb: Gb::Ln1, ln } => {
            assert_eq!((ln.src, ln.dst, ln.ch, ln.w), (A_X16, A_LN, 384, 4));
            assert_eq!(ln.beta, ln.gamma + 1536);
            assert_eq!((ln.sq, ln.dq), (q(99), q(1)));
        }
        _ => panic!("no norm"),
    }
    assert_eq!(v[2], HostStep::Npu { blob: HostBlob::K, input: A_LN, output: A_K });
    assert_eq!((v[4], v[5]), (HostStep::Keep, HostStep::PutSelf));
    match v[6 + 3] {
        HostStep::Attn { attn, qs, ks } => {
            assert_eq!(attn.q, A_Q + 3 * 256);
            assert_eq!(attn.k, A_BIG + 3 * 64 * 5);
            assert_eq!(attn.v, A_BIG + BIG_HALF + 3 * 64 * 5);
            assert_eq!(attn.ctx, A_CTX + 3 * 256);
            assert_eq!((attn.tk, attn.kstride, attn.qstride), (5, 5, 4));
            assert_eq!((attn.zq, attn.zk, attn.zv), (2, 3, 4));
            assert_eq!((qs, ks, attn.ctx_q), (q(2), q(3), q(5)));
        }
        _ => panic!("no head"),
    }
    match v[13] {
        HostStep::Add16(a) => {
            assert_eq!((a.a, a.b, a.dst, a.len), (A_X16, A_O, A_X16, 1536));
            assert_eq!((a.qa, a.qb, a.qd), (q(99), q(6), q(18)));
        }
        _ => panic!("no sum"),
    }
    assert_eq!(v[16], HostStep::PutCross { h: 0 });
    match v[17] {
        HostStep::Attn { attn, .. } => {
            assert_eq!((attn.k, attn.v, attn.tk), (A_BIG, A_BIG + BIG_HALF, 600));
        }
        _ => panic!("no head"),
    }
    assert_eq!(v[32], HostStep::Lut { part: 0 });
    assert_eq!(
        v[42],
        HostStep::Npu { blob: HostBlob::Fc2(3), input: A_K, output: A_P + 3 * 1536 }
    );
    match v[43] {
        HostStep::Fc2Sum(s) => {
            assert_eq!((s.p0, s.p3, s.a, s.dst), (A_P, A_P + 4608, A_X16, A_X16));
            assert_eq!((s.pq2, s.qa, s.qd), (q(16), q(19), q(20)));
        }
        _ => panic!("no sum"),
    }
    assert_eq!(lut_args(), [A_LUT, A_Q, A_K, 1536]);
}

#[test]
fn prompts_are_not_sampled() {
    assert_eq!(steps_of(4, 32), 35);
    assert_eq!(after_token(2, 4), AfterToken::Prompt);
    assert_eq!(after_token(3, 4), AfterToken::Sample(0));
    assert_eq!(after_token(10, 4), AfterToken::Sample(7));
}

#[test]
fn banned_tokens() {
    let list = [3, 9, 50, 51];
    for id in 0..60 {
        assert_eq!(suppressed(&list, id), list.contains(&id));
    }
    assert!(!suppressed(&[], 1));
    assert!(banned(50, 5, &list, &[1]));
    assert!(banned(1, 0, &list, &[2, 1]));
    assert!(!banned(1, 1, &list, &[2, 1]));
    assert!(!banned(4, 0, &list, &[2, 1]));
}

#[test]
fn deviations_from_the_record() {
    assert_eq!(mark(Some(5), 5, 9), Mark::Same);
    assert_eq!(mark(Some(5), 6, 9), Mark::Different);
    assert_eq!(mark(None, 6, 9), Mark::Beyond);
    assert_eq!(mark(Some(5), 9, 9), Mark::Same);
    assert_eq!(mark(None, 9, 9), Mark::Same);
}

#[test]
fn the_largest_logit_is_picked() {
    let logits = [-3.5f32, 7.0, f32::NAN, 9.0, 9.0, 11.0];
    let mut p = Pick::new();
    for (id, l) in logits.iter().enumerate() {
        p.offer(id as u32, rank(l.to_bits()), id != 5);
    }
    assert_eq!(p.id, 3);
    let mut none = Pick::new();
    none.offer(4, rank(f32::NEG_INFINITY.to_bits()), true);
    none.offer(5, rank(1.0f32.to_bits()), false);
    assert_eq!(none, Pick::new());
    assert_eq!(none.id, 0);
    let keys: Vec<i32> = logits.iter().map(|l| rank(l.to_bits())).collect();
    assert_eq!(pick(&keys, 1, &[5], &[3]).id, 3);
    assert_eq!(pick(&keys, 0, &[5], &[3]).id, 4);
    assert_eq!(pick(&keys, 0, &[], &[3]).id, 5);
    assert_eq!(pick(&[], 0, &[], &[]), Pick::new());
}

#[test]
fn a_token_loop_runs_the_prompt_first() {
    let mut t = TokenLoop::new(vec![50, 51, 52], 4, 9, vec![1, 2]);
    assert_eq!((t.next(), t.after()), (Some(50), AfterToken::Prompt));
    t.prompted();
    t.prompted();
    assert_eq!((t.next(), t.after()), (Some(52), AfterToken::Sample(0)));
    assert_eq!(t.sampled(1), Mark::Same);
    assert_eq!((t.next(), t.after()), (Some(1), AfterToken::Sample(1)));
    assert_eq!(t.sampled(7), Mark::Different);
    assert_eq!(t.sampled(8), Mark::Beyond);
    assert_eq!((t.deviations, t.put_out()), (2, 3));
    assert_eq!(t.sampled(9), Mark::Same);
    assert_eq!(t.next(), None);
    assert_eq!(t.tokens, [50, 51, 52, 1, 7, 8]);
}

#[test]
fn a_token_loop_stops_at_its_limit() {
    let mut t = TokenLoop::new(vec![50], 2, 9, vec![3, 3]);
    assert_eq!(t.sampled(3), Mark::Same);
    assert_eq!(t.sampled(3), Mark::Same);
    assert_eq!(t.next(), None);
    assert_eq!((t.deviations, t.put_out()), (0, 2));
    assert_eq!(TokenLoop::new(vec![50], 0, 9, vec![]).next(), None);
}

#[test]
fn lists_from_files() {
    assert_eq!(words_of(&[1, 0, 0, 0, 0, 1, 0, 0, 7]), [1, 256]);
    assert!(is_sorted(&[]) && is_sorted(&[4]) && is_sorted(&[1, 1, 9]));
    assert!(!is_sorted(&[2, 1]) && !is_sorted(&[1, 5, 3]));
    let twice = [3, 3, 3, 8, 8];
    for id in 0..10 {
        assert_eq!(suppressed(&twice, id), twice.contains(&id));
    }
    assert_eq!(HostBlob::Fc1(2).key(), "fc1c");
    assert_eq!(HostBlob::Fc2(3).key(), "fc2p3");
    assert_eq!(HostBlob::Xout.key(), "xout");
}

#[test]
fn blobs_from_the_card() {
    assert_eq!(card_args(77, 1024), [77, 0x2004_B000, 2]);
    assert_eq!(card_args(77, 1025), [77, 0x2004_B000, 3]);
    assert_eq!(card_args(0, 0), [0, 0x2004_B000, 0]);
    let mut s = InSlot::new();
    let a = String::from("a");
    assert!(s.lacks(&a));
    s.took(&a);
    assert!(!s.lacks(&a) && s.lacks(&String::from("b")));
}

#[test]
fn a_tape_is_played() {
    let blob = |f: &str| Step::Blob { file: f.to_string() };
    let mut p = Player::new();
    assert_eq!(p.todo(&blob("x")), Todo::Put(0x2004_B000));
    assert!(p.done(&blob("x"), Outcome::Put(100)));
    assert_eq!(p.todo(&blob("x")), Todo::Nothing);
    let write = Step::Write { file: "d".to_string(), addr: 0x2003_2000 };
    assert_eq!(p.todo(&write), Todo::Put(0x2003_2000));
    assert!(p.done(&write, Outcome::Put(28)));
    assert_eq!(p.todo(&blob("x")), Todo::Nothing);
    assert_eq!(p.todo(&blob("y")), Todo::Put(0x2004_B000));
    let check = Step::Check {
        file: "e".to_string(),
        addr: 5,
        label: "l".to_string(),
        tol: 0,
        width: 1,
    };
    assert_eq!(p.todo(&check), Todo::Compare(5));
    assert!(p.done(&check, Outcome::Compared(Compared { diffs: 0, max_err: 0 })));
    assert!(p.passed());
    assert!(p.done(&check, Outcome::Compared(Compared { diffs: 2, max_err: 9 })));
    assert!(!p.passed());
    assert_eq!((p.streamed, p.tally.checks, p.tally.failed), (128, 2, 1));
    let cmd = Step::Cmd { code: 2, args: vec![1] };
    assert_eq!(p.todo(&cmd), Todo::Call);
    assert!(p.done(&cmd, Outcome::Status(0)));
    assert!(!p.done(&cmd, Outcome::Status(-7)));
    let read = Step::Read { file: "r".to_string(), addr: 9, len: 16 };
    assert_eq!(p.todo(&read), Todo::Dump(9, 16));
}
