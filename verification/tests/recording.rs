use whisper::capture::{
    chunk_window, endpoint, extent, injected, level_range, mel_chunk, mel_pass1, mel_pass2, mic_check,
    recorded_frames, silent_tail, speech_tail_ms, spill_pcm, stops, vad_scan, widen_rows, Hop,
    MelStep, MicLevel, RecordMel, Recorder, Slide, CHUNK, N_CHUNKS, WIN,
};
use whisper::layout::{N_SAMPLES, S_MEL, S_MELF, S_PCM};
use whisper::mel::{fft_leaf, filter_span, frame_sample, twiddle, walk, N_FFT};

fn sample(i: usize) -> i16 {
    (i.wrapping_mul(2_654_435_761) >> 5) as i16
}

fn buffer(k: usize) -> Vec<i16> {
    (CHUNK * k..CHUNK * (k + 1)).map(sample).collect()
}

fn window(ci: usize) -> Vec<i16> {
    let w = chunk_window(ci);
    (w.start..w.start + w.n_samples).map(sample).collect()
}

#[test]
fn both_passes_see_the_same_windows() {
    let mut r = RecordMel::record_mel();
    assert!(r.hop(&buffer(0)).is_none());
    for k in 1..N_CHUNKS {
        let b = buffer(k);
        let job = r.hop(&b).unwrap();
        assert_eq!(job.ci, k - 1);
        assert_eq!(r.slide.win[..job.n_samples], window(k - 1)[..]);
        assert_eq!(r.spilled(0, &b), None);
        assert_eq!(r.k, k + 1);
    }
    let job = r.last();
    assert_eq!((job.ci, job.n_frames), (18, 48));
    assert_eq!(r.slide.win[..job.n_samples], window(18)[..]);
}

#[test]
fn silence_ends_a_recording() {
    let mut r = RecordMel::record_mel();
    r.hop(&buffer(0));
    for k in 1..7 {
        assert_eq!(r.spilled(3, &buffer(k)), None);
    }
    assert_eq!(r.k, 7);
    assert_eq!(r.spilled(2, &buffer(7)), None);
    assert_eq!(r.spilled(3, &buffer(8)), Some(8));
    assert!(stops(7, 3));
    assert!(!stops(6, 9));
    assert!(!stops(7, 2));
    assert_eq!(silent_tail(8, Some(64 * 4 + 63)), 3);
    assert_eq!(silent_tail(8, None), 0);
    assert_eq!(recorded_frames(7), 448);
    assert_eq!(recorded_frames(19), 1200);
}

#[test]
fn windows_overlap() {
    let first = chunk_window(0);
    assert_eq!((first.start, first.n_samples, first.frame0, first.n_frames), (0, 10496, 0, 64));
    let w = chunk_window(1);
    assert_eq!((w.start, w.n_samples, w.frame0), (8960, 11776, 8));
    assert_eq!(w.bytes % 512, 0);
    let end = chunk_window(18);
    assert_eq!(end.start + end.n_samples, 192_000);
    assert_eq!(end.n_frames, 48);
    let mut s = Slide::new();
    assert_eq!(s.win.len(), WIN);
    s.first(&buffer(0));
    assert_eq!(s.complete(&buffer(1)), first.n_samples);
    assert_eq!(s.win[..first.n_samples], window(0)[..]);
    s.slide(&buffer(1));
    assert_eq!(s.complete(&buffer(2)), w.n_samples);
    assert_eq!(s.win[..w.n_samples], window(1)[..]);
}

#[test]
fn extent_of_speech() {
    assert_eq!(extent(0), (3, 192));
    assert_eq!(extent(400), (4, 232));
    assert_eq!(extent(1199), (10, 600));
    assert_eq!(speech_tail_ms(1200, 1199), 0);
    assert_eq!(speech_tail_ms(448, 300), 1470);
}

#[test]
fn an_utterance_ends_with_its_last_loud_frame() {
    let mut keys = vec![0; 1200];
    keys[400] = 9;
    keys[37] = 9;
    let e = endpoint(&keys, 8);
    assert_eq!((e.last, e.tiles, e.ctx, e.tail_ms), (400, 4, 232, 7990));
    // a frame at the threshold is not above it
    let e = endpoint(&keys, 9);
    assert_eq!((e.last, e.tiles, e.ctx, e.tail_ms), (0, 3, 192, 11990));
    keys[1199] = 10;
    let e = endpoint(&keys, 9);
    assert_eq!((e.last, e.tiles, e.ctx, e.tail_ms), (1199, 10, 600, 0));
}

#[test]
fn levels_and_speech() {
    let keys = [3, -5, 9, 9, 2];
    assert_eq!(level_range(&keys, i32::MAX, i32::MIN), (-5, 9));
    assert_eq!(level_range(&[], 7, -7), (7, -7));
    assert_eq!(vad_scan(&keys, 8), Some(3));
    assert_eq!(vad_scan(&keys, 9), None);
    let mut m = MicLevel::mic_reset();
    m.hear(&[3, -4, i16::MIN]);
    assert_eq!((m.peak, m.sumsq, m.n), (32768, 25 + (1u64 << 30), 3));
    assert!(mic_check(0, 199));
    assert!(!mic_check(0, 200));
    assert!(!mic_check(29, 0));
}

#[test]
fn recordings_are_written_in_runs() {
    let mut r = Recorder::record();
    let mut writes = Vec::new();
    while !r.done() {
        assert_eq!(r.place() % 640, 0);
        if let Hop::Write(at) = r.hop() {
            writes.push(at);
        }
    }
    let want: Vec<usize> = (0..2 * N_SAMPLES / 5120).map(|i| 5120 * i).collect();
    assert_eq!(writes, want);
    assert_eq!(spill_pcm(0), Some((0, 20480)));
    assert_eq!(spill_pcm(18), Some((368_640, 15360)));
    assert_eq!(spill_pcm(19), None);
}

#[test]
fn injected_recordings() {
    let mut b = vec![0u8; 512];
    assert_eq!(injected(&b), None);
    b[..8].copy_from_slice(b"WMOCKAU1");
    b[8] = 77;
    assert_eq!(injected(&b), Some(77));
}

#[test]
fn first_pass_steps() {
    let s = mel_pass1();
    assert_eq!(s.len(), 57);
    match (s[3], s[4], s[5]) {
        (
            MelStep::Read { at, dst },
            MelStep::Frames { n_samples, frame0, n_frames, .. },
            MelStep::Write { at: to, src },
        ) => {
            assert_eq!(at, S_PCM + 35);
            assert_eq!(dst.len, 23552);
            assert_eq!((n_samples, frame0, n_frames), (11776, 8, 64));
            assert_eq!(to, S_MELF + 40);
            assert_eq!(src.len, 20480);
        }
        _ => panic!("unexpected steps"),
    }
    let p = mel_chunk(1, 11776, 64, 0x2000_1000);
    assert_eq!((p.n_samples, p.frame0, p.n_frames, p.filters), (11776, 8, 64, 0x2000_1000));
}

#[test]
fn second_pass_fills_twenty_tiles() {
    for rec in [0, 7, 18, 19] {
        let steps = mel_pass2(rec);
        let written: Vec<u32> = steps
            .iter()
            .filter_map(|s| match s {
                MelStep::Write { at, .. } => Some(*at),
                _ => None,
            })
            .collect();
        let want: Vec<u32> = (0..20).map(|i| S_MEL + 10 * i).collect();
        assert_eq!(written, want);
        let reads = steps.iter().filter(|s| matches!(s, MelStep::Read { .. })).count();
        assert_eq!(reads, if rec == 19 { 19 } else { rec });
        let widened = steps.iter().filter(|s| matches!(s, MelStep::Widen { .. })).count();
        assert_eq!(widened, if rec == 19 { 1 } else { 0 });
    }
}

#[test]
fn rows_are_widened() {
    let st: Vec<i8> = (0..3840).map(|i| (i % 101) as i8).collect();
    let mut dst = vec![0i8; 5120];
    widen_rows(&st, -9, &mut dst);
    for r in 0..80 {
        assert_eq!(dst[64 * r..64 * r + 48], st[48 * r..48 * r + 48]);
        assert!(dst[64 * r + 48..64 * r + 64].iter().all(|&v| v == -9));
    }
}

#[test]
fn frames_are_reflected_at_the_ends() {
    assert_eq!(frame_sample(0, 0, 10_000), 200);
    assert_eq!(frame_sample(0, 200, 10_000), 0);
    assert_eq!(frame_sample(2, 0, 10_000), 120);
    assert_eq!(frame_sample(62, 399, 10_000), 9879);
}

#[test]
fn filters_have_a_span() {
    assert_eq!(filter_span(&[0, 0x8000_0000, 1, 0, 2, 0]), (2, 5));
    assert_eq!(filter_span(&[0, 0]), (0, 0));
    assert_eq!(filter_span(&[5]), (0, 1));
}

#[test]
fn transform_leaves_are_a_permutation() {
    let mut seen = [false; 100];
    for leaf in 0..100 {
        seen[fft_leaf(leaf)] = true;
    }
    assert!(seen.iter().all(|&b| b));
    assert_eq!(fft_leaf(1), 25);
    assert_eq!(fft_leaf(4), 5);
    assert_eq!(fft_leaf(20), 1);
    assert_eq!(twiddle(0), (0, 300));
    assert_eq!(twiddle(150), (150, 50));
    assert_eq!(walk(399, 2), 1);
    assert_eq!(walk(0, N_FFT), 0);
}
