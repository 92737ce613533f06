use mori_ear::audio::{
    apply_trim, drop_internal_runs, encode, pick, take_recorded, trim_edges, worth_sending,
    BufferHandle, Encoded, TrimConfig, EDGE_PAD_MS, FRAME_MS,
};
use mori_ear::pipeline::gate;

const SR: u32 = 16_000;

fn silence(secs: f32) -> Vec<f32> {
    vec![0.0; (SR as f32 * secs) as usize]
}

fn voiced(secs: f32) -> Vec<f32> {
    vec![0.5; (SR as f32 * secs) as usize]
}

fn frame_rms(seg: &[f32]) -> f32 {
    if seg.is_empty() {
        return 0.0;
    }
    (seg.iter().map(|&x| x * x).sum::<f32>() / seg.len() as f32).sqrt()
}

fn count(list: &[(usize, usize)]) -> usize {
    list.iter().map(|&(s, e)| e - s).sum()
}

fn pcm(sig: &[f32]) -> Vec<i16> {
    sig.iter()
        .map(|&s| (s.clamp(-1.0, 1.0) * i16::MAX as f32) as i16)
        .collect()
}

#[test]
fn trim_edges_strips_leading_and_trailing() {
    let mut sig = silence(0.5);
    sig.extend(voiced(1.0));
    sig.extend(silence(0.5));
    let loud = |s: usize, e: usize| frame_rms(&sig[s..e]) >= 0.02;
    let (s, e) = trim_edges(sig.len(), SR, &loud, EDGE_PAD_MS, FRAME_MS);
    assert_eq!(s, 8000 - 1280);
    assert_eq!(e, 24000 + 1280);
}

#[test]
fn trim_edges_all_silence() {
    let sig = silence(1.0);
    let loud = |s: usize, e: usize| frame_rms(&sig[s..e]) >= 0.02;
    assert_eq!(
        trim_edges(sig.len(), SR, &loud, EDGE_PAD_MS, FRAME_MS),
        (0, 0)
    );
}

#[test]
fn trim_edges_stop_at_the_ends() {
    let loud = |_: usize, _: usize| true;
    assert_eq!(trim_edges(1000, SR, &loud, EDGE_PAD_MS, FRAME_MS), (0, 1000));
    assert_eq!(trim_edges(0, SR, &loud, EDGE_PAD_MS, FRAME_MS), (0, 0));
    // Without a rate the windows are single samples and nothing is kept round them.
    let third = |s: usize, _: usize| s == 3;
    assert_eq!(trim_edges(10, 0, &third, EDGE_PAD_MS, FRAME_MS), (3, 4));
}

#[test]
fn drop_internal_runs_removes_long_pause() {
    let mut sig = voiced(0.5);
    sig.extend(silence(1.0));
    sig.extend(voiced(0.5));
    let loud = |s: usize, e: usize| frame_rms(&sig[s..e]) >= 0.02;
    let out = drop_internal_runs(0, sig.len(), SR, &loud, 300, FRAME_MS);
    assert_eq!(count(&out), 16_000);
}

#[test]
fn drop_internal_runs_keeps_short_pause() {
    let mut sig = voiced(0.5);
    sig.extend(silence(0.2));
    sig.extend(voiced(0.5));
    let loud = |s: usize, e: usize| frame_rms(&sig[s..e]) >= 0.02;
    let out = drop_internal_runs(0, sig.len(), SR, &loud, 300, FRAME_MS);
    assert_eq!(count(&out), sig.len());
}

#[test]
fn drop_internal_runs_keeps_all_without_a_limit() {
    let loud = |_: usize, _: usize| false;
    assert_eq!(drop_internal_runs(5, 9, SR, &loud, 0, FRAME_MS), vec![(5, 9)]);
    assert!(drop_internal_runs(5, 5, SR, &loud, 0, FRAME_MS).is_empty());
    assert!(drop_internal_runs(0, 16_000, SR, &loud, 300, FRAME_MS).is_empty());
}

#[test]
fn a_pause_of_just_the_limit_is_cut_out() {
    // 300 ms are 4800 samples, 15 windows.
    for (pause, kept) in [(4800usize, 1280usize), (4800 - 320, 1280 + 4800 - 320)] {
        let loud = |s: usize, _: usize| s < 640 || s >= 640 + pause;
        let out = drop_internal_runs(0, 1280 + pause, SR, &loud, 300, FRAME_MS);
        assert_eq!(count(&out), kept);
    }
}

#[test]
fn apply_trim_full_silence_returns_empty() {
    let sig = silence(1.0);
    let loud = |s: usize, e: usize| frame_rms(&sig[s..e]) >= 0.02;
    assert!(apply_trim(sig.len(), SR, &TrimConfig::default(), &loud).is_empty());
}

#[test]
fn apply_trim_disabled_is_passthrough() {
    let mut sig = silence(0.5);
    sig.extend(voiced(0.5));
    let cfg = TrimConfig {
        enabled: false,
        ..TrimConfig::default()
    };
    let loud = |s: usize, e: usize| frame_rms(&sig[s..e]) >= 0.02;
    let mono = pcm(&sig);
    let list = apply_trim(sig.len(), SR, &cfg, &loud);
    assert_eq!(pick(&mono, &list), mono);
}

#[test]
fn the_padding_stays_however_short_a_pause_is_cut_out() {
    let mut sig = silence(0.5);
    sig.extend(voiced(1.0));
    sig.extend(silence(0.5));
    let loud = |s: usize, e: usize| frame_rms(&sig[s..e]) >= 0.02;
    for min_silence_ms in [0, 1, 20, 60, 80, 300] {
        let cfg = TrimConfig {
            enabled: true,
            min_silence_ms,
        };
        let list = apply_trim(sig.len(), SR, &cfg, &loud);
        assert_eq!(count(&list), 18_560, "{min_silence_ms}");
        assert_eq!(list.first().unwrap().0, 8000 - 1280);
        assert_eq!(list.last().unwrap().1, 24_000 + 1280);
    }
    // A pause between two words is cut out, the padding round them is not.
    let two = |s: usize, _: usize| s < 3200 || (6400..9600).contains(&s);
    let cfg = TrimConfig {
        enabled: true,
        min_silence_ms: 60,
    };
    assert_eq!(count(&apply_trim(16_000, SR, &cfg, &two)), 3200 + 3200 + 1280);
}

#[test]
fn trimming_changes_neither_length_nor_loudness() {
    let mut sig = silence(0.5);
    sig.extend(voiced(1.0));
    let loud = |s: usize, e: usize| frame_rms(&sig[s..e]) >= 0.02;
    let mono = pcm(&sig);
    let off = TrimConfig {
        enabled: false,
        min_silence_ms: 300,
    };
    let (_, a) = encode(&mono, SR, &TrimConfig::default(), &loud, false).unwrap();
    let (_, b) = encode(&mono, SR, &off, &loud, false).unwrap();
    assert_eq!((a.samples, a.quiet), (b.samples, b.quiet));
    assert_eq!((a.speech_samples, b.speech_samples), (17_280, 24_000));
}

#[test]
fn what_is_left_is_in_order() {
    let mono: Vec<i16> = (0..9).collect();
    assert_eq!(pick(&mono, &vec![(1, 3), (5, 6), (8, 9)]), vec![1, 2, 5, 8]);
    assert_eq!(pick(&mono, &vec![]), Vec::<i16>::new());
}

fn buf_tone(ms: u32, amp: f32) -> Vec<f32> {
    let n = (SR as usize) * ms as usize / 1000;
    (0..n)
        .map(|i| if i % 2 == 0 { amp } else { -amp })
        .collect()
}

fn handle(samples: &[f32], channels: u16) -> BufferHandle {
    BufferHandle {
        len: samples.len(),
        sample_rate: SR,
        channels,
    }
}

#[test]
fn secs_buffered_counts_channels() {
    let sig = buf_tone(1000, 0.5);
    let h = handle(&sig, 1);
    assert!(!h.shorter_than(1000) && h.shorter_than(1001));
    // With two channels the same samples are half the time.
    let h2 = handle(&sig, 2);
    assert!(!h2.shorter_than(500) && h2.shorter_than(501));
}

#[test]
fn tail_is_silent_detects_a_pause() {
    let mut samples = buf_tone(2000, 0.5);
    samples.extend(buf_tone(800, 0.0));
    let h = handle(&samples, 1);
    let quiet = |s: usize, e: usize| frame_rms(&samples[s..e]) < 0.02;
    assert!(h.tail_is_silent(700, &quiet), "800 ms of silence are a pause");
    assert!(!h.tail_is_silent(1200, &quiet), "1200 ms reach back into speech");
}

#[test]
fn tail_is_silent_false_while_still_talking() {
    let samples = buf_tone(3000, 0.5);
    let h = handle(&samples, 1);
    let quiet = |s: usize, e: usize| frame_rms(&samples[s..e]) < 0.02;
    assert!(!h.tail_is_silent(700, &quiet));
}

#[test]
fn tail_is_silent_false_when_buffer_too_short() {
    let samples = buf_tone(300, 0.0);
    let h = handle(&samples, 1);
    let quiet = |s: usize, e: usize| frame_rms(&samples[s..e]) < 0.02;
    assert!(!h.tail_is_silent(700, &quiet));
    assert!(!h.tail_is_silent(0, &quiet));
}

#[test]
fn a_segment_ends_with_a_pause_once_it_is_long_enough() {
    let h = handle(&buf_tone(2000, 0.0), 1);
    let quiet = |s: usize, e: usize| (s, e) == (32_000 - 11_200, 32_000);
    assert!(h.ends_segment(1500, 700, &quiet));
    assert!(!h.ends_segment(2001, 700, &quiet));
    assert!(!h.ends_segment(1500, 699, &quiet));
}

#[test]
fn take_wav_drains_so_next_segment_starts_fresh() {
    let mut samples = buf_tone(1500, 0.5);
    samples.extend(buf_tone(800, 0.0));
    let trim = TrimConfig::default();

    let taken = take_recorded(&mut samples);
    assert_eq!(taken.len(), 36_800);
    let loud = |s: usize, e: usize| frame_rms(&taken[s..e]) >= 0.02;
    let rms_db = 20.0 * frame_rms(&taken).log10();
    assert!(rms_db > -45.0, "somebody speaks, so it is not quiet: {rms_db}");
    let (wav, enc) =
        encode(&pcm(&taken), SR, &trim, &loud, rms_db < -45.0).expect("there is a recording");
    assert!(!wav.is_empty());
    assert!(
        enc.samples as f32 / enc.sample_rate as f32 > 2.0,
        "the length is that of the whole recording"
    );
    assert_eq!(enc.speech_samples, 24_000 + 1280, "the speech is what is left");
    assert!(worth_sending(&wav, &enc));
    let kept = hound::WavReader::new(std::io::Cursor::new(wav)).unwrap();
    assert_eq!(kept.spec().sample_rate, SR);
    assert_eq!(kept.len() as usize, enc.speech_samples);

    let none = |_: usize, _: usize| false;
    assert!(encode(&pcm(&samples), SR, &trim, &none, false).is_none());
    assert_eq!(handle(&samples, 1).len, 0);
}

#[test]
fn a_silent_recording_is_encoded_whole_and_not_sent() {
    let none = |_: usize, _: usize| false;
    let mono = vec![3i16; 16_000];
    let (wav, enc) = encode(&mono, SR, &TrimConfig::default(), &none, true).unwrap();
    assert_eq!(enc.speech_samples, 0);
    let r = hound::WavReader::new(std::io::Cursor::new(&wav[..])).unwrap();
    assert_eq!(r.into_samples::<i16>().map(|s| s.unwrap()).collect::<Vec<_>>(), mono);
    assert!(!gate(&wav, &enc));
}

#[test]
fn each_guard_keeps_a_recording_back() {
    let good = Encoded {
        samples: 16_000,
        speech_samples: 5600,
        sample_rate: SR,
        quiet: false,
    };
    assert!(gate(&[1], &good));
    assert!(!gate(&[], &good));
    assert!(!gate(&[1], &Encoded { samples: 3999, ..good }));
    assert!(gate(&[1], &Encoded { samples: 4000, ..good }));
    assert!(!gate(&[1], &Encoded { quiet: true, ..good }));
    assert!(!gate(&[1], &Encoded { speech_samples: 5599, ..good }));
}
