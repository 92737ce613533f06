use mori_ear::float::{to_sample, to_samples};
use mori_ear::local_stt::{
    default_inference_path, downmix, is_alive, probe_url, request, resample_linear,
    resample_samples_to_16k, resample_wav_to_16k, resampled_fits, Descriptor, Move, Search, Seen,
    WavError, MAX_WAV_BYTES, PROBE_LIMIT_MS, WAKE_LIMIT_MS, WAKE_POLL_MS,
};

fn wav_with(rate: u32, channels: u16, samples: &[i16]) -> Vec<u8> {
    let spec = hound::WavSpec {
        channels,
        sample_rate: rate,
        bits_per_sample: 16,
        sample_format: hound::SampleFormat::Int,
    };
    let mut buf = std::io::Cursor::new(Vec::new());
    let mut w = hound::WavWriter::new(&mut buf, spec).unwrap();
    for &s in samples {
        w.write_sample(s).unwrap();
    }
    w.finalize().unwrap();
    buf.into_inner()
}

fn wav_at(rate: u32, n: usize) -> Vec<u8> {
    let samples: Vec<i16> = (0..n).map(|i| ((i % 100) as i16) * 100).collect();
    wav_with(rate, 1, &samples)
}

fn samples_in(wav: &[u8]) -> Vec<i16> {
    hound::WavReader::new(std::io::Cursor::new(wav))
        .unwrap()
        .into_samples::<i16>()
        .map(|s| s.unwrap())
        .collect()
}

fn at(host: &str, port: u16, path: &str) -> Descriptor {
    Descriptor {
        host: host.into(),
        port,
        inference_path: path.into(),
        model: None,
    }
}

#[test]
fn resample_produces_16k_mono_16bit() {
    let src = wav_at(48_000, 4800);
    let out = resample_wav_to_16k(&src, None).unwrap();
    let r = hound::WavReader::new(std::io::Cursor::new(out)).unwrap();
    let spec = r.spec();
    assert_eq!(spec.sample_rate, 16_000);
    assert_eq!(spec.channels, 1);
    assert_eq!(spec.bits_per_sample, 16);
    let n = r.into_samples::<i16>().count();
    assert!((n as i32 - 1600).abs() < 20, "0.1 s at 16 kHz, not {n}");
}

#[test]
fn resample_passthrough_when_already_16k() {
    let out = resample_wav_to_16k(&wav_at(16_000, 1600), None).unwrap();
    let r = hound::WavReader::new(std::io::Cursor::new(out)).unwrap();
    assert_eq!(r.spec().sample_rate, 16_000);
    assert_eq!(r.into_samples::<i16>().count(), 1600, "no sample more or less");
}

#[test]
fn resample_rejects_garbage_and_too_short() {
    assert!(resample_wav_to_16k(b"not a wav file at all", None).is_err());
    assert!(
        resample_wav_to_16k(&wav_at(48_000, 1), None).is_err(),
        "one sample is nothing at a third of the rate"
    );
}

#[test]
fn each_fault_of_a_file_has_its_error() {
    assert_eq!(
        resample_wav_to_16k(b"not a wav file at all", None),
        Err(WavError::Unreadable)
    );
    assert_eq!(
        resample_wav_to_16k(&wav_at(48_000, 1), None),
        Err(WavError::Empty)
    );
    assert_eq!(
        resample_wav_to_16k(&vec![0u8; MAX_WAV_BYTES + 1], None),
        Err(WavError::TooLarge(MAX_WAV_BYTES + 1))
    );
    let mut cut = wav_at(16_000, 100);
    cut.truncate(cut.len() - 3);
    assert_eq!(resample_wav_to_16k(&cut, None), Err(WavError::BadSamples));

    let spec = hound::WavSpec {
        channels: 1,
        sample_rate: 16_000,
        bits_per_sample: 32,
        sample_format: hound::SampleFormat::Float,
    };
    let mut buf = std::io::Cursor::new(Vec::new());
    let mut w = hound::WavWriter::new(&mut buf, spec).unwrap();
    w.write_sample(0.5f32).unwrap();
    w.finalize().unwrap();
    assert_eq!(
        resample_wav_to_16k(&buf.into_inner(), None),
        Err(WavError::BadFloats)
    );
    // A whole day at one sample a second is fine; 40 hours are too long for a file.
    assert_eq!(
        resample_samples_to_16k(&vec![0; 144_000], 1, 1),
        Err(WavError::TooLong)
    );
}

#[test]
fn faults_are_said_in_words() {
    assert_eq!(
        WavError::TooLarge(600_000_000).message(),
        "WAV 過大: 600000000 bytes(上限 536870912)"
    );
    assert_eq!(
        WavError::Empty.message(),
        "音訊轉換後為空(太短?),不送本地 whisper-server"
    );
    for e in [
        WavError::Unreadable,
        WavError::BadFloats,
        WavError::BadSamples,
        WavError::TooLong,
    ] {
        assert!(!e.message().is_empty());
    }
}

#[test]
fn channels_are_averaged_towards_zero() {
    assert_eq!(downmix(&[3, 4, -3, -4, 100], 2), vec![3, -3, 50]);
    assert_eq!(downmix(&[7, -8], 1), vec![7, -8]);
    assert_eq!(downmix(&[i16::MIN, i16::MIN], 2), vec![i16::MIN]);
    assert_eq!(downmix(&[], 6), Vec::<i16>::new());
    let out = resample_wav_to_16k(&wav_with(16_000, 2, &[10, 20, 30, 40]), None).unwrap();
    assert_eq!(samples_in(&out), vec![15, 35]);
}

#[test]
fn resampling_follows_straight_lines() {
    assert_eq!(
        resample_linear(&[0, 100], 1, 2),
        vec![0, 50, 100, 100],
        "the last sample is held"
    );
    assert_eq!(resample_linear(&[0, 1], 1, 2), vec![0, 1, 1, 1]);
    assert_eq!(resample_linear(&[0, -1], 1, 2), vec![0, -1, -1, -1]);
    assert_eq!(resample_linear(&[10, 20, 30, 40], 2, 1), vec![10, 30]);
    assert_eq!(resample_linear(&[5], 0, 16_000), Vec::<i16>::new());
    assert_eq!(resample_linear(&[], 48_000, 16_000), Vec::<i16>::new());
    assert_eq!(
        resample_linear(&[i16::MIN, i16::MAX], 48_000, 48_000),
        vec![i16::MIN, i16::MAX]
    );
    assert!(resampled_fits(3, 48_000, 16_000, 1));
    assert!(!resampled_fits(3, 48_000, 16_000, 0));
}

/// The same conversion in double precision.
fn resampled_in_floats(input: &[i16], src: u32, dst: u32) -> Vec<i16> {
    let ratio = dst as f64 / src as f64;
    let count = (input.len() as f64 * ratio).round() as usize;
    let last = input.len() - 1;
    (0..count)
        .map(|j| {
            let pos = j as f64 / ratio;
            let i = pos.floor() as usize;
            let a = input[i.min(last)] as f64;
            let b = input[(i + 1).min(last)] as f64;
            (a + (b - a) * (pos - i as f64)).round() as i16
        })
        .collect()
}

#[test]
fn resampling_agrees_with_floating_point() {
    assert_eq!(
        resample_linear(&[0, 0, 100, 20, 0, 0], 44_100, 16_000),
        vec![0, 39],
        "the position of the second sample is a little before 2.75625"
    );
    let loud: Vec<i16> = (0..441).map(|i| ((i * 7919) % 65536 - 32768) as i16).collect();
    let steps: Vec<i16> = (0..400).map(|i| ((i * i * 20) % 4000 - 2000) as i16).collect();
    let rates = [
        1, 2, 3, 7, 999, 8_000, 11_025, 16_000, 22_050, 44_100, 48_000, 96_000, 65_537, 1_000_003,
    ];
    for input in [&loud, &steps] {
        for &src in &rates {
            for &dst in &rates {
                if dst / src < 100 {
                    assert_eq!(
                        resample_linear(input, src, dst),
                        resampled_in_floats(input, src, dst),
                        "{src} to {dst}"
                    );
                }
            }
        }
    }
    for (src, dst) in [(u32::MAX, 1), (u32::MAX, u32::MAX - 1), (u32::MAX, u32::MAX)] {
        assert_eq!(
            resample_linear(&loud, src, dst),
            resampled_in_floats(&loud, src, dst),
            "{src} to {dst}"
        );
    }
    assert!(!resampled_fits(usize::MAX, 1, u32::MAX, u64::MAX));
    for len in [1, 3, usize::MAX / 3, usize::MAX - 1, usize::MAX] {
        for (src, dst) in [(u32::MAX, 1), (3, 1), (48_000, 16_000), (44_100, 16_000)] {
            let count = (len as f64 * (dst as f64 / src as f64)).round() as u64;
            assert!(resampled_fits(len, src, dst, count), "{len}");
            assert!(count == 0 || !resampled_fits(len, src, dst, count - 1), "{len}");
        }
    }
}

fn float_wav(rate: u32, channels: u16, samples: &[f32]) -> Vec<u8> {
    let spec = hound::WavSpec {
        channels,
        sample_rate: rate,
        bits_per_sample: 32,
        sample_format: hound::SampleFormat::Float,
    };
    let mut buf = std::io::Cursor::new(Vec::new());
    let mut w = hound::WavWriter::new(&mut buf, spec).unwrap();
    for &s in samples {
        w.write_sample(s).unwrap();
    }
    w.finalize().unwrap();
    buf.into_inner()
}

#[test]
fn floating_point_samples_become_integers() {
    let samples = [0.5f32, -0.5, 1.0, -1.0, 2.0, -7.5, 0.0, 0.25, f32::NAN, 1.0e-30];
    let bits: Vec<u32> = samples.iter().map(|f| f.to_bits()).collect();
    let out = resample_wav_to_16k(&float_wav(16_000, 1, &samples), Some(&bits)).unwrap();
    assert_eq!(
        samples_in(&out),
        vec![16383, -16383, 32767, -32767, 32767, -32767, 0, 8191, 0, 0]
    );
    let two = resample_wav_to_16k(&float_wav(16_000, 2, &samples), Some(&bits)).unwrap();
    assert_eq!(samples_in(&two), vec![0, 0, 0, 4095, 0]);
    let whole = wav_with(16_000, 1, &[1, 2]);
    assert_eq!(
        samples_in(&resample_wav_to_16k(&whole, Some(&bits)).unwrap()),
        vec![1, 2],
        "whole numbers are taken from the file"
    );
}

#[test]
fn samples_are_those_of_single_precision() {
    let mut x = 1u32;
    for _ in 0..200_000 {
        x = x.wrapping_mul(1_664_525).wrapping_add(1_013_904_223);
        for bits in [x, (x & 0x807f_ffff) | 0x3f00_0000, (x & 0x81ff_ffff) | 0x3c00_0000] {
            let f = f32::from_bits(bits);
            assert_eq!(
                to_sample(bits),
                (f.clamp(-1.0, 1.0) * 32767.0) as i16,
                "{bits:x}"
            );
        }
    }
    for f in [f32::INFINITY, f32::NEG_INFINITY, 0.0, -0.0, 0.99999994, -0.99999994, f32::MIN_POSITIVE] {
        assert_eq!(to_sample(f.to_bits()), (f.clamp(-1.0, 1.0) * 32767.0) as i16);
    }
    assert_eq!(to_samples(&[0x3f80_0000, 0xbf00_0000]), vec![32767, -16383]);
}

#[test]
fn converting_twice_changes_nothing() {
    let once = resample_wav_to_16k(&wav_with(44_100, 2, &[1, -1, 500, 700, -9, 4, 8, 8]), None).unwrap();
    assert_eq!(resample_wav_to_16k(&once, None).unwrap(), once);
}

#[test]
fn inference_url_normalizes_and_pins_loopback() {
    let d = at("127.0.0.1", 12345, "inference");
    assert_eq!(d.inference_url(), "http://127.0.0.1:12345/inference");
    let evil = at("127.0.0.1", 12345, "@evil.com/");
    assert!(
        evil.inference_url().starts_with("http://127.0.0.1:12345/"),
        "{}",
        evil.inference_url()
    );
}

#[test]
fn non_loopback_host_is_rejected() {
    let d = at("10.0.0.5", 9, "/inference");
    assert!(!d.is_loopback(), "recordings stay on this machine");
    assert!(request(&d, "zh", None, vec![1]).is_none());
    assert_eq!(probe_url(&d), None);
    assert!(!is_alive(&d, Some(200)));
}

#[test]
fn a_path_gets_one_slash() {
    assert_eq!(default_inference_path(), "/inference");
    assert_eq!(
        at("::1", 80, "/inference").inference_url(),
        "http://::1:80/inference"
    );
    assert_eq!(at("::1", 0, "").inference_url(), "http://::1:0/");
}

#[test]
fn a_server_is_alive_when_it_answers_well() {
    let d = at("127.0.0.1", 8080, "/inference");
    assert_eq!(probe_url(&d).as_deref(), Some("http://127.0.0.1:8080"));
    assert!(is_alive(&d, Some(200)));
    assert!(is_alive(&d, Some(299)));
    assert!(!is_alive(&d, Some(301)));
    assert!(!is_alive(&d, Some(199)));
    assert!(!is_alive(&d, None));
}

#[test]
fn a_request_names_the_language_and_the_prompt() {
    let d = at("127.0.0.1", 8080, "/inference");
    let q = request(&d, "", Some("Mori"), vec![1, 2]).unwrap();
    assert_eq!(q.url, "http://127.0.0.1:8080/inference");
    assert_eq!(q.file, vec![1, 2]);
    assert_eq!(q.fields.len(), 2);
    assert_eq!((q.fields[0].name, q.fields[0].value.as_str()), ("language", "auto"));
    assert_eq!((q.fields[1].name, q.fields[1].value.as_str()), ("prompt", "Mori"));
}

#[test]
fn a_search_wakes_the_server_once_and_ends() {
    let mut s = Search::new();
    assert_eq!(s.advance(Seen::Checked(false, 2_000)), Move::Wake(WAKE_LIMIT_MS));
    assert_eq!(s.advance(Seen::Woken(true, 1_000)), Move::Check(PROBE_LIMIT_MS));
    let mut spent = 1_000;
    let mut polls = 0;
    while s.advance(Seen::Checked(false, 1_500)) == Move::Wait(WAKE_POLL_MS) {
        spent += 1_500 + WAKE_POLL_MS;
        polls += 1;
        let next = s.advance(Seen::Waited(WAKE_POLL_MS));
        assert_eq!(next, Move::Check(PROBE_LIMIT_MS.min(WAKE_LIMIT_MS - spent)));
    }
    assert_eq!(polls, 6);
    assert_eq!(s.left_ms, 500);
    assert_eq!(s.advance(Seen::Checked(false, 1)), Move::GiveUp);
    assert_eq!(s.advance(Seen::Checked(true, 1)), Move::Send);

    let mut slow = Search::new();
    assert_eq!(slow.advance(Seen::Checked(false, 0)), Move::Wake(WAKE_LIMIT_MS));
    assert_eq!(slow.advance(Seen::Woken(true, 14_000)), Move::Check(1_000));
    let mut late = Search::new();
    late.advance(Seen::Checked(false, 0));
    assert_eq!(late.advance(Seen::Woken(true, WAKE_LIMIT_MS)), Move::GiveUp);

    let mut none = Search::new();
    assert_eq!(none.advance(Seen::Checked(false, 0)), Move::Wake(WAKE_LIMIT_MS));
    assert_eq!(none.advance(Seen::Woken(false, 5)), Move::GiveUp);
    assert_eq!(Search::new().advance(Seen::Checked(true, 5)), Move::Send);
}

#[test]
fn a_wav_file_is_a_head_and_the_samples() {
    let file = mori_ear::wav::encode(16_000, &[1, -2]);
    let mut want = b"RIFF\x28\0\0\0WAVEfmt \x10\0\0\0\x01\0\x01\0".to_vec();
    want.extend_from_slice(&16_000u32.to_le_bytes());
    want.extend_from_slice(&32_000u32.to_le_bytes());
    want.extend_from_slice(b"\x02\0\x10\0data\x04\0\0\0\x01\0\xfe\xff");
    assert_eq!(file, want);
}
