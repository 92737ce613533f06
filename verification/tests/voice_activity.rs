use mori_ear::local_stt::WavError;
use mori_ear::voice_activity::{read_wav, Detector, Frame, FRAME};

/// A frame of a recording as a detector takes it.
fn frame_of(raw: &[f32], channels: usize, threshold: f32) -> Frame {
    let mono: Vec<f32> = raw
        .chunks_exact(channels)
        .map(|s| s.iter().sum::<f32>() / channels as f32)
        .collect();
    let pcm = (0..FRAME)
        .map(|i| {
            let pos = i as f32 * mono.len() as f32 / 320.0;
            let a = pos as usize;
            let b = (a + 1).min(mono.len() - 1);
            let value = mono[a] + (mono[b] - mono[a]) * (pos - a as f32);
            (value.clamp(-1.0, 1.0) * 32767.0) as i16
        })
        .collect();
    let energy = (mono.iter().map(|s| s * s).sum::<f32>() / mono.len() as f32).sqrt();
    Frame {
        pcm,
        loud: energy >= threshold,
    }
}

/// The frames of a recording that is given in one block.
fn frames(d: &Detector, data: &[f32], channels: usize, threshold: f32) -> Vec<Frame> {
    d.cut(&mut Vec::new(), data)
        .iter()
        .map(|raw| frame_of(raw, channels, threshold))
        .collect()
}

#[test]
fn silence_and_isolated_clicks_are_not_speech() {
    for (rate, channels) in [(16000, 1), (44100, 2), (48000, 1)] {
        let mut d = Detector::new(rate, channels);
        for _ in 0..70 {
            let mut data = vec![0.0; rate as usize * channels as usize];
            data[0] = 0.9;
            let f = frames(&d, &data, channels as usize, 0.008);
            assert!(!d.observe(&f));
        }
    }
}

/// A buzz with the harmonics of a voice.
fn buzz(n: usize) -> Vec<f32> {
    (0..n)
        .map(|i| {
            let t = i as f32 / 16_000.0;
            let sway = 1.0 + 0.3 * (t * 18.0).sin();
            (1..12)
                .map(|k| (t * 2.0 * std::f32::consts::PI * 140.0 * k as f32).sin() / k as f32)
                .sum::<f32>()
                * 0.25
                * sway
        })
        .collect()
}

#[test]
fn a_voice_is_confirmed_by_ten_votes_and_not_by_nine() {
    let data = buzz(16_000);
    let mut d = Detector::new(16_000, 1);
    let all = frames(&d, &data, 1, 0.008);
    assert_eq!(all.len(), 50);
    assert!(!d.observe(&all[..9]), "nine votes are too few");
    assert!(d.observe(&all[9..]), "a second of it is enough");

    let mut quiet = Detector::new(16_000, 1);
    let soft = frames(&quiet, &data, 1, 2.0);
    assert!(!quiet.observe(&soft), "what is not loud has no vote");
}

#[test]
fn small_blocks_find_the_same_speech() {
    for (data, spoken) in [(buzz(16_000), true), (vec![0.0; 16_000], false)] {
        let mut whole = Detector::new(16_000, 1);
        let all = frames(&whole, &data, 1, 0.008);
        assert_eq!(whole.observe(&all), spoken);

        let mut d = Detector::new(16_000, 1);
        let mut pending = Vec::new();
        let mut detected = false;
        for block in data.chunks(127) {
            let f: Vec<Frame> = d
                .cut(&mut pending, block)
                .iter()
                .map(|raw| frame_of(raw, 1, 0.008))
                .collect();
            detected |= d.observe(&f);
        }
        assert_eq!(detected, spoken);
    }
}

#[test]
fn blocks_are_cut_into_whole_frames() {
    let d = Detector::new(100, 2);
    let mut pending = vec![1];
    assert!(d.cut(&mut pending, &[2, 3]).is_empty());
    assert_eq!(pending, vec![1, 2, 3]);
    assert_eq!(
        d.cut(&mut pending, &[4, 5, 6, 7, 8, 9]),
        vec![vec![1, 2, 3, 4], vec![5, 6, 7, 8]]
    );
    assert_eq!(pending, vec![9]);
}

#[test]
fn frames_are_twenty_milliseconds() {
    assert_eq!(Detector::new(16_000, 1).frame_len(), 320);
    assert_eq!(Detector::new(44_100, 2).frame_len(), 1764);
    assert_eq!(Detector::new(10, 3).frame_len(), 3);
    assert_eq!(Detector::new(16_000, 1).whole(1000), 960);
    assert_eq!(Detector::new(16_000, 1).whole(319), 0);
}

#[test]
fn a_file_is_read_with_its_rate_and_channels() {
    let spec = hound::WavSpec {
        channels: 2,
        sample_rate: 22_050,
        bits_per_sample: 16,
        sample_format: hound::SampleFormat::Int,
    };
    let mut buf = std::io::Cursor::new(Vec::new());
    let mut w = hound::WavWriter::new(&mut buf, spec).unwrap();
    for s in [1i16, -2, 3, -4] {
        w.write_sample(s).unwrap();
    }
    w.finalize().unwrap();
    let mut file = buf.into_inner();
    let p = read_wav(&file).unwrap();
    assert_eq!((p.rate, p.channels, p.samples), (22_050, 2, vec![1, -2, 3, -4]));
    file.truncate(file.len() - 1);
    assert_eq!(read_wav(&file).err(), Some(WavError::BadSamples));
    assert_eq!(read_wav(b"RIFF").err(), Some(WavError::Unreadable));
}
