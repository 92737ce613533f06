use mori_ear::hotkey::{key_to_code, parse_hotkey, Hotkey, HotkeyError, Key};
use mori_ear::mode_ui::{choice, label, message, next, text, Next};
use mori_ear::mode_voice::{bundled, custom_path, decode, CueError, Voice};
use mori_ear::paste::{
    active_pid, needs_shift_for_paste, needs_shift_for_paste_windows, paste_combo, paste_presses,
    ydotool_arguments, ydotool_keycodes, ydotool_wants_named_keys, PasteKey, Press,
};

#[test]
fn close_never_selects_a_mode() {
    assert_eq!(choice(Some(10)), Some("groq"));
    assert_eq!(choice(Some(11)), Some("local"));
    assert_eq!(choice(Some(12)), Some("auto"));
    for code in [Some(0), Some(252), Some(1), None] {
        assert_eq!(choice(code), None);
    }
}

#[test]
fn the_window_closes_or_fails_by_its_code() {
    assert_eq!(next(Some(11)), Next::Switch("local"));
    assert_eq!(next(Some(0)), Next::Close);
    assert_eq!(next(Some(252)), Next::Close);
    assert_eq!(next(Some(1)), Next::Fail);
    assert_eq!(next(None), Next::Fail);
}

#[test]
fn the_window_says_what_happened() {
    assert_eq!(label("groq"), "線上模式（Groq）");
    assert_eq!(label("local"), "本機模式");
    assert_eq!(label("auto"), "自動模式");
    let shown = text("local", "訊息");
    assert!(shown.starts_with("目前：本機模式\n\n線上："));
    assert!(shown.ends_with("\n\n訊息\n\n已送出辨識的片段不受影響，新片段使用新模式。"));
    assert_eq!(
        message("local", true, false),
        "已切換為本機模式。錄音可繼續，不必重新啟動。"
    );
    assert_eq!(
        message("groq", false, false),
        "切換失敗：尚未設定 Groq 金鑰，仍維持原模式。"
    );
    assert_eq!(
        message("groq", false, true),
        "切換失敗：請確認 ear.json 格式與寫入權限，仍維持原模式。"
    );
}

fn wav(rate: u32, bits: u16, n: usize) -> Vec<u8> {
    let spec = hound::WavSpec {
        channels: 1,
        sample_rate: rate,
        bits_per_sample: bits,
        sample_format: hound::SampleFormat::Int,
    };
    let mut buf = std::io::Cursor::new(Vec::new());
    let mut w = hound::WavWriter::new(&mut buf, spec).unwrap();
    for i in 0..n {
        w.write_sample((i % 100) as i16).unwrap();
    }
    w.finalize().unwrap();
    buf.into_inner()
}

#[test]
fn voices_are_checked_before_they_are_played() {
    let p = decode(&wav(100, 16, 3000)).unwrap();
    assert_eq!((p.rate, p.channels, p.samples.len()), (100, 1, 3000));
    assert_eq!(p.samples[42], 42);
    assert_eq!(decode(&wav(100, 16, 3001)).err(), Some(CueError::BadLength));
    assert_eq!(decode(&wav(100, 16, 0)).err(), Some(CueError::BadLength));
    assert_eq!(decode(&wav(100, 8, 10)).err(), Some(CueError::NotPcm16));
    assert_eq!(decode(b"no").err(), Some(CueError::Unreadable));
    let mut cut = wav(100, 16, 10);
    cut.pop();
    assert_eq!(decode(&cut).err(), Some(CueError::BadSamples));
    assert_eq!(CueError::NotPcm16.message(), "提示音需為 16-bit PCM WAV");
    assert_eq!(CueError::BadLength.message(), "提示音長度必須介於 0 到 30 秒");
}

#[test]
fn each_mode_has_a_voice() {
    assert_eq!(bundled("auto"), Some(Voice::Auto));
    assert_eq!(bundled("groq"), Some(Voice::Groq));
    assert_eq!(bundled("local"), Some(Voice::Local));
    assert_eq!(bundled("error"), Some(Voice::Error));
    assert_eq!(bundled("other"), None);
    assert_eq!(custom_path("auto"), ".mori/mori-ear/voices/auto.wav");
}

#[test]
fn hotkeys_are_read() {
    let e = Hotkey {
        ctrl: true,
        alt: true,
        shift: false,
        meta: false,
        key: Key::Letter('e'),
    };
    assert_eq!(parse_hotkey("Ctrl+Alt+E"), Ok(e));
    assert_eq!(parse_hotkey(" alt + CONTROL + e "), Ok(e));
    let space = parse_hotkey("Super+Shift+Space").unwrap();
    assert!(space.meta && space.shift && space.key == Key::Space);
    assert_eq!(
        parse_hotkey("Ctrl+F13"),
        Err(HotkeyError::UnknownKey("F13".into()))
    );
    assert_eq!(parse_hotkey("Ctrl+Alt"), Err(HotkeyError::NoKey));
    assert_eq!(
        HotkeyError::UnknownKey("F13".into()).message(),
        "unknown key: F13"
    );
    assert_eq!(HotkeyError::NoKey.message(), "hotkey 沒指定主鍵");
    for (name, key) in [
        ("z", Some(Key::Letter('z'))),
        ("return", Some(Key::Enter)),
        ("esc", Some(Key::Escape)),
        ("tab", Some(Key::Tab)),
        ("1", None),
    ] {
        let name: Vec<char> = name.chars().collect();
        assert_eq!(key_to_code(&name), key);
    }
}

#[test]
fn keys_go_down_and_up_again_in_the_opposite_order() {
    assert_eq!(
        ydotool_keycodes("ctrl+shift+v").unwrap(),
        vec!["29:1", "42:1", "47:1", "47:0", "42:0", "29:0"]
    );
    assert_eq!(
        ydotool_keycodes(" Shift + Insert ").unwrap(),
        vec!["42:1", "110:1", "110:0", "42:0"]
    );
    assert_eq!(ydotool_keycodes("ctrl+x"), None);
    assert_eq!(ydotool_keycodes(""), None);
}

#[test]
fn old_versions_take_names() {
    assert!(ydotool_wants_named_keys(
        b"",
        b"keys are separated by plus (+)"
    ));
    assert!(ydotool_wants_named_keys(b"x separated by plus", b""));
    assert!(!ydotool_wants_named_keys(b"usage: keycode:1", b""));
    assert_eq!(
        ydotool_arguments(" Ctrl+V ", true).unwrap(),
        vec!["ctrl+v"]
    );
    assert_eq!(
        ydotool_arguments("ctrl+v", false).unwrap(),
        vec!["29:1", "47:1", "47:0", "29:0"]
    );
    assert_eq!(ydotool_arguments("ctrl+q", true), None);
}

#[test]
fn terminals_paste_with_shift() {
    assert!(needs_shift_for_paste("Gnome-Terminal-"));
    assert!(needs_shift_for_paste("kitty"));
    assert!(!needs_shift_for_paste("firefox"));
    assert!(!needs_shift_for_paste(""));
    assert_eq!(paste_combo("foot"), "ctrl+shift+v");
    assert_eq!(paste_combo("code"), "ctrl+v");
    assert!(needs_shift_for_paste_windows("WindowsTerminal"));
    assert!(!needs_shift_for_paste_windows("powershell"));
}

#[test]
fn presses_are_released() {
    let p = |key, down| Press { key, down };
    assert_eq!(
        paste_presses(true),
        vec![
            p(PasteKey::Control, true),
            p(PasteKey::Shift, true),
            p(PasteKey::V, true),
            p(PasteKey::V, false),
            p(PasteKey::Shift, false),
            p(PasteKey::Control, false),
        ]
    );
    assert_eq!(paste_presses(false).len(), 4);
}

#[test]
fn the_process_of_a_window_is_a_number() {
    assert_eq!(active_pid(true, b"4321\n"), Some(4321));
    assert_eq!(active_pid(true, b"+7"), Some(7));
    assert_eq!(active_pid(true, b"4294967295"), Some(u32::MAX));
    assert_eq!(active_pid(true, b"4294967296"), None);
    assert_eq!(active_pid(true, b"99999999999999999999999"), None);
    for bad in [&b""[..], b"+", b"-1", b"12a", b"1 2", b"\xff", b"4321\xff"] {
        assert_eq!(active_pid(true, bad), None);
    }
    assert_eq!(active_pid(false, b"4321"), None);
}
