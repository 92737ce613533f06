use mori_ear::cli::{parse_cli, CliMode};
use mori_ear::config::{shared_key, Config, VoiceInputConfig};
use mori_ear::hotkey::KeyEdge;
use mori_ear::pipeline::{
    advance, after_cleanup, after_stt, after_transcript, input_refusal, Attempts, Came, Engine,
    Next, Stage,
};
use mori_ear::preview::{available, confirm, verdict_from, Verdict};
use mori_ear::session::{
    after_confirmation, arm_autostop, asks_first, assemble, handle_event, needs_confirmation,
    preview_line, segment_label, Act, Emitter,
};

#[test]
fn verdict_maps_yad_exit_codes() {
    assert_eq!(
        verdict_from(Some(0), "改過的字".into()),
        Verdict::Send("改過的字".into())
    );
    assert_eq!(verdict_from(Some(1), "x".into()), Verdict::Discard);
    assert_eq!(verdict_from(Some(0), "   ".into()), Verdict::Discard);
    assert_eq!(verdict_from(Some(252), "x".into()), Verdict::Discard);
    assert_eq!(verdict_from(None, "x".into()), Verdict::Discard);
}

#[test]
fn an_edited_text_is_sent_without_space_round_it() {
    assert_eq!(
        confirm(Some(0), " 改過 \n".as_bytes()),
        Verdict::Send("改過".into())
    );
    assert_eq!(confirm(Some(0), b" \n"), Verdict::Discard);
    assert_eq!(confirm(Some(1), b"x"), Verdict::Discard);
    assert!(available(Some(0)));
    assert!(!available(Some(1)) && !available(None));
}

#[test]
fn held_keys_record_while_they_are_held() {
    let act = |recording, edge| handle_event(recording, false, 120, edge);
    assert_eq!(act(false, KeyEdge::Pressed), Act::Start);
    assert_eq!(act(true, KeyEdge::Pressed), Act::Nothing);
    assert_eq!(act(true, KeyEdge::Released), Act::Stop);
    assert_eq!(act(false, KeyEdge::Released), Act::Nothing);
}

#[test]
fn toggled_keys_record_from_one_press_to_the_next() {
    let act = |recording, edge| handle_event(recording, true, 120, edge);
    assert_eq!(act(false, KeyEdge::Pressed), Act::StartFor(120));
    assert_eq!(act(true, KeyEdge::Released), Act::Nothing);
    assert_eq!(act(true, KeyEdge::Pressed), Act::Stop);
    assert_eq!(act(false, KeyEdge::Released), Act::Nothing);
    assert_eq!(arm_autostop(120), Some(120));
    assert_eq!(arm_autostop(0), None);
}

#[test]
fn segments_appear_in_the_order_they_were_spoken() {
    let mut e = Emitter::new();
    assert_eq!((e.expect(), e.expect(), e.expect()), (0, 1, 2));
    // The later segments are done first.
    assert!(e.in_order(2, Some(" 三 ".into())).is_empty());
    assert!(e.in_order(1, Some("  ".into())).is_empty());
    assert_eq!(e.in_order(0, Some("一".into())), vec!["一", "三"]);
    assert_eq!(e.expect(), 3);
    assert!(e.in_order(3, None).is_empty());
    assert_eq!(e.expect(), 4);
    assert_eq!(e.in_order(4, Some("五".into())), vec!["五"]);
}

#[test]
fn emitter_outputs_in_speech_order_even_when_later_segments_finish_first() {
    let mut e = Emitter::new();
    for n in 0..3 {
        assert_eq!(e.expect(), n);
    }
    let mut out: Vec<String> = Vec::new();
    for n in (0..3).rev() {
        out.extend(e.in_order(n, Some(n.to_string())));
    }
    assert_eq!(out, vec!["0", "1", "2"]);
}

#[test]
fn emitter_reset_starts_a_new_utterance_from_zero() {
    let mut e = Emitter::new();
    let mut out: Vec<String> = Vec::new();
    for n in 0..2 {
        e.expect();
        out.extend(e.in_order(n, Some(n.to_string())));
    }
    e.reset();
    e.expect();
    out.extend(e.in_order(0, Some("100".into())));
    assert_eq!(out, vec!["0", "1", "100"]);
}

#[test]
fn one_limit_holds_for_transcribing_and_cleaning_up() {
    let first = advance(
        Stage::Transcribing,
        Came::Transcript(Ok("字".into())),
        false,
        true,
    );
    assert!(matches!(first, Next::CleanUp(t) if t == "字"));
    let cleaning = || Stage::CleaningUp("字".into());
    let next = |came| advance(cleaning(), came, false, true);
    assert!(matches!(next(Came::Cleaned(Ok("字。".into()))), Next::Use(t) if t == "字。"));
    assert!(matches!(next(Came::Cleaned(Err("x".into()))), Next::Use(t) if t == "字"));
    assert!(matches!(next(Came::Overdue), Next::Drop));
    assert!(matches!(next(Came::Transcript(Ok("x".into()))), Next::Drop));
    assert!(matches!(
        advance(Stage::Transcribing, Came::Overdue, false, true),
        Next::Drop
    ));
}

#[test]
fn a_new_recording_begins_with_its_first_segment() {
    let mut e = Emitter::new();
    e.expect();
    e.expect();
    assert!(e.in_order(1, Some("x".into())).is_empty());
    e.reset();
    assert_eq!(e.expect(), 0);
    assert_eq!(e.in_order(0, Some("新".into())), vec!["新"]);
}

#[test]
fn segments_are_called_by_their_number_and_previewed_without_space() {
    assert_eq!(segment_label(12), "seg12");
    assert_eq!(preview_line(&Some(" 好 ".into())).as_deref(), Some("好"));
    assert_eq!(preview_line(&None), None);
}

#[test]
fn a_text_is_its_segments_and_its_tail() {
    let segments = [
        Some(" 一 ".to_string()),
        None,
        Some(" \n".to_string()),
        Some("二".to_string()),
    ];
    assert_eq!(
        assemble(&segments, &Some(" 三".into())).as_deref(),
        Some("一二三")
    );
    assert_eq!(assemble(&segments, &None).as_deref(), Some("一二"));
    assert_eq!(assemble(&[None], &Some(" ".into())), None);
    assert_eq!(assemble(&[], &None), None);
}

#[test]
fn long_texts_are_shown_first_unless_they_were_pasted() {
    assert!(asks_first(true, false));
    assert!(!asks_first(true, true) && !asks_first(false, false));
    assert!(needs_confirmation("一二三", true, 2));
    assert!(!needs_confirmation("一二", true, 2));
    assert!(!needs_confirmation("一二三", false, 2));
    assert!(needs_confirmation("一", true, 0));
    let text = || "原".to_string();
    assert_eq!(
        after_confirmation(text(), Some(Verdict::Send("改".into()))).as_deref(),
        Some("改")
    );
    assert_eq!(after_confirmation(text(), Some(Verdict::Discard)), None);
    assert_eq!(after_confirmation(text(), None).as_deref(), Some("原"));
}

fn engines(backend: &str, has_key: bool) -> Vec<Engine> {
    let mut a = Attempts::new(backend, has_key).unwrap();
    let mut out = vec![a.current()];
    while a.report(Err("x".into())).is_none() {
        out.push(a.current());
    }
    out
}

#[test]
fn recognisers_are_asked_in_order() {
    assert_eq!(engines("auto", true), vec![Engine::Local, Engine::Groq]);
    assert_eq!(engines("auto", false), vec![Engine::Local]);
    assert_eq!(engines("whatever", true), vec![Engine::Local, Engine::Groq]);
    assert_eq!(engines("local", true), vec![Engine::Local]);
    assert_eq!(engines("groq", true), vec![Engine::Groq]);
    assert_eq!(
        Attempts::new("groq", false).err().as_deref(),
        Some("backend=groq 但無 Groq API key")
    );
}

#[test]
fn the_first_transcript_or_the_last_failure_counts() {
    let mut a = Attempts::new("auto", true).unwrap();
    assert_eq!(a.report(Ok("本機".into())), Some(Ok("本機".into())));
    let mut a = Attempts::new("auto", true).unwrap();
    assert_eq!(a.report(Err("local".into())), None);
    assert_eq!(a.report(Err("groq".into())), Some(Err("groq".into())));
    let mut a = Attempts::new("auto", false).unwrap();
    assert_eq!(a.report(Err("local".into())), Some(Err("local".into())));
}

#[test]
fn transcripts_are_cleaned_up_used_or_dropped() {
    assert!(matches!(after_stt(Ok("字".into()), false, true), Next::CleanUp(t) if t == "字"));
    assert!(matches!(after_stt(Ok("字".into()), true, true), Next::Use(t) if t == "字"));
    assert!(matches!(after_stt(Ok("字".into()), false, false), Next::Use(_)));
    assert!(matches!(after_stt(Ok(" \n".into()), false, true), Next::Drop));
    assert!(matches!(after_stt(Err("x".into()), false, true), Next::Drop));
    assert!(matches!(after_transcript(" ".into(), true, true), Next::Use(t) if t == " "));
    assert!(matches!(after_transcript("字".into(), false, true), Next::CleanUp(_)));
    assert_eq!(after_cleanup("raw".into(), Ok("clean".into())), "clean");
    assert_eq!(after_cleanup("raw".into(), Err("x".into())), "raw");
}

#[test]
fn an_empty_file_is_not_transcribed() {
    assert_eq!(input_refusal("a.wav", b"").as_deref(), Some("input file 是空檔:a.wav"));
    assert_eq!(input_refusal("a.wav", b"x"), None);
}

#[test]
fn the_command_line_says_what_to_do() {
    let cli = |args: &[&str]| {
        let v: Vec<String> = args.iter().map(|s| s.to_string()).collect();
        parse_cli(&v)
    };
    assert_eq!(cli(&["mori-ear"]), CliMode::Daemon);
    assert_eq!(cli(&[]), CliMode::Daemon);
    assert_eq!(cli(&["x", "--input", "a.wav"]), CliMode::Batch("a.wav".into()));
    assert_eq!(
        cli(&["x", "--input", "a", "--input", "b"]),
        CliMode::Batch("b".into())
    );
    assert_eq!(cli(&["x", "--input", "a", "--serve"]), CliMode::Serve);
    assert_eq!(cli(&["x", "-h"]), CliMode::Help);
    assert_eq!(cli(&["x", "--help", "--bad"]), CliMode::Help);
    assert_eq!(
        cli(&["x", "--input"]),
        CliMode::Error("--input 需要 file path".into())
    );
    assert_eq!(cli(&["x", "--bad"]), CliMode::Error("未知參數:--bad".into()));
}

#[test]
fn the_configuration_has_defaults() {
    let c = Config::load(None, None);
    assert_eq!(c.hotkey, "Ctrl+Alt+E");
    assert_eq!(c.backend, "auto");
    assert_eq!(c.paste_key, "ctrl+v");
    assert!(c.paste_back && !c.raw);
    assert_eq!(c.transcribe_timeout_secs, 90);
    assert!(c.service.enabled);
    assert_eq!(c.service.port, 0);
    assert_eq!(c.voice_input.toggle_max_secs, 120);
    assert_eq!(c.voice_input.preview_confirm_chars, 150);
    let s = c.voice_input.to_stream();
    assert_eq!((s.enabled, s.pause_ms, s.min_segment_ms), (true, 700, 1500));
    let t = c.voice_input.to_trim();
    assert_eq!((t.enabled, t.min_silence_ms), (true, 300));
}

#[test]
fn keys_are_looked_for_in_order() {
    let own = |k: &str| Config {
        groq_api_key: k.into(),
        ..Config::default()
    };
    let c = Config::load(Some(own("")), Some("shared".into()));
    assert_eq!(c.resolved_api_key(Some("env")).as_deref(), Some("shared"));
    let c = Config::load(Some(own("own")), Some("shared".into()));
    assert_eq!(c.resolved_api_key(Some("env")).as_deref(), Some("own"));
    let c = Config::load(Some(own("")), None);
    assert_eq!(c.resolved_api_key(Some("env")).as_deref(), Some("env"));
    assert_eq!(c.resolved_api_key(Some("")), None);
    assert_eq!(c.resolved_api_key(None), None);
    let groq = Config {
        backend: "groq".into(),
        ..Config::default()
    };
    assert!(groq.lacks_key(false) && !groq.lacks_key(true));
    assert!(!Config::default().lacks_key(false));
}

#[test]
fn the_shared_key_is_found_unless_it_is_a_placeholder() {
    let key = |text: &str| shared_key(text.as_bytes());
    assert_eq!(
        key(r#"{"providers":{"groq":{"api_key":"k"}}}"#).as_deref(),
        Some("k")
    );
    for text in [
        r#"{"providers":{"groq":{"api_key":""}}}"#,
        r#"{"providers":{"groq":{"api_key":"REPLACE_ME"}}}"#,
        r#"{"providers":{"groq":{"api_key":1}}}"#,
        r#"{"providers":{"groq":{}}}"#,
        r#"{"providers":{}}"#,
        r#"{}"#,
        "nonsense",
    ] {
        assert_eq!(key(text), None, "{text}");
    }
}

#[test]
fn modes_follow_from_the_hotkey() {
    let v = |mode: &str, live: Option<bool>, preview: Option<bool>, stream: bool| VoiceInputConfig {
        hotkey_mode: mode.into(),
        live_paste: live,
        preview_enabled: preview,
        stream_chunks_enabled: stream,
        ..VoiceInputConfig::default()
    };
    let m = v("Toggle", None, None, true).modes(true);
    assert!(m.toggle && m.live_paste && !m.want_preview && !m.preview_on);
    let m = v("hold", None, None, true).modes(true);
    assert!(!m.toggle && !m.live_paste && m.want_preview && m.preview_on);
    assert!(!v("hold", None, None, true).modes(false).preview_on);
    let m = v("hold", Some(true), None, true).modes(true);
    assert!(!m.live_paste && m.live_paste_ignored);
    let m = v("toggle", Some(true), None, false).modes(true);
    assert!(!m.live_paste && m.live_paste_ignored && m.preview_on);
    let m = v("toggle", Some(false), Some(false), true).modes(true);
    assert!(!m.live_paste && !m.live_paste_ignored && !m.want_preview);
}
