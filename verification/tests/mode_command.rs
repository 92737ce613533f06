use mori_ear::mode_command::{
    confirm, current, execute, notify, parse, save, settings, status_after_cleanup, Command, SaveError,
    Settings,
};

#[test]
fn online_offline_aliases_and_read_only_cleanup_recovery() {
    for text in [
        "Mori 切換成線上模式。",
        "mori切换成线上模式",
        "Mori改用在線模式",
    ] {
        assert_eq!(parse(text), Some(Command::Switch("groq")), "{text}");
        assert_eq!(status_after_cleanup(text), None);
    }
    assert_eq!(parse("毛蕊切換成離線模式"), Some(Command::Switch("local")));
    assert_eq!(parse("貓咪現在是什麼模式？"), Some(Command::Status));
    assert_eq!(
        status_after_cleanup("現在是什麼模式？"),
        Some(Command::Status)
    );
    for text in [
        "切換成現場模式",
        "Mori切換成現場模式",
        "毛蕊現在是怎麼摸的",
        "Mori不要切換成線上模式",
    ] {
        assert_eq!(parse(text), None, "{text}");
    }
}

#[test]
fn status_does_not_require_a_name_but_switches_do() {
    for text in [
        "現在是什麼模式？",
        "什麼模式？",
        "請問現在用哪個模式",
        "Maurice現在在做什麼模式？",
        "现在是什么模式",
        "現在是甚麼模式？",
    ] {
        assert_eq!(parse(text), Some(Command::Status), "{text}");
    }
    for text in [
        "切換到groq模式",
        "幫我換成本機模式",
        "如果只要說是這些什麼模式也沒有反應",
        "我想問現在是什麼模式",
        "這些什麼模式也沒有發現",
        "「什麼模式？」",
    ] {
        assert_eq!(parse(text), None, "{text}");
    }
    assert_eq!(
        parse("Maurice幫我換成本機模式"),
        Some(Command::Switch("local"))
    );
}

#[test]
fn morris_and_longer_name_aliases_are_not_dictation() {
    for name in ["Morris", "Moris", "Morley", "Mori", "莫里斯"] {
        assert_eq!(
            parse(&format!("{name}現在是什麼模式？")),
            Some(Command::Status),
            "{name}"
        );
        assert_eq!(
            parse(&format!("{name}切換到groq模式")),
            Some(Command::Switch("groq")),
            "{name}"
        );
        assert_eq!(parse(&format!("{name}不要切換到groq模式")), None);
        assert_eq!(parse(&format!("我說{name}現在是什麼模式")), None);
    }
}

#[test]
fn commands_require_a_complete_addressed_utterance() {
    for text in ["Mori，現在是什麼模式？", "hey Mori 现在是什么模式"] {
        assert_eq!(parse(text), Some(Command::Status));
    }
    for (text, mode) in [
        ("Mori 切換到 auto 模式。", "auto"),
        ("mori切换到GROQ模式", "groq"),
        ("mori 切換到 local 模式", "local"),
        ("mori切換到本機模式", "local"),
    ] {
        assert_eq!(parse(text), Some(Command::Switch(mode)));
    }
    for text in [
        "切換到auto模式",
        "我說mori切換到auto模式",
        "mori切換到auto模式然後寫信",
        "「mori切換到auto模式」",
        "mori不要切換到auto模式",
        "mori切換到未知模式",
    ] {
        assert_eq!(parse(text), None, "{text}");
    }
    for (text, expected) in [
        ("茉莉，請問你現在用哪個模式啊？", Command::Status),
        ("莫莉幫我換成本機模式", Command::Switch("local")),
        ("Mori 改用 Grok", Command::Switch("groq")),
        ("嘿摩利切到自動模式", Command::Switch("auto")),
    ] {
        assert_eq!(parse(text), Some(expected), "{text}");
    }
}

#[test]
fn spacing_punctuation_and_capitals_are_ignored() {
    for text in ["M O R I,切換到 A U T O 模式!", "　mori。切換到Auto模式\n"] {
        assert_eq!(parse(text), Some(Command::Switch("auto")), "{text}");
    }
}

#[test]
fn dictation_round_a_command_makes_it_none() {
    for command in ["mori切換到auto模式", "Mori，現在是什麼模式？"] {
        assert!(parse(command).is_some(), "{command}");
        for text in [
            format!("我說{command}"),
            format!("「{command}」"),
            format!("Mori不要{command}"),
            format!("{command}然後寫信"),
        ] {
            assert_eq!(parse(&text), None, "{text}");
        }
    }
}

#[test]
fn settings_can_disable_each_feedback_independently() {
    let cfg = settings(Some(br#"{"mode_commands":{"enabled":false}}"#));
    assert!(!cfg.enabled);
    assert!(cfg.sound && cfg.notification);
    let cfg = settings(Some(
        br#"{"mode_commands":{"sound":false,"notification":false}}"#,
    ));
    assert!(cfg.enabled);
    assert!(!cfg.sound && !cfg.notification);
    let cfg = settings(Some(br#"{"mode_commands":[false]}"#));
    assert!(!cfg.enabled && cfg.sound && cfg.notification, "the settings in order");
    let cfg = settings(Some(br#"{"mode_commands":[true,false,false]}"#));
    assert!(cfg.enabled && !cfg.sound && !cfg.notification);
}

#[test]
fn settings_fall_back_to_everything_on() {
    for file in [
        None,
        Some(&b"broken"[..]),
        Some(&b"[]"[..]),
        Some(&br#"{"backend":"auto"}"#[..]),
        Some(&br#"{"mode_commands":7}"#[..]),
        Some(&br#"{"mode_commands":[]}"#[..]),
        Some(&br#"{"mode_commands":[false,false,false,false]}"#[..]),
        Some(&br#"{"mode_commands":[false,1]}"#[..]),
        Some(&br#"{"mode_commands":{"sound":"no","enabled":false}}"#[..]),
    ] {
        assert_eq!(settings(file), Settings::default());
    }
}

#[test]
fn a_switch_keeps_numbers_of_either_sign() {
    let file = br#"{"low":-9223372036854775808,"minus":-5,"high":18446744073709551615}"#;
    let written = save(Some(file), "local", true).unwrap();
    let v: serde_json::Value = serde_json::from_slice(&written).unwrap();
    assert_eq!(v["low"], i64::MIN);
    assert_eq!(v["minus"], -5);
    assert_eq!(v["high"], u64::MAX);
}

#[test]
fn live_mode_read_follows_switches_without_reloading_other_settings() {
    assert_eq!(current(None, "auto"), "auto");
    let mut file: Option<Vec<u8>> = None;
    for mode in ["local", "groq", "auto"] {
        let written = save(file.as_deref(), mode, true).unwrap();
        assert_eq!(confirm(Some(&written), mode), Ok(()));
        assert_eq!(current(Some(&written), "local"), mode);
        file = Some(written);
    }
    assert_eq!(
        save(file.as_deref(), "unknown", true),
        Err(SaveError::UnknownMode)
    );
    assert_eq!(
        save(Some(b"[]"), "local", true),
        Err(SaveError::NotAnObject)
    );
}

#[test]
fn save_preserves_settings_and_rejects_unusable_or_broken_config() {
    let before =
        br#"{"backend":"local","secret":"keep","voice_input":{"live_paste":true},"unknown":42}"#;
    assert_eq!(save(Some(before), "groq", false), Err(SaveError::NoKey));
    let after = save(Some(before), "groq", true).unwrap();
    assert_eq!(current(Some(&after), "auto"), "groq");
    assert_eq!(after.last(), Some(&b'\n'));
    let v: serde_json::Value = serde_json::from_slice(&after).unwrap();
    assert_eq!(v["unknown"], 42);
    assert_eq!(v["secret"], "keep");
    assert_eq!(v["voice_input"]["live_paste"], true);
    assert_eq!(v["backend"], "groq");
    assert_eq!(save(Some(b"broken"), "local", true), Err(SaveError::Broken));
}

#[test]
fn nested_settings_are_read_back_as_they_were() {
    let before = br#"{"a":[1,true,{"b":[],"c":{}}],"backend":"auto","n":null,"x":-7,"y":0.5}"#;
    let after = save(Some(before), "local", false).unwrap();
    let mut was: serde_json::Value = serde_json::from_slice(before).unwrap();
    let is: serde_json::Value = serde_json::from_slice(&after).unwrap();
    was["backend"] = "local".into();
    assert_eq!(is, was);

    // As deep as a reader goes.
    let nested = |depth: usize| {
        let mut file = b"{\"deep\":".to_vec();
        file.extend(vec![b'['; depth]);
        file.extend(vec![b']'; depth]);
        file.push(b'}');
        file
    };
    let after = save(Some(&nested(126)), "local", false).unwrap();
    assert_eq!(current(Some(&after), "auto"), "local");
    assert_eq!(
        save(Some(&nested(127)), "local", false),
        Err(SaveError::Broken)
    );
}

#[test]
fn spacing_punctuation_and_capitals_do_not_matter() {
    for text in [
        "Mori 切換到 groq 模式。",
        "hey, morris! 幫我，換成：本機",
        "現在是什麼模式？",
        "切換到 groq",
    ] {
        let bare: String = text
            .chars()
            .filter(|c| !c.is_whitespace() && !",，。.!！?？:：".contains(*c))
            .collect();
        assert_eq!(parse(&bare), parse(text), "{text}");
        assert_eq!(parse(&text.to_ascii_uppercase()), parse(text), "{text}");
    }
}

#[test]
fn an_unknown_mode_in_the_file_is_not_current() {
    assert_eq!(current(Some(br#"{"backend":"cloud"}"#), "local"), "local");
    assert_eq!(current(Some(br#"{"backend":3}"#), "local"), "local");
    assert_eq!(
        confirm(Some(br#"{"backend":"auto"}"#), "groq"),
        Err(SaveError::NotSaved)
    );
}

#[test]
fn a_question_writes_nothing_and_a_switch_writes_the_mode() {
    assert_eq!(execute(Command::Status, None, false), Ok(None));
    let written = execute(Command::Switch("local"), None, false).unwrap().unwrap();
    assert_eq!(written, b"{\n  \"backend\": \"local\"\n}\n");
    assert_eq!(
        execute(Command::Switch("groq"), None, false),
        Err(SaveError::NoKey)
    );
}

#[test]
fn refusals_are_said_in_words() {
    assert_eq!(SaveError::UnknownMode.message(), "未知辨識模式");
    assert_eq!(SaveError::NoKey.message(), "沒有 Groq API key，模式未切換");
    assert_eq!(SaveError::Broken.message(), "設定檔 JSON 損壞，模式未切換");
    assert_eq!(SaveError::NotAnObject.message(), "設定檔必須是 JSON object");
    assert_eq!(SaveError::NotSaved.message(), "模式設定驗證失敗");
}

#[test]
fn notices_name_the_mode() {
    let n = notify("groq", true);
    assert_eq!(n.title, "Mori：模式已切換");
    assert_eq!(n.detail, "Groq 雲端模式：使用 Groq 辨識，需要網路。");
    assert_eq!(notify("auto", false).title, "Mori：目前辨識模式");
    assert_eq!(notify("error", true).title, "Mori：模式未切換");
}

#[test]
fn spacing_and_punctuation_are_ignored() {
    assert_eq!(
        parse("  MORI ，切 換 到 Local 模 式 ！"),
        Some(Command::Switch("local"))
    );
}
