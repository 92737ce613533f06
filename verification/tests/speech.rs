use mori_ear::cleanup::{
    chat_body, cleanup, prompt_location, resolve_system_prompt, ChatResponse, Choice, MessageOut,
    DEFAULT_SYSTEM_PROMPT,
};
use mori_ear::stt::{
    groq_fields, local_fields, read_groq_reply, read_local_reply, FormField, InferenceResponse,
    Response,
};
use mori_ear::stt_prompt::{candidates, locate, resolve, Location};
use mori_ear::watchdog::guard;

fn shown(fields: &[FormField]) -> Vec<(&str, &str)> {
    fields.iter().map(|f| (f.name, f.value.as_str())).collect()
}

#[test]
fn groq_is_asked_for_the_model_and_told_the_language() {
    assert_eq!(
        shown(&groq_fields("zh", Some("詞彙"))),
        vec![
            ("model", "whisper-large-v3-turbo"),
            ("language", "zh"),
            ("prompt", "詞彙"),
        ]
    );
    assert_eq!(
        shown(&groq_fields("", None)),
        vec![("model", "whisper-large-v3-turbo")]
    );
}

#[test]
fn a_local_server_is_told_to_detect_the_language() {
    assert_eq!(shown(&local_fields("", None)), vec![("language", "auto")]);
    assert_eq!(
        shown(&local_fields("en", Some("p"))),
        vec![("language", "en"), ("prompt", "p")]
    );
}

#[test]
fn groq_replies_are_read() {
    let reply = |text: &str| Some(Response { text: text.into() });
    let read = |status, parsed| read_groq_reply(status, "401 Unauthorized", b"no \xffkey", parsed);
    assert_eq!(read(200, reply("  哈囉 \n")), Ok("哈囉".into()));
    assert_eq!(read(299, reply("")), Ok("".into()));
    assert_eq!(read(200, None), Err("parse groq response".into()));
    for parsed in [reply("x"), None] {
        assert_eq!(
            read(401, parsed),
            Err("groq HTTP 401 Unauthorized: no \u{fffd}key".into())
        );
    }
}

#[test]
fn local_replies_are_read() {
    let reply = |text: &str| Some(InferenceResponse { text: text.into() });
    assert_eq!(read_local_reply(200, "200 OK", reply(" 好 ")), Ok("好".into()));
    assert_eq!(read_local_reply(204, "204 X", reply("")), Ok("".into()));
    assert_eq!(
        read_local_reply(200, "200 OK", None),
        Err("parse local whisper-server response".into())
    );
    assert_eq!(
        read_local_reply(500, "500 X", reply("x")),
        Err("local whisper-server HTTP 500 X".into())
    );
}

#[test]
fn a_chat_request_is_json() {
    let body = chat_body("be \"brief\"\n", "原文");
    assert_eq!(
        body,
        "{\"model\":\"openai/gpt-oss-120b\",\"messages\":[{\"role\":\"system\",\"content\":\
         \"be \\\"brief\\\"\\n\"},{\"role\":\"user\",\"content\":\"原文\"}],\"temperature\":0.0}"
    );
    let v: serde_json::Value = serde_json::from_str(&body).unwrap();
    assert_eq!(v["messages"][0]["content"], "be \"brief\"\n");
    assert_eq!(v["messages"][1]["role"], "user");
    assert_eq!(v["temperature"], 0.0);
}

#[test]
fn chat_replies_are_read() {
    let reply = |texts: &[&str]| {
        let choices = texts
            .iter()
            .map(|t| Choice {
                message: MessageOut {
                    content: t.to_string(),
                },
            })
            .collect();
        Some(ChatResponse { choices })
    };
    let read = |parsed| cleanup(200, "200 OK", b"", parsed);
    assert_eq!(read(reply(&[" 好。 ", "x"])), Ok("好。".into()), "the first counts");
    for texts in [&[][..], &["  "], &["", "x"]] {
        assert_eq!(
            read(reply(texts)),
            Err("groq chat returned empty content".into())
        );
    }
    assert_eq!(read(None), Err("parse groq chat response".into()));
    assert_eq!(
        cleanup(429, "429 Too Many Requests", "慢".as_bytes(), reply(&["x"])),
        Err("groq chat HTTP 429 Too Many Requests: 慢".into())
    );
}

#[test]
fn the_users_prompt_counts_unless_it_is_blank() {
    assert_eq!(resolve_system_prompt("~/p.md", Some(" mine ")), " mine ");
    assert_eq!(resolve_system_prompt("~/p.md", Some(" \n")), DEFAULT_SYSTEM_PROMPT);
    assert_eq!(resolve_system_prompt("~/p.md", None), DEFAULT_SYSTEM_PROMPT);
    assert_eq!(resolve_system_prompt(" ", Some("mine")), DEFAULT_SYSTEM_PROMPT);
    assert!(DEFAULT_SYSTEM_PROMPT.starts_with("你是 mori 語音輸入助理。"));
    assert_eq!(prompt_location("  ", true), None);
    assert_eq!(
        prompt_location("~/p.md", true),
        Some(Location::UnderHome("p.md".into()))
    );
    assert_eq!(
        prompt_location("~/p.md", false),
        Some(Location::At("~/p.md".into()))
    );
}

#[test]
fn paths_begin_at_home_or_where_they_say() {
    assert_eq!(locate("~/a/b", true), Location::UnderHome("a/b".into()));
    assert_eq!(locate("~x", true), Location::At("~x".into()));
    assert_eq!(locate("/etc/x", true), Location::At("/etc/x".into()));
}

#[test]
fn initial_prompts_are_looked_for_in_order() {
    assert_eq!(
        candidates(" ~/mine.md "),
        vec![
            Location::UnderHome("mine.md".into()),
            Location::UnderHome(".mori/mori-ear/stt-initial-prompt.md".into()),
            Location::UnderHome(".mori/stt/initial-prompt.md".into()),
        ]
    );
    assert_eq!(candidates("").len(), 2);
    let files = [None, Some(" \n".to_string()), Some(" 全域 ".to_string())];
    assert_eq!(resolve(None, &files).as_deref(), Some("全域"));
    assert_eq!(resolve(Some("  "), &files).as_deref(), Some("全域"));
    assert_eq!(resolve(Some(" 請求 "), &files).as_deref(), Some("請求"));
    assert_eq!(resolve(None, &[None]), None);
}

#[test]
fn a_result_in_time_is_passed_through() {
    assert_eq!(guard(Some(Ok(7)), 5, "t"), Ok(7));
    assert_eq!(
        guard::<u32>(Some(Err("inner boom".into())), 5, "t"),
        Err("inner boom".into())
    );
}

#[test]
fn an_overdue_transcription_is_given_up() {
    let msg = guard::<u32>(None, 1, "slow").unwrap_err();
    assert_eq!(
        msg,
        "轉譯逾時 1s（slow）— 放棄該句避免卡死。如常態太慢,調 ~/.mori/ear.json 的 transcribe_timeout_secs"
    );
}
