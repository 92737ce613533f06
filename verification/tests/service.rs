use mori_ear::calendar::{civil_from_days, rfc3339_utc, Date};
use mori_ear::service::{
    bind_address, descriptor, existing_service, health, inference_job, not_found, refused, route, transcribed,
    Route, ServiceParams,
};

fn params() -> ServiceParams {
    ServiceParams {
        backend: "auto".into(),
        api_key: None,
        language: "zh".into(),
        cleanup_prompt_file: String::new(),
        stt_initial_prompt_file: String::new(),
        skip_cleanup_default: false,
        timeout_secs: 90,
    }
}

fn form(fields: &[(&str, &str)]) -> Vec<u8> {
    let mut b = Vec::new();
    for (name, value) in fields {
        b.extend_from_slice(
            format!("--q\r\nContent-Disposition: form-data; name=\"{name}\"\r\n\r\n{value}\r\n")
                .as_bytes(),
        );
    }
    b.extend_from_slice(b"--q--\r\n");
    b
}

#[test]
fn the_service_listens_on_this_machine_only() {
    assert_eq!(bind_address(0), "127.0.0.1:0");
    assert_eq!(bind_address(8765), "127.0.0.1:8765");
}

const MULTIPART: &str = "multipart/form-data; boundary=q";

#[test]
fn requests_are_told_apart() {
    assert_eq!(route("GET", "/"), Route::Health);
    assert_eq!(route("GET", "/health?x=1"), Route::Health);
    assert_eq!(route("POST", "/inference"), Route::Inference);
    assert_eq!(route("POST", "/inference?a?b"), Route::Inference);
    assert_eq!(route("GET", "/inference"), Route::NotFound);
    assert_eq!(route("POST", "/"), Route::NotFound);
    assert_eq!(route("GET", ""), Route::NotFound);
}

#[test]
fn a_request_takes_what_it_does_not_say_from_the_service() {
    let body = form(&[("file", "RIFF")]);
    let job = inference_job(MULTIPART, Ok(&body), &params()).unwrap();
    assert_eq!(job.wav, b"RIFF");
    assert_eq!(job.language, "zh");
    assert_eq!(job.backend, "auto");
    assert!(!job.skip_cleanup);
    assert_eq!(job.prompt, None);
}

#[test]
fn a_request_says_how_it_is_transcribed() {
    let body = form(&[
        ("language", "en"),
        ("backend", "local"),
        ("cleanup", "false"),
        ("prompt", "Mori"),
        ("file", "x\r\ny"),
    ]);
    let job = inference_job(MULTIPART, Ok(&body), &params()).unwrap();
    assert_eq!(job.wav, b"x\r\ny");
    assert_eq!(job.language, "en");
    assert_eq!(job.backend, "local");
    assert!(job.skip_cleanup);
    assert_eq!(job.prompt.as_deref(), Some("Mori"));
    let empty = form(&[("language", " "), ("file", "")]);
    let job = inference_job(MULTIPART, Ok(&empty), &params()).unwrap();
    assert_eq!(job.language, "zh", "an empty field says nothing");
}

#[test]
fn clean_up_is_skipped_by_four_words() {
    for (value, skip) in [
        ("false", true),
        ("0", true),
        ("raw", true),
        ("none", true),
        ("true", false),
        ("", false),
        ("False", false),
    ] {
        let body = form(&[("file", "x"), ("cleanup", value)]);
        let job = inference_job(MULTIPART, Ok(&body), &params()).unwrap();
        assert_eq!(job.skip_cleanup, skip, "{value}");
    }
    let raw = ServiceParams {
        skip_cleanup_default: true,
        ..params()
    };
    let job = inference_job(MULTIPART, Ok(&form(&[("file", "x")])), &raw).unwrap();
    assert!(job.skip_cleanup);
}

#[test]
fn requests_that_cannot_be_served_are_refused() {
    let e = inference_job(MULTIPART, Err("cut off"), &params()).unwrap_err();
    assert_eq!((e.status, e.message.as_str()), (400, "讀 request body 失敗: cut off"));
    let e = inference_job("application/json", Ok(b"{}"), &params()).unwrap_err();
    assert_eq!(
        (e.status, e.message.as_str()),
        (400, "需 multipart/form-data(帶 boundary)")
    );
    let e = inference_job(MULTIPART, Ok(&form(&[("language", "zh")])), &params()).unwrap_err();
    assert_eq!((e.status, e.message.as_str()), (400, "缺 'file' part(WAV bytes)"));
    let r = refused(e);
    assert_eq!((r.status, r.json, r.body.as_str()), (400, false, "缺 'file' part(WAV bytes)"));
}

#[test]
fn replies_bring_the_transcript_or_the_reason() {
    let r = transcribed(Ok("他說\"好\"\n".into()));
    assert_eq!((r.status, r.json), (200, true));
    assert_eq!(r.body, "{\"text\":\"他說\\\"好\\\"\\n\"}");
    let v: serde_json::Value = serde_json::from_str(&r.body).unwrap();
    assert_eq!(v["text"], "他說\"好\"\n");
    let r = transcribed(Err("逾時".into()));
    assert_eq!((r.status, r.json, r.body.as_str()), (500, false, "轉譯失敗: 逾時"));
    assert_eq!((health().status, health().body.as_str()), (200, "mori-ear ok"));
    assert_eq!((not_found().status, not_found().body.as_str()), (404, "not found"));
}

#[test]
fn a_discovery_file_is_found_again() {
    let file = descriptor(4711, 99, "2026-01-02T03:04:05Z");
    let v: serde_json::Value = serde_json::from_slice(&file).unwrap();
    assert_eq!(v["contract_version"], 1);
    assert_eq!(v["host"], "127.0.0.1");
    assert_eq!(v["port"], 4711);
    assert_eq!(v["model"], "mori-ear/auto");
    assert_eq!(v["pid"], 99);
    assert_eq!(v["started_at"], "2026-01-02T03:04:05Z");
    assert_eq!(v["inference_path"], "/inference");
    assert_eq!(v.as_object().unwrap().len(), 7);
    assert_eq!(
        existing_service(&file).as_deref(),
        Some("http://127.0.0.1:4711/")
    );
}

#[test]
fn a_discovery_file_of_another_machine_is_not_followed() {
    for file in [
        r#"{"host":"10.0.0.5","port":80}"#,
        r#"{"host":"127.0.0.1","port":0}"#,
        r#"{"host":"127.0.0.1"}"#,
        r#"{"host":"127.0.0.1","port":"80"}"#,
        r#"{"port":80}"#,
        "nonsense",
    ] {
        assert_eq!(existing_service(file.as_bytes()), None, "{file}");
    }
    assert_eq!(
        existing_service(br#"{"host":"::1","port":8}"#).as_deref(),
        Some("http://::1:8/")
    );
}

#[test]
fn points_in_time_are_written_in_utc() {
    assert_eq!(rfc3339_utc(0), "1970-01-01T00:00:00Z");
    assert_eq!(rfc3339_utc(951_782_400), "2000-02-29T00:00:00Z");
    assert_eq!(rfc3339_utc(951_868_800), "2000-03-01T00:00:00Z");
    assert_eq!(rfc3339_utc(1_700_000_000), "2023-11-14T22:13:20Z");
    assert_eq!(rfc3339_utc(4_107_542_399), "2100-02-28T23:59:59Z");
    assert_eq!(rfc3339_utc(4_107_542_400), "2100-03-01T00:00:00Z");
    assert_eq!(rfc3339_utc(253_402_300_800), "10000-01-01T00:00:00Z");
}

#[test]
fn the_days_of_the_calendar_follow_one_another() {
    let leap = |y: u64| y % 4 == 0 && (y % 100 != 0 || y % 400 == 0);
    let mut d = Date { year: 1970, month: 1, day: 1 };
    for n in 0..200_000u64 {
        assert_eq!(civil_from_days(n), d);
        let len = match d.month {
            2 => 28 + leap(d.year) as u64,
            4 | 6 | 9 | 11 => 30,
            _ => 31,
        };
        if d.day < len {
            d.day += 1;
        } else if d.month < 12 {
            d = Date { year: d.year, month: d.month + 1, day: 1 };
        } else {
            d = Date { year: d.year + 1, month: 1, day: 1 };
        }
    }
}
