use mori_ear::multipart::{boundary_of, extract_param, parse, parse_disposition};

/// A form with a file, which may hold any bytes, and one text field.
fn build(boundary: &str, file: &[u8], lang: &str) -> Vec<u8> {
    let mut b = Vec::new();
    b.extend_from_slice(format!("--{boundary}\r\n").as_bytes());
    b.extend_from_slice(
        b"Content-Disposition: form-data; name=\"file\"; filename=\"audio.wav\"\r\n",
    );
    b.extend_from_slice(b"Content-Type: audio/wav\r\n\r\n");
    b.extend_from_slice(file);
    b.extend_from_slice(b"\r\n");
    b.extend_from_slice(format!("--{boundary}\r\n").as_bytes());
    b.extend_from_slice(b"Content-Disposition: form-data; name=\"language\"\r\n\r\n");
    b.extend_from_slice(lang.as_bytes());
    b.extend_from_slice(b"\r\n");
    b.extend_from_slice(format!("--{boundary}--\r\n").as_bytes());
    b
}

#[test]
fn boundary_extract() {
    assert_eq!(
        boundary_of("multipart/form-data; boundary=abc123").as_deref(),
        Some("abc123")
    );
    assert_eq!(
        boundary_of("multipart/form-data; boundary=\"x y\"; charset=utf8").as_deref(),
        Some("x y")
    );
    assert_eq!(boundary_of("application/json"), None);
}

#[test]
fn parse_file_and_text_preserves_binary() {
    let file = b"RIFF\x00\x01WAVEdata\r\nmid-crlf\x00\xff";
    let body = build("----BoundaryXYZ", file, "zh");
    let form = parse("----BoundaryXYZ", &body);
    assert_eq!(form.file().unwrap(), file, "every byte of the file is kept");
    assert_eq!(form.text("language").as_deref(), Some("zh"));
    let file_field = form.fields.iter().find(|f| f.name == "file").unwrap();
    assert_eq!(file_field.filename.as_deref(), Some("audio.wav"));
}

#[test]
fn missing_field_is_none() {
    let body = build("b", b"hello-wav", "en");
    let form = parse("b", &body);
    assert!(form.file().is_some());
    assert_eq!(form.text("language").as_deref(), Some("en"));
    assert!(form.text("does-not-exist").is_none());
}

#[test]
fn empty_file_part_round_trips() {
    let body = build("z", b"", "auto");
    let form = parse("z", &body);
    assert_eq!(form.file(), Some(&b""[..]), "an empty file is there, and empty");
}

#[test]
fn parts_keep_their_order_and_the_first_of_a_name_counts() {
    let mut body = b"preamble that is skipped\r\n".to_vec();
    for value in ["one", "two"] {
        body.extend_from_slice(b"--q\r\nContent-Disposition: form-data; name=\"language\"\r\n\r\n");
        body.extend_from_slice(value.as_bytes());
        body.extend_from_slice(b"\r\n");
    }
    body.extend_from_slice(b"--q--\r\nepilogue");
    let form = parse("q", &body);
    assert_eq!(form.fields.len(), 2);
    assert_eq!(form.fields[0].data, b"one");
    assert_eq!(form.fields[1].data, b"two");
    assert_eq!(form.text("language").as_deref(), Some("one"));
    assert!(form.file().is_none());
}

#[test]
fn text_fields_are_trimmed_and_decoded_with_replacements() {
    let mut body = b"--q\r\nContent-Disposition: form-data; name=\"t\"\r\n\r\n  a".to_vec();
    body.push(0xff);
    body.extend_from_slice("好 \r\n--q--".as_bytes());
    let form = parse("q", &body);
    assert_eq!(form.text("t").as_deref(), Some("a\u{fffd}好"));
}

#[test]
fn a_part_without_a_name_is_left_out() {
    let body = b"--q\r\nContent-Type: text/plain\r\n\r\nx\r\n--q\r\nno blank line\r\n--q--";
    assert!(parse("q", body).fields.is_empty());
    assert!(parse("other", body).fields.is_empty());
    assert!(parse("q", b"").fields.is_empty());
}

#[test]
fn disposition_names_are_read() {
    let line: Vec<char> = "form-data; name=\"file\"; filename=\"a b.wav\"".chars().collect();
    assert_eq!(extract_param(&line, "name").as_deref(), Some("file"));
    assert_eq!(extract_param(&line, "other"), None);
    let (name, filename) = parse_disposition(
        b"Content-Type: audio/wav\r\ncontent-disposition: form-data; name=\"file\"",
    );
    assert_eq!(name.as_deref(), Some("file"));
    assert_eq!(filename, None);
    assert_eq!(parse_disposition(b"X: y"), (None, None));
}

#[test]
fn what_stands_round_a_form_is_skipped() {
    let body = build("X", &[0, 1, 255], "zh");
    let mut framed = b"a preamble\r\n".to_vec();
    framed.extend_from_slice(&body);
    framed.extend_from_slice(b"an epilogue - -- \xff");
    let (plain, round) = (parse("X", &body), parse("X", &framed));
    assert_eq!(round.file().map(|f| f.to_vec()), Some(vec![0, 1, 255]));
    assert_eq!(
        round.file().map(|f| f.to_vec()),
        plain.file().map(|f| f.to_vec())
    );
    assert_eq!(round.text("language"), plain.text("language"));
}
