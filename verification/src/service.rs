//! The transcription service on this machine: which request is which, what a request asks for,
//! what is replied, and the file by which clients find the service.
use crate::json::{
    self, compact, document, holds, member_number, member_text, members, pretty,
};
use crate::local_stt::{is_loopback_host, is_success};
use crate::multipart::{
    self, body_of, boundary_in, delimiter, fields_for, first_named, law_first_of_a_name_wins,
    parts_of, utf8_lossy, writable, FieldView, Form, Part,
};
use crate::stt::local_transcript;
use crate::text::{
    chars_of, concat, concat3, decimal, ends_with, first_from, is_one_of, lemma_first_from, lemma_first_from_is,
    occurs_at, owned, pieces, push_str, same, split, starts_with, string_of, texts, to_decimal,
    trimmed,
};
use serde_json::Value;
use vstd::prelude::*;
use vstd::slice::slice_to_vec;
use vstd::utf8::encode_utf8;

verus! {

/// How the service transcribes, unless a request says otherwise.
#[derive(Debug)]
pub struct ServiceParams {
    pub backend: String,
    pub api_key: Option<String>,
    pub language: String,
    pub cleanup_prompt_file: String,
    pub stt_initial_prompt_file: String,
    /// Whether transcripts are left as they are, not cleaned up.
    pub skip_cleanup_default: bool,
    /// How long a transcription may take.
    pub timeout_secs: u64,
}

// ---------------------------------------------------------------------------------------------
// Routes
// ---------------------------------------------------------------------------------------------

/// What a request is for.
#[derive(Debug, Clone, Copy, PartialEq, Eq, Structural)]
pub enum Route {
    /// To find out whether the service is up.
    Health,
    /// To have a recording transcribed.
    Inference,
    NotFound,
}

/// What a request with this method and path is for.
pub open spec fn route_of(method: Seq<char>, path: Seq<char>) -> Route {
    if method == "GET"@ && (path == "/"@ || path == "/health"@) {
        Route::Health
    } else if method == "POST"@ && path == "/inference"@ {
        Route::Inference
    } else {
        Route::NotFound
    }
}

/// The path of an address: what stands before its query.
pub open spec fn path_of(url: Seq<char>) -> Seq<char> {
    pieces(url, "?"@)[0]
}

/// What a request is for.
pub fn route(method: &str, url: &str) -> (r: Route)
    ensures
        r == route_of(method@, path_of(url@)),
{
    let chars = chars_of(url);
    proof {
        reveal_strlit("?");
    }
    let parts = split(chars.as_slice(), "?");
    let path = string_of(parts[0]);
    proof {
        assert(crate::text::slice_texts(parts@)[0] == parts@[0]@);
    }
    let path = path.as_str();
    if same(method, "GET") && (same(path, "/") || same(path, "/health")) {
        Route::Health
    } else if same(method, "POST") && same(path, "/inference") {
        Route::Inference
    } else {
        Route::NotFound
    }
}

// ---------------------------------------------------------------------------------------------
// Requests
// ---------------------------------------------------------------------------------------------

/// A recording to transcribe, and how.
#[derive(Debug)]
pub struct Job {
    pub wav: Vec<u8>,
    pub language: String,
    pub backend: String,
    pub skip_cleanup: bool,
    /// The initial prompt that the request brings.
    pub prompt: Option<String>,
}

/// A [`Job`] with its texts.
#[verifier::ext_equal]
pub struct JobView {
    pub wav: Seq<u8>,
    pub language: Seq<char>,
    pub backend: Seq<char>,
    pub skip_cleanup: bool,
    pub prompt: Option<Seq<char>>,
}

impl View for Job {
    type V = JobView;

    open spec fn view(&self) -> JobView {
        JobView {
            wav: self.wav@,
            language: self.language@,
            backend: self.backend@,
            skip_cleanup: self.skip_cleanup,
            prompt: match self.prompt {
                Some(p) => Some(p@),
                None => None,
            },
        }
    }
}

/// A request that is not served: the status, and why.
#[derive(Debug)]
pub struct Refusal {
    pub status: u16,
    pub message: String,
}

/// The text of the field `name`, if the form has one.
pub open spec fn field_text(form: Seq<FieldView>, name: Seq<char>) -> Option<Seq<char>> {
    match first_named(form, name) {
        Some(i) => Some(trimmed(utf8_lossy(form[i].data))),
        None => None,
    }
}

/// The text of the field `name`, or `otherwise` where it is missing or empty.
pub open spec fn field_or(form: Seq<FieldView>, name: Seq<char>, otherwise: Seq<char>) -> Seq<char> {
    match field_text(form, name) {
        Some(t) => if t.len() == 0 {
            otherwise
        } else {
            t
        },
        None => otherwise,
    }
}

/// What is said of `cleanup` to go without it.
pub open spec fn noes() -> Seq<Seq<char>> {
    seq!["false"@, "0"@, "raw"@, "none"@]
}

/// What a form asks for. It has to bring the recording in its field `file`.
pub open spec fn job_in(form: Seq<FieldView>, params: ServiceParams) -> Option<JobView> {
    match first_named(form, "file"@) {
        Some(i) => Some(
            JobView {
                wav: form[i].data,
                language: field_or(form, "language"@, params.language@),
                backend: field_or(form, "backend"@, params.backend@),
                skip_cleanup: match field_text(form, "cleanup"@) {
                    Some(t) => noes().contains(t),
                    None => params.skip_cleanup_default,
                },
                prompt: field_text(form, "prompt"@),
            },
        ),
        None => None,
    }
}

/// Whether `r` is a refusal with this status and reason.
pub open spec fn is_refusal(r: Result<Job, Refusal>, status: u16, message: Seq<char>) -> bool {
    r matches Err(e) && e.status == status && e.message@ == message
}

fn text_or(form: &Form, name: &str, otherwise: &String) -> (r: String)
    ensures
        r@ == field_or(form@, name@, otherwise@),
{
    match form.text(name) {
        Some(t) => if crate::text::char_count(t.as_str()) == 0 {
            owned(otherwise.as_str())
        } else {
            t
        },
        None => owned(otherwise.as_str()),
    }
}

/// Whether the text is one of those that say no.
fn is_no(t: &str) -> (r: bool)
    ensures
        r == noes().contains(t@),
{
    let list: Vec<&'static str> = vec!["false", "0", "raw", "none"];
    assert(texts(list@) =~= noes());
    let chars = chars_of(t);
    is_one_of(chars.as_slice(), list.as_slice())
}

/// What a request to `/inference` asks for, or why it is not served. `content_type` is empty where
/// the request names none; `body` is what it holds, or why it cannot be read.
pub fn inference_job(
    content_type: &str,
    body: Result<&[u8], &str>,
    params: &ServiceParams,
) -> (r: Result<Job, Refusal>)
    ensures
        match body {
            Err(why) => is_refusal(r, 400, "讀 request body 失敗: "@ + why@),
            Ok(bytes) => match boundary_in(content_type@) {
                None => is_refusal(r, 400, "需 multipart/form-data(帶 boundary)"@),
                Some(b) => match job_in(parts_of(bytes@, delimiter(b)), *params) {
                    None => is_refusal(r, 400, "缺 'file' part(WAV bytes)"@),
                    Some(job) => r matches Ok(j) && j@ == job,
                },
            },
        },
        r matches Err(e) ==> !is_success(e.status),
{
    let bytes = match body {
        Ok(b) => b,
        Err(why) => return Err(
            Refusal { status: 400, message: concat("讀 request body 失敗: ", why) },
        ),
    };
    let boundary = match multipart::boundary_of(content_type) {
        Some(b) => b,
        None => return Err(
            Refusal { status: 400, message: owned("需 multipart/form-data(帶 boundary)") },
        ),
    };
    let form = multipart::parse(boundary.as_str(), bytes);
    let wav = match form.file() {
        Some(b) => slice_to_vec(b),
        None => return Err(
            Refusal { status: 400, message: owned("缺 'file' part(WAV bytes)") },
        ),
    };
    let skip_cleanup = match form.text("cleanup") {
        Some(t) => is_no(t.as_str()),
        None => params.skip_cleanup_default,
    };
    let job = Job {
        wav,
        language: text_or(&form, "language", &params.language),
        backend: text_or(&form, "backend", &params.backend),
        skip_cleanup,
        prompt: form.text("prompt"),
    };
    Ok(job)
}

/// A recording that a client uploads is the one that is transcribed, byte for byte: where the form
/// that it wrote has a part named `file`, and that part is the first one so named.
pub proof fn law_uploaded_file_is_transcribed(
    parts: Seq<Part>,
    boundary: Seq<char>,
    epilogue: Seq<u8>,
    params: ServiceParams,
    i: int,
)
    requires
        forall|k: int|
            0 <= k < parts.len() ==> writable(#[trigger] parts[k], delimiter(boundary)),
        first_from(seq![45u8, 45u8] + epilogue, delimiter(boundary), 0) is None,
        first_named(fields_for(parts), "file"@) == Some(i),
    ensures
        job_in(
            parts_of(body_of(parts, delimiter(boundary), epilogue), delimiter(boundary)),
            params,
        ) matches Some(job) && job.wav == fields_for(parts)[i].data,
{
    multipart::law_written_form_is_read_back(parts, boundary, epilogue);
}

// ---------------------------------------------------------------------------------------------
// Replies
// ---------------------------------------------------------------------------------------------

/// A reply.
#[derive(Debug)]
pub struct Reply {
    pub status: u16,
    /// Whether the body is JSON; otherwise it is plain text.
    pub json: bool,
    pub body: String,
}

/// The reply to a request for the state of the service.
pub fn health() -> (r: Reply)
    ensures
        r.status == 200 && !r.json && r.body@ == "mori-ear ok"@,
{
    Reply { status: 200, json: false, body: owned("mori-ear ok") }
}

/// The reply to a request for anything else.
pub fn not_found() -> (r: Reply)
    ensures
        r.status == 404 && !r.json && r.body@ == "not found"@,
{
    Reply { status: 404, json: false, body: owned("not found") }
}

/// The reply to a request that is not served.
pub fn refused(refusal: Refusal) -> (r: Reply)
    ensures
        r.status == refusal.status && !r.json && r.body@ == refusal.message@,
{
    Reply { status: refusal.status, json: false, body: refusal.message }
}

/// Whether a document is an object with the text `text` and nothing else.
pub open spec fn holds_text(v: Value, text: Seq<char>) -> bool {
    &&& members(v) matches Some(m)
    &&& m.dom() == set!["text"@]
    &&& member_text(v, "text"@) == Some(text)
}

/// The reply to a request for a transcript: the transcript as JSON, or why there is none. The
/// document that is read in the body has the transcript as its text and nothing else, which is what
/// [`crate::stt::read_local_reply`] takes.
pub fn transcribed(outcome: Result<String, String>) -> (r: Reply)
    ensures
        match outcome {
            Ok(text) => r.status == 200 && r.json && exists|v: Value| #[trigger]
                holds_text(v, text@) && r.body@ == compact(v) && holds(encode_utf8(r.body@), v),
            Err(why) => r.status == 500 && !r.json && r.body@ == "轉譯失敗: "@ + why@,
        },
        is_success(r.status) <==> outcome is Ok,
        outcome matches Ok(text) ==> (document(encode_utf8(r.body@)) matches Some(w) && holds_text(
            w,
            text@,
        )),
        outcome is Ok ==> forall|shown: Seq<char>| #[trigger]
            local_transcript(r.status, shown, Some(outcome->Ok_0@)) == Ok::<Seq<char>, Seq<char>>(
                trimmed(outcome->Ok_0@),
            ),
{
    match outcome {
        Ok(text) => {
            let mut v = json::empty_object();
            json::put_text(&mut v, "text", text.as_str());
            proof {
                assert(members(v)->0.dom() =~= set!["text"@]);
                assert(holds_text(v, text@));
            }
            let body = json::write_compact(&v);
            proof {
                let w = document(encode_utf8(body@))->0;
                json::lemma_members_alike(v, w, "text"@);
            }
            Reply { status: 200, json: true, body }
        },
        Err(why) => Reply { status: 500, json: false, body: concat("轉譯失敗: ", why.as_str()) },
    }
}

// ---------------------------------------------------------------------------------------------
// The discovery file
// ---------------------------------------------------------------------------------------------

/// Whether a discovery file says where the service is and since when.
pub open spec fn describes(v: Value, port: u16, pid: u32, started_at: Seq<char>) -> bool {
    &&& members(v) matches Some(m)
    &&& m.dom() == set![
        "contract_version"@,
        "host"@,
        "port"@,
        "model"@,
        "pid"@,
        "started_at"@,
        "inference_path"@,
    ]
    &&& member_number(v, "contract_version"@) == Some(1u64)
    &&& member_text(v, "host"@) == Some("127.0.0.1"@)
    &&& member_number(v, "port"@) == Some(port as u64)
    &&& member_text(v, "model"@) == Some("mori-ear/auto"@)
    &&& member_number(v, "pid"@) == Some(pid as u64)
    &&& member_text(v, "started_at"@) == Some(started_at)
    &&& member_text(v, "inference_path"@) == Some("/inference"@)
}

proof fn lemma_keys_differ()
    ensures
        "contract_version"@.len() == 16,
        "host"@.len() == 4,
        "port"@.len() == 4,
        "model"@.len() == 5,
        "pid"@.len() == 3,
        "started_at"@.len() == 10,
        "inference_path"@.len() == 14,
        "host"@ != "port"@,
{
    reveal_strlit("contract_version");
    reveal_strlit("host");
    reveal_strlit("port");
    reveal_strlit("model");
    reveal_strlit("pid");
    reveal_strlit("started_at");
    reveal_strlit("inference_path");
    assert("host"@[0] != "port"@[0]);
}

/// The discovery file of the service at `port`, of the process `pid`.
pub fn descriptor(port: u16, pid: u32, started_at: &str) -> (r: Vec<u8>)
    ensures
        exists|v: Value| #[trigger]
            describes(v, port, pid, started_at@) && r@ == pretty(v) && holds(r@, v),
        address_in(r@) == if port == 0 {
            None
        } else {
            Some(address_of("127.0.0.1"@, port as u64))
        },
{
    let mut v = json::empty_object();
    proof {
        lemma_keys_differ();
    }
    json::put_number(&mut v, "contract_version", 1);
    json::put_text(&mut v, "host", "127.0.0.1");
    json::put_number(&mut v, "port", port as u64);
    json::put_text(&mut v, "model", "mori-ear/auto");
    json::put_number(&mut v, "pid", pid as u64);
    json::put_text(&mut v, "started_at", started_at);
    json::put_text(&mut v, "inference_path", "/inference");
    proof {
        assert(members(v)->0.dom() =~= set![
            "contract_version"@,
            "host"@,
            "port"@,
            "model"@,
            "pid"@,
            "started_at"@,
            "inference_path"@,
        ]);
        assert(describes(v, port, pid, started_at@));
    }
    match json::write_pretty(&v) {
        Ok(bytes) => {
            proof {
                let w = document(bytes@)->0;
                json::lemma_members_alike(v, w, "host"@);
                json::lemma_members_alike(v, w, "port"@);
            }
            assert(describes(v, port, pid, started_at@) && bytes@ == pretty(v));
            bytes
        },
        Err(_) => Vec::new(),
    }
}

/// Where the service listens: on this machine only, at `port`, or at any port where that is 0.
pub fn bind_address(port: u16) -> (r: String)
    ensures
        r@ == "127.0.0.1:"@ + decimal(port as nat),
{
    concat("127.0.0.1:", to_decimal(port as u64).as_str())
}

/// The address of a service.
pub open spec fn address_of(host: Seq<char>, port: u64) -> Seq<char> {
    "http://"@ + host + ":"@ + decimal(port as nat) + "/"@
}

/// The address in a discovery file, if it is one of a service on this machine.
pub open spec fn address_in(file: Seq<u8>) -> Option<Seq<char>> {
    match document(file) {
        Some(v) => match (member_text(v, "host"@), member_number(v, "port"@)) {
            (Some(host), Some(port)) => if is_loopback_host(host) && port != 0 {
                Some(address_of(host, port))
            } else {
                None
            },
            _ => None,
        },
        None => None,
    }
}

/// Where to ask whether the service of a discovery file is up.
pub fn existing_service(file: &[u8]) -> (r: Option<String>)
    ensures
        match address_in(file@) {
            Some(a) => r matches Some(s) && s@ == a,
            None => r is None,
        },
{
    let v = match json::read(file) {
        Some(v) => v,
        None => return None,
    };
    let host = match json::member_str(&v, "host") {
        Some(h) => h,
        None => return None,
    };
    let port: u64 = match json::get(&v, "port") {
        Some(w) => match json::as_number(w) {
            Some(n) => n,
            None => return None,
        },
        None => return None,
    };
    if !(same(host, "127.0.0.1") || same(host, "::1")) || port == 0 {
        return None;
    }
    let mut out = concat3("http://", host, ":");
    push_str(&mut out, to_decimal(port).as_str());
    push_str(&mut out, "/");
    Some(out)
}

// ---------------------------------------------------------------------------------------------
// What a request decides
// ---------------------------------------------------------------------------------------------

/// Whether field `i` of a form is the first one called `name`.
pub open spec fn is_first(form: Seq<FieldView>, name: Seq<char>, i: int) -> bool {
    &&& 0 <= i < form.len()
    &&& form[i].name == name
    &&& forall|k: int| 0 <= k < i ==> (#[trigger] form[k]).name != name
}

/// Whether no field of a form is called `name`.
pub open spec fn lacks(form: Seq<FieldView>, name: Seq<char>) -> bool {
    forall|k: int| 0 <= k < form.len() ==> (#[trigger] form[k]).name != name
}

/// What a field says: the text that it holds, without white space round it.
pub open spec fn said_in(field: FieldView) -> Seq<char> {
    trimmed(utf8_lossy(field.data))
}

proof fn lemma_first_is_found(form: Seq<FieldView>, name: Seq<char>, i: int)
    requires
        is_first(form, name, i) || lacks(form, name),
    ensures
        is_first(form, name, i) ==> first_named(form, name) == Some(i),
        lacks(form, name) ==> first_named(form, name) is None,
{
    law_first_of_a_name_wins(form, name);
}

/// A field that a request brings decides alone, and what it does not bring is as the service has it.
/// The recording is that of the first field `file`. A first field `cleanup` decides whether the
/// transcript is cleaned up, whatever the service does otherwise: only `false`, `0`, `raw` and
/// `none` leave it as it is. A language or a backend that is not empty is the one that is used. The
/// prompt is the request's alone.
pub proof fn law_request_decides(
    content_type: &str,
    bytes: &[u8],
    params: &ServiceParams,
    form: Seq<FieldView>,
    job: Job,
    i: int,
)
    requires
        boundary_in(content_type@) matches Some(b) && form == parts_of(bytes@, delimiter(b)),
        call_ensures(
            inference_job,
            (content_type, Ok::<&[u8], &str>(bytes), params),
            Ok::<Job, Refusal>(job),
        ),
    ensures
        is_first(form, "file"@, i) ==> job.wav@ == form[i].data,
        !lacks(form, "file"@),
        is_first(form, "cleanup"@, i) ==> (job.skip_cleanup <==> (said_in(form[i]) == "false"@
            || said_in(form[i]) == "0"@ || said_in(form[i]) == "raw"@ || said_in(form[i])
            == "none"@)),
        lacks(form, "cleanup"@) ==> job.skip_cleanup == params.skip_cleanup_default,
        is_first(form, "language"@, i) && said_in(form[i]).len() > 0 ==> job.language@ == said_in(
            form[i],
        ),
        lacks(form, "language"@) || (is_first(form, "language"@, i) && said_in(form[i]).len() == 0)
            ==> job.language@ == params.language@,
        is_first(form, "backend"@, i) && said_in(form[i]).len() > 0 ==> job.backend@ == said_in(
            form[i],
        ),
        lacks(form, "backend"@) || (is_first(form, "backend"@, i) && said_in(form[i]).len() == 0)
            ==> job.backend@ == params.backend@,
        is_first(form, "prompt"@, i) ==> (job.prompt matches Some(p) && p@ == said_in(form[i])),
        lacks(form, "prompt"@) ==> job.prompt is None,
{
    law_first_of_a_name_wins(form, "file"@);
    if is_first(form, "file"@, i) {
        lemma_first_is_found(form, "file"@, i);
    }
    if is_first(form, "cleanup"@, i) || lacks(form, "cleanup"@) {
        lemma_first_is_found(form, "cleanup"@, i);
    }
    if is_first(form, "language"@, i) || lacks(form, "language"@) {
        lemma_first_is_found(form, "language"@, i);
    }
    if is_first(form, "backend"@, i) || lacks(form, "backend"@) {
        lemma_first_is_found(form, "backend"@, i);
    }
    if is_first(form, "prompt"@, i) || lacks(form, "prompt"@) {
        lemma_first_is_found(form, "prompt"@, i);
    }
    if is_first(form, "cleanup"@, i) {
        let t = said_in(form[i]);
        let n = noes();
        assert(n[0] == "false"@ && n[1] == "0"@ && n[2] == "raw"@ && n[3] == "none"@);
        assert(n.contains(t) <==> t == "false"@ || t == "0"@ || t == "raw"@ || t == "none"@);
    }
}

/// Two services that differ only in whether transcripts are cleaned up by default make the same job
/// of a request that says what it wants, and jobs that differ in nothing else of one that does not.
pub proof fn law_default_counts_only_where_nothing_is_said(
    content_type: &str,
    bytes: &[u8],
    a: &ServiceParams,
    b: &ServiceParams,
    form: Seq<FieldView>,
    r: Result<Job, Refusal>,
    s: Result<Job, Refusal>,
)
    requires
        boundary_in(content_type@) matches Some(x) && form == parts_of(bytes@, delimiter(x)),
        a.language@ == b.language@,
        a.backend@ == b.backend@,
        call_ensures(inference_job, (content_type, Ok::<&[u8], &str>(bytes), a), r),
        call_ensures(inference_job, (content_type, Ok::<&[u8], &str>(bytes), b), s),
    ensures
        r is Ok <==> s is Ok,
        r is Ok <==> !lacks(form, "file"@),
        r matches Err(e) ==> e.status == 400 && (s matches Err(f) && e.message@ == f.message@),
        r is Ok ==> ({
            let (j, k) = (r->Ok_0@, s->Ok_0@);
            &&& j.wav == k.wav && j.language == k.language && j.backend == k.backend && j.prompt
                == k.prompt
            &&& !lacks(form, "cleanup"@) ==> j.skip_cleanup == k.skip_cleanup
            &&& lacks(form, "cleanup"@) ==> j.skip_cleanup == a.skip_cleanup_default
                && k.skip_cleanup == b.skip_cleanup_default
        }),
{
    law_first_of_a_name_wins(form, "file"@);
    law_first_of_a_name_wins(form, "cleanup"@);
}

/// What stands before a mark that it does not hold is the first of the pieces.
proof fn lemma_first_piece(s: Seq<char>, mark: Seq<char>, rest: Seq<char>)
    requires
        mark.len() == 1,
        forall|i: int| 0 <= i < s.len() ==> (#[trigger] s[i]) != mark[0],
    ensures
        pieces(s + mark + rest, mark)[0] == s,
        pieces(s, mark)[0] == s,
{
    let all = s + mark + rest;
    let n = s.len() as int;
    assert(all.subrange(n, n + 1) =~= mark);
    assert forall|k: int| 0 <= k < n implies !occurs_at(all, mark, k) by {
        assert(all.subrange(k, k + 1)[0] == s[k]);
    }
    lemma_first_from_is(all, mark, 0, n);
    assert(all.take(n) =~= s);
    lemma_first_from(s, mark, 0);
    if first_from(s, mark, 0) is Some {
        let p = first_from(s, mark, 0)->0;
        assert(s.subrange(p, p + 1)[0] == s[p]);
    }
}

/// A query makes no difference to what a request is for. Without one, the state of the service is at
/// `/` and `/health`, and recordings are posted to `/inference`; there is nothing else.
pub proof fn law_query_makes_no_difference(
    method: &str,
    path: &str,
    url: &str,
    query: Seq<char>,
    r: Route,
    s: Route,
)
    requires
        forall|i: int| 0 <= i < path@.len() ==> (#[trigger] path@[i]) != '?',
        url@ == path@ + "?"@ + query,
        call_ensures(route, (method, path), r),
        call_ensures(route, (method, url), s),
    ensures
        r == s,
        r == Route::Health <==> method@ == "GET"@ && (path@ == "/"@ || path@ == "/health"@),
        r == Route::Inference <==> method@ == "POST"@ && path@ == "/inference"@,
{
    reveal_strlit("?");
    lemma_first_piece(path@, "?"@, query);
    reveal_strlit("GET");
    reveal_strlit("POST");
    assert("GET"@.len() != "POST"@.len());
}

/// A service is looked for on this machine only, whatever a discovery file says.
pub proof fn law_no_other_machine_is_asked(file: &[u8], r: String)
    requires
        call_ensures(existing_service, (file,), Some(r)),
    ensures
        starts_with(r@, "http://127.0.0.1:"@) || starts_with(r@, "http://::1:"@),
{
    reveal_strlit("http://127.0.0.1:");
    reveal_strlit("http://::1:");
    reveal_strlit("http://");
    reveal_strlit("127.0.0.1");
    reveal_strlit("::1");
    reveal_strlit(":");
    let v = document(file@)->0;
    let host = member_text(v, "host"@)->0;
    if host == "127.0.0.1"@ {
        assert(r@.take(17) =~= "http://127.0.0.1:"@);
    } else {
        assert(r@.take(11) =~= "http://::1:"@);
    }
}

/// The service is reached from this machine only: it listens at 127.0.0.1, and at the port that it
/// is told.
pub proof fn law_service_stays_on_this_machine(port: u16, r: String)
    requires
        call_ensures(bind_address, (port,), r),
    ensures
        starts_with(r@, "127.0.0.1:"@),
        r@.skip("127.0.0.1:"@.len() as int) == decimal(port as nat),
{
    assert(r@.take("127.0.0.1:"@.len() as int) =~= "127.0.0.1:"@);
    assert(r@.skip("127.0.0.1:"@.len() as int) =~= decimal(port as nat));
}

// ---------------------------------------------------------------------------------------------
// What is replied and found
// ---------------------------------------------------------------------------------------------

/// A reply is good exactly where there is something to say: the state of the service and a
/// transcript are, what is refused, not found or failed is not. Only a transcript is JSON.
pub proof fn law_only_good_replies_are_called_good(
    up: Reply,
    missing: Reply,
    refusal: Refusal,
    no: Reply,
    outcome: Result<String, String>,
    done: Reply,
)
    requires
        call_ensures(health, (), up),
        call_ensures(not_found, (), missing),
        call_ensures(refused, (refusal,), no),
        call_ensures(transcribed, (outcome,), done),
    ensures
        up.status / 100 == 2 && !up.json,
        missing.status == 404 && !missing.json,
        no.status == refusal.status && no.body@ == refusal.message@ && !no.json,
        done.status / 100 == 2 <==> outcome is Ok,
        done.status / 100 == 5 <==> outcome is Err,
        done.json <==> outcome is Ok,
        outcome matches Err(why) ==> ends_with(done.body@, why@),
{
    if outcome is Err {
        let why = outcome->Err_0@;
        assert(done.body@.skip(done.body@.len() - why.len()) =~= why);
    }
}

/// What cannot be read is refused as a bad request, and why is said.
pub proof fn law_unreadable_requests_are_refused(
    content_type: &str,
    body: Result<&[u8], &str>,
    params: &ServiceParams,
    r: Result<Job, Refusal>,
)
    requires
        call_ensures(inference_job, (content_type, body, params), r),
    ensures
        body is Err ==> r is Err,
        boundary_in(content_type@) is None ==> r is Err,
        r matches Err(e) ==> e.status == 400,
        body matches Err(why) ==> (r matches Err(e) && ends_with(e.message@, why@)),
{
    if body is Err {
        let why = body->Err_0@;
        let m = r->Err_0.message@;
        assert(m.skip(m.len() - why.len()) =~= why);
    }
}

/// The discovery file of a service says where it is, of which process and since when, in a document
/// that any reader finds there; the path that it names is the one to which recordings are posted.
pub proof fn law_service_is_found_by_its_file(
    port: u16,
    pid: u32,
    started_at: &str,
    r: Vec<u8>,
    path: &str,
    served: Route,
)
    requires
        call_ensures(descriptor, (port, pid, started_at), r),
        call_ensures(route, ("POST", path), served),
    ensures
        document(r@) matches Some(w) && {
            &&& member_text(w, "host"@) == Some("127.0.0.1"@)
            &&& member_number(w, "port"@) == Some(port as u64)
            &&& member_number(w, "pid"@) == Some(pid as u64)
            &&& member_text(w, "started_at"@) == Some(started_at@)
            &&& member_number(w, "contract_version"@) == Some(1u64)
            &&& member_text(w, "model"@) == Some("mori-ear/auto"@)
            &&& member_text(w, "inference_path"@) == Some(path@) ==> served == Route::Inference
        },
{
    let v = choose|v: Value| #[trigger]
        describes(v, port, pid, started_at@) && r@ == pretty(v) && holds(r@, v);
    let w = document(r@)->0;
    json::lemma_members_alike(v, w, "host"@);
    json::lemma_members_alike(v, w, "port"@);
    json::lemma_members_alike(v, w, "pid"@);
    json::lemma_members_alike(v, w, "started_at"@);
    json::lemma_members_alike(v, w, "contract_version"@);
    json::lemma_members_alike(v, w, "model"@);
    json::lemma_members_alike(v, w, "inference_path"@);
    if path@ == "/inference"@ {
        reveal_strlit("?");
        reveal_strlit("/inference");
        reveal_strlit("GET");
        reveal_strlit("POST");
        assert("GET"@.len() != "POST"@.len());
        lemma_first_piece(path@, "?"@, seq![]);
    }
}

} // verus!
