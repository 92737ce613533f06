//! Cleaning up a raw transcript with a language model: what is asked, and what the reply says.
//!
//! Where it fails, the raw transcript is used.
use crate::json::{self, quoted};
use crate::local_stt::is_success;
use crate::multipart::{lossy_text, utf8_lossy};
use crate::stt::says;
use crate::stt_prompt::{locate, location_of, Location};
use crate::text::{blank, concat3, is_blank, owned, push_str, trim_text, trimmed};
use vstd::prelude::*;

verus! {

/// Where the model is asked.
pub const URL: &'static str = "https://api.groq.com/openai/v1/chat/completions";

/// The model that is asked.
pub const MODEL: &'static str = "openai/gpt-oss-120b";

/// What the model is told unless the user has a prompt of their own.
pub const DEFAULT_SYSTEM_PROMPT: &'static str = "你是 mori 語音輸入助理。把 STT 輸出的純文字做最小幅度校正後輸出。

**第一條,最重要:輸出必須是 100% 繁體中文(台灣用語)**

- 不允許出現任何簡體字。所有簡體一律轉成對應繁體。
- 用台灣慣用詞,不要中國大陸用語(例:軟體不是軟件、影片不是視頻、滑鼠不是鼠標、印表機不是打印機、優化不是優化但若無對應就保留)。
- 即使 STT 輸出的是簡體,你的輸出也必須是繁體。

例:
  輸入:这个软件设计的复杂度
  輸出:這個軟體設計的複雜度

  輸入:后面再说
  輸出:後面再說

第二條,其他校正(在守住第一條的前提下):
- 修錯字(同音字、相近詞)
- 補標點(逗號、句號、問號)
- 切段(長文有自然停頓處換行)
- 保留原意,不改詞、不縮寫、不擴寫

只輸出處理後的繁中純文字,不要解釋、不要前言、不要 markdown code fence。";

/// The file that holds the user's prompt, if the configuration names one.
pub fn prompt_location(prompt_file: &str, has_home: bool) -> (r: Option<Location>)
    ensures
        match r {
            Some(l) => !is_blank(prompt_file@) && l@ == location_of(prompt_file@, has_home),
            None => is_blank(prompt_file@),
        },
{
    if blank(prompt_file) {
        None
    } else {
        Some(locate(prompt_file, has_home))
    }
}

/// The prompt: the contents of the user's file, if there is one that holds anything.
pub open spec fn system_prompt(prompt_file: Seq<char>, contents: Option<Seq<char>>) -> Seq<char> {
    match contents {
        Some(c) => if is_blank(prompt_file) || is_blank(c) {
            DEFAULT_SYSTEM_PROMPT@
        } else {
            c
        },
        None => DEFAULT_SYSTEM_PROMPT@,
    }
}

/// What the model is told. `contents` is what the file at [`prompt_location`] holds, if it can be
/// read.
pub fn resolve_system_prompt(prompt_file: &str, contents: Option<&str>) -> (r: String)
    ensures
        r@ == system_prompt(prompt_file@, crate::stt::opt(contents)),
{
    match contents {
        Some(c) => if blank(prompt_file) || blank(c) {
            owned(DEFAULT_SYSTEM_PROMPT)
        } else {
            owned(c)
        },
        None => owned(DEFAULT_SYSTEM_PROMPT),
    }
}

/// The body of a request: the prompt and the transcript, as JSON.
pub open spec fn chat_body_of(prompt: Seq<char>, raw: Seq<char>) -> Seq<char> {
    "{\"model\":"@ + quoted(MODEL@) + ",\"messages\":[{\"role\":\"system\",\"content\":"@ + quoted(
        prompt,
    ) + "},{\"role\":\"user\",\"content\":"@ + quoted(raw) + "}],\"temperature\":0.0}"@
}

fn push_quoted(out: &mut String, s: &str)
    ensures
        final(out)@ == old(out)@ + quoted(s@),
{
    match json::quote(s) {
        Ok(q) => push_str(out, q.as_str()),
        Err(_) => {},
    }
}

/// The body of the request to clean up `raw`.
pub fn chat_body(prompt: &str, raw: &str) -> (r: String)
    ensures
        r@ == chat_body_of(prompt@, raw@),
{
    let mut out = owned("{\"model\":");
    push_quoted(&mut out, MODEL);
    push_str(&mut out, ",\"messages\":[{\"role\":\"system\",\"content\":");
    push_quoted(&mut out, prompt);
    push_str(&mut out, "},{\"role\":\"user\",\"content\":");
    push_quoted(&mut out, raw);
    push_str(&mut out, "}],\"temperature\":0.0}");
    out
}

/// What the model says in one of its choices.
#[derive(Debug)]
pub struct MessageOut {
    pub content: String,
}

/// One of the choices in a reply.
#[derive(Debug)]
pub struct Choice {
    pub message: MessageOut,
}

/// What the model replies.
#[derive(Debug)]
pub struct ChatResponse {
    pub choices: Vec<Choice>,
}

impl View for ChatResponse {
    type V = Seq<Seq<char>>;

    /// The texts of the choices.
    open spec fn view(&self) -> Seq<Seq<char>> {
        self.choices@.map_values(|c: Choice| c.message.content@)
    }
}

/// The cleaned-up transcript in a reply, or why there is none. `shown` is the status in words, and
/// `parsed` the texts of the choices in the body, where the body is a reply.
pub open spec fn cleaned(
    status: u16,
    shown: Seq<char>,
    body: Seq<u8>,
    parsed: Option<Seq<Seq<char>>>,
) -> Result<Seq<char>, Seq<char>> {
    if !is_success(status) {
        Err("groq chat HTTP "@ + shown + ": "@ + utf8_lossy(body))
    } else {
        match parsed {
            None => Err("parse groq chat response"@),
            Some(list) => if list.len() == 0 || is_blank(list[0]) {
                Err("groq chat returned empty content"@)
            } else {
                Ok(trimmed(list[0]))
            },
        }
    }
}

/// Reads the reply: `body` as it came, and what it says where it is one.
pub fn cleanup(status: u16, shown: &str, body: &[u8], parsed: Option<ChatResponse>) -> (r: Result<
    String,
    String,
>)
    ensures
        says(
            r,
            cleaned(
                status,
                shown@,
                body@,
                match parsed {
                    Some(p) => Some(p@),
                    None => None,
                },
            ),
        ),
        r matches Ok(t) ==> !is_blank(t@),
{
    if !(200 <= status && status < 300) {
        let mut m = concat3("groq chat HTTP ", shown, ": ");
        push_str(&mut m, lossy_text(body).as_str());
        return Err(m);
    }
    let reply = match parsed {
        Some(p) => p,
        None => return Err(owned("parse groq chat response")),
    };
    if reply.choices.len() == 0 {
        return Err(owned("groq chat returned empty content"));
    }
    let t: &str = reply.choices[0].message.content.as_str();
    assert(t@ == reply@[0]);
    proof {
        crate::text::lemma_blank_iff_trimmed_empty(t@);
        crate::text::lemma_trimmed_start_shape(t@);
        crate::text::lemma_trimmed_end_shape(crate::text::trimmed_start(t@));
    }
    if blank(t) {
        return Err(owned("groq chat returned empty content"));
    }
    let clean = trim_text(t);
    assert(!crate::text::is_space(clean@.last()));
    Ok(clean)
}

/// What the user has written for the model is what it is told; only where there is nothing of it,
/// the prompt of this program is.
pub proof fn law_own_prompt_is_used(prompt_file: &str, contents: Option<&str>, r: String)
    requires
        call_ensures(resolve_system_prompt, (prompt_file, contents), r),
    ensures
        contents matches Some(c) ==> !is_blank(prompt_file@) && !is_blank(c@) ==> r@ == c@,
        contents is None || is_blank(prompt_file@) || is_blank(contents->0@) ==> r@
            == DEFAULT_SYSTEM_PROMPT@,
{
}

/// The model's first choice counts, without the white space round it; a reply that is not good, that
/// cannot be read or that says nothing is an error.
pub proof fn law_first_choice_counts(
    status: u16,
    shown: &str,
    body: &[u8],
    parsed: Option<ChatResponse>,
    r: Result<String, String>,
)
    requires
        call_ensures(cleanup, (status, shown, body, parsed), r),
    ensures
        r is Ok <==> status / 100 == 2 && parsed is Some && parsed->0.choices@.len() > 0
            && !is_blank(parsed->0.choices@[0].message.content@),
        r matches Ok(t) ==> t@ == trimmed(parsed->0.choices@[0].message.content@),
{
    if parsed is Some && parsed->0.choices@.len() > 0 {
        assert(parsed->0@[0] == parsed->0.choices@[0].message.content@);
    }
}

/// The model is told the prompt as the system's and the transcript as the user's, in that order, and
/// each only there.
pub proof fn law_prompt_and_transcript_are_kept_apart(prompt: &str, raw: &str, r: String)
    requires
        call_ensures(chat_body, (prompt, raw), r),
    ensures
        exists|a: Seq<char>, b: Seq<char>, c: Seq<char>|
            r@ == #[trigger] (a + quoted(prompt@) + b + quoted(raw@) + c) && crate::text::ends_with(
                a,
                "{\"role\":\"system\",\"content\":"@,
            ) && b == "},{\"role\":\"user\",\"content\":"@ && c == "}],\"temperature\":0.0}"@,
{
    let system = ",\"messages\":[{\"role\":\"system\",\"content\":"@;
    let a = "{\"model\":"@ + quoted(MODEL@) + system;
    let b = "},{\"role\":\"user\",\"content\":"@;
    let c = "}],\"temperature\":0.0}"@;
    let tail = "{\"role\":\"system\",\"content\":"@;
    reveal_strlit(",\"messages\":[{\"role\":\"system\",\"content\":");
    reveal_strlit("{\"role\":\"system\",\"content\":");
    assert(a.skip(a.len() - tail.len()) =~= tail);
    assert(r@ == a + quoted(prompt@) + b + quoted(raw@) + c);
}

/// The file of the user's prompt is the one that the configuration names, and there is none where it
/// names none.
pub proof fn law_prompt_file_is_the_one_named(
    prompt_file: &str,
    has_home: bool,
    r: Option<Location>,
    l: Location,
)
    requires
        call_ensures(prompt_location, (prompt_file, has_home), r),
        call_ensures(locate, (prompt_file, has_home), l),
    ensures
        r is None <==> is_blank(prompt_file@),
        r matches Some(x) ==> x@ == l@,
{
}

} // verus!
