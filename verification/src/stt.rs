//! Speech to text: what is asked of a server, and what its reply says.
use crate::local_stt::is_success;
use crate::multipart::{lossy_text, utf8_lossy};
use crate::text::{concat, concat3, owned, push_str, trim_text, trimmed};
use vstd::prelude::*;

verus! {

/// Where Groq takes recordings.
pub const URL: &'static str = "https://api.groq.com/openai/v1/audio/transcriptions";

/// The model that Groq is asked for.
pub const MODEL: &'static str = "whisper-large-v3-turbo";

/// A text field of the form that is sent beside the recording.
#[derive(Debug)]
pub struct FormField {
    pub name: &'static str,
    pub value: String,
}

impl View for FormField {
    type V = (Seq<char>, Seq<char>);

    open spec fn view(&self) -> (Seq<char>, Seq<char>) {
        (self.name@, self.value@)
    }
}

/// The names and values of fields.
pub open spec fn pairs(fields: Seq<FormField>) -> Seq<(Seq<char>, Seq<char>)> {
    fields.map_values(|f: FormField| f@)
}

/// The field `prompt`, where there is an initial prompt.
pub open spec fn prompt_pairs(prompt: Option<Seq<char>>) -> Seq<(Seq<char>, Seq<char>)> {
    match prompt {
        Some(p) => seq![("prompt"@, p)],
        None => seq![],
    }
}

/// The text of an optional string.
pub open spec fn opt(s: Option<&str>) -> Option<Seq<char>> {
    match s {
        Some(t) => Some(t@),
        None => None,
    }
}

/// The fields that Groq is sent: the model, the language unless it is to be detected, and the
/// initial prompt.
pub open spec fn groq_pairs(language: Seq<char>, prompt: Option<Seq<char>>) -> Seq<
    (Seq<char>, Seq<char>),
> {
    seq![("model"@, MODEL@)] + (if language.len() == 0 {
        seq![]
    } else {
        seq![("language"@, language)]
    }) + prompt_pairs(prompt)
}

/// The fields that a server on this machine is sent. It takes a missing language for English, so
/// one that is to be detected is written out.
pub open spec fn local_pairs(language: Seq<char>, prompt: Option<Seq<char>>) -> Seq<
    (Seq<char>, Seq<char>),
> {
    seq![
        (
            "language"@,
            if language.len() == 0 {
                "auto"@
            } else {
                language
            },
        ),
    ] + prompt_pairs(prompt)
}

fn push_field(fields: &mut Vec<FormField>, name: &'static str, value: &str)
    ensures
        pairs(final(fields)@) == pairs(old(fields)@).push((name@, value@)),
{
    let ghost before = fields@;
    fields.push(FormField { name, value: owned(value) });
    assert(pairs(fields@) =~= pairs(before).push((name@, value@)));
}

/// Whether the text is empty.
fn is_empty(s: &str) -> (r: bool)
    ensures
        r == (s@.len() == 0),
{
    crate::text::char_count(s) == 0
}

/// The fields of a request to Groq.
pub fn groq_fields(language: &str, prompt: Option<&str>) -> (r: Vec<FormField>)
    ensures
        pairs(r@) == groq_pairs(language@, opt(prompt)),
{
    let mut out: Vec<FormField> = Vec::new();
    push_field(&mut out, "model", MODEL);
    if !is_empty(language) {
        push_field(&mut out, "language", language);
    }
    if let Some(p) = prompt {
        push_field(&mut out, "prompt", p);
    }
    assert(pairs(out@) =~= groq_pairs(language@, opt(prompt)));
    out
}

/// The fields of a request to a server on this machine.
pub fn local_fields(language: &str, prompt: Option<&str>) -> (r: Vec<FormField>)
    ensures
        pairs(r@) == local_pairs(language@, opt(prompt)),
{
    let mut out: Vec<FormField> = Vec::new();
    push_field(
        &mut out,
        "language",
        if is_empty(language) {
            "auto"
        } else {
            language
        },
    );
    if let Some(p) = prompt {
        push_field(&mut out, "prompt", p);
    }
    assert(pairs(out@) =~= local_pairs(language@, opt(prompt)));
    out
}

/// What Groq replies.
#[derive(Debug)]
pub struct Response {
    pub text: String,
}

/// What a server on this machine replies. A reply without text has an empty one.
#[derive(Debug)]
pub struct InferenceResponse {
    pub text: String,
}

/// The transcript in Groq's reply, or why there is none. `shown` is the status in words, and
/// `parsed` the text in the body, where the body is a reply.
pub open spec fn groq_transcript(
    status: u16,
    shown: Seq<char>,
    body: Seq<u8>,
    parsed: Option<Seq<char>>,
) -> Result<Seq<char>, Seq<char>> {
    if !is_success(status) {
        Err("groq HTTP "@ + shown + ": "@ + utf8_lossy(body))
    } else {
        match parsed {
            Some(t) => Ok(trimmed(t)),
            None => Err("parse groq response"@),
        }
    }
}

/// The transcript in the reply of a server on this machine, or why there is none. `parsed` is the
/// text in the body, where the body is a reply.
pub open spec fn local_transcript(
    status: u16,
    shown: Seq<char>,
    parsed: Option<Seq<char>>,
) -> Result<Seq<char>, Seq<char>> {
    if !is_success(status) {
        Err("local whisper-server HTTP "@ + shown)
    } else {
        match parsed {
            Some(t) => Ok(trimmed(t)),
            None => Err("parse local whisper-server response"@),
        }
    }
}

/// Whether `r` is the outcome `want`.
pub open spec fn says(r: Result<String, String>, want: Result<Seq<char>, Seq<char>>) -> bool {
    match want {
        Ok(t) => r matches Ok(s) && s@ == t,
        Err(e) => r matches Err(s) && s@ == e,
    }
}

/// Reads Groq's reply: `body` as it came, and what it says where it is one.
pub fn read_groq_reply(status: u16, shown: &str, body: &[u8], parsed: Option<Response>) -> (r: Result<
    String,
    String,
>)
    ensures
        says(
            r,
            groq_transcript(
                status,
                shown@,
                body@,
                match parsed {
                    Some(p) => Some(p.text@),
                    None => None,
                },
            ),
        ),
{
    if !(200 <= status && status < 300) {
        let mut m = concat3("groq HTTP ", shown, ": ");
        push_str(&mut m, lossy_text(body).as_str());
        return Err(m);
    }
    match parsed {
        Some(p) => Ok(trim_text(p.text.as_str())),
        None => Err(owned("parse groq response")),
    }
}

/// Reads the reply of a server on this machine.
pub fn read_local_reply(status: u16, shown: &str, parsed: Option<InferenceResponse>) -> (r: Result<
    String,
    String,
>)
    ensures
        says(
            r,
            local_transcript(
                status,
                shown@,
                match parsed {
                    Some(p) => Some(p.text@),
                    None => None,
                },
            ),
        ),
{
    if !(200 <= status && status < 300) {
        return Err(concat("local whisper-server HTTP ", shown));
    }
    match parsed {
        Some(p) => Ok(trim_text(p.text.as_str())),
        None => Err(owned("parse local whisper-server response")),
    }
}

// ---------------------------------------------------------------------------------------------
// What is asked and what is read
// ---------------------------------------------------------------------------------------------

/// Groq is told the language, unless it is to be detected, and the initial prompt as it is, if there
/// is one; and always the model.
pub proof fn law_groq_is_told(language: &str, prompt: Option<&str>, r: Vec<FormField>)
    requires
        call_ensures(groq_fields, (language, prompt), r),
    ensures
        pairs(r@).contains(("model"@, MODEL@)),
        pairs(r@).len() == 1 + (if language@.len() > 0 {
            1int
        } else {
            0
        }) + (if prompt is Some {
            1int
        } else {
            0
        }),
        language@.len() > 0 ==> pairs(r@).contains(("language"@, language@)),
        language@.len() == 0 ==> forall|i: int|
            0 <= i < pairs(r@).len() ==> (#[trigger] pairs(r@)[i]).0 != "language"@,
        prompt matches Some(p) ==> pairs(r@).contains(("prompt"@, p@)),
        prompt is None ==> forall|i: int|
            0 <= i < pairs(r@).len() ==> (#[trigger] pairs(r@)[i]).0 != "prompt"@,
{
    reveal_strlit("model");
    reveal_strlit("language");
    reveal_strlit("prompt");
    assert("model"@.len() == 5 && "language"@.len() == 8 && "prompt"@.len() == 6);
    let all = groq_pairs(language@, opt(prompt));
    assert(all[0] == ("model"@, MODEL@));
    if language@.len() > 0 {
        assert(all[1] == ("language"@, language@));
    }
    if prompt is Some {
        assert(all.last() == ("prompt"@, prompt->0@));
    }
}

/// A server on this machine is told the language too; one that is to be detected is called `auto`,
/// never left out.
pub proof fn law_local_server_is_told(language: &str, prompt: Option<&str>, r: Vec<FormField>)
    requires
        call_ensures(local_fields, (language, prompt), r),
    ensures
        pairs(r@).len() == if prompt is Some {
            2int
        } else {
            1
        },
        language@.len() > 0 ==> pairs(r@).contains(("language"@, language@)),
        language@.len() == 0 ==> pairs(r@).contains(("language"@, "auto"@)),
        prompt matches Some(p) ==> pairs(r@).contains(("prompt"@, p@)),
        prompt is None ==> forall|i: int|
            0 <= i < pairs(r@).len() ==> (#[trigger] pairs(r@)[i]).0 != "prompt"@,
{
    reveal_strlit("language");
    reveal_strlit("prompt");
    assert("language"@.len() == 8 && "prompt"@.len() == 6);
    let all = local_pairs(language@, opt(prompt));
    assert(all[0] == (
        "language"@,
        if language@.len() == 0 {
            "auto"@
        } else {
            language@
        },
    ));
    if prompt is Some {
        assert(all.last() == ("prompt"@, prompt->0@));
    }
}

/// Both recognisers are read alike: a reply that is good and can be read gives its text without the
/// white space round it, and everything else is an error.
pub proof fn law_replies_are_read_alike(
    status: u16,
    shown: &str,
    body: &[u8],
    groq: Option<Response>,
    local: Option<InferenceResponse>,
    r: Result<String, String>,
    s: Result<String, String>,
)
    requires
        call_ensures(read_groq_reply, (status, shown, body, groq), r),
        call_ensures(read_local_reply, (status, shown, local), s),
    ensures
        r is Ok <==> status / 100 == 2 && groq is Some,
        s is Ok <==> status / 100 == 2 && local is Some,
        r matches Ok(t) ==> t@ == trimmed(groq->0.text@),
        s matches Ok(t) ==> t@ == trimmed(local->0.text@),
{
}

} // verus!
