//! The preview window and the editor for long texts, which `yad` shows. Where it is missing there
//! are none, and nothing else changes.
use crate::multipart::{lossy_text, utf8_lossy};
use crate::text::{blank, is_blank, trim_text, trimmed};
use vstd::prelude::*;

verus! {

/// Whether `yad` can be used: the search for it ended with this exit code, if it ran.
pub fn available(search: Option<i32>) -> (r: bool)
    ensures
        r == (search == Some(0i32)),
{
    match search {
        Some(code) => code == 0,
        None => false,
    }
}

/// What the user decided in the editor.
#[derive(Debug, PartialEq, Eq)]
pub enum Verdict {
    /// To send this, the text in the editor at that time.
    Send(String),
    /// To send nothing.
    Discard,
}

/// The text that a verdict sends.
pub open spec fn sent(v: Verdict) -> Option<Seq<char>> {
    match v {
        Verdict::Send(t) => Some(t@),
        Verdict::Discard => None,
    }
}

/// The verdict by the editor's exit code and output. The first button has the code 0; every other
/// end of the editor discards, and so does an empty text.
pub fn verdict_from(code: Option<i32>, stdout: String) -> (r: Verdict)
    ensures
        sent(r) == if code == Some(0i32) && !is_blank(stdout@) {
            Some(stdout@)
        } else {
            None
        },
{
    match code {
        Some(c) => if c == 0 && !blank(stdout.as_str()) {
            Verdict::Send(stdout)
        } else {
            Verdict::Discard
        },
        None => Verdict::Discard,
    }
}

/// The verdict of an editor that ended with `code` and printed `output`.
pub fn confirm(code: Option<i32>, output: &[u8]) -> (r: Verdict)
    ensures
        sent(r) == if code == Some(0i32) && !is_blank(trimmed(utf8_lossy(output@))) {
            Some(trimmed(utf8_lossy(output@)))
        } else {
            None
        },
{
    let text = lossy_text(output);
    verdict_from(code, trim_text(text.as_str()))
}

/// The editor's first button sends what stands in it, unless that is blank; every other end of it
/// sends nothing. What the program prints is taken without the white space round it.
pub proof fn law_only_the_first_button_sends(
    code: Option<i32>,
    stdout: String,
    output: &[u8],
    r: Verdict,
    s: Verdict,
)
    requires
        call_ensures(verdict_from, (code, stdout), r),
        call_ensures(confirm, (code, output), s),
    ensures
        code != Some(0i32) ==> r is Discard && s is Discard,
        is_blank(stdout@) ==> r is Discard,
        code == Some(0i32) && !is_blank(stdout@) ==> (r matches Verdict::Send(t) && t@ == stdout@),
        stdout@ == trimmed(utf8_lossy(output@)) ==> sent(r) == sent(s),
{
}

/// Windows can be shown exactly where the program for them was found.
pub proof fn law_windows_need_their_program(search: Option<i32>, r: bool)
    requires
        call_ensures(available, (search,), r),
    ensures
        search is None ==> !r,
        search matches Some(c) ==> (r <==> c == 0),
{
}

} // verus!
