//! The window in which a mode is chosen: what its buttons mean and what it says.
use crate::text::{concat3, owned, push_str, same, starts_with};
use vstd::prelude::*;

verus! {

/// What the window says when it opens.
pub const GREETING: &'static str = "請選擇辨識方式。切換後可繼續錄音。";

/// The mode of the button with this exit code, if it is one of the three.
pub open spec fn mode_of_button(code: Option<i32>) -> Option<Seq<char>> {
    match code {
        Some(c) => if c == 10 {
            Some("groq"@)
        } else if c == 11 {
            Some("local"@)
        } else if c == 12 {
            Some("auto"@)
        } else {
            None
        },
        None => None,
    }
}

/// The mode that was chosen when the window ended with this exit code.
pub fn choice(code: Option<i32>) -> (r: Option<&'static str>)
    ensures
        match mode_of_button(code) {
            Some(m) => r matches Some(s) && s@ == m,
            None => r is None,
        },
{
    match code {
        Some(c) => if c == 10 {
            Some("groq")
        } else if c == 11 {
            Some("local")
        } else if c == 12 {
            Some("auto")
        } else {
            None
        },
        None => None,
    }
}

/// What a mode is called.
pub open spec fn label_of(mode: Seq<char>) -> Seq<char> {
    if mode == "groq"@ {
        "線上模式（Groq）"@
    } else if mode == "local"@ {
        "本機模式"@
    } else {
        "自動模式"@
    }
}

/// What a mode is called.
pub fn label(mode: &str) -> (r: &'static str)
    ensures
        r@ == label_of(mode@),
{
    if same(mode, "groq") {
        "線上模式（Groq）"
    } else if same(mode, "local") {
        "本機模式"
    } else {
        "自動模式"
    }
}

/// What the window shows: the present mode, what the modes are, and a message.
pub fn text(mode: &str, message: &str) -> (r: String)
    ensures
        r@ == "目前："@ + label_of(mode@)
            + "\n\n線上：使用 Groq，需要網路。\n\n本機：在這台電腦上辨識語音。\n\n自動：先用本機，本機失敗才改用 Groq。\n\n"@
            + message@
            + "\n\n已送出辨識的片段不受影響，新片段使用新模式。"@,
{
    let mut out = concat3(
        "目前：",
        label(mode),
        "\n\n線上：使用 Groq，需要網路。\n\n本機：在這台電腦上辨識語音。\n\n自動：先用本機，本機失敗才改用 Groq。\n\n",
    );
    push_str(&mut out, message);
    push_str(&mut out, "\n\n已送出辨識的片段不受影響，新片段使用新模式。");
    out
}

/// What to do when the window has ended.
#[derive(Debug, Clone, Copy, PartialEq, Eq)]
pub enum Next {
    /// Switch to this mode and open the window again.
    Switch(&'static str),
    /// Stop.
    Close,
    /// Stop: the window did not end as it should.
    Fail,
}

/// What to do when the window has ended with this exit code.
pub fn next(code: Option<i32>) -> (r: Next)
    ensures
        match mode_of_button(code) {
            Some(m) => r matches Next::Switch(s) && s@ == m,
            None => r == if code == Some(0i32) || code == Some(252i32) {
                Next::Close
            } else {
                Next::Fail
            },
        },
{
    match choice(code) {
        Some(m) => Next::Switch(m),
        None => match code {
            Some(c) => if c == 0 || c == 252 {
                Next::Close
            } else {
                Next::Fail
            },
            None => Next::Fail,
        },
    }
}

/// What the window says after a switch to `mode`, which succeeded or did not.
pub fn message(mode: &str, saved: bool, has_key: bool) -> (r: String)
    ensures
        r@ == if saved {
            "已切換為"@ + label_of(mode@) + "。錄音可繼續，不必重新啟動。"@
        } else if mode@ == "groq"@ && !has_key {
            "切換失敗：尚未設定 Groq 金鑰，仍維持原模式。"@
        } else {
            "切換失敗：請確認 ear.json 格式與寫入權限，仍維持原模式。"@
        },
{
    if saved {
        concat3("已切換為", label(mode), "。錄音可繼續，不必重新啟動。")
    } else if same(mode, "groq") && !has_key {
        owned("切換失敗：尚未設定 Groq 金鑰，仍維持原模式。")
    } else {
        owned("切換失敗：請確認 ear.json 格式與寫入權限，仍維持原模式。")
    }
}

/// Closing the window, or any end of it but the three buttons, selects no mode.
pub proof fn law_only_buttons_select(code: Option<i32>)
    ensures
        mode_of_button(code) is Some <==> code == Some(10i32) || code == Some(11i32) || code
            == Some(12i32),
        mode_of_button(code) matches Some(m) ==> crate::mode_command::is_mode(m),
{
}

/// Each button switches to the mode that it names, and a window that is closed to none. What the
/// window then says of a mode is its own name.
pub proof fn law_buttons_switch_to_their_modes(code: Option<i32>, r: Option<&'static str>)
    requires
        call_ensures(choice, (code,), r),
    ensures
        code == Some(10i32) <==> (r matches Some(m) && m@ == "groq"@),
        code == Some(11i32) <==> (r matches Some(m) && m@ == "local"@),
        code == Some(12i32) <==> (r matches Some(m) && m@ == "auto"@),
        code != Some(10i32) && code != Some(11i32) && code != Some(12i32) ==> r is None,
{
    reveal_strlit("groq");
    reveal_strlit("local");
    reveal_strlit("auto");
    assert("groq"@[0] == 'g' && "local"@[0] == 'l' && "auto"@[0] == 'a');
}

/// The end of a window that is not closed in order is a fault, and a button is none.
pub proof fn law_windows_close_or_fail(code: Option<i32>, r: Next, chosen: Option<&'static str>)
    requires
        call_ensures(next, (code,), r),
        call_ensures(choice, (code,), chosen),
    ensures
        r is Switch <==> chosen is Some,
        r matches Next::Switch(a) ==> (chosen matches Some(b) && a@ == b@),
        r is Close <==> code == Some(0i32) || code == Some(252i32),
{
    law_only_buttons_select(code);
}

/// Online mode is called so, local mode so, and any other automatic; no two of them alike.
pub proof fn law_modes_have_names(mode: &str, r: &'static str)
    requires
        call_ensures(label, (mode,), r),
    ensures
        mode@ == "groq"@ <==> r@ == "線上模式（Groq）"@,
        mode@ == "local"@ <==> r@ == "本機模式"@,
        mode@ != "groq"@ && mode@ != "local"@ <==> r@ == "自動模式"@,
{
    reveal_strlit("groq");
    reveal_strlit("local");
    reveal_strlit("線上模式（Groq）");
    reveal_strlit("本機模式");
    reveal_strlit("自動模式");
    assert("線上模式（Groq）"@[0] == '線' && "本機模式"@[0] == '本' && "自動模式"@[0] == '自');
    assert("groq"@[0] == 'g' && "local"@[0] == 'l');
}

/// The window says that a mode was switched to only where it was.
pub proof fn law_failures_are_not_called_success(
    mode: &str,
    saved: bool,
    has_key: bool,
    r: String,
)
    requires
        call_ensures(message, (mode, saved, has_key), r),
    ensures
        saved <==> starts_with(r@, "已切換為"@),
        !saved <==> starts_with(r@, "切換失敗"@),
{
    reveal_strlit("已切換為");
    reveal_strlit("切換失敗");
    reveal_strlit("切換失敗：尚未設定 Groq 金鑰，仍維持原模式。");
    reveal_strlit("切換失敗：請確認 ear.json 格式與寫入權限，仍維持原模式。");
    assert("已切換為"@[0] == '已' && "切換失敗"@[0] == '切');
    if saved {
        assert(r@.take(4) =~= "已切換為"@);
        assert(r@.take(4)[0] == '已');
    } else {
        assert(r@.take(4) =~= "切換失敗"@);
        assert(r@.take(4)[0] == '切');
    }
}

} // verus!
