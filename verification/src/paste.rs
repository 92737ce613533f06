//! Pasting a text into the window that has the focus: which keys are pressed.
use crate::multipart::{exact_text, lossy_text, utf8_lossy};
use crate::text::{
    chars_of, concat, contains, decimal, has_text, is_text, lowercase, pieces, push_str,
    slice_texts, split, string_of, string_texts, texts, to_decimal, to_lowercase, trim, trim_text,
    trimmed,
};
use vstd::prelude::*;
use vstd::utf8::{decode_utf8, valid_utf8};

verus! {

// ---------------------------------------------------------------------------------------------
// Key codes
// ---------------------------------------------------------------------------------------------

/// The Linux input event code of a key, by its name in lower case.
pub open spec fn code_of(name: Seq<char>) -> Option<u64> {
    if name == "ctrl"@ || name == "control"@ {
        Some(29)
    } else if name == "shift"@ {
        Some(42)
    } else if name == "alt"@ {
        Some(56)
    } else if name == "super"@ || name == "meta"@ {
        Some(125)
    } else if name == "v"@ {
        Some(47)
    } else if name == "insert"@ {
        Some(110)
    } else {
        None
    }
}

/// The code of a key as it is written in a combination of keys.
pub open spec fn code_in(part: Seq<char>) -> Option<u64> {
    code_of(lowercase(trimmed(part)))
}

/// The codes of a combination of keys, if each of them has one.
pub open spec fn codes_in(parts: Seq<Seq<char>>) -> Option<Seq<u64>>
    decreases parts.len(),
{
    if parts.len() == 0 {
        Some(seq![])
    } else {
        match (codes_in(parts.drop_last()), code_in(parts.last())) {
            (Some(rest), Some(c)) => Some(rest.push(c)),
            _ => None,
        }
    }
}

/// A key going down or up, as `ydotool` takes it.
pub open spec fn stroke(code: u64, down: bool) -> Seq<char> {
    decimal(code as nat) + if down {
        ":1"@
    } else {
        ":0"@
    }
}

/// Keys going down one after the other, and up again in the opposite order.
pub open spec fn strokes(codes: Seq<u64>) -> Seq<Seq<char>> {
    codes.map_values(|c: u64| stroke(c, true)) + codes.reverse().map_values(
        |c: u64| stroke(c, false),
    )
}

/// The code of a key.
fn code(name: &str) -> (r: Option<u64>)
    ensures
        r == code_of(name@),
{
    let n = chars_of(name);
    let n = n.as_slice();
    if is_text(n, "ctrl") || is_text(n, "control") {
        Some(29)
    } else if is_text(n, "shift") {
        Some(42)
    } else if is_text(n, "alt") {
        Some(56)
    } else if is_text(n, "super") || is_text(n, "meta") {
        Some(125)
    } else if is_text(n, "v") {
        Some(47)
    } else if is_text(n, "insert") {
        Some(110)
    } else {
        None
    }
}

fn stroke_text(code: u64, down: bool) -> (r: String)
    ensures
        r@ == stroke(code, down),
{
    let mut out = to_decimal(code);
    push_str(
        &mut out,
        if down {
            ":1"
        } else {
            ":0"
        },
    );
    out
}

proof fn lemma_codes_prefix(parts: Seq<Seq<char>>, k: int)
    requires
        0 <= k < parts.len(),
        code_in(parts[k]) is None,
    ensures
        codes_in(parts) is None,
    decreases parts.len(),
{
    if k < parts.len() - 1 {
        lemma_codes_prefix(parts.drop_last(), k);
    }
}

/// The strokes that press a combination of keys such as `ctrl+shift+v`, if all of them are known.
pub fn ydotool_keycodes(combo: &str) -> (r: Option<Vec<String>>)
    ensures
        match codes_in(pieces(combo@, "+"@)) {
            Some(codes) => r matches Some(v) && string_texts(v@) == strokes(codes),
            None => r is None,
        },
{
    let chars = chars_of(combo);
    proof {
        reveal_strlit("+");
    }
    let parts = split(chars.as_slice(), "+");
    let ghost all = pieces(combo@, "+"@);
    let mut codes: Vec<u64> = Vec::new();
    let mut i: usize = 0;
    assert(all.take(0) =~= seq![]);
    while i < parts.len()
        invariant
            i <= parts@.len(),
            all == pieces(combo@, "+"@),
            slice_texts(parts@) == all,
            codes_in(all.take(i as int)) == Some(codes@),
        decreases parts@.len() - i,
    {
        let part = string_of(trim(parts[i]));
        assert(all[i as int] == parts@[i as int]@);
        match code(to_lowercase(part.as_str()).as_str()) {
            Some(c) => {
                proof {
                    assert(all.take(i + 1).drop_last() =~= all.take(i as int));
                    assert(all.take(i + 1).last() == all[i as int]);
                }
                codes.push(c);
            },
            None => {
                proof {
                    lemma_codes_prefix(all, i as int);
                }
                return None;
            },
        }
        i = i + 1;
    }
    assert(all.take(i as int) =~= all);
    let n: usize = codes.len();
    let mut out: Vec<String> = Vec::new();
    let ghost want = strokes(codes@);
    let mut k: usize = 0;
    while k < n
        invariant
            k <= n,
            n == codes@.len(),
            want == strokes(codes@),
            string_texts(out@) == want.take(k as int),
        decreases n - k,
    {
        let ghost before = out@;
        out.push(stroke_text(codes[k], true));
        assert(want.take(k + 1) =~= want.take(k as int).push(want[k as int]));
        assert(string_texts(out@) =~= string_texts(before).push(want[k as int]));
        k = k + 1;
    }
    let mut k: usize = n;
    while k > 0
        invariant
            k <= n,
            n == codes@.len(),
            want == strokes(codes@),
            string_texts(out@) == want.take(n + (n - k)),
        decreases k,
    {
        k = k - 1;
        let ghost before = out@;
        let ghost at = n + (n - k) - 1;
        out.push(stroke_text(codes[k], false));
        assert(codes@.reverse()[n - k - 1] == codes@[k as int]);
        assert(want[at] == stroke(codes@[k as int], false));
        assert(want.take(at + 1) =~= want.take(at).push(want[at]));
        assert(string_texts(out@) =~= string_texts(before).push(want[at]));
    }
    assert(want.take(n + n) =~= want);
    Some(out)
}

/// Every key that goes down goes up again, the last one first: key `i` from the front goes down
/// where key `i` from the back goes up.
pub proof fn law_keys_are_released(codes: Seq<u64>, i: int)
    requires
        0 <= i < codes.len(),
    ensures
        strokes(codes).len() == 2 * codes.len(),
        strokes(codes)[i] == stroke(codes[i], true),
        strokes(codes)[strokes(codes).len() - 1 - i] == stroke(codes[i], false),
{
    let n = codes.len() as int;
    assert(codes.reverse()[n - 1 - i] == codes[i]);
}

/// The help of old versions of `ydotool` says that keys are joined by plus signs; they take the
/// names of keys, and press others without a word when they are given codes.
pub fn ydotool_wants_named_keys(stdout: &[u8], stderr: &[u8]) -> (r: bool)
    ensures
        r == contains(
            utf8_lossy(stdout@) + utf8_lossy(stderr@),
            "separated by plus"@,
        ),
{
    let help = concat(lossy_text(stdout).as_str(), lossy_text(stderr).as_str());
    let chars = chars_of(help.as_str());
    proof {
        reveal_strlit("separated by plus");
    }
    has_text(chars.as_slice(), "separated by plus")
}

/// What `ydotool key` is given to press a combination of keys: names for old versions, strokes for
/// others; nothing where a key is not known.
pub fn ydotool_arguments(combo: &str, named: bool) -> (r: Option<Vec<String>>)
    ensures
        match codes_in(pieces(combo@, "+"@)) {
            Some(codes) => r matches Some(v) && string_texts(v@) == if named {
                seq![lowercase(trimmed(combo@))]
            } else {
                strokes(codes)
            },
            None => r is None,
        },
{
    let codes = match ydotool_keycodes(combo) {
        Some(c) => c,
        None => return None,
    };
    if named {
        let name = to_lowercase(trim_text(combo).as_str());
        let mut out: Vec<String> = Vec::new();
        out.push(name);
        assert(string_texts(out@) =~= seq![lowercase(trimmed(combo@))]);
        Some(out)
    } else {
        Some(codes)
    }
}

// ---------------------------------------------------------------------------------------------
// Terminals
// ---------------------------------------------------------------------------------------------

/// Whether the text contains one of the words.
pub open spec fn contains_any(s: Seq<char>, words: Seq<Seq<char>>) -> bool {
    exists|i: int| 0 <= i < words.len() && contains(s, #[trigger] words[i])
}

/// The terminals of Linux, which paste with the shift key.
pub open spec fn terminals() -> Seq<Seq<char>> {
    seq![
        "gnome-terminal"@,
        "kgx"@,
        "ptyxis"@,
        "kitty"@,
        "alacritty"@,
        "wezterm"@,
        "foot"@,
        "tilix"@,
        "terminator"@,
        "xterm"@,
        "konsole"@,
        "urxvt"@,
        "rxvt"@,
    ]
}

/// The terminals of Windows that paste with the shift key.
pub open spec fn windows_terminals() -> Seq<Seq<char>> {
    seq![
        "windowsterminal"@,
        "wt"@,
        "alacritty"@,
        "kitty"@,
        "wezterm"@,
        "mintty"@,
        "conemu"@,
        "cmder"@,
    ]
}

fn has_any(s: &str, words: &[&'static str]) -> (r: bool)
    requires
        forall|i: int| 0 <= i < words@.len() ==> (#[trigger] words@[i])@.len() > 0,
    ensures
        r == contains_any(s@, texts(words@)),
{
    let chars = chars_of(s);
    let mut i: usize = 0;
    while i < words.len()
        invariant
            i <= words@.len(),
            chars@ == s@,
            forall|k: int| 0 <= k < words@.len() ==> (#[trigger] words@[k])@.len() > 0,
            forall|k: int| 0 <= k < i ==> !contains(s@, #[trigger] texts(words@)[k]),
        decreases words@.len() - i,
    {
        assert(texts(words@)[i as int] == words@[i as int]@);
        if has_text(chars.as_slice(), words[i]) {
            return true;
        }
        i = i + 1;
    }
    false
}

/// Whether a program of this name pastes with the shift key, on Linux.
pub fn needs_shift_for_paste(process_name: &str) -> (r: bool)
    ensures
        r == contains_any(lowercase(process_name@), terminals()),
{
    let p = to_lowercase(process_name);
    let list: Vec<&'static str> = vec![
        "gnome-terminal",
        "kgx",
        "ptyxis",
        "kitty",
        "alacritty",
        "wezterm",
        "foot",
        "tilix",
        "terminator",
        "xterm",
        "konsole",
        "urxvt",
        "rxvt",
    ];
    proof {
        reveal_strlit("gnome-terminal");
        reveal_strlit("kgx");
        reveal_strlit("ptyxis");
        reveal_strlit("kitty");
        reveal_strlit("alacritty");
        reveal_strlit("wezterm");
        reveal_strlit("foot");
        reveal_strlit("tilix");
        reveal_strlit("terminator");
        reveal_strlit("xterm");
        reveal_strlit("konsole");
        reveal_strlit("urxvt");
        reveal_strlit("rxvt");
        assert(texts(list@) =~= terminals());
    }
    has_any(p.as_str(), list.as_slice())
}

/// Whether a program of this name pastes with the shift key, on Windows.
pub fn needs_shift_for_paste_windows(process_name: &str) -> (r: bool)
    ensures
        r == contains_any(lowercase(process_name@), windows_terminals()),
{
    let p = to_lowercase(process_name);
    let list: Vec<&'static str> = vec![
        "windowsterminal",
        "wt",
        "alacritty",
        "kitty",
        "wezterm",
        "mintty",
        "conemu",
        "cmder",
    ];
    proof {
        reveal_strlit("windowsterminal");
        reveal_strlit("wt");
        reveal_strlit("alacritty");
        reveal_strlit("kitty");
        reveal_strlit("wezterm");
        reveal_strlit("mintty");
        reveal_strlit("conemu");
        reveal_strlit("cmder");
        assert(texts(list@) =~= windows_terminals());
    }
    has_any(p.as_str(), list.as_slice())
}

/// The keys that paste into a program of this name, on Linux under X11.
pub fn paste_combo(process_name: &str) -> (r: &'static str)
    ensures
        r@ == if contains_any(lowercase(process_name@), terminals()) {
            "ctrl+shift+v"@
        } else {
            "ctrl+v"@
        },
{
    if needs_shift_for_paste(process_name) {
        "ctrl+shift+v"
    } else {
        "ctrl+v"
    }
}

// ---------------------------------------------------------------------------------------------
// The window that has the focus
// ---------------------------------------------------------------------------------------------

/// Whether `c` is a decimal digit.
pub open spec fn is_digit(c: char) -> bool {
    '0' <= c <= '9'
}

/// The number that digits stand for.
pub open spec fn value_of(digits: Seq<char>) -> nat
    decreases digits.len(),
{
    if digits.len() == 0 {
        0
    } else {
        value_of(digits.drop_last()) * 10 + (digits.last() as nat - '0' as nat) as nat
    }
}

/// The digits of a number that may have a plus sign before it.
pub open spec fn unsigned(s: Seq<char>) -> Seq<char> {
    if s.len() > 0 && s[0] == '+' {
        s.skip(1)
    } else {
        s
    }
}

/// The number of 32 bits that a text is.
pub open spec fn number_of(s: Seq<char>) -> Option<u32> {
    let d = unsigned(s);
    if d.len() > 0 && (forall|i: int| 0 <= i < d.len() ==> is_digit(#[trigger] d[i])) && value_of(d)
        <= u32::MAX {
        Some(value_of(d) as u32)
    } else {
        None
    }
}

proof fn lemma_value_rises(digits: Seq<char>, k: int)
    requires
        0 <= k <= digits.len(),
        forall|i: int| 0 <= i < digits.len() ==> is_digit(#[trigger] digits[i]),
    ensures
        value_of(digits.take(k)) <= value_of(digits),
    decreases digits.len(),
{
    if k == digits.len() {
        assert(digits.take(k) =~= digits);
    } else {
        assert(digits.drop_last().take(k) =~= digits.take(k));
        lemma_value_rises(digits.drop_last(), k);
    }
}

/// Reads a number of 32 bits.
fn parse_u32(s: &[char]) -> (r: Option<u32>)
    ensures
        r == number_of(s@),
{
    let n: usize = s.len();
    let start: usize = if n > 0 && s[0] == '+' {
        1
    } else {
        0
    };
    let ghost d = unsigned(s@);
    assert(s@.skip(0) =~= s@);
    if start == n {
        return None;
    }
    let mut value: u64 = 0;
    let mut i: usize = start;
    assert(d.take(0) =~= seq![]);
    while i < n
        invariant
            start <= i <= n,
            n == s@.len(),
            d == s@.skip(start as int),
            d == unsigned(s@),
            d.len() > 0,
            value == value_of(d.take(i - start)),
            value <= u32::MAX,
            forall|k: int| 0 <= k < i - start ==> is_digit(#[trigger] d[k]),
        decreases n - i,
    {
        let c: char = s[i];
        assert(d[i - start] == c);
        if !('0' <= c && c <= '9') {
            return None;
        }
        value = value * 10 + (c as u64 - '0' as u64);
        proof {
            assert(d.take(i - start + 1).drop_last() =~= d.take(i - start));
            if value > u32::MAX && forall|k: int| 0 <= k < d.len() ==> is_digit(#[trigger] d[k]) {
                lemma_value_rises(d, i - start + 1);
            }
        }
        if value > u32::MAX as u64 {
            return None;
        }
        i = i + 1;
    }
    assert(d.take(i - start) =~= d);
    Some(value as u32)
}

/// The process of the window that has the focus, as `xdotool` prints it; nothing where it failed or
/// printed no text.
pub fn active_pid(success: bool, stdout: &[u8]) -> (r: Option<u32>)
    ensures
        r == if success && valid_utf8(stdout@) {
            number_of(trimmed(decode_utf8(stdout@)))
        } else {
            None
        },
{
    if !success {
        return None;
    }
    match exact_text(stdout) {
        Some(text) => {
            let chars = chars_of(text.as_str());
            parse_u32(trim(chars.as_slice()))
        },
        None => None,
    }
}

// ---------------------------------------------------------------------------------------------
// Key presses
// ---------------------------------------------------------------------------------------------

/// A key that is pressed to paste.
#[derive(Debug, Clone, Copy, PartialEq, Eq, Structural)]
pub enum PasteKey {
    Control,
    Shift,
    V,
}

/// A key going down or up.
#[derive(Debug, Clone, Copy, PartialEq, Eq, Structural)]
pub struct Press {
    pub key: PasteKey,
    pub down: bool,
}

/// The keys that are pressed to paste.
pub open spec fn paste_keys(use_shift: bool) -> Seq<PasteKey> {
    if use_shift {
        seq![PasteKey::Control, PasteKey::Shift, PasteKey::V]
    } else {
        seq![PasteKey::Control, PasteKey::V]
    }
}

/// Keys going down one after the other, and up again in the opposite order.
pub open spec fn presses(keys: Seq<PasteKey>) -> Seq<Press> {
    keys.map_values(|key: PasteKey| Press { key, down: true }) + keys.reverse().map_values(
        |key: PasteKey| Press { key, down: false },
    )
}

/// The key presses that paste, for a system that takes them one by one.
pub fn paste_presses(use_shift: bool) -> (r: Vec<Press>)
    ensures
        r@ == presses(paste_keys(use_shift)),
{
    let mut out: Vec<Press> = Vec::new();
    out.push(Press { key: PasteKey::Control, down: true });
    if use_shift {
        out.push(Press { key: PasteKey::Shift, down: true });
    }
    out.push(Press { key: PasteKey::V, down: true });
    out.push(Press { key: PasteKey::V, down: false });
    if use_shift {
        out.push(Press { key: PasteKey::Shift, down: false });
    }
    out.push(Press { key: PasteKey::Control, down: false });
    assert(out@ =~= presses(paste_keys(use_shift)));
    out
}

// ---------------------------------------------------------------------------------------------
// What these come to
// ---------------------------------------------------------------------------------------------

/// The codes of the keys that paste, by all their names; other keys have none.
pub proof fn law_codes_of_keys(name: Seq<char>)
    ensures
        code_of(name) == Some(29u64) <==> name == "ctrl"@ || name == "control"@,
        code_of(name) == Some(42u64) <==> name == "shift"@,
        code_of(name) == Some(56u64) <==> name == "alt"@,
        code_of(name) == Some(125u64) <==> name == "super"@ || name == "meta"@,
        code_of(name) == Some(47u64) <==> name == "v"@,
        code_of(name) == Some(110u64) <==> name == "insert"@,
        code_of(name) matches Some(c) ==> c == 29 || c == 42 || c == 56 || c == 125 || c == 47 || c
            == 110,
{
    reveal_strlit("ctrl");
    reveal_strlit("control");
    reveal_strlit("shift");
    reveal_strlit("alt");
    reveal_strlit("super");
    reveal_strlit("meta");
    reveal_strlit("v");
    reveal_strlit("insert");
    assert("ctrl"@[0] == 'c' && "ctrl"@.len() == 4 && "control"@.len() == 7);
    assert("shift"@[1] == 'h' && "shift"@.len() == 5 && "alt"@.len() == 3);
    assert("super"@[1] == 'u' && "super"@.len() == 5);
    assert("meta"@[0] == 'm' && "meta"@.len() == 4);
    assert("v"@.len() == 1 && "insert"@.len() == 6);
}

/// A combination has a code for each of its keys, in the order in which they are written; where one
/// key is not known, nothing is pressed.
pub proof fn law_every_key_is_pressed(parts: Seq<Seq<char>>, i: int)
    requires
        0 <= i < parts.len(),
    ensures
        codes_in(parts) matches Some(codes) ==> codes.len() == parts.len() && Some(codes[i])
            == code_in(parts[i]),
        code_in(parts[i]) is None ==> codes_in(parts) is None,
        (forall|k: int| 0 <= k < parts.len() ==> code_in(#[trigger] parts[k]) is Some)
            ==> codes_in(parts) is Some,
    decreases parts.len(),
{
    if parts.len() > 1 {
        let rest = parts.drop_last();
        if i < rest.len() {
            law_every_key_is_pressed(rest, i);
            assert(rest[i] == parts[i]);
        } else {
            law_every_key_is_pressed(rest, 0);
        }
        if forall|k: int| 0 <= k < parts.len() ==> code_in(#[trigger] parts[k]) is Some {
            assert forall|k: int| 0 <= k < rest.len() implies code_in(#[trigger] rest[k]) is Some by {
                assert(rest[k] == parts[k]);
            }
        }
    } else {
        assert(codes_in(parts.drop_last()) == Some(Seq::<u64>::empty()));
        assert(code_in(parts[0]) == code_in(parts.last()));
    }
}

/// A terminal pastes with the shift key, whatever else is in its name and in whatever letter case,
/// and nothing else does. The keys that paste say so.
pub proof fn law_terminals_paste_with_shift(process_name: &str, r: bool, combo: &'static str)
    requires
        call_ensures(needs_shift_for_paste, (process_name,), r),
        call_ensures(paste_combo, (process_name,), combo),
    ensures
        combo@ == if r {
            "ctrl+shift+v"@
        } else {
            "ctrl+v"@
        },
        ({
            let s = lowercase(process_name@);
            r <==> contains(s, "gnome-terminal"@) || contains(s, "kgx"@) || contains(s, "ptyxis"@)
                || contains(s, "kitty"@) || contains(s, "alacritty"@) || contains(s, "wezterm"@)
                || contains(s, "foot"@) || contains(s, "tilix"@) || contains(s, "terminator"@)
                || contains(s, "xterm"@) || contains(s, "konsole"@) || contains(s, "urxvt"@)
                || contains(s, "rxvt"@)
        }),
{
    let t = terminals();
    assert(t.len() == 13);
    assert(t[0] == "gnome-terminal"@ && t[1] == "kgx"@ && t[2] == "ptyxis"@ && t[3] == "kitty"@ && t[4]
        == "alacritty"@ && t[5] == "wezterm"@ && t[6] == "foot"@ && t[7] == "tilix"@ && t[8]
        == "terminator"@ && t[9] == "xterm"@ && t[10] == "konsole"@ && t[11] == "urxvt"@ && t[12]
        == "rxvt"@);
}

/// The same of the terminals of Windows.
pub proof fn law_windows_terminals_paste_with_shift(process_name: &str, r: bool)
    requires
        call_ensures(needs_shift_for_paste_windows, (process_name,), r),
    ensures
        ({
            let s = lowercase(process_name@);
            r <==> contains(s, "windowsterminal"@) || contains(s, "wt"@) || contains(
                s,
                "alacritty"@,
            ) || contains(s, "kitty"@) || contains(s, "wezterm"@) || contains(s, "mintty"@)
                || contains(s, "conemu"@) || contains(s, "cmder"@)
        }),
{
    let t = windows_terminals();
    assert(t.len() == 8);
    assert(t[0] == "windowsterminal"@ && t[1] == "wt"@ && t[2] == "alacritty"@ && t[3] == "kitty"@
        && t[4] == "wezterm"@ && t[5] == "mintty"@ && t[6] == "conemu"@ && t[7] == "cmder"@);
}

/// Every key that goes down to paste goes up again, the last one first; control is held all the
/// time, `v` is pressed last, and shift only where it is wanted.
pub proof fn law_pasting_keys_are_released(use_shift: bool, r: Vec<Press>, i: int)
    requires
        call_ensures(paste_presses, (use_shift,), r),
        0 <= i < r@.len(),
    ensures
        r@.len() == if use_shift {
            6int
        } else {
            4
        },
        r@[r@.len() - 1 - i] == (Press { key: r@[i].key, down: !r@[i].down }),
        r@[i].down <==> 2 * i < r@.len(),
        r@[0].key == PasteKey::Control,
        r@[r@.len() / 2 - 1].key == PasteKey::V,
        r@[i].key == PasteKey::Shift ==> use_shift,
        use_shift ==> r@[1].key == PasteKey::Shift,
{
}

/// A number that is written out is read back, with a plus sign before it and without.
pub proof fn law_numbers_are_read_back(n: u32)
    ensures
        number_of(decimal(n as nat)) == Some(n),
        number_of(seq!['+'] + decimal(n as nat)) == Some(n),
{
    lemma_decimal_value(n as nat);
    let d = decimal(n as nat);
    assert((seq!['+'] + d).skip(1) =~= d);
    assert(is_digit(d[0]));
}

pub proof fn lemma_decimal_value(n: nat)
    ensures
        value_of(decimal(n)) == n,
        decimal(n).len() > 0,
        forall|i: int| 0 <= i < decimal(n).len() ==> is_digit(#[trigger] decimal(n)[i]),
    decreases n,
{
    if n < 10 {
        assert(decimal(n).drop_last() =~= seq![]);
        assert(value_of(decimal(n).drop_last()) == 0);
    } else {
        lemma_decimal_value(n / 10);
        assert(decimal(n).drop_last() =~= decimal(n / 10));
    }
}

/// Old versions are told the same combinations as new ones, by name instead of by code: nothing is
/// pressed by one that the other would refuse.
pub proof fn law_both_versions_press_the_same(
    combo: &str,
    named: Option<Vec<String>>,
    coded: Option<Vec<String>>,
    codes: Option<Vec<String>>,
)
    requires
        call_ensures(ydotool_arguments, (combo, true), named),
        call_ensures(ydotool_arguments, (combo, false), coded),
        call_ensures(ydotool_keycodes, (combo,), codes),
    ensures
        named is Some <==> codes is Some,
        coded is Some <==> codes is Some,
        coded matches Some(v) ==> string_texts(v@) == string_texts(codes->0@),
        named matches Some(v) ==> v@.len() == 1 && v@[0]@ == lowercase(trimmed(combo@)),
{
    if named is Some {
        assert(string_texts(named->0@).len() == 1);
        assert(string_texts(named->0@)[0] == named->0@[0]@);
    }
}

/// A key goes down as `:1` and up as `:0`, by its code.
pub proof fn law_strokes_tell_down_from_up(code: u64)
    ensures
        stroke(code, true) == decimal(code as nat) + ":1"@,
        stroke(code, false) == decimal(code as nat) + ":0"@,
        stroke(code, true) != stroke(code, false),
{
    reveal_strlit(":1");
    reveal_strlit(":0");
    assert(stroke(code, true).last() == '1');
    assert(stroke(code, false).last() == '0');
}

/// Versions are told apart by what their help says, on either of its two outputs.
pub proof fn law_old_versions_are_known_by_their_help(stdout: &[u8], stderr: &[u8], r: bool)
    requires
        call_ensures(ydotool_wants_named_keys, (stdout, stderr), r),
    ensures
        contains(utf8_lossy(stdout@), "separated by plus"@) ==> r,
        contains(utf8_lossy(stderr@), "separated by plus"@) ==> r,
        r ==> contains(utf8_lossy(stdout@) + utf8_lossy(stderr@), "separated by plus"@),
{
    let (a, b, w) = (utf8_lossy(stdout@), utf8_lossy(stderr@), "separated by plus"@);
    if contains(a, w) {
        let i = choose|i: int| crate::text::occurs_at(a, w, i);
        assert((a + b).subrange(i, i + w.len()) =~= a.subrange(i, i + w.len()));
        assert(crate::text::occurs_at(a + b, w, i));
    }
    if contains(b, w) {
        let i = choose|i: int| crate::text::occurs_at(b, w, i);
        let k = a.len() + i;
        assert((a + b).subrange(k, k + w.len()) =~= b.subrange(i, i + w.len()));
        assert(crate::text::occurs_at(a + b, w, k));
    }
}

/// The process that is printed is the one that is found, and none is where the search failed.
pub proof fn law_printed_process_is_found(success: bool, stdout: &[u8], pid: u32, r: Option<u32>)
    requires
        call_ensures(active_pid, (success, stdout), r),
    ensures
        success && valid_utf8(stdout@) && trimmed(decode_utf8(stdout@)) == decimal(pid as nat) ==> r
            == Some(pid),
        !success ==> r is None,
{
    law_numbers_are_read_back(pid);
}

} // verus!
