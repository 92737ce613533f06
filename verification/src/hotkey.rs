//! The global hotkey: its edges and its written form (`Ctrl+Alt+E`).
use crate::text::{
    ascii_lower_chars, ascii_lowered, chars_of, concat, is_text, pieces, slice_texts, split,
    string_of, trim, trimmed,
};
use vstd::prelude::*;

verus! {

/// The hotkey of an ear that is told none.
pub const DEFAULT_HOTKEY: &'static str = "Ctrl+Alt+E";

/// One edge of the hotkey. Hold mode uses both, toggle mode only the press.
#[derive(Debug, Clone, Copy, PartialEq, Eq, Structural)]
pub enum KeyEdge {
    Pressed,
    Released,
}

/// The main key of a hotkey.
#[derive(Debug, Clone, Copy, PartialEq, Eq, Structural)]
pub enum Key {
    /// One of `a` to `z`.
    Letter(char),
    Space,
    Enter,
    Tab,
    Escape,
}

/// A hotkey: its modifiers and its main key.
#[derive(Debug, Clone, Copy, PartialEq, Eq, Structural)]
pub struct Hotkey {
    pub ctrl: bool,
    pub alt: bool,
    pub shift: bool,
    pub meta: bool,
    pub key: Key,
}

/// Why a hotkey cannot be read.
#[derive(Debug, Clone, PartialEq, Eq)]
pub enum HotkeyError {
    /// This part is neither a modifier nor a key.
    UnknownKey(String),
    /// There is no main key.
    NoKey,
}

impl HotkeyError {
    /// The reason in words.
    pub fn message(&self) -> (r: String)
        ensures
            r@ == match self {
                HotkeyError::UnknownKey(part) => "unknown key: "@ + part@,
                HotkeyError::NoKey => "hotkey 沒指定主鍵"@,
            },
    {
        match self {
            HotkeyError::UnknownKey(part) => concat("unknown key: ", part.as_str()),
            HotkeyError::NoKey => {
                let r = concat("hotkey 沒指定主鍵", "");
                proof {
                    reveal_strlit("");
                    assert(r@ =~= "hotkey 沒指定主鍵"@);
                }
                r
            },
        }
    }
}

/// A modifier key.
#[derive(Debug, Clone, Copy, PartialEq, Eq, Structural)]
pub enum Modifier {
    Ctrl,
    Alt,
    Shift,
    Meta,
}

/// The modifier that a word in lower case names.
pub open spec fn modifier_named(t: Seq<char>) -> Option<Modifier> {
    if t == "ctrl"@ || t == "control"@ {
        Some(Modifier::Ctrl)
    } else if t == "alt"@ {
        Some(Modifier::Alt)
    } else if t == "shift"@ {
        Some(Modifier::Shift)
    } else if t == "meta"@ || t == "super"@ || t == "win"@ || t == "cmd"@ {
        Some(Modifier::Meta)
    } else {
        None
    }
}

/// The key that a word in lower case names.
pub open spec fn key_named(t: Seq<char>) -> Option<Key> {
    if t.len() == 1 && 'a' <= t[0] <= 'z' {
        Some(Key::Letter(t[0]))
    } else if t == "space"@ {
        Some(Key::Space)
    } else if t == "enter"@ || t == "return"@ {
        Some(Key::Enter)
    } else if t == "tab"@ {
        Some(Key::Tab)
    } else if t == "esc"@ || t == "escape"@ {
        Some(Key::Escape)
    } else {
        None
    }
}

/// The word that one part of a written hotkey is: without white space, in lower case.
pub open spec fn word(part: Seq<char>) -> Seq<char> {
    ascii_lowered(trimmed(part))
}

/// Whether a part of a written hotkey names a modifier or a key.
pub open spec fn is_known(part: Seq<char>) -> bool {
    modifier_named(word(part)) is Some || key_named(word(part)) is Some
}

/// Whether one of the parts names the modifier `m`.
pub open spec fn has_modifier(parts: Seq<Seq<char>>, m: Modifier) -> bool {
    exists|i: int| 0 <= i < parts.len() && modifier_named(#[trigger] word(parts[i])) == Some(m)
}

/// The main key among the parts: the last one that is no modifier.
pub open spec fn main_key(parts: Seq<Seq<char>>) -> Option<Key>
    decreases parts.len(),
{
    if parts.len() == 0 {
        None
    } else if modifier_named(word(parts.last())) is None {
        key_named(word(parts.last()))
    } else {
        main_key(parts.drop_last())
    }
}

/// The first part that is neither a modifier nor a key.
pub open spec fn first_unknown(parts: Seq<Seq<char>>) -> Option<Seq<char>>
    decreases parts.len(),
{
    if parts.len() == 0 {
        None
    } else if !is_known(parts[0]) {
        Some(parts[0])
    } else {
        first_unknown(parts.drop_first())
    }
}

/// Looking for the first unknown part can go on after known ones.
proof fn lemma_first_unknown_after(parts: Seq<Seq<char>>, i: int)
    requires
        0 <= i <= parts.len(),
        forall|k: int| 0 <= k < i ==> is_known(#[trigger] parts[k]),
    ensures
        first_unknown(parts) == first_unknown(parts.skip(i)),
    decreases i,
{
    if i == 0 {
        assert(parts.skip(0) =~= parts);
    } else {
        let tail = parts.drop_first();
        assert forall|k: int| 0 <= k < i - 1 implies is_known(#[trigger] tail[k]) by {
            assert(tail[k] == parts[k + 1]);
        }
        assert(is_known(parts[0]));
        lemma_first_unknown_after(tail, i - 1);
        assert(tail.skip(i - 1) =~= parts.skip(i));
    }
}

/// The modifier that a word in lower case names.
fn modifier_of(t: &[char]) -> (r: Option<Modifier>)
    ensures
        r == modifier_named(t@),
{
    if is_text(t, "ctrl") || is_text(t, "control") {
        Some(Modifier::Ctrl)
    } else if is_text(t, "alt") {
        Some(Modifier::Alt)
    } else if is_text(t, "shift") {
        Some(Modifier::Shift)
    } else if is_text(t, "meta") || is_text(t, "super") || is_text(t, "win") || is_text(t, "cmd") {
        Some(Modifier::Meta)
    } else {
        None
    }
}

/// The key that a word in lower case names.
pub fn key_to_code(t: &[char]) -> (r: Option<Key>)
    ensures
        r == key_named(t@),
{
    if t.len() == 1 && 'a' <= t[0] && t[0] <= 'z' {
        Some(Key::Letter(t[0]))
    } else if is_text(t, "space") {
        Some(Key::Space)
    } else if is_text(t, "enter") || is_text(t, "return") {
        Some(Key::Enter)
    } else if is_text(t, "tab") {
        Some(Key::Tab)
    } else if is_text(t, "esc") || is_text(t, "escape") {
        Some(Key::Escape)
    } else {
        None
    }
}

/// Reads a written hotkey such as `Ctrl+Alt+E`.
pub fn parse_hotkey(s: &str) -> (r: Result<Hotkey, HotkeyError>)
    ensures
        ({
            let parts = pieces(s@, "+"@);
            match first_unknown(parts) {
                Some(part) => r matches Err(HotkeyError::UnknownKey(t)) && t@ == trimmed(part),
                None => match main_key(parts) {
                    Some(key) => r == Ok::<Hotkey, HotkeyError>(
                        Hotkey {
                            ctrl: has_modifier(parts, Modifier::Ctrl),
                            alt: has_modifier(parts, Modifier::Alt),
                            shift: has_modifier(parts, Modifier::Shift),
                            meta: has_modifier(parts, Modifier::Meta),
                            key,
                        },
                    ),
                    None => r == Err::<Hotkey, HotkeyError>(HotkeyError::NoKey),
                },
            }
        }),
{
    let cs = chars_of(s);
    proof {
        reveal_strlit("+");
    }
    let list = split(cs.as_slice(), "+");
    let ghost parts = pieces(s@, "+"@);
    let mut ctrl = false;
    let mut alt = false;
    let mut shift = false;
    let mut meta = false;
    let mut key: Option<Key> = None;
    let mut i: usize = 0;
    while i < list.len()
        invariant
            i <= list@.len(),
            parts == slice_texts(list@),
            forall|k: int| 0 <= k < i ==> is_known(#[trigger] parts[k]),
            key == main_key(parts.take(i as int)),
            ctrl == has_modifier(parts.take(i as int), Modifier::Ctrl),
            alt == has_modifier(parts.take(i as int), Modifier::Alt),
            shift == has_modifier(parts.take(i as int), Modifier::Shift),
            meta == has_modifier(parts.take(i as int), Modifier::Meta),
            parts == pieces(s@, "+"@),
        decreases list@.len() - i,
    {
        let part = trim(list[i]);
        let lower = ascii_lower_chars(part);
        let ghost now = parts.take(i + 1);
        proof {
            assert(parts[i as int] == list@[i as int]@);
            assert(lower@ == word(parts[i as int]));
            assert(now.drop_last() =~= parts.take(i as int));
            assert(now.last() == parts[i as int]);
            lemma_has_modifier_grows(now, Modifier::Ctrl);
            lemma_has_modifier_grows(now, Modifier::Alt);
            lemma_has_modifier_grows(now, Modifier::Shift);
            lemma_has_modifier_grows(now, Modifier::Meta);
        }
        match modifier_of(lower.as_slice()) {
            Some(Modifier::Ctrl) => {
                ctrl = true;
            },
            Some(Modifier::Alt) => {
                alt = true;
            },
            Some(Modifier::Shift) => {
                shift = true;
            },
            Some(Modifier::Meta) => {
                meta = true;
            },
            None => match key_to_code(lower.as_slice()) {
                Some(k) => {
                    key = Some(k);
                },
                None => {
                    proof {
                        lemma_first_unknown_after(parts, i as int);
                        assert(parts.skip(i as int)[0] == parts[i as int]);
                    }
                    return Err(HotkeyError::UnknownKey(string_of(part)));
                },
            },
        }
        i = i + 1;
    }
    proof {
        lemma_first_unknown_after(parts, i as int);
        assert(parts.take(i as int) =~= parts);
    }
    match key {
        Some(key) => Ok(Hotkey { ctrl, alt, shift, meta, key }),
        None => Err(HotkeyError::NoKey),
    }
}

/// A list of parts has a modifier where its last part names it or the others have it.
proof fn lemma_has_modifier_grows(parts: Seq<Seq<char>>, m: Modifier)
    requires
        parts.len() > 0,
    ensures
        has_modifier(parts, m) == (has_modifier(parts.drop_last(), m) || modifier_named(
            word(parts.last()),
        ) == Some(m)),
{
    let before = parts.drop_last();
    if has_modifier(parts, m) {
        let i = choose|i: int|
            0 <= i < parts.len() && modifier_named(#[trigger] word(parts[i])) == Some(m);
        if i < before.len() {
            assert(word(before[i]) == word(parts[i]));
        }
    }
    if has_modifier(before, m) {
        let i = choose|i: int|
            0 <= i < before.len() && modifier_named(#[trigger] word(before[i])) == Some(m);
        assert(word(parts[i]) == word(before[i]));
    }
    if modifier_named(word(parts.last())) == Some(m) {
        assert(word(parts[parts.len() - 1]) == word(parts.last()));
    }
}

/// The parts of a hotkey may stand in any order as far as the modifiers go: whether a modifier is
/// held does not depend on where its part stands.
pub proof fn law_modifier_order_is_free(a: Seq<Seq<char>>, b: Seq<Seq<char>>, m: Modifier)
    requires
        a.to_multiset() == b.to_multiset(),
    ensures
        has_modifier(a, m) == has_modifier(b, m),
{
    lemma_modifier_carries_over(a, b, m);
    lemma_modifier_carries_over(b, a, m);
}

proof fn lemma_modifier_carries_over(a: Seq<Seq<char>>, b: Seq<Seq<char>>, m: Modifier)
    requires
        a.to_multiset() == b.to_multiset(),
    ensures
        has_modifier(a, m) ==> has_modifier(b, m),
{
    broadcast use vstd::seq_lib::group_to_multiset_ensures;

    if has_modifier(a, m) {
        let i = choose|i: int|
            0 <= i < a.len() && modifier_named(#[trigger] word(a[i])) == Some(m);
        assert(a.contains(a[i]));
        assert(a.to_multiset().count(a[i]) > 0);
        assert(b.contains(a[i]));
        let j = choose|j: int| 0 <= j < b.len() && b[j] == a[i];
        assert(modifier_named(word(b[j])) == Some(m));
    }
}

// ---------------------------------------------------------------------------------------------
// What words mean
// ---------------------------------------------------------------------------------------------

/// What each word in a hotkey means: the modifiers by all their names, every letter, and the keys
/// that have a name. No word is both a modifier and a key, and no other word is known.
pub proof fn law_words_of_a_hotkey(t: Seq<char>)
    ensures
        modifier_named(t) == Some(Modifier::Ctrl) <==> t == "ctrl"@ || t == "control"@,
        modifier_named(t) == Some(Modifier::Alt) <==> t == "alt"@,
        modifier_named(t) == Some(Modifier::Shift) <==> t == "shift"@,
        modifier_named(t) == Some(Modifier::Meta) <==> t == "meta"@ || t == "super"@ || t == "win"@
            || t == "cmd"@,
        key_named(t) matches Some(Key::Letter(c)) ==> t == seq![c] && 'a' <= c <= 'z',
        t.len() == 1 && 'a' <= t[0] <= 'z' ==> key_named(t) == Some(Key::Letter(t[0])),
        key_named(t) == Some(Key::Space) <==> t == "space"@,
        key_named(t) == Some(Key::Enter) <==> t == "enter"@ || t == "return"@,
        key_named(t) == Some(Key::Tab) <==> t == "tab"@,
        key_named(t) == Some(Key::Escape) <==> t == "esc"@ || t == "escape"@,
        modifier_named(t) is Some ==> key_named(t) is None,
{
    reveal_strlit("ctrl");
    reveal_strlit("control");
    reveal_strlit("alt");
    reveal_strlit("shift");
    reveal_strlit("meta");
    reveal_strlit("super");
    reveal_strlit("win");
    reveal_strlit("cmd");
    reveal_strlit("space");
    reveal_strlit("enter");
    reveal_strlit("return");
    reveal_strlit("tab");
    reveal_strlit("esc");
    reveal_strlit("escape");
    assert("ctrl"@[0] == 'c' && "ctrl"@.len() == 4);
    assert("control"@[0] == 'c' && "control"@.len() == 7);
    assert("alt"@[0] == 'a' && "alt"@.len() == 3);
    assert("shift"@[1] == 'h' && "shift"@.len() == 5);
    assert("meta"@[0] == 'm' && "meta"@.len() == 4);
    assert("super"@[1] == 'u' && "super"@.len() == 5);
    assert("win"@[0] == 'w' && "win"@.len() == 3);
    assert("cmd"@[0] == 'c' && "cmd"@.len() == 3);
    assert("space"@[1] == 'p' && "space"@.len() == 5);
    assert("enter"@[0] == 'e' && "enter"@.len() == 5);
    assert("return"@[0] == 'r' && "return"@.len() == 6);
    assert("tab"@[0] == 't' && "tab"@.len() == 3);
    assert("esc"@[0] == 'e' && "esc"@.len() == 3);
    assert("escape"@[0] == 'e' && "escape"@.len() == 6);
    if t.len() == 1 {
        assert(t =~= seq![t[0]]);
    }
}

/// The main key is the last part that is no modifier: modifiers after it make no difference, nor
/// does what stands before it.
pub proof fn law_last_key_counts(parts: Seq<Seq<char>>, key: Seq<char>, after: Seq<Seq<char>>)
    requires
        modifier_named(word(key)) is None,
        forall|i: int|
            0 <= i < after.len() ==> modifier_named(word(#[trigger] after[i])) is Some,
    ensures
        main_key(parts + seq![key] + after) == key_named(word(key)),
        main_key(after) is None,
    decreases after.len(),
{
    let all = parts + seq![key] + after;
    if after.len() > 0 {
        law_last_key_counts(parts, key, after.drop_last());
        assert(all.drop_last() =~= parts + seq![key] + after.drop_last());
        assert(all.last() == after.last());
    } else {
        assert(all =~= parts + seq![key]);
    }
}

/// A hotkey that is read has just the modifiers that its parts name, and the key that they name
/// last; and every part is a modifier or a key.
pub proof fn law_hotkey_is_what_is_written(s: &str, h: Hotkey, i: int)
    requires
        call_ensures(parse_hotkey, (s,), Ok::<Hotkey, HotkeyError>(h)),
        0 <= i < pieces(s@, "+"@).len(),
    ensures
        ({
            let t = ascii_lowered(trimmed(pieces(s@, "+"@)[i]));
            &&& t == "ctrl"@ || t == "control"@ ==> h.ctrl
            &&& t == "alt"@ ==> h.alt
            &&& t == "shift"@ ==> h.shift
            &&& t == "meta"@ || t == "super"@ || t == "win"@ || t == "cmd"@ ==> h.meta
            &&& modifier_named(t) is Some || key_named(t) is Some
        }),
        h.ctrl ==> exists|k: int|
            0 <= k < pieces(s@, "+"@).len() && modifier_named(#[trigger] word(pieces(s@, "+"@)[k]))
                == Some(Modifier::Ctrl),
        h.alt ==> exists|k: int|
            0 <= k < pieces(s@, "+"@).len() && modifier_named(#[trigger] word(pieces(s@, "+"@)[k]))
                == Some(Modifier::Alt),
        h.shift ==> exists|k: int|
            0 <= k < pieces(s@, "+"@).len() && modifier_named(#[trigger] word(pieces(s@, "+"@)[k]))
                == Some(Modifier::Shift),
        h.meta ==> exists|k: int|
            0 <= k < pieces(s@, "+"@).len() && modifier_named(#[trigger] word(pieces(s@, "+"@)[k]))
                == Some(Modifier::Meta),
        main_key(pieces(s@, "+"@)) == Some(h.key),
{
    let parts = pieces(s@, "+"@);
    law_words_of_a_hotkey(word(parts[i]));
    lemma_all_known(parts, i);
}

proof fn lemma_all_known(parts: Seq<Seq<char>>, i: int)
    requires
        first_unknown(parts) is None,
        0 <= i < parts.len(),
    ensures
        is_known(parts[i]),
    decreases parts.len(),
{
    if i > 0 {
        lemma_all_known(parts.drop_first(), i - 1);
        assert(parts.drop_first()[i - 1] == parts[i]);
    }
}

/// A hotkey that cannot be read is refused for a reason: its first part that is not known, or that
/// there are only modifiers.
pub proof fn law_faults_of_a_hotkey(s: &str, r: Result<Hotkey, HotkeyError>, i: int)
    requires
        call_ensures(parse_hotkey, (s,), r),
    ensures
        ({
            let parts = pieces(s@, "+"@);
            &&& 0 <= i < parts.len() && !is_known(parts[i]) && (forall|k: int|
                0 <= k < i ==> is_known(#[trigger] parts[k])) ==> (r matches Err(
                HotkeyError::UnknownKey(t),
            ) && t@ == trimmed(parts[i]))
            &&& (forall|k: int|
                0 <= k < parts.len() ==> modifier_named(word(#[trigger] parts[k])) is Some) ==> r
                == Err::<Hotkey, HotkeyError>(HotkeyError::NoKey)
        }),
{
    let parts = pieces(s@, "+"@);
    lemma_first_unknown_is(parts, i);
    if forall|k: int| 0 <= k < parts.len() ==> modifier_named(word(#[trigger] parts[k])) is Some {
        lemma_modifiers_only(parts);
        assert forall|k: int| 0 <= k < parts.len() implies is_known(#[trigger] parts[k]) by {
            assert(modifier_named(word(parts[k])) is Some);
        }
        lemma_none_unknown(parts);
    }
}

proof fn lemma_first_unknown_is(parts: Seq<Seq<char>>, i: int)
    ensures
        0 <= i < parts.len() && !is_known(parts[i]) && (forall|k: int|
            0 <= k < i ==> is_known(#[trigger] parts[k])) ==> first_unknown(parts) == Some(parts[i]),
    decreases parts.len(),
{
    if 0 < i < parts.len() && !is_known(parts[i]) && (forall|k: int|
        0 <= k < i ==> is_known(#[trigger] parts[k])) {
        assert(is_known(parts[0]));
        let rest = parts.drop_first();
        assert forall|k: int| 0 <= k < i - 1 implies is_known(#[trigger] rest[k]) by {
            assert(is_known(parts[k + 1]));
        }
        assert(rest[i - 1] == parts[i]);
        lemma_first_unknown_is(rest, i - 1);
    }
}

proof fn lemma_none_unknown(parts: Seq<Seq<char>>)
    requires
        forall|k: int| 0 <= k < parts.len() ==> is_known(#[trigger] parts[k]),
    ensures
        first_unknown(parts) is None,
    decreases parts.len(),
{
    if parts.len() > 0 {
        let rest = parts.drop_first();
        assert forall|k: int| 0 <= k < rest.len() implies is_known(#[trigger] rest[k]) by {
            assert(is_known(parts[k + 1]));
        }
        lemma_none_unknown(rest);
    }
}

proof fn lemma_modifiers_only(parts: Seq<Seq<char>>)
    requires
        forall|k: int|
            0 <= k < parts.len() ==> modifier_named(word(#[trigger] parts[k])) is Some,
    ensures
        main_key(parts) is None,
    decreases parts.len(),
{
    if parts.len() > 0 {
        let rest = parts.drop_last();
        assert forall|k: int| 0 <= k < rest.len() implies modifier_named(
            word(#[trigger] rest[k]),
        ) is Some by {
            assert(modifier_named(word(parts[k])) is Some);
        }
        lemma_modifiers_only(rest);
    }
}

} // verus!
