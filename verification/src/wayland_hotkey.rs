//! The global hotkey under Wayland, through the `GlobalShortcuts` portal: the portal's name for a
//! hotkey, and what its signals mean.
use crate::hotkey::{law_words_of_a_hotkey, modifier_named, KeyEdge, Modifier};
use crate::text::{
    ascii_lower_chars, ascii_lowered, chars_of, concat3, is_text, join, joined, lowercase, owned,
    pieces, same, slice_texts, split, string_of, string_texts, to_lowercase, trim, trimmed,
};
use vstd::prelude::*;

verus! {

/// The shortcut's name inside the portal.
pub const SHORTCUT_ID: &'static str = "talk";

/// The application that the shortcut is registered for. It is not the one of mori-desktop, so the
/// permissions of the two stay apart.
pub const APP_ID: &'static str = "ai.yazelin.mori-ear";

/// The application of mori-desktop.
pub const DESKTOP_APP_ID: &'static str = "ai.yazelin.mori";

/// The two applications are not the same, so neither overwrites what the user allowed the other.
pub proof fn law_permissions_stay_apart()
    ensures
        APP_ID@ != DESKTOP_APP_ID@,
{
    reveal_strlit("ai.yazelin.mori-ear");
    reveal_strlit("ai.yazelin.mori");
    assert(APP_ID@.len() != DESKTOP_APP_ID@.len());
}

/// The portal's word for one part of a hotkey, given without white space and in lower case.
pub open spec fn portal_word(t: Seq<char>) -> Seq<char> {
    if t == "ctrl"@ || t == "control"@ {
        "CTRL"@
    } else if t == "alt"@ {
        "ALT"@
    } else if t == "shift"@ {
        "SHIFT"@
    } else if t == "super"@ || t == "meta"@ || t == "win"@ || t == "cmd"@ {
        "SUPER"@
    } else {
        t
    }
}

/// The portal's words for the parts of a hotkey.
pub open spec fn portal_words(parts: Seq<Seq<char>>) -> Seq<Seq<char>> {
    parts.map_values(|p: Seq<char>| portal_word(lowercase(trimmed(p))))
}

/// The portal's word for one part of a hotkey, given without white space and in lower case.
pub fn to_portal_word(t: &str) -> (r: String)
    ensures
        r@ == portal_word(t@),
{
    let cs = chars_of(t);
    let t = cs.as_slice();
    if is_text(t, "ctrl") || is_text(t, "control") {
        owned("CTRL")
    } else if is_text(t, "alt") {
        owned("ALT")
    } else if is_text(t, "shift") {
        owned("SHIFT")
    } else if is_text(t, "super") || is_text(t, "meta") || is_text(t, "win") || is_text(t, "cmd") {
        owned("SUPER")
    } else {
        string_of(t)
    }
}

/// A hotkey (`Ctrl+Alt+E`) in the portal's syntax: modifiers in capitals, the key in lower case
/// (`CTRL+ALT+e`). What it does not know it hands on.
pub fn to_portal_trigger(hotkey: &str) -> (r: String)
    ensures
        r@ == joined(portal_words(pieces(hotkey@, "+"@)), "+"@),
{
    let cs = chars_of(hotkey);
    proof {
        reveal_strlit("+");
    }
    let parts = split(cs.as_slice(), "+");
    let ghost all = slice_texts(parts@);
    let mut words: Vec<String> = Vec::new();
    let mut i: usize = 0;
    while i < parts.len()
        invariant
            i <= parts@.len(),
            all == slice_texts(parts@),
            string_texts(words@) == portal_words(all).take(i as int),
        decreases parts@.len() - i,
    {
        let part = string_of(trim(parts[i]));
        let lower = to_lowercase(part.as_str());
        let ghost before = words@;
        words.push(to_portal_word(lower.as_str()));
        proof {
            assert(all[i as int] == parts@[i as int]@);
            assert(string_texts(words@) =~= string_texts(before).push(
                portal_words(all)[i as int],
            ));
            assert(portal_words(all).take(i + 1) =~= portal_words(all).take(i as int).push(
                portal_words(all)[i as int],
            ));
        }
        i = i + 1;
    }
    assert(portal_words(all).take(i as int) =~= portal_words(all));
    join(&words, "+")
}

/// Whether the session is a Wayland one, from `XDG_SESSION_TYPE` and `WAYLAND_DISPLAY`.
pub fn is_wayland(session_type: Option<&str>, display: Option<&str>) -> (r: bool)
    ensures
        r == ((session_type matches Some(t) && ascii_lowered(t@) == "wayland"@) || (
        display matches Some(d) && d@.len() > 0)),
{
    let by_type = match session_type {
        Some(t) => {
            let cs = chars_of(t);
            let lower = ascii_lower_chars(cs.as_slice());
            is_text(lower.as_slice(), "wayland")
        },
        None => false,
    };
    let by_display = match display {
        Some(d) => !d.is_empty(),
        None => false,
    };
    by_type || by_display
}

/// A signal of the portal.
#[derive(Debug, Clone, Copy, PartialEq, Eq, Structural)]
pub enum Signal {
    Activated,
    Deactivated,
}

/// Turns the portal's signals into edges. A key that is held down arrives as a run of
/// `Activated` signals, one for each auto-repeat; only the first is a press.
#[derive(Debug, Clone, Copy, PartialEq, Eq, Structural)]
pub struct Debounce {
    pub held: bool,
}

/// The edge that a signal for our shortcut is, if it is one, while the key is held or not.
pub open spec fn edge_of(held: bool, signal: Signal) -> Option<KeyEdge> {
    match signal {
        Signal::Activated => if held {
            None
        } else {
            Some(KeyEdge::Pressed)
        },
        Signal::Deactivated => if held {
            Some(KeyEdge::Released)
        } else {
            None
        },
    }
}

/// Whether the key is held after a signal for our shortcut.
pub open spec fn held_after(signal: Signal) -> bool {
    signal is Activated
}

impl Debounce {
    /// Nothing is held at first.
    pub fn new() -> (r: Debounce)
        ensures
            !r.held,
    {
        Debounce { held: false }
    }

    /// Takes a signal for the shortcut `id` and returns the edge that it is, if it is one. Signals
    /// for other shortcuts mean nothing.
    pub fn observe(&mut self, signal: Signal, id: &str) -> (r: Option<KeyEdge>)
        ensures
            id@ == SHORTCUT_ID@ ==> r == edge_of(old(self).held, signal) && final(self).held
                == held_after(signal),
            id@ != SHORTCUT_ID@ ==> r is None && *final(self) == *old(self),
    {
        if !same(id, SHORTCUT_ID) {
            return None;
        }
        match signal {
            Signal::Activated => {
                if self.held {
                    return None;
                }
                self.held = true;
                Some(KeyEdge::Pressed)
            },
            Signal::Deactivated => {
                if !self.held {
                    return None;
                }
                self.held = false;
                Some(KeyEdge::Released)
            },
        }
    }
}

/// The edges that a run of signals for our shortcut gives, starting with the key held or not.
pub open spec fn edges(held: bool, signals: Seq<Signal>) -> Seq<KeyEdge>
    decreases signals.len(),
{
    if signals.len() == 0 {
        seq![]
    } else {
        let rest = edges(held_after(signals[0]), signals.drop_first());
        match edge_of(held, signals[0]) {
            Some(e) => seq![e] + rest,
            None => rest,
        }
    }
}

/// However often the portal repeats its signals, presses and releases alternate: one press for
/// each time the key goes down, and a release only after a press.
pub proof fn law_edges_alternate(held: bool, signals: Seq<Signal>, i: int)
    requires
        0 <= i < edges(held, signals).len(),
    ensures
        edges(held, signals)[i] == if (i % 2 == 0) == held {
            KeyEdge::Released
        } else {
            KeyEdge::Pressed
        },
    decreases signals.len(),
{
    let next = held_after(signals[0]);
    match edge_of(held, signals[0]) {
        Some(e) => {
            if i > 0 {
                law_edges_alternate(next, signals.drop_first(), i - 1);
            }
        },
        None => {
            law_edges_alternate(next, signals.drop_first(), i);
        },
    }
}

/// The desktop entry that the portal looks the application up by, starting the program `exe`.
pub fn desktop_entry(exe: &str) -> (r: String)
    ensures
        r@ == "[Desktop Entry]\nType=Application\nName=mori-ear\nComment=Mori 的耳朵 — 熱鍵語音輸入,轉錄後貼進焦點視窗\nExec="@
            + exe@
            + "\nIcon=audio-input-microphone\nCategories=Utility;AudioVideo;\nTerminal=false\nNoDisplay=true\n"@,
{
    concat3(
        "[Desktop Entry]\nType=Application\nName=mori-ear\nComment=Mori 的耳朵 — 熱鍵語音輸入,轉錄後貼進焦點視窗\nExec=",
        exe,
        "\nIcon=audio-input-microphone\nCategories=Utility;AudioVideo;\nTerminal=false\nNoDisplay=true\n",
    )
}

/// Whether the desktop entry has to be written: it is missing, or it is another.
pub fn needs_write(existing: Option<&str>, content: &str) -> (r: bool)
    ensures
        r == !(existing matches Some(e) && e@ == content@),
{
    match existing {
        Some(e) => !same(e, content),
        None => true,
    }
}

/// The portal is told the same modifiers that the hotkey has elsewhere, by its own names, and every
/// other part as it is written.
pub proof fn law_portal_has_the_same_modifiers(t: &str, r: String)
    requires
        call_ensures(to_portal_word, (t,), r),
    ensures
        r@ == match modifier_named(t@) {
            Some(Modifier::Ctrl) => "CTRL"@,
            Some(Modifier::Alt) => "ALT"@,
            Some(Modifier::Shift) => "SHIFT"@,
            Some(Modifier::Meta) => "SUPER"@,
            None => t@,
        },
{
    law_words_of_a_hotkey(t@);
}

/// A hotkey for the portal has as many parts as the hotkey, in the same order.
pub proof fn law_portal_trigger_has_the_same_parts(hotkey: &str, r: String, i: int)
    requires
        call_ensures(to_portal_trigger, (hotkey,), r),
        0 <= i < pieces(hotkey@, "+"@).len(),
    ensures
        exists|words: Seq<Seq<char>>|
            words.len() == pieces(hotkey@, "+"@).len() && r@ == #[trigger] joined(words, "+"@)
                && words[i] == portal_word(lowercase(trimmed(pieces(hotkey@, "+"@)[i]))),
{
    let words = portal_words(pieces(hotkey@, "+"@));
    assert(r@ == joined(words, "+"@));
}

/// A signal is an edge exactly where it changes whether the key is held, and the edge says how. So
/// after any signals the key is held as the last of them says, and no edge is missed.
pub proof fn law_edges_follow_the_key(held: bool, signal: Signal)
    ensures
        edge_of(held, signal) is Some <==> held_after(signal) != held,
        edge_of(held, signal) == Some(KeyEdge::Pressed) <==> !held && signal == Signal::Activated,
        edge_of(held, signal) == Some(KeyEdge::Released) <==> held && signal == Signal::Deactivated,
        held_after(signal) <==> signal == Signal::Activated,
{
}

/// A session is a Wayland one where it says so, in any letter case, or has a display of it.
pub proof fn law_wayland_sessions(session_type: Option<&str>, display: Option<&str>, r: bool)
    requires
        call_ensures(is_wayland, (session_type, display), r),
    ensures
        session_type matches Some(t) ==> ascii_lowered(t@) == "wayland"@ ==> r,
        display matches Some(d) ==> d@.len() > 0 ==> r,
        (session_type is None || ascii_lowered(session_type->0@) != "wayland"@) && (display is None
            || display->0@.len() == 0) ==> !r,
{
}

/// What is there already is not written again, and everything else is.
pub proof fn law_written_once(existing: Option<&str>, content: &str, r: bool)
    requires
        call_ensures(needs_write, (existing, content), r),
    ensures
        r <==> (existing matches Some(e) ==> e@ != content@),
{
}

} // verus!
