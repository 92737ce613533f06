//! The configuration: its fields, what they are where the file names none, and what follows from
//! them.
use crate::audio::TrimConfig;
use crate::hotkey::DEFAULT_HOTKEY;
use crate::json::{self, document, member, member_text};
use crate::stt::opt;
use crate::text::{
    ascii_lower_chars, ascii_lowered, char_count, chars_of, is_text, owned, same, starts_with,
    strip_prefix,
};
use serde_json::Value;
use vstd::prelude::*;

verus! {

/// The configuration, `~/.mori/ear.json`.
#[derive(Debug)]
pub struct Config {
    pub hotkey: String,
    /// The Groq key. Where it is empty, others are looked for.
    pub groq_api_key: String,
    /// The language spoken; empty where it is to be detected.
    pub language: String,
    /// Whether transcripts are left as they are, not cleaned up.
    pub raw: bool,
    pub cleanup_prompt_file: String,
    pub stt_initial_prompt_file: String,
    /// Whether a text is pasted into the window that has the focus; it is printed in any case.
    pub paste_back: bool,
    /// The keys that paste, under Wayland.
    pub paste_key: String,
    /// `auto`, `groq` or `local`.
    pub backend: String,
    pub voice_input: VoiceInputConfig,
    /// How long a transcription may take.
    pub transcribe_timeout_secs: u64,
    pub service: ServiceConfig,
}

/// The transcription service.
#[derive(Debug, Clone, Copy, PartialEq, Eq, Structural)]
pub struct ServiceConfig {
    pub enabled: bool,
    /// Its port; 0 where any will do.
    pub port: u16,
}

/// How speech is recorded, cut and delivered.
#[derive(Debug)]
pub struct VoiceInputConfig {
    pub trim_silence_enabled: bool,
    pub trim_silence_min_ms: u32,
    /// Whether what was said before a pause is transcribed while the recording goes on.
    pub stream_chunks_enabled: bool,
    pub stream_pause_ms: u32,
    pub stream_min_segment_ms: u32,
    /// Whether there is a preview window; by default where text is not pasted while speaking.
    pub preview_enabled: Option<bool>,
    /// A text of more characters is shown in an editor before it is sent.
    pub preview_confirm_chars: usize,
    /// `toggle`, or else the hotkey is held.
    pub hotkey_mode: String,
    /// A toggled recording ends after this many seconds; 0 where it does not.
    pub toggle_max_secs: u64,
    /// Whether each segment is pasted as soon as it is transcribed; by default when toggling.
    pub live_paste: Option<bool>,
}

/// How a recording is cut into segments while it goes on.
#[derive(Debug, Clone, Copy, PartialEq, Eq, Structural)]
pub struct StreamConfig {
    pub enabled: bool,
    pub pause_ms: u32,
    pub min_segment_ms: u32,
}

impl Default for ServiceConfig {
    fn default() -> (r: Self)
        ensures
            r == (ServiceConfig { enabled: true, port: 0 }),
    {
        ServiceConfig { enabled: true, port: 0 }
    }
}

/// What [`VoiceInputConfig`] is where the file says nothing of it.
pub open spec fn is_default_voice_input(v: VoiceInputConfig) -> bool {
    &&& v.trim_silence_enabled
    &&& v.trim_silence_min_ms == 300
    &&& v.stream_chunks_enabled
    &&& v.stream_pause_ms == 700
    &&& v.stream_min_segment_ms == 1500
    &&& v.preview_enabled is None
    &&& v.preview_confirm_chars == 150
    &&& v.hotkey_mode@ == "toggle"@
    &&& v.toggle_max_secs == 120
    &&& v.live_paste is None
}

/// What all but the key of a [`Config`] is where there is no file.
pub open spec fn is_default_but_key(c: Config) -> bool {
    &&& c.hotkey@ == DEFAULT_HOTKEY@
    &&& c.language@ == ""@
    &&& !c.raw
    &&& c.cleanup_prompt_file@ == ""@
    &&& c.stt_initial_prompt_file@ == ""@
    &&& c.paste_back
    &&& c.paste_key@ == "ctrl+v"@
    &&& c.backend@ == "auto"@
    &&& is_default_voice_input(c.voice_input)
    &&& c.transcribe_timeout_secs == 90
    &&& c.service == (ServiceConfig { enabled: true, port: 0 })
}

impl Default for VoiceInputConfig {
    fn default() -> (r: Self)
        ensures
            is_default_voice_input(r),
    {
        VoiceInputConfig {
            trim_silence_enabled: true,
            trim_silence_min_ms: 300,
            stream_chunks_enabled: true,
            stream_pause_ms: 700,
            stream_min_segment_ms: 1500,
            preview_enabled: None,
            preview_confirm_chars: 150,
            hotkey_mode: owned("toggle"),
            toggle_max_secs: 120,
            live_paste: None,
        }
    }
}

impl Default for Config {
    fn default() -> (r: Self)
        ensures
            is_default_but_key(r),
            r.groq_api_key@ == ""@,
    {
        Config {
            hotkey: owned(DEFAULT_HOTKEY),
            groq_api_key: owned(""),
            language: owned(""),
            raw: false,
            cleanup_prompt_file: owned(""),
            stt_initial_prompt_file: owned(""),
            paste_back: true,
            paste_key: owned("ctrl+v"),
            backend: owned("auto"),
            voice_input: VoiceInputConfig::default(),
            transcribe_timeout_secs: 90,
            service: ServiceConfig::default(),
        }
    }
}

impl VoiceInputConfig {
    /// How a recording is cut into segments.
    pub fn to_stream(&self) -> (r: StreamConfig)
        ensures
            r.enabled == self.stream_chunks_enabled,
            r.pause_ms == self.stream_pause_ms,
            r.min_segment_ms == self.stream_min_segment_ms,
    {
        StreamConfig {
            enabled: self.stream_chunks_enabled,
            pause_ms: self.stream_pause_ms,
            min_segment_ms: self.stream_min_segment_ms,
        }
    }

    /// How silence is cut out of a recording.
    pub fn to_trim(&self) -> (r: TrimConfig)
        ensures
            r.enabled == self.trim_silence_enabled,
            r.min_silence_ms == self.trim_silence_min_ms,
    {
        TrimConfig {
            enabled: self.trim_silence_enabled,
            min_silence_ms: self.trim_silence_min_ms,
        }
    }

    /// Whether the hotkey is pressed to begin and pressed again to end.
    pub open spec fn is_toggle(self) -> bool {
        ascii_lowered(self.hotkey_mode@) == "toggle"@
    }

    /// Whether each segment is pasted as soon as it is transcribed. While a key is held, no paste
    /// gets through.
    pub open spec fn pastes_live(self) -> bool {
        &&& self.live_paste.unwrap_or(self.is_toggle())
        &&& self.is_toggle()
        &&& self.stream_chunks_enabled
    }

    /// Whether a preview window is wanted.
    pub open spec fn wants_preview(self) -> bool {
        self.preview_enabled.unwrap_or(!self.pastes_live())
    }

    /// How the hotkey is used and where text appears; `can_preview` is whether there is a program
    /// that shows windows.
    pub fn modes(&self, can_preview: bool) -> (r: Modes)
        ensures
            r.toggle == self.is_toggle(),
            r.live_paste == self.pastes_live(),
            r.want_preview == self.wants_preview(),
            r.preview_on == (self.wants_preview() && can_preview),
            r.live_paste_ignored == (self.live_paste == Some(true) && !self.pastes_live()),
    {
        let mode = chars_of(self.hotkey_mode.as_str());
        let lower = ascii_lower_chars(mode.as_slice());
        let toggle = is_text(lower.as_slice(), "toggle");
        let wanted = match self.live_paste {
            Some(b) => b,
            None => toggle,
        };
        let live_paste = wanted && toggle && self.stream_chunks_enabled;
        let want_preview = match self.preview_enabled {
            Some(b) => b,
            None => !live_paste,
        };
        let asked = match self.live_paste {
            Some(b) => b,
            None => false,
        };
        Modes {
            toggle,
            live_paste,
            want_preview,
            preview_on: want_preview && can_preview,
            live_paste_ignored: asked && !live_paste,
        }
    }
}

/// How the hotkey is used and where text appears.
#[derive(Debug, Clone, Copy, PartialEq, Eq, Structural)]
pub struct Modes {
    pub toggle: bool,
    pub live_paste: bool,
    pub want_preview: bool,
    pub preview_on: bool,
    /// Whether pasting while speaking is asked for where it cannot be done.
    pub live_paste_ignored: bool,
}

/// While the hotkey is held, nothing is pasted; and where nothing is said of a preview, there is
/// one exactly where text is not pasted while speaking.
pub proof fn law_modes_go_together(v: VoiceInputConfig)
    ensures
        v.pastes_live() ==> v.is_toggle() && v.stream_chunks_enabled,
        v.preview_enabled is None ==> (v.wants_preview() <==> !v.pastes_live()),
        v.live_paste is None && v.is_toggle() && v.stream_chunks_enabled ==> v.pastes_live(),
{
}

// ---------------------------------------------------------------------------------------------
// The key
// ---------------------------------------------------------------------------------------------

/// Whether a text is a key, and not a placeholder for one.
pub open spec fn is_key(s: Seq<char>) -> bool {
    s.len() > 0 && !starts_with(s, "REPLACE"@)
}

/// The member `key` of a member.
pub open spec fn below(v: Option<Value>, key: Seq<char>) -> Option<Value> {
    match v {
        Some(w) => member(w, key),
        None => None,
    }
}

/// The Groq key in the configuration that all programs share.
pub open spec fn shared_key_in(file: Seq<u8>) -> Option<Seq<char>> {
    match below(below(document(file), "providers"@), "groq"@) {
        Some(v) => match member_text(v, "api_key"@) {
            Some(k) => if is_key(k) {
                Some(k)
            } else {
                None
            },
            None => None,
        },
        None => None,
    }
}

/// Finds the Groq key in the configuration that all programs share, `~/.mori/config.json`.
pub fn shared_key(file: &[u8]) -> (r: Option<String>)
    ensures
        match shared_key_in(file@) {
            Some(k) => r matches Some(s) && s@ == k,
            None => r is None,
        },
{
    let doc = match json::read(file) {
        Some(v) => v,
        None => return None,
    };
    let providers = match json::get(&doc, "providers") {
        Some(v) => v,
        None => return None,
    };
    let groq = match json::get(providers, "groq") {
        Some(v) => v,
        None => return None,
    };
    match json::member_str(groq, "api_key") {
        Some(k) => {
            let chars = chars_of(k);
            if chars.len() == 0 || strip_prefix(chars.as_slice(), "REPLACE").is_some() {
                None
            } else {
                Some(owned(k))
            }
        },
        None => None,
    }
}

/// The key of a configuration: its own, else the shared one.
pub open spec fn merged_key(own: Seq<char>, shared: Option<Seq<char>>) -> Seq<char> {
    if own.len() == 0 && shared is Some {
        shared->0
    } else {
        own
    }
}

/// The key that is used: that of the configuration, else that of the environment, if it is one.
pub open spec fn key_of(own: Seq<char>, environment: Option<Seq<char>>) -> Option<Seq<char>> {
    if own.len() > 0 {
        Some(own)
    } else {
        match environment {
            Some(e) => if e.len() > 0 {
                Some(e)
            } else {
                None
            },
            None => None,
        }
    }
}

impl Config {
    /// The configuration: what its file says, where it can be read, and the shared key where it
    /// names none.
    pub fn load(file: Option<Config>, shared: Option<String>) -> (r: Config)
        ensures
            match file {
                Some(c) => c == (Config { groq_api_key: c.groq_api_key, ..r }),
                None => is_default_but_key(r),
            },
            r.groq_api_key@ == merged_key(
                match file {
                    Some(c) => c.groq_api_key@,
                    None => ""@,
                },
                crate::multipart::opt_text(shared),
            ),
    {
        let mut cfg = match file {
            Some(c) => c,
            None => Config::default(),
        };
        if char_count(cfg.groq_api_key.as_str()) == 0 {
            if let Some(k) = shared {
                cfg.groq_api_key = k;
            }
        }
        cfg
    }

    /// The key that is used, where `environment` is what the environment names.
    pub fn resolved_api_key(&self, environment: Option<&str>) -> (r: Option<String>)
        ensures
            match key_of(self.groq_api_key@, opt(environment)) {
                Some(k) => r matches Some(s) && s@ == k,
                None => r is None,
            },
    {
        if char_count(self.groq_api_key.as_str()) > 0 {
            return Some(owned(self.groq_api_key.as_str()));
        }
        match environment {
            Some(e) => if char_count(e) > 0 {
                Some(owned(e))
            } else {
                None
            },
            None => None,
        }
    }

    /// Whether the program cannot start: Groq alone is to be asked, and there is no key for it.
    pub fn lacks_key(&self, has_key: bool) -> (r: bool)
        ensures
            r == (self.backend@ == "groq"@ && !has_key),
    {
        same(self.backend.as_str(), "groq") && !has_key
    }
}

/// The key is that of the program's configuration, else the shared one, else that of the
/// environment.
pub proof fn law_key_order(
    own: Seq<char>,
    shared: Option<Seq<char>>,
    environment: Option<Seq<char>>,
)
    requires
        shared matches Some(s) ==> is_key(s),
    ensures
        own.len() > 0 ==> key_of(merged_key(own, shared), environment) == Some(own),
        own.len() == 0 && shared is Some ==> key_of(merged_key(own, shared), environment)
            == shared,
        own.len() == 0 && shared is None && (environment matches Some(e) && e.len() > 0) ==> key_of(
            merged_key(own, shared),
            environment,
        ) == environment,
        own.len() == 0 && shared is None && environment is None ==> key_of(
            merged_key(own, shared),
            environment,
        ) is None,
{
}

// ---------------------------------------------------------------------------------------------
// What settings come to
// ---------------------------------------------------------------------------------------------

/// What the user says of pasting and of the preview is what happens, as far as it can: text is not
/// pasted while speaking where that is switched off, it is where it is switched on and the hotkey is
/// toggled and recordings are cut into segments, and a preview is there or not as it is set.
pub proof fn law_settings_are_followed(v: VoiceInputConfig, can_preview: bool, r: Modes)
    requires
        call_ensures(VoiceInputConfig::modes, (&v, can_preview), r),
    ensures
        r.toggle <==> ascii_lowered(v.hotkey_mode@) == "toggle"@,
        v.live_paste == Some(false) ==> !r.live_paste && !r.live_paste_ignored,
        v.live_paste == Some(true) ==> (r.live_paste <==> r.toggle && v.stream_chunks_enabled)
            && r.live_paste_ignored == !r.live_paste,
        v.live_paste is None ==> (r.live_paste <==> r.toggle && v.stream_chunks_enabled)
            && !r.live_paste_ignored,
        v.preview_enabled matches Some(b) ==> r.want_preview == b,
        v.preview_enabled is None ==> r.want_preview == !r.live_paste,
        r.preview_on <==> r.want_preview && can_preview,
{
}

/// A placeholder is no key, nor is an empty text; and a key that is found is one.
pub proof fn law_placeholders_are_no_keys(file: &[u8], r: String)
    requires
        call_ensures(shared_key, (file,), Some(r)),
    ensures
        r@.len() > 0,
        !starts_with(r@, "REPLACE"@),
{
}

/// The configuration's key comes before that of the environment; an empty text is none in either.
pub proof fn law_key_that_is_used(c: Config, environment: Option<&str>, r: Option<String>)
    requires
        call_ensures(Config::resolved_api_key, (&c, environment), r),
    ensures
        c.groq_api_key@.len() > 0 ==> (r matches Some(k) && k@ == c.groq_api_key@),
        c.groq_api_key@.len() == 0 && environment is None ==> r is None,
        c.groq_api_key@.len() == 0 ==> (environment matches Some(e) ==> if e@.len() == 0 {
            r is None
        } else {
            r matches Some(k) && k@ == e@
        }),
{
}

/// A key is missing only where Groq alone is asked.
pub proof fn law_only_groq_takes_a_key(c: Config, has_key: bool, r: bool)
    requires
        call_ensures(Config::lacks_key, (&c, has_key), r),
    ensures
        has_key ==> !r,
        c.backend@ != "groq"@ ==> !r,
        c.backend@ == "groq"@ && !has_key ==> r,
{
}

/// A configuration that is read is used as it is; only a key that it lacks comes from elsewhere.
pub proof fn law_configuration_is_used_as_it_is(c: Config, shared: Option<String>, r: Config)
    requires
        call_ensures(Config::load, (Some(c), shared), r),
    ensures
        r.hotkey == c.hotkey && r.language == c.language && r.raw == c.raw && r.backend
            == c.backend && r.paste_back == c.paste_back && r.paste_key == c.paste_key,
        r.voice_input == c.voice_input && r.service == c.service && r.transcribe_timeout_secs
            == c.transcribe_timeout_secs,
        r.cleanup_prompt_file == c.cleanup_prompt_file && r.stt_initial_prompt_file
            == c.stt_initial_prompt_file,
        c.groq_api_key@.len() > 0 ==> r.groq_api_key@ == c.groq_api_key@,
        c.groq_api_key@.len() == 0 ==> (shared matches Some(k) ==> r.groq_api_key@ == k@),
        c.groq_api_key@.len() == 0 && shared is None ==> r.groq_api_key@.len() == 0,
{
}

/// A program that is told nothing is toggled, pastes while the user speaks and shows no preview, and
/// its service is on.
pub proof fn law_defaults_go_together(
    shared: Option<String>,
    c: Config,
    can_preview: bool,
    r: Modes,
    has_key: bool,
    lacks: bool,
)
    requires
        call_ensures(Config::load, (None::<Config>, shared), c),
        call_ensures(VoiceInputConfig::modes, (&c.voice_input, can_preview), r),
        call_ensures(Config::lacks_key, (&c, has_key), lacks),
    ensures
        r.toggle && r.live_paste && !r.want_preview && !r.preview_on,
        !lacks,
        c.service.enabled && c.paste_back && !c.raw,
{
    reveal_strlit("toggle");
    reveal_strlit("auto");
    reveal_strlit("groq");
    assert("auto"@[0] == 'a' && "groq"@[0] == 'g');
    assert(ascii_lowered("toggle"@) =~= "toggle"@);
}

/// The settings of cutting and trimming are those of the configuration.
pub proof fn law_cutting_follows_the_configuration(
    v: VoiceInputConfig,
    stream: StreamConfig,
    trim: TrimConfig,
)
    requires
        call_ensures(VoiceInputConfig::to_stream, (&v,), stream),
        call_ensures(VoiceInputConfig::to_trim, (&v,), trim),
    ensures
        stream.enabled == v.stream_chunks_enabled && stream.pause_ms == v.stream_pause_ms
            && stream.min_segment_ms == v.stream_min_segment_ms,
        trim.enabled == v.trim_silence_enabled && trim.min_silence_ms == v.trim_silence_min_ms,
{
}

/// A key that all programs share is found where it stands, in the settings of Groq among the
/// providers.
pub proof fn law_shared_key_is_found(
    file: &[u8],
    doc: Value,
    providers: Value,
    groq: Value,
    key: Seq<char>,
    r: Option<String>,
)
    requires
        call_ensures(shared_key, (file,), r),
        document(file@) == Some(doc),
        member(doc, "providers"@) == Some(providers),
        member(providers, "groq"@) == Some(groq),
        member_text(groq, "api_key"@) == Some(key),
    ensures
        r is Some <==> key.len() > 0 && !starts_with(key, "REPLACE"@),
        r matches Some(k) ==> k@ == key,
{
}

} // verus!
