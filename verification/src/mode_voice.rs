//! The spoken feedback to a mode command: which file is played, and which files can be.
use crate::mode_command::Settings;
use crate::text::{concat3, same};
use crate::voice_activity::Pcm;
use crate::wav;
use vstd::prelude::*;

verus! {

/// Feedback to give.
#[derive(Debug)]
pub struct Feedback {
    pub mode: String,
    /// Whether the mode was switched to, or only asked for.
    pub switched: bool,
    pub settings: Settings,
}

/// A voice that comes with the program.
#[derive(Debug, Clone, Copy, PartialEq, Eq, Structural)]
pub enum Voice {
    Auto,
    Groq,
    Local,
    Error,
}

/// Where the user may put a voice of their own for a mode, below the home directory.
pub fn custom_path(mode: &str) -> (r: String)
    ensures
        r@ == ".mori/mori-ear/voices/"@ + mode@ + ".wav"@,
{
    concat3(".mori/mori-ear/voices/", mode, ".wav")
}

/// The voice for a mode that the user has no voice for.
pub fn bundled(mode: &str) -> (r: Option<Voice>)
    ensures
        r == if mode@ == "auto"@ {
            Some(Voice::Auto)
        } else if mode@ == "groq"@ {
            Some(Voice::Groq)
        } else if mode@ == "local"@ {
            Some(Voice::Local)
        } else if mode@ == "error"@ {
            Some(Voice::Error)
        } else {
            None
        },
{
    if same(mode, "auto") {
        Some(Voice::Auto)
    } else if same(mode, "groq") {
        Some(Voice::Groq)
    } else if same(mode, "local") {
        Some(Voice::Local)
    } else if same(mode, "error") {
        Some(Voice::Error)
    } else {
        None
    }
}

/// Why a file cannot be played.
#[derive(Debug, Clone, Copy, PartialEq, Eq, Structural)]
pub enum CueError {
    /// It is no WAV file.
    Unreadable,
    /// Its samples are not integers of 16 bit.
    NotPcm16,
    /// Its samples cannot be read.
    BadSamples,
    /// It is empty or longer than 30 seconds.
    BadLength,
}

impl CueError {
    /// The reason in words.
    pub fn message(&self) -> (r: &'static str)
        ensures
            r@ == match self {
                CueError::Unreadable => "提示音不是 WAV"@,
                CueError::NotPcm16 => "提示音需為 16-bit PCM WAV"@,
                CueError::BadSamples => "提示音樣本讀取失敗"@,
                CueError::BadLength => "提示音長度必須介於 0 到 30 秒"@,
            },
    {
        match self {
            CueError::Unreadable => "提示音不是 WAV",
            CueError::NotPcm16 => "提示音需為 16-bit PCM WAV",
            CueError::BadSamples => "提示音樣本讀取失敗",
            CueError::BadLength => "提示音長度必須介於 0 到 30 秒",
        }
    }
}

/// Why a file cannot be played, if it cannot.
pub open spec fn fault(file: Seq<u8>) -> Option<CueError> {
    match wav::header_of(file) {
        None => Some(CueError::Unreadable),
        Some(h) => if h.float || h.bits_per_sample != 16 || h.channels == 0 || h.sample_rate == 0 {
            Some(CueError::NotPcm16)
        } else {
            match wav::samples_of(file) {
                None => Some(CueError::BadSamples),
                Some(s) => if s.len() < h.channels || s.len() / (h.channels as nat) > h.sample_rate
                    * 30 {
                    Some(CueError::BadLength)
                } else {
                    None
                },
            }
        },
    }
}

/// Reads a voice.
pub fn decode(file: &[u8]) -> (r: Result<Pcm, CueError>)
    ensures
        match fault(file@) {
            Some(e) => r == Err::<Pcm, CueError>(e),
            None => r matches Ok(p) && p.rate == wav::header_of(file@)->0.sample_rate && p.channels
                == wav::header_of(file@)->0.channels && Some(p.samples@) == wav::samples_of(file@),
        },
        r matches Ok(p) ==> p.channels > 0 && p.rate > 0,
{
    let h = match wav::read_header(file) {
        Ok(h) => h,
        Err(_) => return Err(CueError::Unreadable),
    };
    if h.float || h.bits_per_sample != 16 || h.channels == 0 || h.sample_rate == 0 {
        return Err(CueError::NotPcm16);
    }
    let samples = match wav::read_samples(file) {
        Ok(s) => s,
        Err(_) => return Err(CueError::BadSamples),
    };
    let n: usize = samples.len();
    let frames: u64 = n as u64 / h.channels as u64;
    if n < h.channels as usize || frames > h.sample_rate as u64 * 30 {
        return Err(CueError::BadLength);
    }
    Ok(Pcm { rate: h.sample_rate, channels: h.channels, samples })
}

/// Each mode has the voice that says it, a failure its own, and nothing else has one.
pub proof fn law_modes_have_their_voices(mode: &str, r: Option<Voice>)
    requires
        call_ensures(bundled, (mode,), r),
    ensures
        r == Some(Voice::Auto) <==> mode@ == "auto"@,
        r == Some(Voice::Groq) <==> mode@ == "groq"@,
        r == Some(Voice::Local) <==> mode@ == "local"@,
        r == Some(Voice::Error) <==> mode@ == "error"@,
{
    reveal_strlit("auto");
    reveal_strlit("groq");
    reveal_strlit("local");
    reveal_strlit("error");
    assert("auto"@[0] == 'a' && "groq"@[0] == 'g' && "local"@[0] == 'l' && "error"@[0] == 'e');
}

/// The user's voice for a mode is found by the mode's name, and those of two modes are two files.
pub proof fn law_voices_are_found_by_mode(a: &str, b: &str, r: String, s: String)
    requires
        call_ensures(custom_path, (a,), r),
        call_ensures(custom_path, (b,), s),
    ensures
        r@ == s@ <==> a@ == b@,
{
    let dir = ".mori/mori-ear/voices/"@;
    let ext = ".wav"@;
    assert((dir + a@ + ext).subrange(dir.len() as int, (dir + a@ + ext).len() - ext.len()) =~= a@);
    assert((dir + b@ + ext).subrange(dir.len() as int, (dir + b@ + ext).len() - ext.len()) =~= b@);
}

/// A voice that is played lasts at least one frame and at most 30 seconds, whatever its rate and its
/// channels; a longer one and an empty one are refused as such.
pub proof fn law_voices_last_at_most_30_seconds(
    file: &[u8],
    h: wav::Header,
    samples: Seq<i16>,
    r: Result<Pcm, CueError>,
)
    requires
        call_ensures(decode, (file,), r),
        wav::header_of(file@) == Some(h),
        wav::samples_of(file@) == Some(samples),
        samples.len() % (h.channels as nat) == 0,
        !h.float,
        h.bits_per_sample == 16,
        h.channels > 0,
        h.sample_rate > 0,
    ensures
        r is Ok <==> samples.len() > 0 && samples.len() <= 30 * (h.sample_rate * h.channels),
        r is Err ==> r == Err::<Pcm, CueError>(CueError::BadLength),
        r matches Ok(p) ==> p.rate == h.sample_rate && p.channels == h.channels && p.samples@
            == samples,
{
    let n = samples.len() as int;
    let c = h.channels as int;
    let k = n / c;
    assert(n == k * c) by (nonlinear_arith)
        requires
            k == n / c,
            n % c == 0,
            c > 0,
    ;
    assert((k > h.sample_rate * 30) == (n > 30 * (h.sample_rate * c))) by (nonlinear_arith)
        requires
            n == k * c,
            c > 0,
    ;
    if n > 0 {
        assert(k >= 1) by (nonlinear_arith)
            requires
                n == k * c,
                n > 0,
                c > 0,
        ;
        assert(n >= c) by (nonlinear_arith)
            requires
                n == k * c,
                k >= 1,
                c > 0,
        ;
    }
}

/// A file that cannot be played is refused for what is wrong with it.
pub proof fn law_faults_of_a_voice(file: &[u8], h: wav::Header, r: Result<Pcm, CueError>)
    requires
        call_ensures(decode, (file,), r),
    ensures
        wav::header_of(file@) is None <==> r == Err::<Pcm, CueError>(CueError::Unreadable),
        wav::header_of(file@) == Some(h) && (h.float || h.bits_per_sample != 16 || h.channels == 0
            || h.sample_rate == 0) ==> r == Err::<Pcm, CueError>(CueError::NotPcm16),
        wav::header_of(file@) == Some(h) && !h.float && h.bits_per_sample == 16 && h.channels > 0
            && h.sample_rate > 0 && wav::samples_of(file@) is None ==> r == Err::<Pcm, CueError>(
            CueError::BadSamples,
        ),
{
}

} // verus!
