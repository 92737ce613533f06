//! From a recording to a text: which recogniser is asked, and what becomes of what it says.
use crate::audio::{is_worth_sending, worth_sending, Encoded};
use crate::text::{blank, concat, is_blank, owned, same};
use vstd::prelude::*;

verus! {

// ---------------------------------------------------------------------------------------------
// Recognisers
// ---------------------------------------------------------------------------------------------

/// A recogniser.
#[derive(Debug, Clone, Copy, PartialEq, Eq, Structural)]
pub enum Engine {
    /// The whisper server on this machine.
    Local,
    /// Groq.
    Groq,
}

/// What is said where Groq is to be asked and there is no key for it.
pub const NO_KEY: &'static str = "backend=groq 但無 Groq API key";

/// The recognisers that a backend asks, one after the other until one has a transcript. Any other
/// name than `groq` and `local` means both, this machine first.
pub open spec fn engines_of(backend: Seq<char>, has_key: bool) -> Seq<Engine> {
    if backend == "groq"@ {
        if has_key {
            seq![Engine::Groq]
        } else {
            seq![]
        }
    } else if backend == "local"@ || !has_key {
        seq![Engine::Local]
    } else {
        seq![Engine::Local, Engine::Groq]
    }
}

/// The recognisers of a backend, while they are asked.
pub struct Attempts {
    engines: Vec<Engine>,
    asked: usize,
    outcomes: Ghost<Seq<Result<String, String>>>,
}

impl Attempts {
    /// The recognisers.
    pub closed spec fn engines(self) -> Seq<Engine> {
        self.engines@
    }

    /// What those that have been asked came to.
    pub closed spec fn outcomes(self) -> Seq<Result<String, String>> {
        self.outcomes@
    }

    /// Those that have been asked have failed, and one is still to be asked.
    pub closed spec fn wf(self) -> bool {
        &&& self.asked == self.outcomes@.len()
        &&& self.asked < self.engines@.len()
        &&& forall|i: int| 0 <= i < self.asked ==> (#[trigger] self.outcomes@[i]) is Err
    }

    /// The recognisers of a backend, of which none has been asked.
    pub fn new(backend: &str, has_key: bool) -> (r: Result<Attempts, String>)
        ensures
            match r {
                Ok(a) => a.wf() && a.outcomes().len() == 0 && a.engines() == engines_of(
                    backend@,
                    has_key,
                ),
                Err(m) => m@ == NO_KEY@ && engines_of(backend@, has_key).len() == 0,
            },
            r is Err <==> backend@ == "groq"@ && !has_key,
    {
        proof {
            reveal_strlit("groq");
            reveal_strlit("local");
            assert("groq"@.len() != "local"@.len());
        }
        let engines: Vec<Engine> = if same(backend, "groq") {
            if !has_key {
                return Err(owned(NO_KEY));
            }
            vec![Engine::Groq]
        } else if same(backend, "local") || !has_key {
            vec![Engine::Local]
        } else {
            vec![Engine::Local, Engine::Groq]
        };
        assert(engines@ =~= engines_of(backend@, has_key));
        Ok(Attempts { engines, asked: 0, outcomes: Ghost(Seq::empty()) })
    }

    /// The recogniser to ask now.
    pub fn current(&self) -> (r: Engine)
        requires
            self.wf(),
        ensures
            self.outcomes().len() < self.engines().len(),
            r == self.engines()[self.outcomes().len() as int],
    {
        self.engines[self.asked]
    }

    /// Takes what the recogniser came to. There is a result if it has a transcript, or if there is
    /// no other to ask; else the next one is to be asked.
    pub fn report(&mut self, outcome: Result<String, String>) -> (r: Option<Result<String, String>>)
        requires
            old(self).wf(),
        ensures
            final(self).engines() == old(self).engines(),
            final(self).outcomes() == old(self).outcomes().push(outcome),
            r is None <==> outcome is Err && old(self).outcomes().len() + 1
                < old(self).engines().len(),
            r is None ==> final(self).wf(),
            r matches Some(x) ==> x == settled(final(self).outcomes()),
    {
        proof {
            lemma_settled_last(self.outcomes@.push(outcome));
        }
        self.outcomes = Ghost(self.outcomes@.push(outcome));
        match outcome {
            Ok(text) => Some(Ok(text)),
            Err(e) => {
                if self.engines.len() - self.asked > 1 {
                    self.asked = self.asked + 1;
                    None
                } else {
                    Some(Err(e))
                }
            },
        }
    }
}

proof fn lemma_settled_last<T, E>(outcomes: Seq<Result<T, E>>)
    requires
        outcomes.len() > 0,
        forall|i: int| 0 <= i < outcomes.len() - 1 ==> (#[trigger] outcomes[i]) is Err,
    ensures
        settled(outcomes) == outcomes.last(),
    decreases outcomes.len(),
{
    if outcomes.len() > 1 {
        let rest = outcomes.drop_first();
        assert forall|i: int| 0 <= i < rest.len() - 1 implies (#[trigger] rest[i]) is Err by {
            assert(rest[i] == outcomes[i + 1]);
        }
        lemma_settled_last(rest);
    }
}

/// What asking recognisers one after the other comes to, where `replies` is what they say: the
/// first transcript, or the last failure.
pub open spec fn settled<T, E>(replies: Seq<Result<T, E>>) -> Result<T, E>
    decreases replies.len(),
{
    if replies.len() <= 1 || replies[0] is Ok {
        replies[0]
    } else {
        settled(replies.drop_first())
    }
}

/// With the backend `local` nothing but this machine is asked, whatever happens: no recording
/// leaves it.
pub proof fn law_local_never_asks_groq(has_key: bool)
    ensures
        engines_of("local"@, has_key) == seq![Engine::Local],
{
    reveal_strlit("groq");
    reveal_strlit("local");
    assert("groq"@.len() != "local"@.len());
}

/// This machine is asked first unless the backend is `groq`, and Groq only with a key.
pub proof fn law_this_machine_first(backend: Seq<char>, has_key: bool)
    ensures
        backend != "groq"@ ==> engines_of(backend, has_key)[0] == Engine::Local,
        engines_of(backend, has_key).contains(Engine::Groq) ==> has_key,
        engines_of(backend, has_key).len() == 0 <==> backend == "groq"@ && !has_key,
{
}

/// With any other backend than `groq` and `local`, Groq decides only where this machine has
/// failed, and a failure without a key is this machine's.
pub proof fn law_fallback<T, E>(
    backend: Seq<char>,
    has_key: bool,
    local: Result<T, E>,
    groq: Result<T, E>,
)
    requires
        backend != "groq"@,
        backend != "local"@,
    ensures
        ({
            let replies = engines_of(backend, has_key).map_values(
                |e: Engine|
                    if e == Engine::Local {
                        local
                    } else {
                        groq
                    },
            );
            settled(replies) == if local is Ok || !has_key {
                local
            } else {
                groq
            }
        }),
{
    reveal_with_fuel(settled, 2);
    let replies = engines_of(backend, has_key).map_values(
        |e: Engine|
            if e == Engine::Local {
                local
            } else {
                groq
            },
    );
    if has_key {
        assert(replies.drop_first()[0] == groq);
    }
}

// ---------------------------------------------------------------------------------------------
// Cleaning up
// ---------------------------------------------------------------------------------------------

/// Whether a transcript is cleaned up.
pub open spec fn is_cleaned_up(skip_cleanup: bool, has_key: bool) -> bool {
    !skip_cleanup && has_key
}

/// What becomes of a transcript.
#[derive(Debug)]
pub enum Next {
    /// It is cleaned up.
    CleanUp(String),
    /// It is used as it is.
    Use(String),
    /// There is nothing to use.
    Drop,
}

/// What becomes of a transcript: it is cleaned up, unless that is not wanted or cannot be done.
pub open spec fn next_of(raw: String, skip_cleanup: bool, has_key: bool) -> Next {
    if is_cleaned_up(skip_cleanup, has_key) {
        Next::CleanUp(raw)
    } else {
        Next::Use(raw)
    }
}

/// What becomes of the transcript of something said: it is dropped where there is none or it is
/// blank.
pub open spec fn next_said(outcome: Result<String, String>, skip_cleanup: bool, has_key: bool) -> Next {
    match outcome {
        Ok(raw) => if is_blank(raw@) {
            Next::Drop
        } else {
            next_of(raw, skip_cleanup, has_key)
        },
        Err(_) => Next::Drop,
    }
}

/// The text to use, where cleaning up came to `outcome`: where it failed, the raw transcript.
pub open spec fn cleaned_or(raw: String, outcome: Result<String, String>) -> String {
    match outcome {
        Ok(clean) => clean,
        Err(_) => raw,
    }
}

/// Whether a recording is transcribed at all: see [`is_worth_sending`].
pub fn gate(file: &[u8], enc: &Encoded) -> (r: bool)
    ensures
        r == is_worth_sending(file@.len(), *enc),
{
    worth_sending(file, enc)
}

/// Why a file with these contents is not transcribed, if it is not: it is empty.
pub fn input_refusal(path: &str, contents: &[u8]) -> (r: Option<String>)
    ensures
        match r {
            Some(m) => contents@.len() == 0 && m@ == "input file 是空檔:"@ + path@,
            None => contents@.len() > 0,
        },
{
    if contents.len() == 0 {
        Some(concat("input file 是空檔:", path))
    } else {
        None
    }
}

/// What becomes of the transcript of a file or of a request.
pub fn after_transcript(raw: String, skip_cleanup: bool, has_key: bool) -> (r: Next)
    ensures
        r == next_of(raw, skip_cleanup, has_key),
{
    if skip_cleanup || !has_key {
        Next::Use(raw)
    } else {
        Next::CleanUp(raw)
    }
}

/// What becomes of the transcript of something said.
pub fn after_stt(outcome: Result<String, String>, skip_cleanup: bool, has_key: bool) -> (r: Next)
    ensures
        r == next_said(outcome, skip_cleanup, has_key),
{
    match outcome {
        Ok(raw) => if blank(raw.as_str()) {
            Next::Drop
        } else {
            after_transcript(raw, skip_cleanup, has_key)
        },
        Err(_) => Next::Drop,
    }
}

/// The text to use, where cleaning up came to `outcome`.
pub fn after_cleanup(raw: String, outcome: Result<String, String>) -> (r: String)
    ensures
        r == cleaned_or(raw, outcome),
{
    match outcome {
        Ok(clean) => clean,
        Err(_) => raw,
    }
}

/// How far the transcription of something said has come.
#[derive(Debug)]
pub enum Stage {
    /// A recogniser has been asked.
    Transcribing,
    /// This transcript is being cleaned up.
    CleaningUp(String),
}

/// What came of it.
#[derive(Debug)]
pub enum Came {
    /// What the recognisers came to.
    Transcript(Result<String, String>),
    /// What cleaning up came to.
    Cleaned(Result<String, String>),
    /// The time for both together is over.
    Overdue,
}

/// What becomes of something said, where `came` came of `stage`. What is overdue is given up. A
/// reply that does not belong to the stage is not used either.
pub open spec fn next_after(stage: Stage, came: Came, skip_cleanup: bool, has_key: bool) -> Next {
    match (stage, came) {
        (_, Came::Overdue) => Next::Drop,
        (Stage::Transcribing, Came::Transcript(o)) => next_said(o, skip_cleanup, has_key),
        (Stage::CleaningUp(raw), Came::Cleaned(o)) => Next::Use(cleaned_or(raw, o)),
        _ => Next::Drop,
    }
}

/// The next step with something said. One limit of time holds for transcribing it and cleaning it
/// up together.
pub fn advance(stage: Stage, came: Came, skip_cleanup: bool, has_key: bool) -> (r: Next)
    ensures
        r == next_after(stage, came, skip_cleanup, has_key),
{
    match (stage, came) {
        (Stage::Transcribing, Came::Transcript(o)) => after_stt(o, skip_cleanup, has_key),
        (Stage::CleaningUp(raw), Came::Cleaned(o)) => Next::Use(after_cleanup(raw, o)),
        _ => Next::Drop,
    }
}

/// The limit holds for transcribing and cleaning up together: what is overdue in either is given
/// up, and nothing else that was transcribed is.
pub proof fn law_one_limit_for_both(
    raw: String,
    cleaned: Result<String, String>,
    skip_cleanup: bool,
    has_key: bool,
)
    requires
        !is_blank(raw@),
    ensures
        next_after(Stage::Transcribing, Came::Overdue, skip_cleanup, has_key) is Drop,
        next_after(Stage::CleaningUp(raw), Came::Overdue, skip_cleanup, has_key) is Drop,
        !(next_after(
            Stage::Transcribing,
            Came::Transcript(Ok(raw)),
            skip_cleanup,
            has_key,
        ) is Drop),
        !(next_after(Stage::CleaningUp(raw), Came::Cleaned(cleaned), skip_cleanup, has_key) is Drop),
{
}

/// A clean-up that fails, or is not made, loses nothing: what was recognised is used as it is.
pub proof fn law_failed_cleanup_loses_nothing(
    raw: String,
    why: String,
    skip_cleanup: bool,
    has_key: bool,
)
    requires
        !is_blank(raw@),
    ensures
        match next_said(Ok::<String, String>(raw), skip_cleanup, has_key) {
            Next::CleanUp(t) => cleaned_or(t, Err::<String, String>(why)) == raw,
            Next::Use(t) => t == raw,
            Next::Drop => false,
        },
{
}

// ---------------------------------------------------------------------------------------------
// What a recording comes to
// ---------------------------------------------------------------------------------------------

/// A recording is transcribed exactly where it is worth sending.
pub proof fn law_gate_keeps_back_what_is_not_worth_sending(
    file: &[u8],
    enc: Encoded,
    r: bool,
    s: bool,
)
    requires
        call_ensures(gate, (file, &enc), r),
        call_ensures(worth_sending, (file, &enc), s),
    ensures
        r == s,
{
}

/// The backend `groq` asks Groq alone, and only with a key; `local` this machine alone; any other
/// this machine and then Groq, where there is a key for it.
pub proof fn law_backends_ask(backend: &str, has_key: bool, r: Attempts)
    requires
        call_ensures(Attempts::new, (backend, has_key), Ok::<Attempts, String>(r)),
    ensures
        r.outcomes().len() == 0,
        backend@ == "groq"@ ==> has_key && r.engines() == seq![Engine::Groq],
        backend@ == "local"@ ==> r.engines() == seq![Engine::Local],
        backend@ != "groq"@ && backend@ != "local"@ ==> r.engines() == if has_key {
            seq![Engine::Local, Engine::Groq]
        } else {
            seq![Engine::Local]
        },
{
    reveal_strlit("groq");
    reveal_strlit("local");
    assert("groq"@.len() != "local"@.len());
}

/// Recognisers that are asked one after the other come to the first transcript, and to the last
/// failure where there is none.
pub proof fn law_first_transcript_counts<T, E>(replies: Seq<Result<T, E>>, i: int)
    requires
        replies.len() > 0,
    ensures
        0 <= i < replies.len() && replies[i] is Ok && (forall|k: int|
            0 <= k < i ==> (#[trigger] replies[k]) is Err) ==> settled(replies) == replies[i],
        (forall|k: int| 0 <= k < replies.len() ==> (#[trigger] replies[k]) is Err) ==> settled(
            replies,
        ) == replies.last(),
    decreases replies.len(),
{
    if replies.len() > 1 && replies[0] is Err {
        law_first_transcript_counts(replies.drop_first(), i - 1);
        assert(replies.drop_first().last() == replies.last());
        assert forall|k: int| 0 <= k < replies.len() - 1 implies replies.drop_first()[k]
            == #[trigger] replies[k + 1] by {}
        if 0 < i < replies.len() {
            assert(replies.drop_first()[i - 1] == replies[i]);
        }
        if forall|k: int| 0 <= k < replies.len() ==> (#[trigger] replies[k]) is Err {
            assert forall|k: int| 0 <= k < replies.drop_first().len() implies (
            #[trigger] replies.drop_first()[k]) is Err by {
                assert(replies[k + 1] is Err);
            }
        }
        if 0 <= i < replies.len() && replies[i] is Ok && (forall|k: int|
            0 <= k < i ==> (#[trigger] replies[k]) is Err) {
            assert forall|k: int| 0 <= k < i - 1 implies (#[trigger] replies.drop_first()[k])
                is Err by {
                assert(replies[k + 1] is Err);
            }
        }
    }
}

/// What was said is cleaned up exactly where that is wanted and there is a key for it; else it is
/// used as it is. Nothing is made of silence or of a failure.
pub proof fn law_cleaned_up_where_wanted(
    outcome: Result<String, String>,
    skip_cleanup: bool,
    has_key: bool,
    r: Next,
)
    requires
        call_ensures(after_stt, (outcome, skip_cleanup, has_key), r),
    ensures
        outcome is Err ==> r is Drop,
        outcome matches Ok(t) ==> (is_blank(t@) <==> r is Drop),
        outcome matches Ok(t) ==> !is_blank(t@) && !skip_cleanup && has_key ==> r == Next::CleanUp(t),
        outcome matches Ok(t) ==> !is_blank(t@) && (skip_cleanup || !has_key) ==> r == Next::Use(t),
{
}

/// The transcript of a file or of a request is cleaned up exactly where that is wanted and there is
/// a key for it; else it is used as it is, and it is never dropped.
pub proof fn law_requests_are_cleaned_up_where_wanted(
    raw: String,
    skip_cleanup: bool,
    has_key: bool,
    r: Next,
)
    requires
        call_ensures(after_transcript, (raw, skip_cleanup, has_key), r),
    ensures
        !skip_cleanup && has_key ==> r == Next::CleanUp(raw),
        skip_cleanup || !has_key ==> r == Next::Use(raw),
{
}

/// What cleaning up gives is used, and the raw transcript only where it failed.
pub proof fn law_cleaned_text_is_used(raw: String, outcome: Result<String, String>, r: String)
    requires
        call_ensures(after_cleanup, (raw, outcome), r),
    ensures
        outcome matches Ok(t) ==> r == t,
        outcome is Err ==> r == raw,
{
}

/// Step by step, something said comes to what it comes to at once: its transcript, cleaned up where
/// that is wanted. What is overdue comes to nothing.
pub proof fn law_steps_come_to_the_text(
    raw: String,
    cleaned: Result<String, String>,
    skip_cleanup: bool,
    has_key: bool,
    first: Next,
    second: Next,
    late: Next,
    stage: Stage,
)
    requires
        !is_blank(raw@),
        call_ensures(
            advance,
            (
                Stage::Transcribing,
                Came::Transcript(Ok::<String, String>(raw)),
                skip_cleanup,
                has_key,
            ),
            first,
        ),
        call_ensures(
            advance,
            (Stage::CleaningUp(raw), Came::Cleaned(cleaned), skip_cleanup, has_key),
            second,
        ),
        call_ensures(advance, (stage, Came::Overdue, skip_cleanup, has_key), late),
    ensures
        late is Drop,
        !skip_cleanup && has_key ==> first == Next::CleanUp(raw),
        skip_cleanup || !has_key ==> first == Next::Use(raw),
        cleaned matches Ok(t) ==> second == Next::Use(t),
        cleaned is Err ==> second == Next::Use(raw),
{
}

/// A file is refused exactly where there is nothing in it, and named.
pub proof fn law_only_empty_files_are_refused(path: &str, contents: &[u8], r: Option<String>)
    requires
        call_ensures(input_refusal, (path, contents), r),
    ensures
        r is Some <==> contents@.len() == 0,
        r matches Some(m) ==> crate::text::ends_with(m@, path@),
{
    if r is Some {
        let m = r->0@;
        assert(m.skip(m.len() - path@.len()) =~= path@);
    }
}

} // verus!
