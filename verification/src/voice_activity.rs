//! Whether somebody speaks. This never cuts words off nor decides where a recording ends.
//!
//! Each frame of 20 ms gets a vote, and speech is confirmed by ten of the last twenty-five: one
//! click is no speech.
use crate::local_stt::WavError;
use crate::wav;
use std::collections::VecDeque;
use vstd::prelude::*;
use vstd::slice::{slice_subrange, slice_to_vec};
use webrtc_vad::Vad;

verus! {

/// How many votes are counted.
pub const VOTES: usize = 25;

/// How many of them confirm speech.
pub const ENOUGH: usize = 10;

/// How many samples the detector takes at a time: 20 ms at 16 kHz.
pub const FRAME: usize = 320;

/// `webrtc_vad::Vad`, a voice detector with a memory.
#[verifier::external_type_specification]
#[verifier::external_body]
pub struct ExVad(webrtc_vad::Vad);

/// The frames that a voice detector has been given since it was made, the first one first.
pub uninterp spec fn heard(v: Vad) -> Seq<Seq<i16>>;

/// Whether a detector that is made for 16 kHz and aggressive decisions finds voice in the last of
/// the frames, having been given the others before it.
pub uninterp spec fn voiced(frames: Seq<Seq<i16>>) -> bool;

/// Whether a detector for 16 kHz takes frames of this length: 10, 20 or 30 ms.
pub open spec fn is_frame_len(len: nat) -> bool {
    len == 160 || len == 320 || len == 480
}

/// `Vad::new_with_rate_and_mode` for 16 kHz and aggressive decisions: a detector that has been
/// given no frame.
#[verifier::external_body]
fn new_vad() -> (r: Vad)
    ensures
        heard(r) == Seq::<Seq<i16>>::empty(),
{
    Vad::new_with_rate_and_mode(
        webrtc_vad::SampleRate::Rate16kHz,
        webrtc_vad::VadMode::Aggressive,
    )
}

/// `Vad::is_voice_segment` of a detector made by [`new_vad`]: the decision depends on the frames
/// given so far and this one alone, and this one is remembered. A frame of another length is
/// refused.
#[verifier::external_body]
fn is_voice(vad: &mut Vad, frame: &[i16]) -> (r: Result<bool, ()>)
    requires
        frame@.len() > 0,
    ensures
        r is Ok <==> is_frame_len(frame@.len()),
        r matches Ok(b) ==> b == voiced(heard(*old(vad)).push(frame@)),
        heard(*final(vad)) == if is_frame_len(frame@.len()) {
            heard(*old(vad)).push(frame@)
        } else {
            heard(*old(vad))
        },
{
    vad.is_voice_segment(frame)
}

/// A frame at 16 kHz.
#[derive(Debug)]
pub struct Frame {
    /// Its samples, [`FRAME`] of them.
    pub pcm: Vec<i16>,
    /// Whether it is loud enough to be speech.
    pub loud: bool,
}

/// The samples of the frames.
pub open spec fn pcms(frames: Seq<Frame>) -> Seq<Seq<i16>> {
    frames.map_values(|f: Frame| f.pcm@)
}

/// The vote on each frame: it is loud, and the detector, given `before` first, finds voice in it.
pub open spec fn votes_on(before: Seq<Seq<i16>>, frames: Seq<Frame>) -> Seq<bool> {
    Seq::new(
        frames.len(),
        |k: int| voiced(before + pcms(frames).take(k + 1)) && frames[k].loud,
    )
}

/// How many votes are for speech.
pub open spec fn count(votes: Seq<bool>) -> nat
    decreases votes.len(),
{
    if votes.len() == 0 {
        0
    } else {
        count(votes.drop_last()) + if votes.last() {
            1
        } else {
            0nat
        }
    }
}

/// The last [`VOTES`] of the first `end` votes.
pub open spec fn window(votes: Seq<bool>, end: int) -> Seq<bool> {
    votes.subrange(
        if end < VOTES {
            0
        } else {
            end - VOTES
        },
        end,
    )
}

/// Whether vote `k` is for speech and confirms it.
pub open spec fn confirms(votes: Seq<bool>, k: int) -> bool {
    votes[k] && count(window(votes, k + 1)) >= ENOUGH
}

/// Whether speech is confirmed in one of the frames, by a detector that was given `before` first
/// and remembers the votes `remembered`.
pub open spec fn finds(before: Seq<Seq<i16>>, remembered: Seq<bool>, frames: Seq<Frame>) -> bool {
    exists|k: int|
        remembered.len() <= k < remembered.len() + frames.len() && #[trigger] confirms(
            remembered + votes_on(before, frames),
            k,
        )
}

/// The votes that such a detector remembers when it has been given the frames too.
pub open spec fn votes_after(
    before: Seq<Seq<i16>>,
    remembered: Seq<bool>,
    frames: Seq<Frame>,
) -> Seq<bool> {
    window(
        remembered + votes_on(before, frames),
        remembered.len() as int + frames.len(),
    )
}

/// The whole frames of `len` samples in a run of samples.
pub open spec fn frames_in<T>(samples: Seq<T>, len: int) -> Seq<Seq<T>> {
    Seq::new(
        (samples.len() as int / len) as nat,
        |k: int| samples.subrange(k * len, k * len + len),
    )
}

/// The samples after the whole frames.
pub open spec fn left_over<T>(samples: Seq<T>, len: int) -> Seq<T> {
    samples.skip(samples.len() as int / len * len)
}

/// The samples of each of the vectors.
pub open spec fn contents<T>(list: Seq<Vec<T>>) -> Seq<Seq<T>> {
    list.map_values(|v: Vec<T>| v@)
}

/// A detector of speech in a recording.
pub struct Detector {
    vad: Vad,
    votes: VecDeque<bool>,
    rate: u32,
    channels: u16,
}

impl Detector {
    /// The frames that it has been given.
    pub closed spec fn heard(self) -> Seq<Seq<i16>> {
        heard(self.vad)
    }

    /// The votes that it remembers.
    pub closed spec fn votes(self) -> Seq<bool> {
        self.votes@
    }

    /// How many samples of the recording, of all channels, are one frame.
    pub closed spec fn frame_samples(self) -> int {
        (if self.rate / 50 == 0 {
            1
        } else {
            (self.rate / 50) as int
        }) * self.channels
    }

    /// It remembers no more votes than count.
    pub closed spec fn wf(self) -> bool {
        self.votes@.len() <= VOTES
    }

    /// A detector for a recording of this many samples a second and channels.
    pub fn new(rate: u32, channels: u16) -> (r: Detector)
        ensures
            r.wf(),
            r.heard() == Seq::<Seq<i16>>::empty(),
            r.votes() == Seq::<bool>::empty(),
            r.frame_samples() == (if rate / 50 == 0 {
                1
            } else {
                (rate / 50) as int
            }) * channels,
    {
        Detector { vad: new_vad(), votes: VecDeque::new(), rate, channels }
    }

    /// How many samples of the recording, of all channels, are one frame.
    pub fn frame_len(&self) -> (r: u64)
        ensures
            r == self.frame_samples(),
    {
        let per: u32 = self.rate / 50;
        let one: u64 = if per == 0 {
            1
        } else {
            per as u64
        };
        assert(0 <= one * self.channels <= 0xffff_ffff * 0xffff) by (nonlinear_arith)
            requires
                0 <= one <= 0xffff_ffff,
                0 <= self.channels <= 0xffff,
        ;
        one * (self.channels as u64)
    }

    /// How many of `pending` samples make whole frames; the others wait for more.
    pub fn whole(&self, pending: usize) -> (r: usize)
        requires
            self.frame_samples() > 0,
        ensures
            r == pending as int / self.frame_samples() * self.frame_samples(),
            r <= pending,
    {
        let len: u64 = self.frame_len();
        let left: u64 = pending as u64 % len;
        proof {
            let p = pending as int;
            let l = len as int;
            assert(p - p % l == p / l * l && 0 <= p % l <= p) by (nonlinear_arith)
                requires
                    l > 0,
                    p >= 0,
            ;
        }
        pending - left as usize
    }

    /// Takes the next block of a recording, of which `pending` samples wait already, and cuts it
    /// into whole frames. The samples after them wait for more.
    pub fn cut<T: Copy>(&self, pending: &mut Vec<T>, block: &[T]) -> (r: Vec<Vec<T>>)
        requires
            self.frame_samples() > 0,
        ensures
            contents(r@) == frames_in(old(pending)@ + block@, self.frame_samples()),
            final(pending)@ == left_over(old(pending)@ + block@, self.frame_samples()),
    {
        let ghost all = pending@ + block@;
        let ghost len = self.frame_samples();
        let ghost first = pending@;
        let mut i: usize = 0;
        assert(block@.take(0) =~= seq![]);
        while i < block.len()
            invariant
                i <= block@.len(),
                pending@ =~= first + block@.take(i as int),
            decreases block@.len() - i,
        {
            pending.push(block[i]);
            i = i + 1;
        }
        assert(pending@ =~= all);
        let size: u64 = self.frame_len();
        let end: usize = self.whole(pending.len());
        let ghost count = all.len() as int / len;
        let mut out: Vec<Vec<T>> = Vec::new();
        let mut at: usize = 0;
        proof {
            assert(0 <= count) by (nonlinear_arith)
                requires
                    count == all.len() as int / len,
                    len > 0,
            ;
            assert(0 * len == 0);
            if size > usize::MAX {
                assert(count == 0) by (nonlinear_arith)
                    requires
                        count == all.len() as int / len,
                        0 <= all.len() < len,
                ;
            }
        }
        while at < end
            invariant
                len > 0,
                size == len,
                end == count * len,
                end <= all.len(),
                pending@ == all,
                out@.len() <= count,
                at == out@.len() * len,
                forall|k: int|
                    0 <= k < out@.len() ==> (#[trigger] out@[k])@ == all.subrange(
                        k * len,
                        k * len + len,
                    ),
            decreases end - at,
        {
            let ghost k = out@.len() as int;
            proof {
                assert(k < count) by (nonlinear_arith)
                    requires
                        k * len < count * len,
                        len > 0,
                ;
                assert((k + 1) * len == k * len + len && (k + 1) * len <= count * len)
                    by (nonlinear_arith)
                    requires
                        k + 1 <= count,
                        len > 0,
                ;
            }
            let next: usize = at + size as usize;
            out.push(slice_to_vec(slice_subrange(pending.as_slice(), at, next)));
            at = next;
        }
        proof {
            assert(out@.len() == count) by (nonlinear_arith)
                requires
                    out@.len() <= count,
                    out@.len() * len >= count * len,
                    len > 0,
            ;
            assert(contents(out@) =~= frames_in(all, len));
        }
        let rest = slice_to_vec(slice_subrange(pending.as_slice(), end, pending.len()));
        assert(rest@ =~= left_over(all, len));
        *pending = rest;
        out
    }

    /// Takes the next frames of the recording, and says whether speech is confirmed in any of
    /// them.
    pub fn observe(&mut self, frames: &[Frame]) -> (r: bool)
        requires
            old(self).wf(),
            forall|k: int| 0 <= k < frames@.len() ==> (#[trigger] frames@[k]).pcm@.len() == FRAME,
        ensures
            final(self).wf(),
            final(self).frame_samples() == old(self).frame_samples(),
            final(self).heard() == old(self).heard() + pcms(frames@),
            final(self).votes() == votes_after(old(self).heard(), old(self).votes(), frames@),
            r == finds(old(self).heard(), old(self).votes(), frames@),
    {
        let ghost h = self.heard();
        let ghost v = self.votes();
        let ghost on = votes_on(h, frames@);
        let ghost all = v + on;
        let mut confirmed = false;
        let mut i: usize = 0;
        proof {
            assert(h + pcms(frames@).take(0) =~= h);
            assert(window(all, v.len() as int) =~= v);
        }
        while i < frames.len()
            invariant
                i <= frames@.len(),
                forall|k: int|
                    0 <= k < frames@.len() ==> (#[trigger] frames@[k]).pcm@.len() == FRAME,
                self.rate == old(self).rate,
                self.channels == old(self).channels,
                v.len() <= VOTES,
                on == votes_on(h, frames@),
                all == v + on,
                heard(self.vad) == h + pcms(frames@).take(i as int),
                self.votes@ == window(all, v.len() + i),
                confirmed <==> exists|k: int|
                    v.len() <= k < v.len() + i && #[trigger] confirms(all, k),
            decreases frames@.len() - i,
        {
            let ghost was = self.votes@;
            let ghost k = v.len() + i;
            proof {
                assert(h + pcms(frames@).take(i as int).push(frames@[i as int].pcm@) =~= h + pcms(
                    frames@,
                ).take(i + 1));
                assert((h + pcms(frames@).take(i as int)).push(frames@[i as int].pcm@) =~= h
                    + pcms(frames@).take(i + 1));
                assert(all[k] == on[i as int]);
            }
            let voice = match is_voice(&mut self.vad, frames[i].pcm.as_slice()) {
                Ok(b) => b,
                Err(_) => false,
            };
            let speech = voice && frames[i].loud;
            assert(speech == all[k]);
            self.votes.push_back(speech);
            if self.votes.len() > VOTES {
                let _ = self.votes.pop_front();
            }
            assert(self.votes@ =~= window(all, k + 1));
            let sure = speech && tally(&self.votes) >= ENOUGH;
            assert(sure == confirms(all, k));
            confirmed = confirmed || sure;
            i = i + 1;
        }
        proof {
            assert(pcms(frames@).take(i as int) =~= pcms(frames@));
        }
        confirmed
    }
}

/// Counts the votes for speech.
fn tally(votes: &VecDeque<bool>) -> (r: usize)
    ensures
        r == count(votes@),
{
    let mut n: usize = 0;
    let mut i: usize = 0;
    while i < votes.len()
        invariant
            i <= votes@.len(),
            n == count(votes@.take(i as int)),
            n <= i,
        decreases votes@.len() - i,
    {
        proof {
            assert(votes@.take(i + 1).drop_last() =~= votes@.take(i as int));
        }
        if votes[i] {
            n = n + 1;
        }
        i = i + 1;
    }
    assert(votes@.take(i as int) =~= votes@);
    n
}

/// Frames that are given in two calls get the votes that they get in one.
proof fn lemma_votes_on_two(before: Seq<Seq<i16>>, a: Seq<Frame>, b: Seq<Frame>)
    ensures
        pcms(a + b) == pcms(a) + pcms(b),
        votes_on(before, a + b) == votes_on(before, a) + votes_on(before + pcms(a), b),
{
    assert(pcms(a + b) =~= pcms(a) + pcms(b));
    assert forall|k: int| 0 <= k < a.len() + b.len() implies votes_on(before, a + b)[k] == (
    votes_on(before, a) + votes_on(before + pcms(a), b))[k] by {
        if k < a.len() {
            assert(pcms(a + b).take(k + 1) =~= pcms(a).take(k + 1));
        } else {
            let i = k - a.len();
            assert(before + pcms(a + b).take(k + 1) =~= before + pcms(a) + pcms(b).take(i + 1));
        }
    }
    assert(votes_on(before, a + b) =~= votes_on(before, a) + votes_on(before + pcms(a), b));
}

/// Cutting the frames of a recording into two calls finds the same speech as one call: it is
/// confirmed in `a` and `b` together exactly where it is confirmed in `a`, or in `b` by a detector
/// that was given `a`. What is remembered in the end is the same too.
pub proof fn law_two_calls_find_the_same_speech(
    before: Seq<Seq<i16>>,
    remembered: Seq<bool>,
    a: Seq<Frame>,
    b: Seq<Frame>,
)
    requires
        remembered.len() <= VOTES,
    ensures
        finds(before, remembered, a + b) <==> finds(before, remembered, a) || finds(
            before + pcms(a),
            votes_after(before, remembered, a),
            b,
        ),
        votes_after(before, remembered, a + b) == votes_after(
            before + pcms(a),
            votes_after(before, remembered, a),
            b,
        ),
{
    lemma_votes_on_two(before, a, b);
    let all = remembered + votes_on(before, a + b);
    let one = remembered + votes_on(before, a);
    let kept = votes_after(before, remembered, a);
    let two = kept + votes_on(before + pcms(a), b);
    let d = one.len() - kept.len();
    assert(all =~= one + votes_on(before + pcms(a), b));
    assert(two =~= all.skip(d));
    assert forall|k: int| 0 <= k < one.len() implies confirms(all, k) == confirms(one, k) by {
        assert(window(all, k + 1) =~= window(one, k + 1));
    }
    assert forall|k: int| one.len() <= k < all.len() implies confirms(all, k) == confirms(
        two,
        k - d,
    ) by {
        assert(window(all, k + 1) =~= window(two, k - d + 1));
    }
    if finds(before, remembered, a + b) {
        let k = choose|k: int| remembered.len() <= k < all.len() && #[trigger] confirms(all, k);
        if k < one.len() {
            assert(confirms(one, k));
        } else {
            assert(confirms(two, k - d));
        }
    }
    if finds(before, remembered, a) {
        let k = choose|k: int| remembered.len() <= k < one.len() && #[trigger] confirms(one, k);
        assert(confirms(all, k));
    }
    if finds(before + pcms(a), kept, b) {
        let k = choose|k: int| kept.len() <= k < two.len() && #[trigger] confirms(two, k);
        assert(confirms(all, k + d));
    }
    assert(window(all, all.len() as int) =~= window(two, two.len() as int));
}

/// Cutting a recording into blocks loses no sample: the frames of two blocks are those of the
/// first, and those of what it left over with the second.
pub proof fn law_blocks_give_the_same_frames<T>(a: Seq<T>, b: Seq<T>, len: int)
    requires
        len > 0,
    ensures
        frames_in(a + b, len) == frames_in(a, len) + frames_in(left_over(a, len) + b, len),
        left_over(a + b, len) == left_over(left_over(a, len) + b, len),
{
    let n = a.len() as int;
    let q = n / len;
    let rest = left_over(a, len) + b;
    assert(0 <= q * len <= n && 0 <= q) by (nonlinear_arith)
        requires
            q == n / len,
            n >= 0,
            len > 0,
    ;
    let m = n + b.len() - q * len;
    assert(rest.len() == m);
    let p = m / len;
    assert((n + b.len()) / len == q + p) by (nonlinear_arith)
        requires
            m == n + b.len() - q * len,
            p == m / len,
            len > 0,
    ;
    assert(0 <= p * len <= m && 0 <= p) by (nonlinear_arith)
        requires
            p == m / len,
            m >= 0,
            len > 0,
    ;
    assert((q + p) * len == q * len + p * len) by (nonlinear_arith);
    assert(rest =~= (a + b).skip(q * len));
    let whole = frames_in(a, len) + frames_in(rest, len);
    assert forall|k: int| 0 <= k < q + p implies frames_in(a + b, len)[k] == whole[k] by {
        if k < q {
            assert(0 <= k * len && k * len + len <= q * len) by (nonlinear_arith)
                requires
                    0 <= k < q,
                    len > 0,
            ;
            assert((a + b).subrange(k * len, k * len + len) =~= a.subrange(k * len, k * len + len));
        } else {
            let i = k - q;
            assert(k * len == q * len + i * len) by (nonlinear_arith)
                requires
                    k == q + i,
            ;
            assert(0 <= i * len && i * len + len <= p * len) by (nonlinear_arith)
                requires
                    0 <= i < p,
                    len > 0,
            ;
            assert((a + b).subrange(k * len, k * len + len) =~= rest.subrange(
                i * len,
                i * len + len,
            ));
        }
    }
    assert(frames_in(a + b, len) =~= whole);
    assert(left_over(a + b, len) =~= left_over(rest, len));
}

/// How a recording is cut into blocks never changes whether speech is found in it. `a` is what
/// waits and the first block, `b` the second one, and `frame_of` what each frame is made into.
pub proof fn law_blocks_find_the_same_speech<T>(
    before: Seq<Seq<i16>>,
    remembered: Seq<bool>,
    a: Seq<T>,
    b: Seq<T>,
    len: int,
    frame_of: spec_fn(Seq<T>) -> Frame,
)
    requires
        remembered.len() <= VOTES,
        len > 0,
    ensures
        ({
            let first = frames_in(a, len).map_values(frame_of);
            let second = frames_in(left_over(a, len) + b, len).map_values(frame_of);
            finds(before, remembered, frames_in(a + b, len).map_values(frame_of)) <==> finds(
                before,
                remembered,
                first,
            ) || finds(before + pcms(first), votes_after(before, remembered, first), second)
        }),
{
    let first = frames_in(a, len).map_values(frame_of);
    let second = frames_in(left_over(a, len) + b, len).map_values(frame_of);
    law_blocks_give_the_same_frames(a, b, len);
    assert(frames_in(a + b, len).map_values(frame_of) =~= first + second);
    law_two_calls_find_the_same_speech(before, remembered, first, second);
}

/// Isolated sounds are not taken for speech: where fewer than [`ENOUGH`] of any [`VOTES`] votes in
/// a row are for speech, none confirms it.
pub proof fn law_isolated_sounds_are_not_speech(votes: Seq<bool>, k: int)
    requires
        0 <= k < votes.len(),
        forall|end: int| 0 <= end <= votes.len() ==> count(#[trigger] window(votes, end)) < ENOUGH,
    ensures
        !confirms(votes, k),
{
    assert(count(window(votes, k + 1)) < ENOUGH);
}

/// Frames that are not loud confirm nothing, whatever the detector finds in them and whatever came
/// before them.
pub proof fn law_quiet_frames_are_not_speech(
    before: Seq<Seq<i16>>,
    remembered: Seq<bool>,
    frames: Seq<Frame>,
    k: int,
)
    requires
        forall|i: int| 0 <= i < frames.len() ==> !(#[trigger] frames[i]).loud,
        remembered.len() <= k < remembered.len() + frames.len(),
    ensures
        !confirms(remembered + votes_on(before, frames), k),
{
    let i = k - remembered.len();
    assert(!frames[i].loud);
    assert((remembered + votes_on(before, frames))[k] == votes_on(before, frames)[i]);
}

/// The samples of a WAV file, and how they are to be read.
#[derive(Debug)]
pub struct Pcm {
    pub rate: u32,
    pub channels: u16,
    /// The samples, channels interleaved.
    pub samples: Vec<i16>,
}

/// Reads a WAV file in which speech is to be found.
pub fn read_wav(file: &[u8]) -> (r: Result<Pcm, WavError>)
    ensures
        match (wav::header_of(file@), wav::samples_of(file@)) {
            (None, _) => r == Err::<Pcm, WavError>(WavError::Unreadable),
            (Some(_), None) => r == Err::<Pcm, WavError>(WavError::BadSamples),
            (Some(h), Some(s)) => r matches Ok(p) && p.rate == h.sample_rate && p.channels
                == h.channels && p.samples@ == s && p.channels > 0,
        },
{
    let header = match wav::read_header(file) {
        Ok(h) => h,
        Err(_) => return Err(WavError::Unreadable),
    };
    match wav::read_samples(file) {
        Ok(samples) => Ok(Pcm { rate: header.sample_rate, channels: header.channels, samples }),
        Err(_) => Err(WavError::BadSamples),
    }
}

/// A frame lasts 20 ms of all channels, to the sample of each channel, whatever the rate; at a rate
/// below 50 it is one sample of each.
pub proof fn law_frames_last_20_ms(rate: u32, channels: u16, d: Detector, r: u64)
    requires
        call_ensures(Detector::new, (rate, channels), d),
        call_ensures(Detector::frame_len, (&d,), r),
    ensures
        d.votes().len() == 0 && d.heard().len() == 0,
        rate >= 50 ==> r * 1000 <= 20 * (rate * channels) < (r + channels as int) * 1000
            || channels == 0,
        rate < 50 ==> r == channels,
        channels > 0 ==> r > 0 && r % (channels as u64) == 0,
{
    let n = rate as int / 50;
    let c = channels as int;
    if rate >= 50 {
        assert(r == n * c);
        assert(n * c * 1000 <= 20 * (rate * c)) by (nonlinear_arith)
            requires
                n * 50 <= rate,
                c >= 0,
        ;
        if channels > 0 {
            assert(20 * (rate * c) < (n * c + c) * 1000) by (nonlinear_arith)
                requires
                    rate < (n + 1) * 50,
                    c > 0,
            ;
        }
    }
    if channels > 0 {
        let k = if n == 0 {
            1
        } else {
            n
        };
        assert(r == k * c);
        assert((k * c) % c == 0 && k * c > 0) by (nonlinear_arith)
            requires
                k >= 1,
                c > 0,
        ;
    }
}

/// The votes for speech are counted one by one.
pub proof fn law_votes_are_counted(a: Seq<bool>, b: Seq<bool>, v: bool)
    ensures
        count(a + b) == count(a) + count(b),
        count(seq![v]) == if v {
            1nat
        } else {
            0
        },
        count(a) <= a.len(),
        (forall|i: int| 0 <= i < a.len() ==> #[trigger] a[i]) ==> count(a) == a.len(),
        (forall|i: int| 0 <= i < a.len() ==> !#[trigger] a[i]) ==> count(a) == 0,
    decreases a.len(), b.len(),
{
    assert(seq![v].drop_last() =~= seq![]);
    assert(count(Seq::<bool>::empty()) == 0);
    assert(count(seq![v].drop_last()) == 0);
    if b.len() > 0 {
        assert((a + b).drop_last() =~= a + b.drop_last());
        law_votes_are_counted(a, b.drop_last(), v);
    } else {
        assert(a + b =~= a);
        if a.len() > 0 {
            let rest = a.drop_last();
            law_votes_are_counted(rest, seq![], v);
            if forall|i: int| 0 <= i < a.len() ==> #[trigger] a[i] {
                assert forall|i: int| 0 <= i < rest.len() implies #[trigger] rest[i] by {
                    assert(a[i]);
                }
            }
            if forall|i: int| 0 <= i < a.len() ==> !#[trigger] a[i] {
                assert forall|i: int| 0 <= i < rest.len() implies !#[trigger] rest[i] by {
                    assert(!a[i]);
                }
            }
        }
    }
}

/// Speech is confirmed by a vote for it exactly where it is at least the tenth among the last
/// twenty-five, itself included.
pub proof fn law_ten_of_twenty_five(votes: Seq<bool>, k: int)
    requires
        0 <= k < votes.len(),
    ensures
        confirms(votes, k) <==> votes[k] && count(
            votes.subrange(
                if k < 24 {
                    0
                } else {
                    k - 24
                },
                k + 1,
            ),
        ) >= 10,
{
}

/// Ten frames in a row that are loud and in which voice is found are speech, whatever came before;
/// and each of them takes both.
pub proof fn law_ten_voiced_frames_are_speech(
    before: Seq<Seq<i16>>,
    remembered: Seq<bool>,
    frames: Seq<Frame>,
    i: int,
)
    requires
        frames.len() >= 10,
        0 <= i < frames.len(),
        forall|k: int|
            0 <= k < frames.len() ==> (#[trigger] frames[k]).loud && voiced(
                before + pcms(frames).take(k + 1),
            ),
    ensures
        finds(before, remembered, frames),
        votes_on(before, frames)[i],
{
    let votes = votes_on(before, frames);
    let all = remembered + votes;
    let k = remembered.len() as int + 9;
    let start = if k < 24 {
        0
    } else {
        k - 24
    };
    assert forall|j: int| 0 <= j < frames.len() implies #[trigger] votes[j] by {
        assert(frames[j].loud);
    }
    let w = window(all, k + 1);
    let last = votes.take(10);
    let first = w.take(w.len() - 10);
    assert(w =~= first + last);
    law_votes_are_counted(first, last, true);
    law_votes_are_counted(last, seq![], true);
    assert(confirms(all, k));
}

/// A recording is cut into frames without losing a sample: frame `k` holds those from `k * len` on,
/// and what is left over begins after the last frame and is shorter than one.
pub proof fn law_no_sample_is_lost<T>(samples: Seq<T>, len: int, k: int, i: int)
    requires
        len > 0,
    ensures
        ({
            let n = frames_in(samples, len).len() as int;
            let rest = left_over(samples, len);
            &&& n * len + rest.len() == samples.len()
            &&& rest.len() < len
            &&& 0 <= i < rest.len() ==> rest[i] == samples[n * len + i]
            &&& 0 <= k < n ==> frames_in(samples, len)[k].len() == len
            &&& 0 <= k < n && 0 <= i < len ==> frames_in(samples, len)[k][i] == samples[k * len + i]
        }),
{
    let m = samples.len() as int;
    let n = m / len;
    assert(0 <= n && n * len <= m < n * len + len) by (nonlinear_arith)
        requires
            n == m / len,
            len > 0,
            m >= 0,
    ;
    if 0 <= k < n {
        assert(0 <= k * len && k * len + len <= n * len) by (nonlinear_arith)
            requires
                0 <= k < n,
                len > 0,
        ;
    }
}

/// Of samples that wait, as many are taken as make whole frames, and fewer than one frame is left.
pub proof fn law_whole_frames_are_taken(d: Detector, pending: usize, r: usize)
    requires
        d.frame_samples() > 0,
        call_ensures(Detector::whole, (&d, pending), r),
    ensures
        r <= pending < r + d.frame_samples(),
        r as int % d.frame_samples() == 0,
{
    let f = d.frame_samples();
    let n = pending as int / f;
    assert(n * f <= pending < n * f + f && (n * f) % f == 0) by (nonlinear_arith)
        requires
            n == pending as int / f,
            f > 0,
            pending >= 0,
    ;
}

/// A file is read with its own rate, its own channels and all of its samples.
pub proof fn law_files_are_read_as_they_are(file: &[u8], r: Result<Pcm, WavError>)
    requires
        call_ensures(read_wav, (file,), r),
    ensures
        r is Ok <==> wav::header_of(file@) is Some && wav::samples_of(file@) is Some,
        r matches Ok(p) ==> p.rate == wav::header_of(file@)->0.sample_rate && p.channels
            == wav::header_of(file@)->0.channels && Some(p.samples@) == wav::samples_of(file@),
{
}

} // verus!
