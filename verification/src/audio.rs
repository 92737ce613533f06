//! A recording on its way to the recogniser: which of its samples are silence, what is cut out of
//! it, and whether enough is left to be worth sending.
//!
//! Loudness is measured by the caller, who answers for a stretch of samples whether it is loud.
use crate::wav;
use vstd::prelude::*;

verus! {

/// The length of the windows whose loudness is measured, in milliseconds.
pub const FRAME_MS: u32 = 20;

/// What is kept before the first and after the last loud window, in milliseconds.
pub const EDGE_PAD_MS: u32 = 80;

/// How silence is cut out.
#[derive(Debug, Clone, Copy, PartialEq, Eq, Structural)]
pub struct TrimConfig {
    /// Whether any is.
    pub enabled: bool,
    /// A pause of this many milliseconds is cut out; a shorter one helps to tell phrases apart.
    pub min_silence_ms: u32,
}

impl Default for TrimConfig {
    fn default() -> (r: Self)
        ensures
            r == (TrimConfig { enabled: true, min_silence_ms: 300 }),
    {
        TrimConfig { enabled: true, min_silence_ms: 300 }
    }
}

// ---------------------------------------------------------------------------------------------
// Windows
// ---------------------------------------------------------------------------------------------

/// How many samples of one channel are `ms` milliseconds.
pub open spec fn span(rate: u32, ms: u32) -> int {
    (rate * ms) / 1000
}

/// As [`span`], but at least one sample.
pub open spec fn span_or_one(rate: u32, ms: u32) -> int {
    if span(rate, ms) == 0 {
        1
    } else {
        span(rate, ms)
    }
}

/// Whether `loud` answers for every stretch of a recording of `n` samples.
pub open spec fn answers<F: Fn(usize, usize) -> bool>(loud: F, n: int) -> bool {
    forall|s: usize, e: usize| s < e <= n ==> #[trigger] call_requires(loud, (s, e))
}

/// Where the window `k` of the samples from `lo` to `hi` begins, and where one that would begin
/// after them ends.
pub open spec fn edge(lo: int, hi: int, win: int, k: int) -> int {
    if lo + k * win < hi {
        lo + k * win
    } else {
        hi
    }
}

/// How many windows there are from `lo` to `hi`; the last may be incomplete.
pub open spec fn window_count(lo: int, hi: int, win: int) -> int {
    (hi - lo + win - 1) / win
}

/// Whether `flags` is what `loud` said of each window from `lo` to `hi`.
pub open spec fn measured<F: Fn(usize, usize) -> bool>(
    loud: F,
    lo: int,
    hi: int,
    win: int,
    flags: Seq<bool>,
) -> bool {
    &&& flags.len() == window_count(lo, hi, win)
    &&& forall|k: int|
        0 <= k < flags.len() ==> call_ensures(
            loud,
            (edge(lo, hi, win, k) as usize, edge(lo, hi, win, k + 1) as usize),
            #[trigger] flags[k],
        )
}

/// Window `k` lies from one of its edges to the next, and is the last exactly where that is the
/// end.
proof fn lemma_window(lo: int, hi: int, win: int, k: int)
    requires
        0 <= lo <= hi,
        win > 0,
        0 <= k,
    ensures
        window_count(lo, hi, win) >= 0,
        lo == hi ==> window_count(lo, hi, win) == 0,
        k < window_count(lo, hi, win) <==> lo + k * win < hi,
        k == 0 ==> edge(lo, hi, win, k) == lo,
        k < window_count(lo, hi, win) ==> edge(lo, hi, win, k) == lo + k * win && edge(
            lo,
            hi,
            win,
            k,
        ) < edge(lo, hi, win, k + 1) <= hi,
        edge(lo, hi, win, k) <= hi,
        lo <= edge(lo, hi, win, k),
        edge(lo, hi, win, k) == hi <==> k >= window_count(lo, hi, win),
{
    let d = hi - lo;
    assert((d + win - 1) / win >= 0) by (nonlinear_arith)
        requires
            d >= 0,
            win > 0,
    ;
    if d == 0 {
        assert((win - 1) / win == 0) by (nonlinear_arith)
            requires
                win > 0,
        ;
    }
    if k * win < d {
        assert(k < (d + win - 1) / win) by (nonlinear_arith)
            requires
                k * win < d,
                win > 0,
        ;
    } else {
        assert(k >= (d + win - 1) / win) by (nonlinear_arith)
            requires
                k * win >= d,
                win > 0,
        ;
    }
    assert((k + 1) * win == k * win + win) by (nonlinear_arith);
    assert(0 <= k * win) by (nonlinear_arith)
        requires
            0 <= k,
            win > 0,
    ;
    if k == 0 {
        assert(k * win == 0) by (nonlinear_arith)
            requires
                k == 0,
        ;
    }
}

/// `ms` milliseconds in samples.
fn samples_in(rate: u32, ms: u32) -> (r: u64)
    ensures
        r == span(rate, ms),
{
    assert(0 <= rate * ms <= 0xffff_ffff * 0xffff_ffff) by (nonlinear_arith)
        requires
            0 <= rate <= 0xffff_ffff,
            0 <= ms <= 0xffff_ffff,
    ;
    (rate as u64) * (ms as u64) / 1000
}

/// The end of a window of `win` samples that begins at `s`, in samples up to `hi`.
fn window_end(s: usize, hi: usize, win: u64) -> (r: usize)
    requires
        s < hi,
        win > 0,
    ensures
        r == if s + win < hi {
            s + win
        } else {
            hi as int
        },
        s < r <= hi,
{
    if win < (hi - s) as u64 {
        s + win as usize
    } else {
        hi
    }
}

/// Asks of each window from `lo` to `hi` whether it is loud.
fn measure<F: Fn(usize, usize) -> bool>(lo: usize, hi: usize, win: u64, loud: &F) -> (r: Vec<bool>)
    requires
        lo <= hi,
        win > 0,
        answers(*loud, hi as int),
    ensures
        measured(*loud, lo as int, hi as int, win as int, r@),
{
    let mut flags: Vec<bool> = Vec::new();
    let mut s: usize = lo;
    proof {
        lemma_window(lo as int, hi as int, win as int, 0);
    }
    while s < hi
        invariant
            lo <= s <= hi,
            win > 0,
            answers(*loud, hi as int),
            s == edge(lo as int, hi as int, win as int, flags@.len() as int),
            flags@.len() <= window_count(lo as int, hi as int, win as int),
            forall|k: int|
                0 <= k < flags@.len() ==> call_ensures(
                    *loud,
                    (
                        edge(lo as int, hi as int, win as int, k) as usize,
                        edge(lo as int, hi as int, win as int, k + 1) as usize,
                    ),
                    #[trigger] flags@[k],
                ),
        decreases hi - s,
    {
        let ghost k = flags@.len() as int;
        proof {
            lemma_window(lo as int, hi as int, win as int, k);
            lemma_window(lo as int, hi as int, win as int, k + 1);
            assert((k + 1) * win == k * win + win) by (nonlinear_arith);
        }
        let e: usize = window_end(s, hi, win);
        flags.push((*loud)(s, e));
        s = e;
    }
    proof {
        lemma_window(lo as int, hi as int, win as int, flags@.len() as int);
    }
    flags
}

// ---------------------------------------------------------------------------------------------
// The edges
// ---------------------------------------------------------------------------------------------

/// How many windows there are before the first loud one.
pub open spec fn leftmost(flags: Seq<bool>) -> int
    decreases flags.len(),
{
    if flags.len() == 0 || flags[0] {
        0
    } else {
        1 + leftmost(flags.drop_first())
    }
}

/// How many windows there are up to the last loud one, none if all are silent.
pub open spec fn rightmost(flags: Seq<bool>) -> int
    decreases flags.len(),
{
    if flags.len() == 0 {
        0
    } else if flags.last() {
        flags.len() as int
    } else {
        rightmost(flags.drop_last())
    }
}

/// The stretch of a recording of `n` samples from `pad` samples before its first loud window to
/// `pad` samples after its last one, or an empty one where all windows are silent.
pub open spec fn edges_of(flags: Seq<bool>, n: int, win: int, pad: int) -> (int, int) {
    if rightmost(flags) == 0 {
        (0, 0)
    } else {
        let first = leftmost(flags) * win;
        let last = edge(0, n, win, rightmost(flags));
        (
            if first < pad {
                0
            } else {
                first - pad
            },
            if last + pad < n {
                last + pad
            } else {
                n
            },
        )
    }
}

proof fn lemma_leftmost(flags: Seq<bool>, i: int)
    requires
        0 <= i < flags.len(),
        flags[i],
        forall|k: int| 0 <= k < i ==> !flags[k],
    ensures
        leftmost(flags) == i,
    decreases i,
{
    if i > 0 {
        lemma_leftmost(flags.drop_first(), i - 1);
    }
}

proof fn lemma_rightmost(flags: Seq<bool>)
    ensures
        0 <= rightmost(flags) <= flags.len(),
        rightmost(flags) > 0 ==> flags[rightmost(flags) - 1],
        forall|k: int| rightmost(flags) <= k < flags.len() ==> !flags[k],
    decreases flags.len(),
{
    if flags.len() > 0 && !flags.last() {
        lemma_rightmost(flags.drop_last());
        assert forall|k: int| rightmost(flags) <= k < flags.len() implies !flags[k] by {
            if k < flags.len() - 1 {
                assert(flags.drop_last()[k] == flags[k]);
            }
        }
    }
}

/// The first loud window.
proof fn lemma_some_leftmost(flags: Seq<bool>)
    ensures
        0 <= leftmost(flags) <= flags.len(),
        rightmost(flags) > 0 ==> leftmost(flags) < rightmost(flags) && flags[leftmost(flags)],
        forall|k: int| 0 <= k < leftmost(flags) ==> !flags[k],
    decreases flags.len(),
{
    lemma_rightmost(flags);
    if flags.len() > 0 && !flags[0] {
        let rest = flags.drop_first();
        lemma_some_leftmost(rest);
        lemma_rightmost(rest);
        assert forall|k: int| 0 <= k < leftmost(flags) implies !flags[k] by {
            if k > 0 {
                assert(rest[k - 1] == flags[k]);
            }
        }
        if rightmost(flags) > 0 {
            let r = rightmost(flags);
            assert(rest[r - 2] == flags[r - 1]);
            assert(rightmost(rest) >= r - 1);
            assert(rightmost(rest) > 0);
            assert(flags[1 + leftmost(rest)] == rest[leftmost(rest)]);
            assert(leftmost(flags) <= r - 1) by {
                if leftmost(flags) > r - 1 {
                    assert(!flags[r - 1]);
                }
            }
        }
    }
}

/// Finds where the first loud window of the samples from `lo` to `hi` begins and where the last one
/// ends.
fn find_loud<F: Fn(usize, usize) -> bool>(lo: usize, hi: usize, win: u64, loud: &F) -> (r: Option<
    (usize, usize),
>)
    requires
        lo <= hi,
        win > 0,
        answers(*loud, hi as int),
    ensures
        exists|flags: Seq<bool>|
            #[trigger] measured(*loud, lo as int, hi as int, win as int, flags) && match r {
                Some((a, b)) => rightmost(flags) > 0 && a == edge(
                    lo as int,
                    hi as int,
                    win as int,
                    leftmost(flags),
                ) && b == edge(lo as int, hi as int, win as int, rightmost(flags)),
                None => rightmost(flags) == 0,
            },
        r matches Some((a, b)) ==> lo <= a < b <= hi,
{
    let measured_flags = measure(lo, hi, win, loud);
    let ghost flags = measured_flags@;
    let mut first: Option<usize> = None;
    let mut last_end: usize = lo;
    let mut s: usize = lo;
    let mut k: usize = 0;
    let ghost mut left: int = 0;
    let ghost mut right: int = 0;
    proof {
        lemma_window(lo as int, hi as int, win as int, 0);
    }
    while k < measured_flags.len()
        invariant
            lo <= hi,
            win > 0,
            flags == measured_flags@,
            flags.len() == window_count(lo as int, hi as int, win as int),
            0 <= k <= flags.len(),
            s == edge(lo as int, hi as int, win as int, k as int),
            lo <= s <= hi,
            0 <= right <= k,
            right == 0 <==> first is None,
            right > 0 ==> flags[right - 1] && last_end == edge(
                lo as int,
                hi as int,
                win as int,
                right,
            ),
            forall|t: int| right <= t < k ==> !flags[t],
            first matches Some(f) ==> 0 <= left < right && flags[left] && f == edge(
                lo as int,
                hi as int,
                win as int,
                left,
            ) && lo <= f < last_end <= hi,
            first is Some ==> forall|t: int| 0 <= t < left ==> !flags[t],
        decreases flags.len() - k,
    {
        proof {
            lemma_window(lo as int, hi as int, win as int, k as int);
            lemma_window(lo as int, hi as int, win as int, k + 1);
            assert((k + 1) * win == k * win + win) by (nonlinear_arith);
        }
        let e: usize = window_end(s, hi, win);
        if measured_flags[k] {
            if first.is_none() {
                first = Some(s);
                proof {
                    left = k as int;
                }
            } else {
                proof {
                    lemma_edges_rise(lo as int, hi as int, win as int, right, k + 1);
                }
            }
            last_end = e;
            proof {
                right = k + 1;
            }
        }
        s = e;
        k = k + 1;
    }
    proof {
        lemma_rightmost(flags);
        lemma_some_leftmost(flags);
        if right < rightmost(flags) {
            assert(!flags[rightmost(flags) - 1]);
        }
        if right > rightmost(flags) {
            assert(!flags[right - 1]);
        }
        if first is Some {
            lemma_leftmost(flags, left);
        }
        assert(measured(*loud, lo as int, hi as int, win as int, flags));
    }
    match first {
        Some(f) => Some((f, last_end)),
        None => None,
    }
}

/// `ms` milliseconds in samples, but at least one.
fn samples_or_one(sample_rate: u32, ms: u32) -> (r: u64)
    ensures
        r == span_or_one(sample_rate, ms),
        r > 0,
{
    let w: u64 = samples_in(sample_rate, ms);
    if w == 0 {
        1
    } else {
        w
    }
}

/// Finds the stretch between the silent edges of a recording of `n` samples; `pad_ms` milliseconds
/// are kept on each side. A silent recording has none: the stretch is empty.
pub fn trim_edges<F: Fn(usize, usize) -> bool>(
    n: usize,
    sample_rate: u32,
    loud: &F,
    pad_ms: u32,
    frame_ms: u32,
) -> (r: (usize, usize))
    requires
        answers(*loud, n as int),
    ensures
        r.0 <= r.1 <= n,
        exists|flags: Seq<bool>|
            #[trigger] measured(*loud, 0, n as int, span_or_one(sample_rate, frame_ms), flags)
                && edges_of(
                flags,
                n as int,
                span_or_one(sample_rate, frame_ms),
                span(sample_rate, pad_ms),
            ) == (r.0 as int, r.1 as int),
{
    let win: u64 = samples_or_one(sample_rate, frame_ms);
    let pad: u64 = samples_in(sample_rate, pad_ms);
    match find_loud(0, n, win, loud) {
        Some((first, last)) => {
            proof {
                assert forall|flags: Seq<bool>| #[trigger]
                    measured(*loud, 0, n as int, win as int, flags) && rightmost(flags)
                        > 0 implies edge(0, n as int, win as int, leftmost(flags)) == leftmost(
                    flags,
                ) * win by {
                    lemma_rightmost(flags);
                    lemma_some_leftmost(flags);
                    lemma_window(0, n as int, win as int, leftmost(flags));
                }
            }
            let start: usize = if (first as u64) < pad {
                0
            } else {
                first - pad as usize
            };
            let end: usize = if pad < (n - last) as u64 {
                last + pad as usize
            } else {
                n
            };
            (start, end)
        },
        None => (0, 0),
    }
}

/// Every loud window of a recording lies in the stretch that [`trim_edges`] keeps.
pub proof fn law_edges_keep_what_is_loud(flags: Seq<bool>, n: int, win: int, pad: int, k: int)
    requires
        n >= 0,
        win > 0,
        pad >= 0,
        flags.len() == window_count(0, n, win),
        0 <= k < flags.len(),
        flags[k],
    ensures
        edges_of(flags, n, win, pad).0 <= edge(0, n, win, k),
        edge(0, n, win, k + 1) <= edges_of(flags, n, win, pad).1,
{
    lemma_rightmost(flags);
    lemma_some_leftmost(flags);
    lemma_window(0, n, win, k);
    lemma_window(0, n, win, k + 1);
    lemma_window(0, n, win, rightmost(flags));
    if rightmost(flags) <= k {
        assert(!flags[k]);
    }
    if k < leftmost(flags) {
        assert(!flags[k]);
    }
    assert(leftmost(flags) * win <= k * win) by (nonlinear_arith)
        requires
            leftmost(flags) <= k,
            win > 0,
    ;
    assert((k + 1) * win <= rightmost(flags) * win) by (nonlinear_arith)
        requires
            k + 1 <= rightmost(flags),
            win > 0,
    ;
}

// ---------------------------------------------------------------------------------------------
// Pauses
// ---------------------------------------------------------------------------------------------

/// Where the pause begins that the silent window `k` belongs to.
pub open spec fn pause_start(flags: Seq<bool>, k: int) -> int
    decreases k,
{
    if k <= 0 || flags[k - 1] {
        k
    } else {
        pause_start(flags, k - 1)
    }
}

/// The window after the pause that the silent window `k` belongs to.
pub open spec fn pause_end(flags: Seq<bool>, k: int) -> int
    decreases flags.len() - k,
{
    if k + 1 >= flags.len() || flags[k + 1] {
        k + 1
    } else {
        pause_end(flags, k + 1)
    }
}

/// Whether window `k` of the samples from `lo` to `hi` stays: it is loud, or in a pause of fewer
/// than `min_silence` samples.
pub open spec fn stays(flags: Seq<bool>, lo: int, hi: int, win: int, min_silence: int, k: int) -> bool {
    flags[k] || edge(lo, hi, win, pause_end(flags, k)) - edge(lo, hi, win, pause_start(flags, k))
        < min_silence
}

/// The positions from `s` up to `e`.
pub open spec fn run(s: int, e: int) -> Seq<int> {
    Seq::new((e - s) as nat, |i: int| s + i)
}

/// The positions in a list of stretches, one stretch after the other.
pub open spec fn positions(list: Seq<(usize, usize)>) -> Seq<int>
    decreases list.len(),
{
    if list.len() == 0 {
        seq![]
    } else {
        positions(list.drop_last()) + run(list.last().0 as int, list.last().1 as int)
    }
}

/// The positions of the first `count` windows from `lo` to `hi` that stay.
pub open spec fn staying(
    flags: Seq<bool>,
    lo: int,
    hi: int,
    win: int,
    min_silence: int,
    count: int,
) -> Seq<int>
    decreases count,
{
    if count <= 0 {
        seq![]
    } else {
        staying(flags, lo, hi, win, min_silence, count - 1) + if stays(
            flags,
            lo,
            hi,
            win,
            min_silence,
            count - 1,
        ) {
            run(edge(lo, hi, win, count - 1), edge(lo, hi, win, count))
        } else {
            seq![]
        }
    }
}

/// Whether `left` are the positions from `lo` to `hi` that are left when long pauses are cut out.
pub open spec fn is_without_pauses<F: Fn(usize, usize) -> bool>(
    loud: F,
    lo: int,
    hi: int,
    rate: u32,
    min_silence_ms: u32,
    frame_ms: u32,
    left: Seq<int>,
) -> bool {
    if min_silence_ms == 0 {
        left == run(lo, hi)
    } else {
        exists|flags: Seq<bool>|
            #[trigger] measured(loud, lo, hi, span_or_one(rate, frame_ms), flags) && left
                == staying(
                flags,
                lo,
                hi,
                span_or_one(rate, frame_ms),
                span_or_one(rate, min_silence_ms),
                flags.len() as int,
            )
    }
}

/// Whether the list holds stretches of a recording of `n` samples, in order and apart.
pub open spec fn is_ordered(list: Seq<(usize, usize)>, n: int) -> bool {
    &&& forall|i: int| 0 <= i < list.len() ==> (#[trigger] list[i]).0 < list[i].1 <= n
    &&& forall|i: int, j: int|
        0 <= i < j < list.len() ==> (#[trigger] list[i]).1 <= (#[trigger] list[j]).0
}

proof fn lemma_pause(flags: Seq<bool>, a: int, b: int, k: int)
    requires
        0 <= a <= k < b <= flags.len(),
        forall|t: int| a <= t < b ==> !flags[t],
        a == 0 || flags[a - 1],
        b == flags.len() || flags[b],
    ensures
        pause_start(flags, k) == a,
        pause_end(flags, k) == b,
{
    lemma_pause_start(flags, a, k);
    lemma_pause_end(flags, b, k);
}

proof fn lemma_pause_start(flags: Seq<bool>, a: int, k: int)
    requires
        0 <= a <= k < flags.len(),
        forall|t: int| a <= t < k ==> !flags[t],
        a == 0 || flags[a - 1],
    ensures
        pause_start(flags, k) == a,
    decreases k - a,
{
    if k > a {
        lemma_pause_start(flags, a, k - 1);
    }
}

proof fn lemma_pause_end(flags: Seq<bool>, b: int, k: int)
    requires
        0 <= k < b <= flags.len(),
        forall|t: int| k < t < b ==> !flags[t],
        b == flags.len() || flags[b],
    ensures
        pause_end(flags, k) == b,
    decreases b - k,
{
    if k + 1 < b {
        lemma_pause_end(flags, b, k + 1);
    }
}

/// A stretch of windows that all stay, or all go.
proof fn lemma_staying_block(
    flags: Seq<bool>,
    lo: int,
    hi: int,
    win: int,
    min_silence: int,
    a: int,
    b: int,
    kept: bool,
)
    requires
        0 <= lo <= hi,
        win > 0,
        0 <= a <= b <= window_count(lo, hi, win),
        forall|t: int| a <= t < b ==> stays(flags, lo, hi, win, min_silence, t) == kept,
    ensures
        staying(flags, lo, hi, win, min_silence, b) == staying(
            flags,
            lo,
            hi,
            win,
            min_silence,
            a,
        ) + if kept {
            run(edge(lo, hi, win, a), edge(lo, hi, win, b))
        } else {
            seq![]
        },
    decreases b - a,
{
    let base = staying(flags, lo, hi, win, min_silence, a);
    if a == b {
        assert(run(edge(lo, hi, win, a), edge(lo, hi, win, b)) =~= seq![]);
        assert(base + Seq::<int>::empty() =~= base);
    } else {
        lemma_staying_block(flags, lo, hi, win, min_silence, a, b - 1, kept);
        lemma_edges_rise(lo, hi, win, a, b - 1);
        lemma_edges_rise(lo, hi, win, b - 1, b);
        let x = run(edge(lo, hi, win, a), edge(lo, hi, win, b - 1));
        let y = run(edge(lo, hi, win, b - 1), edge(lo, hi, win, b));
        assert(x + y =~= run(edge(lo, hi, win, a), edge(lo, hi, win, b)));
        assert((base + x) + y =~= base + (x + y));
        assert((base + Seq::<int>::empty()) + Seq::<int>::empty() =~= base + Seq::<int>::empty());
    }
}

proof fn lemma_edges_rise(lo: int, hi: int, win: int, a: int, b: int)
    requires
        0 <= lo <= hi,
        win > 0,
        0 <= a <= b,
    ensures
        edge(lo, hi, win, a) <= edge(lo, hi, win, b),
{
    assert(a * win <= b * win) by (nonlinear_arith)
        requires
            a <= b,
            win > 0,
    ;
}

/// Appends a stretch to a list.
fn push_stretch(list: &mut Vec<(usize, usize)>, s: usize, e: usize)
    requires
        is_ordered(old(list)@, s as int),
        s < e,
    ensures
        is_ordered(final(list)@, e as int),
        final(list)@ == old(list)@.push((s, e)),
        positions(final(list)@) == positions(old(list)@) + run(s as int, e as int),
{
    let ghost before = list@;
    list.push((s, e));
    assert(list@.drop_last() =~= before);
}

/// Appends a list of stretches that lie from `a` to `b`.
fn append(list: &mut Vec<(usize, usize)>, more: &Vec<(usize, usize)>, a: usize, b: usize)
    requires
        is_ordered(old(list)@, a as int),
        is_ordered(more@, b as int),
        a <= b,
        forall|i: int| 0 <= i < more@.len() ==> a <= (#[trigger] more@[i]).0,
    ensures
        is_ordered(final(list)@, b as int),
        positions(final(list)@) == positions(old(list)@) + positions(more@),
{
    let ghost before = positions(list@);
    let mut i: usize = 0;
    assert(more@.take(0) =~= seq![]);
    assert(before + positions(more@.take(0)) =~= before);
    while i < more.len()
        invariant
            i <= more@.len(),
            is_ordered(more@, b as int),
            forall|k: int| 0 <= k < more@.len() ==> a <= (#[trigger] more@[k]).0,
            i == 0 ==> is_ordered(list@, a as int),
            i > 0 ==> is_ordered(list@, more@[i - 1].1 as int),
            positions(list@) == before + positions(more@.take(i as int)),
        decreases more@.len() - i,
    {
        let (s, e) = more[i];
        let ghost was = list@;
        let ghost so_far = more@.take(i as int);
        push_stretch(list, s, e);
        proof {
            assert(more@.take(i + 1).drop_last() =~= so_far);
            assert(more@.take(i + 1).last() == (s, e));
            assert((before + positions(so_far)) + run(s as int, e as int) =~= before + (positions(
                so_far,
            ) + run(s as int, e as int)));
        }
        i = i + 1;
    }
    assert(more@.take(i as int) =~= more@);
}

/// Finds what is left of the samples from `lo` to `hi` when pauses of `min_silence_ms` milliseconds
/// and more are cut out. To cut out none but those between loud windows, [`apply_trim`] gives it a
/// stretch that begins and ends with one.
pub fn drop_internal_runs<F: Fn(usize, usize) -> bool>(
    lo: usize,
    hi: usize,
    sample_rate: u32,
    loud: &F,
    min_silence_ms: u32,
    frame_ms: u32,
) -> (r: Vec<(usize, usize)>)
    requires
        lo <= hi,
        answers(*loud, hi as int),
    ensures
        is_without_pauses(
            *loud,
            lo as int,
            hi as int,
            sample_rate,
            min_silence_ms,
            frame_ms,
            positions(r@),
        ),
        is_ordered(r@, hi as int),
        forall|i: int| 0 <= i < r@.len() ==> lo <= (#[trigger] r@[i]).0,
{
    let mut out: Vec<(usize, usize)> = Vec::new();
    if min_silence_ms == 0 {
        if lo < hi {
            push_stretch(&mut out, lo, hi);
        }
        assert(positions(out@) =~= run(lo as int, hi as int));
        return out;
    }
    let win: u64 = samples_or_one(sample_rate, frame_ms);
    let min_silence: u64 = samples_or_one(sample_rate, min_silence_ms);
    let measured_flags = measure(lo, hi, win, loud);
    let ghost flags = measured_flags@;
    let mut i: usize = lo;
    let mut k: usize = 0;
    proof {
        lemma_window(lo as int, hi as int, win as int, 0);
    }
    while k < measured_flags.len()
        invariant
            lo <= hi,
            win > 0,
            flags == measured_flags@,
            flags.len() == window_count(lo as int, hi as int, win as int),
            0 <= k <= flags.len(),
            i == edge(lo as int, hi as int, win as int, k as int),
            lo <= i <= hi,
            k == 0 || k == flags.len() || flags[k - 1] || flags[k as int],
            positions(out@) == staying(
                flags,
                lo as int,
                hi as int,
                win as int,
                min_silence as int,
                k as int,
            ),
            is_ordered(out@, i as int),
            forall|x: int| 0 <= x < out@.len() ==> lo <= (#[trigger] out@[x]).0,
        decreases flags.len() - k,
    {
        proof {
            lemma_window(lo as int, hi as int, win as int, k as int);
            lemma_window(lo as int, hi as int, win as int, k + 1);
            assert((k + 1) * win == k * win + win) by (nonlinear_arith);
        }
        let e: usize = window_end(i, hi, win);
        if measured_flags[k] {
            push_stretch(&mut out, i, e);
            i = e;
            k = k + 1;
            continue;
        }
        // The pause goes up to the next loud window.
        let mut j: usize = e;
        let mut t: usize = k + 1;
        while t < measured_flags.len() && !measured_flags[t]
            invariant
                lo <= hi,
                win > 0,
                flags == measured_flags@,
                flags.len() == window_count(lo as int, hi as int, win as int),
                0 <= k < t <= flags.len(),
                j == edge(lo as int, hi as int, win as int, t as int),
                i < j <= hi,
                forall|x: int| k <= x < t ==> !flags[x],
            decreases flags.len() - t,
        {
            proof {
                lemma_window(lo as int, hi as int, win as int, t as int);
                lemma_window(lo as int, hi as int, win as int, t + 1);
                assert((t + 1) * win == t * win + win) by (nonlinear_arith);
            }
            j = window_end(j, hi, win);
            t = t + 1;
        }
        proof {
            lemma_window(lo as int, hi as int, win as int, t as int);
            assert forall|x: int| k <= x < t implies stays(
                flags,
                lo as int,
                hi as int,
                win as int,
                min_silence as int,
                x,
            ) == (j - i < min_silence) by {
                lemma_pause(flags, k as int, t as int, x);
            }
            lemma_staying_block(
                flags,
                lo as int,
                hi as int,
                win as int,
                min_silence as int,
                k as int,
                t as int,
                j - i < min_silence,
            );
        }
        if ((j - i) as u64) < min_silence {
            push_stretch(&mut out, i, j);
        } else {
            assert(positions(out@) + Seq::<int>::empty() =~= positions(out@));
        }
        i = j;
        k = t;
    }
    proof {
        lemma_window(lo as int, hi as int, win as int, k as int);
        assert(measured(
            *loud,
            lo as int,
            hi as int,
            span_or_one(sample_rate, frame_ms),
            flags,
        ));
    }
    out
}

/// Cutting out pauses leaves every loud window and every shorter pause where it is, and takes every
/// longer one out whole.
pub proof fn law_pauses_go_whole(
    flags: Seq<bool>,
    lo: int,
    hi: int,
    win: int,
    min_silence: int,
    a: int,
    b: int,
    k: int,
)
    requires
        0 <= lo <= hi,
        win > 0,
        flags.len() == window_count(lo, hi, win),
        0 <= a <= k < b <= flags.len(),
        forall|t: int| a <= t < b ==> !flags[t],
        a == 0 || flags[a - 1],
        b == flags.len() || flags[b],
    ensures
        stays(flags, lo, hi, win, min_silence, k) <==> edge(lo, hi, win, b) - edge(lo, hi, win, a)
            < min_silence,
{
    lemma_pause(flags, a, b, k);
}

// ---------------------------------------------------------------------------------------------
// Trimming
// ---------------------------------------------------------------------------------------------

/// Whether `left` are the positions from `s` to `e` that are left when long pauses between loud
/// windows are cut out. What comes before the first loud window and after the last one is no such
/// pause and stays, however short a pause is cut out. Where no window is loud, all is one pause.
pub open spec fn is_without_inner_pauses<F: Fn(usize, usize) -> bool>(
    loud: F,
    s: int,
    e: int,
    rate: u32,
    min_silence_ms: u32,
    frame_ms: u32,
    left: Seq<int>,
) -> bool {
    let win = span_or_one(rate, frame_ms);
    exists|flags: Seq<bool>| #[trigger]
        measured(loud, s, e, win, flags) && if rightmost(flags) == 0 {
            is_without_pauses(loud, s, e, rate, min_silence_ms, frame_ms, left)
        } else {
            let a = edge(s, e, win, leftmost(flags));
            let b = edge(s, e, win, rightmost(flags));
            exists|mid: Seq<int>| #[trigger]
                is_without_pauses(loud, a, b, rate, min_silence_ms, frame_ms, mid) && left == run(
                    s,
                    a,
                ) + mid + run(b, e)
        }
}

/// Whether `left` are the positions of a recording of `n` samples that are left when silence is cut
/// out: first at its edges, but for their padding, then its long pauses.
pub open spec fn is_trimmed<F: Fn(usize, usize) -> bool>(
    n: int,
    rate: u32,
    cfg: TrimConfig,
    loud: F,
    left: Seq<int>,
) -> bool {
    if !cfg.enabled {
        left == run(0, n)
    } else {
        exists|flags: Seq<bool>|
            #[trigger] measured(loud, 0, n, span_or_one(rate, FRAME_MS), flags) && {
                let (s, e) = edges_of(
                    flags,
                    n,
                    span_or_one(rate, FRAME_MS),
                    span(rate, EDGE_PAD_MS),
                );
                is_without_inner_pauses(loud, s, e, rate, cfg.min_silence_ms, FRAME_MS, left)
            }
    }
}

/// Finds what is left of the samples from `s` to `e` when pauses of `min_silence_ms` milliseconds
/// and more between loud windows are cut out.
fn drop_inner_pauses<F: Fn(usize, usize) -> bool>(
    s: usize,
    e: usize,
    sample_rate: u32,
    loud: &F,
    min_silence_ms: u32,
    frame_ms: u32,
) -> (r: Vec<(usize, usize)>)
    requires
        s <= e,
        answers(*loud, e as int),
    ensures
        is_without_inner_pauses(
            *loud,
            s as int,
            e as int,
            sample_rate,
            min_silence_ms,
            frame_ms,
            positions(r@),
        ),
        is_ordered(r@, e as int),
{
    let win: u64 = samples_or_one(sample_rate, frame_ms);
    match find_loud(s, e, win, loud) {
        None => drop_internal_runs(s, e, sample_rate, loud, min_silence_ms, frame_ms),
        Some((a, b)) => {
            let mid = drop_internal_runs(a, b, sample_rate, loud, min_silence_ms, frame_ms);
            let mut out: Vec<(usize, usize)> = Vec::new();
            if s < a {
                push_stretch(&mut out, s, a);
            }
            assert(positions(out@) =~= run(s as int, a as int));
            append(&mut out, &mid, a, b);
            let ghost before = positions(out@);
            if b < e {
                push_stretch(&mut out, b, e);
            }
            assert(positions(out@) =~= before + run(b as int, e as int));
            out
        },
    }
}

/// Finds what is left of a recording of `n` samples when silence is cut out. Of a silent one
/// nothing is.
pub fn apply_trim<F: Fn(usize, usize) -> bool>(
    n: usize,
    sample_rate: u32,
    cfg: &TrimConfig,
    loud: &F,
) -> (r: Vec<(usize, usize)>)
    requires
        answers(*loud, n as int),
    ensures
        is_trimmed(n as int, sample_rate, *cfg, *loud, positions(r@)),
        is_ordered(r@, n as int),
{
    if !cfg.enabled {
        let mut out: Vec<(usize, usize)> = Vec::new();
        if n > 0 {
            push_stretch(&mut out, 0, n);
        }
        assert(positions(out@) =~= run(0, n as int));
        return out;
    }
    let (start, end) = trim_edges(n, sample_rate, loud, EDGE_PAD_MS, FRAME_MS);
    drop_inner_pauses(start, end, sample_rate, loud, cfg.min_silence_ms, FRAME_MS)
}

/// Whether `left` holds all positions from `s` to `e` before the first loud window and after the
/// last one.
pub open spec fn has_padding(flags: Seq<bool>, s: int, e: int, win: int, left: Seq<int>) -> bool {
    rightmost(flags) > 0 ==> forall|p: int|
        s <= p < edge(s, e, win, leftmost(flags)) || edge(s, e, win, rightmost(flags)) <= p < e
            ==> #[trigger] left.contains(p)
}

/// The padding stays, however short a pause is cut out: every sample before the first loud window
/// and after the last one is left.
pub proof fn law_padding_stays<F: Fn(usize, usize) -> bool>(
    loud: F,
    s: int,
    e: int,
    rate: u32,
    min_silence_ms: u32,
    frame_ms: u32,
    left: Seq<int>,
)
    requires
        is_without_inner_pauses(loud, s, e, rate, min_silence_ms, frame_ms, left),
    ensures
        exists|flags: Seq<bool>|
            #[trigger] measured(loud, s, e, span_or_one(rate, frame_ms), flags) && has_padding(
                flags,
                s,
                e,
                span_or_one(rate, frame_ms),
                left,
            ),
{
    let win = span_or_one(rate, frame_ms);
    let flags = choose|flags: Seq<bool>| #[trigger]
        measured(loud, s, e, win, flags) && if rightmost(flags) == 0 {
            is_without_pauses(loud, s, e, rate, min_silence_ms, frame_ms, left)
        } else {
            let a = edge(s, e, win, leftmost(flags));
            let b = edge(s, e, win, rightmost(flags));
            exists|mid: Seq<int>| #[trigger]
                is_without_pauses(loud, a, b, rate, min_silence_ms, frame_ms, mid) && left == run(
                    s,
                    a,
                ) + mid + run(b, e)
        };
    lemma_rightmost(flags);
    if rightmost(flags) > 0 {
        let a = edge(s, e, win, leftmost(flags));
        let b = edge(s, e, win, rightmost(flags));
        let mid = choose|mid: Seq<int>| #[trigger]
            is_without_pauses(loud, a, b, rate, min_silence_ms, frame_ms, mid) && left == run(s, a)
                + mid + run(b, e);
        assert forall|p: int| s <= p < a || b <= p < e implies #[trigger] left.contains(p) by {
            if s <= p < a {
                assert(left[p - s] == p);
            } else {
                let at = run(s, a).len() + mid.len();
                assert(left[at + (p - b)] == p);
            }
        }
    }
}

// ---------------------------------------------------------------------------------------------
// Encoding
// ---------------------------------------------------------------------------------------------

/// The samples at the given positions.
pub open spec fn picked(m: Seq<i16>, at: Seq<int>) -> Seq<i16> {
    at.map_values(|p: int| m[p])
}

/// The samples in the given stretches, one stretch after the other.
pub fn pick(m: &[i16], list: &Vec<(usize, usize)>) -> (r: Vec<i16>)
    requires
        is_ordered(list@, m@.len() as int),
    ensures
        r@ == picked(m@, positions(list@)),
{
    let mut out: Vec<i16> = Vec::new();
    let mut i: usize = 0;
    assert(list@.take(0) =~= Seq::empty());
    assert(picked(m@, positions(list@.take(0))) =~= Seq::empty());
    while i < list.len()
        invariant
            i <= list@.len(),
            is_ordered(list@, m@.len() as int),
            out@ == picked(m@, positions(list@.take(i as int))),
        decreases list@.len() - i,
    {
        let (s, e) = list[i];
        let ghost before = out@;
        let mut k: usize = s;
        assert(run(s as int, s as int) =~= seq![]);
        assert(before + picked(m@, seq![]) =~= before);
        while k < e
            invariant
                s <= k <= e <= m@.len(),
                out@ == before + picked(m@, run(s as int, k as int)),
            decreases e - k,
        {
            assert(run(s as int, k + 1) =~= run(s as int, k as int).push(k as int));
            out.push(m[k]);
            k = k + 1;
            assert(out@ =~= before + picked(m@, run(s as int, k as int)));
        }
        proof {
            assert(list@.take(i + 1).drop_last() =~= list@.take(i as int));
            assert(list@.take(i + 1).last() == (s, e));
            let x = positions(list@.take(i as int));
            let y = run(s as int, e as int);
            assert(picked(m@, x + y) =~= picked(m@, x) + picked(m@, y));
        }
        i = i + 1;
    }
    assert(list@.take(i as int) =~= list@);
    out
}

/// What is known of a recording when it has been encoded.
#[derive(Debug, Clone, Copy, PartialEq, Eq, Structural)]
pub struct Encoded {
    /// How many samples were recorded.
    pub samples: usize,
    /// How many samples are left when silence is cut out.
    pub speech_samples: usize,
    /// How many samples a second has.
    pub sample_rate: u32,
    /// Whether the whole recording is as quiet as a room in which nobody speaks.
    pub quiet: bool,
}

/// What is encoded: what is left when silence is cut out, or all of a silent recording.
pub open spec fn encoded_samples(mono: Seq<i16>, kept: Seq<int>) -> Seq<i16> {
    if kept.len() == 0 {
        mono
    } else {
        picked(mono, kept)
    }
}

/// Whether `file` is the WAV file of a recording with silence cut out, and `enc` what is known of
/// it.
pub open spec fn is_encoding<F: Fn(usize, usize) -> bool>(
    mono: Seq<i16>,
    sample_rate: u32,
    trim: TrimConfig,
    loud: F,
    quiet: bool,
    file: Seq<u8>,
    enc: Encoded,
) -> bool {
    exists|kept: Seq<int>|
        #[trigger] is_trimmed(mono.len() as int, sample_rate, trim, loud, kept) && {
            let out = encoded_samples(mono, kept);
            &&& file == wav::written(sample_rate, out)
            &&& wav::samples_of(file) == Some(out)
            &&& enc.samples == mono.len()
            &&& enc.speech_samples == kept.len()
            &&& enc.sample_rate == sample_rate
            &&& enc.quiet == quiet
        }
}

/// Cutting out silence touches neither the length nor the loudness that are known of a recording:
/// under any two settings they are the same. A recording of which nothing would be left is encoded
/// whole.
pub proof fn law_trimming_changes_only_the_samples<F: Fn(usize, usize) -> bool>(
    mono: Seq<i16>,
    sample_rate: u32,
    loud: F,
    quiet: bool,
    a: TrimConfig,
    file_a: Seq<u8>,
    enc_a: Encoded,
    b: TrimConfig,
    file_b: Seq<u8>,
    enc_b: Encoded,
)
    requires
        is_encoding(mono, sample_rate, a, loud, quiet, file_a, enc_a),
        is_encoding(mono, sample_rate, b, loud, quiet, file_b, enc_b),
    ensures
        enc_a.samples == enc_b.samples,
        enc_a.sample_rate == enc_b.sample_rate,
        enc_a.quiet == enc_b.quiet,
        enc_a.speech_samples == 0 ==> wav::samples_of(file_a) == Some(mono),
        enc_b.speech_samples == 0 ==> wav::samples_of(file_b) == Some(mono),
{
}

/// Cuts silence out of a recording of one channel and encodes it as a WAV file. There is none of
/// an empty recording.
pub fn encode<F: Fn(usize, usize) -> bool>(
    mono: &[i16],
    sample_rate: u32,
    trim: &TrimConfig,
    loud: &F,
    quiet: bool,
) -> (r: Option<(Vec<u8>, Encoded)>)
    requires
        answers(*loud, mono@.len() as int),
        wav::writable(sample_rate, mono@.len()),
    ensures
        r is None <==> mono@.len() == 0,
        r matches Some((file, enc)) ==> is_encoding(
            mono@,
            sample_rate,
            *trim,
            *loud,
            quiet,
            file@,
            enc,
        ),
{
    let n: usize = mono.len();
    if n == 0 {
        return None;
    }
    let list = apply_trim(n, sample_rate, trim, loud);
    let kept = pick(mono, &list);
    let speech: usize = kept.len();
    proof {
        lemma_positions_bounded(list@, n as int);
    }
    let file = if speech == 0 {
        wav::encode(sample_rate, mono)
    } else {
        wav::encode(sample_rate, kept.as_slice())
    };
    Some((file, Encoded { samples: n, speech_samples: speech, sample_rate, quiet }))
}

/// Stretches in order hold no more positions than there are.
proof fn lemma_positions_bounded(list: Seq<(usize, usize)>, n: int)
    requires
        is_ordered(list, n),
        n >= 0,
    ensures
        positions(list).len() <= n,
    decreases list.len(),
{
    if list.len() > 0 {
        let rest = list.drop_last();
        assert forall|i: int| 0 <= i < rest.len() implies (#[trigger] rest[i]).0 < rest[i].1
            <= list.last().0 by {
            assert(rest[i] == list[i]);
            assert(list[i].1 <= list[list.len() - 1].0);
        }
        lemma_positions_bounded(rest, list.last().0 as int);
    }
}

/// Cutting out silence makes nothing up and moves nothing: what is left are samples of the
/// recording, in their order.
pub proof fn law_trimming_keeps_order(list: Seq<(usize, usize)>, n: int, i: int, j: int)
    requires
        is_ordered(list, n),
        n >= 0,
        0 <= i < j < positions(list).len(),
    ensures
        0 <= positions(list)[i] < positions(list)[j] < n,
    decreases list.len(),
{
    if list.len() > 0 {
        let rest = list.drop_last();
        let last = list.last();
        assert forall|k: int| 0 <= k < rest.len() implies (#[trigger] rest[k]).0 < rest[k].1
            <= last.0 by {
            assert(rest[k] == list[k]);
            assert(list[k].1 <= list[list.len() - 1].0);
        }
        let cut = positions(rest).len();
        lemma_positions_within(rest, last.0 as int);
        if j < cut {
            law_trimming_keeps_order(rest, last.0 as int, i, j);
        } else if i < cut {
            assert(positions(list)[i] == positions(rest)[i]);
            assert(positions(rest)[i] < last.0);
        }
    }
}

proof fn lemma_positions_within(list: Seq<(usize, usize)>, n: int)
    requires
        is_ordered(list, n),
    ensures
        forall|i: int| 0 <= i < positions(list).len() ==> 0 <= #[trigger] positions(list)[i] < n,
    decreases list.len(),
{
    if list.len() > 0 {
        let rest = list.drop_last();
        assert forall|k: int| 0 <= k < rest.len() implies (#[trigger] rest[k]).0 < rest[k].1
            <= n by {
            assert(rest[k] == list[k]);
        }
        lemma_positions_within(rest, n);
        assert forall|i: int| 0 <= i < positions(list).len() implies 0 <= #[trigger] positions(
            list,
        )[i] < n by {
            assert(list[list.len() - 1].1 <= n);
            if i < positions(rest).len() {
                assert(positions(list)[i] == positions(rest)[i]);
            }
        }
    }
}

/// Whether a recording is worth sending: it lasts a quarter of a second, it is not quiet, and
/// seven twentieths of a second are left when silence is cut out. A recogniser makes up words for
/// others.
pub open spec fn is_worth_sending(file_len: nat, e: Encoded) -> bool {
    &&& file_len > 0
    &&& 4 * e.samples >= e.sample_rate
    &&& !e.quiet
    &&& 20 * e.speech_samples >= 7 * e.sample_rate
}

/// Decides [`is_worth_sending`] for an encoded recording.
pub fn worth_sending(file: &[u8], e: &Encoded) -> (r: bool)
    ensures
        r == is_worth_sending(file@.len(), *e),
{
    file.len() > 0 && 4 * (e.samples as u128) >= e.sample_rate as u128 && !e.quiet && 20 * (
    e.speech_samples as u128) >= 7 * (e.sample_rate as u128)
}

// ---------------------------------------------------------------------------------------------
// A recording that goes on
// ---------------------------------------------------------------------------------------------

/// How much has been recorded so far, in a recording that goes on.
#[derive(Debug, Clone, Copy, PartialEq, Eq, Structural)]
pub struct BufferHandle {
    /// How many samples there are, of all channels.
    pub len: usize,
    pub sample_rate: u32,
    pub channels: u16,
}

/// Takes all that has been recorded so far; the recording goes on and begins anew.
pub fn take_recorded<T>(buffer: &mut Vec<T>) -> (r: Vec<T>)
    ensures
        r@ == old(buffer)@,
        final(buffer)@ == Seq::<T>::empty(),
{
    let mut taken: Vec<T> = Vec::new();
    std::mem::swap(&mut taken, buffer);
    taken
}

impl BufferHandle {
    /// How many samples of all channels are `ms` milliseconds.
    pub open spec fn samples_for(self, ms: u32) -> int {
        (self.sample_rate * self.channels * ms) / 1000
    }

    /// Whether less than `ms` milliseconds have been recorded.
    pub open spec fn is_shorter_than(self, ms: u32) -> bool {
        self.len * 1000 < ms * (self.sample_rate * self.channels)
    }

    /// Whether `r` is what `quiet` said of the last `ms` milliseconds; no where less has been
    /// recorded.
    pub open spec fn is_tail<F: Fn(usize, usize) -> bool>(self, ms: u32, quiet: F, r: bool) -> bool {
        if 0 < self.samples_for(ms) <= self.len {
            call_ensures(quiet, ((self.len - self.samples_for(ms)) as usize, self.len), r)
        } else {
            !r
        }
    }

    /// Decides [`BufferHandle::is_shorter_than`].
    pub fn shorter_than(&self, ms: u32) -> (r: bool)
        ensures
            r == self.is_shorter_than(ms),
    {
        let per_second: u64 = self.per_second();
        assert(0 <= ms * per_second <= 0xffff_ffff * 0x1_0000_0000_0000) by (nonlinear_arith)
            requires
                0 <= ms <= 0xffff_ffff,
                0 <= per_second <= 0x1_0000_0000_0000,
        ;
        (self.len as u128) * 1000 < (ms as u128) * (per_second as u128)
    }

    fn per_second(&self) -> (r: u64)
        ensures
            r == self.sample_rate * self.channels,
            r <= 0x1_0000_0000_0000,
    {
        assert(0 <= self.sample_rate * self.channels <= 0xffff_ffff * 0xffff) by (nonlinear_arith)
            requires
                0 <= self.sample_rate <= 0xffff_ffff,
                0 <= self.channels <= 0xffff,
        ;
        (self.sample_rate as u64) * (self.channels as u64)
    }

    /// Whether the last `tail_ms` milliseconds are silent, as `quiet` says of a stretch of samples.
    /// They are not while less has been recorded.
    pub fn tail_is_silent<F: Fn(usize, usize) -> bool>(&self, tail_ms: u32, quiet: &F) -> (r: bool)
        requires
            answers(*quiet, self.len as int),
        ensures
            self.is_tail(tail_ms, *quiet, r),
    {
        let per_second: u64 = self.per_second();
        assert(0 <= per_second * tail_ms <= 0xffff_ffff * 0x1_0000_0000_0000) by (nonlinear_arith)
            requires
                0 <= tail_ms <= 0xffff_ffff,
                0 <= per_second <= 0x1_0000_0000_0000,
        ;
        let want: u128 = (per_second as u128) * (tail_ms as u128) / 1000;
        if want == 0 || want > self.len as u128 {
            return false;
        }
        (*quiet)(self.len - want as usize, self.len)
    }

    /// Whether what has been recorded so far is a segment of its own: it is long enough, and ends
    /// with a pause.
    pub fn ends_segment<F: Fn(usize, usize) -> bool>(
        &self,
        min_segment_ms: u32,
        pause_ms: u32,
        quiet: &F,
    ) -> (r: bool)
        requires
            answers(*quiet, self.len as int),
        ensures
            self.is_shorter_than(min_segment_ms) ==> !r,
            !self.is_shorter_than(min_segment_ms) ==> self.is_tail(pause_ms, *quiet, r),
    {
        !self.shorter_than(min_segment_ms) && self.tail_is_silent(pause_ms, quiet)
    }
}

// ---------------------------------------------------------------------------------------------
// Lengths in time
// ---------------------------------------------------------------------------------------------

/// What [`span`] counts lasts `ms` milliseconds: it is no longer, and with one sample more it would
/// be. A second has as many samples as the rate says, and twice the rate twice as many.
pub proof fn law_span_lasts_its_time(rate: u32, ms: u32)
    ensures
        span(rate, ms) * 1000 <= rate * ms < (span(rate, ms) + 1) * 1000,
        span(rate, 1000) == rate,
        span_or_one(rate, ms) >= 1,
        rate * ms >= 1000 ==> span_or_one(rate, ms) * 1000 <= rate * ms < (span_or_one(rate, ms)
            + 1) * 1000,
{
    let x = rate * ms;
    assert(x >= 0) by (nonlinear_arith)
        requires
            x == rate * ms,
    ;
}

/// Whether a recording is worth sending depends on what lasts how long, not on the rate: one with
/// more samples, just as many times more of them each second, gets the same answer.
pub proof fn law_worth_is_judged_in_seconds(
    file: &[u8],
    a: Encoded,
    b: Encoded,
    factor: int,
    r: bool,
    s: bool,
)
    requires
        factor > 0,
        b.samples == a.samples * factor,
        b.speech_samples == a.speech_samples * factor,
        b.sample_rate == a.sample_rate * factor,
        b.quiet == a.quiet,
        call_ensures(worth_sending, (file, &a), r),
        call_ensures(worth_sending, (file, &b), s),
    ensures
        r == s,
{
    assert((4 * a.samples >= a.sample_rate) == (4 * b.samples >= b.sample_rate))
        by (nonlinear_arith)
        requires
            factor > 0,
            b.samples == a.samples * factor,
            b.sample_rate == a.sample_rate * factor,
    ;
    assert((20 * a.speech_samples >= 7 * a.sample_rate) == (20 * b.speech_samples >= 7
        * b.sample_rate)) by (nonlinear_arith)
        requires
            factor > 0,
            b.speech_samples == a.speech_samples * factor,
            b.sample_rate == a.sample_rate * factor,
    ;
}

/// A recording of less than 250 ms is never sent, nor one with less than 350 ms of speech, nor one
/// that is quiet, nor an empty file; and every other one is. Lengths are those of `sample_rate`
/// samples a second.
pub proof fn law_short_and_silent_recordings_are_kept_back(file: &[u8], e: Encoded, r: bool)
    requires
        call_ensures(worth_sending, (file, &e), r),
    ensures
        e.samples * 1000 < 250 * e.sample_rate ==> !r,
        e.speech_samples * 1000 < 350 * e.sample_rate ==> !r,
        e.quiet ==> !r,
        file@.len() == 0 ==> !r,
        file@.len() > 0 && !e.quiet && e.samples * 1000 >= 250 * e.sample_rate && e.speech_samples
            * 1000 >= 350 * e.sample_rate ==> r,
{
}

/// How much has been recorded is judged in time: whole seconds of all channels are shorter than
/// `ms` exactly where they are in milliseconds, more samples never are shorter, and neither is the
/// same recording on more channels.
pub proof fn law_recorded_time(h: BufferHandle, k: BufferHandle, ms: u32, secs: int, r: bool, s: bool)
    requires
        call_ensures(BufferHandle::shorter_than, (&h, ms), r),
        call_ensures(BufferHandle::shorter_than, (&k, ms), s),
        h.sample_rate == k.sample_rate,
    ensures
        h.len == secs * h.sample_rate * h.channels && h.sample_rate > 0 && h.channels > 0 ==> (r
            <==> secs * 1000 < ms),
        h.channels == k.channels && h.len <= k.len && s ==> r,
        h.len * k.channels == k.len * h.channels && h.channels > 0 && k.channels > 0 ==> r == s,
{
    let p = h.sample_rate * h.channels;
    if h.len == secs * h.sample_rate * h.channels && h.sample_rate > 0 && h.channels > 0 {
        assert(secs * h.sample_rate * h.channels == secs * p) by (nonlinear_arith)
            requires
                p == h.sample_rate * h.channels,
        ;
        assert(p > 0) by (nonlinear_arith)
            requires
                p == h.sample_rate * h.channels,
                h.sample_rate > 0,
                h.channels > 0,
        ;
        assert((secs * p * 1000 < ms * p) == (secs * 1000 < ms)) by (nonlinear_arith)
            requires
                p > 0,
        ;
    }
    if h.len * k.channels == k.len * h.channels && h.channels > 0 && k.channels > 0 {
        let (a, b, c, d, t) = (
            h.len as int,
            h.channels as int,
            k.len as int,
            k.channels as int,
            h.sample_rate as int,
        );
        assert((a * 1000 < ms * (t * b)) == (c * 1000 < ms * (t * d))) by (nonlinear_arith)
            requires
                a * d == c * b,
                b > 0,
                d > 0,
        {
            assert((a * 1000 < ms * (t * b)) == (a * 1000 * d < ms * (t * b) * d))
                by (nonlinear_arith)
                requires
                    d > 0,
            ;
            assert((c * 1000 < ms * (t * d)) == (c * 1000 * b < ms * (t * d) * b))
                by (nonlinear_arith)
                requires
                    b > 0,
            ;
            assert(a * 1000 * d == c * 1000 * b) by (nonlinear_arith)
                requires
                    a * d == c * b,
            ;
            assert(ms * (t * b) * d == ms * (t * d) * b) by (nonlinear_arith);
        }
    }
}

/// The end of a recording is silent exactly where `quiet` says so of one stretch: it ends where the
/// recording does, and lasts `tail_ms` milliseconds of all channels, to the sample. It is not while
/// less has been recorded.
pub proof fn law_tail_lasts_its_time<F: Fn(usize, usize) -> bool>(
    h: BufferHandle,
    tail_ms: u32,
    quiet: F,
    r: bool,
)
    requires
        call_ensures(BufferHandle::tail_is_silent::<F>, (&h, tail_ms, &quiet), r),
    ensures
        ({
            let units = tail_ms * (h.sample_rate * h.channels);
            &&& (h.len + 1) * 1000 <= units ==> !r
            &&& units < 1000 ==> !r
            &&& 1000 <= units && units <= h.len * 1000 ==> exists|s: usize|
                (h.len - s) * 1000 <= units < (h.len - s + 1) * 1000 && #[trigger] call_ensures(
                    quiet,
                    (s, h.len),
                    r,
                )
            &&& r ==> exists|s: usize|
                s < h.len && (h.len - s) * 1000 <= units < (h.len - s + 1) * 1000
                    && #[trigger] call_ensures(quiet, (s, h.len), true)
        }),
{
    lemma_tail_units(h, tail_ms);
}

proof fn lemma_tail_units(h: BufferHandle, ms: u32)
    ensures
        ({
            let units = ms * (h.sample_rate * h.channels);
            h.samples_for(ms) * 1000 <= units < (h.samples_for(ms) + 1) * 1000
        }),
{
    assert(h.sample_rate * h.channels * ms == ms * (h.sample_rate * h.channels))
        by (nonlinear_arith);
}

/// One channel that is recorded on several at once, as it is on one, is judged alike: for a whole
/// number of milliseconds of samples, the stretch of `k` channels that is asked about begins `k`
/// times as far from the end.
pub proof fn law_tail_is_the_same_on_every_channel<F: Fn(usize, usize) -> bool>(
    one: BufferHandle,
    many: BufferHandle,
    tail_ms: u32,
    quiet: F,
    also: F,
    r: bool,
    t: bool,
)
    requires
        one.channels == 1,
        many.channels > 0,
        many.sample_rate == one.sample_rate,
        many.len == one.len * many.channels,
        one.sample_rate % 1000 == 0,
        one.sample_rate > 0,
        tail_ms > 0,
        call_ensures(BufferHandle::tail_is_silent::<F>, (&one, tail_ms, &quiet), r),
        call_ensures(BufferHandle::tail_is_silent::<F>, (&many, tail_ms, &also), t),
        // Of a stretch of the one channel `quiet` says what `also` says of it on all channels.
        forall|a: usize, b: usize, c: usize, d: usize, x: bool, y: bool|
            c == a * many.channels && d == b * many.channels && #[trigger] call_ensures(
                quiet,
                (a, b),
                x,
            ) && #[trigger] call_ensures(also, (c, d), y) ==> x == y,
    ensures
        r == t,
{
    let per_ms = one.sample_rate / 1000;
    let n = tail_ms * per_ms;
    let ch = many.channels as int;
    assert(one.sample_rate == 1000 * per_ms);
    assert(one.sample_rate * 1 * tail_ms == 1000 * n) by (nonlinear_arith)
        requires
            one.sample_rate == 1000 * per_ms,
            n == tail_ms * per_ms,
    ;
    assert(many.sample_rate * many.channels * tail_ms == 1000 * (n * ch)) by (nonlinear_arith)
        requires
            many.sample_rate == 1000 * per_ms,
            n == tail_ms * per_ms,
            ch == many.channels,
    ;
    assert(n > 0) by (nonlinear_arith)
        requires
            n == tail_ms * per_ms,
            tail_ms > 0,
            per_ms > 0,
    ;
    assert((n * ch <= one.len * ch) == (n <= one.len)) by (nonlinear_arith)
        requires
            ch > 0,
    ;
    assert(n * ch > 0) by (nonlinear_arith)
        requires
            n > 0,
            ch > 0,
    ;
    assert(one.samples_for(tail_ms) == n);
    assert(many.samples_for(tail_ms) == n * ch);
    if n <= one.len {
        assert((one.len - n) * ch == one.len * ch - n * ch) by (nonlinear_arith);
        let (a, b) = ((one.len - n) as usize, one.len);
        let (c, d) = ((many.len - n * ch) as usize, many.len);
        assert(c == a * many.channels && d == b * many.channels);
        assert(call_ensures(quiet, (a, b), r));
        assert(call_ensures(also, (c, d), t));
    }
}

/// A recording is cut into segments exactly where it has lasted `min_segment_ms` milliseconds and
/// its last `pause_ms` milliseconds, of all channels, are silent.
pub proof fn law_segments_end_with_pauses<F: Fn(usize, usize) -> bool>(
    h: BufferHandle,
    min_segment_ms: u32,
    pause_ms: u32,
    quiet: F,
    r: bool,
)
    requires
        call_ensures(
            BufferHandle::ends_segment::<F>,
            (&h, min_segment_ms, pause_ms, &quiet),
            r,
        ),
    ensures
        ({
            let second = h.sample_rate * h.channels;
            let units = pause_ms * second;
            &&& h.len * 1000 < min_segment_ms * second ==> !r
            &&& (h.len + 1) * 1000 <= units || units < 1000 ==> !r
            &&& r ==> exists|s: usize|
                s < h.len && (h.len - s) * 1000 <= units < (h.len - s + 1) * 1000
                    && #[trigger] call_ensures(quiet, (s, h.len), true)
            &&& h.len * 1000 >= min_segment_ms * second && 1000 <= units && units <= h.len * 1000
                ==> exists|s: usize|
                (h.len - s) * 1000 <= units < (h.len - s + 1) * 1000 && #[trigger] call_ensures(
                    quiet,
                    (s, h.len),
                    r,
                )
        }),
{
    lemma_tail_units(h, pause_ms);
}

// ---------------------------------------------------------------------------------------------
// What trimming comes to
// ---------------------------------------------------------------------------------------------

/// The windows of a stretch follow one another from its beginning to its end, each of `win` samples
/// but the last, which has what is left.
pub proof fn law_windows_cover(lo: int, hi: int, win: int, p: int)
    requires
        0 <= lo <= p < hi,
        win > 0,
    ensures
        ({
            let k = (p - lo) / win;
            &&& 0 <= k < window_count(lo, hi, win)
            &&& edge(lo, hi, win, k) <= p < edge(lo, hi, win, k + 1)
            &&& edge(lo, hi, win, 0) == lo
            &&& edge(lo, hi, win, window_count(lo, hi, win)) == hi
            &&& edge(lo, hi, win, k + 1) - edge(lo, hi, win, k) == if k + 1 < window_count(
                lo,
                hi,
                win,
            ) {
                win
            } else {
                hi - lo - k * win
            }
        }),
{
    let k = (p - lo) / win;
    let n = hi - lo;
    let count = window_count(lo, hi, win);
    assert(k * win <= p - lo < (k + 1) * win && k >= 0) by (nonlinear_arith)
        requires
            k == (p - lo) / win,
            p >= lo,
            win > 0,
    ;
    assert((count - 1) * win < n <= count * win) by (nonlinear_arith)
        requires
            count == (n + win - 1) / win,
            win > 0,
    ;
    assert(k < count) by (nonlinear_arith)
        requires
            k * win < n,
            n <= count * win,
            win > 0,
    ;
    assert((k + 1) * win == k * win + win) by (nonlinear_arith);
    assert(0 * win == 0);
    if k + 1 < count {
        assert((k + 1) * win <= (count - 1) * win) by (nonlinear_arith)
            requires
                k + 1 <= count - 1,
                win > 0,
        ;
    } else {
        assert(k + 1 == count);
    }
}

/// Trimming the edges keeps what lies from `pad` samples before the first loud window to `pad`
/// samples after the last one, and nothing where no window is loud.
pub proof fn law_edges_are_cut_round_what_is_loud(
    flags: Seq<bool>,
    n: int,
    win: int,
    pad: int,
    first: int,
    last: int,
)
    requires
        n >= 0,
        win > 0,
        pad >= 0,
        flags.len() == window_count(0, n, win),
    ensures
        (forall|i: int| 0 <= i < flags.len() ==> !#[trigger] flags[i]) ==> edges_of(
            flags,
            n,
            win,
            pad,
        ) == (0int, 0int),
        0 <= first <= last < flags.len() && flags[first] && flags[last] && (forall|i: int|
            0 <= i < first || last < i < flags.len() ==> !#[trigger] flags[i]) ==> ({
            let (s, e) = edges_of(flags, n, win, pad);
            &&& s == if first * win >= pad {
                first * win - pad
            } else {
                0
            }
            &&& e == if (last + 1) * win + pad <= n {
                (last + 1) * win + pad
            } else {
                n
            }
        }),
{
    lemma_rightmost(flags);
    if 0 <= first <= last < flags.len() && flags[first] && flags[last] && (forall|i: int|
        0 <= i < first || last < i < flags.len() ==> !#[trigger] flags[i]) {
        lemma_leftmost(flags, first);
        lemma_some_leftmost(flags);
        assert(rightmost(flags) == last + 1);
        assert(leftmost(flags) == first);
    }
}

/// Whether `n` samples last `ms` milliseconds: no longer, unless one sample does, and with one more
/// they would be longer.
pub open spec fn lasts(n: int, rate: u32, ms: u32) -> bool {
    &&& n >= 1
    &&& n > 1 ==> n * 1000 <= rate * ms
    &&& rate * ms < (n + 1) * 1000
}

/// Whether `flags` is what `loud` says of the samples from `lo` to `hi`, `win` of them at a time.
pub open spec fn told<F: Fn(usize, usize) -> bool>(
    loud: F,
    lo: int,
    hi: int,
    win: int,
    flags: Seq<bool>,
) -> bool {
    &&& (flags.len() - 1) * win < hi - lo <= flags.len() * win
    &&& forall|k: int|
        0 <= k < flags.len() ==> call_ensures(
            loud,
            (
                (lo + k * win) as usize,
                (if lo + k * win + win < hi {
                    lo + k * win + win
                } else {
                    hi
                }) as usize,
            ),
            #[trigger] flags[k],
        )
}

/// Whether the windows from `a` to `b` are silent, and those next to them are not.
pub open spec fn is_pause(flags: Seq<bool>, a: int, b: int) -> bool {
    &&& 0 <= a < b <= flags.len()
    &&& forall|t: int| a <= t < b ==> !#[trigger] flags[t]
    &&& a == 0 || flags[a - 1]
    &&& b == flags.len() || flags[b]
}

/// Whether of the samples from `lo` to `hi` just those are left that are in loud windows of `win`
/// samples or in a pause of fewer than `least` samples.
pub open spec fn only_pauses_go<F: Fn(usize, usize) -> bool>(
    loud: F,
    lo: int,
    hi: int,
    win: int,
    least: int,
    left: Seq<int>,
) -> bool {
    exists|flags: Seq<bool>|
        #![trigger told(loud, lo, hi, win, flags)]
        {
            &&& told(loud, lo, hi, win, flags)
            &&& forall|p: int| #[trigger] left.contains(p) ==> lo <= p < hi
            &&& forall|p: int|
                #![trigger left.contains(p)]
                lo <= p < hi && flags[(p - lo) / win] ==> left.contains(p)
            &&& forall|p: int, a: int, b: int|
                #![trigger left.contains(p), is_pause(flags, a, b)]
                lo <= p < hi && is_pause(flags, a, b) && a <= (p - lo) / win < b ==> (left.contains(
                    p,
                ) <==> (if lo + b * win < hi {
                    lo + b * win
                } else {
                    hi
                }) - (lo + a * win) < least)
        }
}

proof fn lemma_run_contains(s: int, e: int, p: int)
    requires
        s <= e,
    ensures
        run(s, e).contains(p) <==> s <= p < e,
{
    if s <= p < e {
        assert(run(s, e)[p - s] == p);
    }
}

/// A position is among those that stay exactly where its window does.
proof fn lemma_staying_contains(
    flags: Seq<bool>,
    lo: int,
    hi: int,
    win: int,
    least: int,
    count: int,
    p: int,
)
    requires
        0 <= lo <= hi,
        win > 0,
        0 <= count <= window_count(lo, hi, win),
    ensures
        staying(flags, lo, hi, win, least, count).contains(p) <==> lo <= p < edge(
            lo,
            hi,
            win,
            count,
        ) && lo < hi && stays(flags, lo, hi, win, least, (p - lo) / win),
    decreases count,
{
    if count <= 0 {
        assert(0 * win == 0);
    } else {
        let k = count - 1;
        lemma_staying_contains(flags, lo, hi, win, least, k, p);
        lemma_window(lo, hi, win, k);
        let before = staying(flags, lo, hi, win, least, k);
        let r = run(edge(lo, hi, win, k), edge(lo, hi, win, count));
        lemma_run_contains(edge(lo, hi, win, k), edge(lo, hi, win, count), p);
        if edge(lo, hi, win, k) <= p < edge(lo, hi, win, count) {
            assert(count * win == k * win + win) by (nonlinear_arith)
                requires
                    count == k + 1,
            ;
            assert((p - lo) / win == k) by (nonlinear_arith)
                requires
                    k * win <= p - lo < k * win + win,
                    win > 0,
            ;
        }
        if stays(flags, lo, hi, win, least, k) {
            let both = before + r;
            if both.contains(p) {
                let i = choose|i: int| 0 <= i < both.len() && both[i] == p;
                if i < before.len() {
                    assert(before[i] == p);
                } else {
                    assert(r[i - before.len()] == p);
                }
            }
            if before.contains(p) {
                let i = choose|i: int| 0 <= i < before.len() && before[i] == p;
                assert(both[i] == p);
            }
            if r.contains(p) {
                let i = choose|i: int| 0 <= i < r.len() && r[i] == p;
                assert(both[before.len() + i] == p);
            }
        } else {
            assert(before + Seq::<int>::empty() =~= before);
        }
    }
}

/// What [`is_without_pauses`] says, window by window.
proof fn lemma_only_pauses_go<F: Fn(usize, usize) -> bool>(
    loud: F,
    lo: int,
    hi: int,
    win: int,
    least: int,
    flags: Seq<bool>,
)
    requires
        0 <= lo <= hi,
        win > 0,
        measured(loud, lo, hi, win, flags),
    ensures
        only_pauses_go(
            loud,
            lo,
            hi,
            win,
            least,
            staying(flags, lo, hi, win, least, flags.len() as int),
        ),
{
    let left = staying(flags, lo, hi, win, least, flags.len() as int);
    let count = flags.len() as int;
    let n = hi - lo;
    assert((count - 1) * win < n <= count * win) by (nonlinear_arith)
        requires
            count == (n + win - 1) / win,
            win > 0,
    ;
    assert(edge(lo, hi, win, count) == hi);
    assert forall|k: int| 0 <= k < flags.len() implies call_ensures(
        loud,
        (
            (lo + k * win) as usize,
            (if lo + k * win + win < hi {
                lo + k * win + win
            } else {
                hi
            }) as usize,
        ),
        #[trigger] flags[k],
    ) by {
        lemma_window(lo, hi, win, k);
        assert((k + 1) * win == k * win + win) by (nonlinear_arith);
    }
    assert(told(loud, lo, hi, win, flags));
    assert forall|p: int| #[trigger] left.contains(p) implies lo <= p < hi by {
        lemma_staying_contains(flags, lo, hi, win, least, count, p);
    }
    assert forall|p: int|
        #![trigger left.contains(p)]
        lo <= p < hi && flags[(p - lo) / win] implies left.contains(p) by {
        lemma_staying_contains(flags, lo, hi, win, least, count, p);
    }
    assert forall|p: int, a: int, b: int|
        #![trigger left.contains(p), is_pause(flags, a, b)]
        lo <= p < hi && is_pause(flags, a, b) && a <= (p - lo) / win < b implies (left.contains(p)
        <==> (if lo + b * win < hi {
        lo + b * win
    } else {
        hi
    }) - (lo + a * win) < least) by {
        let k = (p - lo) / win;
        lemma_staying_contains(flags, lo, hi, win, least, count, p);
        lemma_pause(flags, a, b, k);
        lemma_window(lo, hi, win, a);
    }
}

proof fn lemma_lasts(rate: u32, ms: u32)
    ensures
        lasts(span_or_one(rate, ms), rate, ms),
{
    law_span_lasts_its_time(rate, ms);
}

/// Cutting out pauses takes out the pauses that last `min_silence_ms` milliseconds or more, at
/// whatever rate, and nothing else. Where `min_silence_ms` is 0, all stays.
pub proof fn law_only_long_pauses_go<F: Fn(usize, usize) -> bool>(
    lo: usize,
    hi: usize,
    sample_rate: u32,
    loud: F,
    min_silence_ms: u32,
    frame_ms: u32,
    r: Vec<(usize, usize)>,
)
    requires
        lo <= hi,
        call_ensures(
            drop_internal_runs::<F>,
            (lo, hi, sample_rate, &loud, min_silence_ms, frame_ms),
            r,
        ),
    ensures
        min_silence_ms == 0 ==> forall|p: int|
            lo <= p < hi <==> #[trigger] positions(r@).contains(p),
        min_silence_ms > 0 ==> exists|win: int, least: int|
            lasts(win, sample_rate, frame_ms) && lasts(least, sample_rate, min_silence_ms)
                && #[trigger] only_pauses_go(loud, lo as int, hi as int, win, least, positions(r@)),
{
    let left = positions(r@);
    if min_silence_ms == 0 {
        assert forall|p: int| lo <= p < hi <==> #[trigger] left.contains(p) by {
            lemma_run_contains(lo as int, hi as int, p);
        }
    } else {
        lemma_pauses_in_time(
            loud,
            lo as int,
            hi as int,
            sample_rate,
            min_silence_ms,
            frame_ms,
            left,
        );
    }
}

proof fn lemma_pauses_in_time<F: Fn(usize, usize) -> bool>(
    loud: F,
    lo: int,
    hi: int,
    rate: u32,
    min_silence_ms: u32,
    frame_ms: u32,
    left: Seq<int>,
)
    requires
        0 <= lo <= hi,
        min_silence_ms > 0,
        is_without_pauses(loud, lo, hi, rate, min_silence_ms, frame_ms, left),
    ensures
        exists|win: int, least: int|
            lasts(win, rate, frame_ms) && lasts(least, rate, min_silence_ms)
                && #[trigger] only_pauses_go(loud, lo, hi, win, least, left),
{
    let win = span_or_one(rate, frame_ms);
    let least = span_or_one(rate, min_silence_ms);
    lemma_lasts(rate, frame_ms);
    lemma_lasts(rate, min_silence_ms);
    let flags = choose|flags: Seq<bool>|
        #[trigger] measured(loud, lo, hi, win, flags) && left == staying(
            flags,
            lo,
            hi,
            win,
            least,
            flags.len() as int,
        );
    lemma_only_pauses_go(loud, lo, hi, win, least, flags);
    assert(only_pauses_go(loud, lo, hi, win, least, left));
}

proof fn lemma_told<F: Fn(usize, usize) -> bool>(loud: F, lo: int, hi: int, win: int, flags: Seq<bool>)
    requires
        0 <= lo <= hi,
        win > 0,
        measured(loud, lo, hi, win, flags),
    ensures
        told(loud, lo, hi, win, flags),
{
    lemma_only_pauses_go(loud, lo, hi, win, 0, flags);
    let count = flags.len() as int;
    let n = hi - lo;
    assert((count - 1) * win < n <= count * win) by (nonlinear_arith)
        requires
            count == (n + win - 1) / win,
            win > 0,
    ;
    assert forall|k: int| 0 <= k < flags.len() implies call_ensures(
        loud,
        (
            (lo + k * win) as usize,
            (if lo + k * win + win < hi {
                lo + k * win + win
            } else {
                hi
            }) as usize,
        ),
        #[trigger] flags[k],
    ) by {
        lemma_window(lo, hi, win, k);
        assert((k + 1) * win == k * win + win) by (nonlinear_arith);
    }
}

/// Whether `first` and `last` are the first and the last loud window.
pub open spec fn are_outermost(flags: Seq<bool>, first: int, last: int) -> bool {
    &&& 0 <= first <= last < flags.len()
    &&& flags[first] && flags[last]
    &&& forall|i: int| 0 <= i < first || last < i < flags.len() ==> !#[trigger] flags[i]
}

/// Whether no window is loud.
pub open spec fn all_silent(flags: Seq<bool>) -> bool {
    forall|i: int| 0 <= i < flags.len() ==> !#[trigger] flags[i]
}

proof fn lemma_outermost(flags: Seq<bool>)
    ensures
        rightmost(flags) == 0 ==> all_silent(flags),
        rightmost(flags) > 0 ==> are_outermost(flags, leftmost(flags), rightmost(flags) - 1),
{
    lemma_rightmost(flags);
    lemma_some_leftmost(flags);
}

/// Whether `s` to `e` is the stretch from `pad` samples before the first loud window to `pad`
/// samples after the last one, of a recording of `n` samples; where none is loud, it is empty.
pub open spec fn is_round_speech(flags: Seq<bool>, n: int, win: int, pad: int, s: int, e: int) -> bool {
    ||| all_silent(flags) && s == 0 && e == 0
    ||| exists|first: int, last: int|
        #![trigger are_outermost(flags, first, last)]
        {
            &&& are_outermost(flags, first, last)
            &&& s == if first * win >= pad {
                first * win - pad
            } else {
                0
            }
            &&& e == if (last + 1) * win + pad <= n {
                (last + 1) * win + pad
            } else {
                n
            }
        }
}

/// Whether `s` to `e` is a recording without its silent edges, with windows of `frame_ms`
/// milliseconds and `pad_ms` milliseconds kept on each side.
pub open spec fn is_without_edges<F: Fn(usize, usize) -> bool>(
    loud: F,
    n: int,
    rate: u32,
    pad_ms: u32,
    frame_ms: u32,
    s: int,
    e: int,
) -> bool {
    exists|flags: Seq<bool>, win: int, pad: int|
        #![trigger told(loud, 0, n, win, flags), is_round_speech(flags, n, win, pad, s, e)]
        {
            &&& lasts(win, rate, frame_ms)
            &&& pad * 1000 <= rate * pad_ms < (pad + 1) * 1000
            &&& told(loud, 0, n, win, flags)
            &&& is_round_speech(flags, n, win, pad, s, e)
        }
}

proof fn lemma_without_edges<F: Fn(usize, usize) -> bool>(
    loud: F,
    n: int,
    rate: u32,
    pad_ms: u32,
    frame_ms: u32,
    flags: Seq<bool>,
)
    requires
        n >= 0,
        measured(loud, 0, n, span_or_one(rate, frame_ms), flags),
    ensures
        ({
            let (s, e) = edges_of(flags, n, span_or_one(rate, frame_ms), span(rate, pad_ms));
            &&& 0 <= s <= e <= n
            &&& is_without_edges(loud, n, rate, pad_ms, frame_ms, s, e)
        }),
{
    let win = span_or_one(rate, frame_ms);
    let pad = span(rate, pad_ms);
    let (s, e) = edges_of(flags, n, win, pad);
    lemma_lasts(rate, frame_ms);
    law_span_lasts_its_time(rate, pad_ms);
    lemma_told(loud, 0, n, win, flags);
    lemma_outermost(flags);
    lemma_rightmost(flags);
    let (first, last) = (leftmost(flags), rightmost(flags) - 1);
    law_edges_are_cut_round_what_is_loud(flags, n, win, pad, first, last);
    assert(pad >= 0);
    if rightmost(flags) > 0 {
        assert(are_outermost(flags, first, last));
        assert(first * win <= last * win) by (nonlinear_arith)
            requires
                first <= last,
                win > 0,
        ;
        assert((last + 1) * win == last * win + win) by (nonlinear_arith);
        lemma_window(0, n, win, last);
        assert(first * win >= 0) by (nonlinear_arith)
            requires
                first >= 0,
                win > 0,
        ;
    }
    assert(is_round_speech(flags, n, win, pad, s, e));
}

/// The stretch that [`trim_edges`] keeps begins `pad_ms` milliseconds before the first loud window
/// and ends as long after the last one, at whatever rate.
pub proof fn law_edges_are_cut_in_time<F: Fn(usize, usize) -> bool>(
    n: usize,
    sample_rate: u32,
    loud: F,
    pad_ms: u32,
    frame_ms: u32,
    r: (usize, usize),
)
    requires
        call_ensures(trim_edges::<F>, (n, sample_rate, &loud, pad_ms, frame_ms), r),
    ensures
        is_without_edges(loud, n as int, sample_rate, pad_ms, frame_ms, r.0 as int, r.1 as int),
{
    let flags = choose|flags: Seq<bool>|
        #[trigger] measured(loud, 0, n as int, span_or_one(sample_rate, frame_ms), flags)
            && edges_of(
            flags,
            n as int,
            span_or_one(sample_rate, frame_ms),
            span(sample_rate, pad_ms),
        ) == (r.0 as int, r.1 as int);
    lemma_without_edges(loud, n as int, sample_rate, pad_ms, frame_ms, flags);
}

/// Whether just the pauses of `min_silence_ms` milliseconds and more are gone from the samples from
/// `lo` to `hi`; none where `min_silence_ms` is 0.
pub open spec fn long_pauses_go<F: Fn(usize, usize) -> bool>(
    loud: F,
    lo: int,
    hi: int,
    rate: u32,
    min_silence_ms: u32,
    left: Seq<int>,
) -> bool {
    if min_silence_ms == 0 {
        left == run(lo, hi)
    } else {
        exists|win: int, least: int|
            lasts(win, rate, 20) && lasts(least, rate, min_silence_ms)
                && #[trigger] only_pauses_go(loud, lo, hi, win, least, left)
    }
}

/// Whether just the long pauses between loud windows are gone from the samples from `s` to `e`: what
/// stands before the first loud window and after the last one is left.
pub open spec fn inner_pauses_go<F: Fn(usize, usize) -> bool>(
    loud: F,
    s: int,
    e: int,
    rate: u32,
    min_silence_ms: u32,
    left: Seq<int>,
) -> bool {
    ||| long_pauses_go(loud, s, e, rate, min_silence_ms, left) && exists|flags: Seq<bool>, win: int|
        lasts(win, rate, 20) && #[trigger] told(loud, s, e, win, flags) && all_silent(flags)
    ||| exists|flags: Seq<bool>, win: int, first: int, last: int, mid: Seq<int>|
        #![trigger told(loud, s, e, win, flags), are_outermost(flags, first, last), mid.len()]
        {
            let a = s + first * win;
            let b = if s + (last + 1) * win < e {
                s + (last + 1) * win
            } else {
                e
            };
            &&& lasts(win, rate, 20)
            &&& told(loud, s, e, win, flags)
            &&& are_outermost(flags, first, last)
            &&& long_pauses_go(loud, a, b, rate, min_silence_ms, mid)
            &&& left == run(s, a) + mid + run(b, e)
        }
}

proof fn lemma_long_pauses_go<F: Fn(usize, usize) -> bool>(
    loud: F,
    lo: int,
    hi: int,
    rate: u32,
    min_silence_ms: u32,
    left: Seq<int>,
)
    requires
        0 <= lo <= hi,
        is_without_pauses(loud, lo, hi, rate, min_silence_ms, FRAME_MS, left),
    ensures
        long_pauses_go(loud, lo, hi, rate, min_silence_ms, left),
{
    if min_silence_ms > 0 {
        lemma_pauses_in_time(loud, lo, hi, rate, min_silence_ms, FRAME_MS, left);
    }
}

proof fn lemma_inner_pauses_go<F: Fn(usize, usize) -> bool>(
    loud: F,
    s: int,
    e: int,
    rate: u32,
    min_silence_ms: u32,
    left: Seq<int>,
)
    requires
        0 <= s <= e,
        is_without_inner_pauses(loud, s, e, rate, min_silence_ms, FRAME_MS, left),
    ensures
        inner_pauses_go(loud, s, e, rate, min_silence_ms, left),
{
    let win = span_or_one(rate, FRAME_MS);
    lemma_lasts(rate, FRAME_MS);
    let flags = choose|flags: Seq<bool>| #[trigger]
        measured(loud, s, e, win, flags) && if rightmost(flags) == 0 {
            is_without_pauses(loud, s, e, rate, min_silence_ms, FRAME_MS, left)
        } else {
            let a = edge(s, e, win, leftmost(flags));
            let b = edge(s, e, win, rightmost(flags));
            exists|mid: Seq<int>| #[trigger]
                is_without_pauses(loud, a, b, rate, min_silence_ms, FRAME_MS, mid) && left == run(
                    s,
                    a,
                ) + mid + run(b, e)
        };
    lemma_told(loud, s, e, win, flags);
    lemma_outermost(flags);
    lemma_rightmost(flags);
    if rightmost(flags) == 0 {
        lemma_long_pauses_go(loud, s, e, rate, min_silence_ms, left);
        assert(told(loud, s, e, win, flags) && all_silent(flags));
    } else {
        let (first, last) = (leftmost(flags), rightmost(flags) - 1);
        let a = edge(s, e, win, leftmost(flags));
        let b = edge(s, e, win, rightmost(flags));
        lemma_window(s, e, win, first);
        lemma_edges_rise(s, e, win, first, last + 1);
        let mid = choose|mid: Seq<int>| #[trigger]
            is_without_pauses(loud, a, b, rate, min_silence_ms, FRAME_MS, mid) && left == run(s, a)
                + mid + run(b, e);
        lemma_long_pauses_go(loud, a, b, rate, min_silence_ms, mid);
        assert(a == s + first * win);
        assert(are_outermost(flags, first, last) && mid.len() >= 0);
    }
}

/// Whether `left` are the positions of a recording of `n` samples that are left when silence is cut
/// out: its edges, but for 80 ms on each side, and then the pauses between loud windows that last
/// [`TrimConfig::min_silence_ms`] or more. Where it is not to be cut out, all stays.
pub open spec fn is_trimmed_in_time<F: Fn(usize, usize) -> bool>(
    n: int,
    rate: u32,
    cfg: TrimConfig,
    loud: F,
    left: Seq<int>,
) -> bool {
    if cfg.enabled {
        exists|s: int, e: int|
            0 <= s <= e <= n && #[trigger] is_without_edges(loud, n, rate, 80, 20, s, e)
                && inner_pauses_go(loud, s, e, rate, cfg.min_silence_ms, left)
    } else {
        left == run(0, n)
    }
}

proof fn lemma_trimmed_in_time<F: Fn(usize, usize) -> bool>(
    n: int,
    rate: u32,
    cfg: TrimConfig,
    loud: F,
    left: Seq<int>,
)
    requires
        n >= 0,
        is_trimmed(n, rate, cfg, loud, left),
    ensures
        is_trimmed_in_time(n, rate, cfg, loud, left),
{
    if cfg.enabled {
        let win = span_or_one(rate, FRAME_MS);
        let pad = span(rate, EDGE_PAD_MS);
        let flags = choose|flags: Seq<bool>|
            #[trigger] measured(loud, 0, n, win, flags) && {
                let (s, e) = edges_of(flags, n, win, pad);
                is_without_inner_pauses(loud, s, e, rate, cfg.min_silence_ms, FRAME_MS, left)
            };
        let (s, e) = edges_of(flags, n, win, pad);
        lemma_without_edges(loud, n, rate, EDGE_PAD_MS, FRAME_MS, flags);
        lemma_inner_pauses_go(loud, s, e, rate, cfg.min_silence_ms, left);
    }
}

/// Silence is cut out of a recording in two steps, at whatever rate: its edges, but for 80 ms on
/// each side, and then the pauses between loud windows that last [`TrimConfig::min_silence_ms`] or
/// more. Where it is not to be cut out, all stays.
pub proof fn law_silence_is_cut_out_in_time<F: Fn(usize, usize) -> bool>(
    n: usize,
    sample_rate: u32,
    cfg: TrimConfig,
    loud: F,
    r: Vec<(usize, usize)>,
)
    requires
        call_ensures(apply_trim::<F>, (n, sample_rate, &cfg, &loud), r),
    ensures
        is_trimmed_in_time(n as int, sample_rate, cfg, loud, positions(r@)),
{
    lemma_trimmed_in_time(n as int, sample_rate, cfg, loud, positions(r@));
}

/// What is known of an encoded recording is true of it: its rate, how many samples were recorded and
/// how many are left, and whether it is quiet. The file holds the samples that are left, or all of
/// them where none is; and all of them where no silence is to be cut out.
pub proof fn law_encoding_tells_of_the_recording<F: Fn(usize, usize) -> bool>(
    mono: &[i16],
    sample_rate: u32,
    trim: TrimConfig,
    loud: F,
    quiet: bool,
    file: Vec<u8>,
    enc: Encoded,
)
    requires
        call_ensures(encode::<F>, (mono, sample_rate, &trim, &loud, quiet), Some((file, enc))),
    ensures
        enc.samples == mono@.len(),
        enc.sample_rate == sample_rate,
        enc.quiet == quiet,
        exists|kept: Seq<int>| #[trigger]
            is_trimmed_in_time(mono@.len() as int, sample_rate, trim, loud, kept) && kept.len()
                == enc.speech_samples && wav::samples_of(file@) == Some(
                if kept.len() == 0 {
                    mono@
                } else {
                    Seq::new(kept.len(), |i: int| mono@[kept[i]])
                },
            ),
        !trim.enabled ==> wav::samples_of(file@) == Some(mono@) && enc.speech_samples == mono@.len(),
{
    let kept = choose|kept: Seq<int>|
        #[trigger] is_trimmed(mono@.len() as int, sample_rate, trim, loud, kept) && {
            let out = encoded_samples(mono@, kept);
            &&& file@ == wav::written(sample_rate, out)
            &&& wav::samples_of(file@) == Some(out)
            &&& enc.samples == mono@.len()
            &&& enc.speech_samples == kept.len()
            &&& enc.sample_rate == sample_rate
            &&& enc.quiet == quiet
        };
    lemma_trimmed_in_time(mono@.len() as int, sample_rate, trim, loud, kept);
    assert(picked(mono@, kept) =~= Seq::new(kept.len(), |i: int| mono@[kept[i]]));
    if !trim.enabled {
        assert(picked(mono@, run(0, mono@.len() as int)) =~= mono@);
    }
}

/// The samples that are picked are those of the recording at the positions in the list, one for each
/// position and in that order.
pub proof fn law_picked_samples(m: &[i16], list: Vec<(usize, usize)>, r: Vec<i16>, i: int)
    requires
        call_ensures(pick, (m, &list), r),
        0 <= i < positions(list@).len(),
    ensures
        r@.len() == positions(list@).len(),
        r@[i] == m@[positions(list@)[i]],
{
}

} // verus!
