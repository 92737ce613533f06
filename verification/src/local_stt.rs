//! The client of a whisper server on this machine: where it is found, which of its addresses is
//! asked, and the conversion of a recording to the one format that it takes, 16 kHz mono in 16 bit.
use crate::float::{
    self, double, lemma_double, lemma_double_exact, lemma_double_power, lemma_double_rises,
    lemma_nearest_at_least, lemma_nearest_exact, lemma_nearest_factor, lemma_nearest_power, nearest,
    nearest_double, power, round_double, round_to,
};
use crate::stt::{local_fields, local_pairs, opt, pairs, FormField};
use crate::text::{
    chars_of, concat3, decimal, owned, push_str, same, starts_with, strip_prefix, to_decimal,
};
use crate::wav;
use vstd::arithmetic::div_mod::lemma_fundamental_div_mod_converse;
use vstd::arithmetic::power2::{
    lemma2_to64, lemma2_to64_rest, lemma_pow2_adds, lemma_pow2_pos, lemma_pow2_strictly_increases,
    lemma_pow2_unfold, pow2,
};
use vstd::prelude::*;
use vstd::slice::slice_subrange;

verus! {

// ---------------------------------------------------------------------------------------------
// Conversion to one channel
// ---------------------------------------------------------------------------------------------

/// The sum of the samples.
pub open spec fn total(s: Seq<i16>) -> int
    decreases s.len(),
{
    if s.len() == 0 {
        0
    } else {
        total(s.drop_last()) + s.last()
    }
}

/// `a / b` without its fraction, for a positive `b`.
pub open spec fn truncated(a: int, b: int) -> int {
    if a >= 0 {
        a / b
    } else {
        -((-a) / b)
    }
}

/// The number of frames in `len` interleaved samples; the last frame may be incomplete.
pub open spec fn frame_count(len: int, channels: int) -> int {
    (len + channels - 1) / channels
}

/// The samples of frame `k`.
pub open spec fn frame(samples: Seq<i16>, channels: int, k: int) -> Seq<i16> {
    samples.subrange(
        k * channels,
        if k * channels + channels <= samples.len() {
            k * channels + channels
        } else {
            samples.len() as int
        },
    )
}

/// One channel: of each frame the sum of its samples, divided by the number of channels.
pub open spec fn mono_of(samples: Seq<i16>, channels: int) -> Seq<i16> {
    Seq::new(
        frame_count(samples.len() as int, channels) as nat,
        |k: int| truncated(total(frame(samples, channels, k)), channels) as i16,
    )
}

proof fn lemma_total_bounds(s: Seq<i16>)
    ensures
        -32768 * s.len() <= total(s) <= 32767 * s.len(),
    decreases s.len(),
{
    if s.len() > 0 {
        lemma_total_bounds(s.drop_last());
    }
}

proof fn lemma_average_fits(t: int, n: int, channels: int)
    requires
        0 <= n <= channels,
        0 < channels,
        -32768 * n <= t <= 32767 * n,
    ensures
        -32768 <= truncated(t, channels) <= 32767,
{
    if t >= 0 {
        assert(t / channels <= 32767) by (nonlinear_arith)
            requires
                0 <= t <= 32767 * n,
                n <= channels,
                0 < channels,
        ;
        assert(t / channels >= 0) by (nonlinear_arith)
            requires
                t >= 0,
                channels > 0,
        ;
    } else {
        let u = -t;
        assert(u / channels <= 32768) by (nonlinear_arith)
            requires
                0 <= u <= 32768 * n,
                n <= channels,
                0 < channels,
        ;
        assert(u / channels >= 0) by (nonlinear_arith)
            requires
                u >= 0,
                channels > 0,
        ;
    }
}

proof fn lemma_frame_count(len: int, channels: int)
    requires
        len >= 0,
        channels > 0,
    ensures
        frame_count(len, channels) >= 0,
        len == 0 ==> frame_count(len, channels) == 0,
{
    assert((len + channels - 1) / channels >= 0) by (nonlinear_arith)
        requires
            len >= 0,
            channels > 0,
    ;
    if len == 0 {
        assert((channels - 1) / channels == 0) by (nonlinear_arith)
            requires
                channels > 0,
        ;
    }
}

/// The average of one frame of at most `channels` samples.
fn average(frame: &[i16], channels: u16) -> (r: i16)
    requires
        frame@.len() <= channels,
        channels > 0,
    ensures
        r == truncated(total(frame@), channels as int),
{
    let mut sum: i64 = 0;
    let mut i: usize = 0;
    while i < frame.len()
        invariant
            i <= frame@.len() <= channels,
            sum == total(frame@.take(i as int)),
            -32768 * i <= sum <= 32767 * i,
        decreases frame@.len() - i,
    {
        proof {
            assert(frame@.take(i + 1).drop_last() =~= frame@.take(i as int));
        }
        sum = sum + frame[i] as i64;
        i = i + 1;
    }
    proof {
        assert(frame@.take(i as int) =~= frame@);
        lemma_average_fits(sum as int, i as int, channels as int);
    }
    let c: i64 = channels as i64;
    if sum >= 0 {
        (sum / c) as i16
    } else {
        let u: i64 = -sum;
        (-(u / c)) as i16
    }
}

/// Mixes interleaved channels down to one.
pub fn downmix(samples: &[i16], channels: u16) -> (r: Vec<i16>)
    requires
        channels > 0,
    ensures
        r@ == mono_of(samples@, channels as int),
{
    let n: usize = samples.len();
    let ch: usize = channels as usize;
    let mut out: Vec<i16> = Vec::new();
    let mut at: usize = 0;
    proof {
        lemma_frame_count(n as int, ch as int);
        assert(0 * ch as int == 0);
    }
    while at < n
        invariant
            at <= n,
            n == samples@.len(),
            ch == channels,
            channels > 0,
            at < n ==> at == out@.len() * ch,
            at == n ==> out@.len() == frame_count(n as int, ch as int),
            out@.len() <= frame_count(n as int, ch as int),
            forall|k: int|
                0 <= k < out@.len() ==> out@[k] == mono_of(samples@, ch as int)[k],
        decreases n - at,
    {
        let end: usize = if ch <= n - at {
            at + ch
        } else {
            n
        };
        let ghost k = out@.len() as int;
        proof {
            let c = ch as int;
            assert(k * c + c == (k + 1) * c) by (nonlinear_arith);
            // The frame starts before the end, so it is one of the frames.
            assert(k < (n + c - 1) / c) by (nonlinear_arith)
                requires
                    k * c < n,
                    c > 0,
            ;
            if end == n {
                assert(k + 1 == (n + c - 1) / c) by (nonlinear_arith)
                    requires
                        k * c < n,
                        n <= k * c + c,
                        c > 0,
                ;
            } else {
                assert(k + 1 <= (n + c - 1) / c) by (nonlinear_arith)
                    requires
                        k * c + c < n,
                        c > 0,
                ;
            }
            assert(frame(samples@, c, k) == samples@.subrange(at as int, end as int));
        }
        out.push(average(slice_subrange(samples, at, end), channels));
        proof {
            lemma_total_bounds(frame(samples@, ch as int, k));
            lemma_average_fits(
                total(frame(samples@, ch as int, k)),
                frame(samples@, ch as int, k).len() as int,
                ch as int,
            );
        }
        at = end;
    }
    assert(out@ =~= mono_of(samples@, ch as int));
    out
}

// ---------------------------------------------------------------------------------------------
// Conversion to another sample rate
// ---------------------------------------------------------------------------------------------

/// `num / den` rounded to the nearest whole number, half away from zero, for a positive `den`.
pub open spec fn rounded(num: int, den: int) -> int {
    if num >= 0 {
        (2 * num + den) / (2 * den)
    } else {
        -((2 * (-num) + den) / (2 * den))
    }
}

/// The sample of `m` at `i`, or its last one from there on.
pub open spec fn held(m: Seq<i16>, i: int) -> int {
    if i < m.len() {
        m[i] as int
    } else {
        m.last() as int
    }
}

/// Ratios and positions are counted in small parts, of which so many are one.
pub open spec fn one() -> int {
    pow2(84) as int
}

/// How many samples at the rate `dst` there are for one at the rate `src`, in double precision.
pub open spec fn ratio(src: int, dst: int) -> int {
    nearest(dst * one(), src, double())
}

/// Where sample `j` at the rate `dst` stands among the samples at the rate `src`, in double
/// precision.
pub open spec fn position(j: int, src: int, dst: int) -> int {
    nearest(nearest_double(j) * one() * one(), ratio(src, dst), double())
}

/// The value of the recording `m` at a position: on the straight line between the two samples round
/// it, computed in double precision and rounded.
pub open spec fn drawn(m: Seq<i16>, pos: int) -> int {
    let a = held(m, pos / one());
    let b = held(m, pos / one() + 1);
    let risen = nearest_double((b - a) * (pos % one()));
    rounded(nearest_double(a * one() + risen), one())
}

/// The value of the recording `m` at the time of sample `j` of a recording at the rate `dst`.
pub open spec fn interpolated(m: Seq<i16>, j: int, src: int, dst: int) -> int {
    drawn(m, position(j, src, dst))
}

/// How many samples `len` samples at the rate `src` are at the rate `dst`: the product with the
/// ratio in double precision, rounded.
pub open spec fn resampled_len(len: int, src: int, dst: int) -> int {
    if len == 0 || src == 0 {
        0
    } else {
        rounded(nearest_double(nearest_double(len) * ratio(src, dst)), one())
    }
}

/// The recording `m` at the rate `src`, at the rate `dst`.
pub open spec fn resampled(m: Seq<i16>, src: int, dst: int) -> Seq<i16> {
    Seq::new(
        resampled_len(m.len() as int, src, dst) as nat,
        |j: int| interpolated(m, j, src, dst) as i16,
    )
}

/// Rounding a value between two whole numbers leaves it between them.
proof fn lemma_rounded_between(num: int, den: int, lo: int, hi: int)
    requires
        den > 0,
        lo * den <= num <= hi * den,
    ensures
        lo <= rounded(num, den) <= hi,
{
    if num >= 0 {
        let r = (2 * num + den) / (2 * den);
        assert(lo <= r) by (nonlinear_arith)
            requires
                r == (2 * num + den) / (2 * den),
                lo * den <= num,
                den > 0,
        ;
        assert(r <= hi) by (nonlinear_arith)
            requires
                r == (2 * num + den) / (2 * den),
                num <= hi * den,
                den > 0,
        ;
    } else {
        let u = -num;
        let r = (2 * u + den) / (2 * den);
        assert((-lo) * den == -(lo * den) && (-hi) * den == -(hi * den)) by (nonlinear_arith);
        assert(r <= -lo) by (nonlinear_arith)
            requires
                r == (2 * u + den) / (2 * den),
                u <= (-lo) * den,
                den > 0,
        ;
        assert(-hi <= r) by (nonlinear_arith)
            requires
                r == (2 * u + den) / (2 * den),
                (-hi) * den <= u,
                den > 0,
        ;
    }
}

/// A common factor makes no difference.
proof fn lemma_rounded_factor(num: int, den: int, c: int)
    requires
        den > 0,
        c > 0,
    ensures
        rounded(num * c, den * c) == rounded(num, den),
{
    assert((num >= 0) == (num * c >= 0)) by (nonlinear_arith)
        requires
            c > 0,
    ;
    let u = if num >= 0 {
        num
    } else {
        -num
    };
    let q = (2 * u + den) / (2 * den);
    let r = (2 * u + den) % (2 * den);
    assert(2 * u + den == q * (2 * den) + r && 0 <= r < 2 * den) by (nonlinear_arith)
        requires
            q == (2 * u + den) / (2 * den),
            r == (2 * u + den) % (2 * den),
            den > 0,
    ;
    assert(2 * (u * c) + den * c == q * (2 * (den * c)) + r * c) by (nonlinear_arith)
        requires
            2 * u + den == q * (2 * den) + r,
    ;
    assert(0 <= r * c < 2 * (den * c)) by (nonlinear_arith)
        requires
            0 <= r < 2 * den,
            c > 0,
    ;
    lemma_fundamental_div_mod_converse(2 * (u * c) + den * c, 2 * (den * c), q, r * c);
    assert((-num) * c == -(num * c)) by (nonlinear_arith);
}

/// No sample made by [`resample_linear`] leaves the range of the two samples round it, so it is
/// no louder than both.
pub proof fn law_interpolation_stays_between(m: Seq<i16>, pos: int)
    requires
        m.len() > 0,
        pos >= 0,
    ensures
        ({
            let a = held(m, pos / one());
            let b = held(m, pos / one() + 1);
            let v = drawn(m, pos);
            (a <= v <= b) || (b <= v <= a)
        }),
        i16::MIN <= drawn(m, pos) <= i16::MAX,
{
    let one = one();
    lemma_pow2_pos(84);
    let f = pos % one;
    assert(pos / one >= 0 && 0 <= f < one) by (nonlinear_arith)
        requires
            f == pos % one,
            pos >= 0,
            one > 0,
    ;
    let a = held(m, pos / one);
    let b = held(m, pos / one + 1);
    let risen = nearest_double((b - a) * f);
    let sum = nearest_double(a * one + risen);
    assert((b - a) * one == b * one - a * one) by (nonlinear_arith);
    assert(0 * one == 0);
    lemma_double_exact(0, 84);
    lemma_double_exact(b - a, 84);
    lemma_double_exact(a, 84);
    lemma_double_exact(b, 84);
    if a <= b {
        assert(0 <= (b - a) * f <= (b - a) * one) by (nonlinear_arith)
            requires
                a <= b,
                0 <= f < one,
        ;
        lemma_double_rises(0, (b - a) * f);
        lemma_double_rises((b - a) * f, (b - a) * one);
        lemma_double_rises(a * one, a * one + risen);
        lemma_double_rises(a * one + risen, b * one);
        lemma_rounded_between(sum, one, a, b);
    } else {
        assert((b - a) * one <= (b - a) * f <= 0) by (nonlinear_arith)
            requires
                b <= a,
                0 <= f < one,
        ;
        lemma_double_rises((b - a) * f, 0);
        lemma_double_rises((b - a) * one, (b - a) * f);
        lemma_double_rises(a * one + risen, a * one);
        lemma_double_rises(b * one, a * one + risen);
        lemma_rounded_between(sum, one, b, a);
    }
}

/// At the time of a sample the recording has that sample.
proof fn lemma_drawn_at_sample(m: Seq<i16>, i: int)
    requires
        m.len() > 0,
        i >= 0,
    ensures
        (i * one()) / one() == i,
        drawn(m, i * one()) == held(m, i),
{
    let one = one();
    lemma_pow2_pos(84);
    assert((i * one) / one == i && (i * one) % one == 0) by (nonlinear_arith)
        requires
            one > 0,
    ;
    let a = held(m, i);
    let b = held(m, i + 1);
    assert((b - a) * 0 == 0) by (nonlinear_arith);
    assert(0 * one == 0);
    lemma_double_exact(0, 84);
    lemma_double_exact(a, 84);
    lemma_rounded_between(a * one, one, a, a);
}

/// The ratio of a rate and itself is one.
proof fn lemma_ratio_of_same(rate: int)
    requires
        rate > 0,
    ensures
        ratio(rate, rate) == one(),
{
    lemma_double();
    lemma_pow2_pos(84);
    lemma_nearest_factor(one(), 1, double(), rate);
    assert(rate * 1 == rate && 1 * one() == one());
    lemma_nearest_exact(1, double(), 84);
}

/// A recording that has the wanted rate already is left as it is, one of up to 2^53 samples.
pub proof fn law_same_rate_changes_nothing(m: Seq<i16>, rate: int)
    requires
        rate > 0,
        m.len() <= double(),
    ensures
        resampled(m, rate, rate) == m,
{
    let n = m.len() as int;
    let one = one();
    lemma_double();
    lemma_pow2_pos(84);
    lemma_ratio_of_same(rate);
    assert forall|j: int| 0 <= j <= n implies #[trigger] nearest_double(j) == j by {
        lemma_nearest_exact(j, double(), 0);
        assert(j * pow2(0) == j) by (nonlinear_arith)
            requires
                pow2(0) == 1,
        ;
    }
    if n > 0 {
        assert(nearest_double(n) == n);
        assert(n * one >= 0) by (nonlinear_arith)
            requires
                n >= 0,
                one > 0,
        ;
        lemma_nearest_exact(n, double(), 84);
        lemma_rounded_between(n * one, one, n, n);
    }
    assert(resampled_len(n, rate, rate) == n);
    assert forall|j: int| 0 <= j < n implies #[trigger] resampled(m, rate, rate)[j] == m[j] by {
        assert(nearest_double(j) == j);
        assert(j * one >= 0) by (nonlinear_arith)
            requires
                j >= 0,
                one > 0,
        ;
        assert(j * one * one == one * (j * one)) by (nonlinear_arith);
        lemma_nearest_factor(j * one, 1, double(), one);
        assert(one * 1 == one);
        lemma_nearest_exact(j, double(), 84);
        lemma_drawn_at_sample(m, j);
    }
    assert(resampled(m, rate, rate) =~= m);
}

/// The sample at `i`, or the last one.
fn hold(m: &[i16], i: u128) -> (r: i64)
    requires
        m@.len() > 0,
    ensures
        r == held(m@, i as int),
{
    let n: usize = m.len();
    if i < n as u128 {
        m[i as usize] as i64
    } else {
        m[n - 1] as i64
    }
}

/// [`ratio`], as a number and the power of two that it is to be multiplied with.
fn ratio_of(src: u32, dst: u32) -> (r: (u64, u32))
    requires
        src > 0,
    ensures
        r.0 * pow2(r.1 as nat) == ratio(src as int, dst as int),
        r.0 <= double(),
        r.1 <= 63,
        dst > 0 ==> r.0 > 0,
{
    proof {
        lemma_double();
        lemma_one();
        let one = one();
        let x = dst * one;
        assert(0 <= x <= 0xffff_ffff * one) by (nonlinear_arith)
            requires
                x == dst * one,
                0 <= dst <= 0xffff_ffff,
                one > 0,
        ;
    }
    let unit: u128 = power(84);
    let (q, k) = round_to((dst as u128) * unit, src as u128, 0x20_0000_0000_0000);
    proof {
        let one = one();
        let num = dst * one;
        if k > 63 {
            let p = pow2((k - 1) as nat);
            lemma2_to64();
            lemma2_to64_rest();
            if k > 64 {
                lemma_pow2_strictly_increases(63, (k - 1) as nat);
            }
            assert(src * p >= p) by (nonlinear_arith)
                requires
                    src >= 1,
                    p >= 0,
            ;
            assert(num < 0x1_0000_0000 * one);
        }
        if dst > 0 {
            assert(num >= one) by (nonlinear_arith)
                requires
                    num == dst * one,
                    dst >= 1,
                    one > 0,
            ;
            lemma_nearest_at_least(num, src as int, double(), 1);
            if q == 0 {
                assert(q * pow2(k as nat) == 0) by (nonlinear_arith)
                    requires
                        q == 0,
                ;
            }
        }
    }
    (q, k)
}

proof fn lemma_one()
    ensures
        one() == 0x10_0000_0000_0000_0000_0000,
{
    lemma2_to64();
    lemma2_to64_rest();
    lemma_pow2_adds(42, 42);
    assert(0x400_0000_0000int * 0x400_0000_0000int == 0x10_0000_0000_0000_0000_0000int)
        by (nonlinear_arith);
}

/// A bound on the power of two that a rounded number is multiplied with.
proof fn lemma_exponent(num: int, k: nat, b: nat)
    requires
        num < pow2(b),
        b >= 53,
        k > 0 ==> 1 * pow2((k - 1) as nat) * double() <= num,
    ensures
        k <= b - 53,
{
    if k > b - 53 {
        lemma_pow2_adds((k - 1) as nat, 53);
        if k - 1 + 53 > b {
            lemma_pow2_strictly_increases(b, (k - 1 + 53) as nat);
        }
    }
}

/// [`rounded`], with the two numbers as they are.
fn round_div(num: i128, den: u128) -> (r: i128)
    requires
        0 < den <= 0x10_0000_0000_0000_0000_0000_0000_0000,
        -0x10_0000_0000_0000_0000_0000_0000_0000 <= num
            <= 0x10_0000_0000_0000_0000_0000_0000_0000,
    ensures
        r == rounded(num as int, den as int),
{
    let size: u128 = if num >= 0 {
        num as u128
    } else {
        (-num) as u128
    };
    let q: u128 = (2 * size + den) / (2 * den);
    proof {
        assert(q <= 2 * size + den) by (nonlinear_arith)
            requires
                q == (2 * size + den) / (2 * den),
                den > 0,
        ;
    }
    if num >= 0 {
        q as i128
    } else {
        -(q as i128)
    }
}

/// How many samples `len` samples at the rate `src` are at the rate `dst`.
fn count_of(len: usize, src: u32, dst: u32) -> (r: u128)
    requires
        len > 0,
        src > 0,
    ensures
        r == resampled_len(len as int, src as int, dst as int),
{
    let (q, k) = ratio_of(src, dst);
    let (l, kl) = round_to(len as u128, 1, 0x20_0000_0000_0000);
    proof {
        lemma_double();
        lemma_one();
        lemma2_to64();
        lemma2_to64_rest();
        assert(0 <= l * q <= 0x20_0000_0000_0000 * 0x20_0000_0000_0000) by (nonlinear_arith)
            requires
                0 <= l <= 0x20_0000_0000_0000,
                0 <= q <= 0x20_0000_0000_0000,
        ;
        lemma_pow2_adds(53, 54);
        lemma_exponent(len as int, kl as nat, 64);
    }
    let product: u128 = (l as u128) * (q as u128);
    let (p, kp) = round_to(product, 1, 0x20_0000_0000_0000);
    let e: u32 = kp + kl + k;
    proof {
        lemma_exponent(product as int, kp as nat, 107);
        lemma_pow2_adds(kl as nat, k as nat);
        let (x, y, t) = (pow2(kl as nat), pow2(k as nat), pow2((kl + k) as nat));
        assert((l * x) * (q * y) == (l * q) * t) by (nonlinear_arith)
            requires
                t == x * y,
        ;
        lemma_double_power(product as int, (kl + k) as nat);
        lemma_pow2_adds(kp as nat, (kl + k) as nat);
        let u = pow2(kp as nat);
        assert((p * u) * t == p * pow2(e as nat)) by (nonlinear_arith)
            requires
                pow2(e as nat) == u * t,
        ;
        assert(nearest_double(nearest_double(len as int) * ratio(src as int, dst as int)) == p
            * pow2(e as nat));
    }
    if e >= 84 {
        let more: u128 = power(e - 84);
        proof {
            lemma_pow2_adds((e - 84) as nat, 84);
            let v = p * more;
            assert(p * pow2(e as nat) == v * one()) by (nonlinear_arith)
                requires
                    v == p * more,
                    pow2(e as nat) == more * one(),
            ;
            lemma_rounded_between(v * one(), one(), v, v);
            if e - 84 < 44 {
                lemma_pow2_strictly_increases((e - 84) as nat, 44);
            }
            assert(v <= 0x20_0000_0000_0000 * 0x1000_0000_0000) by (nonlinear_arith)
                requires
                    v == p * more,
                    0 <= p <= 0x20_0000_0000_0000,
                    0 <= more <= 0x1000_0000_0000,
            ;
        }
        (p as u128) * more
    } else {
        let n: u32 = 84 - e;
        let t: u128 = power(n);
        proof {
            lemma_pow2_adds(n as nat, e as nat);
            lemma_pow2_pos(e as nat);
            lemma_rounded_factor(p as int, t as int, pow2(e as nat) as int);
            if n < 84 {
                lemma_pow2_strictly_increases(n as nat, 84);
            }
            assert(rounded(p as int, t as int) >= 0) by (nonlinear_arith)
                requires
                    rounded(p as int, t as int) == (2 * p + t) / (2 * t as int),
                    p >= 0,
                    t > 0,
            ;
        }
        round_div(p as i128, t) as u128
    }
}

/// [`position`], as a number and the power of two that it is to be multiplied with, from the ratio
/// in the same form.
fn position_of(j: usize, src: u32, dst: u32, q: u64, k: u32) -> (r: (u64, u32))
    requires
        0 < q <= double(),
        k <= 63,
        q * pow2(k as nat) == ratio(src as int, dst as int),
    ensures
        r.0 * pow2(r.1 as nat) == position(j as int, src as int, dst as int),
        r.0 <= double(),
        r.1 <= 500,
{
    proof {
        lemma_double();
        lemma_one();
        lemma2_to64();
        lemma2_to64_rest();
        lemma_pow2_pos(k as nat);
    }
    if j == 0 {
        proof {
            let den = ratio(src as int, dst as int);
            assert(den > 0) by (nonlinear_arith)
                requires
                    den == q * pow2(k as nat),
                    q > 0,
                    pow2(k as nat) > 0,
            ;
            assert(0int / den == 0 && 0int % den == 0) by (nonlinear_arith)
                requires
                    den > 0,
            ;
            assert(den * double() > 0) by (nonlinear_arith)
                requires
                    den > 0,
                    double() > 0,
            ;
        }
        return (0, 0);
    }
    let (l, kl) = round_to(j as u128, 1, 0x20_0000_0000_0000);
    proof {
        lemma_nearest_at_least(j as int, 1, double(), 1);
        if l == 0 {
            assert(l * pow2(kl as nat) == 0) by (nonlinear_arith)
                requires
                    l == 0,
            ;
        }
        assert(l * pow2(0) == l) by (nonlinear_arith)
            requires
                pow2(0) == 1,
        ;
    }
    let mut x: u128 = l as u128;
    let mut s: u32 = 0;
    while s < 105 && x < 0x1000_0000_0000_0000_0000_0000_0000_0000
        invariant
            x == l * pow2(s as nat),
            0 < x < 0x2000_0000_0000_0000_0000_0000_0000_0000,
            l > 0,
            s <= 105,
        decreases 105 - s,
    {
        proof {
            lemma_pow2_unfold((s + 1) as nat);
            assert(2 * (l * pow2(s as nat)) == l * pow2((s + 1) as nat)) by (nonlinear_arith)
                requires
                    pow2((s + 1) as nat) == 2 * pow2(s as nat),
            ;
        }
        x = 2 * x;
        s = s + 1;
    }
    let (p, kp) = round_to(x, q as u128, 0x20_0000_0000_0000);
    let z: u32 = kl + 168 - k - s;
    proof {
        if s == 105 {
            lemma_pow2_adds(53, 52);
            assert(x >= pow2(105)) by (nonlinear_arith)
                requires
                    x == l * pow2(105),
                    l >= 1,
                    pow2(105) >= 0,
            ;
        }
        assert(q * double() <= 0x20_0000_0000_0000 * 0x20_0000_0000_0000) by (nonlinear_arith)
            requires
                0 <= q <= 0x20_0000_0000_0000,
                double() == 0x20_0000_0000_0000,
        ;
        lemma_nearest_power(x as int, q as int, double(), z as nat);
        lemma_position(l as int, kl as nat, s as nat, z as nat, k as nat);
        let c = pow2(k as nat) as int;
        lemma_pow2_pos(z as nat);
        assert(x * pow2(z as nat) >= 0) by (nonlinear_arith)
            requires
                x >= 0,
                pow2(z as nat) >= 0,
        ;
        lemma_nearest_factor(x * pow2(z as nat), q as int, double(), c);
        assert(c * q == q * c) by (nonlinear_arith);
        lemma_pow2_adds(kp as nat, z as nat);
        let (u, t) = (pow2(kp as nat), pow2(z as nat));
        assert((p * u) * t == p * pow2((kp + z) as nat)) by (nonlinear_arith)
            requires
                pow2((kp + z) as nat) == u * t,
        ;
    }
    (p, kp + z)
}

/// The same product of powers of two in two orders.
proof fn lemma_position(l: int, kl: nat, s: nat, z: nat, k: nat)
    requires
        s + z + k == kl + 168,
    ensures
        l * pow2(kl) * one() * one() == pow2(k) * (l * pow2(s) * pow2(z)),
{
    lemma_pow2_adds(kl, 84);
    lemma_pow2_adds(kl + 84, 84);
    lemma_pow2_adds(s, z);
    lemma_pow2_adds(s + z, k);
    let (a, b, c, d, e) = (pow2(kl), pow2(84), pow2(s), pow2(z), pow2(k));
    assert((a * b) * b == (c * d) * e);
    assert(l * a * b * b == l * ((a * b) * b)) by (nonlinear_arith);
    assert(e * (l * c * d) == l * ((c * d) * e)) by (nonlinear_arith);
}

/// The value at a position that is a number times a power of two, in larger parts.
proof fn lemma_drawn_in_parts(m: Seq<i16>, q: int, e: nat, n: nat)
    requires
        e + n == 84,
        q >= 0,
    ensures
        ({
            let t = pow2(n) as int;
            let a = held(m, q / t);
            let b = held(m, q / t + 1);
            drawn(m, q * pow2(e)) == rounded(
                nearest_double(a * t + nearest_double((b - a) * (q % t))),
                t,
            )
        }),
{
    let t = pow2(n) as int;
    let c = pow2(e) as int;
    let i = q / t;
    let f = q % t;
    lemma_pow2_pos(n);
    lemma_pow2_pos(e);
    lemma_pow2_adds(n, e);
    assert(q == i * t + f && 0 <= f < t) by (nonlinear_arith)
        requires
            i == q / t,
            f == q % t,
            t > 0,
    ;
    assert(q * c == i * (t * c) + f * c) by (nonlinear_arith)
        requires
            q == i * t + f,
    ;
    assert(0 <= f * c < t * c) by (nonlinear_arith)
        requires
            0 <= f < t,
            c > 0,
    ;
    lemma_fundamental_div_mod_converse(q * c, t * c, i, f * c);
    let a = held(m, i);
    let b = held(m, i + 1);
    let risen = nearest_double((b - a) * f);
    lemma_double_power((b - a) * f, e);
    assert((b - a) * (f * c) == (b - a) * f * c) by (nonlinear_arith);
    assert(a * (t * c) + risen * c == (a * t + risen) * c) by (nonlinear_arith);
    lemma_double_power(a * t + risen, e);
    lemma_rounded_factor(nearest_double(a * t + risen), t, c);
}

/// Bounds on the numbers in [`sample_at`].
proof fn lemma_small(d: int, f: int, a: int, n: nat)
    requires
        -0xffff <= d <= 0xffff,
        -0x8000 <= a <= 0x8000,
        0 <= f < pow2(n),
        n <= 84,
    ensures
        0 < pow2(n) <= 0x10_0000_0000_0000_0000_0000,
        -0x1_0000 * pow2(n) <= d * f <= 0x1_0000 * pow2(n),
        -0x1_0000 * pow2(n) <= nearest_double(d * f) <= 0x1_0000 * pow2(n),
        -0x8000 * pow2(n) <= a * pow2(n) <= 0x8000 * pow2(n),
        ({
            let w = nearest_double(a * pow2(n) + nearest_double(d * f));
            -0x2_0000 * pow2(n) <= w <= 0x2_0000 * pow2(n)
        }),
{
    lemma_one();
    lemma_pow2_pos(n);
    if n < 84 {
        lemma_pow2_strictly_increases(n, 84);
    }
    let t = pow2(n) as int;
    assert(-0x1_0000 * t <= d * f <= 0x1_0000 * t) by (nonlinear_arith)
        requires
            -0xffff <= d <= 0xffff,
            0 <= f < t,
    ;
    assert(-0x8000 * t <= a * t <= 0x8000 * t) by (nonlinear_arith)
        requires
            -0x8000 <= a <= 0x8000,
            t > 0,
    ;
    lemma_double_exact(-0x1_0000, n);
    lemma_double_exact(0x1_0000, n);
    lemma_double_rises(-0x1_0000 * t, d * f);
    lemma_double_rises(d * f, 0x1_0000 * t);
    lemma_double_exact(-0x1_0000, n + 1);
    lemma_double_exact(0x1_0000, n + 1);
    lemma_pow2_unfold(n + 1);
    let w = a * t + nearest_double(d * f);
    lemma_double_rises(-0x1_0000 * (2 * t), w);
    lemma_double_rises(w, 0x1_0000 * (2 * t));
}

/// The value of the recording at a position.
fn sample_at(input: &[i16], q: u64, e: u32) -> (r: i16)
    requires
        input@.len() > 0,
        q <= double(),
        e <= 500,
    ensures
        r == drawn(input@, q * pow2(e as nat)),
{
    proof {
        lemma_double();
        lemma_one();
        lemma_pow2_pos(e as nat);
        assert(q * pow2(e as nat) >= 0) by (nonlinear_arith)
            requires
                q >= 0,
                pow2(e as nat) > 0,
        ;
        law_interpolation_stays_between(input@, q * pow2(e as nat));
    }
    if e >= 84 {
        let ghost i = q * pow2((e - 84) as nat);
        proof {
            lemma_pow2_adds((e - 84) as nat, 84);
            lemma_pow2_pos((e - 84) as nat);
            assert(q * pow2(e as nat) == i * one()) by (nonlinear_arith)
                requires
                    i == q * pow2((e - 84) as nat),
                    pow2(e as nat) == pow2((e - 84) as nat) * one(),
            ;
            assert(i >= 0) by (nonlinear_arith)
                requires
                    i == q * pow2((e - 84) as nat),
                    pow2((e - 84) as nat) > 0,
                    q >= 0,
            ;
            lemma_drawn_at_sample(input@, i);
        }
        if q == 0 {
            assert(i == 0) by (nonlinear_arith)
                requires
                    i == q * pow2((e - 84) as nat),
                    q == 0,
            ;
            return hold(input, 0) as i16;
        }
        if e - 84 > 70 {
            proof {
                lemma2_to64();
                lemma_pow2_strictly_increases(64, (e - 84) as nat);
                assert(i >= pow2((e - 84) as nat)) by (nonlinear_arith)
                    requires
                        i == q * pow2((e - 84) as nat),
                        pow2((e - 84) as nat) > 0,
                        q >= 1,
                ;
            }
            return input[input.len() - 1];
        }
        let more: u128 = power(e - 84);
        proof {
            lemma2_to64();
            lemma_pow2_adds(35, 35);
            if e - 84 < 70 {
                lemma_pow2_strictly_increases((e - 84) as nat, 70);
            }
            lemma2_to64_rest();
            assert(i <= 0x20_0000_0000_0000 * 0x40_0000_0000_0000_0000) by (nonlinear_arith)
                requires
                    i == q * more,
                    0 <= q <= 0x20_0000_0000_0000,
                    0 <= more <= 0x40_0000_0000_0000_0000,
            ;
        }
        return hold(input, (q as u128) * more) as i16;
    }
    let n: u32 = 84 - e;
    let t: u128 = power(n);
    let i: u128 = (q as u128) / t;
    let f: u128 = (q as u128) % t;
    proof {
        assert(i <= q && f < t) by (nonlinear_arith)
            requires
                i == (q as u128) / t,
                f == (q as u128) % t,
                t > 0,
        ;
        lemma_drawn_in_parts(input@, q as int, e as nat, n as nat);
    }
    let a: i128 = hold(input, i) as i128;
    let b: i128 = hold(input, i + 1) as i128;
    proof {
        lemma_small(b - a, f as int, a as int, n as nat);
    }
    let risen: i128 = round_double((b - a) * (f as i128));
    let w: i128 = round_double(a * (t as i128) + risen);
    round_div(w, t) as i16
}

/// Whether a recording of `len` samples, turned from the rate `src` to the rate `dst`, has at
/// most `limit` samples.
pub fn resampled_fits(len: usize, src: u32, dst: u32, limit: u64) -> (r: bool)
    ensures
        r == (resampled_len(len as int, src as int, dst as int) <= limit),
{
    if len == 0 || src == 0 {
        return true;
    }
    count_of(len, src, dst) <= limit as u128
}

/// Turns a recording of one channel from the rate `src` to the rate `dst`, along straight lines
/// between its samples.
pub fn resample_linear(input: &[i16], src: u32, dst: u32) -> (r: Vec<i16>)
    requires
        resampled_len(input@.len() as int, src as int, dst as int) <= usize::MAX,
    ensures
        r@ == resampled(input@, src as int, dst as int),
{
    let n: usize = input.len();
    let mut out: Vec<i16> = Vec::new();
    if n == 0 || src == 0 {
        assert(out@ =~= resampled(input@, src as int, dst as int));
        return out;
    }
    let count: usize = count_of(n, src, dst) as usize;
    let (q, k) = ratio_of(src, dst);
    proof {
        if dst == 0 {
            lemma_nothing_at_rate_zero(n as int, src as int);
        }
    }
    let mut j: usize = 0;
    while j < count
        invariant
            j <= count,
            count > 0 ==> q > 0,
            q <= double(),
            k <= 63,
            q * pow2(k as nat) == ratio(src as int, dst as int),
            input@.len() > 0,
            out@.len() == j,
            forall|i: int|
                0 <= i < j ==> out@[i] == interpolated(input@, i, src as int, dst as int),
        decreases count - j,
    {
        let (p, e) = position_of(j, src, dst, q, k);
        out.push(sample_at(input, p, e));
        j = j + 1;
    }
    assert(out@ =~= resampled(input@, src as int, dst as int));
    out
}

/// Nothing is left of a recording at the rate zero.
proof fn lemma_nothing_at_rate_zero(len: int, src: int)
    requires
        src > 0,
    ensures
        resampled_len(len, src, 0) == 0,
{
    lemma_double();
    lemma_one();
    assert(0 * one() == 0);
    assert(0int / src == 0 && 0int % src == 0) by (nonlinear_arith)
        requires
            src > 0,
    ;
    assert(src * double() > 0) by (nonlinear_arith)
        requires
            src > 0,
            double() > 0,
    ;
    assert(nearest_double(len) * 0 == 0) by (nonlinear_arith);
    lemma_rounded_between(0, one(), 0, 0);
}

// ---------------------------------------------------------------------------------------------
// The recording that is sent
// ---------------------------------------------------------------------------------------------

/// The sample rate that a whisper server takes.
pub const TARGET_RATE: u32 = 16_000;

/// The size from which on a file is not read into memory.
pub const MAX_WAV_BYTES: usize = 536_870_912;

/// Why a recording cannot be converted.
#[derive(Debug, Clone, Copy, PartialEq, Eq, Structural)]
pub enum WavError {
    /// The file has more than [`MAX_WAV_BYTES`] bytes, this many.
    TooLarge(usize),
    /// It is no WAV file.
    Unreadable,
    /// Its samples cannot be read as floating point numbers.
    BadFloats,
    /// Its samples cannot be read as 16 bit integers.
    BadSamples,
    /// Nothing is left of it at the rate of 16 kHz.
    Empty,
    /// At the rate of 16 kHz it does not fit in a WAV file.
    TooLong,
}

impl WavError {
    /// The reason in words.
    pub fn message(&self) -> (r: String)
        ensures
            r@ == match self {
                WavError::TooLarge(n) => "WAV 過大: "@ + decimal(*n as nat)
                    + " bytes(上限 536870912)"@,
                WavError::Unreadable => "decode WAV(本地路徑需可解碼 WAV)"@,
                WavError::BadFloats => "read f32 samples"@,
                WavError::BadSamples => "read i16 samples"@,
                WavError::Empty => "音訊轉換後為空(太短?),不送本地 whisper-server"@,
                WavError::TooLong => "音訊過長,16kHz WAV 裝不下"@,
            },
    {
        match self {
            WavError::TooLarge(n) => concat3(
                "WAV 過大: ",
                to_decimal(*n as u64).as_str(),
                " bytes(上限 536870912)",
            ),
            WavError::Unreadable => owned("decode WAV(本地路徑需可解碼 WAV)"),
            WavError::BadFloats => owned("read f32 samples"),
            WavError::BadSamples => owned("read i16 samples"),
            WavError::Empty => owned("音訊轉換後為空(太短?),不送本地 whisper-server"),
            WavError::TooLong => owned("音訊過長,16kHz WAV 裝不下"),
        }
    }
}

/// Interleaved samples as one channel at 16 kHz. No channels count as one.
pub open spec fn at_16k(samples: Seq<i16>, channels: u16, rate: u32) -> Seq<i16> {
    resampled_unless_equal(
        mono_of(samples, if channels == 0 { 1 } else { channels as int }),
        rate as int,
    )
}

/// The recording `m` at 16 kHz.
pub open spec fn resampled_unless_equal(m: Seq<i16>, rate: int) -> Seq<i16> {
    if rate == TARGET_RATE {
        m
    } else {
        resampled(m, rate, TARGET_RATE as int)
    }
}

/// What is sent of interleaved samples: a WAV file of one channel at 16 kHz in 16 bit.
pub open spec fn sent_samples(samples: Seq<i16>, channels: u16, rate: u32) -> Result<
    Seq<u8>,
    WavError,
> {
    let out = at_16k(samples, channels, rate);
    if out.len() == 0 {
        Err(WavError::Empty)
    } else if !wav::writable(TARGET_RATE, out.len()) {
        Err(WavError::TooLong)
    } else {
        Ok(wav::written(TARGET_RATE, out))
    }
}

/// The samples in 16 bit of a WAV file with the header `h`. Those of a file of floating point
/// samples are made of the bits of its numbers, which are handed in: `None` where they cannot be
/// read.
pub open spec fn file_samples(bytes: Seq<u8>, h: wav::Header, floats: Option<Seq<u32>>) -> Result<
    Seq<i16>,
    WavError,
> {
    if h.float {
        match floats {
            None => Err(WavError::BadFloats),
            Some(bits) => Ok(float::samples_of(bits)),
        }
    } else {
        match wav::samples_of(bytes) {
            None => Err(WavError::BadSamples),
            Some(s) => Ok(s),
        }
    }
}

/// What is sent of a WAV file.
pub open spec fn sent_wav(bytes: Seq<u8>, floats: Option<Seq<u32>>) -> Result<Seq<u8>, WavError> {
    if bytes.len() > MAX_WAV_BYTES {
        Err(WavError::TooLarge(bytes.len() as usize))
    } else {
        match wav::header_of(bytes) {
            None => Err(WavError::Unreadable),
            Some(h) => match file_samples(bytes, h, floats) {
                Err(e) => Err(e),
                Ok(s) => sent_samples(s, h.channels, h.sample_rate),
            },
        }
    }
}

/// The numbers handed in, if any.
pub open spec fn bits_of(floats: Option<&[u32]>) -> Option<Seq<u32>> {
    match floats {
        None => None,
        Some(bits) => Some(bits@),
    }
}

/// Whether `r` is the outcome `want`.
pub open spec fn is_outcome(r: Result<Vec<u8>, WavError>, want: Result<Seq<u8>, WavError>) -> bool {
    match want {
        Ok(bytes) => r matches Ok(v) && v@ == bytes,
        Err(e) => r == Err::<Vec<u8>, WavError>(e),
    }
}

/// Converts interleaved 16 bit samples to the WAV file that a whisper server takes.
pub fn resample_samples_to_16k(samples: &[i16], channels: u16, rate: u32) -> (r: Result<
    Vec<u8>,
    WavError,
>)
    ensures
        is_outcome(r, sent_samples(samples@, channels, rate)),
        r matches Ok(v) ==> wav::header_of(v@) == Some(wav::mono16(TARGET_RATE)),
        r matches Ok(v) ==> wav::samples_of(v@) == Some(at_16k(samples@, channels, rate)),
{
    let mono = downmix(
        samples,
        if channels == 0 {
            1
        } else {
            channels
        },
    );
    let limit: u64 = 2_147_483_629;
    proof {
        lemma_resampled_len_not_negative(mono@.len() as int, rate as int, TARGET_RATE as int);
    }
    let out: Vec<i16> = if rate == TARGET_RATE {
        mono
    } else if resampled_fits(mono.len(), rate, TARGET_RATE, limit) {
        resample_linear(mono.as_slice(), rate, TARGET_RATE)
    } else {
        return Err(WavError::TooLong);
    };
    if out.len() == 0 {
        return Err(WavError::Empty);
    }
    if out.len() as u64 > limit {
        return Err(WavError::TooLong);
    }
    Ok(wav::encode(TARGET_RATE, out.as_slice()))
}

proof fn lemma_resampled_len_not_negative(len: int, src: int, dst: int)
    requires
        len >= 0,
        src >= 0,
        dst >= 0,
    ensures
        resampled_len(len, src, dst) >= 0,
{
    if src > 0 {
        lemma_double();
        lemma_one();
        let one = one();
        assert(dst * one >= 0) by (nonlinear_arith)
            requires
                dst >= 0,
                one > 0,
        ;
        lemma_nearest_at_least(dst * one, src, double(), 0);
        lemma_double_rises(0, len);
        let x = nearest_double(len) * ratio(src, dst);
        assert(nearest_double(0) == 0);
        assert(x >= 0) by (nonlinear_arith)
            requires
                x == nearest_double(len) * ratio(src, dst),
                nearest_double(len) >= 0,
                ratio(src, dst) >= 0,
        ;
        lemma_double_rises(0, x);
        let num = nearest_double(x);
        assert((2 * num + one) / (2 * one) >= 0) by (nonlinear_arith)
            requires
                num >= 0,
                one > 0,
        ;
    }
}

/// Converts a WAV file to the one that a whisper server takes. Of a file of floating point samples
/// the caller hands in the numbers, each by its bits in single precision, in `floats`; of any other
/// file they are not looked at.
pub fn resample_wav_to_16k(bytes: &[u8], floats: Option<&[u32]>) -> (r: Result<Vec<u8>, WavError>)
    ensures
        is_outcome(r, sent_wav(bytes@, bits_of(floats))),
        r matches Ok(v) ==> wav::header_of(v@) == Some(wav::mono16(TARGET_RATE)),
        r matches Ok(v) ==> ({
            let h = wav::header_of(bytes@)->0;
            let samples = file_samples(bytes@, h, bits_of(floats))->Ok_0;
            wav::samples_of(v@) == Some(at_16k(samples, h.channels, h.sample_rate))
        }),
{
    if bytes.len() > MAX_WAV_BYTES {
        return Err(WavError::TooLarge(bytes.len()));
    }
    let header = match wav::read_header(bytes) {
        Ok(h) => h,
        Err(_) => return Err(WavError::Unreadable),
    };
    let samples: Vec<i16> = if header.float {
        match floats {
            None => return Err(WavError::BadFloats),
            Some(bits) => float::to_samples(bits),
        }
    } else {
        match wav::read_samples(bytes) {
            Ok(s) => s,
            Err(_) => return Err(WavError::BadSamples),
        }
    };
    resample_samples_to_16k(samples.as_slice(), header.channels, header.sample_rate)
}

/// A file that [`resample_wav_to_16k`] made is not changed by it: converting twice gives what
/// converting once gives.
pub proof fn law_converted_stays(file: Seq<u8>, samples: Seq<i16>, floats: Option<Seq<u32>>)
    requires
        file == wav::written(TARGET_RATE, samples),
        wav::header_of(file) == Some(wav::mono16(TARGET_RATE)),
        wav::samples_of(file) == Some(samples),
        samples.len() > 0,
        wav::writable(TARGET_RATE, samples.len()),
        file.len() <= MAX_WAV_BYTES,
    ensures
        sent_wav(file, floats) == Ok::<Seq<u8>, WavError>(file),
{
    lemma_one_channel_stays(samples);
}

/// One channel is mixed down to itself.
proof fn lemma_one_channel_stays(samples: Seq<i16>)
    ensures
        mono_of(samples, 1) == samples,
{
    assert forall|k: int| 0 <= k < samples.len() implies #[trigger] mono_of(samples, 1)[k]
        == samples[k] by {
        let f = frame(samples, 1, k);
        assert(f =~= seq![samples[k]]);
        assert(f.drop_last() =~= Seq::<i16>::empty());
        reveal_with_fuel(total, 2);
    }
    assert(mono_of(samples, 1) =~= samples);
}

// ---------------------------------------------------------------------------------------------
// The server
// ---------------------------------------------------------------------------------------------

/// What the discovery file of a whisper server says of it.
#[derive(Debug)]
pub struct Descriptor {
    pub host: String,
    pub port: u16,
    pub inference_path: String,
    /// The short name of the model that it has loaded. For information only.
    pub model: Option<String>,
}

/// The path of a server whose discovery file names none.
pub fn default_inference_path() -> (r: String)
    ensures
        r@ == "/inference"@,
{
    owned("/inference")
}

/// Whether `host` is this machine.
pub open spec fn is_loopback_host(host: Seq<char>) -> bool {
    host == "127.0.0.1"@ || host == "::1"@
}

/// The address of a server.
pub open spec fn base_of(host: Seq<char>, port: u16) -> Seq<char> {
    "http://"@ + host + ":"@ + decimal(port as nat)
}

/// The address that takes recordings. A path that does not begin with `/` gets one, so that it
/// cannot change the host.
pub open spec fn inference_url_of(host: Seq<char>, port: u16, path: Seq<char>) -> Seq<char> {
    base_of(host, port) + if starts_with(path, "/"@) {
        path
    } else {
        "/"@ + path
    }
}

impl Descriptor {
    /// Whether the server is on this machine.
    pub fn is_loopback(&self) -> (r: bool)
        ensures
            r == is_loopback_host(self.host@),
    {
        same(self.host.as_str(), "127.0.0.1") || same(self.host.as_str(), "::1")
    }

    /// The server's address.
    pub fn base(&self) -> (r: String)
        ensures
            r@ == base_of(self.host@, self.port),
    {
        let mut out = concat3("http://", self.host.as_str(), ":");
        push_str(&mut out, to_decimal(self.port as u64).as_str());
        out
    }

    /// The address to which recordings are sent.
    pub fn inference_url(&self) -> (r: String)
        ensures
            r@ == inference_url_of(self.host@, self.port, self.inference_path@),
    {
        let mut out = self.base();
        let path = chars_of(self.inference_path.as_str());
        if strip_prefix(path.as_slice(), "/").is_none() {
            push_str(&mut out, "/");
        }
        push_str(&mut out, self.inference_path.as_str());
        proof {
            let b = base_of(self.host@, self.port);
            assert(b + "/"@ + self.inference_path@ =~= b + ("/"@ + self.inference_path@));
        }
        out
    }
}

/// Whatever path a discovery file names, recordings go to the host and port that it names: the
/// address continues with `/` after them.
pub proof fn law_path_cannot_change_host(host: Seq<char>, port: u16, path: Seq<char>)
    ensures
        starts_with(inference_url_of(host, port, path), base_of(host, port) + "/"@),
{
    let b = base_of(host, port);
    let u = inference_url_of(host, port, path);
    reveal_strlit("/");
    if starts_with(path, "/"@) {
        assert(path.take(1) == "/"@);
        assert(u.take(b.len() as int + 1) =~= b + path.take(1));
    } else {
        assert(u.take(b.len() as int + 1) =~= b + "/"@);
    }
}

/// Whether a request with this status was answered well.
pub open spec fn is_success(status: u16) -> bool {
    200 <= status < 300
}

/// The address to ask whether the server is up, if it is on this machine.
pub fn probe_url(d: &Descriptor) -> (r: Option<String>)
    ensures
        r is Some <==> is_loopback_host(d.host@),
        r matches Some(url) ==> url@ == base_of(d.host@, d.port),
{
    if d.is_loopback() {
        Some(d.base())
    } else {
        None
    }
}

/// Whether the server is up: it is on this machine, and answered with `status`.
pub fn is_alive(d: &Descriptor, status: Option<u16>) -> (r: bool)
    ensures
        r <==> is_loopback_host(d.host@) && (status matches Some(s) && is_success(s)),
{
    match status {
        Some(s) => d.is_loopback() && 200 <= s && s < 300,
        None => false,
    }
}

// ---------------------------------------------------------------------------------------------
// Finding the server
// ---------------------------------------------------------------------------------------------

/// How long a server that is being started is waited for, in milliseconds.
pub const WAKE_LIMIT_MS: u64 = 15_000;

/// The time between two looks at a server that is being started, in milliseconds.
pub const WAKE_POLL_MS: u64 = 500;

/// How long one look at a server may take, in milliseconds.
pub const PROBE_LIMIT_MS: u64 = 2_000;

/// What happened while a server is looked for, and how many milliseconds went by.
#[derive(Debug, Clone, Copy, PartialEq, Eq, Structural)]
pub enum Seen {
    /// Its discovery file was read and it was asked; whether it is up.
    Checked(bool, u64),
    /// Its supervisor was told to start it; whether there is one that could.
    Woken(bool, u64),
    /// Nothing was done.
    Waited(u64),
}

/// What to do next to find a server, and for how many milliseconds at most.
#[derive(Debug, Clone, Copy, PartialEq, Eq, Structural)]
pub enum Move {
    /// Read the discovery file and ask the server.
    Check(u64),
    /// Tell the supervisor to start it.
    Wake(u64),
    /// Do nothing.
    Wait(u64),
    /// It is up: send the recording.
    Send,
    /// There is no server.
    GiveUp,
}

/// The search for a server. It begins with a look at it.
#[derive(Debug, Clone, Copy, PartialEq, Eq, Structural)]
pub struct Search {
    /// Whether the supervisor was told already.
    pub woken: bool,
    /// How long the server may still be waited for, in milliseconds.
    pub left_ms: u64,
}

/// How much is left of `left` milliseconds when `ms` have gone by.
pub open spec fn left_after(left: u64, ms: u64) -> u64 {
    if ms < left {
        (left - ms) as u64
    } else {
        0
    }
}

/// The search after it has seen something. The time counts from when the supervisor is told.
pub open spec fn next_search(s: Search, seen: Seen) -> Search {
    match seen {
        Seen::Checked(_, ms) => if s.woken {
            Search { left_ms: left_after(s.left_ms, ms), ..s }
        } else {
            s
        },
        Seen::Woken(_, ms) => Search { woken: true, left_ms: left_after(s.left_ms, ms) },
        Seen::Waited(ms) => Search { left_ms: left_after(s.left_ms, ms), ..s },
    }
}

/// A look at the server where `left` milliseconds are left.
pub open spec fn look(left: u64) -> Move {
    if left == 0 {
        Move::GiveUp
    } else if left < PROBE_LIMIT_MS {
        Move::Check(left)
    } else {
        Move::Check(PROBE_LIMIT_MS)
    }
}

/// What a search does when it has seen something.
pub open spec fn next_move(s: Search, seen: Seen) -> Move {
    let left = next_search(s, seen).left_ms;
    match seen {
        Seen::Checked(up, _) => if up {
            Move::Send
        } else if !s.woken {
            Move::Wake(left)
        } else if left > WAKE_POLL_MS {
            Move::Wait(WAKE_POLL_MS)
        } else {
            Move::GiveUp
        },
        Seen::Woken(done, _) => if done {
            look(left)
        } else {
            Move::GiveUp
        },
        Seen::Waited(_) => look(left),
    }
}

fn minus(left: u64, ms: u64) -> (r: u64)
    ensures
        r == left_after(left, ms),
{
    if ms < left {
        left - ms
    } else {
        0
    }
}

fn look_for(left: u64) -> (r: Move)
    ensures
        r == look(left),
{
    if left == 0 {
        Move::GiveUp
    } else if left < PROBE_LIMIT_MS {
        Move::Check(left)
    } else {
        Move::Check(PROBE_LIMIT_MS)
    }
}

impl Search {
    /// A search that has seen nothing.
    pub fn new() -> (r: Search)
        ensures
            r == (Search { woken: false, left_ms: WAKE_LIMIT_MS }),
    {
        Search { woken: false, left_ms: WAKE_LIMIT_MS }
    }

    /// Takes note of what was seen and says what to do.
    pub fn advance(&mut self, seen: Seen) -> (r: Move)
        ensures
            r == next_move(*old(self), seen),
            *final(self) == next_search(*old(self), seen),
    {
        match seen {
            Seen::Checked(up, ms) => {
                if self.woken {
                    self.left_ms = minus(self.left_ms, ms);
                }
                if up {
                    Move::Send
                } else if !self.woken {
                    Move::Wake(self.left_ms)
                } else if self.left_ms > WAKE_POLL_MS {
                    Move::Wait(WAKE_POLL_MS)
                } else {
                    Move::GiveUp
                }
            },
            Seen::Woken(done, ms) => {
                self.woken = true;
                self.left_ms = minus(self.left_ms, ms);
                if done {
                    look_for(self.left_ms)
                } else {
                    Move::GiveUp
                }
            },
            Seen::Waited(ms) => {
                self.left_ms = minus(self.left_ms, ms);
                look_for(self.left_ms)
            },
        }
    }
}

/// Whether what was seen took no longer than the move allowed.
pub open spec fn in_time(m: Move, seen: Seen) -> bool {
    match (m, seen) {
        (Move::Check(limit), Seen::Checked(_, ms)) => ms <= limit,
        (Move::Wake(limit), Seen::Woken(_, ms)) => ms <= limit,
        (Move::Wait(limit), Seen::Waited(ms)) => ms <= limit,
        _ => false,
    }
}

/// The time that went by while the server was told to start, asked or waited for.
pub open spec fn time_of(seen: Seen) -> int {
    match seen {
        Seen::Checked(_, ms) => ms as int,
        Seen::Woken(_, ms) => ms as int,
        Seen::Waited(ms) => ms as int,
    }
}

/// The time that these took together.
pub open spec fn time_in(seen: Seq<Seen>) -> int
    decreases seen.len(),
{
    if seen.len() == 0 {
        0
    } else {
        time_of(seen[0]) + time_in(seen.drop_first())
    }
}

/// Whether a search that was about to make the move `m` may see these one after the other: each is
/// what came of the move before it, and took no longer than it allowed.
pub open spec fn is_run(s: Search, m: Move, seen: Seq<Seen>) -> bool
    decreases seen.len(),
{
    seen.len() == 0 || {
        &&& in_time(m, seen[0])
        &&& is_run(next_search(s, seen[0]), next_move(s, seen[0]), seen.drop_first())
    }
}

/// Whether the move allows no more time than is left.
pub open spec fn fits(s: Search, m: Move) -> bool {
    match m {
        Move::Check(limit) => s.woken && limit <= s.left_ms,
        Move::Wake(limit) => limit <= s.left_ms,
        Move::Wait(limit) => s.woken && limit <= s.left_ms,
        _ => true,
    }
}

proof fn lemma_run_fits(s: Search, m: Move, seen: Seq<Seen>)
    requires
        fits(s, m),
        is_run(s, m, seen),
    ensures
        time_in(seen) <= s.left_ms,
    decreases seen.len(),
{
    if seen.len() > 0 {
        assert(fits(next_search(s, seen[0]), next_move(s, seen[0])));
        lemma_run_fits(next_search(s, seen[0]), next_move(s, seen[0]), seen.drop_first());
    }
}

/// From the time that the supervisor is told, a server is looked for no longer than
/// [`WAKE_LIMIT_MS`]: telling it, every look at the server and every wait count. `seen` is what a
/// search sees from then on, each of it in the time that the search allowed.
pub proof fn law_server_is_waited_for_in_time(seen: Seq<Seen>)
    requires
        is_run(
            Search { woken: false, left_ms: WAKE_LIMIT_MS },
            Move::Wake(WAKE_LIMIT_MS),
            seen,
        ),
    ensures
        time_in(seen) <= WAKE_LIMIT_MS,
{
    lemma_run_fits(
        Search { woken: false, left_ms: WAKE_LIMIT_MS },
        Move::Wake(WAKE_LIMIT_MS),
        seen,
    );
}

/// The supervisor is told at most once, a recording is sent only to a server that was found up,
/// and every search ends: time that goes by after the supervisor is told is taken off what is left,
/// and where none is left the search gives up.
pub proof fn law_search_ends(s: Search, seen: Seen)
    ensures
        next_move(s, seen) == Move::Send <==> (seen matches Seen::Checked(up, _) && up),
        next_move(s, seen) is Wake ==> !s.woken,
        s.woken ==> next_search(s, seen).woken,
        seen is Woken ==> next_search(s, seen).woken,
        s.woken || !(seen is Checked) ==> next_search(s, seen).left_ms == left_after(
            s.left_ms,
            time_of(seen) as u64,
        ),
        next_search(s, seen).woken && next_search(s, seen).left_ms == 0 ==> next_move(s, seen)
            == Move::Send || next_move(s, seen) == Move::GiveUp,
{
}

// ---------------------------------------------------------------------------------------------
// The request
// ---------------------------------------------------------------------------------------------

/// A request to transcribe a recording: a form with `fields` and the file `audio.wav`.
#[derive(Debug)]
pub struct Request {
    pub url: String,
    pub fields: Vec<FormField>,
    pub file: Vec<u8>,
}

/// The request that sends a recording, converted already, to the server. There is none for a
/// server on another machine: recordings do not leave this one.
pub fn request(d: &Descriptor, language: &str, prompt: Option<&str>, file: Vec<u8>) -> (r: Option<
    Request,
>)
    ensures
        r is Some <==> is_loopback_host(d.host@),
        r matches Some(q) ==> q.url@ == inference_url_of(d.host@, d.port, d.inference_path@)
            && pairs(q.fields@) == local_pairs(language@, opt(prompt)) && q.file@ == file@,
        r matches Some(q) ==> starts_with(q.url@, "http://127.0.0.1:"@) || starts_with(
            q.url@,
            "http://::1:"@,
        ),
{
    if !d.is_loopback() {
        return None;
    }
    let url = d.inference_url();
    proof {
        let host = d.host@;
        let rest = url@.skip("http://"@.len() as int + host.len() + ":"@.len());
        reveal_strlit("http://");
        reveal_strlit(":");
        reveal_strlit("127.0.0.1");
        reveal_strlit("::1");
        reveal_strlit("http://127.0.0.1:");
        reveal_strlit("http://::1:");
        assert("http://"@ + "127.0.0.1"@ + ":"@ =~= "http://127.0.0.1:"@);
        assert("http://"@ + "::1"@ + ":"@ =~= "http://::1:"@);
        let head = "http://"@ + host + ":"@;
        assert(url@.take(head.len() as int) =~= head);
    }
    Some(Request { url, fields: local_fields(language, prompt), file })
}

// ---------------------------------------------------------------------------------------------
// Where recordings go
// ---------------------------------------------------------------------------------------------

/// No recording is sent to another machine, and none is asked: only for 127.0.0.1 and ::1 is there
/// an address to ask or a request to make, and only there is a server up.
pub proof fn law_recordings_stay_on_this_machine(
    d: Descriptor,
    status: Option<u16>,
    language: &str,
    prompt: Option<&str>,
    file: Vec<u8>,
    probe: Option<String>,
    up: bool,
    sent: Option<Request>,
)
    requires
        call_ensures(probe_url, (&d,), probe),
        call_ensures(is_alive, (&d, status), up),
        call_ensures(request, (&d, language, prompt, file), sent),
    ensures
        probe is Some <==> d.host@ == "127.0.0.1"@ || d.host@ == "::1"@,
        sent is Some <==> d.host@ == "127.0.0.1"@ || d.host@ == "::1"@,
        up ==> d.host@ == "127.0.0.1"@ || d.host@ == "::1"@,
        up <==> probe is Some && (status matches Some(s) && s / 100 == 2),
        probe matches Some(u) ==> u@ == "http://"@ + d.host@ + ":"@ + decimal(d.port as nat),
        sent matches Some(q) ==> q.file@ == file@ && starts_with(
            q.url@,
            "http://"@ + d.host@ + ":"@ + decimal(d.port as nat) + "/"@,
        ),
{
    law_path_cannot_change_host(d.host@, d.port, d.inference_path@);
}

/// A path is used as it is written, with one slash before it: whether it is written with that slash
/// or without makes no difference.
pub proof fn law_one_slash_before_the_path(a: Descriptor, b: Descriptor, r: String, s: String)
    requires
        call_ensures(Descriptor::inference_url, (&a,), r),
        call_ensures(Descriptor::inference_url, (&b,), s),
        a.host@ == b.host@,
        a.port == b.port,
        !starts_with(a.inference_path@, "/"@),
        b.inference_path@ == "/"@ + a.inference_path@,
    ensures
        r@ == s@,
        r@ == base_of(a.host@, a.port) + "/"@ + a.inference_path@,
{
    let p = "/"@ + a.inference_path@;
    assert(p.take("/"@.len() as int) =~= "/"@);
    assert(base_of(a.host@, a.port) + p =~= base_of(a.host@, a.port) + "/"@ + a.inference_path@);
}

/// A search does not give up while there is hope: only where the supervisor cannot start the server,
/// or half a second or less is left and it is not up. It looks at the server after every wait and
/// after the supervisor was told, and waits no longer than half a second at a time.
pub proof fn law_search_goes_on(s: Search, seen: Seen)
    ensures
        next_move(s, seen) == Move::GiveUp ==> (seen matches Seen::Woken(done, _) && !done) || (
        next_search(s, seen).woken && next_search(s, seen).left_ms <= 500) || (seen is Waited
            && next_search(s, seen).left_ms == 0),
        seen matches Seen::Checked(up, _) ==> !up && !s.woken ==> next_move(s, seen) is Wake,
        seen is Waited && next_search(s, seen).left_ms > 0 ==> next_move(s, seen) is Check,
        seen matches Seen::Woken(done, _) ==> done && next_search(s, seen).left_ms > 0
            ==> next_move(s, seen) is Check,
        next_move(s, seen) matches Move::Wait(ms) ==> ms == 500 && ms < next_search(s, seen).left_ms,
        next_move(s, seen) matches Move::Check(ms) ==> 0 < ms <= 2_000 && ms <= next_search(
            s,
            seen,
        ).left_ms,
        next_move(s, seen) matches Move::Wake(ms) ==> ms == s.left_ms,
        ({
            let before = s.left_ms;
            let after = next_search(s, seen).left_ms;
            &&& after <= before
            &&& s.woken || !(seen is Checked) ==> (before >= time_of(seen) ==> after == before
                - time_of(seen)) && (before <= time_of(seen) ==> after == 0)
            &&& !s.woken && seen is Checked ==> after == before
        }),
{
}

/// A server is waited for fifteen seconds.
pub proof fn law_search_begins(s: Search)
    requires
        call_ensures(Search::new, (), s),
    ensures
        s.left_ms == 15_000,
        !s.woken,
{
}

/// A file is refused for one reason: it is too large, it is no WAV file, or its samples cannot be
/// read; and one that can be read is converted by its own rate and channels.
pub proof fn law_files_are_read_by_their_head(
    bytes: &[u8],
    floats: Option<&[u32]>,
    h: wav::Header,
    r: Result<Vec<u8>, WavError>,
    samples: &[i16],
    s: Result<Vec<u8>, WavError>,
)
    requires
        call_ensures(resample_wav_to_16k, (bytes, floats), r),
        call_ensures(resample_samples_to_16k, (samples, h.channels, h.sample_rate), s),
    ensures
        bytes@.len() > 536_870_912 ==> r == Err::<Vec<u8>, WavError>(
            WavError::TooLarge(bytes@.len() as usize),
        ),
        bytes@.len() <= 536_870_912 && wav::header_of(bytes@) is None ==> r == Err::<
            Vec<u8>,
            WavError,
        >(WavError::Unreadable),
        bytes@.len() <= 536_870_912 && wav::header_of(bytes@) == Some(h) && ((!h.float
            && wav::samples_of(bytes@) == Some(samples@)) || (h.float && (floats matches Some(bits)
            && samples@ == float::samples_of(bits@)))) ==> (r is Ok <==> s is Ok) && (
        r matches Ok(a) ==> a@ == s->Ok_0@) && (r matches Err(e) ==> s == Err::<Vec<u8>, WavError>(
            e,
        )),
        bytes@.len() <= 536_870_912 && wav::header_of(bytes@) == Some(h) && !h.float
            && wav::samples_of(bytes@) is None ==> r == Err::<Vec<u8>, WavError>(
            WavError::BadSamples,
        ),
        bytes@.len() <= 536_870_912 && wav::header_of(bytes@) == Some(h) && h.float && floats is None
            ==> r == Err::<Vec<u8>, WavError>(WavError::BadFloats),
{
}

} // verus!
