//! What the conversion of a recording comes to, whatever its rate and its channels: it lasts as long
//! as before, its channels are averaged, and every sample stands where its time is.
use crate::float::{double, lemma_double, nearest, nearest_double, to_even};
use crate::local_stt::{
    at_16k, downmix, frame, frame_count, law_interpolation_stays_between, mono_of, one, position,
    ratio, resample_linear,
    resample_samples_to_16k, resample_wav_to_16k, resampled_len, rounded, total, truncated,
    WavError, MAX_WAV_BYTES,
};
use crate::wav;
use vstd::arithmetic::power2::{lemma2_to64, lemma2_to64_rest, lemma_pow2_adds};
use vstd::prelude::*;

verus! {

// ---------------------------------------------------------------------------------------------
// Channels
// ---------------------------------------------------------------------------------------------

/// The sum of the samples from `from` up to `to`.
pub open spec fn sum(samples: Seq<i16>, from: int, to: int) -> int
    decreases to - from,
{
    if to <= from {
        0
    } else {
        samples[from] + sum(samples, from + 1, to)
    }
}

proof fn lemma_sum_last(samples: Seq<i16>, from: int, to: int)
    requires
        from < to,
    ensures
        sum(samples, from, to) == sum(samples, from, to - 1) + samples[to - 1],
    decreases to - from,
{
    if from + 1 < to {
        lemma_sum_last(samples, from + 1, to);
    } else {
        assert(sum(samples, from + 1, to) == 0);
        assert(sum(samples, from, to - 1) == 0);
    }
}

proof fn lemma_total_is_sum(samples: Seq<i16>, from: int, to: int)
    requires
        0 <= from <= to <= samples.len(),
    ensures
        total(samples.subrange(from, to)) == sum(samples, from, to),
    decreases to - from,
{
    if from < to {
        let s = samples.subrange(from, to);
        lemma_sum_last(samples, from, to);
        lemma_total_is_sum(samples, from, to - 1);
        assert(s.drop_last() =~= samples.subrange(from, to - 1));
    }
}

proof fn lemma_truncated(a: int, b: int)
    requires
        b > 0,
    ensures
        ({
            let q = truncated(a, b);
            &&& a >= 0 ==> q >= 0 && q * b <= a < (q + 1) * b
            &&& a <= 0 ==> q <= 0 && (q - 1) * b < a <= q * b
        }),
{
    let q = truncated(a, b);
    if a >= 0 {
        assert(q >= 0 && q * b <= a < (q + 1) * b) by (nonlinear_arith)
            requires
                q == a / b,
                a >= 0,
                b > 0,
        ;
    }
    if a <= 0 {
        let u = -a;
        let p = u / b;
        assert(p >= 0 && p * b <= u < (p + 1) * b) by (nonlinear_arith)
            requires
                p == u / b,
                u >= 0,
                b > 0,
        ;
        if a == 0 {
            assert(p == 0) by (nonlinear_arith)
                requires
                    p * b <= 0,
                    p >= 0,
                    b > 0,
            ;
        }
        assert(q == -p);
        assert((q - 1) * b == -((p + 1) * b) && q * b == -(p * b)) by (nonlinear_arith)
            requires
                q == -p,
        ;
    }
}

proof fn lemma_frames(len: int, channels: int)
    requires
        len >= 0,
        channels > 0,
    ensures
        (frame_count(len, channels) - 1) * channels < len <= frame_count(len, channels) * channels,
        frame_count(len, channels) >= 0,
{
    let c = frame_count(len, channels);
    assert((c - 1) * channels < len <= c * channels && c >= 0) by (nonlinear_arith)
        requires
            c == (len + channels - 1) / channels,
            len >= 0,
            channels > 0,
    ;
}

proof fn lemma_i16_sum(samples: Seq<i16>, from: int, to: int)
    requires
        from <= to,
    ensures
        -0x8000 * (to - from) <= sum(samples, from, to) <= 0x7fff * (to - from),
    decreases to - from,
{
    if from < to {
        lemma_i16_sum(samples, from + 1, to);
    }
}

/// Each sample of the mix is the average of one frame: of as many samples as there are channels, one
/// frame after the other, the sum divided by their number, towards zero. A frame that is cut off at
/// the end counts as if silence followed.
pub proof fn law_channels_are_averaged(samples: &[i16], channels: u16, r: Vec<i16>, k: int)
    requires
        channels > 0,
        call_ensures(downmix, (samples, channels), r),
        0 <= k < r@.len(),
    ensures
        (r@.len() - 1) * channels < samples@.len() <= r@.len() * channels,
        ({
            let end = if (k + 1) * channels <= samples@.len() {
                (k + 1) * channels
            } else {
                samples@.len() as int
            };
            let s = sum(samples@, k * channels, end);
            let v = r@[k];
            &&& s >= 0 ==> v >= 0 && v * channels <= s < (v + 1) * channels
            &&& s <= 0 ==> v <= 0 && (v - 1) * channels < s <= v * channels
        }),
{
    let c = channels as int;
    let n = samples@.len() as int;
    lemma_frames(n, c);
    assert((k + 1) * c == k * c + c) by (nonlinear_arith);
    assert(0 <= k * c < n) by (nonlinear_arith)
        requires
            0 <= k <= frame_count(n, c) - 1,
            (frame_count(n, c) - 1) * c < n,
            c > 0,
    ;
    let end = if (k + 1) * c <= n {
        (k + 1) * c
    } else {
        n
    };
    lemma_total_is_sum(samples@, k * c, end);
    let s = sum(samples@, k * c, end);
    assert(frame(samples@, c, k) == samples@.subrange(k * c, end));
    lemma_truncated(s, c);
    lemma_i16_sum(samples@, k * c, end);
    let q = truncated(s, c);
    assert(-0x8000 <= q <= 0x7fff) by (nonlinear_arith)
        requires
            s >= 0 ==> q >= 0 && q * c <= s,
            s <= 0 ==> q <= 0 && s <= q * c,
            -0x8000 * (end - k * c) <= s <= 0x7fff * (end - k * c),
            0 < end - k * c <= c,
    ;
}

/// One channel, written on `n` channels at once.
pub open spec fn copies(m: Seq<i16>, n: int) -> Seq<i16> {
    Seq::new((m.len() * n) as nat, |i: int| m[i / n])
}

proof fn lemma_copies_sum(m: Seq<i16>, n: int, k: int, to: int)
    requires
        n > 0,
        0 <= k < m.len(),
        k * n <= to <= (k + 1) * n,
    ensures
        sum(copies(m, n), k * n, to) == (to - k * n) * m[k],
    decreases to - k * n,
{
    let all = copies(m, n);
    if to > k * n {
        lemma_sum_last(all, k * n, to);
        lemma_copies_sum(m, n, k, to - 1);
        let i = to - 1;
        assert(i / n == k) by (nonlinear_arith)
            requires
                k * n <= i < (k + 1) * n,
                n > 0,
        ;
        assert(0 <= i < m.len() * n) by (nonlinear_arith)
            requires
                k * n <= i < (k + 1) * n,
                0 <= k < m.len(),
                n > 0,
        ;
        assert(all[i] == m[k]);
        assert((to - k * n) * m[k] == (to - 1 - k * n) * m[k] + m[k]) by (nonlinear_arith);
    } else {
        assert(to - k * n == 0);
        assert(0 * m[k] == 0);
    }
}

/// The average of a channel with itself is that channel.
proof fn lemma_copies_are_mixed_back(m: Seq<i16>, n: int)
    requires
        n > 0,
    ensures
        mono_of(copies(m, n), n) == m,
{
    let all = copies(m, n);
    let len = m.len() as int;
    assert(m.len() * n >= 0) by (nonlinear_arith)
        requires
            n > 0,
    ;
    assert(frame_count(all.len() as int, n) == len) by (nonlinear_arith)
        requires
            frame_count(all.len() as int, n) == (all.len() + n - 1) / n,
            all.len() == len * n,
            n > 0,
    ;
    assert forall|k: int| 0 <= k < len implies #[trigger] mono_of(all, n)[k] == m[k] by {
        assert((k + 1) * n == k * n + n) by (nonlinear_arith);
        assert(0 <= k * n && k * n + n <= len * n) by (nonlinear_arith)
            requires
                0 <= k < len,
                n > 0,
        ;
        lemma_total_is_sum(all, k * n, k * n + n);
        lemma_copies_sum(m, n, k, k * n + n);
        let v = m[k] as int;
        let s = n * v;
        lemma_truncated(s, n);
        let q = truncated(s, n);
        assert(q == v) by (nonlinear_arith)
            requires
                s == n * v,
                n > 0,
                s >= 0 ==> q >= 0 && q * n <= s < (q + 1) * n,
                s <= 0 ==> q <= 0 && (q - 1) * n < s <= q * n,
        ;
    }
    assert(mono_of(all, n) =~= m);
}

/// A recording of one channel and the same one on any number of channels are sent as the same file,
/// at every rate.
pub proof fn law_same_channels_are_sent_alike(
    one_channel: &[i16],
    many: &[i16],
    channels: u16,
    rate: u32,
    r: Result<Vec<u8>, WavError>,
    s: Result<Vec<u8>, WavError>,
)
    requires
        channels > 0,
        many@ == copies(one_channel@, channels as int),
        call_ensures(resample_samples_to_16k, (one_channel, 1u16, rate), r),
        call_ensures(resample_samples_to_16k, (many, channels, rate), s),
    ensures
        r is Ok <==> s is Ok,
        r matches Ok(a) ==> (s matches Ok(b) && a@ == b@),
        r matches Err(e) ==> s == Err::<Vec<u8>, WavError>(e),
{
    lemma_copies_are_mixed_back(one_channel@, channels as int);
    lemma_copies_are_mixed_back(one_channel@, 1);
    assert(copies(one_channel@, 1) =~= one_channel@);
}

/// The same holds of files: one of a single channel and one of the same on several, at one rate.
pub proof fn law_same_files_are_sent_alike(
    a: &[u8],
    b: &[u8],
    samples: Seq<i16>,
    channels: u16,
    rate: u32,
    r: Result<Vec<u8>, WavError>,
    s: Result<Vec<u8>, WavError>,
)
    requires
        channels > 0,
        a@.len() <= MAX_WAV_BYTES,
        b@.len() <= MAX_WAV_BYTES,
        wav::header_of(a@) == Some(
            wav::Header { channels: 1, sample_rate: rate, bits_per_sample: 16, float: false },
        ),
        wav::header_of(b@) == Some(
            wav::Header { channels, sample_rate: rate, bits_per_sample: 16, float: false },
        ),
        wav::samples_of(a@) == Some(samples),
        wav::samples_of(b@) == Some(copies(samples, channels as int)),
        call_ensures(resample_wav_to_16k, (a, None::<&[u32]>), r),
        call_ensures(resample_wav_to_16k, (b, None::<&[u32]>), s),
    ensures
        r is Ok <==> s is Ok,
        r matches Ok(x) ==> (s matches Ok(y) && x@ == y@),
        r matches Err(e) ==> s == Err::<Vec<u8>, WavError>(e),
{
    lemma_copies_are_mixed_back(samples, channels as int);
    lemma_copies_are_mixed_back(samples, 1);
    assert(copies(samples, 1) =~= samples);
}

// ---------------------------------------------------------------------------------------------
// Time
// ---------------------------------------------------------------------------------------------

/// How far a rounded number is off: half a whole, or the last of its bits.
proof fn lemma_nearest_error(num: int, den: int, top: int)
    requires
        num >= 0,
        den > 0,
        top >= 2,
    ensures
        ({
            let off = nearest(num, den, top) * den - num;
            (-den <= 2 * off <= den) || (-num <= off * top <= num)
        }),
    decreases
            (if num > den {
                num - den
            } else {
                0
            }),
{
    if num < den * top {
        let q = num / den;
        let m = num % den;
        assert(num == q * den + m && 0 <= m < den) by (nonlinear_arith)
            requires
                q == num / den,
                m == num % den,
                den > 0,
        ;
        let y = to_even(num, den);
        assert(y * den - num == if y == q + 1 {
            den - m
        } else {
            -m
        }) by (nonlinear_arith)
            requires
                num == q * den + m,
                y == q || y == q + 1,
        ;
    } else {
        assert(den * top >= 2 * den) by (nonlinear_arith)
            requires
                den > 0,
                top >= 2,
        ;
        lemma_nearest_error(num, 2 * den, top);
        let y = nearest(num, 2 * den, top);
        let off = y * (2 * den) - num;
        assert((2 * y) * den == y * (2 * den)) by (nonlinear_arith);
        if -(2 * den) <= 2 * off <= 2 * den {
            assert(-num <= off * top <= num) by (nonlinear_arith)
                requires
                    -den <= off <= den,
                    den * top <= num,
                    top >= 2,
            ;
        }
    }
}

/// Rounding to whole parts is off by at most half of one.
proof fn lemma_rounded_error(num: int, den: int)
    requires
        num >= 0,
        den > 0,
    ensures
        ({
            let off = rounded(num, den) * den - num;
            -den <= 2 * off <= den
        }),
{
    let q = rounded(num, den);
    assert(q * (2 * den) <= 2 * num + den < (q + 1) * (2 * den)) by (nonlinear_arith)
        requires
            q == (2 * num + den) / (2 * den),
            den > 0,
            num >= 0,
    ;
    assert(q * (2 * den) == 2 * (q * den) && (q + 1) * (2 * den) == 2 * (q * den) + 2 * den)
        by (nonlinear_arith);
}

proof fn lemma_one_is()
    ensures
        one() == 0x10_0000_0000_0000_0000_0000,
{
    lemma2_to64();
    lemma2_to64_rest();
    lemma_pow2_adds(42, 42);
    assert(0x400_0000_0000int * 0x400_0000_0000int == 0x10_0000_0000_0000_0000_0000int)
        by (nonlinear_arith);
}

/// The ratio is that of the rates, to the last of its bits.
proof fn lemma_ratio_error(src: int, dst: int)
    requires
        0 < src <= 0xffff_ffff,
        0 < dst <= 0xffff_ffff,
    ensures
        ({
            let off = ratio(src, dst) * src - dst * one();
            -(dst * 0x8000_0000) <= off <= dst * 0x8000_0000
        }),
{
    lemma_one_is();
    lemma_double();
    let num = dst * one();
    assert(num == dst * 0x10_0000_0000_0000_0000_0000);
    lemma_nearest_error(num, src, double());
}

/// How many samples `len` samples at the rate `src` are at the rate `dst`: the whole number that is
/// nearest to `len * dst / src`. What is converted lasts as long as before.
pub proof fn law_length_in_time_stays(len: int, src: int, dst: int)
    requires
        0 < len,
        0 < src <= 0xffff_ffff,
        0 < dst <= 0xffff_ffff,
        len * dst <= 0x1_0000_0000_0000,
    ensures
        -src <= 2 * (resampled_len(len, src, dst) * src - len * dst) <= src,
{
    lemma_one_is();
    lemma_double();
    lemma_ratio_error(src, dst);
    let u = one();
    let r = ratio(src, dst);
    assert(len <= len * dst) by (nonlinear_arith)
        requires
            len > 0,
            dst >= 1,
    ;
    assert(nearest_double(len) == len) by {
        assert(len / 1 == len && len % 1 == 0);
    }
    assert(r >= 0) by (nonlinear_arith)
        requires
            r * src >= dst * u - dst * 0x8000_0000,
            src > 0,
            dst > 0,
            u > 0x8000_0000,
    ;
    let x = len * r;
    assert(x >= 0) by (nonlinear_arith)
        requires
            x == len * r,
            len > 0,
            r >= 0,
    ;
    lemma_nearest_error(x, 1, double());
    let y = nearest_double(x);
    let off = y - x;
    assert(-x <= off * 0x20_0000_0000_0000 <= x);
    // x * src is len * dst whole ones, to the last bits of the ratio.
    let p = len * dst;
    let e = r * src - dst * u;
    assert(x * src == p * u + len * e) by (nonlinear_arith)
        requires
            x == len * r,
            p == len * dst,
            e == r * src - dst * u,
    ;
    assert(-(p * 0x8000_0000) <= len * e <= p * 0x8000_0000) by (nonlinear_arith)
        requires
            -(dst * 0x8000_0000) <= e <= dst * 0x8000_0000,
            p == len * dst,
            len > 0,
    ;
    let w = off * src;
    assert(-(x * src) <= w * 0x20_0000_0000_0000 <= x * src) by (nonlinear_arith)
        requires
            w == off * src,
            -x <= off * 0x20_0000_0000_0000 <= x,
            src > 0,
    ;
    assert(y * src == x * src + w) by (nonlinear_arith)
        requires
            off == y - x,
            w == off * src,
    ;
    assert(y >= 0);
    lemma_rounded_error(y, u);
    let n = rounded(y, u);
    let g = n * u - y;
    let h = g * src;
    assert(-(u * src) <= 2 * h <= u * src) by (nonlinear_arith)
        requires
            h == g * src,
            -u <= 2 * g <= u,
            src > 0,
    ;
    assert(n * src * u == y * src + h) by (nonlinear_arith)
        requires
            g == n * u - y,
            h == g * src,
    ;
    let d = n * src - p;
    assert(d * u == n * src * u - p * u) by (nonlinear_arith)
        requires
            d == n * src - p,
    ;
    assert(p > 0) by (nonlinear_arith)
        requires
            p == len * dst,
            len > 0,
            dst > 0,
    ;
    assert(2 * (d * u) <= u * src + u / 2 && 2 * (d * u) >= -(u * src) - u / 2);
    assert(-src <= 2 * d <= src) by (nonlinear_arith)
        requires
            2 * (d * u) <= u * src + u / 2,
            2 * (d * u) >= -(u * src) - u / 2,
            u > 0,
    ;
}

/// The file that is sent for interleaved samples lasts as long as they do, whatever their rate and
/// their channels: at 16000 samples a second it has the whole number of samples that is nearest to
/// the time of the frames.
pub proof fn law_sent_file_lasts_as_long(
    samples: &[i16],
    channels: u16,
    rate: u32,
    r: Result<Vec<u8>, WavError>,
)
    requires
        channels > 0,
        rate > 0,
        samples@.len() % (channels as nat) == 0,
        samples@.len() <= 0x1_0000_0000,
        call_ensures(resample_samples_to_16k, (samples, channels, rate), r),
    ensures
        ({
            let frames = samples@.len() as int / channels as int;
            &&& r matches Ok(file) ==> (wav::samples_of(file@) matches Some(out) && -(rate as int)
                <= 2 * (out.len() * rate - frames * 16_000) <= rate)
            &&& r matches Ok(file) ==> wav::header_of(file@) == Some(
                wav::Header {
                    channels: 1,
                    sample_rate: 16_000,
                    bits_per_sample: 16,
                    float: false,
                },
            )
            &&& r == Err::<Vec<u8>, WavError>(WavError::Empty) ==> 2 * (frames * 16_000) <= rate
            &&& 2 * (frames * 16_000) < rate ==> r == Err::<Vec<u8>, WavError>(WavError::Empty)
            &&& r is Err && frames <= 0x0fff_0000 && rate >= 2_000 ==> r == Err::<
                Vec<u8>,
                WavError,
            >(WavError::Empty)
        }),
{
    let c = channels as int;
    let n = samples@.len() as int;
    let frames = n / c;
    assert(n == frames * c && frames >= 0) by (nonlinear_arith)
        requires
            frames == n / c,
            n % c == 0,
            n >= 0,
            c > 0,
    ;
    assert(frame_count(n, c) == frames) by (nonlinear_arith)
        requires
            frame_count(n, c) == (n + c - 1) / c,
            n == frames * c,
            c > 0,
    ;
    assert(frames <= n) by (nonlinear_arith)
        requires
            n == frames * c,
            c >= 1,
            frames >= 0,
    ;
    let mono = mono_of(samples@, c);
    assert(mono.len() == frames);
    let out = at_16k(samples@, channels, rate);
    if frames > 0 {
        law_length_in_time_stays(frames, rate as int, 16_000);
    }
    let k = resampled_len(frames, rate as int, 16_000);
    if rate != 16_000 {
        assert(k >= 0) by {
            if frames > 0 {
                assert(k >= 0) by (nonlinear_arith)
                    requires
                        2 * (k * rate - frames * 16_000) >= -(rate as int),
                        frames > 0,
                        rate > 0,
                ;
            }
        }
        assert(out.len() == k);
    } else {
        assert(out.len() == frames);
        assert(2 * (frames * rate - frames * 16_000) == 0) by (nonlinear_arith)
            requires
                rate == 16_000,
        ;
    }
    let len = out.len() as int;
    assert(frames == 0 ==> len == 0);
    assert(-(rate as int) <= 2 * (len * rate - frames * 16_000) <= rate) by {
        if frames == 0 {
            assert(0 * rate == 0);
        }
    }
    if len == 0 {
        assert(0 * rate == 0);
    } else {
        assert(len * rate >= rate) by (nonlinear_arith)
            requires
                len >= 1,
                rate > 0,
        ;
    }
    if frames <= 0x0fff_0000 && rate >= 2_000 {
        assert(len <= 0x7fff_0000) by (nonlinear_arith)
            requires
                2 * (len * rate - frames * 16_000) <= rate,
                frames <= 0x0fff_0000,
                rate >= 2_000,
                len >= 0,
        ;
    }
}

/// The sample of `m` at `i`, or the last one from there on.
pub open spec fn sample_or_last(m: Seq<i16>, i: int) -> int {
    if i < m.len() {
        m[i] as int
    } else {
        m[m.len() - 1] as int
    }
}

/// How far the position of sample `j` is off.
proof fn lemma_position_error(j: int, src: int, dst: int)
    requires
        0 <= j < 0x20_0000_0000_0000,
        0 < src <= 0xffff_ffff,
        0 < dst <= 0xffff_ffff,
    ensures
        ({
            let off = position(j, src, dst) * dst - j * src * one();
            let most = 2 * dst + j * src * 0x4_0000_0000;
            -most <= off <= most
        }),
        position(j, src, dst) >= 0,
{
    lemma_one_is();
    lemma_double();
    lemma_ratio_error(src, dst);
    let u = one();
    let r = ratio(src, dst);
    let e = r * src - dst * u;
    assert(nearest_double(j) == j) by {
        assert(j / 1 == j && j % 1 == 0);
    }
    assert(r > 0) by (nonlinear_arith)
        requires
            r * src >= dst * u - dst * 0x8000_0000,
            src > 0,
            dst > 0,
            u > 0x8000_0000,
    ;
    let a = j * u * u;
    assert(a >= 0) by (nonlinear_arith)
        requires
            a == j * u * u,
            j >= 0,
            u > 0,
    ;
    lemma_nearest_error(a, r, double());
    crate::float::lemma_nearest_at_least(a, r, double(), 0);
    let p = position(j, src, dst);
    let g = p * r - a;
    // Twice the error is at most the ratio, or its last bits are those of the product.
    assert(-(r * 0x20_0000_0000_0000 + 2 * a) <= 2 * g * 0x20_0000_0000_0000 <= r
        * 0x20_0000_0000_0000 + 2 * a);
    let js = j * src;
    let b = a * src;
    assert(b == js * u * u) by (nonlinear_arith)
        requires
            b == a * src,
            a == j * u * u,
            js == j * src,
    ;
    assert(js >= 0) by (nonlinear_arith)
        requires
            js == j * src,
            j >= 0,
            src > 0,
    ;
    let rs = r * src;
    let gs = g * src;
    assert(2 * gs * 0x20_0000_0000_0000 <= rs * 0x20_0000_0000_0000 + 2 * b && 2 * gs
        * 0x20_0000_0000_0000 >= -(rs * 0x20_0000_0000_0000 + 2 * b)) by (nonlinear_arith)
        requires
            gs == g * src,
            rs == r * src,
            b == a * src,
            src > 0,
            2 * g * 0x20_0000_0000_0000 <= r * 0x20_0000_0000_0000 + 2 * a,
            2 * g * 0x20_0000_0000_0000 >= -(r * 0x20_0000_0000_0000 + 2 * a),
    ;
    assert(p * rs == b + gs) by (nonlinear_arith)
        requires
            g == p * r - a,
            gs == g * src,
            rs == r * src,
            b == a * src,
    ;
    assert(rs == dst * u + e);
    // b is `js` whole ones, each of so many parts.
    let c = js * u;
    assert(b == c * 0x10_0000_0000_0000_0000_0000) by (nonlinear_arith)
        requires
            b == js * u * u,
            c == js * u,
            u == 0x10_0000_0000_0000_0000_0000,
    ;
    let pd = p * dst;
    assert(pd >= 0) by (nonlinear_arith)
        requires
            pd == p * dst,
            p >= 0,
            dst > 0,
    ;
    assert(p * rs == pd * u + p * e) by (nonlinear_arith)
        requires
            rs == dst * u + e,
            pd == p * dst,
    ;
    assert(-(pd * 0x8000_0000) <= p * e <= pd * 0x8000_0000) by (nonlinear_arith)
        requires
            pd == p * dst,
            p >= 0,
            -(dst * 0x8000_0000) <= e <= dst * 0x8000_0000,
    ;
    assert(pd * u == pd * 0x10_0000_0000_0000_0000_0000) by (nonlinear_arith)
        requires
            u == 0x10_0000_0000_0000_0000_0000,
    ;
    assert(dst * u == dst * 0x10_0000_0000_0000_0000_0000) by (nonlinear_arith)
        requires
            u == 0x10_0000_0000_0000_0000_0000,
    ;
    assert(c == js * 0x10_0000_0000_0000_0000_0000) by (nonlinear_arith)
        requires
            c == js * u,
            u == 0x10_0000_0000_0000_0000_0000,
    ;
    assert(pd <= 4 * c + 4 * dst);
}

/// How far a number in double precision is off.
proof fn lemma_double_error(num: int, most: int)
    requires
        -(most * 0x20_0000_0000_0000) <= num <= most * 0x20_0000_0000_0000,
        most >= 0,
    ensures
        -most <= nearest_double(num) - num <= most,
{
    lemma_double();
    if num >= 0 {
        lemma_nearest_error(num, 1, double());
    } else {
        lemma_nearest_error(-num, 1, double());
    }
}

/// A recording at another rate is the same recording: sample `j` of it lies on the straight line
/// between two samples next to each other, at the place that its time `j / dst` has among them, to
/// the last bits of double precision. The place is `pos`, of which [`one`] is the way from one
/// sample to the next; after the last sample the line is level.
pub proof fn law_samples_stand_where_their_time_is(
    input: &[i16],
    src: u32,
    dst: u32,
    r: Vec<i16>,
    j: int,
)
    requires
        input@.len() > 0,
        src > 0,
        dst > 0,
        0 <= j < r@.len() < 0x20_0000_0000_0000,
        call_ensures(resample_linear, (input, src, dst), r),
    ensures
        exists|pos: int|
            pos >= 0 && #[trigger] is_near(pos * dst, j * src * one(), 2 * dst + j * src
                * 0x4_0000_0000) && is_near(
                r@[j] * one(),
                sample_or_last(input@, pos / one()) * (one() - pos % one()) + sample_or_last(
                    input@,
                    pos / one() + 1,
                ) * (pos % one()),
                one() / 2 + 0x2_0000_0000_0000,
            ),
{
    let m = input@;
    let pos = position(j, src as int, dst as int);
    lemma_position_error(j, src as int, dst as int);
    lemma_one_is();
    let u = one();
    law_interpolation_stays_between(m, pos);
    let i = pos / u;
    let f = pos % u;
    assert(0 <= f < u && i >= 0) by (nonlinear_arith)
        requires
            f == pos % u,
            i == pos / u,
            u > 0,
            pos >= 0,
    ;
    let a = sample_or_last(m, i);
    let b = sample_or_last(m, i + 1);
    let line = a * (u - f) + b * f;
    let step = (b - a) * f;
    assert(line == a * u + step) by (nonlinear_arith)
        requires
            line == a * (u - f) + b * f,
            step == (b - a) * f,
    ;
    assert(-(0x1_0000 * u) <= step <= 0x1_0000 * u) by (nonlinear_arith)
        requires
            step == (b - a) * f,
            -0xffff <= b - a <= 0xffff,
            0 <= f < u,
    ;
    lemma_double_error(step, 0x8000_0000_0000);
    let risen = nearest_double(step);
    assert(-(0x8000 * u) <= a * u <= 0x8000 * u) by (nonlinear_arith)
        requires
            -0x8000 <= a <= 0x7fff,
            u > 0,
    ;
    lemma_double_error(a * u + risen, 0x1_0000_0000_0000);
    let w = nearest_double(a * u + risen);
    let v = rounded(w, u);
    assert(-u <= 2 * (v * u - w) <= u) by {
        if w >= 0 {
            lemma_rounded_error(w, u);
        } else {
            lemma_rounded_error(-w, u);
            assert((-v) * u == -(v * u)) by (nonlinear_arith);
        }
    }
    assert(r@[j] == v);
    assert(is_near(pos * dst, j * src * u, 2 * dst + j * src * 0x4_0000_0000));
}

/// Whether two numbers differ by at most `most`.
pub open spec fn is_near(a: int, b: int, most: int) -> bool {
    -most <= a - b <= most
}

/// Samples of no channels are those of one.
pub proof fn law_no_channels_are_one(
    samples: &[i16],
    rate: u32,
    r: Result<Vec<u8>, WavError>,
    s: Result<Vec<u8>, WavError>,
)
    requires
        call_ensures(resample_samples_to_16k, (samples, 0u16, rate), r),
        call_ensures(resample_samples_to_16k, (samples, 1u16, rate), s),
    ensures
        r is Ok <==> s is Ok,
        r matches Ok(a) ==> (s matches Ok(b) && a@ == b@),
        r matches Err(e) ==> s == Err::<Vec<u8>, WavError>(e),
{
}

/// The channels are mixed before anything else: samples of several channels are sent as their mix
/// is.
pub proof fn law_channels_are_mixed_first(
    samples: &[i16],
    channels: u16,
    rate: u32,
    mixed: Vec<i16>,
    mix: &[i16],
    r: Result<Vec<u8>, WavError>,
    s: Result<Vec<u8>, WavError>,
)
    requires
        channels > 0,
        mix@ == mixed@,
        call_ensures(downmix, (samples, channels), mixed),
        call_ensures(resample_samples_to_16k, (samples, channels, rate), r),
        call_ensures(resample_samples_to_16k, (mix, 1u16, rate), s),
    ensures
        r is Ok <==> s is Ok,
        r matches Ok(a) ==> (s matches Ok(b) && a@ == b@),
        r matches Err(e) ==> s == Err::<Vec<u8>, WavError>(e),
{
    lemma_copies_are_mixed_back(mix@, 1);
    assert(copies(mix@, 1) =~= mix@);
}

/// One channel is sent as it is at 16 kHz, and from any other rate as it is at that rate.
pub proof fn law_one_channel_is_resampled(
    mono: &[i16],
    rate: u32,
    file: Vec<u8>,
    resampled: Vec<i16>,
)
    requires
        call_ensures(resample_samples_to_16k, (mono, 1u16, rate), Ok::<Vec<u8>, WavError>(file)),
        call_ensures(resample_linear, (mono, rate, 16_000u32), resampled),
    ensures
        rate == 16_000 ==> wav::samples_of(file@) == Some(mono@),
        rate != 16_000 ==> wav::samples_of(file@) == Some(resampled@),
{
    lemma_copies_are_mixed_back(mono@, 1);
    assert(copies(mono@, 1) =~= mono@);
}

} // verus!
