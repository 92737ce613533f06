//! Floating point numbers in whole numbers: the arithmetic of binary numbers with so many
//! significant bits, in which every step is rounded to the nearest such number.
use vstd::arithmetic::div_mod::lemma_fundamental_div_mod_converse;
use vstd::arithmetic::power2::{
    lemma2_to64, lemma2_to64_rest, lemma_pow2_adds, lemma_pow2_pos, lemma_pow2_strictly_increases,
    lemma_pow2_unfold, pow2,
};
use vstd::prelude::*;

verus! {

/// `num / den` as a whole number, the nearest one, and of two the even one; for a positive `den`.
pub open spec fn to_even(num: int, den: int) -> int {
    let q = num / den;
    let r = num % den;
    if 2 * r > den || (2 * r == den && q % 2 == 1) {
        q + 1
    } else {
        q
    }
}

/// `num / den`, rounded to the nearest whole number that has as few significant bits as those below
/// `top`, a power of two: half to even. `num` is not negative and `den` positive.
pub open spec fn nearest(num: int, den: int, top: int) -> int
    decreases
            (if num > den {
                num - den
            } else {
                0
            }),
{
    if den <= 0 || top < 2 || num < den * top {
        to_even(num, den)
    } else {
        proof {
            assert(den * top >= 2 * den) by (nonlinear_arith)
                requires
                    den > 0,
                    top >= 2,
            ;
        }
        2 * nearest(num, 2 * den, top)
    }
}

proof fn lemma_to_even(num: int, den: int)
    requires
        num >= 0,
        den > 0,
    ensures
        0 <= num / den,
        num == num / den * den + num % den,
        0 <= num % den < den,
        num / den <= to_even(num, den) <= num / den + 1,
{
    assert(0 <= num / den && num == num / den * den + num % den && 0 <= num % den < den)
        by (nonlinear_arith)
        requires
            num >= 0,
            den > 0,
    ;
}

/// A common factor makes no difference.
proof fn lemma_even_factor(num: int, den: int, c: int)
    requires
        num >= 0,
        den > 0,
        c > 0,
    ensures
        to_even(c * num, c * den) == to_even(num, den),
{
    lemma_to_even(num, den);
    let q = num / den;
    let r = num % den;
    assert(c * num == q * (c * den) + c * r) by (nonlinear_arith)
        requires
            num == q * den + r,
    ;
    assert(0 <= c * r < c * den) by (nonlinear_arith)
        requires
            0 <= r < den,
            c > 0,
    ;
    lemma_fundamental_div_mod_converse(c * num, c * den, q, c * r);
    assert(2 * (c * r) > c * den <==> 2 * r > den) by (nonlinear_arith)
        requires
            c > 0,
    ;
    assert(2 * (c * r) == c * den <==> 2 * r == den) by (nonlinear_arith)
        requires
            c > 0,
    ;
}

/// A common factor makes no difference.
pub proof fn lemma_nearest_factor(num: int, den: int, top: int, c: int)
    requires
        num >= 0,
        den > 0,
        c > 0,
    ensures
        nearest(c * num, c * den, top) == nearest(num, den, top),
    decreases
            (if num > den {
                num - den
            } else {
                0
            }),
{
    assert(c * num < (c * den) * top <==> num < den * top) by (nonlinear_arith)
        requires
            c > 0,
    ;
    assert(c * den > 0) by (nonlinear_arith)
        requires
            c > 0,
            den > 0,
    ;
    if top < 2 || num < den * top {
        lemma_even_factor(num, den, c);
    } else {
        assert(den * top >= 2 * den) by (nonlinear_arith)
            requires
                den > 0,
                top >= 2,
        ;
        assert(2 * (c * den) == c * (2 * den)) by (nonlinear_arith);
        lemma_nearest_factor(num, 2 * den, top, c);
    }
}

/// Twice a number that has all its bits is twice as much.
proof fn lemma_nearest_twice(num: int, den: int, top: int)
    requires
        num >= 0,
        den > 0,
        top >= 2,
        den == 1 || 2 * num >= den * top,
    ensures
        nearest(2 * num, den, top) == 2 * nearest(num, den, top),
{
    if 2 * num < den * top {
        assert(nearest(2 * num, 1, top) == 2 * num);
        assert(nearest(num, 1, top) == num);
    } else {
        lemma_nearest_factor(num, den, top, 2);
    }
}

/// A power of two times a number that has all its bits is as many times as much.
pub proof fn lemma_nearest_power(num: int, den: int, top: int, t: nat)
    requires
        num >= 0,
        den > 0,
        top >= 2,
        den == 1 || 2 * num >= den * top,
    ensures
        nearest(num * pow2(t), den, top) == nearest(num, den, top) * pow2(t),
    decreases t,
{
    if t == 0 {
        lemma2_to64();
        assert(pow2(0) == 1);
    } else {
        let s = (t - 1) as nat;
        lemma_nearest_power(num, den, top, s);
        lemma_pow2_unfold(t);
        lemma_pow2_pos(s);
        let x = num * pow2(s);
        assert(x >= num) by (nonlinear_arith)
            requires
                x == num * pow2(s),
                num >= 0,
                pow2(s) >= 1,
        ;
        lemma_nearest_twice(x, den, top);
        assert(2 * x == num * pow2(t)) by (nonlinear_arith)
            requires
                x == num * pow2(s),
                pow2(t) == 2 * pow2(s),
        ;
        let y = nearest(num, den, top);
        assert(2 * (y * pow2(s)) == y * pow2(t)) by (nonlinear_arith)
            requires
                pow2(t) == 2 * pow2(s),
        ;
    }
}

/// A number with few enough bits is itself.
pub proof fn lemma_nearest_exact(m: int, top: int, t: nat)
    requires
        0 <= m <= top,
        top >= 2,
        top % 2 == 0,
    ensures
        nearest(m * pow2(t), 1, top) == m * pow2(t),
{
    lemma_nearest_power(m, 1, top, t);
    if m == top {
        assert(nearest(m, 2, top) == to_even(m, 2));
        assert(nearest(m, 1, top) == 2 * nearest(m, 2, top));
    }
}

/// What is at least a whole number below `top` is not rounded below it.
pub proof fn lemma_nearest_at_least(num: int, den: int, top: int, x: int)
    requires
        num >= 0,
        den > 0,
        top >= 2,
        top % 2 == 0,
        0 <= x <= top,
        num >= x * den,
    ensures
        nearest(num, den, top) >= x,
    decreases
            (if num > den {
                num - den
            } else {
                0
            }),
{
    if num < den * top {
        lemma_to_even(num, den);
        assert(num / den >= x) by (nonlinear_arith)
            requires
                num >= x * den,
                den > 0,
        ;
    } else {
        assert(den * top >= 2 * den) by (nonlinear_arith)
            requires
                den > 0,
                top >= 2,
        ;
        let half = top / 2;
        assert(num >= half * (2 * den)) by (nonlinear_arith)
            requires
                num >= den * top,
                top == 2 * half,
        ;
        lemma_nearest_at_least(num, 2 * den, top, half);
    }
}

/// Rounding keeps the order.
pub proof fn lemma_nearest_rises(a: int, b: int, den: int, top: int)
    requires
        0 <= a <= b,
        den > 0,
        top >= 2,
        top % 2 == 0,
    ensures
        0 <= nearest(a, den, top) <= nearest(b, den, top),
    decreases
            (if b > den {
                b - den
            } else {
                0
            }),
{
    lemma_nearest_at_least(a, den, top, 0);
    if b < den * top {
        lemma_to_even(a, den);
        lemma_to_even(b, den);
        let p = a / den;
        let q = b / den;
        assert(p <= q) by (nonlinear_arith)
            requires
                p == a / den,
                q == b / den,
                a <= b,
                den > 0,
        ;
        if p == q {
            assert(a % den <= b % den);
        }
    } else {
        assert(den * top >= 2 * den) by (nonlinear_arith)
            requires
                den > 0,
                top >= 2,
        ;
        if a < den * top {
            lemma_to_even(a, den);
            assert(a / den < top) by (nonlinear_arith)
                requires
                    a < den * top,
                    den > 0,
                    a >= 0,
            ;
            assert(top * den == den * top) by (nonlinear_arith);
            lemma_nearest_at_least(b, den, top, top);
        } else {
            lemma_nearest_rises(a, b, 2 * den, top);
        }
    }
}

// ---------------------------------------------------------------------------------------------
// Double precision
// ---------------------------------------------------------------------------------------------

/// The numbers below this one have the bits of a double precision number.
pub open spec fn double() -> int {
    pow2(53) as int
}

/// The nearest number, of either sign, that has the bits of a double precision number.
pub open spec fn nearest_double(num: int) -> int {
    if num >= 0 {
        nearest(num, 1, double())
    } else {
        -nearest(-num, 1, double())
    }
}

pub proof fn lemma_double()
    ensures
        double() == 0x20_0000_0000_0000,
        pow2(0) == 1,
{
    lemma2_to64();
    lemma2_to64_rest();
}

/// Rounding keeps the order.
pub proof fn lemma_double_rises(a: int, b: int)
    requires
        a <= b,
    ensures
        nearest_double(a) <= nearest_double(b),
{
    lemma_double();
    if a >= 0 {
        lemma_nearest_rises(a, b, 1, double());
    } else if b < 0 {
        lemma_nearest_rises(-b, -a, 1, double());
    } else {
        lemma_nearest_rises(0, b, 1, double());
        lemma_nearest_rises(0, -a, 1, double());
    }
}

/// A number with few enough bits is itself.
pub proof fn lemma_double_exact(m: int, t: nat)
    requires
        -0x1_0000 <= m <= 0x1_0000,
    ensures
        nearest_double(m * pow2(t)) == m * pow2(t),
{
    lemma_double();
    lemma_pow2_pos(t);
    if m >= 0 {
        assert(m * pow2(t) >= 0) by (nonlinear_arith)
            requires
                m >= 0,
                pow2(t) >= 0,
        ;
        lemma_nearest_exact(m, double(), t);
    } else {
        assert((-m) * pow2(t) == -(m * pow2(t))) by (nonlinear_arith);
        assert(m * pow2(t) < 0) by (nonlinear_arith)
            requires
                m < 0,
                pow2(t) > 0,
        ;
        lemma_nearest_exact(-m, double(), t);
    }
}

/// A power of two times a number is as many times as much.
pub proof fn lemma_double_power(num: int, t: nat)
    ensures
        nearest_double(num * pow2(t)) == nearest_double(num) * pow2(t),
{
    lemma_double();
    lemma_pow2_pos(t);
    if num >= 0 {
        assert(num * pow2(t) >= 0) by (nonlinear_arith)
            requires
                num >= 0,
                pow2(t) >= 0,
        ;
        lemma_nearest_power(num, 1, double(), t);
    } else {
        assert((-num) * pow2(t) == -(num * pow2(t))) by (nonlinear_arith);
        assert(num * pow2(t) < 0) by (nonlinear_arith)
            requires
                num < 0,
                pow2(t) > 0,
        ;
        lemma_nearest_power(-num, 1, double(), t);
        let y = nearest(-num, 1, double());
        assert(-(y * pow2(t)) == (-y) * pow2(t)) by (nonlinear_arith);
    }
}

// ---------------------------------------------------------------------------------------------
// Functions
// ---------------------------------------------------------------------------------------------

/// Two to the power of `n`.
pub fn power(n: u32) -> (r: u128)
    requires
        n <= 126,
    ensures
        r == pow2(n as nat),
        0 < r <= 0x4000_0000_0000_0000_0000_0000_0000_0000,
{
    let mut r: u128 = 1;
    let mut i: u32 = 0;
    proof {
        lemma2_to64();
        lemma_top_power();
    }
    while i < n
        invariant
            i <= n <= 126,
            r == pow2(i as nat),
            pow2(126) == 0x4000_0000_0000_0000_0000_0000_0000_0000,
        decreases n - i,
    {
        proof {
            lemma_pow2_unfold((i + 1) as nat);
            lemma_pow2_strictly_increases(i as nat, 126);
        }
        r = 2 * r;
        i = i + 1;
    }
    proof {
        lemma_pow2_pos(n as nat);
        if n < 126 {
            lemma_pow2_strictly_increases(n as nat, 126);
        }
    }
    r
}

/// The largest power of two that is computed.
pub proof fn lemma_top_power()
    ensures
        pow2(126) == 0x4000_0000_0000_0000_0000_0000_0000_0000,
{
    lemma2_to64();
    lemma2_to64_rest();
    lemma_pow2_adds(63, 63);
    assert(0x8000_0000_0000_0000int * 0x8000_0000_0000_0000int
        == 0x4000_0000_0000_0000_0000_0000_0000_0000int) by (nonlinear_arith);
}

/// [`nearest`], as a number below `top` or `top` itself, and the power of two that it is to be
/// multiplied with.
pub fn round_to(num: u128, den: u128, top: u64) -> (r: (u64, u32))
    requires
        0 < den,
        num < 0x4000_0000_0000_0000_0000_0000_0000_0000,
        2 <= top,
        top % 2 == 0,
    ensures
        r.0 * pow2(r.1 as nat) == nearest(num as int, den as int, top as int),
        r.0 <= top,
        r.1 <= 126,
        r.1 > 0 ==> den * pow2((r.1 - 1) as nat) * top <= num,
{
    let h: u128 = num / (top as u128);
    let mut d: u128 = den;
    let mut k: u32 = 0;
    proof {
        lemma_double();
        lemma_top_power();
        assert(den * 1 == den && nearest(num as int, den as int, top as int) * 1 == nearest(
            num as int,
            den as int,
            top as int,
        ));
        assert(h <= num) by (nonlinear_arith)
            requires
                h == num / (top as u128),
                top >= 2,
        ;
    }
    while h >= d
        invariant
            h == num / (top as u128),
            h <= num < 0x4000_0000_0000_0000_0000_0000_0000_0000,
            pow2(126) == 0x4000_0000_0000_0000_0000_0000_0000_0000,
            top >= 2,
            den > 0,
            d > 0,
            d == den * pow2(k as nat),
            k <= 126,
            nearest(num as int, d as int, top as int) * pow2(k as nat) == nearest(
                num as int,
                den as int,
                top as int,
            ),
            k > 0 ==> den * pow2((k - 1) as nat) * top <= num,
        decreases 0x8000_0000_0000_0000_0000_0000_0000_0000 - d,
    {
        proof {
            assert(num >= d * top) by (nonlinear_arith)
                requires
                    h == num / (top as u128),
                    h >= d,
                    top >= 2,
            ;
            assert(pow2(k as nat) <= d) by (nonlinear_arith)
                requires
                    d == den * pow2(k as nat),
                    den >= 1,
                    pow2(k as nat) >= 0,
            ;
            if k == 126 {
                assert(false);
            }
            lemma_pow2_unfold((k + 1) as nat);
            assert(2 * (den * pow2(k as nat)) == den * pow2((k + 1) as nat)) by (nonlinear_arith)
                requires
                    pow2((k + 1) as nat) == 2 * pow2(k as nat),
            ;
            let y = nearest(num as int, 2 * d, top as int);
            assert((2 * y) * pow2(k as nat) == y * pow2((k + 1) as nat)) by (nonlinear_arith)
                requires
                    pow2((k + 1) as nat) == 2 * pow2(k as nat),
            ;
        }
        d = 2 * d;
        k = k + 1;
    }
    proof {
        assert(num < d * top) by (nonlinear_arith)
            requires
                h == num / (top as u128),
                h < d,
                top >= 2,
        ;
        lemma_to_even(num as int, d as int);
        assert(num / d < top) by (nonlinear_arith)
            requires
                num < d * top,
                d > 0,
        ;
    }
    let q: u64 = (num / d) as u64;
    let r: u128 = num % d;
    let up: bool = r > d - r || (r == d - r && q % 2 == 1);
    if up {
        (q + 1, k)
    } else {
        (q, k)
    }
}

/// [`nearest_double`] of a number.
pub fn round_double(num: i128) -> (r: i128)
    requires
        -0x10_0000_0000_0000_0000_0000_0000_0000 <= num
            <= 0x10_0000_0000_0000_0000_0000_0000_0000,
    ensures
        r == nearest_double(num as int),
{
    let size: u128 = if num >= 0 {
        num as u128
    } else {
        (-num) as u128
    };
    let (q, k) = round_to(size, 1, 0x20_0000_0000_0000);
    proof {
        lemma_double();
        lemma_top_power();
        lemma_nearest_rises(size as int, pow2(126) as int, 1, double());
        assert(1 * pow2(126) == pow2(126));
        lemma_nearest_exact(1, double(), 126);
    }
    let value: i128 = ((q as u128) * power(k)) as i128;
    if num >= 0 {
        value
    } else {
        -value
    }
}

// ---------------------------------------------------------------------------------------------
// Single precision samples
// ---------------------------------------------------------------------------------------------

/// A number in single precision, given by its bits, without its sign, as a sample in 16 bit: what
/// is 1 and more is the loudest sample, the rest is multiplied with 32767 in single precision and
/// cut off behind the point. What is no number is silence.
pub open spec fn loudness(bits: u32) -> int {
    let exponent = (bits as int / 0x80_0000) % 256;
    let fraction = bits as int % 0x80_0000;
    if exponent == 255 && fraction != 0 {
        0
    } else if exponent >= 127 {
        32767
    } else if exponent == 0 {
        nearest(fraction * 32767, 1, 0x100_0000) / pow2(149) as int
    } else {
        nearest((fraction + 0x80_0000) * 32767, 1, 0x100_0000) / pow2(
            (150 - exponent) as nat,
        ) as int
    }
}

/// A number in single precision, given by its bits, as a sample in 16 bit.
pub open spec fn sample_of(bits: u32) -> int {
    if bits >= 0x8000_0000 {
        -loudness(bits)
    } else {
        loudness(bits)
    }
}

/// The product is below 2^39, and below `32767 * 2^24`.
proof fn lemma_product(x: int, y: int)
    requires
        0 <= x < 0x100_0000,
        y == nearest(x * 32767, 1, 0x100_0000),
    ensures
        0 <= y <= 32767 * 0x100_0000,
{
    lemma2_to64();
    lemma_nearest_rises(x * 32767, 32767int * 0x100_0000int, 1, 0x100_0000);
    lemma_nearest_exact(32767, 0x100_0000, 24);
}

/// What is below `32767 * 2^24`, divided by two to the power of `shift`.
fn shifted(x: u64, shift: u32) -> (r: i16)
    requires
        x <= 32767 * 0x100_0000,
        24 <= shift,
    ensures
        r == x as int / pow2(shift as nat) as int,
        r >= 0,
{
    proof {
        lemma2_to64();
        lemma2_to64_rest();
        lemma_pow2_pos(shift as nat);
        if shift > 24 {
            lemma_pow2_strictly_increases(24, shift as nat);
        }
        let d = pow2(shift as nat) as int;
        let q = x as int / d;
        assert(0 <= q <= 32767) by (nonlinear_arith)
            requires
                q == x as int / d,
                x <= 32767 * 0x100_0000,
                d >= 0x100_0000,
                x >= 0,
        ;
    }
    if shift > 40 {
        proof {
            lemma_pow2_strictly_increases(40, shift as nat);
            let d = pow2(shift as nat) as int;
            assert(x as int / d == 0) by (nonlinear_arith)
                requires
                    0 <= x < d,
            ;
        }
        return 0;
    }
    ((x as u128) / power(shift)) as i16
}

/// [`sample_of`] a number.
pub fn to_sample(bits: u32) -> (r: i16)
    ensures
        r == sample_of(bits),
{
    let exponent: u32 = (bits / 0x80_0000) % 256;
    let fraction: u32 = bits % 0x80_0000;
    let size: i16 = if exponent == 255 && fraction != 0 {
        0
    } else if exponent >= 127 {
        32767
    } else {
        let x: u32 = if exponent == 0 {
            fraction
        } else {
            fraction + 0x80_0000
        };
        let (q, k) = round_to((x as u128) * 32767, 1, 0x100_0000);
        proof {
            lemma_product(x as int, q * pow2(k as nat));
        }
        let y: u64 = ((q as u128) * power(k)) as u64;
        shifted(
            y,
            if exponent == 0 {
                149
            } else {
                150 - exponent
            },
        )
    };
    if bits >= 0x8000_0000 {
        -size
    } else {
        size
    }
}

/// Each of the numbers as a sample.
pub open spec fn samples_of(bits: Seq<u32>) -> Seq<i16> {
    bits.map_values(|b: u32| sample_of(b) as i16)
}

/// Turns each number in single precision, given by its bits, into a sample in 16 bit.
pub fn to_samples(bits: &[u32]) -> (r: Vec<i16>)
    ensures
        r@ == samples_of(bits@),
{
    let mut out: Vec<i16> = Vec::new();
    let mut i: usize = 0;
    while i < bits.len()
        invariant
            i <= bits@.len(),
            out@ == samples_of(bits@.take(i as int)),
        decreases bits@.len() - i,
    {
        out.push(to_sample(bits[i]));
        i = i + 1;
        assert(out@ =~= samples_of(bits@.take(i as int)));
    }
    assert(bits@.take(i as int) =~= bits@);
    out
}

/// A number and its opposite become opposite samples, 1 and more the loudest sample, what is no
/// number silence; and a larger number never a quieter sample.
pub proof fn law_samples_follow_the_numbers(a: u32, b: u32, x: i16, y: i16)
    requires
        call_ensures(to_sample, (a,), x),
        call_ensures(to_sample, (b,), y),
    ensures
        a < 0x8000_0000 && b == a + 0x8000_0000 ==> y == -x,
        0x3f80_0000 <= a <= 0x7f80_0000 ==> x == 32767,
        0x7f80_0000 < a < 0x8000_0000 ==> x == 0,
        a == 0 ==> x == 0,
        a < 0x8000_0000 ==> 0 <= x <= 32767,
        a <= b <= 0x7f80_0000 ==> x <= y,
{
    if a < 0x8000_0000 && b == a + 0x8000_0000 {
        lemma_sign(a, b);
    }
    if a < 0x8000_0000 {
        lemma_loudness_bounds(a);
    }
    if a <= b <= 0x7f80_0000 {
        lemma_loudness_rises(a, b);
    }
    if a == 0 {
        lemma_loudness_bounds(0);
        lemma_pow2_pos(149);
        let d = pow2(149) as int;
        assert(nearest(0, 1, 0x100_0000) == 0);
        assert(0int / d == 0) by (nonlinear_arith)
            requires
                d > 0,
        ;
    }
}

/// The sign is a bit of its own.
proof fn lemma_sign(a: u32, b: u32)
    requires
        a < 0x8000_0000,
        b == a + 0x8000_0000,
    ensures
        loudness(a) == loudness(b),
{
    assert(b as int / 0x80_0000 == a as int / 0x80_0000 + 256);
    assert((b as int / 0x80_0000) % 256 == (a as int / 0x80_0000) % 256);
    assert(b as int % 0x80_0000 == a as int % 0x80_0000);
}

/// The bits of a number in single precision without its exponent, and the power of two by which they
/// are divided.
spec fn digits(bits: u32) -> int {
    let exponent = (bits as int / 0x80_0000) % 256;
    let fraction = bits as int % 0x80_0000;
    if exponent == 0 {
        fraction
    } else {
        fraction + 0x80_0000
    }
}

spec fn below_one(bits: u32) -> nat {
    let exponent = (bits as int / 0x80_0000) % 256;
    if exponent == 0 {
        149
    } else {
        (150 - exponent) as nat
    }
}

proof fn lemma_loudness_bounds(bits: u32)
    ensures
        0 <= loudness(bits) <= 32767,
{
    let exponent = (bits as int / 0x80_0000) % 256;
    if exponent < 127 {
        let x = digits(bits);
        let y = nearest(x * 32767, 1, 0x100_0000);
        lemma_product(x, y);
        let s = below_one(bits);
        lemma2_to64();
        if s > 24 {
            lemma_pow2_strictly_increases(24, s);
        }
        let d = pow2(s) as int;
        assert(0 <= y / d <= 32767) by (nonlinear_arith)
            requires
                0 <= y <= 32767 * 0x100_0000,
                d >= 0x100_0000,
        ;
    }
}

proof fn lemma_div_rises(x: int, y: int, d: int, c: int)
    requires
        0 <= x,
        d > 0,
        c >= 1,
        x <= y * c,
        y >= 0,
    ensures
        x / (d * c) <= y / d,
{
    let q = x / (d * c);
    assert(d * c > 0) by (nonlinear_arith)
        requires
            d > 0,
            c >= 1,
    ;
    assert(q * (d * c) <= x) by (nonlinear_arith)
        requires
            q == x / (d * c),
            d * c > 0,
    ;
    assert(q * d * c <= y * c) by (nonlinear_arith)
        requires
            q * (d * c) <= x,
            x <= y * c,
    ;
    assert(q * d <= y) by (nonlinear_arith)
        requires
            q * d * c <= y * c,
            c >= 1,
    ;
    assert(q <= y / d) by (nonlinear_arith)
        requires
            q * d <= y,
            d > 0,
    ;
}

proof fn lemma_loudness_rises(a: u32, b: u32)
    requires
        a <= b <= 0x7f80_0000,
    ensures
        loudness(a) <= loudness(b),
{
    lemma_loudness_bounds(a);
    let e = (a as int / 0x80_0000) % 256;
    let f = (b as int / 0x80_0000) % 256;
    if f < 127 {
        assert(e <= f);
        let (x, y) = (digits(a), digits(b));
        let (s, t) = (below_one(a), below_one(b));
        assert(t <= s);
        let k = (s - t) as nat;
        let c = pow2(k) as int;
        let d = pow2(t) as int;
        lemma_pow2_pos(k);
        lemma_pow2_pos(t);
        lemma_pow2_adds(t, k);
        lemma2_to64();
        // The digits, brought to the same power of two, are in order.
        assert(x <= y * c) by {
            if k == 0 {
                assert(c == 1);
                assert(y * 1 == y);
            } else {
                assert(x < 0x100_0000 && y >= 0x80_0000);
                if k > 1 {
                    lemma_pow2_strictly_increases(1, k);
                }
                assert(x <= y * c) by (nonlinear_arith)
                    requires
                        x <= 0x100_0000,
                        y >= 0x80_0000,
                        c >= 2,
                ;
            }
        }
        assert(x * 32767 <= y * 32767 * c) by (nonlinear_arith)
            requires
                x <= y * c,
        ;
        let m = nearest(x * 32767, 1, 0x100_0000);
        let n = nearest(y * 32767, 1, 0x100_0000);
        lemma_nearest_rises(x * 32767, y * 32767 * c, 1, 0x100_0000);
        lemma_nearest_power(y * 32767, 1, 0x100_0000, k);
        lemma_product(x, m);
        lemma_product(y, n);
        assert(m <= n * c);
        lemma_div_rises(m, n, d, c);
        assert(pow2(s) == d * c);
    }
}

/// Numbers that are turned into samples are turned one by one.
pub proof fn law_each_number_is_a_sample(bits: &[u32], r: Vec<i16>, i: int, x: i16)
    requires
        call_ensures(to_samples, (bits,), r),
        0 <= i < bits@.len(),
        call_ensures(to_sample, (bits@[i],), x),
    ensures
        r@.len() == bits@.len(),
        r@[i] == x,
{
}

} // verus!
