//! Points in time, written as RFC 3339 wants them.
use crate::paste::{lemma_decimal_value, value_of};
use crate::text::{decimal, padded, push_str, to_padded};
use vstd::prelude::*;

verus! {

/// A day of the Gregorian calendar.
#[derive(Debug, Clone, Copy, PartialEq, Eq, Structural)]
pub struct Date {
    pub year: u64,
    pub month: u64,
    pub day: u64,
}

/// Whether February of the year `y` has 29 days.
pub open spec fn is_leap(y: int) -> bool {
    y % 4 == 0 && (y % 100 != 0 || y % 400 == 0)
}

/// How many days the month `m` of the year `y` has.
pub open spec fn month_len(y: int, m: int) -> int {
    if m == 2 {
        if is_leap(y) {
            29
        } else {
            28
        }
    } else if m == 4 || m == 6 || m == 9 || m == 11 {
        30
    } else {
        31
    }
}

/// How many days there are from the beginning of the year 0 to the beginning of the year `y`.
pub open spec fn days_before_year(y: int) -> int
    decreases y,
{
    if y <= 0 {
        0
    } else {
        days_before_year(y - 1) + if is_leap(y - 1) {
            366int
        } else {
            365
        }
    }
}

/// How many days there are from the beginning of the year `y` to the beginning of its month `m`.
pub open spec fn days_before_month(y: int, m: int) -> int
    decreases m,
{
    if m <= 1 {
        0
    } else {
        days_before_month(y, m - 1) + month_len(y, m - 1)
    }
}

/// How many days there are from the beginning of the year 0 to the date.
pub open spec fn day_number(d: Date) -> int {
    days_before_year(d.year as int) + days_before_month(d.year as int, d.month as int) + d.day - 1
}

/// Whether there is such a day.
pub open spec fn is_date(d: Date) -> bool {
    &&& 1 <= d.month <= 12
    &&& 1 <= d.day <= month_len(d.year as int, d.month as int)
}

/// The first day of 1970.
pub open spec fn epoch() -> Date {
    Date { year: 1970, month: 1, day: 1 }
}

/// Whether `d` is the day that is `days` days after the first day of 1970.
pub open spec fn is_day(d: Date, days: int) -> bool {
    is_date(d) && day_number(d) == day_number(epoch()) + days
}

/// One more year is one more multiple of `n` up to it, or none.
proof fn lemma_multiples(t: int, n: int)
    requires
        t >= 0,
        n > 0,
    ensures
        (t + n) / n == (t + n - 1) / n + if t % n == 0 {
            1int
        } else {
            0
        },
{
    let q = t / n;
    let r = t % n;
    assert(t == n * q + r && 0 <= r < n) by (nonlinear_arith)
        requires
            q == t / n,
            r == t % n,
            n > 0,
    ;
    assert((t + n) / n == q + 1) by (nonlinear_arith)
        requires
            t == n * q + r,
            0 <= r < n,
    ;
    if r == 0 {
        assert((t + n - 1) / n == q) by (nonlinear_arith)
            requires
                t == n * q,
                n > 0,
        ;
    } else {
        assert((t + n - 1) / n == q + 1) by (nonlinear_arith)
            requires
                t == n * q + r,
                0 < r < n,
        ;
    }
}

proof fn lemma_leap(t: int)
    requires
        t >= 0,
    ensures
        (if is_leap(t) {
            1int
        } else {
            0
        }) == (if t % 4 == 0 {
            1int
        } else {
            0
        }) - (if t % 100 == 0 {
            1int
        } else {
            0
        }) + (if t % 400 == 0 {
            1int
        } else {
            0
        }),
{
    if t % 400 == 0 {
        assert(t % 100 == 0);
    }
    if t % 100 == 0 {
        assert(t % 4 == 0);
    }
}

proof fn lemma_days_before_year(y: int)
    requires
        y >= 0,
    ensures
        days_before_year(y) == 365 * y + (y + 3) / 4 - (y + 99) / 100 + (y + 399) / 400,
    decreases y,
{
    if y > 0 {
        let t = y - 1;
        lemma_days_before_year(t);
        lemma_multiples(t, 4);
        lemma_multiples(t, 100);
        lemma_multiples(t, 400);
        lemma_leap(t);
    }
}

proof fn lemma_days_before_month(y: int, m: int)
    requires
        1 <= m <= 12,
    ensures
        days_before_month(y, m) == if m <= 2 {
            31 * (m - 1)
        } else {
            (153 * (m - 3) + 2) / 5 + 59 + if is_leap(y) {
                1int
            } else {
                0
            }
        },
{
    reveal_with_fuel(days_before_month, 13);
}

/// The number of days from 1 March of the year 0 to 1 March of the year `y` of a period of 400
/// years.
spec fn march(y: int) -> int {
    365 * y + y / 4 - y / 100
}

proof fn lemma_year_of_period(doe: int)
    requires
        0 <= doe < 146_097,
    ensures
        ({
            let yoe = (doe - doe / 1460 + doe / 36_524 - doe / 146_096) / 365;
            &&& 0 <= yoe <= 399
            &&& march(yoe) <= doe
            &&& doe < march(yoe + 1) + if yoe == 399 {
                1int
            } else {
                0
            }
        }),
{
    let yoe = (doe - doe / 1460 + doe / 36_524 - doe / 146_096) / 365;
    let c = doe / 36_524;
    if doe < 146_096 {
        lemma_year_of_century(doe, c);
    } else {
        assert(yoe == 399);
    }
}

/// As [`lemma_year_of_period`], for a day of the century `c`.
#[verifier::spinoff_prover]
proof fn lemma_year_of_century(doe: int, c: int)
    requires
        0 <= c <= 3,
        36_524 * c <= doe < 36_524 * (c + 1),
    ensures
        ({
            let yoe = (doe - doe / 1460 + c) / 365;
            &&& 100 * c <= yoe <= 100 * c + 99
            &&& march(yoe) <= doe
            &&& doe < march(yoe + 1) + if yoe == 399 {
                1int
            } else {
                0
            }
        }),
{
    let e = doe / 1460;
    let yoe = (doe - e + c) / 365;
    let q = yoe / 4;
    assert(1460 * e <= doe < 1460 * e + 1460);
    assert(365 * yoe <= doe - e + c < 365 * yoe + 365);
    if c == 0 {
        assert(yoe / 100 == 0);
    } else if c == 1 {
        assert(yoe / 100 == 1);
    } else if c == 2 {
        assert(yoe / 100 == 2);
    } else {
        assert(yoe / 100 == 3);
    }
}

/// The month `mp` after March, of the day `doy` after 1 March, and the day in it.
proof fn lemma_day_of_year(doy: int)
    requires
        0 <= doy <= 365,
    ensures
        ({
            let mp = (5 * doy + 2) / 153;
            let d = doy - (153 * mp + 2) / 5 + 1;
            let m = if mp < 10 {
                mp + 3
            } else {
                mp - 9
            };
            &&& 0 <= mp <= 11
            &&& 1 <= d
            &&& mp < 11 ==> d <= month_len(1, m)
            &&& mp == 11 ==> d <= 29 && (d == 29 <==> doy == 365)
        }),
{
}

/// The days before 1 March.
proof fn lemma_march(era: int, yoe: int)
    requires
        era >= 0,
        0 <= yoe <= 399,
    ensures
        ({
            let y = yoe + 400 * era;
            days_before_year(y) + 59 + (if is_leap(y) {
                1int
            } else {
                0
            }) == 146_097 * era + march(yoe) + 60
        }),
{
    let y = yoe + 400 * era;
    lemma_days_before_year(y);
    lemma_leap(y);
    lemma_multiples(y, 4);
    lemma_multiples(y, 100);
    lemma_multiples(y, 400);
    assert((y + 4) / 4 == yoe / 4 + 100 * era + 1);
    assert((y + 100) / 100 == yoe / 100 + 4 * era + 1);
    assert((y + 400) / 400 == era + 1);
}

/// Only a year that ends with a leap day has a day 365 after its 1 March.
proof fn lemma_last_day(era: int, yoe: int, doy: int)
    requires
        era >= 0,
        0 <= yoe <= 399,
        0 <= doy,
        march(yoe) + doy < march(yoe + 1) + if yoe == 399 {
            1int
        } else {
            0
        },
    ensures
        doy <= 365,
        doy == 365 ==> is_leap(yoe + 400 * era + 1),
{
    let t = yoe + 1;
    let y = yoe + 400 * era + 1;
    assert(y % 4 == t % 4);
    assert(y % 100 == t % 100);
    assert(y % 400 == t % 400);
}

/// The day that is `days` days after the first day of 1970.
pub fn civil_from_days(days: u64) -> (r: Date)
    requires
        days <= 0x0fff_ffff_ffff_ffff,
    ensures
        is_day(r, days as int),
{
    let z: u64 = days + 719_468;
    let era: u64 = z / 146_097;
    let doe: u64 = z % 146_097;
    let yoe: u64 = (doe - doe / 1460 + doe / 36_524 - doe / 146_096) / 365;
    proof {
        lemma_year_of_period(doe as int);
    }
    let doy: u64 = doe - (365 * yoe + yoe / 4 - yoe / 100);
    proof {
        lemma_last_day(era as int, yoe as int, doy as int);
        lemma_day_of_year(doy as int);
    }
    let mp: u64 = (5 * doy + 2) / 153;
    let day: u64 = doy - (153 * mp + 2) / 5 + 1;
    let month: u64 = if mp < 10 {
        mp + 3
    } else {
        mp - 9
    };
    let march_year: u64 = yoe + era * 400;
    let year: u64 = if month <= 2 {
        march_year + 1
    } else {
        march_year
    };
    proof {
        lemma_assembled(era as int, yoe as int, doy as int, mp as int, day as int);
        lemma_epoch();
    }
    Date { year, month, day }
}

proof fn lemma_epoch()
    ensures
        day_number(epoch()) == 719_528,
{
    lemma_days_before_year(1970);
    lemma_days_before_month(1970, 1);
}

/// The parts of a date are those of the day they were taken from.
proof fn lemma_assembled(era: int, yoe: int, doy: int, mp: int, day: int)
    requires
        0 <= era,
        0 <= yoe <= 399,
        0 <= doy <= 365,
        doy == 365 ==> is_leap(yoe + 400 * era + 1),
        mp == (5 * doy + 2) / 153,
        0 <= mp <= 11,
        day == doy - (153 * mp + 2) / 5 + 1,
    ensures
        ({
            let m = if mp < 10 {
                mp + 3
            } else {
                mp - 9
            };
            let y = yoe + 400 * era + if m <= 2 {
                1int
            } else {
                0
            };
            &&& 1 <= day <= month_len(y, m)
            &&& days_before_year(y) + days_before_month(y, m) + day - 1 == 146_097 * era + march(
                yoe,
            ) + doy + 60
        }),
{
    lemma_march(era, yoe);
    lemma_day_of_year(doy);
    let y = yoe + 400 * era;
    if mp < 10 {
        lemma_days_before_month(y, mp + 3);
    } else {
        lemma_days_before_month(y + 1, mp - 9);
        assert(days_before_year(y + 1) == days_before_year(y) + if is_leap(y) {
            366int
        } else {
            365
        });
    }
}

/// How far into its year a date is.
proof fn lemma_within_year(d: Date)
    requires
        is_date(d),
    ensures
        days_before_year(d.year as int) <= day_number(d) < days_before_year(d.year + 1),
{
    reveal_with_fuel(days_before_month, 14);
}

proof fn lemma_years_rise(a: int, b: int)
    requires
        0 <= a <= b,
    ensures
        days_before_year(a) <= days_before_year(b),
    decreases b - a,
{
    if a < b {
        lemma_years_rise(a, b - 1);
    }
}

/// No two dates are the same day.
pub proof fn law_dates_are_days(a: Date, b: Date)
    requires
        is_date(a),
        is_date(b),
        day_number(a) == day_number(b),
    ensures
        a == b,
{
    lemma_within_year(a);
    lemma_within_year(b);
    if a.year < b.year {
        lemma_years_rise(a.year + 1, b.year as int);
    }
    if b.year < a.year {
        lemma_years_rise(b.year + 1, a.year as int);
    }
    reveal_with_fuel(days_before_month, 13);
}

/// The time of day `secs` seconds after midnight on a date, in the form of RFC 3339, in UTC.
pub open spec fn rfc3339_of(d: Date, secs: nat) -> Seq<char> {
    padded(d.year as nat, 4) + "-"@ + padded(d.month as nat, 2) + "-"@ + padded(d.day as nat, 2)
        + "T"@ + padded(secs / 3600, 2) + ":"@ + padded(secs % 3600 / 60, 2) + ":"@ + padded(
        secs % 60,
        2,
    ) + "Z"@
}

/// The point in time `secs` seconds after the beginning of 1970, in the form of RFC 3339, in UTC.
pub fn rfc3339_utc(secs: u64) -> (r: String)
    ensures
        exists|d: Date|
            #[trigger] is_day(d, secs as int / 86_400) && r@ == rfc3339_of(
                d,
                (secs % 86_400) as nat,
            ),
{
    let days: u64 = secs / 86_400;
    let rem: u64 = secs % 86_400;
    let d = civil_from_days(days);
    let mut out = to_padded(d.year, 4);
    push_str(&mut out, "-");
    push_str(&mut out, to_padded(d.month, 2).as_str());
    push_str(&mut out, "-");
    push_str(&mut out, to_padded(d.day, 2).as_str());
    push_str(&mut out, "T");
    push_str(&mut out, to_padded(rem / 3600, 2).as_str());
    push_str(&mut out, ":");
    push_str(&mut out, to_padded(rem % 3600 / 60, 2).as_str());
    push_str(&mut out, ":");
    push_str(&mut out, to_padded(rem % 60, 2).as_str());
    push_str(&mut out, "Z");
    assert(is_day(d, secs as int / 86_400) && out@ == rfc3339_of(d, (secs % 86_400) as nat));
    out
}

/// One day follows another: the next day has the next number in its month, or is the first of the
/// next month, or the first of the next year. The first of all is the first of January 1970.
pub proof fn law_days_follow_one_another(days: u64, d: Date, e: Date)
    requires
        days < 0x0fff_ffff_ffff_ffff,
        call_ensures(civil_from_days, (days,), d),
        call_ensures(civil_from_days, ((days + 1) as u64,), e),
    ensures
        days == 0 ==> d == (Date { year: 1970, month: 1, day: 1 }),
        ({
            let last = if d.month == 2 {
                if (d.year % 4 == 0 && d.year % 100 != 0) || d.year % 400 == 0 {
                    29int
                } else {
                    28
                }
            } else if d.month == 4 || d.month == 6 || d.month == 9 || d.month == 11 {
                30
            } else {
                31
            };
            &&& 1 <= d.month <= 12 && 1 <= d.day <= last
            &&& d.day < last ==> e.year == d.year && e.month == d.month && e.day == d.day + 1
            &&& d.day == last && d.month < 12 ==> e.year == d.year && e.month == d.month + 1 && e.day
                == 1
            &&& d.day == last && d.month == 12 ==> e.year == d.year + 1 && e.month == 1 && e.day == 1
        }),
{
    let y = d.year as int;
    let m = d.month as int;
    assert(is_day(d, days as int) && is_day(e, days + 1));
    if days == 0 {
        assert(is_date(epoch()));
        law_dates_are_days(d, epoch());
    }
    if d.day < month_len(y, m) {
        law_dates_are_days(e, Date { year: d.year, month: d.month, day: (d.day + 1) as u64 });
    } else if m < 12 {
        assert(days_before_month(y, m + 1) == days_before_month(y, m) + month_len(y, m));
        law_dates_are_days(e, Date { year: d.year, month: (d.month + 1) as u64, day: 1 });
    } else {
        lemma_whole_year(y);
        assert(days_before_year(y + 1) == days_before_year(y) + if is_leap(y) {
            366int
        } else {
            365
        });
        assert(days_before_month(y + 1, 1) == 0);
        lemma_within_year(d);
        lemma_days_before_year(y);
        lemma_epoch();
        law_dates_are_days(e, Date { year: (d.year + 1) as u64, month: 1, day: 1 });
    }
}

proof fn lemma_whole_year(y: int)
    ensures
        days_before_month(y, 12) + 31 == if is_leap(y) {
            366int
        } else {
            365
        },
{
    reveal_with_fuel(days_before_month, 12);
}

/// The time of day in a written point in time is the one that it has: its hours, minutes and seconds
/// are those since midnight, each in two digits, and its date is written in digits too.
pub proof fn law_time_of_day_is_written(secs: u64, r: String)
    requires
        call_ensures(rfc3339_utc, (secs,), r),
        secs < 253_402_300_800,
    ensures
        r@.len() == 20,
        r@[4] == '-' && r@[7] == '-' && r@[10] == 'T' && r@[13] == ':' && r@[16] == ':' && r@[19]
            == 'Z',
        value_of(r@.subrange(11, 13)) * 3600 + value_of(r@.subrange(14, 16)) * 60 + value_of(
            r@.subrange(17, 19),
        ) == secs % 86_400,
        value_of(r@.subrange(11, 13)) < 24 && value_of(r@.subrange(14, 16)) < 60 && value_of(
            r@.subrange(17, 19),
        ) < 60,
        is_day(
            Date {
                year: value_of(r@.subrange(0, 4)) as u64,
                month: value_of(r@.subrange(5, 7)) as u64,
                day: value_of(r@.subrange(8, 10)) as u64,
            },
            secs as int / 86_400,
        ),
{
    let t = (secs % 86_400) as nat;
    let d = choose|d: Date|
        #[trigger] is_day(d, secs as int / 86_400) && r@ == rfc3339_of(d, t);
    lemma_before_year_10000(d, secs as int / 86_400);
    lemma_padded_value(d.year as nat, 4);
    lemma_padded_value(d.month as nat, 2);
    lemma_padded_value(d.day as nat, 2);
    lemma_padded_value(t / 3600, 2);
    lemma_padded_value(t % 3600 / 60, 2);
    lemma_padded_value(t % 60, 2);
    reveal_strlit("-");
    reveal_strlit("T");
    reveal_strlit(":");
    reveal_strlit("Z");
    let (a, b, c) = (padded(d.year as nat, 4), padded(d.month as nat, 2), padded(d.day as nat, 2));
    let (h, m, s) = (padded(t / 3600, 2), padded(t % 3600 / 60, 2), padded(t % 60, 2));
    assert(r@.subrange(0, 4) =~= a);
    assert(r@.subrange(5, 7) =~= b);
    assert(r@.subrange(8, 10) =~= c);
    assert(r@.subrange(11, 13) =~= h);
    assert(r@.subrange(14, 16) =~= m);
    assert(r@.subrange(17, 19) =~= s);
}

/// Zeros before a number do not change it, and there are just enough of them.
proof fn lemma_padded_value(n: nat, width: nat)
    requires
        width == 2 && n < 100 || width == 4 && n < 10_000,
    ensures
        padded(n, width).len() == width,
        value_of(padded(n, width)) == n,
{
    lemma_decimal_value(n);
    lemma_decimal_len(n);
    let d = decimal(n);
    let zeros = Seq::new((width - d.len()) as nat, |i: int| '0');
    lemma_zeros(zeros, d);
}

proof fn lemma_zeros(zeros: Seq<char>, d: Seq<char>)
    requires
        forall|i: int| 0 <= i < zeros.len() ==> zeros[i] == '0',
    ensures
        value_of(zeros + d) == value_of(d),
    decreases d.len(), zeros.len(),
{
    if d.len() > 0 {
        assert((zeros + d).drop_last() =~= zeros + d.drop_last());
        lemma_zeros(zeros, d.drop_last());
    } else if zeros.len() > 0 {
        assert((zeros + d).drop_last() =~= zeros.drop_last() + d);
        lemma_zeros(zeros.drop_last(), d);
        assert((zeros + d).last() == '0');
    } else {
        assert(zeros + d =~= d);
    }
}

proof fn lemma_decimal_len(n: nat)
    requires
        n < 10_000,
    ensures
        n < 10 ==> decimal(n).len() == 1,
        10 <= n < 100 ==> decimal(n).len() == 2,
        100 <= n < 1000 ==> decimal(n).len() == 3,
        1000 <= n ==> decimal(n).len() == 4,
{
    reveal_with_fuel(decimal, 4);
}

/// Such a point in time is before the year 10000.
proof fn lemma_before_year_10000(d: Date, days: int)
    requires
        is_day(d, days),
        0 <= days < 2_932_897,
    ensures
        d.year < 10_000,
        d.day < 100,
{
    lemma_epoch();
    if d.year >= 10_000 {
        lemma_years_rise(10_000, d.year as int);
        lemma_days_before_year(10_000);
        lemma_within_year(d);
    }
}

} // verus!
