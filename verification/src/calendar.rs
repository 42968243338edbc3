//! Dates of the calendar.

use vstd::prelude::*;

use crate::text;

verus! {

pub open spec fn leap(y: int) -> bool {
    y % 4 == 0 && (y % 100 != 0 || y % 400 == 0)
}

pub open spec fn month_days(y: int, m: int) -> int {
    if m == 2 {
        if leap(y) {
            29
        } else {
            28
        }
    } else if m == 4 || m == 6 || m == 9 || m == 11 {
        30
    } else {
        31
    }
}

/// The days of a year before a month.
pub open spec fn before_month(y: int, m: int) -> int
    decreases m,
{
    if m <= 1 {
        0
    } else {
        before_month(y, m - 1) + month_days(y, m - 1)
    }
}

/// The days before a year, from the first day of the year 1 on.
pub open spec fn before_year(y: int) -> int {
    365 * (y - 1) + (y - 1) / 4 - (y - 1) / 100 + (y - 1) / 400
}

/// The number of a day, where the first day of 1970 is zero.
pub open spec fn day_number(y: int, m: int, d: int) -> int {
    before_year(y) + before_month(y, m) + d - 1 - 719162
}

pub open spec fn is_date(y: int, m: int, d: int) -> bool {
    1 <= m <= 12 && 1 <= d <= month_days(y, m)
}

/// The day of a time in seconds.
pub open spec fn day_of(unix: int) -> int {
    unix / 86400
}

proof fn lemma_before_month(y: int)
    ensures
        before_month(y, 1) == 0,
        before_month(y, 2) == 31,
        ({
            let k = if leap(y) {
                60int
            } else {
                59
            };
            &&& before_month(y, 3) == k
            &&& before_month(y, 4) == k + 31
            &&& before_month(y, 5) == k + 61
            &&& before_month(y, 6) == k + 92
            &&& before_month(y, 7) == k + 122
            &&& before_month(y, 8) == k + 153
            &&& before_month(y, 9) == k + 184
            &&& before_month(y, 10) == k + 214
            &&& before_month(y, 11) == k + 245
            &&& before_month(y, 12) == k + 275
        }),
{
    reveal_with_fuel(before_month, 13);
}

/// The date of a day of a year that begins in March: its month, counted from March,
/// and its day.
proof fn lemma_month(doy: int, mp: int, d: int)
    requires
        0 <= doy <= 365,
        mp == (5 * doy + 2) / 153,
        d == doy - (153 * mp + 2) / 5 + 1,
    ensures
        0 <= mp <= 11,
        1 <= d <= 31,
        (mp == 1 || mp == 3 || mp == 6 || mp == 8) ==> d <= 30,
        mp == 11 ==> d <= 29 && (d == 29 ==> doy == 365),
        doy == 365 ==> mp == 11,
{
}

/// How the day of a period of 400 years that begins in March is counted up: years
/// by centuries, by fours and by one.
proof fn lemma_leaps(era: int, c: int, q: int, y: int)
    requires
        0 <= c <= 3,
        0 <= q <= 24,
        0 <= y <= 3,
    ensures
        ({
            let n = 400 * era + 100 * c + 4 * q + y;
            &&& n / 4 == 100 * era + 25 * c + q
            &&& n / 100 == 4 * era + c
            &&& n / 400 == era
        }),
{
}

/// A day of a period of 400 years that begins in March, by its years and the day of
/// the year.
proof fn lemma_parts(era: int, c: int, q: int, y1: int, doy: int)
    requires
        0 <= c <= 3,
        0 <= q <= 24,
        0 <= y1 <= 3,
        0 <= doy <= 365,
        doy == 365 ==> y1 == 3 && (q == 24 ==> c == 3),
    ensures
        ({
            let n = 400 * era + 100 * c + 4 * q + y1;
            &&& 146097 * era + 36524 * c + 1461 * q + 365 * y1 + doy == 365 * n + n / 4 - n / 100
                + n / 400 + doy
            &&& (doy == 365 ==> leap(n + 1))
        }),
{
    lemma_leaps(era, c, q, y1);
    if doy == 365 {
        lemma_leap_end(era, c, q);
    }
}

/// The date of a day of a year that begins in March.
proof fn lemma_date(n: int, doy: int, mp: int, d: int)
    requires
        0 <= doy <= 365,
        doy == 365 ==> leap(n + 1),
        mp == (5 * doy + 2) / 153,
        d == doy - (153 * mp + 2) / 5 + 1,
    ensures
        ({
            let m = if mp < 10 {
                mp + 3
            } else {
                mp - 9
            };
            let y = if m <= 2 {
                n + 1
            } else {
                n
            };
            &&& is_date(y, m, d)
            &&& day_number(y, m, d) == 365 * n + n / 4 - n / 100 + n / 400 + doy - 719468
        }),
{
    lemma_month(doy, mp, d);
    if mp < 10 {
        lemma_before_month(n);
        lemma_year_start(n);
    } else {
        lemma_before_month(n + 1);
    }
}

/// Division that rounds down.
fn floor_div(a: i64, b: i64) -> (r: i64)
    requires
        b > 1,
    ensures
        r == a as int / b as int,
        a == r * b + a as int % b as int,
        0 <= a as int % (b as int) < b,
{
    proof {
        vstd::arithmetic::div_mod::lemma_fundamental_div_mod(a as int, b as int);
        vstd::arithmetic::mul::lemma_mul_is_commutative(b as int, a as int / b as int);
    }
    if a >= 0 {
        a / b
    } else {
        let q: i64 = (-(a + 1)) / b;
        proof {
            let p = -(a + 1) as int;
            vstd::arithmetic::div_mod::lemma_fundamental_div_mod(p, b as int);
            vstd::arithmetic::div_mod::lemma_mod_bound(p, b as int);
            let m = p % b as int;
            assert(a == (-q - 1) * b + (b - 1 - m)) by (nonlinear_arith)
                requires
                    p == b * q + m,
                    p == -(a + 1),
            ;
            vstd::arithmetic::div_mod::lemma_fundamental_div_mod_converse(
                a as int,
                b as int,
                -q - 1,
                b - 1 - m,
            );
            assert(q <= p) by (nonlinear_arith)
                requires
                    p == b * q + m,
                    b > 1,
                    m >= 0,
                    q >= 0,
            ;
        }
        -q - 1
    }
}

/// The date of a time in seconds since the beginning of 1970.
pub fn civil_from_unix(unix: i64) -> (r: (i64, u32, u32))
    ensures
        is_date(r.0 as int, r.1 as int, r.2 as int),
        day_number(r.0 as int, r.1 as int, r.2 as int) == day_of(unix as int),
{
    let days: i64 = floor_div(unix, 86400);
    let z: i64 = days + 719468;
    let era: i64 = floor_div(z, 146097);
    let doe: i64 = z - era * 146097;
    let (c, q, y1, doy) = split_period(doe);
    let mp: i64 = (5 * doy + 2) / 153;
    let d: i64 = doy - (153 * mp + 2) / 5 + 1;
    proof {
        lemma_parts(era as int, c as int, q as int, y1 as int, doy as int);
        lemma_date(400 * era + 100 * c + 4 * q + y1, doy as int, mp as int, d as int);
        lemma_month(doy as int, mp as int, d as int);
    }
    let year: i64 = 400 * era + 100 * c + 4 * q + y1;
    let m: i64 = if mp < 10 {
        mp + 3
    } else {
        mp - 9
    };
    let y: i64 = if m <= 2 {
        year + 1
    } else {
        year
    };
    (y, m as u32, d as u32)
}

/// The centuries, the fours of years, the years and the days of a day of a period
/// of 400 years.
fn split_period(doe: i64) -> (r: (i64, i64, i64, i64))
    requires
        0 <= doe < 146097,
    ensures
        0 <= r.0 <= 3,
        0 <= r.1 <= 24,
        0 <= r.2 <= 3,
        0 <= r.3 <= 365,
        r.3 == 365 ==> r.2 == 3 && (r.1 == 24 ==> r.0 == 3),
        doe == 36524 * r.0 + 1461 * r.1 + 365 * r.2 + r.3,
{
    let c: i64 = if doe / 36524 < 3 {
        doe / 36524
    } else {
        3
    };
    let r: i64 = doe - 36524 * c;
    let q: i64 = r / 1461;
    let s: i64 = r - 1461 * q;
    let y1: i64 = if s / 365 < 3 {
        s / 365
    } else {
        3
    };
    (c, q, y1, s - 365 * y1)
}

/// The last year of four is a leap year, unless it is that of a century that is
/// not the last of four.
proof fn lemma_leap_end(era: int, c: int, q: int)
    requires
        0 <= c <= 3,
        0 <= q <= 24,
        q == 24 ==> c == 3,
    ensures
        leap(400 * era + 100 * c + 4 * q + 4),
{
}

/// How the leap years before a year count that year.
proof fn lemma_year_start(n: int)
    ensures
        before_year(n) + (if leap(n) {
            1int
        } else {
            0
        }) == 365 * (n - 1) + n / 4 - n / 100 + n / 400,
{
    lemma_quotient_step(n, 4);
    lemma_quotient_step(n, 100);
    lemma_quotient_step(n, 400);
    lemma_centuries(n);
}

proof fn lemma_quotient_step(n: int, k: int)
    requires
        k > 1,
    ensures
        n / k - (n - 1) / k == if n % k == 0 {
            1int
        } else {
            0
        },
{
    let q = n / k;
    let r = n % k;
    vstd::arithmetic::div_mod::lemma_fundamental_div_mod(n, k);
    if r == 0 {
        assert(n - 1 == (q - 1) * k + (k - 1)) by (nonlinear_arith)
            requires
                n == k * q + r,
                r == 0,
        ;
        vstd::arithmetic::div_mod::lemma_fundamental_div_mod_converse(n - 1, k, q - 1, k - 1);
    } else {
        assert(n - 1 == q * k + (r - 1)) by (nonlinear_arith)
            requires
                n == k * q + r,
        ;
        vstd::arithmetic::div_mod::lemma_fundamental_div_mod_converse(n - 1, k, q, r - 1);
    }
}

proof fn lemma_centuries(n: int)
    ensures
        n % 400 == 0 ==> n % 100 == 0,
        n % 100 == 0 ==> n % 4 == 0,
{
}

// ---- texts ----
/// A number with zeros before it, as many as make it `width` digits long.
pub open spec fn padded(n: int, width: nat) -> Seq<char> {
    let d = text::dec_int(n);
    if d.len() >= width {
        d
    } else {
        Seq::new((width - d.len()) as nat, |i: int| '0') + d
    }
}

fn pad(out: &mut Vec<char>, n: i64, width: usize)
    requires
        n >= 0,
    ensures
        final(out)@ == old(out)@ + padded(n as int, width as nat),
{
    let d = text::format_int(n);
    let ghost start = out@;
    let mut i: usize = d.len();
    let ghost have = d@.len();
    while i < width
        invariant
            have <= i,
            have == d@.len(),
            i <= width || i == have,
            out@ == start + Seq::new((i - have) as nat, |j: int| '0'),
        decreases width - i,
    {
        let ghost before = out@;
        out.push('0');
        i += 1;
        assert(out@ =~= start + Seq::new((i - have) as nat, |j: int| '0'));
    }
    text::append(out, d.as_slice());
    assert(out@ =~= start + padded(n as int, width as nat));
}

/// What is told of the day of expiry; zero, a negative number or none is no day.
pub fn format_expire(unix: Option<i64>) -> (r: String)
    ensures
        if unix is None || unix->0 <= 0 {
            r@ == "到期 -"@
        } else {
            exists|y: int, m: int, d: int|
                is_date(y, m, d) && #[trigger] day_number(y, m, d) == day_of(unix->0 as int) && r@
                    == "到期 "@ + padded(y, 4) + "-"@ + padded(m, 2) + "-"@ + padded(d, 2)
        },
{
    let t: i64 = match unix {
        Some(t) => t,
        None => 0,
    };
    if t <= 0 {
        return "到期 -".to_owned();
    }
    let (y, m, d) = civil_from_unix(t);
    proof {
        lemma_day_sign(y as int, m as int, d as int);
    }
    let mut out = text::chars_of("到期 ");
    pad(&mut out, y, 4);
    text::append_str(&mut out, "-");
    pad(&mut out, m as i64, 2);
    text::append_str(&mut out, "-");
    pad(&mut out, d as i64, 2);
    assert(day_number(y as int, m as int, d as int) == day_of(t as int));
    text::string_of(out.as_slice())
}

proof fn lemma_day_sign(y: int, m: int, d: int)
    requires
        is_date(y, m, d),
        day_number(y, m, d) >= 0,
    ensures
        y >= 0,
{
    lemma_before_month(y);
}

// ---- laws ----
/// No two dates have the same number: a later date has a higher one.
pub proof fn law_dates_follow(y: int, m: int, d: int, y2: int, m2: int, d2: int)
    requires
        is_date(y, m, d),
        is_date(y2, m2, d2),
        y < y2 || y == y2 && (m < m2 || m == m2 && d < d2),
    ensures
        day_number(y, m, d) < day_number(y2, m2, d2),
{
    lemma_before_month(y);
    lemma_before_month(y2);
    if y < y2 {
        lemma_year_length(y);
        lemma_years_follow(y + 1, y2);
    }
}

/// A year is as long as its months.
proof fn lemma_year_length(y: int)
    ensures
        before_year(y + 1) == before_year(y) + if leap(y) {
            366int
        } else {
            365
        },
{
    lemma_year_start(y);
}

proof fn lemma_years_follow(y: int, y2: int)
    requires
        y <= y2,
    ensures
        before_year(y) <= before_year(y2),
    decreases y2 - y,
{
    if y < y2 {
        lemma_years_follow(y, y2 - 1);
        lemma_year_length(y2 - 1);
    }
}

/// The first day of 1970 has the number zero, and each day the number behind that of the
/// day before: within a month, over the end of a month and over the end of a year.
pub proof fn law_days_are_counted(y: int, m: int, d: int)
    requires
        is_date(y, m, d),
    ensures
        day_number(1970, 1, 1) == 0,
        is_date(y, m, d + 1) ==> day_number(y, m, d + 1) == day_number(y, m, d) + 1,
        !is_date(y, m, d + 1) && m < 12 ==> day_number(y, m + 1, 1) == day_number(y, m, d) + 1,
        !is_date(y, m, d + 1) && m == 12 ==> day_number(y + 1, 1, 1) == day_number(y, m, d) + 1,
{
    lemma_before_month(y);
    lemma_before_month(y + 1);
    lemma_before_month(1970);
    lemma_year_length(y);
}

/// The days of the months: thirty in April, June, September and November, twenty-eight in
/// February or one more in a leap year, which every fourth is but for three in four of
/// those that begin a century; thirty-one in the others.
pub proof fn law_lengths_of_months(y: int)
    ensures
        is_date(y, 1, 31) && !is_date(y, 1, 32),
        is_date(y, 2, 28) && !is_date(y, 2, 30),
        is_date(y, 2, 29) <==> (y % 4 == 0 && y % 100 != 0) || y % 400 == 0,
        is_date(y, 3, 31) && !is_date(y, 3, 32),
        is_date(y, 4, 30) && !is_date(y, 4, 31),
        is_date(y, 5, 31) && !is_date(y, 5, 32),
        is_date(y, 6, 30) && !is_date(y, 6, 31),
        is_date(y, 7, 31) && !is_date(y, 7, 32),
        is_date(y, 8, 31) && !is_date(y, 8, 32),
        is_date(y, 9, 30) && !is_date(y, 9, 31),
        is_date(y, 10, 31) && !is_date(y, 10, 32),
        is_date(y, 11, 30) && !is_date(y, 11, 31),
        is_date(y, 12, 31) && !is_date(y, 12, 32),
        !is_date(y, 13, 1) && !is_date(y, 0, 1) && !is_date(y, 1, 0),
{
}

/// A day has 86400 seconds.
pub proof fn law_seconds_of_a_day(day: int, second: int)
    requires
        0 <= second < 86400,
    ensures
        day_of(day * 86400 + second) == day,
{
}

/// Zeros before a number make it as wide as asked for, and do not change it.
pub proof fn law_zeros_before(n: nat, width: nat)
    ensures
        padded(n as int, width).len() >= width,
        text::dec(n).len() <= width ==> padded(n as int, width).len() == width,
        text::dec(n).len() >= width ==> padded(n as int, width) == text::dec(n),
        text::dec_value(padded(n as int, width)) == n,
        text::all_digits(padded(n as int, width)),
{
    text::law_dec_reads_back(n);
    let d = text::dec(n);
    if d.len() < width {
        let k = (width - d.len()) as nat;
        let z = Seq::new(k, |i: int| '0');
        lemma_zeros(z, d);
        assert forall|i: int| 0 <= i < (z + d).len() implies text::is_digit(#[trigger] (z + d)[i]) by {
            if i >= k {
                assert((z + d)[i] == d[i - k]);
            }
        }
    }
}

proof fn lemma_zeros(z: Seq<char>, d: Seq<char>)
    requires
        forall|i: int| 0 <= i < z.len() ==> (#[trigger] z[i]) == '0',
    ensures
        text::dec_value(z + d) == text::dec_value(d),
    decreases d.len(),
{
    if d.len() > 0 {
        lemma_zeros(z, d.drop_last());
        assert((z + d).drop_last() =~= z + d.drop_last());
        assert((z + d).last() == d.last());
    } else {
        assert(z + d =~= z);
        lemma_only_zeros(z);
    }
}

proof fn lemma_only_zeros(z: Seq<char>)
    requires
        forall|i: int| 0 <= i < z.len() ==> (#[trigger] z[i]) == '0',
    ensures
        text::dec_value(z) == 0,
    decreases z.len(),
{
    if z.len() > 0 {
        assert(z.last() == '0');
        lemma_only_zeros(z.drop_last());
    }
}

} // verus!
