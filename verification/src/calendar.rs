//! Dates and times of day, in UTC.

use crate::strings::{copy, decimal, decimal_string, decimal_u64, digit};
use crate::lines::{is_break, unbroken};
use vstd::prelude::*;

verus! {

/// Whether a year of the Gregorian calendar has a 29th of February.
pub open spec fn is_leap(y: int) -> bool {
    y % 4 == 0 && (y % 100 != 0 || y % 400 == 0)
}

/// The days from the 1st of January of year 1 to that of year `y`.
pub open spec fn days_before_year(y: int) -> int {
    365 * (y - 1) + (y - 1) / 4 - (y - 1) / 100 + (y - 1) / 400
}

/// The days of a month.
pub open spec fn days_in_month(y: int, m: int) -> int {
    if m == 2 {
        if is_leap(y) {
            29
        } else {
            28
        }
    } else if m == 4 || m == 6 || m == 9 || m == 11 {
        30
    } else {
        31
    }
}

/// The days of the months before month `m` of year `y`.
pub open spec fn days_before_month(y: int, m: int) -> int
    decreases m,
{
    if m <= 1 {
        0
    } else {
        days_before_month(y, m - 1) + days_in_month(y, m - 1)
    }
}

/// The days from the 1st of January 1970 to a date.
pub open spec fn day_number(y: int, m: int, d: int) -> int {
    days_before_year(y) + days_before_month(y, m) + (d - 1) - 719162
}

/// Whether there is such a date.
pub open spec fn is_date(y: int, m: int, d: int) -> bool {
    1 <= m <= 12 && 1 <= d <= days_in_month(y, m)
}

/// The date of a day, counted from the 1st of January 1970.
pub open spec fn date_of(z: int) -> (int, int, int) {
    choose|t: (int, int, int)|
        is_date(t.0, t.1, t.2) && #[trigger] day_number(t.0, t.1, t.2) == z
}

/// `a / b` rounded down.
pub fn floor_div(a: i64, b: i64) -> (q: i64)
    requires
        0 < b <= 1_000_000,
    ensures
        q == a as int / b as int,
{
    if a >= 0 {
        a / b
    } else {
        // -(a + 1) is never negative and never overflows.
        let c: i64 = -(a + 1);
        proof {
            lemma_floor(a as int, b as int);
        }
        -(c / b) - 1
    }
}

proof fn lemma_floor(a: int, b: int)
    requires
        a < 0,
        0 < b,
    ensures
        a / b == -((-(a + 1)) / b) - 1,
        0 <= (-(a + 1)) / b <= -(a + 1),
{
    let c = -(a + 1);
    let q = c / b;
    let r = c % b;
    vstd::arithmetic::div_mod::lemma_fundamental_div_mod(c, b);
    vstd::arithmetic::div_mod::lemma_mod_bound(c, b);
    assert(a == b * (-q - 1) + (b - 1 - r)) by (nonlinear_arith)
        requires
            c == -(a + 1),
            c == b * q + r,
    ;
    vstd::arithmetic::div_mod::lemma_fundamental_div_mod_converse(a, b, -q - 1, b - 1 - r);
    vstd::arithmetic::div_mod::lemma_div_pos_is_pos(c, b);
    vstd::arithmetic::div_mod::lemma_div_is_ordered_by_denominator(c, 1, b);
    vstd::arithmetic::div_mod::lemma_div_basics(c);
}

/// The days of the first `y` years of an era, a year starting in March.
spec fn march_years(y: int) -> int {
    365 * y + y / 4 - y / 100
}

#[verifier::spinoff_prover]
proof fn lemma_year_of_era(doe: int)
    requires
        0 <= doe <= 146096,
    ensures
        ({
            let yoe = (doe - doe / 1460 + doe / 36524 - doe / 146096) / 365;
            &&& 0 <= yoe <= 399
            &&& march_years(yoe) <= doe
            &&& doe <= march_years(yoe) + 365
            &&& doe == march_years(yoe) + 365 ==> ((yoe + 1) % 4 == 0 && ((yoe + 1) % 100 != 0
                || yoe == 399))
        }),
{
    let century = doe / 36524;
    let yoe = (doe - doe / 1460 + century - doe / 146096) / 365;
    assert(0 <= century <= 4);
    if century == 0 {
        assert(0 <= yoe <= 99);
    } else if century == 1 {
        assert(100 <= yoe <= 199);
    } else if century == 2 {
        assert(200 <= yoe <= 299);
    } else if century == 3 {
        assert(300 <= yoe <= 399);
    } else {
        assert(doe == 146096);
    }
}

/// Days since 1970-01-01 -> (year, month, day). Howard Hinnant's
/// civil_from_days algorithm.
pub fn civil_from_days(z: i64) -> (r: (i64, u32, u32))
    requires
        z <= i64::MAX - 719468,
    ensures
        is_date(r.0 as int, r.1 as int, r.2 as int),
        day_number(r.0 as int, r.1 as int, r.2 as int) == z,
        date_of(z as int) == (r.0 as int, r.1 as int, r.2 as int),
{
    let z1: i64 = z + 719468;
    let era: i64 = floor_div(z1, 146097);
    proof {
        vstd::arithmetic::div_mod::lemma_fundamental_div_mod(z1 as int, 146097);
        vstd::arithmetic::div_mod::lemma_mod_bound(z1 as int, 146097);
    }
    let doe: i64 = z1 - era * 146097;
    proof {
        lemma_year_of_era(doe as int);
    }
    let yoe: i64 = (doe - doe / 1460 + doe / 36524 - doe / 146096) / 365;
    let y: i64 = yoe + era * 400;
    let doy: i64 = doe - (365 * yoe + yoe / 4 - yoe / 100);
    let mp: i64 = (5 * doy + 2) / 153;
    let d: i64 = doy - (153 * mp + 2) / 5 + 1;
    let m: i64 = if mp < 10 {
        mp + 3
    } else {
        mp - 9
    };
    let year: i64 = if m <= 2 {
        y + 1
    } else {
        y
    };
    proof {
        lemma_date(era as int, yoe as int, doy as int, z as int);
        let t = date_of(z as int);
        let r = (year as int, m as int, d as int);
        assert(is_date(r.0, r.1, r.2) && day_number(r.0, r.1, r.2) == z);
        law_dates_distinct(t.0, t.1, t.2, r.0, r.1, r.2);
    }
    (year, m as u32, d as u32)
}

proof fn lemma_shift(x: int, n: int, k: int)
    requires
        n > 0,
    ensures
        (x + n * k) / n == x / n + k,
        (x + n * k) % n == x % n,
{
    vstd::arithmetic::div_mod::lemma_fundamental_div_mod(x, n);
    vstd::arithmetic::div_mod::lemma_mod_bound(x, n);
    let q = x / n;
    let r = x % n;
    assert(x + n * k == (q + k) * n + r) by (nonlinear_arith)
        requires
            x == n * q + r,
    ;
    vstd::arithmetic::div_mod::lemma_fundamental_div_mod_converse(x + n * k, n, q + k, r);
}

/// The days before a year, in parts of an era of 400 years.
proof fn lemma_year_parts(era: int, yoe: int)
    requires
        0 <= yoe <= 399,
    ensures
        days_before_year(yoe + era * 400) == 146097 * era + 365 * (yoe - 1) + (yoe - 1) / 4 - (yoe
            - 1) / 100 + (yoe - 1) / 400,
        days_before_year(yoe + era * 400 + 1) == 146097 * era + march_years(yoe),
        is_leap(yoe + era * 400) == (yoe % 4 == 0 && (yoe % 100 != 0 || yoe == 0)),
        is_leap(yoe + era * 400 + 1) == ((yoe + 1) % 4 == 0 && ((yoe + 1) % 100 != 0 || yoe == 399)),
{
    let y = yoe + era * 400;
    lemma_shift(yoe - 1, 4, 100 * era);
    lemma_shift(yoe - 1, 100, 4 * era);
    lemma_shift(yoe - 1, 400, era);
    lemma_shift(yoe, 4, 100 * era);
    lemma_shift(yoe, 100, 4 * era);
    lemma_shift(yoe, 400, era);
    lemma_shift(yoe + 1, 4, 100 * era);
    lemma_shift(yoe + 1, 100, 4 * era);
    lemma_shift(yoe + 1, 400, era);
    assert((y - 1) / 4 == 100 * era + (yoe - 1) / 4);
    assert((y - 1) / 100 == 4 * era + (yoe - 1) / 100);
    assert((y - 1) / 400 == era + (yoe - 1) / 400);
    assert(y / 4 == 100 * era + yoe / 4);
    assert(y / 100 == 4 * era + yoe / 100);
    assert(y / 400 == era);
    assert(y % 4 == yoe % 4);
    assert(y % 100 == yoe % 100);
    assert(y % 400 == yoe);
    assert((y + 1) % 4 == (yoe + 1) % 4);
    assert((y + 1) % 100 == (yoe + 1) % 100);
    assert((y + 1) % 400 == (yoe + 1) % 400);
}

/// The first of March is 59 or 60 days after the first of January.
proof fn lemma_march(era: int, yoe: int)
    requires
        0 <= yoe <= 399,
    ensures
        days_before_year(yoe + era * 400) + 59 + (if is_leap(yoe + era * 400) {
            1int
        } else {
            0int
        }) == 146097 * era + march_years(yoe) - 306,
{
    lemma_year_parts(era, yoe);
    if yoe == 0 {
    } else {
        assert((yoe - 1) / 400 == 0);
        assert(yoe / 4 == (yoe - 1) / 4 + (if yoe % 4 == 0 {
            1int
        } else {
            0int
        }));
        assert(yoe / 100 == (yoe - 1) / 100 + (if yoe % 100 == 0 {
            1int
        } else {
            0int
        }));
    }
}

proof fn lemma_month(y: int)
    ensures
        ({
            let f = if is_leap(y) {
                1int
            } else {
                0int
            };
            &&& days_before_month(y, 1) == 0
            &&& days_before_month(y, 2) == 31
            &&& days_before_month(y, 3) == 59 + f
            &&& days_before_month(y, 4) == 90 + f
            &&& days_before_month(y, 5) == 120 + f
            &&& days_before_month(y, 6) == 151 + f
            &&& days_before_month(y, 7) == 181 + f
            &&& days_before_month(y, 8) == 212 + f
            &&& days_before_month(y, 9) == 243 + f
            &&& days_before_month(y, 10) == 273 + f
            &&& days_before_month(y, 11) == 304 + f
            &&& days_before_month(y, 12) == 334 + f
        }),
{
    reveal_with_fuel(days_before_month, 13);
}

proof fn lemma_date(era: int, yoe: int, doy: int, z: int)
    requires
        0 <= yoe <= 399,
        0 <= doy <= 365,
        doy == 365 ==> ((yoe + 1) % 4 == 0 && ((yoe + 1) % 100 != 0 || yoe == 399)),
        z + 719468 == era * 146097 + march_years(yoe) + doy,
    ensures
        ({
            let mp = (5 * doy + 2) / 153;
            let d = doy - (153 * mp + 2) / 5 + 1;
            let m = if mp < 10 {
                mp + 3
            } else {
                mp - 9
            };
            let y = yoe + era * 400;
            let year = if m <= 2 {
                y + 1
            } else {
                y
            };
            is_date(year, m, d) && day_number(year, m, d) == z
        }),
{
    let mp = (5 * doy + 2) / 153;
    let y = yoe + era * 400;
    lemma_year_parts(era, yoe);
    lemma_march(era, yoe);
    lemma_month(y);
    lemma_month(y + 1);
    assert(0 <= mp <= 11);
    let d = doy - (153 * mp + 2) / 5 + 1;
    let m = if mp < 10 {
        mp + 3
    } else {
        mp - 9
    };
    if mp == 0 {
        assert(m == 3 && d == doy + 1 && d <= 31);
    } else if mp == 1 {
        assert(m == 4 && d == doy - 30 && 1 <= d <= 30);
    } else if mp == 2 {
        assert(m == 5 && d == doy - 60 && 1 <= d <= 31);
    } else if mp == 3 {
        assert(m == 6 && d == doy - 91 && 1 <= d <= 30);
    } else if mp == 4 {
        assert(m == 7 && d == doy - 121 && 1 <= d <= 31);
    } else if mp == 5 {
        assert(m == 8 && d == doy - 152 && 1 <= d <= 31);
    } else if mp == 6 {
        assert(m == 9 && d == doy - 183 && 1 <= d <= 30);
    } else if mp == 7 {
        assert(m == 10 && d == doy - 213 && 1 <= d <= 31);
    } else if mp == 8 {
        assert(m == 11 && d == doy - 244 && 1 <= d <= 30);
    } else if mp == 9 {
        assert(m == 12 && d == doy - 274 && 1 <= d <= 31);
    } else if mp == 10 {
        assert(m == 1 && d == doy - 305 && 1 <= d <= 31);
    } else {
        assert(m == 2 && d == doy - 336 && 1 <= d <= 29);
    }
}

proof fn lemma_div_step(y: int, n: int)
    requires
        n > 0,
    ensures
        y / n == (y - 1) / n + (if y % n == 0 {
            1int
        } else {
            0int
        }),
{
    let q = y / n;
    let r = y % n;
    vstd::arithmetic::div_mod::lemma_fundamental_div_mod(y, n);
    vstd::arithmetic::div_mod::lemma_mod_bound(y, n);
    if r == 0 {
        assert(y - 1 == (q - 1) * n + (n - 1)) by (nonlinear_arith)
            requires
                y == n * q + r,
                r == 0,
        ;
        vstd::arithmetic::div_mod::lemma_fundamental_div_mod_converse(y - 1, n, q - 1, n - 1);
    } else {
        assert(y - 1 == q * n + (r - 1)) by (nonlinear_arith)
            requires
                y == n * q + r,
        ;
        vstd::arithmetic::div_mod::lemma_fundamental_div_mod_converse(y - 1, n, q, r - 1);
    }
}

proof fn lemma_multiple(y: int, n: int, k: int)
    requires
        n > 0,
        k > 0,
    ensures
        y % (n * k) == 0 ==> y % n == 0,
{
    let m = n * k;
    assert(m > 0) by (nonlinear_arith)
        requires
            m == n * k,
            n > 0,
            k > 0,
    ;
    if y % m == 0 {
        vstd::arithmetic::div_mod::lemma_fundamental_div_mod(y, m);
        let q = y / m;
        assert(y == (k * q) * n + 0) by (nonlinear_arith)
            requires
                y == m * q + 0,
                m == n * k,
        ;
        vstd::arithmetic::div_mod::lemma_fundamental_div_mod_converse(y, n, k * q, 0);
    }
}

proof fn lemma_year_step(y: int)
    ensures
        days_before_year(y + 1) == days_before_year(y) + 365 + (if is_leap(y) {
            1int
        } else {
            0int
        }),
{
    lemma_div_step(y, 4);
    lemma_div_step(y, 100);
    lemma_div_step(y, 400);
    lemma_multiple(y, 100, 4);
    lemma_multiple(y, 4, 25);
}

proof fn lemma_years_grow(a: int, b: int)
    requires
        a <= b,
    ensures
        days_before_year(a) <= days_before_year(b),
    decreases b - a,
{
    if a < b {
        lemma_years_grow(a, b - 1);
        lemma_year_step(b - 1);
    }
}

proof fn lemma_month_span(y: int, m: int, d: int)
    requires
        is_date(y, m, d),
    ensures
        0 <= days_before_month(y, m) + d - 1 < 365 + (if is_leap(y) {
            1int
        } else {
            0int
        }),
        m < 12 ==> days_before_month(y, m) + d - 1 < days_before_month(y, m + 1),
{
    lemma_month(y);
    reveal_with_fuel(days_before_month, 2);
}

proof fn lemma_months_grow(y: int, a: int, b: int)
    requires
        1 <= a <= b <= 12,
    ensures
        days_before_month(y, a) <= days_before_month(y, b),
{
    lemma_month(y);
}

/// No two dates are the same day.
pub proof fn law_dates_distinct(y1: int, m1: int, d1: int, y2: int, m2: int, d2: int)
    requires
        is_date(y1, m1, d1),
        is_date(y2, m2, d2),
        day_number(y1, m1, d1) == day_number(y2, m2, d2),
    ensures
        y1 == y2,
        m1 == m2,
        d1 == d2,
{
    lemma_month_span(y1, m1, d1);
    lemma_month_span(y2, m2, d2);
    lemma_year_step(y1);
    lemma_year_step(y2);
    if y1 < y2 {
        lemma_years_grow(y1 + 1, y2);
    } else if y2 < y1 {
        lemma_years_grow(y2 + 1, y1);
    } else if m1 < m2 {
        lemma_months_grow(y1, m1 + 1, m2);
    } else if m2 < m1 {
        lemma_months_grow(y1, m2 + 1, m1);
    }
}

/// Every day has a date.
pub proof fn law_day_has_date(z: int)
    ensures
        is_date(date_of(z).0, date_of(z).1, date_of(z).2),
        day_number(date_of(z).0, date_of(z).1, date_of(z).2) == z,
{
    let z1 = z + 719468;
    let era = z1 / 146097;
    let doe = z1 % 146097;
    vstd::arithmetic::div_mod::lemma_fundamental_div_mod(z1, 146097);
    vstd::arithmetic::div_mod::lemma_mod_bound(z1, 146097);
    lemma_year_of_era(doe);
    let yoe = (doe - doe / 1460 + doe / 36524 - doe / 146096) / 365;
    let doy = doe - march_years(yoe);
    lemma_date(era, yoe, doy, z);
    let mp = (5 * doy + 2) / 153;
    let d = doy - (153 * mp + 2) / 5 + 1;
    let m = if mp < 10 {
        mp + 3
    } else {
        mp - 9
    };
    let y = yoe + era * 400;
    let year = if m <= 2 {
        y + 1
    } else {
        y
    };
    let t = (year, m, d);
    assert(is_date(t.0, t.1, t.2) && day_number(t.0, t.1, t.2) == z);
}

// ---- texts -----------------------------------------------------------------

/// The short name of a month.
pub open spec fn month_text(m: int) -> Seq<char> {
    if m == 1 {
        "Jan"@
    } else if m == 2 {
        "Feb"@
    } else if m == 3 {
        "Mar"@
    } else if m == 4 {
        "Apr"@
    } else if m == 5 {
        "May"@
    } else if m == 6 {
        "Jun"@
    } else if m == 7 {
        "Jul"@
    } else if m == 8 {
        "Aug"@
    } else if m == 9 {
        "Sep"@
    } else if m == 10 {
        "Oct"@
    } else if m == 11 {
        "Nov"@
    } else {
        "Dec"@
    }
}

fn month_name(m: u32) -> (s: &'static str)
    ensures
        s@ == month_text(m as int),
{
    if m == 1 {
        "Jan"
    } else if m == 2 {
        "Feb"
    } else if m == 3 {
        "Mar"
    } else if m == 4 {
        "Apr"
    } else if m == 5 {
        "May"
    } else if m == 6 {
        "Jun"
    } else if m == 7 {
        "Jul"
    } else if m == 8 {
        "Aug"
    } else if m == 9 {
        "Sep"
    } else if m == 10 {
        "Oct"
    } else if m == 11 {
        "Nov"
    } else {
        "Dec"
    }
}

/// The short name of the weekday that is `k` days after a Thursday.
pub open spec fn weekday_text(k: int) -> Seq<char> {
    if k == 0 {
        "Thu"@
    } else if k == 1 {
        "Fri"@
    } else if k == 2 {
        "Sat"@
    } else if k == 3 {
        "Sun"@
    } else if k == 4 {
        "Mon"@
    } else if k == 5 {
        "Tue"@
    } else {
        "Wed"@
    }
}

fn weekday_name(k: i64) -> (s: &'static str)
    ensures
        s@ == weekday_text(k as int),
{
    if k == 0 {
        "Thu"
    } else if k == 1 {
        "Fri"
    } else if k == 2 {
        "Sat"
    } else if k == 3 {
        "Sun"
    } else if k == 4 {
        "Mon"
    } else if k == 5 {
        "Tue"
    } else {
        "Wed"
    }
}

/// A number below 100 in two columns, filled with `fill`.
pub open spec fn two_columns(n: int, fill: char) -> Seq<char> {
    if n < 10 {
        seq![fill] + decimal(n as nat)
    } else {
        decimal(n as nat)
    }
}

fn push_two(s: &mut String, n: u32, fill: char)
    requires
        n < 100,
    ensures
        final(s)@ == old(s)@ + two_columns(n as int, fill),
{
    if n < 10 {
        s.push(fill);
    }
    let t = decimal_string(n as usize);
    s.push_str(t.as_str());
    assert(s@ =~= old(s)@ + two_columns(n as int, fill));
}

/// "Jan 12 03:45": month, day, hour and minute of a time in seconds since the
/// epoch.
pub open spec fn mtime_text(secs: int) -> Seq<char> {
    let (y, m, d) = date_of(secs / 86400);
    let rem = secs % 86400;
    month_text(m) + " "@ + two_columns(d, ' ') + " "@ + two_columns(rem / 3600, '0') + ":"@
        + two_columns((rem % 3600) / 60, '0')
}

/// "Sun Jul 13 12:34:56 2026": weekday, date and time of day.
pub open spec fn time_text(secs: int) -> Seq<char> {
    let (y, m, d) = date_of(secs / 86400);
    let rem = secs % 86400;
    weekday_text((secs / 86400) % 7) + " "@ + month_text(m) + " "@ + two_columns(d, ' ') + " "@
        + two_columns(rem / 3600, '0') + ":"@ + two_columns((rem % 3600) / 60, '0') + ":"@
        + two_columns(rem % 60, '0') + " "@ + signed_decimal(y)
}

/// The decimal digits of a number, with a minus sign where it is negative.
pub open spec fn signed_decimal(n: int) -> Seq<char> {
    if n < 0 {
        seq!['-'] + decimal((-n) as nat)
    } else {
        decimal(n as nat)
    }
}

proof fn lemma_rest(secs: int, rest: int)
    requires
        secs >= 0 ==> rest == secs % 86400,
        secs < 0 ==> rest == 86399 - (-(secs + 1)) % 86400,
    ensures
        rest == secs % 86400,
        0 <= rest < 86400,
{
    if secs < 0 {
        let c = -(secs + 1);
        let q = c / 86400;
        assert(secs == 86400 * (-q - 1) + rest);
        vstd::arithmetic::div_mod::lemma_fundamental_div_mod_converse(secs, 86400, -q - 1, rest);
    }
}

fn days_and_rest(secs: i64) -> (r: (i64, u32))
    ensures
        r.0 == secs as int / 86400,
        r.1 == secs as int % 86400,
        r.1 < 86400,
        r.0 <= i64::MAX - 719468,
{
    let days: i64 = floor_div(secs, 86400);
    proof {
        vstd::arithmetic::div_mod::lemma_fundamental_div_mod(secs as int, 86400);
        vstd::arithmetic::div_mod::lemma_mod_bound(secs as int, 86400);
    }
    let rest: i64 = if secs >= 0 {
        secs % 86400
    } else {
        let c: i64 = -(secs + 1);
        86399 - c % 86400
    };
    proof {
        lemma_rest(secs as int, rest as int);
    }
    (days, rest as u32)
}

/// "Jan 12 03:45" (UTC, fixed 12 columns).
pub fn mtime_string(secs: i64) -> (s: String)
    ensures
        s@ == mtime_text(secs as int),
{
    let (days, rem) = days_and_rest(secs);
    let (_y, m, d) = civil_from_days(days);
    let mut s = copy(month_name(m));
    s.push_str(" ");
    push_two(&mut s, d, ' ');
    s.push_str(" ");
    push_two(&mut s, rem / 3600, '0');
    s.push_str(":");
    push_two(&mut s, (rem % 3600) / 60, '0');
    s
}

/// Emacs current-time-string format: "Sun Jul 13 12:34:56 2026".
pub fn time_string(secs: i64) -> (s: String)
    ensures
        s@ == time_text(secs as int),
{
    let (days, rem) = days_and_rest(secs);
    let (y, m, d) = civil_from_days(days);
    let week: i64 = floor_div(days, 7);
    proof {
        vstd::arithmetic::div_mod::lemma_fundamental_div_mod(days as int, 7);
        vstd::arithmetic::div_mod::lemma_mod_bound(days as int, 7);
    }
    let mut s = copy(weekday_name(days - week * 7));
    s.push_str(" ");
    s.push_str(month_name(m));
    s.push_str(" ");
    push_two(&mut s, d, ' ');
    s.push_str(" ");
    push_two(&mut s, rem / 3600, '0');
    s.push_str(":");
    push_two(&mut s, (rem % 3600) / 60, '0');
    s.push_str(":");
    push_two(&mut s, rem % 60, '0');
    s.push_str(" ");
    let year = if y < 0 {
        s.push('-');
        // The opposite of the smallest number is written as a difference.
        decimal_u64((-(y + 1)) as u64 + 1)
    } else {
        decimal_u64(y as u64)
    };
    s.push_str(year.as_str());
    assert(s@ =~= time_text(secs as int));
    s
}

// ---- laws on texts ---------------------------------------------------------

proof fn lemma_two_columns(n: int, fill: char)
    requires
        0 <= n < 100,
        !is_break(fill),
    ensures
        two_columns(n, fill).len() == 2,
        unbroken(two_columns(n, fill)),
{
    reveal_with_fuel(decimal, 2);
    if n >= 10 {
        assert(decimal(n as nat) =~= seq![digit(n / 10), digit(n % 10)]);
    }
}

proof fn lemma_month_text(m: int)
    ensures
        month_text(m).len() == 3,
        unbroken(month_text(m)),
{
    reveal_strlit("Jan");
    reveal_strlit("Feb");
    reveal_strlit("Mar");
    reveal_strlit("Apr");
    reveal_strlit("May");
    reveal_strlit("Jun");
    reveal_strlit("Jul");
    reveal_strlit("Aug");
    reveal_strlit("Sep");
    reveal_strlit("Oct");
    reveal_strlit("Nov");
    reveal_strlit("Dec");
}

/// A time of change is always written in 12 columns, on one line.
pub proof fn law_mtime_columns(secs: int)
    ensures
        mtime_text(secs).len() == 12,
        unbroken(mtime_text(secs)),
{
    let (y, m, d) = date_of(secs / 86400);
    let rem = secs % 86400;
    law_day_has_date(secs / 86400);
    lemma_month_text(m);
    assert(1 <= d <= 31);
    lemma_two_columns(d, ' ');
    lemma_two_columns(rem / 3600, '0');
    lemma_two_columns((rem % 3600) / 60, '0');
    reveal_strlit(" ");
    reveal_strlit(":");
}

} // verus!
