//! What times are written as.

use crate::calendar::{
    date_of, day_number, days_before_month, days_before_year, days_in_month, is_date, is_leap,
    law_dates_distinct, law_day_has_date, month_text, mtime_text, time_text, two_columns,
    weekday_text,
};
use crate::strings::decimal;
use vstd::prelude::*;

verus! {

/// The short names of the months.
pub open spec fn months() -> Seq<Seq<char>> {
    seq![
        "Jan"@,
        "Feb"@,
        "Mar"@,
        "Apr"@,
        "May"@,
        "Jun"@,
        "Jul"@,
        "Aug"@,
        "Sep"@,
        "Oct"@,
        "Nov"@,
        "Dec"@,
    ]
}

/// The short names of the days of a week.
pub open spec fn week() -> Seq<Seq<char>> {
    seq!["Sun"@, "Mon"@, "Tue"@, "Wed"@, "Thu"@, "Fri"@, "Sat"@]
}

/// The date of the day after.
pub open spec fn next_date(y: int, m: int, d: int) -> (int, int, int) {
    if d < days_in_month(y, m) {
        (y, m, d + 1)
    } else if m < 12 {
        (y, m + 1, 1)
    } else {
        (y + 1, 1, 1)
    }
}

proof fn lemma_year(y: int)
    ensures
        days_before_year(y + 1) == days_before_year(y) + (if is_leap(y) {
            366int
        } else {
            365
        }),
        days_before_month(y, 12) == (if is_leap(y) {
            335int
        } else {
            334
        }),
{
    reveal_with_fuel(days_before_month, 12);
    let a = y - 1;
    assert(y / 4 == a / 4 + if y % 4 == 0 {
        1int
    } else {
        0
    });
    assert(y / 100 == a / 100 + if y % 100 == 0 {
        1int
    } else {
        0
    });
    assert(y / 400 == a / 400 + if y % 400 == 0 {
        1int
    } else {
        0
    });
    assert(y % 400 == 0 ==> y % 100 == 0);
    assert(y % 100 == 0 ==> y % 4 == 0);
}

/// Days are counted from the 1st of January 1970, and each day is one more than the day
/// before it.
pub proof fn law_days_counted(y: int, m: int, d: int)
    requires
        is_date(y, m, d),
    ensures
        day_number(1970, 1, 1) == 0,
        ({
            let (a, b, c) = next_date(y, m, d);
            is_date(a, b, c) && day_number(a, b, c) == day_number(y, m, d) + 1
        }),
{
    lemma_year(y);
    reveal_with_fuel(days_before_month, 2);
}

/// A month has 30 or 31 days by its name, and February 28, or 29 in every fourth year, but
/// of the full hundreds only in every fourth.
pub proof fn law_months_last(y: int)
    ensures
        days_in_month(y, 1) == 31 && days_in_month(y, 3) == 31 && days_in_month(y, 4) == 30,
        days_in_month(y, 5) == 31 && days_in_month(y, 6) == 30 && days_in_month(y, 7) == 31,
        days_in_month(y, 8) == 31 && days_in_month(y, 9) == 30 && days_in_month(y, 10) == 31,
        days_in_month(y, 11) == 30 && days_in_month(y, 12) == 31,
        y % 4 != 0 ==> days_in_month(y, 2) == 28,
        y % 4 == 0 && y % 100 != 0 ==> days_in_month(y, 2) == 29,
        y % 100 == 0 && y % 400 != 0 ==> days_in_month(y, 2) == 28,
        y % 400 == 0 ==> days_in_month(y, 2) == 29,
{
    assert(y % 400 == 0 ==> y % 4 == 0);
}

/// A time of day and a date in seconds since the epoch.
pub open spec fn seconds_of(y: int, m: int, d: int, h: int, mi: int, s: int) -> int {
    day_number(y, m, d) * 86400 + h * 3600 + mi * 60 + s
}

/// The two digits of a number below a hundred.
pub open spec fn two_digits(n: int) -> Seq<char> {
    seq![(48 + n / 10) as char, (48 + n % 10) as char]
}

proof fn lemma_two_digits(n: int)
    requires
        0 <= n < 100,
    ensures
        two_columns(n, '0') == two_digits(n),
        two_columns(n, ' ') == (if n < 10 {
            seq![' ', (48 + n) as char]
        } else {
            two_digits(n)
        }),
{
    reveal_with_fuel(decimal, 3);
    assert(two_columns(n, '0') =~= two_digits(n));
    assert(two_columns(n, ' ') =~= if n < 10 {
        seq![' ', (48 + n) as char]
    } else {
        two_digits(n)
    });
}

proof fn lemma_date(y: int, m: int, d: int)
    requires
        is_date(y, m, d),
    ensures
        date_of(day_number(y, m, d)) == (y, m, d),
{
    let z = day_number(y, m, d);
    law_day_has_date(z);
    let (a, b, c) = date_of(z);
    law_dates_distinct(y, m, d, a, b, c);
}

/// A time of change is written by the month, the day, the hour and the minute of its date
/// and time of day; a time by the weekday too, by the second, and by the year. The 1st of
/// January 1970 is a Thursday, and the weekdays follow each other.
pub proof fn law_time_written(y: int, m: int, d: int, h: int, mi: int, s: int)
    requires
        is_date(y, m, d),
        0 <= y,
        0 <= h < 24,
        0 <= mi < 60,
        0 <= s < 60,
    ensures
        ({
            let secs = seconds_of(y, m, d, h, mi, s);
            let day = if d < 10 {
                seq![' ', (48 + d) as char]
            } else {
                two_digits(d)
            };
            let date = months()[m - 1] + seq![' '] + day + seq![' '];
            let time = two_digits(h) + seq![':'] + two_digits(mi);
            &&& mtime_text(secs) == date + time
            &&& time_text(secs) == week()[(day_number(y, m, d) + 4) % 7] + seq![' '] + date + time
                + seq![':'] + two_digits(s) + seq![' '] + decimal(y as nat)
        }),
{
    let z = day_number(y, m, d);
    let rem = h * 3600 + mi * 60 + s;
    let secs = seconds_of(y, m, d, h, mi, s);
    lemma_date(y, m, d);
    assert(secs == z * 86400 + rem);
    assert(0 <= rem < 86400);
    assert(secs / 86400 == z);
    assert(secs % 86400 == rem);
    assert(rem / 3600 == h);
    assert((rem % 3600) / 60 == mi);
    assert(rem % 60 == s);
    assert(1 <= d <= 31);
    lemma_two_digits(d);
    lemma_two_digits(h);
    lemma_two_digits(mi);
    lemma_two_digits(s);
    reveal_strlit(" ");
    reveal_strlit(":");
    assert(" "@ =~= seq![' ']);
    assert(":"@ =~= seq![':']);
    assert(month_text(m) == months()[m - 1]);
    assert(weekday_text(z % 7) == week()[(z + 4) % 7]);
    let day = if d < 10 {
        seq![' ', (48 + d) as char]
    } else {
        two_digits(d)
    };
    let date = months()[m - 1] + seq![' '] + day + seq![' '];
    let time = two_digits(h) + seq![':'] + two_digits(mi);
    assert(mtime_text(secs) =~= date + time);
    assert(time_text(secs) =~= week()[(z + 4) % 7] + seq![' '] + date + time + seq![':']
        + two_digits(s) + seq![' '] + decimal(y as nat));
}

} // verus!
