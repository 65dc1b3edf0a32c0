//! Unix time as a date: the proleptic Gregorian calendar in UTC.
use vstd::prelude::*;

use crate::text;

verus! {

pub open spec fn is_leap(y: int) -> bool {
    y % 4 == 0 && (y % 100 != 0 || y % 400 == 0)
}

pub open spec fn month_len(y: int, m: int) -> int {
    if m == 2 {
        if is_leap(y) {
            29
        } else {
            28
        }
    } else if m == 4 || m == 6 || m == 9 || m == 11 {
        30
    } else {
        31
    }
}

pub open spec fn is_date(y: int, m: int, d: int) -> bool {
    1 <= m <= 12 && 1 <= d <= month_len(y, m)
}

/// Days from the first day of year 0 to the first day of year `y`.
pub open spec fn days_to_year(y: int) -> int {
    365 * y + (y - 1) / 4 - (y - 1) / 100 + (y - 1) / 400 + 1
}

/// Days from the first day of year `y` to the first day of month `m`.
pub open spec fn days_to_month(y: int, m: int) -> int
    decreases m,
{
    if m <= 1 {
        0
    } else {
        days_to_month(y, m - 1) + month_len(y, m - 1)
    }
}

/// Days from the first day of 1970 to a date.
pub open spec fn day_number(y: int, m: int, d: int) -> int {
    days_to_year(y) - days_to_year(1970) + days_to_month(y, m) + d - 1
}

/// A year has 365 days, a leap year 366.
pub proof fn law_year_length(y: int)
    ensures
        days_to_year(y + 1) - days_to_year(y) == (if is_leap(y) { 366int } else { 365 }),
{
}

proof fn lemma_days_to_month(y: int)
    ensures
        days_to_month(y, 1) == 0,
        days_to_month(y, 2) == 31,
        days_to_month(y, 3) == 31 + month_len(y, 2),
        days_to_month(y, 4) == 62 + month_len(y, 2),
        days_to_month(y, 5) == 92 + month_len(y, 2),
        days_to_month(y, 6) == 123 + month_len(y, 2),
        days_to_month(y, 7) == 153 + month_len(y, 2),
        days_to_month(y, 8) == 184 + month_len(y, 2),
        days_to_month(y, 9) == 215 + month_len(y, 2),
        days_to_month(y, 10) == 245 + month_len(y, 2),
        days_to_month(y, 11) == 276 + month_len(y, 2),
        days_to_month(y, 12) == 306 + month_len(y, 2),
        days_to_month(y, 13) == 337 + month_len(y, 2),
{
    reveal_with_fuel(days_to_month, 14);
}

/// The year within a century of an era. Four years before a leap day are
/// `1460` days and the leap day itself.
proof fn lemma_year_of_century(doe: int, yoe: int, c: int, q: int, s: int, t: int)
    requires
        0 <= c <= 3,
        36524 * c <= doe < 36524 * (c + 1) || (c == 3 && doe == 146096),
        doe == 1460 * q + s,
        0 <= s < 1460,
        365 * t <= s - q + c < 365 * (t + 1),
        yoe == 4 * q + t,
    ensures
        100 * c <= yoe < 100 * (c + 1),
        365 * yoe + yoe / 4 - c <= doe,
        yoe < 100 * c + 99 ==> doe < 365 * (yoe + 1) + (yoe + 1) / 4 - c,
        yoe == 100 * c + 99 && c < 3 ==> doe < 365 * (yoe + 1) + (yoe + 1) / 4 - (c + 1),
{
    assert(25 * c <= q <= 25 * c + 25);
    assert(-1 <= t <= 3);
    if t == -1 {
        assert(yoe / 4 == q - 1);
        assert((yoe + 1) / 4 == q);
    } else if t == 3 {
        assert(yoe / 4 == q);
        assert((yoe + 1) / 4 == q + 1);
    } else {
        assert(yoe / 4 == q);
        assert((yoe + 1) / 4 == q);
    }
}

/// The year of a 400-year era, counted from March.
proof fn lemma_year_of_era(doe: int, yoe: int)
    requires
        0 <= doe < 146097,
        yoe == (doe - doe / 1460 + doe / 36524 - doe / 146096) / 365,
    ensures
        0 <= yoe < 400,
        365 * yoe + yoe / 4 - yoe / 100 <= doe,
        yoe < 399 ==> doe < 365 * (yoe + 1) + (yoe + 1) / 4 - (yoe + 1) / 100,
{
    let c = if doe == 146096 {
        3
    } else {
        doe / 36524
    };
    let q = doe / 1460;
    let s = doe % 1460;
    let t = (s - q + c) / 365;
    assert(doe / 36524 - doe / 146096 == c);
    assert(yoe == (1460 * q + (s - q + c)) / 365);
    assert(yoe == 4 * q + t);
    lemma_year_of_century(doe, yoe, c, q, s, t);
    assert(yoe / 100 == c);
    if yoe == 100 * c + 99 {
        assert((yoe + 1) / 100 == c + 1);
    } else {
        assert((yoe + 1) / 100 == c);
    }
}

/// The first of March of year `y`, in days from the first of March of year 0.
proof fn lemma_march_first(y: int)
    ensures
        days_to_year(y) + days_to_month(y, 3) - 60 == 365 * y + y / 4 - y / 100 + y / 400,
        days_to_year(1970) == 719528,
{
    lemma_days_to_month(y);
    law_year_length(y);
    assert(days_to_year(y + 1) == 365 * (y + 1) + y / 4 - y / 100 + y / 400 + 1);
    assert(days_to_year(1970) == 719528);
}

/// The same day within an era.
proof fn lemma_march_first_of_era(era: int, yoe: int)
    requires
        0 <= yoe < 400,
    ensures
        ({
            let y = 400 * era + yoe;
            365 * y + y / 4 - y / 100 + y / 400 == 146097 * era + 365 * yoe + yoe / 4 - yoe / 100
        }),
{
    let y = 400 * era + yoe;
    assert(y / 4 == 100 * era + yoe / 4);
    assert(y / 100 == 4 * era + yoe / 100);
    assert(y / 400 == era);
}

/// Where a day lies that is `doy` days behind the first of March of year `y`.
proof fn lemma_day_of_year(y: int, doy: int, mp: int, d: int, m: int)
    requires
        0 <= doy <= 365,
        doy == 365 ==> is_leap(y + 1),
        mp == (5 * doy + 2) / 153,
        d == doy - (153 * mp + 2) / 5 + 1,
        m == (if mp < 10 { mp + 3 } else { mp - 9 }),
    ensures
        0 <= mp <= 11,
        is_date(if m <= 2 { y + 1 } else { y }, m, d),
        day_number(if m <= 2 { y + 1 } else { y }, m, d) == days_to_year(y) - days_to_year(1970)
            + days_to_month(y, 3) + doy,
{
    lemma_days_to_month(y);
    lemma_days_to_month(y + 1);
    law_year_length(y);
    assert(mp == 0 || mp == 1 || mp == 2 || mp == 3 || mp == 4 || mp == 5 || mp == 6 || mp == 7
        || mp == 8 || mp == 9 || mp == 10 || mp == 11);
}

/// Splits a day count into 400-year eras and a day within the era.
fn split_era(zz: i64) -> (r: (i64, i64))
    requires
        i64::MIN + 719468 <= zz,
    ensures
        zz == 146097 * r.0 + r.1,
        0 <= r.1 < 146097,
{
    if zz >= 0 {
        (zz / 146097, zz % 146097)
    } else {
        let back: i64 = (146096 - zz) / 146097;
        (-back, zz + back * 146097)
    }
}

/// The date of a day number: year, month, day.
pub fn civil_from_days(z: i64) -> (date: (i64, u32, u32))
    requires
        z <= i64::MAX - 719468,
    ensures
        is_date(date.0 as int, date.1 as int, date.2 as int),
        day_number(date.0 as int, date.1 as int, date.2 as int) == z,
{
    let (era, doe): (i64, i64) = split_era(z + 719468);
    let yoe: i64 = (doe - doe / 1460 + doe / 36524 - doe / 146096) / 365;
    proof {
        lemma_year_of_era(doe as int, yoe as int);
    }
    let y: i64 = yoe + era * 400;
    let start: i64 = 365 * yoe + yoe / 4 - yoe / 100;
    let doy: i64 = doe - start;
    proof {
        lemma_last_day(era as int, yoe as int, doe as int);
    }
    let mp: i64 = (5 * doy + 2) / 153;
    let d: i64 = doy - (153 * mp + 2) / 5 + 1;
    let m: i64 = if mp < 10 { mp + 3 } else { mp - 9 };
    proof {
        lemma_day_of_year(y as int, doy as int, mp as int, d as int, m as int);
        lemma_march_first(y as int);
        lemma_march_first_of_era(era as int, yoe as int);
    }
    (if m <= 2 { y + 1 } else { y }, m as u32, d as u32)
}

/// Within its year, counted from March, a day is at most number 365, and that
/// only where the year ends with a leap day.
proof fn lemma_last_day(era: int, yoe: int, doe: int)
    requires
        0 <= yoe < 400,
        doe < 146097,
        365 * yoe + yoe / 4 - yoe / 100 <= doe,
        yoe < 399 ==> doe < 365 * (yoe + 1) + (yoe + 1) / 4 - (yoe + 1) / 100,
    ensures
        ({
            let doy = doe - (365 * yoe + yoe / 4 - yoe / 100);
            0 <= doy <= 365 && (doy == 365 ==> is_leap(400 * era + yoe + 1))
        }),
{
    let z = yoe + 1;
    lemma_same_leap(era, z);
    lemma_next_quotients(yoe);
    if yoe == 399 {
        assert(is_leap(z));
    } else {
        assert(z % 400 != 0);
        let leap: int = if z % 4 == 0 {
            1
        } else {
            0
        };
        let century: int = if z % 100 == 0 {
            1
        } else {
            0
        };
        assert(doe - (365 * yoe + yoe / 4 - yoe / 100) < 365 + leap - century);
        if leap - century == 1 {
            assert(is_leap(z));
        }
    }
}

/// Whole eras do not change which years are leap years.
proof fn lemma_same_leap(era: int, z: int)
    ensures
        is_leap(400 * era + z) == is_leap(z),
{
    let y = 400 * era + z;
    assert(y % 4 == z % 4);
    assert(y % 100 == z % 100);
    assert(y % 400 == z % 400);
}

/// Quotients step up where the next number is a multiple.
proof fn lemma_next_quotients(n: int)
    ensures
        (n + 1) / 4 == n / 4 + (if (n + 1) % 4 == 0 {
            1int
        } else {
            0
        }),
        (n + 1) / 100 == n / 100 + (if (n + 1) % 100 == 0 {
            1int
        } else {
            0
        }),
{
}

proof fn lemma_years_ascend(a: int, b: int)
    requires
        a <= b,
    ensures
        days_to_year(a) <= days_to_year(b),
    decreases b - a,
{
    if a < b {
        lemma_years_ascend(a, b - 1);
        law_year_length(b - 1);
    }
}

/// A date lies within its year.
proof fn lemma_day_in_year(y: int, m: int, d: int)
    requires
        is_date(y, m, d),
    ensures
        0 <= days_to_month(y, m) + d - 1,
        days_to_year(y) + days_to_month(y, m) + d - 1 < days_to_year(y + 1),
{
    lemma_days_to_month(y);
    law_year_length(y);
    assert(m == 1 || m == 2 || m == 3 || m == 4 || m == 5 || m == 6 || m == 7 || m == 8 || m == 9
        || m == 10 || m == 11 || m == 12);
}

proof fn lemma_months_ascend(y: int, a: int, b: int)
    requires
        1 <= a < b,
    ensures
        days_to_month(y, a) + month_len(y, a) <= days_to_month(y, b),
    decreases b - a,
{
    if a + 1 < b {
        lemma_months_ascend(y, a, b - 1);
    }
}

/// No two dates have one day number.
pub proof fn law_date_unique(y1: int, m1: int, d1: int, y2: int, m2: int, d2: int)
    requires
        is_date(y1, m1, d1),
        is_date(y2, m2, d2),
        day_number(y1, m1, d1) == day_number(y2, m2, d2),
    ensures
        y1 == y2,
        m1 == m2,
        d1 == d2,
{
    lemma_day_in_year(y1, m1, d1);
    lemma_day_in_year(y2, m2, d2);
    if y1 < y2 {
        lemma_years_ascend(y1 + 1, y2);
    }
    if y2 < y1 {
        lemma_years_ascend(y2 + 1, y1);
    }
    if m1 < m2 {
        lemma_months_ascend(y1, m1, m2);
    }
    if m2 < m1 {
        lemma_months_ascend(y1, m2, m1);
    }
}

/// The date of a day number.
pub open spec fn date_of(z: int) -> (int, int, int) {
    choose|t: (int, int, int)|
        #![trigger day_number(t.0, t.1, t.2)]
        is_date(t.0, t.1, t.2) && day_number(t.0, t.1, t.2) == z
}

/// A date as `YYYY-MM-DD`.
pub open spec fn date_text(t: (int, int, int)) -> Seq<char> {
    text::zero_filled(t.0 as nat, 4) + "-"@ + text::zero_filled(t.1 as nat, 2) + "-"@
        + text::zero_filled(t.2 as nat, 2)
}

/// A Unix time as `YYYY-MM-DD hh:mm:ss UTC`.
pub open spec fn unix_text(ts: nat) -> Seq<char> {
    let sod = ts % 86400;
    date_text(date_of((ts / 86400) as int)) + " "@ + text::zero_filled(sod / 3600, 2) + ":"@
        + text::zero_filled((sod % 3600) / 60, 2) + ":"@ + text::zero_filled(sod % 60, 2) + " UTC"@
}

/// Appends the date of a day that is not before 1970.
fn push_date(out: &mut String, days: u64)
    requires
        days <= i64::MAX - 719468,
    ensures
        final(out)@ == old(out)@ + date_text(date_of(days as int)),
{
    let ghost before = out@;
    let (y, m, d): (i64, u32, u32) = civil_from_days(days as i64);
    proof {
        let t = (y as int, m as int, d as int);
        assert(is_date(t.0, t.1, t.2) && day_number(t.0, t.1, t.2) == days as int);
        let u = date_of(days as int);
        law_date_unique(t.0, t.1, t.2, u.0, u.1, u.2);
        assert(u == t);
        if y < 1970 {
            lemma_day_in_year(t.0, t.1, t.2);
            lemma_years_ascend(t.0 + 1, 1970);
        }
    }
    text::push_zero_filled(out, y as u64, 4);
    out.append("-");
    text::push_zero_filled(out, m as u64, 2);
    out.append("-");
    text::push_zero_filled(out, d as u64, 2);
    proof {
        assert(out@ =~= before + date_text(date_of(days as int)));
    }
}

/// A Unix time as text.
pub fn format_unix(ts: u64) -> (s: String)
    ensures
        s@ == unix_text(ts as nat),
{
    let mut s = String::new();
    push_date(&mut s, ts / 86400);
    let sod: u64 = ts % 86400;
    s.append(" ");
    text::push_zero_filled(&mut s, sod / 3600, 2);
    s.append(":");
    text::push_zero_filled(&mut s, (sod % 3600) / 60, 2);
    s.append(":");
    text::push_zero_filled(&mut s, sod % 60, 2);
    s.append(" UTC");
    proof {
        assert(s@ =~= unix_text(ts as nat));
    }
    s
}

/// The date of a Unix time as text.
pub fn date_string(ts: u64) -> (s: String)
    ensures
        s@ == date_text(date_of(ts as int / 86400)),
{
    let mut s = String::new();
    push_date(&mut s, ts / 86400);
    proof {
        assert(s@ =~= date_text(date_of(ts as int / 86400)));
    }
    s
}

/// Every fourth year is a leap year, but of the years that end a century only
/// every fourth is.
pub proof fn law_leap_years(y: int)
    ensures
        is_leap(y) <==> (y % 4 == 0 && y % 100 != 0) || y % 400 == 0,
        is_leap(y + 400) == is_leap(y),
{
}

/// The lengths of the months.
pub proof fn law_month_lengths(y: int)
    ensures
        month_len(y, 1) == 31,
        month_len(y, 2) == (if (y % 4 == 0 && y % 100 != 0) || y % 400 == 0 {
            29int
        } else {
            28
        }),
        month_len(y, 3) == 31,
        month_len(y, 4) == 30,
        month_len(y, 5) == 31,
        month_len(y, 6) == 30,
        month_len(y, 7) == 31,
        month_len(y, 8) == 31,
        month_len(y, 9) == 30,
        month_len(y, 10) == 31,
        month_len(y, 11) == 30,
        month_len(y, 12) == 31,
{
}

/// Days are counted from the first of January 1970, and every date is one day
/// behind the date before it: within a month, from the last day of a month to
/// the first of the next, and from the end of a year to the next.
pub proof fn law_days_follow_each_other(y: int, m: int, d: int)
    requires
        is_date(y, m, d),
    ensures
        day_number(1970, 1, 1) == 0,
        d < month_len(y, m) ==> is_date(y, m, d + 1) && day_number(y, m, d + 1) == day_number(
            y,
            m,
            d,
        ) + 1,
        d == month_len(y, m) && m < 12 ==> is_date(y, m + 1, 1) && day_number(y, m + 1, 1)
            == day_number(y, m, d) + 1,
        d == month_len(y, m) && m == 12 ==> is_date(y + 1, 1, 1) && day_number(y + 1, 1, 1)
            == day_number(y, m, d) + 1,
{
    lemma_days_to_month(1970);
    lemma_days_to_month(y);
    lemma_days_to_month(y + 1);
    law_year_length(y);
    assert(days_to_month(y, m + 1) == days_to_month(y, m) + month_len(y, m));
}

/// A date is found again from its number.
pub proof fn law_date_found_again(y: int, m: int, d: int)
    requires
        is_date(y, m, d),
    ensures
        date_of(day_number(y, m, d)) == (y, m, d),
{
    let t = (y, m, d);
    assert(is_date(t.0, t.1, t.2) && day_number(t.0, t.1, t.2) == day_number(y, m, d));
    let u = date_of(day_number(y, m, d));
    law_date_unique(y, m, d, u.0, u.1, u.2);
}

/// How a moment is written: so many days after the first of January 1970, at a
/// given hour, minute and second, it reads as year, month and day with dashes
/// between them, a blank, hour, minute and second with colons between them, and
/// `UTC`.
pub proof fn law_moment_as_text(ts: nat, y: int, m: int, d: int, hour: int, min: int, sec: int)
    requires
        is_date(y, m, d),
        0 <= hour < 24,
        0 <= min < 60,
        0 <= sec < 60,
        ts == 86400 * day_number(y, m, d) + 3600 * hour + 60 * min + sec,
    ensures
        unix_text(ts) == text::zero_filled(y as nat, 4) + "-"@ + text::zero_filled(m as nat, 2)
            + "-"@ + text::zero_filled(d as nat, 2) + " "@ + text::zero_filled(hour as nat, 2)
            + ":"@ + text::zero_filled(min as nat, 2) + ":"@ + text::zero_filled(sec as nat, 2)
            + " UTC"@,
        date_text(date_of(ts as int / 86400)) == text::zero_filled(y as nat, 4) + "-"@
            + text::zero_filled(m as nat, 2) + "-"@ + text::zero_filled(d as nat, 2),
{
    law_date_found_again(y, m, d);
    lemma_moment(ts as int, day_number(y, m, d), hour, min, sec);
}

/// A moment taken apart into days, hours, minutes and seconds.
proof fn lemma_moment(ts: int, days: int, hour: int, min: int, sec: int)
    requires
        0 <= hour < 24,
        0 <= min < 60,
        0 <= sec < 60,
        ts == 86400 * days + 3600 * hour + 60 * min + sec,
    ensures
        ts / 86400 == days,
        (ts % 86400) / 3600 == hour,
        ((ts % 86400) % 3600) / 60 == min,
        (ts % 86400) % 60 == sec,
{
    let sod = 3600 * hour + 60 * min + sec;
    assert(ts % 86400 == sod);
    let rest = 60 * min + sec;
    assert(sod % 3600 == rest);
}

/// Years come in the order of their days: a date lies in a given year or behind
/// it exactly if it is not before that year's first day.
pub proof fn law_years_in_order(y: int, m: int, d: int, k: int)
    requires
        is_date(y, m, d),
    ensures
        y >= k <==> day_number(y, m, d) >= day_number(k, 1, 1),
{
    lemma_day_in_year(y, m, d);
    lemma_days_to_month(k);
    if y < k {
        lemma_years_ascend(y + 1, k);
    } else {
        lemma_years_ascend(k, y);
    }
}

} // verus!
