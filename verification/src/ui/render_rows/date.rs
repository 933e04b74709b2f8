//! Civil dates from a count of milliseconds.
use crate::strs;
use crate::strs::push_dec_pad;
use vstd::prelude::*;

verus! {

/// Leap years of the Gregorian calendar.
pub open spec fn is_leap(y: int) -> bool {
    y % 4 == 0 && (y % 100 != 0 || y % 400 == 0)
}

/// The days of the months of year `y` that come before month `m`.
pub open spec fn days_before_month(y: int, m: int) -> int {
    let leap: int = if is_leap(y) {
        1
    } else {
        0
    };
    if m <= 1 {
        0
    } else if m == 2 {
        31
    } else if m == 3 {
        59 + leap
    } else if m == 4 {
        90 + leap
    } else if m == 5 {
        120 + leap
    } else if m == 6 {
        151 + leap
    } else if m == 7 {
        181 + leap
    } else if m == 8 {
        212 + leap
    } else if m == 9 {
        243 + leap
    } else if m == 10 {
        273 + leap
    } else if m == 11 {
        304 + leap
    } else if m == 12 {
        334 + leap
    } else {
        365 + leap
    }
}

/// `(y, m, d)` is a day of the calendar.
pub open spec fn is_date(y: int, m: int, d: int) -> bool {
    1 <= m <= 12 && 1 <= d <= days_before_month(y, m + 1) - days_before_month(y, m)
}

/// The leap years among the years 1 to `y`.
pub open spec fn leap_years(y: int) -> int {
    y / 4 - y / 100 + y / 400
}

/// The days from 1970-01-01 to the date `(y, m, d)`.
pub open spec fn day_number(y: int, m: int, d: int) -> int {
    365 * (y - 1970) + leap_years(y - 1) - leap_years(1969) + days_before_month(y, m) + d - 1
}

/// The date `days` days after 1970-01-01.
pub open spec fn date_of(days: int) -> (int, int, int) {
    choose|t: (int, int, int)| is_date(t.0, t.1, t.2) && #[trigger] day_number(t.0, t.1, t.2) == days
}

/// `YYYY-MM-DD HH:MM`.
pub open spec fn stamp(y: nat, m: nat, d: nat, hh: nat, mm: nat) -> Seq<char> {
    strs::dec_pad(y, 4).push('-') + strs::dec_pad(m, 2).push('-') + strs::dec_pad(d, 2).push(' ')
        + strs::dec_pad(hh, 2).push(':') + strs::dec_pad(mm, 2)
}

/// The UTC date and time of day `ms` milliseconds after the start of 1970.
pub open spec fn date_text(ms: nat) -> Seq<char> {
    let secs = ms / 1000;
    let (y, m, d) = date_of((secs / 86400) as int);
    stamp(y as nat, m as nat, d as nat, secs % 86400 / 3600, secs % 3600 / 60)
}

proof fn lemma_year_step(y: int)
    ensures
        leap_years(y) - leap_years(y - 1) == (if is_leap(y) {
            1int
        } else {
            0int
        }),
{
}

proof fn lemma_leap_years_monotonic(a: int, b: int)
    requires
        a <= b,
    ensures
        leap_years(a) <= leap_years(b),
    decreases b - a,
{
    if a < b {
        lemma_year_step(b);
        lemma_leap_years_monotonic(a, b - 1);
    }
}

proof fn lemma_day_in_year(y: int, m: int, d: int)
    requires
        is_date(y, m, d),
    ensures
        day_number(y, 1, 1) <= day_number(y, m, d) < day_number(y + 1, 1, 1),
{
    lemma_year_step(y);
}

proof fn lemma_one_date(y: int, m: int, d: int, y2: int, m2: int, d2: int)
    requires
        is_date(y, m, d),
        is_date(y2, m2, d2),
        day_number(y, m, d) == day_number(y2, m2, d2),
    ensures
        (y, m, d) == (y2, m2, d2),
{
    lemma_day_in_year(y, m, d);
    lemma_day_in_year(y2, m2, d2);
    if y < y2 {
        lemma_leap_years_monotonic(y, y2 - 1);
    }
    if y2 < y {
        lemma_leap_years_monotonic(y2, y - 1);
    }
}

/// A date's day number has no other date.
pub proof fn law_date_of(y: int, m: int, d: int)
    requires
        is_date(y, m, d),
    ensures
        date_of(day_number(y, m, d)) == (y, m, d),
{
    let t0 = (y, m, d);
    assert(is_date(t0.0, t0.1, t0.2) && day_number(t0.0, t0.1, t0.2) == day_number(y, m, d));
    let t = date_of(day_number(y, m, d));
    lemma_one_date(t.0, t.1, t.2, y, m, d);
}

/// The year of the era that holds day `doe` of it, where years start on March 1.
proof fn lemma_year_of_era(doe: int, q: int, k: int, j: int, doy: int)
    requires
        0 <= q <= 3,
        0 <= k <= 24,
        0 <= j <= 3,
        0 <= doy <= 365,
        doy == 365 ==> j == 3 && (k == 24 ==> q == 3),
        doe == 36524 * q + 1461 * k + 365 * j + doy,
    ensures
        (doe - doe / 1460 + doe / 36524 - doe / 146096) / 365 == 100 * q + 4 * k + j,
{
    let t = 24 * q + k + 365 * j + doy;
    assert(doe == 1460 * (25 * q + k) + t);
    assert(0 <= t <= 72 + 24 + 1095 + 365);
    assert(doe / 1460 == 25 * q + k + (if t >= 1460 { 1int } else { 0int }));
    assert(doe / 36524 == q || doe / 36524 == q + 1);
    assert(doe / 146096 == (if doe == 146096 { 1int } else { 0int }));
}

/// A day of the era, by its century, its leap cycle, its year of the cycle and its day.
proof fn lemma_split_era(doe: int) -> (r: (int, int, int, int))
    requires
        0 <= doe < 146097,
    ensures
        0 <= r.0 <= 3,
        0 <= r.1 <= 24,
        0 <= r.2 <= 3,
        0 <= r.3 <= 365,
        r.3 == 365 ==> r.2 == 3 && (r.1 == 24 ==> r.0 == 3),
        doe == 36524 * r.0 + 1461 * r.1 + 365 * r.2 + r.3,
        (doe - doe / 1460 + doe / 36524 - doe / 146096) / 365 == 100 * r.0 + 4 * r.1 + r.2,
{
    let q: int = if doe / 36524 >= 3 {
        3
    } else {
        doe / 36524
    };
    let r = doe - 36524 * q;
    let k: int = if r / 1461 >= 24 {
        24
    } else {
        r / 1461
    };
    let r2 = r - 1461 * k;
    let j: int = if r2 / 365 >= 3 {
        3
    } else {
        r2 / 365
    };
    lemma_year_of_era(doe, q, k, j, r2 - 365 * j);
    (q, k, j, r2 - 365 * j)
}

/// The date of a day, by Howard Hinnant's `civil_from_days`.
fn civil(days: u64) -> (r: (u64, u64, u64))
    requires
        days <= 300_000_000_000_000,
    ensures
        (r.0 as int, r.1 as int, r.2 as int) == date_of(days as int),
{
    let z: u64 = days + 719_468;
    let era: u64 = z / 146_097;
    let doe: u64 = z - era * 146_097;
    let yoe: u64 = (doe - doe / 1460 + doe / 36_524 - doe / 146_096) / 365;
    let ghost (q, k, j, gdoy) = lemma_split_era(doe as int);
    assert(yoe == 100 * q + 4 * k + j);
    assert(yoe / 4 == 25 * q + k);
    assert(yoe / 100 == q);
    let doy: u64 = doe - (365 * yoe + yoe / 4 - yoe / 100);
    assert(doy == gdoy);
    assert(5 * doy + 2 < 153 * 12);
    let mp: u64 = (5 * doy + 2) / 153;
    let d: u64 = doy - (153 * mp + 2) / 5 + 1;
    let m: u64 = if mp < 10 {
        mp + 3
    } else {
        mp - 9
    };
    let y: u64 = yoe + era * 400 + (if m <= 2 {
        1
    } else {
        0
    });
    proof {
        lemma_months(era as int, q, k, j, gdoy, days as int);
        law_date_of(y as int, m as int, d as int);
    }
    (y, m, d)
}

proof fn lemma_months(era: int, q: int, k: int, j: int, doy: int, days: int)
    requires
        0 <= era,
        0 <= q <= 3,
        0 <= k <= 24,
        0 <= j <= 3,
        0 <= doy <= 365,
        doy == 365 ==> j == 3 && (k == 24 ==> q == 3),
        days + 719468 == 146097 * era + 36524 * q + 1461 * k + 365 * j + doy,
    ensures
        ({
            let mp = (5 * doy + 2) / 153;
            let d = doy - (153 * mp + 2) / 5 + 1;
            let m = if mp < 10 {
                mp + 3
            } else {
                mp - 9
            };
            let y = 400 * era + 100 * q + 4 * k + j + (if m <= 2 {
                1int
            } else {
                0int
            });
            is_date(y, m, d) && day_number(y, m, d) == days
        }),
{
    let y0 = 400 * era + 100 * q + 4 * k + j;
    lemma_leap_years_of(era, q, k, j);
    let mp = (5 * doy + 2) / 153;
    assert(0 <= mp <= 11);
    lemma_year_step(y0);
    lemma_year_step(y0 + 1);
    if mp == 11 && doy == 365 {
        assert(is_leap(y0 + 1));
    }
}

proof fn lemma_leap_years_of(era: int, q: int, k: int, j: int)
    requires
        0 <= era,
        0 <= q <= 3,
        0 <= k <= 24,
        0 <= j <= 3,
    ensures
        leap_years(400 * era + 100 * q + 4 * k + j) == 97 * era + 24 * q + k,
        is_leap(400 * era + 100 * q + 4 * k + j + 1) <==> j == 3 && (k == 24 ==> q == 3),
{
    let y = 400 * era + 100 * q + 4 * k + j;
    assert(y / 4 == 100 * era + 25 * q + k);
    assert(y / 100 == 4 * era + q);
    assert(y / 400 == era);
}

/// The UTC `YYYY-MM-DD HH:MM` timestamp of a time in milliseconds since the start of 1970.
pub fn fmt_date(ms: u64) -> (r: String)
    ensures
        r@ == date_text(ms as nat),
{
    let secs: u64 = ms / 1000;
    let days: u64 = secs / 86_400;
    let tod: u64 = secs % 86_400;
    let (y, m, d) = civil(days);
    let hh: u64 = tod / 3600;
    let mm: u64 = (tod % 3600) / 60;
    assert(tod % 3600 == secs % 3600);
    let mut s = String::new();
    push_dec_pad(&mut s, y, 4);
    s.push('-');
    push_dec_pad(&mut s, m, 2);
    s.push('-');
    push_dec_pad(&mut s, d, 2);
    s.push(' ');
    push_dec_pad(&mut s, hh, 2);
    s.push(':');
    push_dec_pad(&mut s, mm, 2);
    assert(s@ == stamp(y as nat, m as nat, d as nat, hh as nat, mm as nat));
    s
}

} // verus!
