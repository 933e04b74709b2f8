//! The calendar that dates go by.
use crate::str_laws;
use crate::strs;
use crate::ui::render_rows::date;
use vstd::prelude::*;

verus! {

/// The days of a month. Every fourth year February has one more, but for the years that begin a
/// century, unless four hundred divides them.
pub open spec fn month_days(y: int, m: int) -> int {
    if m == 2 {
        if y % 400 == 0 || (y % 4 == 0 && y % 100 != 0) {
            29
        } else {
            28
        }
    } else if m == 4 || m == 6 || m == 9 || m == 11 {
        30
    } else {
        31
    }
}

/// The day after a day.
pub open spec fn day_after(y: int, m: int, d: int) -> (int, int, int) {
    if d < month_days(y, m) {
        (y, m, d + 1)
    } else if m < 12 {
        (y, m + 1, 1)
    } else {
        (y + 1, 1, 1)
    }
}

/// Days are counted one by one from the first of January 1970: the day after a day has the next
/// number.
pub proof fn law_days_are_counted_one_by_one(y: int, m: int, d: int)
    requires
        1 <= m <= 12,
        1 <= d <= month_days(y, m),
    ensures
        date::is_date(y, m, d),
        ({
            let (y2, m2, d2) = day_after(y, m, d);
            &&& date::is_date(y2, m2, d2)
            &&& date::day_number(y2, m2, d2) == date::day_number(y, m, d) + 1
        }),
        date::day_number(1970, 1, 1) == 0,
{
    assert(date::leap_years(y) - date::leap_years(y - 1) == (if y % 4 == 0 && (y % 100 != 0 || y
        % 400 == 0) {
        1int
    } else {
        0
    }));
}

proof fn lemma_two_digits(n: nat)
    requires
        n < 100,
    ensures
        strs::dec(n).len() <= 2,
{
    if n >= 10 {
        assert(strs::dec(n) == strs::dec(n / 10).push(strs::digit(n % 10)));
        assert(strs::dec(n / 10).len() == 1);
    }
}

proof fn lemma_four_digits(n: nat)
    requires
        n < 10000,
    ensures
        strs::dec(n).len() <= 4,
{
    if n >= 100 {
        lemma_two_digits(n / 100);
        assert(n / 10 / 10 == n / 100);
        assert(strs::dec(n) == strs::dec(n / 10).push(strs::digit(n % 10)));
        assert(strs::dec(n / 10).len() <= strs::dec(n / 100).len() + 1);
    } else {
        lemma_two_digits(n);
    }
}

/// A date says year, month, day, hour and minute, with two digits each and four for the year,
/// of the minute that it falls into.
pub proof fn law_dates_tell_the_minute(ms: nat, y: int, m: int, d: int, hh: int, mm: int)
    requires
        1 <= m <= 12,
        1 <= d <= month_days(y, m),
        1970 <= y <= 9999,
        0 <= hh < 24,
        0 <= mm < 60,
        ms / 60000 == date::day_number(y, m, d) * 1440 + hh * 60 + mm,
    ensures
        ({
            let s = date::date_text(ms);
            &&& s.len() == 16
            &&& str_laws::value(s.take(4)) == y && s[4] == '-'
            &&& str_laws::value(s.subrange(5, 7)) == m && s[7] == '-'
            &&& str_laws::value(s.subrange(8, 10)) == d && s[10] == ' '
            &&& str_laws::value(s.subrange(11, 13)) == hh && s[13] == ':'
            &&& str_laws::value(s.subrange(14, 16)) == mm
        }),
{
    law_days_are_counted_one_by_one(y, m, d);
    date::law_date_of(y, m, d);
    let secs = ms / 1000;
    let days = date::day_number(y, m, d);
    let t = days * 1440 + hh * 60 + mm;
    assert(secs / 60 == ms / 60000) by (nonlinear_arith)
        requires
            secs == ms / 1000,
    {}
    assert(secs / 86400 == days) by (nonlinear_arith)
        requires
            secs / 60 == days * 1440 + hh * 60 + mm,
            0 <= hh < 24,
            0 <= mm < 60,
    {}
    assert(secs % 86400 / 3600 == hh) by (nonlinear_arith)
        requires
            secs / 60 == days * 1440 + hh * 60 + mm,
            secs / 86400 == days,
            0 <= hh < 24,
            0 <= mm < 60,
    {}
    assert(secs % 3600 / 60 == mm) by (nonlinear_arith)
        requires
            secs / 60 == days * 1440 + hh * 60 + mm,
            0 <= hh < 24,
            0 <= mm < 60,
    {}
    let s = date::date_text(ms);
    let a = strs::dec_pad(y as nat, 4);
    let b = strs::dec_pad(m as nat, 2);
    let c = strs::dec_pad(d as nat, 2);
    let e = strs::dec_pad(hh as nat, 2);
    let f = strs::dec_pad(mm as nat, 2);
    lemma_four_digits(y as nat);
    lemma_two_digits(m as nat);
    lemma_two_digits(d as nat);
    lemma_two_digits(hh as nat);
    lemma_two_digits(mm as nat);
    str_laws::law_padded_numbers_are_the_same(y as nat, 4);
    str_laws::law_padded_numbers_are_the_same(m as nat, 2);
    str_laws::law_padded_numbers_are_the_same(d as nat, 2);
    str_laws::law_padded_numbers_are_the_same(hh as nat, 2);
    str_laws::law_padded_numbers_are_the_same(mm as nat, 2);
    assert(s == a.push('-') + b.push('-') + c.push(' ') + e.push(':') + f);
    assert(s.take(4) == a);
    assert(s.subrange(5, 7) == b);
    assert(s.subrange(8, 10) == c);
    assert(s.subrange(11, 13) == e);
    assert(s.subrange(14, 16) == f);
}

} // verus!
