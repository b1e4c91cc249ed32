//! Dates and times in UTC, as the audit log and the diagnostics write them.

use vstd::prelude::*;

use crate::text;

verus! {

/// The Gregorian rule.
pub open spec fn is_leap(year: int) -> bool {
    year % 4 == 0 && (year % 100 != 0 || year % 400 == 0)
}

/// The days of a common year before its month (1 to 12).
pub open spec fn days_before(month: int) -> int {
    if month <= 1 {
        0
    } else if month == 2 {
        31
    } else if month == 3 {
        59
    } else if month == 4 {
        90
    } else if month == 5 {
        120
    } else if month == 6 {
        151
    } else if month == 7 {
        181
    } else if month == 8 {
        212
    } else if month == 9 {
        243
    } else if month == 10 {
        273
    } else if month == 11 {
        304
    } else {
        334
    }
}

/// How many days a month has.
pub open spec fn month_length(year: int, month: int) -> int {
    if month == 2 {
        if is_leap(year) {
            29
        } else {
            28
        }
    } else if month == 4 || month == 6 || month == 9 || month == 11 {
        30
    } else {
        31
    }
}

/// A day of the calendar.
pub open spec fn is_date(year: int, month: int, day: int) -> bool {
    1 <= month <= 12 && 1 <= day <= month_length(year, month)
}

/// The days from 1970-01-01 to a date: those of the years before it, of
/// the months before it, and of its own month.
pub open spec fn day_count(year: int, month: int, day: int) -> int {
    let before = year - 1;
    365 * year + before / 4 - before / 100 + before / 400 + days_before(month) + (if month > 2 && is_leap(year) {
        1int
    } else {
        0int
    }) + day - 1 - 719_527
}

/// `n` in decimal, with zeros in front up to `width` digits.
pub open spec fn padded(n: nat, width: int) -> Seq<char> {
    let digits = text::decimal(n);
    if digits.len() < width {
        Seq::new((width - digits.len()) as nat, |i: int| '0') + digits
    } else {
        digits
    }
}

/// `YYYY-MM-DD`.
pub open spec fn date_text(year: int, month: int, day: int) -> Seq<char> {
    (padded(year as nat, 4).push('-') + padded(month as nat, 2)).push('-') + padded(day as nat, 2)
}

/// `HH:MM:SS`, of the seconds since midnight.
pub open spec fn time_text(secs: int) -> Seq<char> {
    (padded((secs / 3600) as nat, 2).push(':') + padded((secs / 60 % 60) as nat, 2)).push(':') + padded(
        (secs % 60) as nat,
        2,
    )
}

/// `n` in decimal, with zeros in front up to `width` digits.
pub fn padded_chars(n: u128, width: usize) -> (r: Vec<char>)
    ensures
        r@ == padded(n as nat, width as int),
{
    let digits = text::decimal_chars(n);
    let mut r: Vec<char> = Vec::new();
    if digits.len() < width {
        let zeros: usize = width - digits.len();
        while r.len() < zeros
            invariant
                r@.len() <= zeros,
                forall|i: int| 0 <= i < r@.len() ==> r@[i] == '0',
            decreases zeros - r@.len(),
        {
            r.push('0');
        }
        proof {
            assert(r@ =~= Seq::new(zeros as nat, |i: int| '0'));
        }
    }
    text::append(&mut r, &digits);
    proof {
        assert(r@ =~= padded(n as nat, width as int));
    }
    r
}

/// The date that `days` after 1970-01-01 is.
fn civil(days: u64) -> (r: (u64, u64, u64))
    requires
        days <= 200_000_000_000_000,
    ensures
        is_date(r.0 as int, r.1 as int, r.2 as int),
        day_count(r.0 as int, r.1 as int, r.2 as int) == days,
        r.0 >= 1,
{
    // years that begin in March have the leap day at their end
    let z: u64 = days + 719_468;
    let era: u64 = z / 146_097;
    let doe: u64 = z % 146_097;
    let century: u64 = if doe / 36_524 < 4 {
        doe / 36_524
    } else {
        3
    };
    let doc: u64 = doe - century * 36_524;
    let quad: u64 = doc / 1_461;
    let doq: u64 = doc % 1_461;
    let single: u64 = if doq / 365 < 4 {
        doq / 365
    } else {
        3
    };
    let doy: u64 = doq - single * 365;
    let year: u64 = era * 400 + century * 100 + quad * 4 + single;
    let mp: u64 = (5 * doy + 2) / 153;
    let day: u64 = doy - (153 * mp + 2) / 5 + 1;
    let month: u64 = if mp < 10 {
        mp + 3
    } else {
        mp - 9
    };
    let year: u64 = if month <= 2 {
        year + 1
    } else {
        year
    };
    proof {
        let y = era * 400 + century * 100 + quad * 4 + single;
        assert(quad <= 24);
        assert(y / 4 == era * 100 + century * 25 + quad);
        assert(y / 100 == era * 4 + century);
        assert(y / 400 == era);
        assert(doy <= 365);
        lemma_march(y as int, mp as int, doy as int, year as int, month as int, day as int);
    }
    (year, month, day)
}

/// Counting from March, and counting from January.
proof fn lemma_march(y: int, mp: int, doy: int, year: int, month: int, day: int)
    requires
        y >= 0,
        0 <= doy <= 365,
        doy == 365 ==> is_leap(y + 1),
        mp == (5 * doy + 2) / 153,
        day == doy - (153 * mp + 2) / 5 + 1,
        month == if mp < 10 {
            mp + 3
        } else {
            mp - 9
        },
        year == if month <= 2 {
            y + 1
        } else {
            y
        },
    ensures
        is_date(year, month, day),
        day_count(year, month, day) == 365 * y + y / 4 - y / 100 + y / 400 + doy - 719_468,
{
    assert(0 <= mp <= 11);
    lemma_years(y);
    if mp == 0 {
    } else if mp == 1 {
    } else if mp == 2 {
    } else if mp == 3 {
    } else if mp == 4 {
    } else if mp == 5 {
    } else if mp == 6 {
    } else if mp == 7 {
    } else if mp == 8 {
    } else if mp == 9 {
    } else if mp == 10 {
    } else {
    }
}

/// How many leap days a year adds.
proof fn lemma_years(y: int)
    requires
        y >= 0,
    ensures
        y / 4 - y / 100 + y / 400 == (y - 1) / 4 - (y - 1) / 100 + (y - 1) / 400 + if is_leap(y) {
            1int
        } else {
            0int
        },
{
}

/// ("YYYY-MM-DD", "HH:MM:SS") in UTC, of seconds since the Unix epoch.
pub fn utc(secs: i64) -> (r: (String, String))
    requires
        secs >= 0,
    ensures
        exists|y: int, m: int, d: int|
            is_date(y, m, d) && day_count(y, m, d) == secs as int / 86_400 && r.0@ == #[trigger] date_text(y, m, d) && y
                >= 1,
        r.1@ == time_text(secs as int % 86_400),
{
    let days: u64 = secs as u64 / 86_400;
    let rest: u64 = secs as u64 % 86_400;
    let (year, month, day) = civil(days);
    let mut date = padded_chars(year as u128, 4);
    date.push('-');
    let mut part = padded_chars(month as u128, 2);
    text::append(&mut date, &part);
    date.push('-');
    part = padded_chars(day as u128, 2);
    text::append(&mut date, &part);
    let mut time = padded_chars((rest / 3600) as u128, 2);
    time.push(':');
    part = padded_chars((rest / 60 % 60) as u128, 2);
    text::append(&mut time, &part);
    time.push(':');
    part = padded_chars((rest % 60) as u128, 2);
    text::append(&mut time, &part);
    proof {
        assert(date@ =~= date_text(year as int, month as int, day as int));
    }
    (text::string_of(&date), text::string_of(&time))
}

/// A number of a date's text.
pub open spec fn date_number(s: Seq<char>) -> Option<int> {
    match text::number_of(s) {
        Some(n) => if n <= i64::MAX {
            Some(n)
        } else {
            None
        },
        None => None,
    }
}

/// The day that a text names, counted from 1970-01-01: year, month and
/// day in its first three parts between dashes. A day that the month does
/// not have names none.
pub open spec fn day_named(s: Seq<char>) -> Option<int> {
    let parts = text::split_on(s, '-');
    if parts.len() < 3 {
        None
    } else {
        match (date_number(parts[0]), date_number(parts[1]), date_number(parts[2])) {
            (Some(y), Some(m), Some(d)) => if is_date(y, m, d) {
                Some(day_count(y, m, d))
            } else {
                None
            },
            _ => None,
        }
    }
}

fn length_of(year: i128, month: i128) -> (r: i128)
    requires
        0 <= year,
        1 <= month <= 12,
    ensures
        r == month_length(year as int, month as int),
{
    if month == 2 {
        if year % 4 == 0 && (year % 100 != 0 || year % 400 == 0) {
            29
        } else {
            28
        }
    } else if month == 4 || month == 6 || month == 9 || month == 11 {
        30
    } else {
        31
    }
}

/// A date as a day count (only differences are used, so any epoch does).
pub fn day_number(date: &str) -> (r: Option<i128>)
    ensures
        match r {
            Some(n) => day_named(date@) == Some(n as int) && -800_000 <= n <= 400 * 0x8000_0000_0000_0000,
            None => day_named(date@) is None,
        },
{
    let chars = text::chars_of(date);
    let parts = text::split(&chars, '-');
    let ghost all = text::split_on(date@, '-');
    proof {
        assert(text::deep(parts@).len() == parts@.len());
    }
    if parts.len() < 3 {
        return None;
    }
    proof {
        assert(all[0] == parts@[0]@ && all[1] == parts@[1]@ && all[2] == parts@[2]@);
    }
    let (year, month, day): (i128, i128, i128) = match (
        text::parse_number(&parts[0], i64::MAX as u64),
        text::parse_number(&parts[1], i64::MAX as u64),
        text::parse_number(&parts[2], i64::MAX as u64),
    ) {
        (Some(y), Some(m), Some(d)) => (y as i128, m as i128, d as i128),
        _ => {
            return None;
        },
    };
    if !(1 <= month && month <= 12) || !(1 <= day && day <= length_of(year, month)) {
        return None;
    }
    // civil to days (Howard Hinnant's algorithm)
    let (year, mp): (i128, i128) = if month > 2 {
        (year, month - 3)
    } else {
        (year - 1, month + 9)
    };
    let doy: i128 = (153 * mp + 2) / 5 + day - 1;
    let shifted: i128 = year + 400;
    let leaps: i128 = shifted / 4 - shifted / 100 + shifted / 400 - 97;
    let count: i128 = 365 * year + leaps + doy - 719_468;
    proof {
        let y: int = if month > 2 {
            year as int
        } else {
            year + 1
        };
        lemma_years(y);
        assert(shifted / 4 == year as int / 4 + 100);
        assert(shifted / 100 == year as int / 100 + 4);
        assert(shifted / 400 == year as int / 400 + 1);
        if month == 1 {
        } else if month == 2 {
        } else if month == 3 {
        } else if month == 4 {
        } else if month == 5 {
        } else if month == 6 {
        } else if month == 7 {
        } else if month == 8 {
        } else if month == 9 {
        } else if month == 10 {
        } else if month == 11 {
        } else {
        }
        assert(count == day_count(y, month as int, day as int));
    }
    Some(count)
}

/// Days between two `YYYY-MM-DD` dates, or `None` if either isn't one.
pub fn days_between(from: &str, to: &str) -> (r: Option<i128>)
    ensures
        match (day_named(from@), day_named(to@)) {
            (Some(a), Some(b)) => r matches Some(n) && n == b - a,
            _ => r is None,
        },
{
    match (day_number(to), day_number(from)) {
        (Some(b), Some(a)) => Some(b - a),
        _ => None,
    }
}

proof fn lemma_year_order(a: int, b: int)
    requires
        a < b,
    ensures
        365 * a + (a - 1) / 4 - (a - 1) / 100 + (a - 1) / 400 + 365 + (if is_leap(a) {
            1int
        } else {
            0int
        }) <= 365 * b + (b - 1) / 4 - (b - 1) / 100 + (b - 1) / 400,
    decreases b - a,
{
    if b > a + 1 {
        lemma_year_order(a, b - 1);
    }
}

/// Days are counted in the order of the calendar: a later date has the
/// greater count.
pub proof fn law_days_in_order(y1: int, m1: int, d1: int, y2: int, m2: int, d2: int)
    requires
        is_date(y1, m1, d1),
        is_date(y2, m2, d2),
        y1 < y2 || (y1 == y2 && (m1 < m2 || (m1 == m2 && d1 < d2))),
    ensures
        day_count(y1, m1, d1) < day_count(y2, m2, d2),
{
    if y1 < y2 {
        lemma_year_order(y1, y2);
    }
}

/// A day count belongs to one date only.
pub proof fn law_one_date_per_day(y1: int, m1: int, d1: int, y2: int, m2: int, d2: int)
    requires
        is_date(y1, m1, d1),
        is_date(y2, m2, d2),
        day_count(y1, m1, d1) == day_count(y2, m2, d2),
    ensures
        y1 == y2,
        m1 == m2,
        d1 == d2,
{
    if y1 < y2 || (y1 == y2 && (m1 < m2 || (m1 == m2 && d1 < d2))) {
        law_days_in_order(y1, m1, d1, y2, m2, d2);
    } else if !(y1 == y2 && m1 == m2 && d1 == d2) {
        law_days_in_order(y2, m2, d2, y1, m1, d1);
    }
}

proof fn lemma_zeros(zeros: nat, digits: Seq<char>)
    requires
        text::all_digits(digits),
    ensures
        text::all_digits(Seq::new(zeros, |i: int| '0') + digits),
        text::digits_value(Seq::new(zeros, |i: int| '0') + digits) == text::digits_value(digits),
    decreases digits.len(),
{
    let front = Seq::new(zeros, |i: int| '0');
    let s = front + digits;
    assert forall|i: int| 0 <= i < s.len() implies text::is_digit(#[trigger] s[i]) by {
        if i >= zeros {
            assert(s[i] == digits[i - zeros]);
        }
    }
    assert(s.drop_last() =~= front + digits.drop_last());
    assert(s.last() == digits.last());
    if digits.len() > 1 {
        let rest = digits.drop_last();
        assert forall|i: int| 0 <= i < rest.len() implies text::is_digit(#[trigger] rest[i]) by {
            assert(rest[i] == digits[i]);
        }
        lemma_zeros(zeros, rest);
    } else {
        assert(digits.drop_last() =~= Seq::empty());
        assert(s.drop_last() =~= front);
        lemma_only_zeros(zeros);
    }
}

proof fn lemma_only_zeros(n: nat)
    ensures
        text::digits_value(Seq::new(n, |i: int| '0')) == 0,
    decreases n,
{
    let s = Seq::new(n, |i: int| '0');
    if n > 0 {
        assert(s.drop_last() =~= Seq::new((n - 1) as nat, |i: int| '0'));
        lemma_only_zeros((n - 1) as nat);
    }
}

proof fn lemma_padded(n: nat, width: int)
    ensures
        text::all_digits(padded(n, width)),
        text::number_of(padded(n, width)) == Some(n as int),
{
    text::lemma_decimal(n);
    let digits = text::decimal(n);
    if digits.len() < width {
        lemma_zeros((width - digits.len()) as nat, digits);
    }
    assert(text::is_digit(padded(n, width)[0]));
}

proof fn lemma_split_first(a: Seq<char>, rest: Seq<char>, c: char)
    requires
        !a.contains(c),
    ensures
        text::split_on(a.push(c) + rest, c) == seq![a] + text::split_on(rest, c),
{
    let s = a.push(c) + rest;
    assert forall|j: int| 0 <= j < a.len() implies s[j] != c by {
        assert(a.contains(a[j]));
    }
    text::lemma_first_at_is(s, c, a.len() as int);
    assert(s.take(a.len() as int) =~= a);
    assert(s.skip(a.len() as int + 1) =~= rest);
}

/// A date as it is written reads back as that day.
pub proof fn law_date_reads_back(year: int, month: int, day: int)
    requires
        is_date(year, month, day),
        0 <= year <= i64::MAX,
    ensures
        day_named(date_text(year, month, day)) == Some(day_count(year, month, day)),
{
    let y = padded(year as nat, 4);
    let m = padded(month as nat, 2);
    let d = padded(day as nat, 2);
    lemma_padded(year as nat, 4);
    lemma_padded(month as nat, 2);
    lemma_padded(day as nat, 2);
    assert forall|p: Seq<char>| text::all_digits(p) implies !#[trigger] p.contains('-') by {
        if p.contains('-') {
            let i = choose|i: int| 0 <= i < p.len() && p[i] == '-';
            assert(text::is_digit(p[i]));
        }
    }
    assert(!y.contains('-') && !m.contains('-') && !d.contains('-'));
    assert(date_text(year, month, day) =~= y.push('-') + (m.push('-') + d));
    lemma_split_first(y, m.push('-') + d, '-');
    lemma_split_first(m, d, '-');
    text::lemma_first_at(d, '-');
    match text::first_at(d, '-') {
        Some(i) => {
            assert(text::is_digit(d[i]));
        },
        None => {},
    }
    assert(text::split_on(date_text(year, month, day), '-') =~= seq![y, m, d]);
}

/// Leap years and the lengths of months.
pub proof fn law_months(year: int)
    ensures
        is_leap(year) <==> (year % 400 == 0 || (year % 4 == 0 && year % 100 != 0)),
        month_length(year, 1) == 31 && month_length(year, 3) == 31 && month_length(year, 5) == 31 && month_length(year, 7) == 31
            && month_length(year, 8) == 31 && month_length(year, 10) == 31 && month_length(year, 12) == 31,
        month_length(year, 4) == 30 && month_length(year, 6) == 30 && month_length(year, 9) == 30 && month_length(year, 11) == 30,
        year % 400 == 0 || (year % 4 == 0 && year % 100 != 0) ==> month_length(year, 2) == 29,
        !(year % 400 == 0 || (year % 4 == 0 && year % 100 != 0)) ==> month_length(year, 2) == 28,
{
}

/// How many years that a number divides lie before a year and the next.
#[verifier::spinoff_prover]
#[verifier::rlimit(100)]
proof fn lemma_divided_years(year: int)
    ensures
        year / 4 - (year - 1) / 4 == (if year % 4 == 0 {
            1int
        } else {
            0
        }),
        year / 100 - (year - 1) / 100 == (if year % 100 == 0 {
            1int
        } else {
            0
        }),
        year / 400 - (year - 1) / 400 == (if year % 400 == 0 {
            1int
        } else {
            0
        }),
{
}

#[verifier::spinoff_prover]
proof fn lemma_leap_years(year: int)
    ensures
        is_leap(year) <==> (year % 4 == 0 && year % 100 != 0) || year % 400 == 0,
        year % 400 == 0 ==> year % 100 == 0,
        year % 100 == 0 ==> year % 4 == 0,
{
    vstd::arithmetic::div_mod::lemma_mod_mod(year, 100, 4);
    vstd::arithmetic::div_mod::lemma_mod_mod(year, 4, 25);
}

#[verifier::spinoff_prover]
#[verifier::rlimit(100)]
proof fn lemma_next_year(year: int)
    ensures
        day_count(year + 1, 1, 1) == day_count(year, 12, 31) + 1,
{
    lemma_divided_years(year);
    lemma_leap_years(year);
    let before = year - 1;
    let (a, b, c) = (year / 4, year / 100, year / 400);
    let (d, e, f) = (before / 4, before / 100, before / 400);
    let leap: int = if is_leap(year) {
        1
    } else {
        0
    };
    assert(a - d - (b - e) + (c - f) == leap);
    assert(day_count(year + 1, 1, 1) == 365 * (year + 1) + a - b + c - 719_527);
    assert(day_count(year, 12, 31) == 365 * year + d - e + f + 334 + leap + 31 - 1 - 719_527);
}

proof fn lemma_next_month(year: int, month: int)
    requires
        1 <= month < 12,
    ensures
        day_count(year, month + 1, 1) == day_count(year, month, month_length(year, month)) + 1,
{
    let leap = is_leap(year);
    assert(days_before(month + 1) + (if month + 1 > 2 && leap {
        1int
    } else {
        0
    }) == days_before(month) + (if month > 2 && leap {
        1int
    } else {
        0
    }) + month_length(year, month));
}

/// Days are counted from the first of January 1970, one by one: to the next
/// day of a month, to the first of the next month, and to the next year.
#[verifier::spinoff_prover]
#[verifier::rlimit(100)]
pub proof fn law_days_one_by_one(year: int, month: int, day: int)
    requires
        is_date(year, month, day),
    ensures
        day_count(1970, 1, 1) == 0,
        is_date(year, month, day + 1) ==> day_count(year, month, day + 1) == day_count(year, month, day) + 1,
        day == month_length(year, month) && month < 12 ==> day_count(year, month + 1, 1) == day_count(year, month, day) + 1,
        day == month_length(year, month) && month == 12 ==> day_count(year + 1, 1, 1) == day_count(year, month, day) + 1,
{
    if day == month_length(year, month) {
        if month < 12 {
            lemma_next_month(year, month);
        } else {
            lemma_next_year(year);
        }
    }
    assert(1969int / 4 == 492 && 1969int / 100 == 19 && 1969int / 400 == 4);
}

/// Numbers are filled up with zeros in front, dates and times written with
/// them.
pub proof fn law_padding(n: nat, year: nat, month: nat, day: nat, h: int, m: int, s: int)
    requires
        0 <= h && 0 <= m < 60 && 0 <= s < 60,
    ensures
        n < 10 ==> padded(n, 2) == seq!['0'] + text::decimal(n),
        10 <= n < 100 ==> padded(n, 2) == text::decimal(n),
        text::decimal(n).len() >= 4 ==> padded(n, 4) == text::decimal(n),
        text::decimal(n).len() == 3 ==> padded(n, 4) == seq!['0'] + text::decimal(n),
        text::decimal(n).len() == 1 ==> padded(n, 4) == seq!['0', '0', '0'] + text::decimal(n),
        date_text(year as int, month as int, day as int) == padded(year, 4) + seq!['-'] + padded(month, 2) + seq!['-'] + padded(day, 2),
        time_text(3600 * h + 60 * m + s) == padded(h as nat, 2) + seq![':'] + padded(m as nat, 2) + seq![':'] + padded(s as nat, 2),
{
    if n < 10 {
        assert(text::decimal(n).len() == 1);
        assert(padded(n, 2) =~= seq!['0'] + text::decimal(n));
    }
    if 10 <= n < 100 {
        assert(text::decimal(n / 10).len() == 1);
        assert(text::decimal(n).len() == 2);
    }
    if text::decimal(n).len() == 3 {
        assert(padded(n, 4) =~= seq!['0'] + text::decimal(n));
    }
    if text::decimal(n).len() == 1 {
        assert(padded(n, 4) =~= seq!['0', '0', '0'] + text::decimal(n));
    }
    assert(date_text(year as int, month as int, day as int) =~= padded(year, 4) + seq!['-'] + padded(month, 2) + seq!['-']
        + padded(day, 2));
    let all = 3600 * h + 60 * m + s;
    assert(all / 3600 == h);
    assert(all / 60 == 60 * h + m);
    assert(all / 60 % 60 == m);
    assert(all % 60 == s);
    assert(time_text(all) =~= padded(h as nat, 2) + seq![':'] + padded(m as nat, 2) + seq![':'] + padded(s as nat, 2));
}

/// What is no year, month and day with dashes between them is no date, and
/// neither is a day that its month hasn't.
pub proof fn law_what_is_no_date(s: Seq<char>)
    ensures
        (forall|i: int| 0 <= i < s.len() ==> s[i] != '-') ==> day_named(s) is None,
        day_named(s) matches Some(n) ==> exists|y: int, m: int, d: int| #[trigger] day_count(y, m, d) == n && 1 <= m <= 12 && 1 <= d
            && d <= month_length(y, m) && 0 <= y,
{
    if forall|i: int| 0 <= i < s.len() ==> s[i] != '-' {
        text::law_splitting(s, '-', Seq::empty());
    }
    if day_named(s) is Some {
        let parts = text::split_on(s, '-');
        let (y, m, d) = (date_number(parts[0])->0, date_number(parts[1])->0, date_number(parts[2])->0);
        lemma_number_is_whole(parts[0]);
        assert(day_count(y, m, d) == day_named(s)->0);
    }
}

proof fn lemma_number_is_whole(s: Seq<char>)
    ensures
        text::number_of(s) matches Some(n) ==> n >= 0,
{
    if text::number_of(s) is Some {
        let d = if s.len() > 0 && s.first() == '+' {
            s.skip(1)
        } else {
            s
        };
        lemma_digits_whole(d);
    }
}

proof fn lemma_digits_whole(d: Seq<char>)
    requires
        forall|i: int| 0 <= i < d.len() ==> text::is_digit(#[trigger] d[i]),
    ensures
        text::digits_value(d) >= 0,
    decreases d.len(),
{
    if d.len() > 0 {
        let front = d.drop_last();
        assert forall|i: int| 0 <= i < front.len() implies text::is_digit(#[trigger] front[i]) by {
            assert(front[i] == d[i]);
        }
        lemma_digits_whole(front);
        assert(text::is_digit(d[d.len() - 1]));
    }
}

} // verus!
