//! The Gregorian calendar: which day a number of days since 1970 is.

use vstd::prelude::*;

use crate::text::padded;
use crate::text::padded_text;

verus! {

/// Seconds of a day.
pub const DAY: u64 = 86_400;

/// The days from the first day of the year 0 to the first of 1970.
pub const EPOCH_DAYS: u64 = 719_528;

pub open spec fn leap(year: nat) -> bool {
    year % 4 == 0 && (year % 100 != 0 || year % 400 == 0)
}

/// How many days a month has.
pub open spec fn month_days(year: nat, month: nat) -> nat {
    if month == 2 {
        if leap(year) {
            29
        } else {
            28
        }
    } else if month == 4 || month == 6 || month == 9 || month == 11 {
        30
    } else {
        31
    }
}

/// The days of a year that are before a month.
pub open spec fn days_before_month(year: nat, month: nat) -> nat
    decreases month,
{
    if month <= 1 {
        0
    } else {
        days_before_month(year, (month - 1) as nat) + month_days(year, (month - 1) as nat)
    }
}

/// How many days a year has.
pub open spec fn year_days(year: nat) -> nat {
    if leap(year) {
        366
    } else {
        365
    }
}

/// The days since the first of the year 0 that are before a year.
pub open spec fn days_before_year(year: nat) -> nat
    decreases year,
{
    if year == 0 {
        0
    } else {
        days_before_year((year - 1) as nat) + year_days((year - 1) as nat)
    }
}

/// A day of the calendar.
#[derive(Debug, Clone, Copy, PartialEq, Eq, Structural)]
pub struct Date {
    pub year: u64,
    pub month: u64,
    pub day: u64,
}

/// Whether a date is in the calendar.
pub open spec fn valid(date: Date) -> bool {
    1 <= date.month <= 12 && 1 <= date.day <= month_days(date.year as nat, date.month as nat)
}

/// The number of a date's day, counted from 1970-01-01.
pub open spec fn day_number(date: Date) -> int {
    days_before_year(date.year as nat) + days_before_month(date.year as nat, date.month as nat)
        + date.day - 1 - EPOCH_DAYS
}

/// How many of the first `y` numbers, from 0 on, are multiples of `n`.
#[verifier::opaque]
spec fn multiples(y: nat, n: nat) -> nat {
    (y + n - 1) as nat / n
}

proof fn lemma_multiples(p: nat, n: nat)
    requires
        n > 0,
    ensures
        multiples(p + 1, n) == multiples(p, n) + (if p % n == 0 {
            1nat
        } else {
            0nat
        }),
{
    reveal(multiples);
    let q = p / n;
    let r = p % n;
    assert(p == n * q + r && 0 <= r < n) by (nonlinear_arith)
        requires
            n > 0,
            q == p / n,
            r == p % n,
    ;
    assert((p + n) / n == q + 1) by (nonlinear_arith)
        requires
            n > 0,
            p == n * q + r,
            0 <= r < n,
    ;
    if r == 0 {
        assert((p + n - 1) as nat / n == q) by (nonlinear_arith)
            requires
                n > 0,
                p == n * q,
        ;
    } else {
        assert((p + n - 1) as nat / n == q + 1) by (nonlinear_arith)
            requires
                n > 0,
                p == n * q + r,
                1 <= r < n,
        ;
    }
}

proof fn lemma_leap(p: nat)
    ensures
        p % 400 == 0 ==> p % 100 == 0,
        p % 100 == 0 ==> p % 4 == 0,
{
}

/// The days before a year, by the count of leap years before it.
proof fn lemma_days_before_year(year: nat)
    ensures
        days_before_year(year) == 365 * year + multiples(year, 4) - multiples(year, 100)
            + multiples(year, 400),
    decreases year,
{
    if year > 0 {
        let p = (year - 1) as nat;
        lemma_days_before_year(p);
        lemma_multiples(p, 4);
        lemma_multiples(p, 100);
        lemma_multiples(p, 400);
        lemma_leap(p);
    } else {
        reveal(multiples);
    }
}

proof fn lemma_days_before_month(year: nat)
    ensures
        days_before_month(year, 1) == 0,
        days_before_month(year, 2) == 31,
        days_before_month(year, 3) == 59 + (if leap(year) {
            1int
        } else {
            0
        }),
        forall|m: nat| #![trigger days_before_month(year, m)]
            3 <= m <= 12 ==> days_before_month(year, m) == days_before_month(year, 3) + (153 * (m
                - 3) + 2) / 5,
{
    assert forall|m: nat| #![trigger days_before_month(year, m)] 3 <= m <= 12 implies
        days_before_month(year, m) == days_before_month(year, 3) + (153 * (m - 3) + 2) / 5 by {
        reveal_with_fuel(days_before_month, 13);
        assert(m == 3 || m == 4 || m == 5 || m == 6 || m == 7 || m == 8 || m == 9 || m == 10 || m
            == 11 || m == 12);
    }
    reveal_with_fuel(days_before_month, 4);
}

/// What the year of a day within 400 years is, when years begin in March.
proof fn lemma_year_of_era(doe: int)
    requires
        0 <= doe <= 146_096,
    ensures
        ({
            let yoe = (doe - doe / 1460 + doe / 36_524 - doe / 146_096) / 365;
            let doy = doe - (365 * yoe + yoe / 4 - yoe / 100);
            &&& 0 <= yoe <= 399
            &&& 0 <= doy <= 365
            &&& doy == 365 ==> (yoe + 1) % 4 == 0 && ((yoe + 1) % 100 != 0 || yoe == 399)
        }),
{
}

/// The days from the first of March of the year 0 to that of a year.
spec fn march(year: nat) -> int {
    365 * year + year / 4 - year / 100 + year / 400
}

proof fn lemma_march(year: nat)
    ensures
        days_before_year(year) + year_days(year) == march(year) + 366,
{
    lemma_days_before_year(year);
    lemma_days_before_year(year + 1);
    lemma_multiples_above(year, 4);
    lemma_multiples_above(year, 100);
    lemma_multiples_above(year, 400);
}

proof fn lemma_multiples_above(y: nat, n: nat)
    requires
        n > 0,
    ensures
        multiples(y + 1, n) == y / n + 1,
{
    reveal(multiples);
    assert((y + n) / n == y / n + 1) by (nonlinear_arith)
        requires
            n > 0,
    ;
}

/// 400 years are 146097 days, wherever they begin.
proof fn lemma_eras(era: nat, yoe: nat)
    requires
        yoe < 400,
    ensures
        march(400 * era + yoe) == 146_097 * era + 365 * yoe + yoe / 4 - yoe / 100,
        leap(400 * era + yoe) == leap(yoe),
{
    let year = 400 * era + yoe;
    assert(year / 4 == 100 * era + yoe / 4);
    assert(year / 100 == 4 * era + yoe / 100);
    assert(year / 400 == era);
    assert(year % 4 == yoe % 4);
    assert(year % 100 == yoe % 100);
    assert(year % 400 == yoe % 400);
}

/// The month, counted from March, and the day of a year that begins in March.
proof fn lemma_month_of_year(doy: int)
    requires
        0 <= doy <= 365,
    ensures
        ({
            let mp = (5 * doy + 2) / 153;
            let first = (153 * mp + 2) / 5;
            &&& 0 <= mp <= 11
            &&& first <= doy
            &&& mp < 11 ==> doy < (153 * (mp + 1) + 2) / 5
        }),
{
}

proof fn lemma_month_lengths(year: nat, mp: nat)
    requires
        mp <= 10,
    ensures
        (153 * (mp + 1) + 2) / 5 - (153 * mp + 2) / 5 == month_days(
            year,
            if mp < 10 {
                mp + 3
            } else {
                1
            },
        ),
{
    assert(mp == 0 || mp == 1 || mp == 2 || mp == 3 || mp == 4 || mp == 5 || mp == 6 || mp == 7
        || mp == 8 || mp == 9 || mp == 10);
}

/// The date of the day that is `days` after 1970-01-01.
pub fn date_of(days: u64) -> (r: Date)
    requires
        days <= 0x1_0000_0000_0000,
    ensures
        valid(r),
        day_number(r) == days,
{
    let z: u64 = days + 719_468;
    let era: u64 = z / 146_097;
    let doe: u64 = z % 146_097;
    proof {
        lemma_year_of_era(doe as int);
    }
    let yoe: u64 = (doe - doe / 1460 + doe / 36_524 - doe / 146_096) / 365;
    let doy: u64 = doe - (365 * yoe + yoe / 4 - yoe / 100);
    proof {
        lemma_month_of_year(doy as int);
    }
    let mp: u64 = (5 * doy + 2) / 153;
    let day: u64 = doy - (153 * mp + 2) / 5 + 1;
    let march_year: u64 = yoe + era * 400;
    let month: u64 = if mp < 10 {
        mp + 3
    } else {
        mp - 9
    };
    let year: u64 = if month <= 2 {
        march_year + 1
    } else {
        march_year
    };
    let r = Date { year, month, day };
    proof {
        let y = march_year as nat;
        lemma_eras(era as nat, yoe as nat);
        lemma_march(y);
        assert(z == march(y) + doy);
        if mp <= 10 {
            lemma_month_lengths(year as nat, mp as nat);
        }
        if month > 2 {
            lemma_days_before_month(y);
            assert(days_before_month(y, month as nat) == days_before_month(y, 3) + (153 * mp + 2)
                / 5);
        } else {
            lemma_days_before_month(y + 1);
            assert(days_before_year(y + 1) == march(y) + 366);
            if doy == 365 {
                assert(leap((yoe + 1) as nat));
                if yoe == 399 {
                    lemma_eras((era + 1) as nat, 0);
                    assert(400 * (era + 1) + 0 == y + 1);
                } else {
                    lemma_eras(era as nat, (yoe + 1) as nat);
                }
                assert(leap(y + 1));
            }
        }
    }
    r
}

/// A moment as text: the date, the time of day, and thousandths of a second written to six
/// places, in UTC.
pub open spec fn stamp(date: Date, millis: u64) -> Seq<char> {
    let secs = (millis / 1000) % DAY;
    padded(date.year as nat, 4) + seq!['-'] + padded(date.month as nat, 2) + seq!['-'] + padded(
        date.day as nat,
        2,
    ) + seq!['T'] + padded((secs / 3600) as nat, 2) + seq![':'] + padded(
        (secs % 3600 / 60) as nat,
        2,
    ) + seq![':'] + padded((secs % 60) as nat, 2) + seq!['.'] + padded((millis % 1000) as nat, 3)
        + "000Z"@
}

/// Whether `date` is the day of a moment in unix milliseconds.
pub open spec fn on_date(date: Date, millis: u64) -> bool {
    valid(date) && day_number(date) == millis / 1000 / DAY
}

/// The day of a moment in unix milliseconds.
pub open spec fn date_at(millis: u64) -> Date {
    choose|date: Date| on_date(date, millis)
}

/// `2026-09-26T07:44:24.327000Z` for unix milliseconds (the shape of log timestamps).
pub fn rfc3339(millis: u64) -> (r: String)
    ensures
        on_date(date_at(millis), millis),
        r@ == stamp(date_at(millis), millis),
{
    let all_secs: u64 = millis / 1000;
    let date = date_of(all_secs / DAY);
    let secs: u64 = all_secs % DAY;
    let mut out = padded_text(date.year, 4);
    out.push('-');
    let month = padded_text(date.month, 2);
    out.append(month.as_str());
    out.push('-');
    let day = padded_text(date.day, 2);
    out.append(day.as_str());
    out.push('T');
    let hour = padded_text(secs / 3600, 2);
    out.append(hour.as_str());
    out.push(':');
    let minute = padded_text(secs % 3600 / 60, 2);
    out.append(minute.as_str());
    out.push(':');
    let second = padded_text(secs % 60, 2);
    out.append(second.as_str());
    out.push('.');
    let thousandths = padded_text(millis % 1000, 3);
    out.append(thousandths.as_str());
    out.append("000Z");
    proof {
        assert(on_date(date, millis));
        lemma_each_day_has_one_date(date, date_at(millis));
        assert(out@ =~= stamp(date, millis));
    }
    out
}

// ---------------------------------------------------------------------------------------
// What holds of every date
// ---------------------------------------------------------------------------------------

proof fn lemma_years_ascend(a: nat, b: nat)
    requires
        a < b,
    ensures
        days_before_year(a) + year_days(a) <= days_before_year(b),
    decreases b,
{
    if a + 1 < b {
        lemma_years_ascend(a, (b - 1) as nat);
    }
}

proof fn lemma_months_ascend(year: nat, a: nat, b: nat)
    requires
        1 <= a < b,
    ensures
        days_before_month(year, a) + month_days(year, a) <= days_before_month(year, b),
    decreases b,
{
    if a + 1 < b {
        lemma_months_ascend(year, a, (b - 1) as nat);
    }
}

proof fn lemma_within_year(date: Date)
    requires
        valid(date),
    ensures
        days_before_month(date.year as nat, date.month as nat) + date.day <= year_days(
            date.year as nat,
        ),
{
    let year = date.year as nat;
    lemma_days_before_month(year);
    assert(days_before_month(year, 12) + month_days(year, 12) == year_days(year));
    if date.month < 12 {
        lemma_months_ascend(year, date.month as nat, 12);
    }
}

/// No two dates are the same day: the calendar numbers each day once.
pub proof fn lemma_each_day_has_one_date(a: Date, b: Date)
    requires
        valid(a),
        valid(b),
        day_number(a) == day_number(b),
    ensures
        a == b,
{
    lemma_within_year(a);
    lemma_within_year(b);
    if a.year < b.year {
        lemma_years_ascend(a.year as nat, b.year as nat);
    } else if b.year < a.year {
        lemma_years_ascend(b.year as nat, a.year as nat);
    } else if a.month < b.month {
        lemma_months_ascend(a.year as nat, a.month as nat, b.month as nat);
    } else if b.month < a.month {
        lemma_months_ascend(a.year as nat, b.month as nat, a.month as nat);
    }
}

} // verus!
