//! What holds of the calendar: how many days there are, and which one a moment is on.

use vstd::prelude::*;

use crate::calendar::day_number;
use crate::calendar::days_before_month;
use crate::calendar::days_before_year;
use crate::calendar::leap;
use crate::calendar::month_days;
use crate::calendar::on_date;
use crate::calendar::stamp;
use crate::calendar::valid;
use crate::calendar::year_days;
use crate::calendar::DAY;
use crate::calendar::Date;
use crate::text::padded;

verus! {

/// A year is a leap year where four divides it, unless a hundred does and four hundred doesn't;
/// its months have the days that make up 366 or 365.
pub proof fn lemma_years_have_days(year: nat)
    ensures
        year_days(year) == 366 <==> leap(year),
        year_days(year) == 365 <==> !leap(year),
        leap(year) <==> (year % 4 == 0 && year % 100 != 0) || year % 400 == 0,
        days_before_month(year, 13) == year_days(year),
        month_days(year, 1) == 31 && month_days(year, 3) == 31 && month_days(year, 5) == 31
            && month_days(year, 7) == 31 && month_days(year, 8) == 31 && month_days(year, 10) == 31
            && month_days(year, 12) == 31,
        month_days(year, 4) == 30 && month_days(year, 6) == 30 && month_days(year, 9) == 30
            && month_days(year, 11) == 30,
        month_days(year, 2) == if leap(year) {
            29nat
        } else {
            28
        },
{
    reveal_with_fuel(days_before_month, 14);
}

/// The days before a year are those of the years before it: 365 of each and one for every leap
/// year, of which every fourth is one, all but three of four centuries.
pub proof fn lemma_days_before_years(year: nat)
    ensures
        days_before_year(year) == 365 * year + (year + 3) / 4 - (year + 99) / 100 + (year + 399)
            / 400,
    decreases year,
{
    if year > 0 {
        let before = (year - 1) as nat;
        lemma_days_before_years(before);
        assert(year % 4 == 1 ==> (year + 3) / 4 == (before + 3) / 4 + 1);
        assert(year % 4 != 1 ==> (year + 3) / 4 == (before + 3) / 4);
        assert(year % 100 == 1 ==> (year + 99) / 100 == (before + 99) / 100 + 1);
        assert(year % 100 != 1 ==> (year + 99) / 100 == (before + 99) / 100);
        assert(year % 400 == 1 ==> (year + 399) / 400 == (before + 399) / 400 + 1);
        assert(year % 400 != 1 ==> (year + 399) / 400 == (before + 399) / 400);
        assert(before % 4 == 0 <==> year % 4 == 1);
        assert(before % 100 == 0 <==> year % 100 == 1);
        assert(before % 400 == 0 <==> year % 400 == 1);
    }
}

/// Days are counted from the first of 1970, one after the other: within a month, over the end of
/// a month, and over the end of a year.
pub proof fn lemma_days_are_counted(date: Date)
    requires
        valid(date),
        date.year < u64::MAX,
    ensures
        date == (Date { year: 1970, month: 1, day: 1 }) ==> day_number(date) == 0,
        date.day < month_days(date.year as nat, date.month as nat) ==> day_number(
            Date { day: (date.day + 1) as u64, ..date },
        ) == day_number(date) + 1,
        date.day == month_days(date.year as nat, date.month as nat) && date.month < 12
            ==> day_number(Date { month: (date.month + 1) as u64, day: 1, ..date }) == day_number(
            date,
        ) + 1,
        date.day == 31 && date.month == 12 ==> day_number(
            Date { year: (date.year + 1) as u64, month: 1, day: 1 },
        ) == day_number(date) + 1,
{
    lemma_days_before_years(1970);
    lemma_years_have_days(date.year as nat);
    reveal_with_fuel(days_before_month, 14);
}

/// The day of a moment is the number of whole days before it.
pub proof fn lemma_moments_have_their_day(date: Date, millis: u64)
    ensures
        on_date(date, millis) <==> 1 <= date.month <= 12 && 1 <= date.day <= month_days(
            date.year as nat,
            date.month as nat,
        ) && day_number(date) * 86_400_000 <= millis < (day_number(date) + 1) * 86_400_000,
{
    let days = (millis / 1000 / DAY) as int;
    assert(days * 86_400_000 <= millis < (days + 1) * 86_400_000);
}

/// A moment reads as its date and as the hours, minutes, seconds and thousandths that have
/// passed of its day.
pub proof fn lemma_moments_read_as_date_and_time(
    date: Date,
    millis: u64,
    hours: nat,
    mins: nat,
    secs: nat,
    thousandths: nat,
)
    requires
        mins < 60,
        secs < 60,
        thousandths < 1000,
        hours < 24,
        millis as nat % 86_400_000 == ((hours * 60 + mins) * 60 + secs) * 1000 + thousandths,
    ensures
        stamp(date, millis) == padded(date.year as nat, 4) + "-"@ + padded(date.month as nat, 2)
            + "-"@ + padded(date.day as nat, 2) + "T"@ + padded(hours, 2) + ":"@ + padded(mins, 2)
            + ":"@ + padded(secs, 2) + "."@ + padded(thousandths, 3) + "000Z"@,
{
    reveal_strlit("-");
    reveal_strlit("T");
    reveal_strlit(":");
    reveal_strlit(".");
    assert("-"@ =~= seq!['-']);
    assert("T"@ =~= seq!['T']);
    assert(":"@ =~= seq![':']);
    assert("."@ =~= seq!['.']);
    let of_day: nat = (hours * 60 + mins) * 60 + secs;
    let days: nat = millis as nat / 86_400_000;
    assert(millis == days * 86_400_000 + of_day * 1000 + thousandths);
    assert(millis / 1000 == days * 86_400 + of_day);
    assert((millis / 1000) % DAY == of_day);
    assert(millis % 1000 == thousandths);
    assert(of_day / 3600 == hours);
    assert(of_day % 3600 / 60 == mins);
    assert(of_day % 60 == secs);
}

} // verus!
