//! Unix timestamps as proleptic Gregorian dates in UTC.
use crate::text::{digit, digit_text};
use vstd::prelude::*;

verus! {

/// Gregorian leap years: divisible by 4 and not by 100, or divisible by 400.
pub open spec fn leap(y: nat) -> bool {
    (y % 4 == 0 && y % 100 != 0) || y % 400 == 0
}

/// Days in year `y`.
pub open spec fn year_length(y: nat) -> nat {
    if leap(y) {
        366
    } else {
        365
    }
}

/// Days in month `m` (1 to 12) of year `y`.
pub open spec fn month_length(y: nat, m: nat) -> nat {
    if m == 2 {
        if leap(y) {
            29
        } else {
            28
        }
    } else if m == 4 || m == 6 || m == 9 || m == 11 {
        30
    } else {
        31
    }
}

/// Days from 1970-01-01 to the first day of year `y`.
pub open spec fn days_before_year(y: nat) -> nat
    decreases y,
{
    if y <= 1970 {
        0
    } else {
        days_before_year((y - 1) as nat) + year_length((y - 1) as nat)
    }
}

/// Days from the first day of year `y` to the first day of its month `m`.
pub open spec fn days_before_month(y: nat, m: nat) -> nat
    decreases m,
{
    if m <= 1 {
        0
    } else {
        days_before_month(y, (m - 1) as nat) + month_length(y, (m - 1) as nat)
    }
}

/// `(y, m, d)` is the date `days` days after 1970-01-01.
pub open spec fn is_date_of(days: nat, y: nat, m: nat, d: nat) -> bool {
    &&& y >= 1970
    &&& 1 <= m <= 12
    &&& 1 <= d <= month_length(y, m)
    &&& days_before_year(y) + days_before_month(y, m) + d - 1 == days
}

/// A number below 100 as two digits.
pub open spec fn two_digits(n: nat) -> Seq<char> {
    seq![digit(n / 10), digit(n)]
}

/// A number below 10000 as four digits.
pub open spec fn four_digits(n: nat) -> Seq<char> {
    seq![digit(n / 1000), digit(n / 100), digit(n / 10), digit(n)]
}

/// The text of a date and time: `YYYY-MM-DD HH:MM:SS UTC`.
pub open spec fn stamp_text(y: nat, mo: nat, d: nat, h: nat, mi: nat, s: nat) -> Seq<char> {
    four_digits(y) + "-"@ + two_digits(mo) + "-"@ + two_digits(d) + " "@ + two_digits(h) + ":"@
        + two_digits(mi) + ":"@ + two_digits(s) + " UTC"@
}

/// A year starts at least 365 days per year after 1970.
proof fn lemma_days_before_year_grows(y: nat)
    ensures
        y >= 1970 ==> days_before_year(y) >= 365 * (y - 1970),
    decreases y,
{
    if y > 1970 {
        lemma_days_before_year_grows((y - 1) as nat);
    }
}

/// The months of a year add up to the year.
proof fn lemma_months_fill_year(y: nat)
    ensures
        days_before_month(y, 13) == year_length(y),
{
    reveal_with_fuel(days_before_month, 13);
}

/// Whether `year` is a leap year.
pub fn is_leap_year(year: u32) -> (r: bool)
    ensures
        r == leap(year as nat),
{
    (year % 4 == 0 && year % 100 != 0) || year % 400 == 0
}

/// The date `days` days after 1970-01-01, as (year, month, day).
pub fn days_since_epoch_to_date(days: u64) -> (r: (u32, u32, u32))
    requires
        days < 365 * 4_000_000_000,
    ensures
        is_date_of(days as nat, r.0 as nat, r.1 as nat, r.2 as nat),
{
    let mut rest: u64 = days;
    let mut year: u32 = 1970;
    loop
        invariant
            year >= 1970,
            rest <= days,
            days < 365 * 4_000_000_000,
            days_before_year(year as nat) + rest == days,
        ensures
            year >= 1970,
            days_before_year(year as nat) + rest == days,
            rest < year_length(year as nat),
        decreases rest,
    {
        proof {
            lemma_days_before_year_grows(year as nat);
        }
        let days_in_year: u64 = if is_leap_year(year) {
            366
        } else {
            365
        };
        if rest >= days_in_year {
            proof {
                lemma_days_before_year_grows(year as nat + 1);
                assert(days_before_year(year as nat + 1) == days_before_year(year as nat)
                    + year_length(year as nat));
            }
            rest = rest - days_in_year;
            year = year + 1;
        } else {
            break;
        }
    }
    let leap_year = is_leap_year(year);
    proof {
        lemma_months_fill_year(year as nat);
    }
    let mut month: u32 = 1;
    loop
        invariant
            1 <= month <= 12,
            leap_year == leap(year as nat),
            year >= 1970,
            days_before_year(year as nat) + days_before_month(year as nat, month as nat) + rest
                == days,
            days_before_month(year as nat, month as nat) + rest < year_length(year as nat),
            days_before_month(year as nat, 13) == year_length(year as nat),
        ensures
            1 <= month <= 12,
            days_before_year(year as nat) + days_before_month(year as nat, month as nat) + rest
                == days,
            rest < month_length(year as nat, month as nat),
        decreases 12 - month,
    {
        let days_in_month: u64 = if month == 2 {
            if leap_year {
                29
            } else {
                28
            }
        } else if month == 4 || month == 6 || month == 9 || month == 11 {
            30
        } else {
            31
        };
        assert(days_in_month == month_length(year as nat, month as nat));
        if rest < days_in_month {
            break;
        }
        assert(days_before_month(year as nat, month as nat + 1) == days_before_month(
            year as nat,
            month as nat,
        ) + month_length(year as nat, month as nat));
        if month == 12 {
            assert(false);
        }
        rest = rest - days_in_month;
        month = month + 1;
    }
    (year, month, (rest + 1) as u32)
}

/// Appends `n` as two digits.
fn append_two_digits(s: &mut String, n: u64)
    ensures
        final(s)@ == old(s)@ + two_digits(n as nat),
{
    s.append(digit_text((n / 10) % 10));
    s.append(digit_text(n % 10));
    assert(final(s)@ =~= old(s)@ + two_digits(n as nat)) by {
        assert(((n / 10) % 10) as nat % 10 == (n as nat / 10) % 10);
    }
}

/// Appends `n` as four digits.
fn append_four_digits(s: &mut String, n: u64)
    ensures
        final(s)@ == old(s)@ + four_digits(n as nat),
{
    s.append(digit_text((n / 1000) % 10));
    s.append(digit_text((n / 100) % 10));
    s.append(digit_text((n / 10) % 10));
    s.append(digit_text(n % 10));
    assert(final(s)@ =~= old(s)@ + four_digits(n as nat));
}

/// A Unix timestamp as `YYYY-MM-DD HH:MM:SS UTC`.
pub fn format_timestamp(timestamp: u32) -> (r: String)
    ensures
        exists|y: nat, mo: nat, d: nat|
            #[trigger] is_date_of(timestamp as nat / 86400, y, mo, d) && r@ == stamp_text(
                y,
                mo,
                d,
                (timestamp as nat % 86400) / 3600,
                (timestamp as nat % 3600) / 60,
                timestamp as nat % 60,
            ),
{
    let total: u64 = timestamp as u64;
    let days = total / 86400;
    let hours = (total % 86400) / 3600;
    let minutes = (total % 3600) / 60;
    let seconds = total % 60;
    let (year, month, day) = days_since_epoch_to_date(days);
    let mut r = String::new();
    append_four_digits(&mut r, year as u64);
    r.append("-");
    append_two_digits(&mut r, month as u64);
    r.append("-");
    append_two_digits(&mut r, day as u64);
    r.append(" ");
    append_two_digits(&mut r, hours);
    r.append(":");
    append_two_digits(&mut r, minutes);
    r.append(":");
    append_two_digits(&mut r, seconds);
    r.append(" UTC");
    assert(r@ =~= stamp_text(
        year as nat,
        month as nat,
        day as nat,
        hours as nat,
        minutes as nat,
        seconds as nat,
    ));
    assert(is_date_of(timestamp as nat / 86400, year as nat, month as nat, day as nat));
    r
}

} // verus!
