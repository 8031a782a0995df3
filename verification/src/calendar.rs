//! Proleptic Gregorian calendar rules used to judge expiration dates.

use vstd::arithmetic::div_mod::{lemma_fundamental_div_mod, lemma_mod_multiples_basic};
use vstd::prelude::*;

verus! {

/// Whether `n` is an exact multiple of `d`.
pub open spec fn divides(d: int, n: int) -> bool {
    n % d == 0
}

/// The Gregorian leap-year rule: every fourth year, except centuries,
/// except every fourth century.
pub open spec fn leap_year(year: int) -> bool {
    (divides(4, year) && !divides(100, year)) || divides(400, year)
}

/// Whether `month` is one of the seven months with 31 days.
pub open spec fn long_month(month: int) -> bool {
    month == 1 || month == 3 || month == 5 || month == 7 || month == 8 || month == 10 || month
        == 12
}

/// The number of days that `month` of `year` allows. February has 28 or 29,
/// the seven long months have 31, and every other month number has 30.
pub open spec fn days_in_month(year: int, month: int) -> int {
    if month == 2 {
        if leap_year(year) { 29 } else { 28 }
    } else if long_month(month) {
        31
    } else {
        30
    }
}

/// Whether `day` exists in `month` of `year`.
pub open spec fn valid_calendar_date(year: int, month: int, day: int) -> bool {
    1 <= day <= days_in_month(year, month)
}

/// Decides the leap-year rule for `year`.
pub fn is_leap_year(year: i32) -> (leap: bool)
    ensures
        leap == leap_year(year as int),
{
    let by_4: bool = year % 4 == 0;
    let by_100: bool = year % 100 == 0;
    let by_400: bool = year % 400 == 0;
    proof {
        lemma_divides_sign(4, year as int);
        lemma_divides_sign(100, year as int);
        lemma_divides_sign(400, year as int);
    }
    (by_4 && !by_100) || by_400
}

/// A number and its negation have the same divisors.
proof fn lemma_divides_sign(d: int, n: int)
    requires
        d > 0,
    ensures
        divides(d, n) == divides(d, -n),
{
    if divides(d, n) {
        lemma_multiple_negated(d, n);
    }
    if divides(d, -n) {
        lemma_multiple_negated(d, -n);
    }
}

/// The negation of a multiple of `d` is a multiple of `d`.
proof fn lemma_multiple_negated(d: int, n: int)
    requires
        d > 0,
        divides(d, n),
    ensures
        divides(d, -n),
{
    lemma_fundamental_div_mod(n, d);
    let q = n / d;
    assert(-n == (-q) * d) by (nonlinear_arith)
        requires
            n == d * q,
    ;
    lemma_mod_multiples_basic(-q, d);
}

/// Decides whether `day` exists in `month` of `year`.
pub fn is_day_in_month_and_year(year: i32, month: i32, day: i32) -> (valid: bool)
    ensures
        valid == valid_calendar_date(year as int, month as int, day as int),
{
    day > 0 && ((month == 2 && (day <= 28 || day == 29 && is_leap_year(year))) || (month != 2 && (
    day <= 30 || day == 31 && has_31_days(month))))
}

/// Decides whether `month` is one of the seven months with 31 days.
fn has_31_days(month: i32) -> (long: bool)
    ensures
        long == long_month(month as int),
{
    month == 1 || month == 3 || month == 5 || month == 7 || month == 8 || month == 10 || month
        == 12
}

} // verus!
