//! The proleptic Gregorian calendar: which (year, month, day) triples are
//! calendar dates, and the day number of each date, so that the difference of
//! two day numbers is the calendar day offset between the dates. Date
//! arithmetic itself is delegated to the `chrono` crate behind two trusted
//! wrappers whose contracts are stated over these specifications.

use vstd::prelude::*;
use vstd::arithmetic::div_mod::{
    lemma_fundamental_div_mod, lemma_fundamental_div_mod_converse, lemma_mod_bound,
    lemma_mod_multiples_vanish,
};
use chrono::Datelike;

verus! {

/// The smallest year that a `chrono::NaiveDate` can hold.
pub const MIN_CIVIL_YEAR: i32 = -262143;

/// The largest year that a `chrono::NaiveDate` can hold.
pub const MAX_CIVIL_YEAR: i32 = 262142;

pub open spec fn is_leap_year(y: int) -> bool {
    (y % 4 == 0 && y % 100 != 0) || y % 400 == 0
}

pub open spec fn days_in_month(y: int, m: int) -> int {
    if m == 2 {
        if is_leap_year(y) {
            29
        } else {
            28
        }
    } else if m == 4 || m == 6 || m == 9 || m == 11 {
        30
    } else {
        31
    }
}

/// A calendar date that `chrono::NaiveDate` can represent.
pub open spec fn valid_civil_date(y: int, m: int, d: int) -> bool {
    &&& MIN_CIVIL_YEAR <= y <= MAX_CIVIL_YEAR
    &&& 1 <= m <= 12
    &&& 1 <= d <= days_in_month(y, m)
}

/// Days of year `y` that lie before month `m`.
pub open spec fn days_before_month(y: int, m: int) -> int
    decreases m,
{
    if m <= 1 {
        0
    } else {
        days_before_month(y, m - 1) + days_in_month(y, m - 1)
    }
}

/// Leap years among the years `1..=y` (for non-negative `y`; the same
/// expression continues the count consistently to negative years).
pub open spec fn leaps_upto(y: int) -> int {
    y / 4 - y / 100 + y / 400
}

/// The day number of a date: day 1 is January 1 of year 1, and consecutive
/// calendar days have consecutive numbers.
pub open spec fn day_number(y: int, m: int, d: int) -> int {
    365 * (y - 1) + leaps_upto(y - 1) + days_before_month(y, m) + d
}

/// The date with day number `n`, when one exists.
pub open spec fn date_of_day_number(n: int) -> (int, int, int) {
    choose|t: (int, int, int)| valid_civil_date(t.0, t.1, t.2) && day_number(t.0, t.1, t.2) == n
}

/// Exact check of `valid_civil_date`.
pub fn is_valid_civil_date(y: i32, m: u32, d: u32) -> (r: bool)
    ensures
        r == valid_civil_date(y as int, m as int, d as int),
{
    if y < MIN_CIVIL_YEAR || y > MAX_CIVIL_YEAR || m < 1 || m > 12 || d < 1 {
        return false;
    }
    // Shift by a positive multiple of 400 so that the remainder arithmetic
    // stays in the non-negative range.
    let yy = y + 262400;
    proof {
        lemma_mod_multiples_vanish(65600, y as int, 4);
        lemma_mod_multiples_vanish(2624, y as int, 100);
        lemma_mod_multiples_vanish(656, y as int, 400);
    }
    let leap = (yy % 4 == 0 && yy % 100 != 0) || yy % 400 == 0;
    let dim: u32 = if m == 2 {
        if leap {
            29
        } else {
            28
        }
    } else if m == 4 || m == 6 || m == 9 || m == 11 {
        30
    } else {
        31
    };
    d <= dim
}

/// Relies on `chrono::NaiveDate::from_ymd_opt`, which accepts exactly the
/// dates of `valid_civil_date`, on `NaiveDate::and_hms_opt`, and on
/// `NaiveDateTime` subtraction: the difference between two dates of the
/// proleptic Gregorian calendar, both normalized to midday, is a whole
/// number of days, the difference of their day numbers.
#[verifier::external_body]
pub(crate) fn chrono_days_between(by: i32, bm: u32, bd: u32, ty: i32, tm: u32, td: u32) -> (r:
    i64)
    requires
        valid_civil_date(by as int, bm as int, bd as int),
        valid_civil_date(ty as int, tm as int, td as int),
    ensures
        r == day_number(ty as int, tm as int, td as int) - day_number(
            by as int,
            bm as int,
            bd as int,
        ),
{
    let base = chrono::NaiveDate::from_ymd_opt(by, bm, bd).unwrap().and_hms_opt(12, 0, 0).unwrap();
    let target = chrono::NaiveDate::from_ymd_opt(ty, tm, td).unwrap().and_hms_opt(
        12,
        0,
        0,
    ).unwrap();
    (target - base).num_days()
}

/// Relies on `chrono::NaiveDate::from_ymd_opt`, `NaiveDate::checked_add_days`
/// and the `Datelike` accessors: the result is the calendar date `days` days
/// after the given date, or `None` exactly when it would fall beyond the
/// last date that `NaiveDate` represents, December 31 of `MAX_CIVIL_YEAR`.
#[verifier::external_body]
pub(crate) fn chrono_date_after(by: i32, bm: u32, bd: u32, days: u64) -> (r: Option<
    (i32, u32, u32),
>)
    requires
        valid_civil_date(by as int, bm as int, bd as int),
    ensures
        r matches Some((y, m, d)) ==> valid_civil_date(y as int, m as int, d as int)
            && day_number(y as int, m as int, d as int) == day_number(
            by as int,
            bm as int,
            bd as int,
        ) + days,
        r is Some <==> day_number(by as int, bm as int, bd as int) + days <= day_number(
            MAX_CIVIL_YEAR as int,
            12,
            31,
        ),
{
    let base = chrono::NaiveDate::from_ymd_opt(by, bm, bd).unwrap();
    match base.checked_add_days(chrono::Days::new(days)) {
        Some(t) => Some((t.year(), t.month(), t.day())),
        None => None,
    }
}

proof fn lemma_dbm_nonneg(y: int, m: int)
    requires
        m >= 1,
    ensures
        days_before_month(y, m) >= 0,
    decreases m,
{
    if m > 1 {
        lemma_dbm_nonneg(y, m - 1);
    }
}

proof fn lemma_dbm_monotone(y: int, m1: int, m2: int)
    requires
        1 <= m1 <= m2 <= 13,
    ensures
        days_before_month(y, m1) <= days_before_month(y, m2),
    decreases m2 - m1,
{
    if m1 < m2 {
        lemma_dbm_monotone(y, m1, m2 - 1);
        assert(days_before_month(y, m2) == days_before_month(y, m2 - 1) + days_in_month(
            y,
            m2 - 1,
        ));
    }
}

proof fn lemma_dbm_13(y: int)
    ensures
        days_before_month(y, 13) == 365 + if is_leap_year(y) {
            1int
        } else {
            0int
        },
{
    reveal_with_fuel(days_before_month, 13);
}

/// The day of the year lies between 1 and the length of the year.
proof fn lemma_doy_bounds(y: int, m: int, d: int)
    requires
        1 <= m <= 12,
        1 <= d <= days_in_month(y, m),
    ensures
        1 <= days_before_month(y, m) + d,
        days_before_month(y, m) + d <= 365 + if is_leap_year(y) {
            1int
        } else {
            0int
        },
{
    lemma_dbm_nonneg(y, m);
    lemma_dbm_monotone(y, m + 1, 13);
    lemma_dbm_13(y);
    assert(days_before_month(y, m + 1) == days_before_month(y, m) + days_in_month(y, m));
}

/// For positive `k`, the quotient `y / k` exceeds `(y - 1) / k` exactly when
/// `k` divides `y`.
proof fn lemma_div_step(y: int, k: int)
    requires
        k > 0,
    ensures
        y / k - (y - 1) / k == if y % k == 0 {
            1int
        } else {
            0int
        },
{
    lemma_fundamental_div_mod(y, k);
    lemma_mod_bound(y, k);
    let q = y / k;
    let r = y % k;
    assert(y == k * q + r);
    if r == 0 {
        assert(y - 1 == (q - 1) * k + (k - 1)) by (nonlinear_arith)
            requires
                y == k * q + r,
                r == 0,
        ;
        lemma_fundamental_div_mod_converse(y - 1, k, q - 1, k - 1);
    } else {
        assert(y - 1 == q * k + (r - 1)) by (nonlinear_arith)
            requires
                y == k * q + r,
        ;
        lemma_fundamental_div_mod_converse(y - 1, k, q, r - 1);
    }
}

proof fn lemma_leaps_step(y: int)
    ensures
        leaps_upto(y) - leaps_upto(y - 1) == if is_leap_year(y) {
            1int
        } else {
            0int
        },
{
    lemma_div_step(y, 4);
    lemma_div_step(y, 100);
    lemma_div_step(y, 400);
    if y % 400 == 0 {
        lemma_fundamental_div_mod(y, 400);
        lemma_fundamental_div_mod_converse(y, 100, 4 * (y / 400), 0);
        lemma_fundamental_div_mod_converse(y, 4, 100 * (y / 400), 0);
    } else if y % 100 == 0 {
        lemma_fundamental_div_mod(y, 100);
        lemma_fundamental_div_mod_converse(y, 4, 25 * (y / 100), 0);
    }
}

/// From January 1 of year `y` to January 1 of year `y + 1` there are 365 or
/// 366 days, depending on whether `y` is a leap year.
proof fn lemma_jan1_step(y: int)
    ensures
        day_number(y + 1, 1, 1) == day_number(y, 1, 1) + 365 + if is_leap_year(y) {
            1int
        } else {
            0int
        },
{
    lemma_leaps_step(y);
}

proof fn lemma_jan1_monotone(y1: int, y2: int)
    requires
        y1 <= y2,
    ensures
        day_number(y1, 1, 1) + 365 * (y2 - y1) <= day_number(y2, 1, 1),
    decreases y2 - y1,
{
    if y1 < y2 {
        lemma_jan1_monotone(y1, y2 - 1);
        lemma_jan1_step(y2 - 1);
    }
}

/// Day numbers respect the calendar order of dates.
proof fn lemma_day_number_lt(y1: int, m1: int, d1: int, y2: int, m2: int, d2: int)
    requires
        valid_civil_date(y1, m1, d1),
        valid_civil_date(y2, m2, d2),
        y1 < y2 || (y1 == y2 && m1 < m2) || (y1 == y2 && m1 == m2 && d1 < d2),
    ensures
        day_number(y1, m1, d1) < day_number(y2, m2, d2),
{
    if y1 < y2 {
        lemma_doy_bounds(y1, m1, d1);
        lemma_doy_bounds(y2, m2, d2);
        lemma_jan1_step(y1);
        lemma_jan1_monotone(y1 + 1, y2);
    } else if m1 < m2 {
        lemma_dbm_monotone(y1, m1 + 1, m2);
        assert(days_before_month(y1, m1 + 1) == days_before_month(y1, m1) + days_in_month(
            y1,
            m1,
        ));
    }
}

/// Two valid dates with one day number are one date.
pub proof fn lemma_day_number_injective(y1: int, m1: int, d1: int, y2: int, m2: int, d2: int)
    requires
        valid_civil_date(y1, m1, d1),
        valid_civil_date(y2, m2, d2),
        day_number(y1, m1, d1) == day_number(y2, m2, d2),
    ensures
        y1 == y2 && m1 == m2 && d1 == d2,
{
    if y1 < y2 || (y1 == y2 && m1 < m2) || (y1 == y2 && m1 == m2 && d1 < d2) {
        lemma_day_number_lt(y1, m1, d1, y2, m2, d2);
    } else if y2 < y1 || (y2 == y1 && m2 < m1) || (y2 == y1 && m2 == m1 && d2 < d1) {
        lemma_day_number_lt(y2, m2, d2, y1, m1, d1);
    }
}

/// No valid date lies beyond the last representable one.
pub proof fn lemma_day_number_le_max(y: int, m: int, d: int)
    requires
        valid_civil_date(y, m, d),
    ensures
        day_number(y, m, d) <= day_number(MAX_CIVIL_YEAR as int, 12, 31),
{
    if y < MAX_CIVIL_YEAR as int {
        lemma_day_number_lt(y, m, d, MAX_CIVIL_YEAR as int, 12, 31);
    } else if m < 12 || (m == 12 && d < 31) {
        lemma_day_number_lt(y, m, d, MAX_CIVIL_YEAR as int, 12, 31);
    }
}

} // verus!
