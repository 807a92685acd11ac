//! The proleptic Gregorian calendar counted in days from 1970-01-01.
use vstd::prelude::*;

verus! {

/// Gregorian leap-year rule.
pub open spec fn is_leap_year(y: int) -> bool {
    (y % 4 == 0 && y % 100 != 0) || y % 400 == 0
}

/// Number of days in year `y`.
pub open spec fn year_length(y: int) -> nat {
    if is_leap_year(y) { 366 } else { 365 }
}

/// Number of days in month `m` (1 = January) of year `y`.
pub open spec fn month_length(y: int, m: int) -> nat {
    if m == 2 {
        if is_leap_year(y) { 29 } else { 28 }
    } else if m == 4 || m == 6 || m == 9 || m == 11 {
        30
    } else {
        31
    }
}

/// Days from 1970-01-01 to the first day of year `y`.
pub open spec fn days_before_year(y: int) -> nat
    decreases y - 1970,
{
    if y <= 1970 { 0 } else { days_before_year(y - 1) + year_length(y - 1) }
}

/// Days from the first day of year `y` to the first day of month `m`.
pub open spec fn days_before_month(y: int, m: int) -> nat
    decreases m,
{
    if m <= 1 { 0 } else { days_before_month(y, m - 1) + month_length(y, m - 1) }
}

/// `(y, m, d)` names an existing day on or after 1970-01-01.
pub open spec fn valid_date(y: int, m: int, d: int) -> bool {
    &&& y >= 1970
    &&& 1 <= m <= 12
    &&& 1 <= d <= month_length(y, m)
}

/// Number of days from 1970-01-01 to the date `(y, m, d)`.
pub open spec fn day_number(y: int, m: int, d: int) -> int {
    days_before_year(y) + days_before_month(y, m) + d - 1
}

/// The calendar date lying `days` days after 1970-01-01.
pub open spec fn date_of_day(days: nat) -> (int, int, int) {
    choose|ymd: (int, int, int)|
        valid_date(ymd.0, ymd.1, ymd.2) && day_number(ymd.0, ymd.1, ymd.2) == days
}

/// The twelve months fill the year exactly.
pub proof fn lemma_months_fill_year(y: int)
    ensures
        days_before_month(y, 13) == year_length(y),
{
    reveal_with_fuel(days_before_month, 13);
}

proof fn lemma_years_increase(y1: int, y2: int)
    requires
        1970 <= y1 < y2,
    ensures
        days_before_year(y1) + year_length(y1) <= days_before_year(y2),
    decreases y2 - y1,
{
    if y2 > y1 + 1 {
        lemma_years_increase(y1, y2 - 1);
    }
}

proof fn lemma_months_increase(y: int, m1: int, m2: int)
    requires
        1 <= m1 < m2,
    ensures
        days_before_month(y, m1) + month_length(y, m1) <= days_before_month(y, m2),
    decreases m2 - m1,
{
    if m2 > m1 + 1 {
        lemma_months_increase(y, m1, m2 - 1);
    }
}

proof fn lemma_day_within_year(y: int, m: int, d: int)
    requires
        valid_date(y, m, d),
    ensures
        days_before_month(y, m) + d - 1 < year_length(y),
{
    lemma_months_fill_year(y);
    if m < 13 {
        lemma_months_increase(y, m, 13);
    }
}

/// Distinct dates have distinct day numbers: a day number names at most one date.
pub proof fn lemma_day_number_injective(y1: int, m1: int, d1: int, y2: int, m2: int, d2: int)
    requires
        valid_date(y1, m1, d1),
        valid_date(y2, m2, d2),
        day_number(y1, m1, d1) == day_number(y2, m2, d2),
    ensures
        y1 == y2 && m1 == m2 && d1 == d2,
{
    lemma_day_within_year(y1, m1, d1);
    lemma_day_within_year(y2, m2, d2);
    if y1 < y2 {
        lemma_years_increase(y1, y2);
    } else if y2 < y1 {
        lemma_years_increase(y2, y1);
    }
    assert(y1 == y2);
    if m1 < m2 {
        lemma_months_increase(y1, m1, m2);
    } else if m2 < m1 {
        lemma_months_increase(y1, m2, m1);
    }
}

/// The day after the valid date `(y, m, d)`.
pub open spec fn next_date(y: int, m: int, d: int) -> (int, int, int) {
    if d < month_length(y, m) {
        (y, m, d + 1)
    } else if m < 12 {
        (y, m + 1, 1)
    } else {
        (y + 1, 1, 1)
    }
}

proof fn lemma_next_date(y: int, m: int, d: int)
    requires
        valid_date(y, m, d),
    ensures
        valid_date(next_date(y, m, d).0, next_date(y, m, d).1, next_date(y, m, d).2),
        day_number(next_date(y, m, d).0, next_date(y, m, d).1, next_date(y, m, d).2)
            == day_number(y, m, d) + 1,
{
    if d >= month_length(y, m) && m >= 12 {
        lemma_months_fill_year(y);
        assert(days_before_month(y, 13) == days_before_month(y, 12) + month_length(y, 12));
    }
}

/// Every count of days since 1970-01-01 falls on a calendar date.
pub proof fn lemma_every_day_has_a_date(days: nat)
    ensures
        valid_date(date_of_day(days).0, date_of_day(days).1, date_of_day(days).2),
        day_number(date_of_day(days).0, date_of_day(days).1, date_of_day(days).2) == days,
    decreases days,
{
    if days == 0 {
        lemma_date_of_day_number(1970, 1, 1);
    } else {
        lemma_every_day_has_a_date((days - 1) as nat);
        let p = date_of_day((days - 1) as nat);
        lemma_next_date(p.0, p.1, p.2);
        let q = next_date(p.0, p.1, p.2);
        lemma_date_of_day_number(q.0, q.1, q.2);
    }
}

/// Later days fall on dates no earlier, compared by year, then month, then day;
/// different days fall on different dates.
pub proof fn lemma_dates_follow_days(n1: nat, n2: nat)
    requires
        n1 <= n2,
    ensures
        ({
            let a = date_of_day(n1);
            let b = date_of_day(n2);
            a.0 < b.0 || (a.0 == b.0 && (a.1 < b.1 || (a.1 == b.1 && a.2 <= b.2)))
        }),
        n1 < n2 ==> date_of_day(n1) != date_of_day(n2),
{
    let a = date_of_day(n1);
    let b = date_of_day(n2);
    lemma_every_day_has_a_date(n1);
    lemma_every_day_has_a_date(n2);
    lemma_day_within_year(a.0, a.1, a.2);
    lemma_day_within_year(b.0, b.1, b.2);
    if a.0 > b.0 {
        lemma_years_increase(b.0, a.0);
    } else if a.0 == b.0 && a.1 > b.1 {
        lemma_months_increase(a.0, b.1, a.1);
    }
}

/// A valid date is the date of its own day number.
pub proof fn lemma_date_of_day_number(y: int, m: int, d: int)
    requires
        valid_date(y, m, d),
    ensures
        day_number(y, m, d) >= 0,
        date_of_day(day_number(y, m, d) as nat) == (y, m, d),
{
    let n = day_number(y, m, d) as nat;
    assert(valid_date((y, m, d).0, (y, m, d).1, (y, m, d).2) && day_number(y, m, d) == n);
    let w = date_of_day(n);
    lemma_day_number_injective(w.0, w.1, w.2, y, m, d);
}

} // verus!
