//! Proleptic Gregorian calendar arithmetic from the Unix epoch.
use vstd::prelude::*;

verus! {

/// Leap years of the Gregorian calendar.
pub open spec fn leap(year: int) -> bool {
    (year % 4 == 0 && year % 100 != 0) || year % 400 == 0
}

/// Days in `year`.
pub open spec fn year_len(year: int) -> int {
    if leap(year) {
        366
    } else {
        365
    }
}

/// Days from 1970-01-01 to January 1st of `year` (for `year >= 1970`).
pub open spec fn year_start(year: int) -> int
    decreases year - 1970,
{
    if year <= 1970 {
        0
    } else {
        year_start(year - 1) + year_len(year - 1)
    }
}

/// Days in month `month` (1 to 12) of `year`.
pub open spec fn month_len(year: int, month: int) -> int {
    if month == 2 {
        if leap(year) {
            29
        } else {
            28
        }
    } else if month == 4 || month == 6 || month == 9 || month == 11 {
        30
    } else {
        31
    }
}

/// Days from January 1st to the first day of `month` in `year`.
pub open spec fn month_start(year: int, month: int) -> int
    decreases month,
{
    if month <= 1 {
        0
    } else {
        month_start(year, month - 1) + month_len(year, month - 1)
    }
}

/// A calendar date on or after 1970-01-01.
pub open spec fn valid_date(year: int, month: int, day: int) -> bool {
    year >= 1970 && 1 <= month <= 12 && 1 <= day <= month_len(year, month)
}

/// Days since the epoch of a date.
pub open spec fn date_to_days(year: int, month: int, day: int) -> int {
    year_start(year) + month_start(year, month) + day - 1
}

/// Whether `year` is a leap year.
pub fn is_leap(year: u64) -> (r: bool)
    ensures
        r == leap(year as int),
{
    (year % 4 == 0 && year % 100 != 0) || year % 400 == 0
}

proof fn lemma_year_start_step(year: int)
    requires
        year >= 1970,
    ensures
        year_start(year + 1) == year_start(year) + year_len(year),
{
}

proof fn lemma_month_start_full(year: int)
    ensures
        month_start(year, 13) == year_len(year),
{
    reveal_with_fuel(month_start, 13);
}

proof fn lemma_month_start_mono(year: int, a: int, b: int)
    requires
        1 <= a <= b <= 13,
    ensures
        month_start(year, a) + (b - a) * 28 <= month_start(year, b),
    decreases b - a,
{
    if a < b {
        lemma_month_start_mono(year, a, b - 1);
    }
}

proof fn lemma_year_start_mono(a: int, b: int)
    requires
        1970 <= a <= b,
    ensures
        year_start(a) + (b - a) * 365 <= year_start(b),
    decreases b - a,
{
    if a < b {
        lemma_year_start_mono(a, b - 1);
    }
}

/// Days in `year` (365 or 366).
pub fn days_in_year(year: u64) -> (r: u64)
    ensures
        r == year_len(year as int),
{
    if is_leap(year) {
        366
    } else {
        365
    }
}

/// The date that lies `days` days after 1970-01-01, as (year, month, day).
pub fn days_to_ymd(days: u64) -> (r: (u64, u64, u64))
    ensures
        valid_date(r.0 as int, r.1 as int, r.2 as int),
        date_to_days(r.0 as int, r.1 as int, r.2 as int) == days,
{
    let mut rest = days;
    let mut year: u64 = 1970;
    while rest >= days_in_year(year)
        invariant
            1970 <= year,
            year - 1970 <= days / 365,
            year_start(year as int) + rest == days,
            rest <= days,
        decreases rest,
    {
        rest = rest - days_in_year(year);
        proof {
            lemma_year_start_step(year as int);
            lemma_year_start_mono(1970, year as int + 1);
        }
        year = year + 1;
    }
    let leap = is_leap(year);
    let feb: u64 = if leap {
        29
    } else {
        28
    };
    let month_days: [u64; 12] = [31, feb, 31, 30, 31, 30, 31, 31, 30, 31, 30, 31];
    let ghost y = year as int;
    proof {
        lemma_month_start_full(y);
    }
    assert(forall|k: int| 0 <= k < 12 ==> month_days@[k] == month_len(y, k + 1));
    let mut month: u64 = 1;
    let mut i: usize = 0;
    while i < 12 && rest >= month_days[i]
        invariant
            i <= 12,
            month == i + 1,
            month_start(y, month as int) + rest == days - year_start(y),
            rest < year_len(y),
            month_start(y, 13) == year_len(y),
            forall|k: int| 0 <= k < 12 ==> month_days@[k] == month_len(y, k + 1),
        decreases 12 - i,
    {
        rest = rest - month_days[i];
        month = month + 1;
        i = i + 1;
    }
    proof {
        if i == 12 {
            assert(false);
        }
    }
    (year, month, rest + 1)
}

/// Two valid dates with the same day count are the same date: the day count
/// since the epoch names each date once.
pub proof fn date_days_injective(y1: int, m1: int, d1: int, y2: int, m2: int, d2: int)
    requires
        valid_date(y1, m1, d1),
        valid_date(y2, m2, d2),
        date_to_days(y1, m1, d1) == date_to_days(y2, m2, d2),
    ensures
        y1 == y2 && m1 == m2 && d1 == d2,
{
    lemma_day_of_year_bounds(y1, m1, d1);
    lemma_day_of_year_bounds(y2, m2, d2);
    if y1 < y2 {
        lemma_year_start_mono(y1 + 1, y2);
        lemma_year_start_step(y1);
        assert(false);
    } else if y2 < y1 {
        lemma_year_start_mono(y2 + 1, y1);
        lemma_year_start_step(y2);
        assert(false);
    }
    if m1 < m2 {
        lemma_month_start_mono(y1, m1 + 1, m2);
        assert(false);
    } else if m2 < m1 {
        lemma_month_start_mono(y1, m2 + 1, m1);
        assert(false);
    }
}

proof fn lemma_day_of_year_bounds(y: int, m: int, d: int)
    requires
        valid_date(y, m, d),
    ensures
        0 <= month_start(y, m) + d - 1 < year_len(y),
        month_start(y, m) + d - 1 < month_start(y, m + 1),
{
    lemma_month_start_full(y);
    lemma_month_start_mono(y, m + 1, 13);
    lemma_month_start_mono(y, 1, m);
}

/// Every valid date is what `days_to_ymd` gives back for its day count.
pub proof fn days_to_ymd_inverts_date_to_days(year: int, month: int, day: int, r: (u64, u64, u64))
    requires
        valid_date(year, month, day),
        valid_date(r.0 as int, r.1 as int, r.2 as int),
        date_to_days(r.0 as int, r.1 as int, r.2 as int) == date_to_days(year, month, day),
    ensures
        r.0 == year && r.1 == month && r.2 == day,
{
    date_days_injective(r.0 as int, r.1 as int, r.2 as int, year, month, day);
}

/// Every day count since the epoch names a date.
pub proof fn every_day_has_a_date(days: nat)
    ensures
        exists|d: (int, int, int)| #[trigger] valid_date(d.0, d.1, d.2) && date_to_days(d.0, d.1, d.2) == days,
    decreases days,
{
    if days == 0 {
        let w = (1970int, 1int, 1int);
        assert(valid_date(w.0, w.1, w.2) && date_to_days(w.0, w.1, w.2) == 0);
    } else {
        every_day_has_a_date((days - 1) as nat);
        let p = choose|d: (int, int, int)| #[trigger] valid_date(d.0, d.1, d.2) && date_to_days(d.0, d.1, d.2) == days - 1;
        let (y, m, d) = p;
        if d < month_len(y, m) {
            let w = (y, m, d + 1);
            assert(valid_date(w.0, w.1, w.2) && date_to_days(w.0, w.1, w.2) == days);
        } else if m < 12 {
            let w = (y, m + 1, 1int);
            assert(month_start(y, m + 1) == month_start(y, m) + month_len(y, m));
            assert(valid_date(w.0, w.1, w.2) && date_to_days(w.0, w.1, w.2) == days);
        } else {
            let w = (y + 1, 1int, 1int);
            lemma_month_start_full(y);
            lemma_year_start_step(y);
            assert(month_start(y, 13) == month_start(y, 12) + month_len(y, 12));
            assert(valid_date(w.0, w.1, w.2) && date_to_days(w.0, w.1, w.2) == days);
        }
    }
}

/// Later day counts name later dates: dates in calendar order are dates in
/// the order of their day counts.
pub proof fn dates_follow_days(y1: int, m1: int, d1: int, y2: int, m2: int, d2: int)
    requires
        valid_date(y1, m1, d1),
        valid_date(y2, m2, d2),
        date_to_days(y1, m1, d1) < date_to_days(y2, m2, d2),
    ensures
        y1 < y2 || (y1 == y2 && (m1 < m2 || (m1 == m2 && d1 < d2))),
{
    lemma_day_of_year_bounds(y1, m1, d1);
    lemma_day_of_year_bounds(y2, m2, d2);
    if y1 > y2 {
        lemma_year_start_mono(y2 + 1, y1);
        lemma_year_start_step(y2);
        assert(false);
    } else if y1 == y2 && m1 > m2 {
        lemma_month_start_mono(y1, m2 + 1, m1);
        assert(false);
    }
}

} // verus!
